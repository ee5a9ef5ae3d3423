//! Application configuration: values handed in by the surrounding program,
//! each falling back to a fixed default, and the connection string built
//! from them.

use vstd::prelude::*;

verus! {

/// The raw configuration values as the surrounding program found them,
/// `None` where a value was not supplied.
pub struct EnvValues {
    pub db_host: Option<String>,
    pub db_port: Option<String>,
    pub db_user: Option<String>,
    pub db_password: Option<String>,
    pub db_name: Option<String>,
    pub db_ssl_mode: Option<String>,
    pub api_port: Option<String>,
    pub cors_origin: Option<String>,
}

/// The application configuration.
#[derive(Debug)]
pub struct Config {
    pub db_host: String,
    pub db_port: String,
    pub db_user: String,
    pub db_password: String,
    pub db_name: String,
    pub db_ssl_mode: String,
    pub api_port: String,
    pub cors_origin: String,
}

/// The supplied value, or the default where none was supplied.
pub open spec fn or_default(v: Option<String>, default: Seq<char>) -> Seq<char> {
    match v {
        Some(s) => s@,
        None => default,
    }
}

/// Takes the supplied string, or the default where none was supplied.
fn value_or(v: Option<String>, default: &str) -> (r: String)
    ensures
        r@ == or_default(v, default@),
{
    match v {
        Some(s) => s,
        None => default.to_owned(),
    }
}

impl Config {
    /// Builds the configuration from the supplied values, filling each
    /// missing one with its default.
    pub fn load(env: EnvValues) -> (r: Config)
        ensures
            r.db_host@ == or_default(env.db_host, "localhost"@),
            r.db_port@ == or_default(env.db_port, "5432"@),
            r.db_user@ == or_default(env.db_user, "quotes_user"@),
            r.db_password@ == or_default(env.db_password, "quotes_password"@),
            r.db_name@ == or_default(env.db_name, "quotes_db"@),
            r.db_ssl_mode@ == or_default(env.db_ssl_mode, "disable"@),
            r.api_port@ == or_default(env.api_port, "8081"@),
            r.cors_origin@ == or_default(env.cors_origin, "*"@),
    {
        Config {
            db_host: value_or(env.db_host, "localhost"),
            db_port: value_or(env.db_port, "5432"),
            db_user: value_or(env.db_user, "quotes_user"),
            db_password: value_or(env.db_password, "quotes_password"),
            db_name: value_or(env.db_name, "quotes_db"),
            db_ssl_mode: value_or(env.db_ssl_mode, "disable"),
            api_port: value_or(env.api_port, "8081"),
            cors_origin: value_or(env.cors_origin, "*"),
        }
    }

    /// Renders the connection string for the backing store.
    pub fn database_url(&self) -> (r: String)
        ensures
            r@ == "postgresql://"@ + self.db_user@ + ":"@ + self.db_password@ + "@"@
                + self.db_host@ + ":"@ + self.db_port@ + "/"@ + self.db_name@ + "?sslmode="@
                + self.db_ssl_mode@,
    {
        let mut r = ("postgresql://").to_owned();
        r.append(self.db_user.as_str());
        r.append(":");
        r.append(self.db_password.as_str());
        r.append("@");
        r.append(self.db_host.as_str());
        r.append(":");
        r.append(self.db_port.as_str());
        r.append("/");
        r.append(self.db_name.as_str());
        r.append("?sslmode=");
        r.append(self.db_ssl_mode.as_str());
        r
    }
}

} // verus!
