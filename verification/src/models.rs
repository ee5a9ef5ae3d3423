//! Data types of the quote store and their mathematical models.

use vstd::prelude::*;

use crate::sys::{fresh_id, now_millis};

verus! {

/// A persisted quotation.
#[derive(Debug)]
pub struct Quote {
    pub id: String,
    pub text: String,
    pub author: String,
    pub likes_count: i32,
    pub created_at: i64,
    pub updated_at: i64,
}

/// The mathematical model of a quote: every field as a plain spec value.
pub struct QuoteModel {
    pub id: Seq<char>,
    pub text: Seq<char>,
    pub author: Seq<char>,
    pub likes_count: int,
    pub created_at: int,
    pub updated_at: int,
}

impl View for Quote {
    type V = QuoteModel;

    open spec fn view(&self) -> QuoteModel {
        QuoteModel {
            id: self.id@,
            text: self.text@,
            author: self.author@,
            likes_count: self.likes_count as int,
            created_at: self.created_at as int,
            updated_at: self.updated_at as int,
        }
    }
}

/// A like row: the record that a caller, identified by an address string,
/// has liked one quote.
#[derive(Debug)]
pub struct Like {
    pub id: String,
    pub quote_id: String,
    pub user_ip: String,
    pub user_agent: Option<String>,
    pub created_at: i64,
}

/// The mathematical model of a like row.
pub struct LikeModel {
    pub id: Seq<char>,
    pub quote_id: Seq<char>,
    pub user_ip: Seq<char>,
    pub user_agent: Option<Seq<char>>,
    pub created_at: int,
}

impl View for Like {
    type V = LikeModel;

    open spec fn view(&self) -> LikeModel {
        LikeModel {
            id: self.id@,
            quote_id: self.quote_id@,
            user_ip: self.user_ip@,
            user_agent: match self.user_agent {
                Some(ref s) => Some(s@),
                None => None,
            },
            created_at: self.created_at as int,
        }
    }
}

/// The error taxonomy of the store, distinguishable by the caller.
#[derive(Clone, Copy, Debug, PartialEq, Eq, Structural)]
pub enum StoreError {
    /// The target of a lookup, update, delete or like does not exist, or a
    /// ranking query has no candidate.
    NotFound,
    /// A like row for the same quote and caller address already exists.
    AlreadyLiked,
    /// The operation could not be applied for reasons outside the domain,
    /// such as an identifier collision or a counter at its limit.
    Unavailable,
}

/// A request to create a quote: the free-form text and author.
#[derive(Debug)]
pub struct CreateQuoteRequest {
    pub text: String,
    pub author: String,
}

/// A request to update a quote: text and author, each independently optional.
#[derive(Debug)]
pub struct UpdateQuoteRequest {
    pub text: Option<String>,
    pub author: Option<String>,
}

/// The mathematical model of an update request.
pub struct UpdateModel {
    pub text: Option<Seq<char>>,
    pub author: Option<Seq<char>>,
}

impl View for UpdateQuoteRequest {
    type V = UpdateModel;

    open spec fn view(&self) -> UpdateModel {
        UpdateModel { text: opt_str_view(&self.text), author: opt_str_view(&self.author) }
    }
}

/// The model of an optional string.
pub open spec fn opt_str_view(o: &Option<String>) -> Option<Seq<char>> {
    match o {
        Some(s) => Some(s@),
        None => None,
    }
}

/// A quote as handed to a caller, enriched with whether that caller has
/// liked it.
#[derive(Debug)]
pub struct QuoteResponse {
    pub id: String,
    pub text: String,
    pub author: String,
    pub likes_count: i32,
    pub is_liked: bool,
    pub created_at: i64,
    pub updated_at: i64,
}

/// One page of quotes together with the pagination facts.
#[derive(Debug)]
pub struct PaginatedQuotesResponse {
    pub quotes: Vec<QuoteResponse>,
    pub total: i64,
    pub page: i32,
    pub page_size: i32,
    pub total_pages: i32,
}

impl Clone for Quote {
    fn clone(&self) -> (r: Self)
        ensures
            r == *self,
    {
        Quote {
            id: self.id.clone(),
            text: self.text.clone(),
            author: self.author.clone(),
            likes_count: self.likes_count,
            created_at: self.created_at,
            updated_at: self.updated_at,
        }
    }
}

impl Clone for Like {
    fn clone(&self) -> (r: Self)
        ensures
            r == *self,
    {
        Like {
            id: self.id.clone(),
            quote_id: self.quote_id.clone(),
            user_ip: self.user_ip.clone(),
            user_agent: match &self.user_agent {
                Some(s) => Some(s.clone()),
                None => None,
            },
            created_at: self.created_at,
        }
    }
}

impl Quote {
    /// Turns a quote into the response shape, with the caller-specific
    /// `is_liked` flag supplied by the caller.
    pub fn to_response(&self, is_liked: bool) -> (r: QuoteResponse)
        ensures
            r.id@ == self.id@,
            r.text@ == self.text@,
            r.author@ == self.author@,
            r.likes_count == self.likes_count,
            r.is_liked == is_liked,
            r.created_at == self.created_at,
            r.updated_at == self.updated_at,
    {
        QuoteResponse {
            id: self.id.clone(),
            text: self.text.clone(),
            author: self.author.clone(),
            likes_count: self.likes_count,
            is_liked,
            created_at: self.created_at,
            updated_at: self.updated_at,
        }
    }

    /// Builds a fully-formed quote from a create request: a freshly
    /// generated identifier, a counter at zero, and both timestamps set to
    /// the same present instant.
    pub fn from_request(req: CreateQuoteRequest) -> (r: Quote)
        ensures
            r.text@ == req.text@,
            r.author@ == req.author@,
            r.likes_count == 0,
            r.created_at == r.updated_at,
            r.id@.len() == 36,
    {
        let now = now_millis();
        Quote {
            id: fresh_id(),
            text: req.text,
            author: req.author,
            likes_count: 0,
            created_at: now,
            updated_at: now,
        }
    }
}

/// The model quote a response describes: its fields read back as plain
/// values.
pub open spec fn model_of_response(resp: QuoteResponse) -> QuoteModel {
    QuoteModel {
        id: resp.id@,
        text: resp.text@,
        author: resp.author@,
        likes_count: resp.likes_count as int,
        created_at: resp.created_at as int,
        updated_at: resp.updated_at as int,
    }
}

/// The response fields mirror the model quote, with the caller-specific
/// flag as given.
pub open spec fn response_of(resp: QuoteResponse, q: QuoteModel, liked: bool) -> bool {
    &&& resp.id@ == q.id
    &&& resp.text@ == q.text
    &&& resp.author@ == q.author
    &&& resp.likes_count == q.likes_count
    &&& resp.is_liked == liked
    &&& resp.created_at == q.created_at
    &&& resp.updated_at == q.updated_at
}

/// The number of pages needed for `total` items at `page_size` items per
/// page: the division rounded up.
pub open spec fn spec_total_pages(total: int, page_size: int) -> int {
    (total + page_size - 1) / page_size
}

/// Computes how many pages `total` items fill at `page_size` items per page.
pub fn calculate_total_pages(total: i64, page_size: i32) -> (r: i32)
    requires
        0 <= total,
        1 <= page_size,
        total <= i64::MAX - page_size,
        spec_total_pages(total as int, page_size as int) <= i32::MAX,
    ensures
        r == spec_total_pages(total as int, page_size as int),
{
    let r: i64 = (total + page_size as i64 - 1) / page_size as i64;
    r as i32
}

} // verus!
