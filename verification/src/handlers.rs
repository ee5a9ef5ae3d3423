//! The compute side of each request handler: clamping of caller-supplied
//! parameters, the caller-address rule, and the assembly of responses from
//! store state. The surrounding program does the transport; everything
//! that decides is here, verified.

use vstd::prelude::*;

use crate::models::{
    response_of, CreateQuoteRequest, PaginatedQuotesResponse, Quote, QuoteResponse, StoreError,
    UpdateQuoteRequest,
};
use crate::models::calculate_total_pages;
use crate::models::spec_total_pages;
use crate::repository::{
    filter_matching, has_quote, in_window, page_slice, pair_liked, quote_index, ranks_ge,
    search_term, spec_create, spec_like, spec_reset, spec_update, QuoteRepository,
};
use crate::sys::{fresh_id, now_millis};
use crate::text::{before_comma, first_segment_trimmed, trimmed};

verus! {

/// The caller-supplied listing parameters, each optional.
#[derive(Debug)]
pub struct GetAllParams {
    pub page: Option<i32>,
    pub page_size: Option<i32>,
    pub search: Option<String>,
}

/// The page number actually used: the supplied one, defaulting to 1,
/// raised to at least 1.
pub open spec fn clamp_page(p: Option<i32>) -> int {
    let v: int = match p {
        Some(x) => x as int,
        None => 1,
    };
    if v < 1 {
        1
    } else {
        v
    }
}

/// The page size actually used: the supplied one, defaulting to 10, held
/// between 1 and 100.
pub open spec fn clamp_page_size(p: Option<i32>) -> int {
    let v: int = match p {
        Some(x) => x as int,
        None => 10,
    };
    if v < 1 {
        1
    } else if v > 100 {
        100
    } else {
        v
    }
}

/// Clamps the caller-supplied page number.
fn clamp_page_exec(p: Option<i32>) -> (r: i32)
    ensures
        r == clamp_page(p),
{
    let v = match p {
        Some(x) => x,
        None => 1,
    };
    if v < 1 {
        1
    } else {
        v
    }
}

/// Clamps the caller-supplied page size.
fn clamp_page_size_exec(p: Option<i32>) -> (r: i32)
    ensures
        r == clamp_page_size(p),
{
    let v = match p {
        Some(x) => x,
        None => 10,
    };
    if v < 1 {
        1
    } else if v > 100 {
        100
    } else {
        v
    }
}

/// The caller's address: the first comma-separated entry of the forwarding
/// header, trimmed, where that header is present; else the realip header
/// as it stands; else the loopback address.
pub fn get_user_ip(forwarded_for: Option<&str>, real_ip: Option<&str>) -> (r: String)
    ensures
        (match forwarded_for {
            Some(f) => r@ == trimmed(before_comma(f@)),
            None => (match real_ip {
                Some(ip) => r@ == ip@,
                None => r@ == "127.0.0.1"@,
            }),
        }),
{
    match forwarded_for {
        Some(f) => first_segment_trimmed(f),
        None => match real_ip {
            Some(ip) => ip.to_owned(),
            None => ("127.0.0.1").to_owned(),
        },
    }
}

/// A random quote with the caller's like flag; `NotFound` on an empty
/// store. The draw is caller-supplied entropy, reduced modulo the number
/// of quotes.
pub fn get_random(repo: &QuoteRepository, draw: u64, user_ip: &str) -> (r: Result<
    QuoteResponse,
    StoreError,
>)
    requires
        repo.wf(),
    ensures
        (match r {
            Ok(resp) => repo@.quotes.len() > 0 && response_of(
                resp,
                repo@.quotes[draw as int % (repo@.quotes.len() as int)],
                pair_liked(
                    repo@.likes,
                    repo@.quotes[draw as int % (repo@.quotes.len() as int)].id,
                    user_ip@,
                ),
            ),
            Err(e) => e == StoreError::NotFound && repo@.quotes.len() == 0,
        }),
{
    let quote = match repo.get_random(draw) {
        Ok(q) => q,
        Err(e) => {
            return Err(e);
        },
    };
    let liked = repo.is_liked(quote.id.as_str(), user_ip);
    Ok(quote.to_response(liked))
}

/// The quote with the given identifier, with the caller's like flag;
/// `NotFound` where no quote matches.
pub fn get_by_id(repo: &QuoteRepository, id: &str, user_ip: &str) -> (r: Result<
    QuoteResponse,
    StoreError,
>)
    requires
        repo.wf(),
    ensures
        (match r {
            Ok(resp) => has_quote(repo@.quotes, id@) && response_of(
                resp,
                repo@.quotes[quote_index(repo@.quotes, id@)],
                pair_liked(repo@.likes, id@, user_ip@),
            ),
            Err(e) => e == StoreError::NotFound && !has_quote(repo@.quotes, id@),
        }),
{
    let quote = match repo.get_by_id(id) {
        Ok(q) => q,
        Err(e) => {
            return Err(e);
        },
    };
    let liked = repo.is_liked(quote.id.as_str(), user_ip);
    Ok(quote.to_response(liked))
}

/// One page of the listing: the clamped parameters, the matching quotes of
/// that page with the caller's like flags, the total number of matches,
/// and the page count derived from it.
pub fn get_all(repo: &QuoteRepository, params: &GetAllParams, user_ip: &str) -> (r:
    PaginatedQuotesResponse)
    requires
        repo.wf(),
        repo@.quotes.len() <= i32::MAX,
    ensures
        r.page == clamp_page(params.page),
        r.page_size == clamp_page_size(params.page_size),
        r.total == filter_matching(repo@.quotes, search_term_of(&params.search)).len(),
        r.total_pages == spec_total_pages(
            filter_matching(repo@.quotes, search_term_of(&params.search)).len() as int,
            clamp_page_size(params.page_size),
        ),
        r.quotes@.len() == page_slice(
            filter_matching(repo@.quotes, search_term_of(&params.search)),
            clamp_page(params.page),
            clamp_page_size(params.page_size),
        ).len(),
        forall|j: int|
            0 <= j < r.quotes@.len() ==> response_of(
                #[trigger] r.quotes@[j],
                page_slice(
                    filter_matching(repo@.quotes, search_term_of(&params.search)),
                    clamp_page(params.page),
                    clamp_page_size(params.page_size),
                )[j],
                pair_liked(
                    repo@.likes,
                    page_slice(
                        filter_matching(repo@.quotes, search_term_of(&params.search)),
                        clamp_page(params.page),
                        clamp_page_size(params.page_size),
                    )[j].id,
                    user_ip@,
                ),
            ),
{
    let page = clamp_page_exec(params.page);
    let page_size = clamp_page_size_exec(params.page_size);
    let search: Option<&str> = match &params.search {
        Some(s) => Some(s.as_str()),
        None => None,
    };
    proof {
        assert(search_term(search) == search_term_of(&params.search));
    }
    let (items, total) = repo.get_all(page, page_size, search);
    let ghost slice = page_slice(
        filter_matching(repo@.quotes, search_term_of(&params.search)),
        clamp_page(params.page),
        clamp_page_size(params.page_size),
    );
    let n = items.len();
    let mut responses: Vec<QuoteResponse> = Vec::new();
    let mut i: usize = 0;
    while i < n
        invariant
            repo.wf(),
            n == items@.len(),
            0 <= i <= n,
            crate::repository::quotes_view(items@) == slice,
            responses@.len() == i,
            forall|j: int|
                0 <= j < i ==> response_of(
                    #[trigger] responses@[j],
                    slice[j],
                    pair_liked(repo@.likes, slice[j].id, user_ip@),
                ),
        decreases n - i,
    {
        let q = &items[i];
        let liked = repo.is_liked(q.id.as_str(), user_ip);
        responses.push(q.to_response(liked));
        i += 1;
    }
    proof {
        crate::repository::lemma_filter_len(repo@.quotes, search_term_of(&params.search));
        let tl = filter_matching(repo@.quotes, search_term_of(&params.search)).len() as int;
        let ps = clamp_page_size(params.page_size) as int;
        assert(tl <= i32::MAX);
        if tl >= 1 {
            assert(tl + ps - 1 <= tl * ps) by (nonlinear_arith)
                requires
                    1 <= ps,
                    1 <= tl,
            ;
            vstd::arithmetic::div_mod::lemma_div_is_ordered(tl + ps - 1, tl * ps, ps);
            assert((tl * ps) / ps == tl) by (nonlinear_arith)
                requires
                    1 <= ps,
            ;
        }
        assert(spec_total_pages(tl, ps) <= i32::MAX);
    }
    let total_pages = calculate_total_pages(total, page_size);
    PaginatedQuotesResponse { quotes: responses, total, page, page_size, total_pages }
}

/// The search term of an optional search string: its characters, or the
/// empty term, which every quote matches.
pub open spec fn search_term_of(search: &Option<String>) -> Seq<char> {
    match search {
        Some(s) => s@,
        None => Seq::empty(),
    }
}

/// Creates a quote from the request: a fresh identifier, both timestamps
/// at the present instant, a counter at zero. The new quote cannot yet be
/// liked by anybody. An identifier collision surfaces as `Unavailable`.
pub fn create(repo: &mut QuoteRepository, req: CreateQuoteRequest) -> (r: Result<
    QuoteResponse,
    StoreError,
>)
    requires
        old(repo).wf(),
    ensures
        final(repo).wf(),
        (match r {
            Ok(resp) => {
                &&& resp.text@ == req.text@
                &&& resp.author@ == req.author@
                &&& resp.likes_count == 0
                &&& resp.is_liked == false
                &&& resp.created_at == resp.updated_at
                &&& resp.id@.len() == 36
                &&& !has_quote(old(repo)@.quotes, resp.id@)
                &&& final(repo)@ == spec_create(
                    old(repo)@,
                    crate::models::model_of_response(resp),
                )
            },
            Err(e) => e == StoreError::Unavailable && final(repo)@ == old(repo)@,
        }),
{
    let quote = Quote::from_request(req);
    match repo.create(&quote) {
        Ok(()) => {
            let resp = quote.to_response(false);
            proof {
                assert(crate::models::model_of_response(resp) == quote@);
            }
            Ok(resp)
        },
        Err(e) => Err(e),
    }
}

/// Applies a partial change to the quote with the given identifier at the
/// present instant and returns the quote as it then stands, with the
/// caller's like flag; `NotFound` where no quote matches.
pub fn update(
    repo: &mut QuoteRepository,
    id: &str,
    req: &UpdateQuoteRequest,
    user_ip: &str,
) -> (r: Result<QuoteResponse, StoreError>)
    requires
        old(repo).wf(),
    ensures
        final(repo).wf(),
        (match r {
            Ok(resp) => has_quote(old(repo)@.quotes, id@) && exists|now: int|
                final(repo)@ == spec_update(old(repo)@, id@, req@.text, req@.author, now)
                    && response_of(
                    resp,
                    final(repo)@.quotes[quote_index(final(repo)@.quotes, id@)],
                    pair_liked(old(repo)@.likes, id@, user_ip@),
                ),
            Err(e) => e == StoreError::NotFound && !has_quote(old(repo)@.quotes, id@)
                && final(repo)@ == old(repo)@,
        }),
{
    let now = now_millis();
    match repo.update(id, req, now) {
        Ok(()) => {},
        Err(e) => {
            return Err(e);
        },
    }
    proof {
        let i = quote_index(old(repo)@.quotes, id@);
        assert(0 <= i < old(repo)@.quotes.len() && old(repo)@.quotes[i].id == id@);
        assert(repo@.quotes[i].id == id@);
        assert(has_quote(repo@.quotes, id@));
    }
    let quote = match repo.get_by_id(id) {
        Ok(q) => q,
        Err(e) => {
            proof {
                assert(false);
            }
            return Err(e);
        },
    };
    let liked = repo.is_liked(quote.id.as_str(), user_ip);
    let resp = quote.to_response(liked);
    proof {
        assert(final(repo)@ == spec_update(old(repo)@, id@, req@.text, req@.author, now as int));
        assert(pair_liked(repo@.likes, id@, user_ip@) == pair_liked(
            old(repo)@.likes,
            id@,
            user_ip@,
        ));
    }
    Ok(resp)
}

/// Deletes the quote with the given identifier, and its like rows with it;
/// `NotFound` where no quote matches.
pub fn delete(repo: &mut QuoteRepository, id: &str) -> (r: Result<(), StoreError>)
    requires
        old(repo).wf(),
    ensures
        final(repo).wf(),
        (match r {
            Ok(()) => has_quote(old(repo)@.quotes, id@) && final(repo)@ == crate::repository::spec_delete(
                old(repo)@,
                id@,
            ),
            Err(e) => e == StoreError::NotFound && !has_quote(old(repo)@.quotes, id@)
                && final(repo)@ == old(repo)@,
        }),
{
    repo.delete(id)
}

/// Likes the quote with the given identifier on the caller's behalf, at
/// the present instant, and returns the quote as it then stands. Succeeds
/// if and only if the quote exists, the caller has not liked it, and the
/// counter is below its limit; the error otherwise tells which of the
/// three failed, the missing quote reported first.
pub fn like(repo: &mut QuoteRepository, id: &str, user_ip: &str, user_agent: Option<String>) -> (r:
    Result<QuoteResponse, StoreError>)
    requires
        old(repo).wf(),
    ensures
        final(repo).wf(),
        r is Ok <==> (has_quote(old(repo)@.quotes, id@) && !pair_liked(
            old(repo)@.likes,
            id@,
            user_ip@,
        ) && old(repo)@.quotes[quote_index(old(repo)@.quotes, id@)].likes_count < i32::MAX),
        (match r {
            Ok(resp) => exists|now: int, lid: Seq<char>|
                final(repo)@ == spec_like(
                    old(repo)@,
                    id@,
                    user_ip@,
                    crate::models::opt_str_view(&user_agent),
                    lid,
                    now,
                ) && response_of(
                    resp,
                    final(repo)@.quotes[quote_index(final(repo)@.quotes, id@)],
                    true,
                ),
            Err(e) => final(repo)@ == old(repo)@ && (match e {
                StoreError::NotFound => !has_quote(old(repo)@.quotes, id@),
                StoreError::AlreadyLiked => has_quote(old(repo)@.quotes, id@) && pair_liked(
                    old(repo)@.likes,
                    id@,
                    user_ip@,
                ),
                StoreError::Unavailable => has_quote(old(repo)@.quotes, id@) && !pair_liked(
                    old(repo)@.likes,
                    id@,
                    user_ip@,
                ) && old(repo)@.quotes[quote_index(old(repo)@.quotes, id@)].likes_count
                    == i32::MAX,
            }),
        }),
{
    let now = now_millis();
    let like_id = fresh_id();
    let ghost lid = like_id@;
    match repo.like(id, user_ip, user_agent, like_id, now) {
        Ok(()) => {},
        Err(e) => {
            return Err(e);
        },
    }
    proof {
        let i = quote_index(old(repo)@.quotes, id@);
        assert(0 <= i < old(repo)@.quotes.len() && old(repo)@.quotes[i].id == id@);
        assert(repo@.quotes[i].id == id@);
        assert(has_quote(repo@.quotes, id@));
    }
    let quote = match repo.get_by_id(id) {
        Ok(q) => q,
        Err(e) => {
            proof {
                assert(false);
            }
            return Err(e);
        },
    };
    let resp = quote.to_response(true);
    Ok(resp)
}

/// The highest-ranked quote of the trailing seven-day window at the
/// present instant, with the caller's like flag; `NotFound` where the
/// window is empty.
pub fn get_top_weekly(repo: &QuoteRepository, user_ip: &str) -> (r: Result<
    QuoteResponse,
    StoreError,
>)
    requires
        repo.wf(),
    ensures
        (match r {
            Ok(resp) => exists|i: int, now: int|
                {
                    &&& 0 <= i < repo@.quotes.len()
                    &&& in_window(repo@.quotes[i], now)
                    &&& (forall|j: int|
                        0 <= j < repo@.quotes.len() && in_window(#[trigger] repo@.quotes[j], now)
                            ==> ranks_ge(repo@.quotes[i], repo@.quotes[j]))
                    &&& response_of(
                        resp,
                        repo@.quotes[i],
                        pair_liked(repo@.likes, repo@.quotes[i].id, user_ip@),
                    )
                },
            Err(e) => e == StoreError::NotFound && exists|now: int|
                #[trigger] crate::repository::window_empty(repo@.quotes, now),
        }),
{
    let now = now_millis();
    let quote = match repo.get_top_weekly(now) {
        Ok(q) => q,
        Err(e) => {
            proof {
                assert(crate::repository::window_empty(repo@.quotes, now as int));
            }
            return Err(e);
        },
    };
    let liked = repo.is_liked(quote.id.as_str(), user_ip);
    let resp = quote.to_response(liked);
    proof {
        let i = choose|i: int| 0 <= i < repo@.quotes.len() && repo@.quotes[i] == quote@;
        assert(response_of(resp, repo@.quotes[i], pair_liked(repo@.likes, quote@.id, user_ip@)));
    }
    Ok(resp)
}

/// The highest-ranked quote overall, with the caller's like flag;
/// `NotFound` only on an empty store.
pub fn get_top_all_time(repo: &QuoteRepository, user_ip: &str) -> (r: Result<
    QuoteResponse,
    StoreError,
>)
    requires
        repo.wf(),
    ensures
        (match r {
            Ok(resp) => exists|i: int|
                {
                    &&& 0 <= i < repo@.quotes.len()
                    &&& (forall|j: int|
                        0 <= j < repo@.quotes.len() ==> ranks_ge(
                            repo@.quotes[i],
                            #[trigger] repo@.quotes[j],
                        ))
                    &&& response_of(
                        resp,
                        repo@.quotes[i],
                        pair_liked(repo@.likes, repo@.quotes[i].id, user_ip@),
                    )
                },
            Err(e) => e == StoreError::NotFound && repo@.quotes.len() == 0,
        }),
{
    let quote = match repo.get_top_all_time() {
        Ok(q) => q,
        Err(e) => {
            return Err(e);
        },
    };
    let liked = repo.is_liked(quote.id.as_str(), user_ip);
    let resp = quote.to_response(liked);
    proof {
        let i = choose|i: int| 0 <= i < repo@.quotes.len() && repo@.quotes[i] == quote@;
        assert(response_of(resp, repo@.quotes[i], pair_liked(repo@.likes, quote@.id, user_ip@)));
    }
    Ok(resp)
}

/// Resets every counter to zero and deletes every like row, at the present
/// instant, as one all-or-nothing step.
pub fn reset_likes(repo: &mut QuoteRepository) -> (r: Result<(), StoreError>)
    requires
        old(repo).wf(),
    ensures
        final(repo).wf(),
        r == Ok::<(), StoreError>(()),
        exists|now: int| final(repo)@ == spec_reset(old(repo)@, now),
{
    let now = now_millis();
    let r = repo.reset_likes(now);
    proof {
        assert(final(repo)@ == spec_reset(old(repo)@, now as int));
    }
    r
}

/// The liveness answer the surrounding program reports.
pub fn health() -> (r: String)
    ensures
        r@ == "ok"@,
{
    ("ok").to_owned()
}

} // verus!
