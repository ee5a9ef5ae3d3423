//! The store's guarantees that span several operations, proved once over
//! the model that every operation's contract speaks of.

use vstd::prelude::*;

use crate::models::QuoteModel;
use crate::repository::{
    find_quote, has_quote, lemma_create_wf, lemma_like_count_push, lemma_like_wf,
    lemma_insert_pos_bounds, lemma_quote_index_is, like_count, pair_liked, quote_index,
    spec_create, spec_like, spec_reset, wf, StoreModel,
};

verus! {

/// After a quote is created, looking its identifier up finds exactly the
/// created quote, its counter at zero.
pub proof fn created_quote_is_found(s: StoreModel, q: QuoteModel)
    requires
        wf(s),
        !has_quote(s.quotes, q.id),
        q.likes_count == 0,
    ensures
        wf(spec_create(s, q)),
        find_quote(spec_create(s, q).quotes, q.id) == Some(q),
{
    lemma_create_wf(s, q);
    let p = crate::repository::insert_pos(s.quotes, q.created_at);
    lemma_insert_pos_bounds(s.quotes, q.created_at);
    s.quotes.insert_ensures(p, q);
    assert(spec_create(s, q).quotes[p] == q);
    lemma_quote_index_is(spec_create(s, q).quotes, q.id, p);
}

/// In a well-formed store, every quote's counter equals the number of like
/// rows that reference it: the counter never drifts from the rows it
/// summarises.
pub proof fn counter_matches_like_rows(s: StoreModel, id: Seq<char>)
    requires
        wf(s),
        has_quote(s.quotes, id),
    ensures
        s.quotes[quote_index(s.quotes, id)].likes_count == like_count(s.likes, id),
{
    let i = quote_index(s.quotes, id);
    assert(0 <= i < s.quotes.len() && s.quotes[i].id == id);
}

/// A successful like leaves the pair recorded — so a second, sequential
/// like of the same pair must observe `AlreadyLiked` — and raises the
/// quote's counter by exactly one, never by more.
pub proof fn like_is_recorded_once(
    s: StoreModel,
    qid: Seq<char>,
    ip: Seq<char>,
    ua: Option<Seq<char>>,
    lid: Seq<char>,
    now: int,
)
    requires
        wf(s),
        has_quote(s.quotes, qid),
        !pair_liked(s.likes, qid, ip),
    ensures
        wf(spec_like(s, qid, ip, ua, lid, now)),
        pair_liked(spec_like(s, qid, ip, ua, lid, now).likes, qid, ip),
        has_quote(spec_like(s, qid, ip, ua, lid, now).quotes, qid),
        spec_like(s, qid, ip, ua, lid, now).quotes[quote_index(
            spec_like(s, qid, ip, ua, lid, now).quotes,
            qid,
        )].likes_count == s.quotes[quote_index(s.quotes, qid)].likes_count + 1,
        like_count(spec_like(s, qid, ip, ua, lid, now).likes, qid) == like_count(s.likes, qid) + 1,
{
    lemma_like_wf(s, qid, ip, ua, lid, now);
    let s2 = spec_like(s, qid, ip, ua, lid, now);
    let i = quote_index(s.quotes, qid);
    assert(0 <= i < s.quotes.len() && s.quotes[i].id == qid);
    let l = s2.likes[s2.likes.len() - 1];
    assert(l.quote_id == qid && l.user_ip == ip);
    assert(pair_liked(s2.likes, qid, ip));
    assert(s2.quotes[i].id == qid);
    lemma_quote_index_is(s2.quotes, qid, i);
    lemma_like_count_push(
        s.likes,
        crate::models::LikeModel {
            id: lid,
            quote_id: qid,
            user_ip: ip,
            user_agent: ua,
            created_at: now,
        },
        qid,
    );
}

/// A listing page shows quotes in creation-time order, newest first:
/// filtering and slicing keep the order the store maintains.
pub proof fn listing_is_newest_first(s: StoreModel, term: Seq<char>, page: int, page_size: int)
    requires
        wf(s),
        1 <= page,
        1 <= page_size,
    ensures
        crate::repository::sorted_by_created_desc(
            crate::repository::page_slice(
                crate::repository::filter_matching(s.quotes, term),
                page,
                page_size,
            ),
        ),
{
    crate::repository::lemma_filter_matching_sorted(s.quotes, term);
    let f = crate::repository::filter_matching(s.quotes, term);
    let p = crate::repository::page_slice(f, page, page_size);
    let start = (page - 1) * page_size;
    assert((page - 1) * page_size >= 0) by (nonlinear_arith)
        requires
            1 <= page,
            1 <= page_size,
    ;
    assert forall|a: int, b: int| 0 <= a <= b < p.len() implies p[a].created_at
        >= p[b].created_at by {
        assert(p[a] == f[start + a] && p[b] == f[start + b]);
    }
}

/// Deleting a quote takes its like rows with it: afterwards no caller
/// reads as having liked the deleted identifier, and the store is still
/// well-formed. This is the deliberate answer to whether deletion may
/// leave like rows behind: it may not.
pub proof fn delete_leaves_no_like_rows_behind(s: StoreModel, id: Seq<char>)
    requires
        wf(s),
        has_quote(s.quotes, id),
    ensures
        wf(crate::repository::spec_delete(s, id)),
        forall|ip: Seq<char>|
            !#[trigger] pair_liked(crate::repository::spec_delete(s, id).likes, id, ip),
{
    crate::repository::lemma_delete_wf(s, id);
    crate::repository::lemma_likes_without(s.likes, id);
    let w = crate::repository::spec_delete(s, id).likes;
    assert forall|ip: Seq<char>| !#[trigger] pair_liked(w, id, ip) by {
        if pair_liked(w, id, ip) {
            let k = choose|k: int| 0 <= k < w.len() && w[k].quote_id == id && w[k].user_ip == ip;
            assert(w[k].quote_id != id);
        }
    }
}

/// After a reset, every quote's counter reads zero and no pair reads as
/// liked, while identifiers, texts, authors and creation times are kept.
pub proof fn reset_clears_everything(s: StoreModel, now: int)
    ensures
        spec_reset(s, now).quotes.len() == s.quotes.len(),
        forall|k: int|
            0 <= k < s.quotes.len() ==> #[trigger] spec_reset(s, now).quotes[k].likes_count == 0,
        forall|qid: Seq<char>, ip: Seq<char>| !pair_liked(spec_reset(s, now).likes, qid, ip),
        forall|k: int|
            0 <= k < s.quotes.len() ==> #[trigger] spec_reset(s, now).quotes[k].id
                == s.quotes[k].id && spec_reset(s, now).quotes[k].text == s.quotes[k].text
                && spec_reset(s, now).quotes[k].author == s.quotes[k].author && spec_reset(
                s,
                now,
            ).quotes[k].created_at == s.quotes[k].created_at,
{
}

} // verus!
