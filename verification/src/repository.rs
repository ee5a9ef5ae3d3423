//! The quote store: sole authority over quote and like state, with a
//! well-formedness invariant tying every quote's `likes_count` to the number
//! of like rows that reference it and keeping `(quote_id, user_ip)` unique.

use vstd::prelude::*;

use crate::models::{opt_str_view, Like, LikeModel, Quote, QuoteModel, StoreError, UpdateQuoteRequest};
use crate::text::{contains_ci, matches_at, str_contains_ci, str_eq};

verus! {

/// The mathematical model of the whole store: the two collections as
/// sequences of plain values.
pub struct StoreModel {
    pub quotes: Seq<QuoteModel>,
    pub likes: Seq<LikeModel>,
}

/// The model of a sequence of quotes.
pub open spec fn quotes_view(v: Seq<Quote>) -> Seq<QuoteModel> {
    v.map_values(|q: Quote| q@)
}

/// The model of a sequence of like rows.
pub open spec fn likes_view(v: Seq<Like>) -> Seq<LikeModel> {
    v.map_values(|l: Like| l@)
}

/// No two quotes share an identifier.
pub open spec fn quote_ids_unique(qs: Seq<QuoteModel>) -> bool {
    forall|i: int, j: int| 0 <= i < j < qs.len() ==> qs[i].id != qs[j].id
}

/// No two like rows share the `(quote_id, user_ip)` pair.
pub open spec fn like_pairs_unique(ls: Seq<LikeModel>) -> bool {
    forall|i: int, j: int|
        0 <= i < j < ls.len() ==> !(ls[i].quote_id == ls[j].quote_id && ls[i].user_ip
            == ls[j].user_ip)
}

/// How many like rows reference the quote with identifier `qid`.
pub open spec fn like_count(ls: Seq<LikeModel>, qid: Seq<char>) -> int
    decreases ls.len(),
{
    if ls.len() == 0 {
        0
    } else {
        like_count(ls.drop_last(), qid) + if ls.last().quote_id == qid {
            1int
        } else {
            0int
        }
    }
}

/// Some quote in `qs` has identifier `id`.
pub open spec fn has_quote(qs: Seq<QuoteModel>, id: Seq<char>) -> bool {
    exists|i: int| 0 <= i < qs.len() && qs[i].id == id
}

/// The index of the quote with identifier `id`; meaningful only where
/// `has_quote` holds and identifiers are unique.
pub open spec fn quote_index(qs: Seq<QuoteModel>, id: Seq<char>) -> int {
    choose|i: int| 0 <= i < qs.len() && qs[i].id == id
}

/// The quote with identifier `id`, where one exists.
pub open spec fn find_quote(qs: Seq<QuoteModel>, id: Seq<char>) -> Option<QuoteModel> {
    if has_quote(qs, id) {
        Some(qs[quote_index(qs, id)])
    } else {
        None
    }
}

/// A like row for quote `qid` by caller address `ip` exists.
pub open spec fn pair_liked(ls: Seq<LikeModel>, qid: Seq<char>, ip: Seq<char>) -> bool {
    exists|i: int| 0 <= i < ls.len() && ls[i].quote_id == qid && ls[i].user_ip == ip
}

/// The quotes stand in descending order of creation time.
pub open spec fn sorted_by_created_desc(qs: Seq<QuoteModel>) -> bool {
    forall|i: int, j: int| 0 <= i <= j < qs.len() ==> qs[i].created_at >= qs[j].created_at
}

/// Well-formedness of the store: unique quote identifiers, unique like
/// pairs, every counter equal to the number of like rows for its quote,
/// every like row referencing an existing quote, and the quotes ordered by
/// creation time, newest first.
pub open spec fn wf(s: StoreModel) -> bool {
    &&& quote_ids_unique(s.quotes)
    &&& like_pairs_unique(s.likes)
    &&& (forall|i: int|
        0 <= i < s.quotes.len() ==> s.quotes[i].likes_count == like_count(
            s.likes,
            s.quotes[i].id,
        ))
    &&& (forall|k: int| 0 <= k < s.likes.len() ==> has_quote(s.quotes, #[trigger] s.likes[k].quote_id))
    &&& sorted_by_created_desc(s.quotes)
}

/// In a sequence with unique identifiers, the index of a quote with a given
/// identifier is the only one, so `quote_index` names it.
pub proof fn lemma_quote_index_is(qs: Seq<QuoteModel>, id: Seq<char>, i: int)
    requires
        quote_ids_unique(qs),
        0 <= i < qs.len(),
        qs[i].id == id,
    ensures
        has_quote(qs, id),
        quote_index(qs, id) == i,
{
    assert(has_quote(qs, id));
    let j = quote_index(qs, id);
    assert(0 <= j < qs.len() && qs[j].id == id);
    if i < j {
        assert(qs[i].id != qs[j].id);
    } else if j < i {
        assert(qs[j].id != qs[i].id);
    }
}

/// The position at which a quote created at time `t` is inserted: before
/// the first quote that was created at `t` or earlier, so that the order
/// stays newest first and a tie goes to the newcomer.
pub open spec fn insert_pos(qs: Seq<QuoteModel>, t: int) -> int
    decreases qs.len(),
{
    if qs.len() == 0 {
        0
    } else if qs[0].created_at <= t {
        0
    } else {
        1 + insert_pos(qs.drop_first(), t)
    }
}

/// `insert_pos` is the first index whose quote was created at `t` or
/// earlier, which is what the insertion scan finds.
pub proof fn lemma_insert_pos_is(qs: Seq<QuoteModel>, t: int, i: int)
    requires
        0 <= i <= qs.len(),
        forall|k: int| 0 <= k < i ==> qs[k].created_at > t,
        i < qs.len() ==> qs[i].created_at <= t,
    ensures
        insert_pos(qs, t) == i,
    decreases qs.len(),
{
    if qs.len() == 0 {
    } else if qs[0].created_at <= t {
        assert(i == 0);
    } else {
        let rest = qs.drop_first();
        assert(forall|k: int| 0 <= k < i - 1 ==> rest[k] == qs[k + 1]);
        lemma_insert_pos_is(rest, t, i - 1);
    }
}

/// The store after a quote is created: the quote stands at its insertion
/// position; the like rows are untouched.
pub open spec fn spec_create(s: StoreModel, q: QuoteModel) -> StoreModel {
    StoreModel { quotes: s.quotes.insert(insert_pos(s.quotes, q.created_at), q), likes: s.likes }
}

/// A quote with an update request applied: text and author replaced where
/// the request carries them, `updated_at` refreshed, everything else kept.
pub open spec fn patch_quote(
    q: QuoteModel,
    text: Option<Seq<char>>,
    author: Option<Seq<char>>,
    now: int,
) -> QuoteModel {
    QuoteModel {
        text: if text is Some {
            text->0
        } else {
            q.text
        },
        author: if author is Some {
            author->0
        } else {
            q.author
        },
        updated_at: now,
        ..q
    }
}

/// The store after an update of the quote with identifier `id`.
pub open spec fn spec_update(
    s: StoreModel,
    id: Seq<char>,
    text: Option<Seq<char>>,
    author: Option<Seq<char>>,
    now: int,
) -> StoreModel {
    let i = quote_index(s.quotes, id);
    StoreModel { quotes: s.quotes.update(i, patch_quote(s.quotes[i], text, author, now)), likes: s.likes }
}

/// The like rows with every row for quote `qid` removed.
pub open spec fn likes_without(ls: Seq<LikeModel>, qid: Seq<char>) -> Seq<LikeModel>
    decreases ls.len(),
{
    if ls.len() == 0 {
        Seq::empty()
    } else {
        likes_without(ls.drop_last(), qid) + if ls.last().quote_id != qid {
            seq![ls.last()]
        } else {
            Seq::empty()
        }
    }
}

/// The store after the quote with identifier `id` is deleted: the quote is
/// gone and so are its like rows (deletion cascades, so that no like row is
/// left referencing a quote that no longer exists).
pub open spec fn spec_delete(s: StoreModel, id: Seq<char>) -> StoreModel {
    StoreModel {
        quotes: s.quotes.remove(quote_index(s.quotes, id)),
        likes: likes_without(s.likes, id),
    }
}

/// What `likes_without` keeps and drops: counts for other quotes are
/// unchanged, the removed quote's count is zero, membership and pair facts
/// carry over, and pair uniqueness is preserved.
pub proof fn lemma_likes_without(ls: Seq<LikeModel>, qid: Seq<char>)
    ensures
        forall|q2: Seq<char>|
            q2 != qid ==> #[trigger] like_count(likes_without(ls, qid), q2) == like_count(ls, q2),
        like_count(likes_without(ls, qid), qid) == 0,
        forall|k: int|
            0 <= k < likes_without(ls, qid).len() ==> #[trigger] likes_without(ls, qid)[k].quote_id
                != qid,
        forall|k: int|
            0 <= k < likes_without(ls, qid).len() ==> exists|k2: int|
                0 <= k2 < ls.len() && ls[k2] == #[trigger] likes_without(ls, qid)[k],
        like_pairs_unique(ls) ==> like_pairs_unique(likes_without(ls, qid)),
        forall|q2: Seq<char>, ip: Seq<char>|
            #[trigger] pair_liked(likes_without(ls, qid), q2, ip) ==> pair_liked(ls, q2, ip),
        forall|q2: Seq<char>, ip: Seq<char>|
            q2 != qid && pair_liked(ls, q2, ip) ==> #[trigger] pair_liked(
                likes_without(ls, qid),
                q2,
                ip,
            ),
    decreases ls.len(),
{
    if ls.len() == 0 {
    } else {
        let rest = ls.drop_last();
        let l = ls.last();
        lemma_likes_without(rest, qid);
        let w = likes_without(ls, qid);
        let wr = likes_without(rest, qid);
        if l.quote_id != qid {
            assert(w == wr + seq![l]);
            assert(w.drop_last() =~= wr);
            assert(w.last() == l);
            assert(forall|k: int| 0 <= k < wr.len() ==> #[trigger] w[k] == wr[k]);
            assert(w[w.len() - 1] == l);
            assert forall|q2: Seq<char>| q2 != qid implies #[trigger] like_count(w, q2)
                == like_count(ls, q2) by {
                assert(like_count(w, q2) == like_count(wr, q2) + if l.quote_id == q2 {
                    1int
                } else {
                    0int
                });
                assert(like_count(ls, q2) == like_count(rest, q2) + if l.quote_id == q2 {
                    1int
                } else {
                    0int
                });
            }
            assert(like_count(w, qid) == like_count(wr, qid));
            assert forall|k: int| 0 <= k < w.len() implies exists|k2: int|
                0 <= k2 < ls.len() && ls[k2] == #[trigger] w[k] by {
                if k < wr.len() {
                    let k2 = choose|k2: int| 0 <= k2 < rest.len() && rest[k2] == wr[k];
                    assert(ls[k2] == w[k]);
                } else {
                    assert(ls[ls.len() - 1] == w[k]);
                }
            }
            if like_pairs_unique(ls) {
                assert(like_pairs_unique(wr));
                assert forall|i: int, j: int| 0 <= i < j < w.len() implies !(w[i].quote_id
                    == w[j].quote_id && w[i].user_ip == w[j].user_ip) by {
                    if j < wr.len() {
                        assert(!(wr[i].quote_id == wr[j].quote_id && wr[i].user_ip
                            == wr[j].user_ip));
                    } else {
                        assert(w[j] == l);
                        let k2 = choose|k2: int| 0 <= k2 < rest.len() && rest[k2] == wr[i];
                        assert(ls[k2] == w[i]);
                        assert(!(ls[k2].quote_id == l.quote_id && ls[k2].user_ip == l.user_ip));
                    }
                }
            }
            assert forall|q2: Seq<char>, ip: Seq<char>| #[trigger] pair_liked(w, q2, ip) implies
                pair_liked(ls, q2, ip) by {
                let k = choose|k: int| 0 <= k < w.len() && w[k].quote_id == q2 && w[k].user_ip
                    == ip;
                if k < wr.len() {
                    assert(pair_liked(wr, q2, ip));
                    let k2 = choose|k2: int|
                        0 <= k2 < rest.len() && rest[k2].quote_id == q2 && rest[k2].user_ip == ip;
                    assert(ls[k2].quote_id == q2 && ls[k2].user_ip == ip);
                } else {
                    assert(ls[ls.len() - 1].quote_id == q2 && ls[ls.len() - 1].user_ip == ip);
                }
            }
            assert forall|q2: Seq<char>, ip: Seq<char>|
                q2 != qid && pair_liked(ls, q2, ip) implies #[trigger] pair_liked(w, q2, ip) by {
                let k = choose|k: int| 0 <= k < ls.len() && ls[k].quote_id == q2 && ls[k].user_ip
                    == ip;
                if k < ls.len() - 1 {
                    assert(rest[k].quote_id == q2 && rest[k].user_ip == ip);
                    assert(pair_liked(rest, q2, ip));
                    assert(pair_liked(wr, q2, ip));
                    let k2 = choose|k2: int|
                        0 <= k2 < wr.len() && wr[k2].quote_id == q2 && wr[k2].user_ip == ip;
                    assert(w[k2].quote_id == q2 && w[k2].user_ip == ip);
                } else {
                    assert(w[w.len() - 1].quote_id == q2 && w[w.len() - 1].user_ip == ip);
                }
            }
        } else {
            assert(w =~= wr);
            assert forall|q2: Seq<char>| q2 != qid implies #[trigger] like_count(w, q2)
                == like_count(ls, q2) by {
                assert(like_count(w, q2) == like_count(wr, q2));
                assert(like_count(ls, q2) == like_count(rest, q2) + if l.quote_id == q2 {
                    1int
                } else {
                    0int
                });
            }
            assert forall|k: int| 0 <= k < w.len() implies exists|k2: int|
                0 <= k2 < ls.len() && ls[k2] == #[trigger] w[k] by {
                let k2 = choose|k2: int| 0 <= k2 < rest.len() && rest[k2] == wr[k];
                assert(ls[k2] == w[k]);
            }
            assert forall|q2: Seq<char>, ip: Seq<char>| #[trigger] pair_liked(w, q2, ip) implies
                pair_liked(ls, q2, ip) by {
                assert(pair_liked(wr, q2, ip));
                let k2 = choose|k2: int|
                    0 <= k2 < rest.len() && rest[k2].quote_id == q2 && rest[k2].user_ip == ip;
                assert(ls[k2].quote_id == q2 && ls[k2].user_ip == ip);
            }
            assert forall|q2: Seq<char>, ip: Seq<char>|
                q2 != qid && pair_liked(ls, q2, ip) implies #[trigger] pair_liked(w, q2, ip) by {
                let k = choose|k: int| 0 <= k < ls.len() && ls[k].quote_id == q2 && ls[k].user_ip
                    == ip;
                assert(k < ls.len() - 1);
                assert(rest[k].quote_id == q2 && rest[k].user_ip == ip);
                assert(pair_liked(rest, q2, ip));
                assert(pair_liked(wr, q2, ip));
            }
        }
    }
}

/// A sequence of like rows in which no row references `qid` counts zero
/// rows for `qid`.
pub proof fn lemma_like_count_zero(ls: Seq<LikeModel>, qid: Seq<char>)
    requires
        forall|k: int| 0 <= k < ls.len() ==> #[trigger] ls[k].quote_id != qid,
    ensures
        like_count(ls, qid) == 0,
    decreases ls.len(),
{
    if ls.len() > 0 {
        let rest = ls.drop_last();
        assert(forall|k: int| 0 <= k < rest.len() ==> #[trigger] rest[k].quote_id != qid);
        lemma_like_count_zero(rest, qid);
    }
}

/// Appending one like row raises exactly the count of the quote it
/// references, by one.
pub proof fn lemma_like_count_push(ls: Seq<LikeModel>, l: LikeModel, qid: Seq<char>)
    ensures
        like_count(ls.push(l), qid) == like_count(ls, qid) + if l.quote_id == qid {
            1int
        } else {
            0int
        },
{
    assert(ls.push(l).drop_last() =~= ls);
    assert(ls.push(l).last() == l);
}

/// The bounds and characterisation of `insert_pos`: it is the first index
/// whose quote was created no later than `t`.
pub proof fn lemma_insert_pos_bounds(qs: Seq<QuoteModel>, t: int)
    ensures
        0 <= insert_pos(qs, t) <= qs.len(),
        forall|k: int| 0 <= k < insert_pos(qs, t) ==> #[trigger] qs[k].created_at > t,
        insert_pos(qs, t) < qs.len() ==> qs[insert_pos(qs, t)].created_at <= t,
    decreases qs.len(),
{
    if qs.len() == 0 {
    } else if qs[0].created_at <= t {
    } else {
        let rest = qs.drop_first();
        lemma_insert_pos_bounds(rest, t);
        assert forall|k: int| 0 <= k < insert_pos(qs, t) implies #[trigger] qs[k].created_at
            > t by {
            if k > 0 {
                assert(rest[k - 1] == qs[k]);
                assert(rest[k - 1].created_at > t);
            }
        }
        if insert_pos(qs, t) < qs.len() {
            assert(qs[insert_pos(qs, t)] == rest[insert_pos(rest, t)]);
        }
    }
}

/// Creating a quote with a fresh identifier and a zero counter preserves
/// well-formedness.
#[verifier::rlimit(60)]
pub proof fn lemma_create_wf(s: StoreModel, q: QuoteModel)
    requires
        wf(s),
        !has_quote(s.quotes, q.id),
        q.likes_count == 0,
    ensures
        wf(spec_create(s, q)),
{
    let t = q.created_at;
    let p = insert_pos(s.quotes, t);
    let oq = s.quotes;
    let nq = spec_create(s, q).quotes;
    lemma_insert_pos_bounds(oq, t);
    oq.insert_ensures(p, q);
    assert(forall|k: int| 0 <= k < oq.len() ==> #[trigger] oq[k].id != q.id);
    assert forall|i: int, j: int| 0 <= i < j < nq.len() implies nq[i].id != nq[j].id by {
        if i < p && j < p {
        } else if i < p && j == p {
            assert(nq[i] == oq[i] && nq[j] == q);
        } else if i == p {
            assert(nq[i] == q && nq[j] == oq[j - 1]);
        } else if j == p {
            assert(nq[i] == oq[i] && nq[j] == q);
        } else if i < p {
            assert(nq[i] == oq[i] && nq[j] == oq[j - 1]);
        } else {
            assert(nq[i] == oq[i - 1] && nq[j] == oq[j - 1]);
        }
    }
    assert forall|i: int, j: int| 0 <= i <= j < nq.len() implies nq[i].created_at
        >= nq[j].created_at by {
        if i < p && j == p {
            assert(nq[i] == oq[i] && nq[j] == q);
        } else if i == p && j > p {
            assert(nq[i] == q && nq[j] == oq[j - 1]);
            assert(oq[p].created_at <= t);
            assert(oq[j - 1].created_at <= oq[p].created_at);
        } else if i < p && j > p {
            assert(nq[i] == oq[i] && nq[j] == oq[j - 1]);
            assert(oq[p].created_at <= t);
            assert(oq[j - 1].created_at <= oq[p].created_at);
        }
    }
    assert(like_count(s.likes, q.id) == 0) by {
        assert forall|k: int| 0 <= k < s.likes.len() implies #[trigger] s.likes[k].quote_id
            != q.id by {
            assert(has_quote(oq, s.likes[k].quote_id));
        }
        lemma_like_count_zero(s.likes, q.id);
    }
    assert forall|i: int| 0 <= i < nq.len() implies nq[i].likes_count == like_count(
        s.likes,
        nq[i].id,
    ) by {
        if i < p {
            assert(nq[i] == oq[i]);
        } else if i == p {
            assert(nq[i] == q);
        } else {
            assert(nq[i] == oq[i - 1]);
        }
    }
    assert forall|k: int| 0 <= k < s.likes.len() implies has_quote(
        nq,
        #[trigger] s.likes[k].quote_id,
    ) by {
        assert(has_quote(oq, s.likes[k].quote_id));
        let j = choose|j: int| 0 <= j < oq.len() && oq[j].id == s.likes[k].quote_id;
        if j < p {
            assert(nq[j].id == s.likes[k].quote_id);
        } else {
            assert(nq[j + 1].id == s.likes[k].quote_id);
        }
    }
}

/// Updating a quote's text, author and `updated_at` preserves
/// well-formedness: identifier, creation time and counter are untouched.
pub proof fn lemma_update_wf(
    s: StoreModel,
    id: Seq<char>,
    text: Option<Seq<char>>,
    author: Option<Seq<char>>,
    now: int,
)
    requires
        wf(s),
        has_quote(s.quotes, id),
    ensures
        wf(spec_update(s, id, text, author, now)),
{
    let i = quote_index(s.quotes, id);
    let oq = s.quotes;
    let nq = spec_update(s, id, text, author, now).quotes;
    assert(0 <= i < oq.len() && oq[i].id == id);
    assert(nq[i].id == oq[i].id && nq[i].created_at == oq[i].created_at && nq[i].likes_count
        == oq[i].likes_count);
    assert(forall|k: int| 0 <= k < nq.len() && k != i ==> nq[k] == #[trigger] oq[k]);
    assert forall|a: int, b: int| 0 <= a < b < nq.len() implies nq[a].id != nq[b].id by {
        assert(oq[a].id != oq[b].id);
    }
    assert forall|a: int, b: int| 0 <= a <= b < nq.len() implies nq[a].created_at
        >= nq[b].created_at by {
        assert(oq[a].created_at >= oq[b].created_at);
    }
    assert forall|k: int| 0 <= k < nq.len() implies nq[k].likes_count == like_count(
        s.likes,
        nq[k].id,
    ) by {
        assert(oq[k].likes_count == like_count(s.likes, oq[k].id));
    }
    assert forall|k: int| 0 <= k < s.likes.len() implies has_quote(
        nq,
        #[trigger] s.likes[k].quote_id,
    ) by {
        let j = choose|j: int| 0 <= j < oq.len() && oq[j].id == s.likes[k].quote_id;
        assert(nq[j].id == s.likes[k].quote_id);
    }
}

/// Deleting a quote, together with its like rows, preserves
/// well-formedness.
pub proof fn lemma_delete_wf(s: StoreModel, id: Seq<char>)
    requires
        wf(s),
        has_quote(s.quotes, id),
    ensures
        wf(spec_delete(s, id)),
{
    let i = quote_index(s.quotes, id);
    let oq = s.quotes;
    let nq = spec_delete(s, id).quotes;
    let w = likes_without(s.likes, id);
    assert(0 <= i < oq.len() && oq[i].id == id);
    oq.remove_ensures(i);
    lemma_likes_without(s.likes, id);
    assert forall|k: int| 0 <= k < nq.len() implies nq[k].likes_count == like_count(
        w,
        nq[k].id,
    ) by {
        if k < i {
            assert(nq[k] == oq[k]);
            assert(oq[k].id != id);
        } else {
            assert(nq[k] == oq[k + 1]);
            assert(oq[k + 1].id != id);
        }
    }
    assert forall|k: int| 0 <= k < w.len() implies has_quote(nq, #[trigger] w[k].quote_id) by {
        let k2 = choose|k2: int| 0 <= k2 < s.likes.len() && s.likes[k2] == w[k];
        assert(has_quote(oq, s.likes[k2].quote_id));
        let j = choose|j: int| 0 <= j < oq.len() && oq[j].id == w[k].quote_id;
        assert(w[k].quote_id != id);
        assert(j != i);
        if j < i {
            assert(nq[j].id == w[k].quote_id);
        } else {
            assert(nq[j - 1].id == w[k].quote_id);
        }
    }
    assert(quote_ids_unique(nq)) by {
        assert forall|a: int, b: int| 0 <= a < b < nq.len() implies nq[a].id != nq[b].id by {
            if b < i {
            } else if a < i {
                assert(nq[a] == oq[a] && nq[b] == oq[b + 1]);
            } else {
                assert(nq[a] == oq[a + 1] && nq[b] == oq[b + 1]);
            }
        }
    }
    assert(sorted_by_created_desc(nq)) by {
        assert forall|a: int, b: int| 0 <= a <= b < nq.len() implies nq[a].created_at
            >= nq[b].created_at by {
            if b < i {
            } else if a < i {
                assert(nq[a] == oq[a] && nq[b] == oq[b + 1]);
            } else {
                assert(nq[a] == oq[a + 1] && nq[b] == oq[b + 1]);
            }
        }
    }
}

/// The store after a successful like of the quote with identifier `qid` by
/// the caller at `ip`: the quote's counter rises by one, its `updated_at`
/// is refreshed, and exactly one new like row is appended.
pub open spec fn spec_like(
    s: StoreModel,
    qid: Seq<char>,
    ip: Seq<char>,
    ua: Option<Seq<char>>,
    lid: Seq<char>,
    now: int,
) -> StoreModel {
    let i = quote_index(s.quotes, qid);
    let q = s.quotes[i];
    StoreModel {
        quotes: s.quotes.update(
            i,
            QuoteModel { likes_count: q.likes_count + 1, updated_at: now, ..q },
        ),
        likes: s.likes.push(
            LikeModel { id: lid, quote_id: qid, user_ip: ip, user_agent: ua, created_at: now },
        ),
    }
}

/// A like of an existing quote by a caller who has not liked it yet
/// preserves well-formedness.
pub proof fn lemma_like_wf(
    s: StoreModel,
    qid: Seq<char>,
    ip: Seq<char>,
    ua: Option<Seq<char>>,
    lid: Seq<char>,
    now: int,
)
    requires
        wf(s),
        has_quote(s.quotes, qid),
        !pair_liked(s.likes, qid, ip),
    ensures
        wf(spec_like(s, qid, ip, ua, lid, now)),
{
    let i = quote_index(s.quotes, qid);
    let oq = s.quotes;
    let s2 = spec_like(s, qid, ip, ua, lid, now);
    let nq = s2.quotes;
    let l = LikeModel { id: lid, quote_id: qid, user_ip: ip, user_agent: ua, created_at: now };
    assert(0 <= i < oq.len() && oq[i].id == qid);
    assert(forall|k: int| 0 <= k < nq.len() && k != i ==> nq[k] == #[trigger] oq[k]);
    assert(nq[i].id == oq[i].id && nq[i].created_at == oq[i].created_at && nq[i].likes_count
        == oq[i].likes_count + 1);
    assert forall|a: int, b: int| 0 <= a < b < nq.len() implies nq[a].id != nq[b].id by {
        assert(oq[a].id != oq[b].id);
    }
    assert forall|a: int, b: int| 0 <= a <= b < nq.len() implies nq[a].created_at
        >= nq[b].created_at by {
        assert(oq[a].created_at >= oq[b].created_at);
    }
    assert(forall|k: int|
        0 <= k < s.likes.len() ==> !(#[trigger] s.likes[k].quote_id == qid && s.likes[k].user_ip
            == ip));
    assert forall|a: int, b: int| 0 <= a < b < s2.likes.len() implies !(s2.likes[a].quote_id
        == s2.likes[b].quote_id && s2.likes[a].user_ip == s2.likes[b].user_ip) by {
        if b < s.likes.len() {
            assert(s2.likes[a] == s.likes[a] && s2.likes[b] == s.likes[b]);
        } else {
            assert(s2.likes[b] == l);
            assert(s2.likes[a] == s.likes[a]);
        }
    }
    assert forall|k: int| 0 <= k < nq.len() implies nq[k].likes_count == like_count(
        s2.likes,
        nq[k].id,
    ) by {
        lemma_like_count_push(s.likes, l, nq[k].id);
        if k != i {
            assert(nq[k] == oq[k]);
            assert(oq[k].id != qid);
        }
    }
    assert forall|k: int| 0 <= k < s2.likes.len() implies has_quote(
        nq,
        #[trigger] s2.likes[k].quote_id,
    ) by {
        if k < s.likes.len() {
            assert(s2.likes[k] == s.likes[k]);
            let j = choose|j: int| 0 <= j < oq.len() && oq[j].id == s.likes[k].quote_id;
            assert(nq[j].id == s2.likes[k].quote_id);
        } else {
            assert(s2.likes[k] == l);
            assert(nq[i].id == qid);
        }
    }
}

/// The store after all likes are reset: every counter is zero, every
/// quote's `updated_at` is refreshed, and no like row is left.
pub open spec fn spec_reset(s: StoreModel, now: int) -> StoreModel {
    StoreModel {
        quotes: Seq::new(
            s.quotes.len(),
            |i: int| QuoteModel { likes_count: 0, updated_at: now, ..s.quotes[i] },
        ),
        likes: Seq::empty(),
    }
}

/// The length of the trailing ranking window, in milliseconds: seven days.
pub const WEEK_MILLIS: i64 = 604800000;

/// The search term a listing filters by: the given string, or the empty
/// term, which every quote matches.
pub open spec fn search_term(search: Option<&str>) -> Seq<char> {
    match search {
        Some(s) => s@,
        None => Seq::empty(),
    }
}

/// A quote matches a search term iff the term occurs in its text or its
/// author, case-insensitively.
pub open spec fn matches_search(q: QuoteModel, term: Seq<char>) -> bool {
    contains_ci(q.text, term) || contains_ci(q.author, term)
}

/// The subsequence of quotes that match the search term, in their stored
/// order.
pub open spec fn filter_matching(qs: Seq<QuoteModel>, term: Seq<char>) -> Seq<QuoteModel>
    decreases qs.len(),
{
    if qs.len() == 0 {
        Seq::empty()
    } else {
        filter_matching(qs.drop_last(), term) + if matches_search(qs.last(), term) {
            seq![qs.last()]
        } else {
            Seq::empty()
        }
    }
}

/// One page of a filtered listing: the items from `(page - 1) * page_size`
/// on, at most `page_size` of them.
pub open spec fn page_slice(f: Seq<QuoteModel>, page: int, page_size: int) -> Seq<QuoteModel> {
    let start = (page - 1) * page_size;
    if start >= f.len() {
        Seq::empty()
    } else if start + page_size <= f.len() {
        f.subrange(start, start + page_size)
    } else {
        f.subrange(start, f.len() as int)
    }
}

/// `a` ranks at least as high as `b`: a strictly higher counter, or an
/// equal counter and a creation time no older.
pub open spec fn ranks_ge(a: QuoteModel, b: QuoteModel) -> bool {
    ||| a.likes_count > b.likes_count
    ||| (a.likes_count == b.likes_count && a.created_at >= b.created_at)
}

/// The quote was created within the trailing seven-day window ending at
/// `now`.
pub open spec fn in_window(q: QuoteModel, now: int) -> bool {
    q.created_at + WEEK_MILLIS >= now
}

/// No quote falls in the trailing seven-day window ending at `now`.
pub open spec fn window_empty(qs: Seq<QuoteModel>, now: int) -> bool {
    forall|j: int| 0 <= j < qs.len() ==> !in_window(#[trigger] qs[j], now)
}

/// A filtered listing is never longer than what it was filtered from.
pub proof fn lemma_filter_len(qs: Seq<QuoteModel>, term: Seq<char>)
    ensures
        filter_matching(qs, term).len() <= qs.len(),
    decreases qs.len(),
{
    if qs.len() > 0 {
        lemma_filter_len(qs.drop_last(), term);
    }
}

/// Filtering keeps the stored order and invents no quotes: the filtered
/// listing is still sorted newest first, and every entry is one of the
/// stored quotes.
pub proof fn lemma_filter_matching_sorted(qs: Seq<QuoteModel>, term: Seq<char>)
    requires
        sorted_by_created_desc(qs),
    ensures
        sorted_by_created_desc(filter_matching(qs, term)),
        forall|k: int|
            0 <= k < filter_matching(qs, term).len() ==> exists|m: int|
                0 <= m < qs.len() && qs[m] == #[trigger] filter_matching(qs, term)[k],
    decreases qs.len(),
{
    if qs.len() > 0 {
        let rest = qs.drop_last();
        let l = qs.last();
        assert(forall|m: int| 0 <= m < rest.len() ==> #[trigger] rest[m] == qs[m]);
        lemma_filter_matching_sorted(rest, term);
        let w = filter_matching(qs, term);
        let wr = filter_matching(rest, term);
        if matches_search(l, term) {
            assert(w == wr + seq![l]);
            assert(forall|k: int| 0 <= k < wr.len() ==> #[trigger] w[k] == wr[k]);
            assert(w[w.len() - 1] == l);
            assert forall|k: int| 0 <= k < w.len() implies exists|m: int|
                0 <= m < qs.len() && qs[m] == #[trigger] w[k] by {
                if k < wr.len() {
                    let m = choose|m: int| 0 <= m < rest.len() && rest[m] == wr[k];
                    assert(qs[m] == w[k]);
                } else {
                    assert(qs[qs.len() - 1] == w[k]);
                }
            }
            assert forall|a: int, b: int| 0 <= a <= b < w.len() implies w[a].created_at
                >= w[b].created_at by {
                if b == w.len() - 1 && a < b {
                    let m = choose|m: int| 0 <= m < rest.len() && rest[m] == wr[a];
                    assert(qs[m].created_at >= qs[qs.len() - 1].created_at);
                }
            }
        } else {
            assert(w =~= wr);
            assert forall|k: int| 0 <= k < w.len() implies exists|m: int|
                0 <= m < qs.len() && qs[m] == #[trigger] w[k] by {
                let m = choose|m: int| 0 <= m < rest.len() && rest[m] == wr[k];
                assert(qs[m] == w[k]);
            }
        }
    }
}

/// The store. It owns the two collections; callers reach them only through
/// the operations below, which preserve `wf`.
pub struct QuoteRepository {
    quotes: Vec<Quote>,
    likes: Vec<Like>,
}

impl View for QuoteRepository {
    type V = StoreModel;

    closed spec fn view(&self) -> StoreModel {
        StoreModel { quotes: quotes_view(self.quotes@), likes: likes_view(self.likes@) }
    }
}

impl QuoteRepository {
    /// Well-formedness of this store's state.
    pub open spec fn wf(&self) -> bool {
        wf(self@)
    }

    /// A fresh, empty store.
    pub fn new() -> (r: Self)
        ensures
            r.wf(),
            r@.quotes.len() == 0,
            r@.likes.len() == 0,
    {
        let r = QuoteRepository { quotes: Vec::new(), likes: Vec::new() };
        assert(r@.quotes =~= Seq::<QuoteModel>::empty());
        assert(r@.likes =~= Seq::<LikeModel>::empty());
        r
    }

    /// The number of quotes held.
    pub fn quote_count(&self) -> (r: usize)
        ensures
            r == self@.quotes.len(),
    {
        self.quotes.len()
    }

    /// Finds the position of the quote with identifier `id`, if any.
    fn find_index(&self, id: &str) -> (r: Option<usize>)
        requires
            quote_ids_unique(self@.quotes),
        ensures
            (match r {
                Some(i) => i < self@.quotes.len() && self@.quotes[i as int].id == id@
                    && has_quote(self@.quotes, id@) && quote_index(self@.quotes, id@) == i,
                None => !has_quote(self@.quotes, id@),
            }),
    {
        let n = self.quotes.len();
        let mut i: usize = 0;
        while i < n
            invariant
                quote_ids_unique(self@.quotes),
                n == self@.quotes.len(),
                0 <= i <= n,
                forall|k: int| 0 <= k < i ==> self@.quotes[k].id != id@,
            decreases n - i,
        {
            if str_eq(self.quotes[i].id.as_str(), id) {
                proof {
                    lemma_quote_index_is(self@.quotes, id@, i as int);
                }
                return Some(i);
            }
            i += 1;
        }
        None
    }

    /// Returns the quote with identifier `id`, or `NotFound`.
    pub fn get_by_id(&self, id: &str) -> (r: Result<Quote, StoreError>)
        requires
            self.wf(),
        ensures
            (match r {
                Ok(q) => find_quote(self@.quotes, id@) == Some(q@),
                Err(e) => e == StoreError::NotFound && !has_quote(self@.quotes, id@),
            }),
    {
        match self.find_index(id) {
            Some(i) => Ok(self.quotes[i].clone()),
            None => Err(StoreError::NotFound),
        }
    }

    /// True iff the caller at address `user_ip` has a like row for the quote
    /// with identifier `quote_id`.
    pub fn is_liked(&self, quote_id: &str, user_ip: &str) -> (r: bool)
        ensures
            r == pair_liked(self@.likes, quote_id@, user_ip@),
    {
        let n = self.likes.len();
        let mut i: usize = 0;
        while i < n
            invariant
                n == self@.likes.len(),
                0 <= i <= n,
                forall|k: int|
                    0 <= k < i ==> !(self@.likes[k].quote_id == quote_id@
                        && self@.likes[k].user_ip == user_ip@),
            decreases n - i,
        {
            if str_eq(self.likes[i].quote_id.as_str(), quote_id) && str_eq(
                self.likes[i].user_ip.as_str(),
                user_ip,
            ) {
                assert(self@.likes[i as int].quote_id == quote_id@ && self@.likes[i as int].user_ip
                    == user_ip@);
                return true;
            }
            i += 1;
        }
        false
    }

    /// Persists a fully-formed quote whose counter starts at zero. The
    /// quote takes its place in the creation-time order; an identifier
    /// collision is refused as `Unavailable`, as the backing uniqueness
    /// constraint would refuse it.
    pub fn create(&mut self, quote: &Quote) -> (r: Result<(), StoreError>)
        requires
            old(self).wf(),
            quote@.likes_count == 0,
        ensures
            final(self).wf(),
            (match r {
                Ok(()) => !has_quote(old(self)@.quotes, quote@.id) && final(self)@ == spec_create(
                    old(self)@,
                    quote@,
                ),
                Err(e) => e == StoreError::Unavailable && has_quote(old(self)@.quotes, quote@.id)
                    && final(self)@ == old(self)@,
            }),
    {
        if self.find_index(quote.id.as_str()).is_some() {
            return Err(StoreError::Unavailable);
        }
        let t = quote.created_at;
        let n = self.quotes.len();
        let mut pos: usize = 0;
        loop
            invariant
                self == old(self),
                old(self).wf(),
                n == self@.quotes.len(),
                0 <= pos <= n,
                forall|k: int| 0 <= k < pos ==> #[trigger] self@.quotes[k].created_at > t,
            ensures
                self == old(self),
                0 <= pos <= n,
                forall|k: int| 0 <= k < pos ==> #[trigger] self@.quotes[k].created_at > t,
                pos < n ==> self@.quotes[pos as int].created_at <= t,
            decreases n - pos,
        {
            if pos == n {
                break ;
            }
            if self.quotes[pos].created_at <= t {
                break ;
            }
            pos += 1;
        }
        proof {
            lemma_insert_pos_is(self@.quotes, t as int, pos as int);
            lemma_create_wf(self@, quote@);
        }
        self.quotes.insert(pos, quote.clone());
        proof {
            assert(self@.quotes =~= spec_create(old(self)@, quote@).quotes);
            assert(self@.likes =~= spec_create(old(self)@, quote@).likes);
        }
        Ok(())
    }

    /// Applies a partial change to the quote with identifier `id`: text and
    /// author each replaced where the request carries them, `updated_at`
    /// refreshed; the counter is never touched. Fails with `NotFound` if no
    /// quote matches.
    pub fn update(&mut self, id: &str, req: &UpdateQuoteRequest, now: i64) -> (r: Result<
        (),
        StoreError,
    >)
        requires
            old(self).wf(),
        ensures
            final(self).wf(),
            (match r {
                Ok(()) => has_quote(old(self)@.quotes, id@) && final(self)@ == spec_update(
                    old(self)@,
                    id@,
                    req@.text,
                    req@.author,
                    now as int,
                ),
                Err(e) => e == StoreError::NotFound && !has_quote(old(self)@.quotes, id@)
                    && final(self)@ == old(self)@,
            }),
    {
        let i = match self.find_index(id) {
            Some(i) => i,
            None => {
                return Err(StoreError::NotFound);
            },
        };
        if let Some(t) = &req.text {
            self.quotes[i].text = t.clone();
        }
        if let Some(a) = &req.author {
            self.quotes[i].author = a.clone();
        }
        self.quotes[i].updated_at = now;
        proof {
            let oq = old(self)@.quotes;
            let ii = i as int;
            let patched = patch_quote(oq[ii], req@.text, req@.author, now as int);
            assert(self@.quotes =~= oq.update(ii, patched));
            assert(self@.likes =~= old(self)@.likes);
            assert(self@ == spec_update(old(self)@, id@, req@.text, req@.author, now as int));
            lemma_update_wf(old(self)@, id@, req@.text, req@.author, now as int);
        }
        Ok(())
    }

    /// Removes the quote with identifier `id`, and with it every like row
    /// that references it, so that no like row is left pointing at a quote
    /// that no longer exists. Fails with `NotFound` if no quote matches.
    pub fn delete(&mut self, id: &str) -> (r: Result<(), StoreError>)
        requires
            old(self).wf(),
        ensures
            final(self).wf(),
            (match r {
                Ok(()) => has_quote(old(self)@.quotes, id@) && final(self)@ == spec_delete(
                    old(self)@,
                    id@,
                ),
                Err(e) => e == StoreError::NotFound && !has_quote(old(self)@.quotes, id@)
                    && final(self)@ == old(self)@,
            }),
    {
        let i = match self.find_index(id) {
            Some(i) => i,
            None => {
                return Err(StoreError::NotFound);
            },
        };
        proof {
            lemma_delete_wf(self@, id@);
        }
        self.quotes.remove(i);
        let n = self.likes.len();
        let mut kept: Vec<Like> = Vec::new();
        let mut k: usize = 0;
        while k < n
            invariant
                n == self.likes@.len(),
                0 <= k <= n,
                likes_view(self.likes@) == old(self)@.likes,
                likes_view(kept@) =~= likes_without(old(self)@.likes.subrange(0, k as int), id@),
            decreases n - k,
        {
            proof {
                assert(old(self)@.likes.subrange(0, k as int + 1) =~= old(self)@.likes.subrange(
                    0,
                    k as int,
                ).push(old(self)@.likes[k as int]));
            }
            if !str_eq(self.likes[k].quote_id.as_str(), id) {
                kept.push(self.likes[k].clone());
            }
            k += 1;
            proof {
                let prefix = old(self)@.likes.subrange(0, k as int - 1);
                let full = old(self)@.likes.subrange(0, k as int);
                assert(full.drop_last() =~= prefix);
                assert(likes_view(kept@) =~= likes_without(full, id@));
            }
        }
        self.likes = kept;
        proof {
            assert(old(self)@.likes.subrange(0, n as int) =~= old(self)@.likes);
            assert(self@.quotes =~= spec_delete(old(self)@, id@).quotes);
            assert(self@.likes =~= spec_delete(old(self)@, id@).likes);
        }
        Ok(())
    }

    /// Returns the page of quotes that match the search filter, in
    /// creation-time order newest first, together with the total number of
    /// matches. The caller upholds the clamping contract on `page` and
    /// `page_size`.
    pub fn get_all(&self, page: i32, page_size: i32, search: Option<&str>) -> (r: (
        Vec<Quote>,
        i64,
    ))
        requires
            self.wf(),
            1 <= page,
            1 <= page_size <= 100,
            self@.quotes.len() <= i64::MAX,
        ensures
            quotes_view(r.0@) == page_slice(
                filter_matching(self@.quotes, search_term(search)),
                page as int,
                page_size as int,
            ),
            r.1 == filter_matching(self@.quotes, search_term(search)).len(),
    {
        let ghost term = search_term(search);
        let n = self.quotes.len();
        let mut filtered: Vec<Quote> = Vec::new();
        let mut i: usize = 0;
        while i < n
            invariant
                n == self@.quotes.len(),
                0 <= i <= n,
                term == search_term(search),
                quotes_view(filtered@) == filter_matching(
                    self@.quotes.subrange(0, i as int),
                    term,
                ),
            decreases n - i,
        {
            let q = &self.quotes[i];
            let m = match search {
                None => true,
                Some(s) => str_contains_ci(q.text.as_str(), s) || str_contains_ci(
                    q.author.as_str(),
                    s,
                ),
            };
            proof {
                if search is None {
                    assert(matches_at(self@.quotes[i as int].text, term, 0));
                    assert(contains_ci(self@.quotes[i as int].text, term));
                }
                assert(m == matches_search(self@.quotes[i as int], term));
            }
            if m {
                filtered.push(q.clone());
            }
            proof {
                let pre = self@.quotes.subrange(0, i as int);
                let post = self@.quotes.subrange(0, i as int + 1);
                assert(post.drop_last() =~= pre);
                assert(post.last() == self@.quotes[i as int]);
                assert(quotes_view(filtered@) =~= filter_matching(post, term));
            }
            i += 1;
        }
        proof {
            assert(self@.quotes.subrange(0, n as int) =~= self@.quotes);
            lemma_filter_len(self@.quotes, term);
        }
        let ghost filt = filter_matching(self@.quotes, term);
        let flen = filtered.len();
        let total = flen as i64;
        proof {
            assert(0 <= (page as int - 1) * (page_size as int)) by (nonlinear_arith)
                requires
                    1 <= page as int,
                    1 <= page_size as int,
            ;
            assert((page as int - 1) * (page_size as int) <= (i32::MAX as int) * 100)
                by (nonlinear_arith)
                requires
                    1 <= page as int <= i32::MAX as int,
                    1 <= page_size as int <= 100,
            ;
        }
        let start_wide: i64 = (page as i64 - 1) * (page_size as i64);
        let mut out: Vec<Quote> = Vec::new();
        if start_wide < total {
            let start = start_wide as usize;
            let end: usize = if start_wide + page_size as i64 <= total {
                (start_wide + page_size as i64) as usize
            } else {
                flen
            };
            let mut j: usize = start;
            proof {
                assert(quotes_view(out@) =~= filt.subrange(start as int, start as int));
            }
            while j < end
                invariant
                    quotes_view(filtered@) == filt,
                    flen == filt.len(),
                    start <= j <= end <= flen,
                    quotes_view(out@) == filt.subrange(start as int, j as int),
                decreases end - j,
            {
                out.push(filtered[j].clone());
                proof {
                    assert(filt.subrange(start as int, j as int + 1) =~= filt.subrange(
                        start as int,
                        j as int,
                    ).push(filt[j as int]));
                    assert(quotes_view(out@) =~= filt.subrange(start as int, j as int + 1));
                }
                j += 1;
            }
            proof {
                assert(quotes_view(out@) == page_slice(filt, page as int, page_size as int));
            }
        } else {
            proof {
                assert(quotes_view(out@) =~= page_slice(filt, page as int, page_size as int));
            }
        }
        (out, total)
    }

    /// Returns the highest-ranked quote overall: the greatest counter,
    /// ties broken by the most recent creation time. Fails with `NotFound`
    /// only on an empty store.
    pub fn get_top_all_time(&self) -> (r: Result<Quote, StoreError>)
        requires
            self.wf(),
        ensures
            (match r {
                Ok(q) => (exists|i: int| 0 <= i < self@.quotes.len() && self@.quotes[i] == q@) && (
                forall|j: int| 0 <= j < self@.quotes.len() ==> ranks_ge(q@, #[trigger] self@.quotes[j])),
                Err(e) => e == StoreError::NotFound && self@.quotes.len() == 0,
            }),
    {
        let n = self.quotes.len();
        if n == 0 {
            return Err(StoreError::NotFound);
        }
        let mut best: usize = 0;
        let mut j: usize = 1;
        while j < n
            invariant
                self.wf(),
                n == self@.quotes.len(),
                0 <= best < j <= n,
                forall|k: int|
                    0 <= k < j ==> ranks_ge(self@.quotes[best as int], #[trigger] self@.quotes[k]),
            decreases n - j,
        {
            if self.quotes[j].likes_count > self.quotes[best].likes_count {
                proof {
                    assert forall|k: int| 0 <= k < j + 1 implies ranks_ge(
                        self@.quotes[j as int],
                        #[trigger] self@.quotes[k],
                    ) by {
                        if k < j {
                            assert(ranks_ge(self@.quotes[best as int], self@.quotes[k]));
                        }
                    }
                }
                best = j;
            } else {
                proof {
                    assert(self@.quotes[best as int].created_at >= self@.quotes[j as int].created_at);
                }
            }
            j += 1;
        }
        let q = self.quotes[best].clone();
        proof {
            assert(q@ == self@.quotes[best as int]);
            assert(exists|i: int| 0 <= i < self@.quotes.len() && self@.quotes[i] == q@);
        }
        Ok(q)
    }

    /// Returns the highest-ranked quote among those created within the
    /// trailing seven-day window ending at `now`, ties broken by the most
    /// recent creation time. Fails with `NotFound` when no quote falls in
    /// the window.
    pub fn get_top_weekly(&self, now: i64) -> (r: Result<Quote, StoreError>)
        requires
            self.wf(),
        ensures
            (match r {
                Ok(q) => (exists|i: int|
                    0 <= i < self@.quotes.len() && self@.quotes[i] == q@) && in_window(
                    q@,
                    now as int,
                ) && (forall|j: int|
                    0 <= j < self@.quotes.len() && in_window(#[trigger] self@.quotes[j], now as int)
                        ==> ranks_ge(q@, self@.quotes[j])),
                Err(e) => e == StoreError::NotFound && (forall|j: int|
                    0 <= j < self@.quotes.len() ==> !in_window(
                        #[trigger] self@.quotes[j],
                        now as int,
                    )),
            }),
    {
        let cutoff: i64 = if now >= i64::MIN + WEEK_MILLIS {
            now - WEEK_MILLIS
        } else {
            i64::MIN
        };
        let n = self.quotes.len();
        let mut best: Option<usize> = None;
        let mut j: usize = 0;
        while j < n
            invariant
                self.wf(),
                n == self@.quotes.len(),
                0 <= j <= n,
                cutoff as int == if now as int >= i64::MIN + WEEK_MILLIS {
                    now as int - WEEK_MILLIS
                } else {
                    i64::MIN as int
                },
                (match best {
                    None => forall|k: int|
                        0 <= k < j ==> !in_window(#[trigger] self@.quotes[k], now as int),
                    Some(b) => b < j && in_window(self@.quotes[b as int], now as int) && (forall|
                        k: int,
                    |
                        0 <= k < j && in_window(#[trigger] self@.quotes[k], now as int)
                            ==> ranks_ge(self@.quotes[b as int], self@.quotes[k])),
                }),
            decreases n - j,
        {
            if self.quotes[j].created_at >= cutoff {
                proof {
                    assert(in_window(self@.quotes[j as int], now as int));
                }
                match best {
                    None => {
                        best = Some(j);
                    },
                    Some(b) => {
                        if self.quotes[j].likes_count > self.quotes[b].likes_count {
                            proof {
                                assert forall|k: int|
                                    0 <= k < j + 1 && in_window(
                                        #[trigger] self@.quotes[k],
                                        now as int,
                                    ) implies ranks_ge(self@.quotes[j as int], self@.quotes[k]) by {
                                    if k < j {
                                        assert(ranks_ge(self@.quotes[b as int], self@.quotes[k]));
                                    }
                                }
                            }
                            best = Some(j);
                        } else {
                            proof {
                                assert(self@.quotes[b as int].created_at
                                    >= self@.quotes[j as int].created_at);
                            }
                        }
                    },
                }
            }
            j += 1;
        }
        match best {
            None => Err(StoreError::NotFound),
            Some(b) => {
                let q = self.quotes[b].clone();
                proof {
                    assert(q@ == self@.quotes[b as int]);
                    assert(exists|i: int| 0 <= i < self@.quotes.len() && self@.quotes[i] == q@);
                }
                Ok(q)
            },
        }
    }

    /// Records a like of the quote with identifier `id` by the caller at
    /// `user_ip`. Exactly one of four outcomes holds: `NotFound` when the
    /// quote does not exist (checked first), `AlreadyLiked` when a like row
    /// for the pair already exists, `Unavailable` when the counter is at
    /// its limit, and otherwise success, which raises the counter by
    /// exactly one and appends exactly one like row.
    pub fn like(
        &mut self,
        id: &str,
        user_ip: &str,
        user_agent: Option<String>,
        like_id: String,
        now: i64,
    ) -> (r: Result<(), StoreError>)
        requires
            old(self).wf(),
        ensures
            final(self).wf(),
            (match r {
                Ok(()) => {
                    &&& has_quote(old(self)@.quotes, id@)
                    &&& !pair_liked(old(self)@.likes, id@, user_ip@)
                    &&& old(self)@.quotes[quote_index(old(self)@.quotes, id@)].likes_count
                        < i32::MAX
                    &&& final(self)@ == spec_like(
                        old(self)@,
                        id@,
                        user_ip@,
                        opt_str_view(&user_agent),
                        like_id@,
                        now as int,
                    )
                },
                Err(e) => final(self)@ == old(self)@ && (match e {
                    StoreError::NotFound => !has_quote(old(self)@.quotes, id@),
                    StoreError::AlreadyLiked => has_quote(old(self)@.quotes, id@) && pair_liked(
                        old(self)@.likes,
                        id@,
                        user_ip@,
                    ),
                    StoreError::Unavailable => has_quote(old(self)@.quotes, id@) && !pair_liked(
                        old(self)@.likes,
                        id@,
                        user_ip@,
                    ) && old(self)@.quotes[quote_index(old(self)@.quotes, id@)].likes_count
                        == i32::MAX,
                }),
            }),
    {
        let i = match self.find_index(id) {
            Some(i) => i,
            None => {
                return Err(StoreError::NotFound);
            },
        };
        if self.is_liked(id, user_ip) {
            return Err(StoreError::AlreadyLiked);
        }
        if self.quotes[i].likes_count == i32::MAX {
            return Err(StoreError::Unavailable);
        }
        proof {
            lemma_like_wf(
                self@,
                id@,
                user_ip@,
                opt_str_view(&user_agent),
                like_id@,
                now as int,
            );
        }
        self.quotes[i].likes_count = self.quotes[i].likes_count + 1;
        self.quotes[i].updated_at = now;
        self.likes.push(
            Like {
                id: like_id,
                quote_id: id.to_owned(),
                user_ip: user_ip.to_owned(),
                user_agent,
                created_at: now,
            },
        );
        proof {
            let s2 = spec_like(
                old(self)@,
                id@,
                user_ip@,
                opt_str_view(&user_agent),
                like_id@,
                now as int,
            );
            assert(self@.quotes =~= s2.quotes);
            assert(self@.likes =~= s2.likes);
        }
        Ok(())
    }

    /// Sets every quote's counter to zero, refreshing `updated_at` for all
    /// rows, and deletes every like row, as one all-or-nothing step.
    pub fn reset_likes(&mut self, now: i64) -> (r: Result<(), StoreError>)
        requires
            old(self).wf(),
        ensures
            final(self).wf(),
            r == Ok::<(), StoreError>(()),
            final(self)@ == spec_reset(old(self)@, now as int),
    {
        let n = self.quotes.len();
        let mut i: usize = 0;
        while i < n
            invariant
                n == self.quotes@.len(),
                0 <= i <= n,
                self.likes@ == old(self).likes@,
                forall|k: int|
                    0 <= k < i ==> #[trigger] quotes_view(self.quotes@)[k] == (QuoteModel {
                        likes_count: 0,
                        updated_at: now as int,
                        ..old(self)@.quotes[k]
                    }),
                forall|k: int|
                    i <= k < n ==> #[trigger] quotes_view(self.quotes@)[k] == old(self)@.quotes[k],
            decreases n - i,
        {
            let ghost prev = self.quotes@;
            self.quotes[i].likes_count = 0;
            self.quotes[i].updated_at = now;
            proof {
                assert(self.quotes@.len() == prev.len());
                assert(forall|k: int|
                    0 <= k < prev.len() && k != i ==> self.quotes@[k] == #[trigger] prev[k]);
                assert(quotes_view(prev)[i as int] == old(self)@.quotes[i as int]);
                assert(quotes_view(self.quotes@)[i as int] == (QuoteModel {
                    likes_count: 0,
                    updated_at: now as int,
                    ..old(self)@.quotes[i as int]
                }));
                assert(forall|k: int|
                    0 <= k < prev.len() && k != i ==> #[trigger] quotes_view(self.quotes@)[k]
                        == quotes_view(prev)[k]);
            }
            i += 1;
        }
        self.likes = Vec::new();
        proof {
            let s2 = spec_reset(old(self)@, now as int);
            assert(self@.quotes =~= s2.quotes);
            assert(self@.likes =~= s2.likes);
            let nq = self@.quotes;
            assert forall|a: int, b: int| 0 <= a < b < nq.len() implies nq[a].id != nq[b].id by {
                assert(old(self)@.quotes[a].id != old(self)@.quotes[b].id);
            }
            assert forall|a: int, b: int| 0 <= a <= b < nq.len() implies nq[a].created_at
                >= nq[b].created_at by {
                assert(old(self)@.quotes[a].created_at >= old(self)@.quotes[b].created_at);
            }
            assert(forall|k: int|
                0 <= k < nq.len() ==> #[trigger] nq[k].likes_count == like_count(
                    self@.likes,
                    nq[k].id,
                ));
        }
        Ok(())
    }

    /// Returns the quote at the caller-supplied random draw, reduced modulo
    /// the number of quotes, or `NotFound` on an empty store.
    pub fn get_random(&self, draw: u64) -> (r: Result<Quote, StoreError>)
        requires
            self.wf(),
        ensures
            (match r {
                Ok(q) => self@.quotes.len() > 0 && q@ == self@.quotes[draw as int % (
                self@.quotes.len() as int)],
                Err(e) => e == StoreError::NotFound && self@.quotes.len() == 0,
            }),
    {
        let n = self.quotes.len();
        if n == 0 {
            return Err(StoreError::NotFound);
        }
        let i = (draw % (n as u64)) as usize;
        assert(i as int == draw as int % (self@.quotes.len() as int));
        Ok(self.quotes[i].clone())
    }
}

} // verus!
