//! Filtered listing and search: the four listing modes plus the unfiltered
//! default path, each ordered by its mode's key and cut to the common
//! result-count limit.

use vstd::prelude::*;

use crate::store::{event_at, has_event, StoreV};
use crate::text::{contains_ci, strip_html};
use crate::types::{HumanV, ListFilterV, ListSpecificV, Session, SessionV};
use crate::valid::uuid_accepts;

verus! {

/// The effective result-count limit: the common limit, defaulting to 100
/// (the unfiltered path always uses 100).
pub open spec fn limit_of(f: Option<ListFilterV>) -> int {
    match f {
        None => 100,
        Some(fv) => match fv.common.limit {
            Some(n) => n as int,
            None => 100,
        },
    }
}

/// A human whose full name or email matches the query and who is joined
/// to the session through the participant relation.
pub open spec fn participant_match(st: StoreV, s: SessionV, h: HumanV, q: Seq<char>) -> bool {
    &&& st.participants.contains((s.id, h.id))
    &&& ((match h.full_name {
        Some(n) => contains_ci(n, q),
        None => false,
    }) || (match h.email {
        Some(m) => contains_ci(m, q),
        None => false,
    }))
}

/// Free-text search semantics: case-insensitive substring match against
/// the title, the stripped memo fields, and the joined participants'
/// names and emails.
pub open spec fn search_text_match(st: StoreV, q: Seq<char>, s: SessionV) -> bool {
    ||| contains_ci(s.title, q)
    ||| (match s.enhanced_memo_html {
        Some(e) => contains_ci(strip_html(e), q),
        None => false,
    })
    ||| contains_ci(strip_html(s.raw_memo_html), q)
    ||| exists|k: int|
        0 <= k < st.humans.len() && participant_match(st, s, #[trigger] st.humans[k], q)
}

/// The effective date is within `[a, b]` inclusive: the creation time for
/// an unlinked session, the linked event's start time otherwise (a linked
/// but unknown event never matches).
pub open spec fn effective_in_range(st: StoreV, a: i64, b: i64, s: SessionV) -> bool {
    match s.calendar_event_id {
        None => a <= s.created_at <= b,
        Some(e) => has_event(st.events, e) && a <= event_at(st.events, e).start_date <= b,
    }
}

/// The effective date: creation time, or the linked event's start time.
pub open spec fn effective_date(st: StoreV, s: SessionV) -> i64 {
    match s.calendar_event_id {
        None => s.created_at,
        Some(e) => event_at(st.events, e).start_date,
    }
}

/// The session is linked to any of the given tags.
pub open spec fn tag_match(st: StoreV, ids: Seq<Seq<char>>, s: SessionV) -> bool {
    exists|j: int|
        0 <= j < st.tag_links.len() && (#[trigger] st.tag_links[j]).1 == s.id && ids.contains(
            st.tag_links[j].0,
        )
}

/// Whether a session row belongs to the listing's result set.
pub open spec fn list_matches(st: StoreV, f: Option<ListFilterV>, s: SessionV) -> bool {
    match f {
        None => true,
        Some(fv) => {
            &&& s.user_id == fv.common.user_id
            &&& match fv.specific {
                ListSpecificV::Search { query } => search_text_match(st, query, s),
                ListSpecificV::RecentlyVisited {  } => true,
                ListSpecificV::DateRange { start, end } => effective_in_range(st, start, end, s),
                ListSpecificV::TagFilter { tag_ids } => tag_match(st, tag_ids, s),
            }
        },
    }
}

/// The primary ordering key: in search mode, title matches sort before
/// non-title matches; every other mode has a single stratum.
pub open spec fn rank_of(f: Option<ListFilterV>, s: SessionV) -> int {
    match f {
        None => 0,
        Some(fv) => match fv.specific {
            ListSpecificV::Search { query } => if contains_ci(s.title, query) {
                0
            } else {
                1
            },
            _ => 0,
        },
    }
}

/// The secondary ordering key, sorted descending: creation time, except
/// the last-visited time for the recently-visited mode and the effective
/// date for the date-range mode.
pub open spec fn time_of(st: StoreV, f: Option<ListFilterV>, s: SessionV) -> int {
    match f {
        None => s.created_at as int,
        Some(fv) => match fv.specific {
            ListSpecificV::RecentlyVisited {  } => s.visited_at as int,
            ListSpecificV::DateRange { start, end } => effective_date(st, s) as int,
            _ => s.created_at as int,
        },
    }
}

/// The listing order: lower rank first, then later time first.
pub open spec fn sorts_before_eq(
    st: StoreV,
    f: Option<ListFilterV>,
    s1: SessionV,
    s2: SessionV,
) -> bool {
    ||| rank_of(f, s1) < rank_of(f, s2)
    ||| (rank_of(f, s1) == rank_of(f, s2) && time_of(st, f, s1) >= time_of(st, f, s2))
}

/// Some row of `out` carries this identifier.
pub open spec fn has_id(out: Seq<SessionV>, id: Seq<char>) -> bool {
    exists|i: int| 0 <= i < out.len() && (#[trigger] out[i]).id == id
}

/// The listing contract: at most `limit` rows; every row is a stored
/// matching session; rows are in listing order with distinct identifiers;
/// and a matching session is only ever left out when the result is full
/// of rows that sort no later than it.
pub open spec fn valid_listing(st: StoreV, f: Option<ListFilterV>, out: Seq<SessionV>) -> bool {
    &&& out.len() <= limit_of(f)
    &&& forall|i: int|
        0 <= i < out.len() ==> st.sessions.contains(#[trigger] out[i]) && list_matches(
            st,
            f,
            out[i],
        )
    &&& forall|i: int, j: int|
        0 <= i < j < out.len() ==> sorts_before_eq(st, f, #[trigger] out[i], #[trigger] out[j])
    &&& forall|i: int, j: int|
        0 <= i < j < out.len() ==> (#[trigger] out[i]).id != (#[trigger] out[j]).id
    &&& forall|s: SessionV|
        #[trigger] st.sessions.contains(s) && list_matches(st, f, s) && !has_id(out, s.id) ==> (
        out.len() == limit_of(f) && forall|i: int|
            0 <= i < out.len() ==> sorts_before_eq(st, f, #[trigger] out[i], s))
}

/// The tag-filtered mode was given a non-empty tag set holding a
/// syntactically invalid UUID; the call is rejected before any query.
pub open spec fn tag_filter_rejected(f: Option<ListFilterV>) -> bool {
    match f {
        Some(fv) => match fv.specific {
            ListSpecificV::TagFilter { tag_ids } => tag_ids.len() > 0 && exists|k: int|
                0 <= k < tag_ids.len() && !uuid_accepts(#[trigger] tag_ids[k]),
            _ => false,
        },
        None => false,
    }
}

/// The offending value of a rejected tag filter: the first tag identifier
/// that is not UUID-shaped.
pub open spec fn offending_tag(f: Option<ListFilterV>, m: Seq<char>) -> bool {
    match f {
        Some(fv) => match fv.specific {
            ListSpecificV::TagFilter { tag_ids } => exists|k: int|
                0 <= k < tag_ids.len() && m == #[trigger] tag_ids[k] && !uuid_accepts(tag_ids[k])
                    && (forall|j: int| 0 <= j < k ==> uuid_accepts(#[trigger] tag_ids[j])),
            _ => false,
        },
        None => false,
    }
}

/// A session row paired with its precomputed ordering key.
pub(crate) struct Keyed {
    pub(crate) rank: u8,
    pub(crate) t: i64,
    pub(crate) s: Session,
}

/// The carried key agrees with the mode's ordering key for the row.
pub(crate) open spec fn keyed_ok(st: StoreV, f: Option<ListFilterV>, k: Keyed) -> bool {
    &&& k.rank as int == rank_of(f, k.s.deep_view())
    &&& k.t as int == time_of(st, f, k.s.deep_view())
}

/// The carried keys order: lower rank first, then later time first.
pub(crate) open spec fn key_le(a: Keyed, b: Keyed) -> bool {
    ||| a.rank < b.rank
    ||| (a.rank == b.rank && a.t >= b.t)
}

pub(crate) fn key_le_exec(a: &Keyed, b: &Keyed) -> (r: bool)
    ensures
        r == key_le(*a, *b),
{
    a.rank < b.rank || (a.rank == b.rank && a.t >= b.t)
}

pub(crate) open spec fn kid(k: Keyed) -> Seq<char> {
    k.s.deep_view().id
}

/// Sorts the keyed rows into listing order. The result holds exactly the
/// input rows (witnessed in both directions), in key order.
pub(crate) fn sort_keyed(v: Vec<Keyed>) -> (r: Vec<Keyed>)
    requires
        forall|i: int, j: int| 0 <= i < j < v@.len() ==> kid(#[trigger] v@[i]) != kid(#[trigger] v@[j]),
    ensures
        r@.len() == v@.len(),
        forall|i: int, j: int| 0 <= i < j < r@.len() ==> key_le(#[trigger] r@[i], #[trigger] r@[j]),
        forall|i: int| 0 <= i < r@.len() ==> v@.contains(#[trigger] r@[i]),
        forall|k: int| 0 <= k < v@.len() ==> r@.contains(#[trigger] v@[k]),
        forall|i: int, j: int| 0 <= i < j < r@.len() ==> kid(#[trigger] r@[i]) != kid(#[trigger] r@[j]),
{
    let mut pool = v;
    let mut out: Vec<Keyed> = Vec::new();
    #[verifier::loop_isolation(false)]
    while pool.len() > 0
        invariant
            out@.len() + pool@.len() == v@.len(),
            forall|i: int, j: int|
                0 <= i < j < out@.len() ==> key_le(#[trigger] out@[i], #[trigger] out@[j]),
            forall|i: int, p: int|
                0 <= i < out@.len() && 0 <= p < pool@.len() ==> key_le(
                    #[trigger] out@[i],
                    #[trigger] pool@[p],
                ),
            forall|i: int| 0 <= i < out@.len() ==> v@.contains(#[trigger] out@[i]),
            forall|p: int| 0 <= p < pool@.len() ==> v@.contains(#[trigger] pool@[p]),
            forall|k: int|
                0 <= k < v@.len() ==> out@.contains(#[trigger] v@[k]) || pool@.contains(v@[k]),
            forall|i: int, j: int|
                0 <= i < j < out@.len() ==> kid(#[trigger] out@[i]) != kid(#[trigger] out@[j]),
            forall|p: int, q: int|
                0 <= p < q < pool@.len() ==> kid(#[trigger] pool@[p]) != kid(#[trigger] pool@[q]),
            forall|i: int, p: int|
                0 <= i < out@.len() && 0 <= p < pool@.len() ==> kid(#[trigger] out@[i]) != kid(
                    #[trigger] pool@[p],
                ),
        decreases pool.len(),
    {
        let mut best: usize = 0;
        let mut m: usize = 1;
        while m < pool.len()
            invariant
                pool@.len() > 0,
                best < m,
                m <= pool@.len(),
                forall|p: int| 0 <= p < m ==> key_le(pool@[best as int], #[trigger] pool@[p]),
            decreases pool.len() - m,
        {
            if !key_le_exec(&pool[best], &pool[m]) {
                best = m;
            }
            m += 1;
        }
        let ghost oldpool = pool@;
        let picked = pool.swap_remove(best);
        proof {
            assert(picked == oldpool[best as int]);
            assert(forall|p: int| 0 <= p < oldpool.len() ==> key_le(picked, #[trigger] oldpool[p]));
            // pointwise description of the pool after the removal
            assert(pool@ =~= oldpool.update(best as int, oldpool.last()).drop_last());
            assert forall|p: int| 0 <= p < pool@.len() implies oldpool.contains(
                #[trigger] pool@[p],
            ) by {
                if p == best as int {
                    assert(pool@[p] == oldpool[oldpool.len() - 1]);
                } else {
                    assert(pool@[p] == oldpool[p]);
                }
            }
        }
        let ghost oldout = out@;
        out.push(picked);
        proof {
            let newout = out@;
            assert(newout =~= oldout.push(picked));
            assert(newout.last() == picked);
            // every input row still has a representative
            assert forall|k: int| 0 <= k < v@.len() implies newout.contains(#[trigger] v@[k])
                || pool@.contains(v@[k]) by {
                if oldpool.contains(v@[k]) {
                    let q = choose|q: int| 0 <= q < oldpool.len() && oldpool[q] == v@[k];
                    if q == best as int {
                        assert(newout[newout.len() - 1] == v@[k]);
                    } else if q == oldpool.len() - 1 {
                        if (best as int) < oldpool.len() - 1 {
                            assert(pool@[best as int] == v@[k]);
                        } else {
                            assert(newout[newout.len() - 1] == v@[k]);
                        }
                    } else {
                        assert(pool@[q] == v@[k]);
                    }
                } else {
                    assert(oldout.contains(v@[k]));
                    let q = choose|q: int| 0 <= q < oldout.len() && oldout[q] == v@[k];
                    assert(newout[q] == v@[k]);
                }
            }
        }
    }
    proof {
        assert(pool@.len() == 0);
        assert forall|k: int| 0 <= k < v@.len() implies out@.contains(#[trigger] v@[k]) by {
            assert(!pool@.contains(v@[k]));
        }
    }
    out
}

/// The first `limit` rows, keys stripped.
pub(crate) fn take_limit(v: &Vec<Keyed>, limit: usize) -> (r: Vec<Session>)
    ensures
        r@.len() == vstd::math::min(limit as int, v@.len() as int),
        forall|i: int| 0 <= i < r@.len() ==> (#[trigger] r@[i]).deep_view() == v@[i].s.deep_view(),
{
    let n = if limit < v.len() {
        limit
    } else {
        v.len()
    };
    let mut out: Vec<Session> = Vec::new();
    let mut i: usize = 0;
    #[verifier::loop_isolation(false)]
    while i < n
        invariant
            n <= v@.len(),
            i <= n,
            out@.len() == i,
            forall|j: int| 0 <= j < i ==> (#[trigger] out@[j]).deep_view() == v@[j].s.deep_view(),
        decreases n - i,
    {
        out.push(v[i].s.clone());
        i += 1;
    }
    out
}

/// From sorted keyed candidates to the listing contract.
pub(crate) proof fn lemma_listing_ok(
    st: StoreV,
    f: Option<ListFilterV>,
    cand: Seq<Keyed>,
    sorted: Seq<Keyed>,
    out: Seq<SessionV>,
)
    requires
        forall|i: int|
            0 <= i < cand.len() ==> st.sessions.contains((#[trigger] cand[i]).s.deep_view())
                && list_matches(st, f, cand[i].s.deep_view()) && keyed_ok(st, f, cand[i]),
        forall|k: int|
            0 <= k < st.sessions.len() && list_matches(st, f, #[trigger] st.sessions[k])
                ==> exists|i: int|
                0 <= i < cand.len() && (#[trigger] cand[i]).s.deep_view() == st.sessions[k],
        sorted.len() == cand.len(),
        forall|i: int, j: int|
            0 <= i < j < sorted.len() ==> key_le(#[trigger] sorted[i], #[trigger] sorted[j]),
        forall|i: int| 0 <= i < sorted.len() ==> cand.contains(#[trigger] sorted[i]),
        forall|k: int| 0 <= k < cand.len() ==> sorted.contains(#[trigger] cand[k]),
        forall|i: int, j: int|
            0 <= i < j < sorted.len() ==> kid(#[trigger] sorted[i]) != kid(#[trigger] sorted[j]),
        limit_of(f) >= 0,
        out.len() == vstd::math::min(limit_of(f), sorted.len() as int),
        forall|i: int| 0 <= i < out.len() ==> #[trigger] out[i] == sorted[i].s.deep_view(),
    ensures
        valid_listing(st, f, out),
{
    assert forall|i: int|
        0 <= i < out.len() implies st.sessions.contains(#[trigger] out[i]) && list_matches(
        st,
        f,
        out[i],
    ) by {
        assert(cand.contains(sorted[i]));
        let c = choose|c: int| 0 <= c < cand.len() && cand[c] == sorted[i];
        assert(st.sessions.contains(cand[c].s.deep_view()));
    }
    assert forall|i: int, j: int| 0 <= i < j < out.len() implies sorts_before_eq(
        st,
        f,
        #[trigger] out[i],
        #[trigger] out[j],
    ) by {
        assert(key_le(sorted[i], sorted[j]));
        let ci = choose|c: int| 0 <= c < cand.len() && cand[c] == sorted[i];
        let cj = choose|c: int| 0 <= c < cand.len() && cand[c] == sorted[j];
        assert(keyed_ok(st, f, sorted[i]));
        assert(keyed_ok(st, f, sorted[j]));
    }
    assert forall|s: SessionV|
        #[trigger] st.sessions.contains(s) && list_matches(st, f, s) && !has_id(out, s.id) implies (
    out.len() == limit_of(f) && forall|i: int|
        0 <= i < out.len() ==> sorts_before_eq(st, f, #[trigger] out[i], s)) by {
        let k = choose|k: int| 0 <= k < st.sessions.len() && st.sessions[k] == s;
        let c = choose|i: int| 0 <= i < cand.len() && (#[trigger] cand[i]).s.deep_view()
            == st.sessions[k];
        assert(sorted.contains(cand[c]));
        let q = choose|q: int| 0 <= q < sorted.len() && sorted[q] == cand[c];
        assert(sorted[q].s.deep_view() == s);
        if q < out.len() {
            assert(out[q].id == s.id);
            assert(has_id(out, s.id));
        }
        assert(q >= out.len());
        assert(out.len() == limit_of(f));
        assert forall|i: int| 0 <= i < out.len() implies sorts_before_eq(
            st,
            f,
            #[trigger] out[i],
            s,
        ) by {
            assert(key_le(sorted[i], sorted[q]));
            assert(keyed_ok(st, f, sorted[i]));
            assert(keyed_ok(st, f, sorted[q]));
        }
    }
}

} // verus!
