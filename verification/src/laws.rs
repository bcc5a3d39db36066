//! Store-level laws: relations between the operations, stated over the
//! store model and proved from the same spec functions the operations'
//! contracts use.

use vstd::prelude::*;

use crate::seq_facts::{lemma_filter_all_false, lemma_filter_distinct};
use crate::store::{
    add_participant_spec, cleanup_spec, delete_session_spec, empty_session, event_at,
    find_first_session, get_event_spec, has_event, has_session, list_participants_spec,
    matches_get, session_at, session_idx, set_event_spec, stored_session, upsert_session_spec,
    upsert_sessions, lemma_find_first_none, lemma_find_first_some, StoreV,
};
use crate::types::{GetFilterV, HumanV, SessionV};

verus! {

/// Upsert-then-fetch round-trip: after `upsert_session(s)`, fetching by
/// `s`'s identifier returns the stored row, which agrees with `s` in
/// every field except `conversations`, always read back empty.
pub proof fn upsert_then_fetch_round_trip(st: StoreV, s: SessionV)
    requires
        st.wf(),
    ensures
        find_first_session(
            upsert_session_spec(st, s).sessions,
            GetFilterV::Id(s.id),
            upsert_session_spec(st, s).tag_links,
        ) == Some(stored_session(s)),
        stored_session(s) == (SessionV { conversations: Seq::empty(), ..s }),
{
    let stv = stored_session(s);
    let ss2 = upsert_session_spec(st, s).sessions;
    let tags = upsert_session_spec(st, s).tag_links;
    if has_session(st.sessions, s.id) {
        let c = session_idx(st.sessions, s.id);
        assert(st.sessions[c].id == s.id);
        assert(ss2 == st.sessions.update(c, stv));
        assert(matches_get(GetFilterV::Id(s.id), ss2[c], tags));
        assert forall|j: int| 0 <= j < c implies !matches_get(
            GetFilterV::Id(s.id),
            #[trigger] ss2[j],
            tags,
        ) by {
            assert(ss2[j] == st.sessions[j]);
            assert(st.sessions[j].id != st.sessions[c].id);
        }
        lemma_find_first_some(ss2, GetFilterV::Id(s.id), tags, c);
    } else {
        let c = st.sessions.len() as int;
        assert(ss2 == st.sessions.push(stv));
        assert(ss2[c] == stv);
        assert(matches_get(GetFilterV::Id(s.id), ss2[c], tags));
        assert forall|j: int| 0 <= j < c implies !matches_get(
            GetFilterV::Id(s.id),
            #[trigger] ss2[j],
            tags,
        ) by {
            assert(ss2[j] == st.sessions[j]);
        }
        lemma_find_first_some(ss2, GetFilterV::Id(s.id), tags, c);
    }
}

/// The rows of the participant relation that carry this membership.
pub open spec fn membership_rows(
    ps: Seq<(Seq<char>, Seq<char>)>,
    sid: Seq<char>,
    hid: Seq<char>,
) -> Seq<(Seq<char>, Seq<char>)> {
    ps.filter(|p: (Seq<char>, Seq<char>)| p == (sid, hid))
}

/// Idempotent participant add: adding the same membership twice leaves
/// the store exactly as one add does, and the store then holds exactly
/// one row for the membership — so a participant listing is unaffected
/// by the repeated call.
pub proof fn participant_add_idempotent(st: StoreV, sid: Seq<char>, hid: Seq<char>)
    requires
        st.wf(),
    ensures
        add_participant_spec(add_participant_spec(st, sid, hid), sid, hid) == add_participant_spec(
            st,
            sid,
            hid,
        ),
        membership_rows(add_participant_spec(st, sid, hid).participants, sid, hid).len() == 1,
{
    broadcast use vstd::seq_lib::group_filter_ensures;

    let st1 = add_participant_spec(st, sid, hid);
    if !st.participants.contains((sid, hid)) {
        assert(st1.participants[st.participants.len() as int] == (sid, hid));
    }
    assert(st1.participants.contains((sid, hid)));
    assert(add_participant_spec(st1, sid, hid) == st1);
    // the relation stays duplicate-free after the add
    let ps1 = st1.participants;
    assert forall|i: int, j: int| 0 <= i < j < ps1.len() implies #[trigger] ps1[i]
        != #[trigger] ps1[j] by {
        if !st.participants.contains((sid, hid)) && j == ps1.len() - 1 {
            assert(ps1[i] == st.participants[i]);
            assert(st.participants[i] != (sid, hid));
        }
    }
    let pred = |p: (Seq<char>, Seq<char>)| p == (sid, hid);
    let rows = membership_rows(ps1, sid, hid);
    assert(rows =~= ps1.filter(pred)) by {
        assert(pred =~= (|p: (Seq<char>, Seq<char>)| p == (sid, hid)));
    }
    // at least one row: the membership is in the relation
    let w = choose|i: int| 0 <= i < ps1.len() && ps1[i] == (sid, hid);
    assert(pred(ps1[w]));
    assert(ps1.filter(pred).contains(ps1[w]));
    assert(rows.len() >= 1);
    // at most one row: the filtered rows are distinct yet all equal
    lemma_filter_distinct(ps1, pred, |p: (Seq<char>, Seq<char>)| p);
    if rows.len() >= 2 {
        assert(pred(ps1.filter(pred)[0]));
        assert(pred(ps1.filter(pred)[1]));
        assert(false);
    }
}

/// Delete completeness: after the cascading delete, fetching the session
/// by identifier returns absence and its participant listing is empty.
pub proof fn delete_completeness(st: StoreV, id: Seq<char>)
    requires
        st.wf(),
    ensures
        find_first_session(
            delete_session_spec(st, id).sessions,
            GetFilterV::Id(id),
            delete_session_spec(st, id).tag_links,
        ) is None,
        list_participants_spec(delete_session_spec(st, id), id) =~= Seq::<HumanV>::empty(),
{
    broadcast use vstd::seq_lib::group_filter_ensures;

    let st2 = delete_session_spec(st, id);
    assert forall|j: int| 0 <= j < st2.sessions.len() implies !matches_get(
        GetFilterV::Id(id),
        #[trigger] st2.sessions[j],
        st2.tag_links,
    ) by {
        assert(st2.sessions[j].id != id);
    }
    lemma_find_first_none(st2.sessions, GetFilterV::Id(id), st2.tag_links);
    assert forall|k: int| 0 <= k < st2.humans.len() implies !(st2.participants.contains(
        (id, (#[trigger] st2.humans[k]).id),
    )) by {
        if st2.participants.contains((id, st2.humans[k].id)) {
            let w = choose|i: int|
                0 <= i < st2.participants.len() && st2.participants[i] == (
                id,
                st2.humans[k].id,
                );
            assert((st2.participants[w]).0 != id);
        }
    }
    lemma_filter_all_false(
        st2.humans,
        |h: HumanV| st2.participants.contains((id, h.id)),
    );
    assert(list_participants_spec(st2, id) =~= Seq::<HumanV>::empty()) by {
        assert((|h: HumanV| st2.participants.contains((id, h.id))) =~= (|h: HumanV|
            st2.participants.contains((id, h.id))));
    }
}

/// Cleanup selectivity: the maintenance sweep removes exactly the
/// sessions whose tracked content is entirely empty — an empty draft is
/// gone, and any session with content (a non-empty title, for one)
/// survives.
pub proof fn cleanup_selectivity(st: StoreV)
    ensures
        forall|i: int|
            0 <= i < st.sessions.len() && empty_session(#[trigger] st.sessions[i])
                ==> !cleanup_spec(st).sessions.contains(st.sessions[i]),
        forall|i: int|
            0 <= i < st.sessions.len() && !empty_session(#[trigger] st.sessions[i])
                ==> cleanup_spec(st).sessions.contains(st.sessions[i]),
{
    broadcast use vstd::seq_lib::group_filter_ensures;

    let pred = |s: SessionV| !empty_session(s);
    assert forall|i: int|
        0 <= i < st.sessions.len() && empty_session(#[trigger] st.sessions[i])
            implies !cleanup_spec(st).sessions.contains(st.sessions[i]) by {
        if cleanup_spec(st).sessions.contains(st.sessions[i]) {
            let w = choose|w: int|
                0 <= w < cleanup_spec(st).sessions.len() && cleanup_spec(st).sessions[w]
                    == st.sessions[i];
            assert(pred(st.sessions.filter(pred)[w]));
        }
    }
    assert forall|i: int|
        0 <= i < st.sessions.len() && !empty_session(#[trigger] st.sessions[i])
            implies cleanup_spec(st).sessions.contains(st.sessions[i]) by {
        assert(pred(st.sessions[i]));
        assert(st.sessions.filter(pred).contains(st.sessions[i]));
    }
}

/// Event linkage: setting a linked event and then reading it back
/// returns the event with that identifier; clearing the link makes the
/// read return absence.
pub proof fn event_linkage(st: StoreV, sid: Seq<char>, eid: Seq<char>)
    requires
        st.wf(),
        has_session(st.sessions, sid),
        has_event(st.events, eid),
    ensures
        get_event_spec(set_event_spec(st, sid, Some(eid)), sid) is Some,
        get_event_spec(set_event_spec(st, sid, Some(eid)), sid).unwrap().id == eid,
        get_event_spec(set_event_spec(st, sid, None), sid) is None,
{
    let st2 = set_event_spec(st, sid, Some(eid));
    let w = choose|i: int| 0 <= i < st.sessions.len() && (#[trigger] st.sessions[i]).id == sid;
    assert(st2.sessions[w].id == sid);
    assert(has_session(st2.sessions, sid));
    let c = session_idx(st2.sessions, sid);
    assert(st2.sessions[c].id == sid);
    assert(st.sessions[c].id == sid);
    assert(st2.sessions[c].calendar_event_id == Some(eid));
    assert(event_at(st.events, eid).id == eid) by {
        let we = choose|i: int| 0 <= i < st.events.len() && (#[trigger] st.events[i]).id == eid;
        assert(st.events[we].id == eid);
    }
    let st3 = set_event_spec(st, sid, None);
    assert(st3.sessions[w].id == sid);
    assert(has_session(st3.sessions, sid));
    let c3 = session_idx(st3.sessions, sid);
    assert(st3.sessions[c3].id == sid);
    assert(st.sessions[c3].id == sid);
    assert(st3.sessions[c3].calendar_event_id is None);
}

} // verus!
