//! The session store: all read and write access to session records and
//! their relations (participants, linked calendar event, tags, dependent
//! chat rows).
//!
//! The relational state is held in memory and modeled by [`StoreV`]; the
//! storage engine of a storage-backed deployment (transactional statement
//! execution and row cursors) is an external collaborator outside this
//! library's scope.

use vstd::prelude::*;

use crate::clock;
use crate::listing::{
    effective_in_range, keyed_ok, kid, lemma_listing_ok, limit_of, list_matches, offending_tag,
    participant_match, rank_of, search_text_match, sort_keyed, tag_filter_rejected, tag_match,
    take_limit, time_of, valid_listing, Keyed,
};
use crate::seq_facts::{lemma_filter_distinct, lemma_filter_push};
use crate::text::{chars_of, contains_ci_exec, str_eq, strip_html_exec};
use crate::types::{
    clone_words, opt_str_view, Error, EventV, GetFilterV, GetSessionFilter, HumanV, ListFilterV,
    ListSessionFilter, ListSessionFilterSpecific, ListSpecificV, SessionV, WordV,
};
use crate::types::{Event, Human, Session, Word};
use crate::valid::is_valid_uuid;

verus! {

/// The mathematical model of the store: one sequence per table.
/// Relation rows are pairs; the field order of each pair is named at the
/// field that holds it.
pub ghost struct StoreV {
    pub sessions: Seq<SessionV>,
    /// (session id, human id)
    pub participants: Seq<(Seq<char>, Seq<char>)>,
    pub humans: Seq<HumanV>,
    pub events: Seq<EventV>,
    /// (chat group id, owning session id)
    pub chat_groups: Seq<(Seq<char>, Seq<char>)>,
    /// (chat message id, owning group id)
    pub chat_messages: Seq<(Seq<char>, Seq<char>)>,
    /// (tag id, session id); externally owned, read here and seeded by
    /// [`UserDatabase::assign_tag`], never otherwise mutated.
    pub tag_links: Seq<(Seq<char>, Seq<char>)>,
}

impl StoreV {
    /// Well-formedness: identifiers are unique per table and the
    /// participant relation holds no duplicate rows.
    pub open spec fn wf(self) -> bool {
        &&& forall|i: int, j: int|
            0 <= i < j < self.sessions.len() ==> (#[trigger] self.sessions[i]).id != (
            #[trigger] self.sessions[j]).id
        &&& forall|i: int, j: int|
            0 <= i < j < self.participants.len() ==> #[trigger] self.participants[i]
                != #[trigger] self.participants[j]
        &&& forall|i: int, j: int|
            0 <= i < j < self.humans.len() ==> (#[trigger] self.humans[i]).id != (
            #[trigger] self.humans[j]).id
        &&& forall|i: int, j: int|
            0 <= i < j < self.events.len() ==> (#[trigger] self.events[i]).id != (
            #[trigger] self.events[j]).id
        &&& forall|i: int, j: int|
            0 <= i < j < self.chat_groups.len() ==> (#[trigger] self.chat_groups[i]).0 != (
            #[trigger] self.chat_groups[j]).0
    }

    pub open spec fn empty_store() -> StoreV {
        StoreV {
            sessions: Seq::empty(),
            participants: Seq::empty(),
            humans: Seq::empty(),
            events: Seq::empty(),
            chat_groups: Seq::empty(),
            chat_messages: Seq::empty(),
            tag_links: Seq::empty(),
        }
    }
}

/// There is a session with this identifier.
pub open spec fn has_session(ss: Seq<SessionV>, id: Seq<char>) -> bool {
    exists|i: int| 0 <= i < ss.len() && (#[trigger] ss[i]).id == id
}

/// The index of the session with this identifier (unique under `wf`).
pub open spec fn session_idx(ss: Seq<SessionV>, id: Seq<char>) -> int {
    choose|i: int| 0 <= i < ss.len() && (#[trigger] ss[i]).id == id
}

/// The session with this identifier.
pub open spec fn session_at(ss: Seq<SessionV>, id: Seq<char>) -> SessionV {
    ss[session_idx(ss, id)]
}

/// There is an event with this identifier.
pub open spec fn has_event(es: Seq<EventV>, id: Seq<char>) -> bool {
    exists|i: int| 0 <= i < es.len() && (#[trigger] es[i]).id == id
}

/// The event with this identifier (unique under `wf`).
pub open spec fn event_at(es: Seq<EventV>, id: Seq<char>) -> EventV {
    es[choose|i: int| 0 <= i < es.len() && (#[trigger] es[i]).id == id]
}

/// Whether a session row answers a single-record fetch filter.
pub open spec fn matches_get(
    f: GetFilterV,
    s: SessionV,
    tags: Seq<(Seq<char>, Seq<char>)>,
) -> bool {
    match f {
        GetFilterV::Id(id) => s.id == id,
        GetFilterV::CalendarEventId(e) => s.calendar_event_id == Some(e),
        GetFilterV::TagId(t) => exists|k: int|
            0 <= k < tags.len() && #[trigger] tags[k] == (t, s.id),
    }
}

/// The first session row (in table order) answering a fetch filter.
pub open spec fn find_first_session(
    ss: Seq<SessionV>,
    f: GetFilterV,
    tags: Seq<(Seq<char>, Seq<char>)>,
) -> Option<SessionV>
    decreases ss.len(),
{
    if ss.len() == 0 {
        None
    } else if matches_get(f, ss[0], tags) {
        Some(ss[0])
    } else {
        find_first_session(ss.drop_first(), f, tags)
    }
}

/// `find_first_session` returns the witness with no earlier match.
pub proof fn lemma_find_first_some(
    ss: Seq<SessionV>,
    f: GetFilterV,
    tags: Seq<(Seq<char>, Seq<char>)>,
    i: int,
)
    requires
        0 <= i < ss.len(),
        matches_get(f, ss[i], tags),
        forall|j: int| 0 <= j < i ==> !matches_get(f, #[trigger] ss[j], tags),
    ensures
        find_first_session(ss, f, tags) == Some(ss[i]),
    decreases ss.len(),
{
    if i == 0 {
    } else {
        assert(!matches_get(f, ss[0], tags));
        let tail = ss.drop_first();
        assert(forall|j: int| 0 <= j < tail.len() ==> #[trigger] tail[j] == ss[j + 1]);
        lemma_find_first_some(tail, f, tags, i - 1);
    }
}

/// With no matching row, `find_first_session` returns absence.
pub proof fn lemma_find_first_none(
    ss: Seq<SessionV>,
    f: GetFilterV,
    tags: Seq<(Seq<char>, Seq<char>)>,
)
    requires
        forall|j: int| 0 <= j < ss.len() ==> !matches_get(f, #[trigger] ss[j], tags),
    ensures
        find_first_session(ss, f, tags) is None,
    decreases ss.len(),
{
    if ss.len() == 0 {
    } else {
        let tail = ss.drop_first();
        assert(forall|j: int| 0 <= j < tail.len() ==> #[trigger] tail[j] == ss[j + 1]);
        lemma_find_first_none(tail, f, tags);
    }
}

/// A session as `upsert_session` persists it: every field of the input,
/// except that the conversations collection is always written back empty.
pub open spec fn stored_session(s: SessionV) -> SessionV {
    SessionV { conversations: Seq::empty(), ..s }
}

/// The session table after an upsert: the row with the same identifier is
/// replaced, or the row is appended.
pub open spec fn upsert_sessions(ss: Seq<SessionV>, s: SessionV) -> Seq<SessionV> {
    if has_session(ss, s.id) {
        ss.update(session_idx(ss, s.id), s)
    } else {
        ss.push(s)
    }
}

/// The whole store after `upsert_session`.
pub open spec fn upsert_session_spec(st: StoreV, s: SessionV) -> StoreV {
    StoreV { sessions: upsert_sessions(st.sessions, stored_session(s)), ..st }
}

/// A session with its linked calendar event replaced.
pub open spec fn with_event(s: SessionV, e: Option<Seq<char>>) -> SessionV {
    SessionV { calendar_event_id: e, ..s }
}

/// A session with its last-visited timestamp replaced.
pub open spec fn with_visited(s: SessionV, t: i64) -> SessionV {
    SessionV { visited_at: t, ..s }
}

/// The whole store after `session_set_event`.
pub open spec fn set_event_spec(st: StoreV, sid: Seq<char>, e: Option<Seq<char>>) -> StoreV {
    StoreV {
        sessions: Seq::new(
            st.sessions.len(),
            |i: int|
                if st.sessions[i].id == sid {
                    with_event(st.sessions[i], e)
                } else {
                    st.sessions[i]
                },
        ),
        ..st
    }
}

/// The whole store after `visit_session` stamped the time `t`.
pub open spec fn visit_spec(st: StoreV, sid: Seq<char>, t: i64) -> StoreV {
    StoreV {
        sessions: Seq::new(
            st.sessions.len(),
            |i: int|
                if st.sessions[i].id == sid {
                    with_visited(st.sessions[i], t)
                } else {
                    st.sessions[i]
                },
        ),
        ..st
    }
}

/// The group belongs to the session.
pub open spec fn session_owns_group(
    groups: Seq<(Seq<char>, Seq<char>)>,
    sid: Seq<char>,
    gid: Seq<char>,
) -> bool {
    exists|j: int| 0 <= j < groups.len() && #[trigger] groups[j] == (gid, sid)
}

/// The whole store after the cascading `delete_session`: the session's
/// chat messages, chat groups, participant rows and the session row
/// itself are removed, in that dependency order.
pub open spec fn delete_session_spec(st: StoreV, id: Seq<char>) -> StoreV {
    StoreV {
        sessions: st.sessions.filter(|s: SessionV| s.id != id),
        participants: st.participants.filter(|p: (Seq<char>, Seq<char>)| p.0 != id),
        chat_groups: st.chat_groups.filter(|g: (Seq<char>, Seq<char>)| g.1 != id),
        chat_messages: st.chat_messages.filter(
            |m: (Seq<char>, Seq<char>)| !session_owns_group(st.chat_groups, id, m.1),
        ),
        ..st
    }
}

/// An abandoned empty draft: every tracked text field and the
/// conversation list are empty.
pub open spec fn empty_session(s: SessionV) -> bool {
    &&& s.title.len() == 0
    &&& s.raw_memo_html.len() == 0
    &&& match s.enhanced_memo_html {
        Some(e) => e.len() == 0,
        None => true,
    }
    &&& match s.pre_meeting_memo_html {
        Some(p) => p.len() == 0,
        None => true,
    }
    &&& s.conversations.len() == 0
}

/// The whole store after the maintenance sweep: empty drafts removed,
/// with no cascading to dependent tables.
pub open spec fn cleanup_spec(st: StoreV) -> StoreV {
    StoreV { sessions: st.sessions.filter(|s: SessionV| !empty_session(s)), ..st }
}

/// The whole store after the idempotent participant add.
pub open spec fn add_participant_spec(st: StoreV, sid: Seq<char>, hid: Seq<char>) -> StoreV {
    StoreV {
        participants: if st.participants.contains((sid, hid)) {
            st.participants
        } else {
            st.participants.push((sid, hid))
        },
        ..st
    }
}

/// The whole store after the unconditional participant remove.
pub open spec fn remove_participant_spec(st: StoreV, sid: Seq<char>, hid: Seq<char>) -> StoreV {
    StoreV {
        participants: st.participants.filter(|p: (Seq<char>, Seq<char>)| p != (sid, hid)),
        ..st
    }
}

/// The humans joined through the participant relation, in table order.
pub open spec fn list_participants_spec(st: StoreV, sid: Seq<char>) -> Seq<HumanV> {
    st.humans.filter(|h: HumanV| st.participants.contains((sid, h.id)))
}

/// The linked calendar event of the session, if the session exists, links
/// one, and the event store holds it.
pub open spec fn get_event_spec(st: StoreV, sid: Seq<char>) -> Option<EventV> {
    if has_session(st.sessions, sid) {
        match session_at(st.sessions, sid).calendar_event_id {
            Some(e) => if has_event(st.events, e) {
                Some(event_at(st.events, e))
            } else {
                None
            },
            None => None,
        }
    } else {
        None
    }
}

/// The transcript word sequence of the session, or empty when the session
/// does not exist.
pub open spec fn words_spec(st: StoreV, sid: Seq<char>) -> Seq<WordV> {
    if has_session(st.sessions, sid) {
        session_at(st.sessions, sid).words
    } else {
        Seq::empty()
    }
}

/// There is a human with this identifier.
pub open spec fn has_human(hs: Seq<HumanV>, id: Seq<char>) -> bool {
    exists|i: int| 0 <= i < hs.len() && (#[trigger] hs[i]).id == id
}

/// The human table after an upsert keyed on the identifier.
pub open spec fn upsert_humans(hs: Seq<HumanV>, h: HumanV) -> Seq<HumanV> {
    if has_human(hs, h.id) {
        hs.update(choose|i: int| 0 <= i < hs.len() && (#[trigger] hs[i]).id == h.id, h)
    } else {
        hs.push(h)
    }
}

/// The event table after an upsert keyed on the identifier.
pub open spec fn upsert_events(es: Seq<EventV>, e: EventV) -> Seq<EventV> {
    if has_event(es, e.id) {
        es.update(choose|i: int| 0 <= i < es.len() && (#[trigger] es[i]).id == e.id, e)
    } else {
        es.push(e)
    }
}

/// There is a chat group with this identifier.
pub open spec fn has_group(gs: Seq<(Seq<char>, Seq<char>)>, gid: Seq<char>) -> bool {
    exists|i: int| 0 <= i < gs.len() && (#[trigger] gs[i]).0 == gid
}

/// The group identifiers of a session's chat groups, in table order.
pub open spec fn chat_groups_of(st: StoreV, sid: Seq<char>) -> Seq<Seq<char>> {
    st.chat_groups.filter(|g: (Seq<char>, Seq<char>)| g.1 == sid).map_values(
        |g: (Seq<char>, Seq<char>)| g.0,
    )
}

/// The message identifiers of a chat group's messages, in table order.
pub open spec fn chat_messages_of(st: StoreV, gid: Seq<char>) -> Seq<Seq<char>> {
    st.chat_messages.filter(|m: (Seq<char>, Seq<char>)| m.1 == gid).map_values(
        |m: (Seq<char>, Seq<char>)| m.0,
    )
}

/// The store that keeps all the session records and their relations.
pub struct UserDatabase {
    sessions: Vec<Session>,
    participants: Vec<(String, String)>,
    humans: Vec<Human>,
    events: Vec<Event>,
    chat_groups: Vec<(String, String)>,
    chat_messages: Vec<(String, String)>,
    tag_links: Vec<(String, String)>,
}

impl View for UserDatabase {
    type V = StoreV;

    closed spec fn view(&self) -> StoreV {
        StoreV {
            sessions: self.sessions.deep_view(),
            participants: self.participants.deep_view(),
            humans: self.humans.deep_view(),
            events: self.events.deep_view(),
            chat_groups: self.chat_groups.deep_view(),
            chat_messages: self.chat_messages.deep_view(),
            tag_links: self.tag_links.deep_view(),
        }
    }
}

/// The reserved identifier of the seeded onboarding session.
pub open spec fn onboarding_id() -> Seq<char> {
    "df1d8c52-6d9d-4471-aff1-5dbd35899cbe"@
}

/// The reserved identifier of the seeded thank-you session.
pub open spec fn thank_you_id() -> Seq<char> {
    "872cf207-6a28-4229-bd66-492d0dce43c0"@
}

impl UserDatabase {
    /// An empty store.
    pub fn new() -> (r: Self)
        ensures
            r@ == StoreV::empty_store(),
            r@.wf(),
    {
        let r = UserDatabase {
            sessions: Vec::new(),
            participants: Vec::new(),
            humans: Vec::new(),
            events: Vec::new(),
            chat_groups: Vec::new(),
            chat_messages: Vec::new(),
            tag_links: Vec::new(),
        };
        proof {
            assert(r@.sessions =~= Seq::<SessionV>::empty());
            assert(r@.participants =~= Seq::<(Seq<char>, Seq<char>)>::empty());
            assert(r@.humans =~= Seq::<HumanV>::empty());
            assert(r@.events =~= Seq::<EventV>::empty());
            assert(r@.chat_groups =~= Seq::<(Seq<char>, Seq<char>)>::empty());
            assert(r@.chat_messages =~= Seq::<(Seq<char>, Seq<char>)>::empty());
            assert(r@.tag_links =~= Seq::<(Seq<char>, Seq<char>)>::empty());
        }
        r
    }

    /// The well-known session identifier of the onboarding flow.
    pub fn onboarding_session_id(&self) -> (r: String)
        ensures
            r@ == onboarding_id(),
    {
        "df1d8c52-6d9d-4471-aff1-5dbd35899cbe".to_owned()
    }

    /// The well-known session identifier of the thank-you flow.
    pub fn thank_you_session_id(&self) -> (r: String)
        ensures
            r@ == thank_you_id(),
    {
        "872cf207-6a28-4229-bd66-492d0dce43c0".to_owned()
    }

    /// The position of the session row with this identifier, if any, with
    /// no earlier row carrying it.
    fn find_session(&self, id: &str) -> (r: Option<usize>)
        ensures
            match r {
                Some(i) => i < self@.sessions.len() && self@.sessions[i as int].id == id@
                    && forall|j: int| 0 <= j < i ==> (#[trigger] self@.sessions[j]).id != id@,
                None => forall|j: int|
                    0 <= j < self@.sessions.len() ==> (#[trigger] self@.sessions[j]).id != id@,
            },
    {
        let mut i: usize = 0;
        while i < self.sessions.len()
            invariant
                i <= self@.sessions.len(),
                self@.sessions.len() == self.sessions@.len(),
                forall|j: int| 0 <= j < i ==> (#[trigger] self@.sessions[j]).id != id@,
            decreases self.sessions.len() - i,
        {
            if crate::text::str_eq(self.sessions[i].id.as_str(), id) {
                return Some(i);
            }
            i += 1;
        }
        None
    }

    /// Whether a session row answers the fetch filter, the tag mode read
    /// through the tag-association table.
    fn session_matches_get(&self, s: &Session, filter: &GetSessionFilter) -> (r: bool)
        ensures
            r == matches_get(filter.deep_view(), s.deep_view(), self@.tag_links),
    {
        match filter {
            GetSessionFilter::Id(id) => crate::text::str_eq(s.id.as_str(), id.as_str()),
            GetSessionFilter::CalendarEventId(e) => match &s.calendar_event_id {
                Some(c) => crate::text::str_eq(c.as_str(), e.as_str()),
                None => false,
            },
            GetSessionFilter::TagId(t) => {
                let mut k: usize = 0;
                #[verifier::loop_isolation(false)]
                while k < self.tag_links.len()
                    invariant
                        k <= self@.tag_links.len(),
                        self@.tag_links.len() == self.tag_links@.len(),
                        forall|j: int|
                            0 <= j < k ==> #[trigger] self@.tag_links[j] != (t@, s.deep_view().id),
                    decreases self.tag_links.len() - k,
                {
                    if crate::text::str_eq(self.tag_links[k].0.as_str(), t.as_str())
                        && crate::text::str_eq(self.tag_links[k].1.as_str(), s.id.as_str()) {
                        assert(self@.tag_links[k as int] == (t@, s.deep_view().id));
                        return true;
                    }
                    assert(self@.tag_links[k as int] != (t@, s.deep_view().id));
                    k += 1;
                }
                false
            },
        }
    }

    /// Single-record retrieval: the first session row answering the
    /// filter, or absence — never an error when nothing matches.
    pub fn get_session(&self, filter: GetSessionFilter) -> (r: Result<Option<Session>, Error>)
        ensures
            r is Ok,
            r.unwrap().deep_view() == find_first_session(
                self@.sessions,
                filter.deep_view(),
                self@.tag_links,
            ),
    {
        let mut i: usize = 0;
        while i < self.sessions.len()
            invariant
                i <= self@.sessions.len(),
                self@.sessions.len() == self.sessions@.len(),
                forall|j: int|
                    0 <= j < i ==> !matches_get(
                        filter.deep_view(),
                        #[trigger] self@.sessions[j],
                        self@.tag_links,
                    ),
            decreases self.sessions.len() - i,
        {
            if self.session_matches_get(&self.sessions[i], &filter) {
                let found = self.sessions[i].clone();
                proof {
                    lemma_find_first_some(
                        self@.sessions,
                        filter.deep_view(),
                        self@.tag_links,
                        i as int,
                    );
                }
                return Ok(Some(found));
            }
            i += 1;
        }
        proof {
            lemma_find_first_none(self@.sessions, filter.deep_view(), self@.tag_links);
        }
        Ok(None)
    }

    /// Insert-or-update keyed on the session identifier; returns the
    /// stored row, whose conversations collection is always empty.
    pub fn upsert_session(&mut self, session: Session) -> (r: Result<Session, Error>)
        requires
            old(self)@.wf(),
        ensures
            r is Ok,
            r.unwrap().deep_view() == stored_session(session.deep_view()),
            final(self)@ == upsert_session_spec(old(self)@, session.deep_view()),
            final(self)@.wf(),
    {
        let stored = Session { conversations: Vec::new(), ..session };
        proof {
            assert(stored.conversations.deep_view() =~= Seq::<Seq<char>>::empty());
            assert(stored.deep_view() == stored_session(session.deep_view()));
        }
        let ret = stored.clone();
        match self.find_session(stored.id.as_str()) {
            Some(i) => {
                self.sessions.set(i, stored);
                proof {
                    let oldss = old(self)@.sessions;
                    let sv = stored_session(session.deep_view());
                    assert(has_session(oldss, sv.id));
                    let c = session_idx(oldss, sv.id);
                    assert(oldss[c].id == sv.id);
                    if c != i as int {
                        assert(oldss[i as int].id == oldss[c].id);
                        assert(false);
                    }
                    assert(self@.sessions =~= oldss.update(i as int, sv));
                    assert(self@ == upsert_session_spec(old(self)@, session.deep_view()));
                    assert forall|a: int, b: int|
                        0 <= a < b < self@.sessions.len() implies (
                    #[trigger] self@.sessions[a]).id != (#[trigger] self@.sessions[b]).id by {
                        if a != i as int && b != i as int {
                            assert(self@.sessions[a] == oldss[a]);
                        }
                    }
                }
            },
            None => {
                self.sessions.push(stored);
                proof {
                    let oldss = old(self)@.sessions;
                    let sv = stored_session(session.deep_view());
                    assert(!has_session(oldss, sv.id));
                    assert(self@.sessions =~= oldss.push(sv));
                    assert(self@ == upsert_session_spec(old(self)@, session.deep_view()));
                    assert forall|a: int, b: int|
                        0 <= a < b < self@.sessions.len() implies (
                    #[trigger] self@.sessions[a]).id != (#[trigger] self@.sessions[b]).id by {
                        if b == self@.sessions.len() - 1 {
                            assert(self@.sessions[a] == oldss[a]);
                        }
                    }
                }
            },
        }
        Ok(ret)
    }

    /// Stamps the session's last-visited timestamp with the current time;
    /// a silent no-op when the identifier does not exist. The time itself
    /// comes from the wall clock, so only its existence is promised;
    /// `visit_session_at` pins the written value.
    pub fn visit_session(&mut self, id: &str) -> (r: Result<(), Error>)
        requires
            old(self)@.wf(),
        ensures
            r is Ok,
            exists|t: i64| final(self)@ == visit_spec(old(self)@, id@, t),
            final(self)@.wf(),
    {
        let t = clock::now_millis();
        self.visit_session_at(id, t)
    }

    /// Stamps the session's last-visited timestamp with the given time; a
    /// silent no-op when the identifier does not exist.
    pub fn visit_session_at(&mut self, id: &str, t: i64) -> (r: Result<(), Error>)
        requires
            old(self)@.wf(),
        ensures
            r is Ok,
            final(self)@ == visit_spec(old(self)@, id@, t),
            final(self)@.wf(),
    {
        match self.find_session(id) {
            Some(i) => {
                let mut s = self.sessions[i].clone();
                s.visited_at = t;
                proof {
                    assert(s.deep_view() == with_visited(old(self)@.sessions[i as int], t));
                }
                self.sessions.set(i, s);
                proof {
                    let oldst = old(self)@;
                    assert forall|j: int| 0 <= j < oldst.sessions.len() && j != i implies (
                    #[trigger] oldst.sessions[j]).id != id@ by {
                        if j < i {
                        } else {
                            assert(oldst.sessions[i as int].id == id@);
                        }
                    }
                    assert(self@.sessions =~= visit_spec(oldst, id@, t).sessions);
                    assert(self@ == visit_spec(oldst, id@, t));
                    assert forall|a: int, b: int|
                        0 <= a < b < self@.sessions.len() implies (
                    #[trigger] self@.sessions[a]).id != (#[trigger] self@.sessions[b]).id by {
                        assert(self@.sessions[a].id == oldst.sessions[a].id);
                        assert(self@.sessions[b].id == oldst.sessions[b].id);
                    }
                }
            },
            None => {
                proof {
                    assert(self@.sessions =~= visit_spec(self@, id@, t).sessions);
                    assert(self@ == visit_spec(self@, id@, t));
                }
            },
        }
        Ok(())
    }

    /// Sets or clears the linked calendar event of the session; clearing
    /// is an explicit absence, not a separate code path.
    pub fn session_set_event(&mut self, session_id: String, event_id: Option<String>) -> (r:
        Result<(), Error>)
        requires
            old(self)@.wf(),
        ensures
            r is Ok,
            final(self)@ == set_event_spec(old(self)@, session_id@, opt_str_view(event_id)),
            final(self)@.wf(),
    {
        let ghost ev = opt_str_view(event_id);
        match self.find_session(session_id.as_str()) {
            Some(i) => {
                let mut s = self.sessions[i].clone();
                s.calendar_event_id = event_id;
                proof {
                    assert(s.deep_view() == with_event(old(self)@.sessions[i as int], ev));
                }
                self.sessions.set(i, s);
                proof {
                    let oldst = old(self)@;
                    assert forall|j: int| 0 <= j < oldst.sessions.len() && j != i implies (
                    #[trigger] oldst.sessions[j]).id != session_id@ by {
                        if j < i {
                        } else {
                            assert(oldst.sessions[i as int].id == session_id@);
                        }
                    }
                    assert(self@.sessions =~= set_event_spec(oldst, session_id@, ev).sessions);
                    assert(self@ == set_event_spec(oldst, session_id@, ev));
                    assert forall|a: int, b: int|
                        0 <= a < b < self@.sessions.len() implies (
                    #[trigger] self@.sessions[a]).id != (#[trigger] self@.sessions[b]).id by {
                        assert(self@.sessions[a].id == oldst.sessions[a].id);
                        assert(self@.sessions[b].id == oldst.sessions[b].id);
                    }
                }
            },
            None => {
                proof {
                    assert(self@.sessions =~= set_event_spec(self@, session_id@, ev).sessions);
                    assert(self@ == set_event_spec(self@, session_id@, ev));
                }
            },
        }
        Ok(())
    }

    /// Whether the session's tracked content is entirely empty.
    fn is_empty_session(s: &Session) -> (r: bool)
        ensures
            r == empty_session(s.deep_view()),
    {
        s.title.as_str().is_empty() && s.raw_memo_html.as_str().is_empty() && (match
            &s.enhanced_memo_html {
            Some(e) => e.as_str().is_empty(),
            None => true,
        }) && (match &s.pre_meeting_memo_html {
            Some(p) => p.as_str().is_empty(),
            None => true,
        }) && s.conversations.len() == 0
    }

    /// The maintenance sweep: deletes every session whose tracked text
    /// fields and conversation list are all empty. No cascading to
    /// dependent tables is performed here.
    pub fn cleanup_sessions(&mut self) -> (r: Result<(), Error>)
        requires
            old(self)@.wf(),
        ensures
            r is Ok,
            final(self)@ == cleanup_spec(old(self)@),
            final(self)@.wf(),
    {
        let ghost dv = self@.sessions;
        let ghost pred = |s: SessionV| !empty_session(s);
        let mut out: Vec<Session> = Vec::new();
        let mut k: usize = 0;
        proof {
            reveal(Seq::filter);
            assert(dv.take(0) =~= Seq::<SessionV>::empty());
            assert(out.deep_view() =~= dv.take(0).filter(pred));
        }
        #[verifier::loop_isolation(false)]
        while k < self.sessions.len()
            invariant
                k <= dv.len(),
                dv.len() == self.sessions@.len(),
                self@.sessions == dv,
                out.deep_view() == dv.take(k as int).filter(pred),
            decreases self.sessions.len() - k,
        {
            let keep = !Self::is_empty_session(&self.sessions[k]);
            proof {
                assert(keep == pred(dv[k as int]));
                assert(dv.take(k + 1 as int) =~= dv.take(k as int).push(dv[k as int]));
                lemma_filter_push(dv.take(k as int), dv[k as int], pred);
            }
            if keep {
                out.push(self.sessions[k].clone());
                proof {
                    assert(out.deep_view() =~= dv.take(k as int).filter(pred).push(dv[k as int]));
                }
            }
            k += 1;
        }
        proof {
            assert(dv.take(dv.len() as int) =~= dv);
        }
        self.sessions = out;
        proof {
            let oldst = old(self)@;
            assert(pred =~= (|s: SessionV| !empty_session(s)));
            assert(self@.sessions == cleanup_spec(oldst).sessions);
            assert(self@ == cleanup_spec(oldst));
            lemma_filter_distinct(dv, pred, |s: SessionV| s.id);
        }
        Ok(())
    }

    /// Whether the participant relation holds this (session, human) row.
    fn has_participant(&self, session_id: &str, human_id: &str) -> (r: bool)
        ensures
            r == self@.participants.contains((session_id@, human_id@)),
    {
        let mut k: usize = 0;
        #[verifier::loop_isolation(false)]
        while k < self.participants.len()
            invariant
                k <= self@.participants.len(),
                self@.participants.len() == self.participants@.len(),
                forall|j: int|
                    0 <= j < k ==> #[trigger] self@.participants[j] != (session_id@, human_id@),
            decreases self.participants.len() - k,
        {
            if crate::text::str_eq(self.participants[k].0.as_str(), session_id)
                && crate::text::str_eq(self.participants[k].1.as_str(), human_id) {
                assert(self@.participants[k as int] == (session_id@, human_id@));
                return true;
            }
            assert(self@.participants[k as int] != (session_id@, human_id@));
            k += 1;
        }
        false
    }

    /// Idempotent participant add: insert-or-keep on the composite key;
    /// re-adding an existing membership is a no-op, not an error.
    pub fn session_add_participant(&mut self, session_id: &str, human_id: &str) -> (r: Result<
        (),
        Error,
    >)
        requires
            old(self)@.wf(),
        ensures
            r is Ok,
            final(self)@ == add_participant_spec(old(self)@, session_id@, human_id@),
            final(self)@.wf(),
    {
        if !self.has_participant(session_id, human_id) {
            self.participants.push((session_id.to_owned(), human_id.to_owned()));
            proof {
                let oldst = old(self)@;
                assert(self@.participants =~= oldst.participants.push((session_id@, human_id@)));
                assert(self@ == add_participant_spec(oldst, session_id@, human_id@));
                assert forall|a: int, b: int|
                    0 <= a < b < self@.participants.len() implies #[trigger] self@.participants[a]
                    != #[trigger] self@.participants[b] by {
                    if b == self@.participants.len() - 1 {
                        assert(self@.participants[a] == oldst.participants[a]);
                        assert(!oldst.participants.contains((session_id@, human_id@)));
                        assert(oldst.participants[a] != (session_id@, human_id@));
                    }
                }
            }
        } else {
            proof {
                assert(self@ == add_participant_spec(self@, session_id@, human_id@));
            }
        }
        Ok(())
    }

    /// Unconditional participant remove; removing a non-member is a
    /// silent no-op.
    pub fn session_remove_participant(&mut self, session_id: &str, human_id: &str) -> (r: Result<
        (),
        Error,
    >)
        requires
            old(self)@.wf(),
        ensures
            r is Ok,
            final(self)@ == remove_participant_spec(old(self)@, session_id@, human_id@),
            final(self)@.wf(),
    {
        let ghost dv = self@.participants;
        let ghost pred = |p: (Seq<char>, Seq<char>)| p != (session_id@, human_id@);
        let mut out: Vec<(String, String)> = Vec::new();
        let mut k: usize = 0;
        proof {
            reveal(Seq::filter);
            assert(dv.take(0) =~= Seq::<(Seq<char>, Seq<char>)>::empty());
            assert(out.deep_view() =~= dv.take(0).filter(pred));
        }
        #[verifier::loop_isolation(false)]
        while k < self.participants.len()
            invariant
                k <= dv.len(),
                dv.len() == self.participants@.len(),
                self@.participants == dv,
                out.deep_view() == dv.take(k as int).filter(pred),
            decreases self.participants.len() - k,
        {
            let keep = !(crate::text::str_eq(self.participants[k].0.as_str(), session_id)
                && crate::text::str_eq(self.participants[k].1.as_str(), human_id));
            proof {
                assert(keep == pred(dv[k as int]));
                assert(dv.take(k + 1 as int) =~= dv.take(k as int).push(dv[k as int]));
                lemma_filter_push(dv.take(k as int), dv[k as int], pred);
            }
            if keep {
                out.push((self.participants[k].0.clone(), self.participants[k].1.clone()));
                proof {
                    assert(out.deep_view() =~= dv.take(k as int).filter(pred).push(dv[k as int]));
                }
            }
            k += 1;
        }
        proof {
            assert(dv.take(dv.len() as int) =~= dv);
        }
        self.participants = out;
        proof {
            let oldst = old(self)@;
            assert(pred =~= (|p: (Seq<char>, Seq<char>)| p != (session_id@, human_id@)));
            assert(self@.participants == remove_participant_spec(
                oldst,
                session_id@,
                human_id@,
            ).participants);
            assert(self@ == remove_participant_spec(oldst, session_id@, human_id@));
            lemma_filter_distinct(dv, pred, |p: (Seq<char>, Seq<char>)| p);
        }
        Ok(())
    }

    /// All Human records joined through the participant relation, in
    /// storage order.
    pub fn session_list_participants(&self, session_id: &str) -> (r: Result<Vec<Human>, Error>)
        ensures
            r is Ok,
            r.unwrap().deep_view() == list_participants_spec(self@, session_id@),
    {
        let ghost dv = self@.humans;
        let ghost pred = |h: HumanV| self@.participants.contains((session_id@, h.id));
        let mut out: Vec<Human> = Vec::new();
        let mut k: usize = 0;
        proof {
            reveal(Seq::filter);
            assert(dv.take(0) =~= Seq::<HumanV>::empty());
            assert(out.deep_view() =~= dv.take(0).filter(pred));
        }
        #[verifier::loop_isolation(false)]
        while k < self.humans.len()
            invariant
                k <= dv.len(),
                dv.len() == self.humans@.len(),
                out.deep_view() == dv.take(k as int).filter(pred),
            decreases self.humans.len() - k,
        {
            let keep = self.has_participant(session_id, self.humans[k].id.as_str());
            proof {
                assert(keep == pred(dv[k as int]));
                assert(dv.take(k + 1 as int) =~= dv.take(k as int).push(dv[k as int]));
                lemma_filter_push(dv.take(k as int), dv[k as int], pred);
            }
            if keep {
                out.push(self.humans[k].clone());
                proof {
                    assert(out.deep_view() =~= dv.take(k as int).filter(pred).push(dv[k as int]));
                }
            }
            k += 1;
        }
        proof {
            assert(dv.take(dv.len() as int) =~= dv);
            assert(pred =~= (|h: HumanV| self@.participants.contains((session_id@, h.id))));
        }
        Ok(out)
    }

    /// Whether this chat group belongs to this session.
    fn group_belongs(&self, group_id: &str, session_id: &str) -> (r: bool)
        ensures
            r == session_owns_group(self@.chat_groups, session_id@, group_id@),
    {
        let mut k: usize = 0;
        #[verifier::loop_isolation(false)]
        while k < self.chat_groups.len()
            invariant
                k <= self@.chat_groups.len(),
                self@.chat_groups.len() == self.chat_groups@.len(),
                forall|j: int|
                    0 <= j < k ==> #[trigger] self@.chat_groups[j] != (group_id@, session_id@),
            decreases self.chat_groups.len() - k,
        {
            if crate::text::str_eq(self.chat_groups[k].0.as_str(), group_id)
                && crate::text::str_eq(self.chat_groups[k].1.as_str(), session_id) {
                assert(self@.chat_groups[k as int] == (group_id@, session_id@));
                return true;
            }
            assert(self@.chat_groups[k as int] != (group_id@, session_id@));
            k += 1;
        }
        false
    }

    /// Cascading delete: removes the session's chat messages, its chat
    /// groups, its participant rows, and the session row itself. The
    /// steps are sequential statements, not one enclosing transaction: a
    /// failure part-way would leave the dependent rows gone and the
    /// session present (a known design gap of this operation; in
    /// this in-memory store no such failure point exists).
    pub fn delete_session(&mut self, id: &str) -> (r: Result<(), Error>)
        requires
            old(self)@.wf(),
        ensures
            r is Ok,
            final(self)@ == delete_session_spec(old(self)@, id@),
            final(self)@.wf(),
    {
        let ghost oldst = self@;
        // chat messages of the session's groups
        let ghost dvm = self@.chat_messages;
        let ghost predm = |m: (Seq<char>, Seq<char>)| !session_owns_group(
            oldst.chat_groups,
            id@,
            m.1,
        );
        let mut msgs: Vec<(String, String)> = Vec::new();
        let mut k: usize = 0;
        proof {
            reveal(Seq::filter);
            assert(dvm.take(0) =~= Seq::<(Seq<char>, Seq<char>)>::empty());
            assert(msgs.deep_view() =~= dvm.take(0).filter(predm));
        }
        #[verifier::loop_isolation(false)]
        while k < self.chat_messages.len()
            invariant
                k <= dvm.len(),
                dvm.len() == self.chat_messages@.len(),
                self@ == oldst,
                msgs.deep_view() == dvm.take(k as int).filter(predm),
            decreases self.chat_messages.len() - k,
        {
            let keep = !self.group_belongs(self.chat_messages[k].1.as_str(), id);
            proof {
                assert(keep == predm(dvm[k as int]));
                assert(dvm.take(k + 1 as int) =~= dvm.take(k as int).push(dvm[k as int]));
                lemma_filter_push(dvm.take(k as int), dvm[k as int], predm);
            }
            if keep {
                msgs.push((self.chat_messages[k].0.clone(), self.chat_messages[k].1.clone()));
                proof {
                    assert(msgs.deep_view() =~= dvm.take(k as int).filter(predm).push(
                        dvm[k as int],
                    ));
                }
            }
            k += 1;
        }
        proof {
            assert(dvm.take(dvm.len() as int) =~= dvm);
        }
        // the session's chat groups
        let ghost dvg = self@.chat_groups;
        let ghost predg = |g: (Seq<char>, Seq<char>)| g.1 != id@;
        let mut groups: Vec<(String, String)> = Vec::new();
        let mut k2: usize = 0;
        proof {
            assert(dvg.take(0) =~= Seq::<(Seq<char>, Seq<char>)>::empty());
            assert(groups.deep_view() =~= dvg.take(0).filter(predg));
        }
        #[verifier::loop_isolation(false)]
        while k2 < self.chat_groups.len()
            invariant
                k2 <= dvg.len(),
                dvg.len() == self.chat_groups@.len(),
                self@ == oldst,
                groups.deep_view() == dvg.take(k2 as int).filter(predg),
            decreases self.chat_groups.len() - k2,
        {
            let keep = !crate::text::str_eq(self.chat_groups[k2].1.as_str(), id);
            proof {
                assert(keep == predg(dvg[k2 as int]));
                assert(dvg.take(k2 + 1 as int) =~= dvg.take(k2 as int).push(dvg[k2 as int]));
                lemma_filter_push(dvg.take(k2 as int), dvg[k2 as int], predg);
            }
            if keep {
                groups.push((self.chat_groups[k2].0.clone(), self.chat_groups[k2].1.clone()));
                proof {
                    assert(groups.deep_view() =~= dvg.take(k2 as int).filter(predg).push(
                        dvg[k2 as int],
                    ));
                }
            }
            k2 += 1;
        }
        proof {
            assert(dvg.take(dvg.len() as int) =~= dvg);
        }
        // the session's participant rows
        let ghost dvp = self@.participants;
        let ghost predp = |p: (Seq<char>, Seq<char>)| p.0 != id@;
        let mut parts: Vec<(String, String)> = Vec::new();
        let mut k3: usize = 0;
        proof {
            assert(dvp.take(0) =~= Seq::<(Seq<char>, Seq<char>)>::empty());
            assert(parts.deep_view() =~= dvp.take(0).filter(predp));
        }
        #[verifier::loop_isolation(false)]
        while k3 < self.participants.len()
            invariant
                k3 <= dvp.len(),
                dvp.len() == self.participants@.len(),
                self@ == oldst,
                parts.deep_view() == dvp.take(k3 as int).filter(predp),
            decreases self.participants.len() - k3,
        {
            let keep = !crate::text::str_eq(self.participants[k3].0.as_str(), id);
            proof {
                assert(keep == predp(dvp[k3 as int]));
                assert(dvp.take(k3 + 1 as int) =~= dvp.take(k3 as int).push(dvp[k3 as int]));
                lemma_filter_push(dvp.take(k3 as int), dvp[k3 as int], predp);
            }
            if keep {
                parts.push((self.participants[k3].0.clone(), self.participants[k3].1.clone()));
                proof {
                    assert(parts.deep_view() =~= dvp.take(k3 as int).filter(predp).push(
                        dvp[k3 as int],
                    ));
                }
            }
            k3 += 1;
        }
        proof {
            assert(dvp.take(dvp.len() as int) =~= dvp);
        }
        // the session row
        let ghost dvs = self@.sessions;
        let ghost preds = |s: SessionV| s.id != id@;
        let mut kept: Vec<Session> = Vec::new();
        let mut k4: usize = 0;
        proof {
            assert(dvs.take(0) =~= Seq::<SessionV>::empty());
            assert(kept.deep_view() =~= dvs.take(0).filter(preds));
        }
        #[verifier::loop_isolation(false)]
        while k4 < self.sessions.len()
            invariant
                k4 <= dvs.len(),
                dvs.len() == self.sessions@.len(),
                self@ == oldst,
                kept.deep_view() == dvs.take(k4 as int).filter(preds),
            decreases self.sessions.len() - k4,
        {
            let keep = !crate::text::str_eq(self.sessions[k4].id.as_str(), id);
            proof {
                assert(keep == preds(dvs[k4 as int]));
                assert(dvs.take(k4 + 1 as int) =~= dvs.take(k4 as int).push(dvs[k4 as int]));
                lemma_filter_push(dvs.take(k4 as int), dvs[k4 as int], preds);
            }
            if keep {
                kept.push(self.sessions[k4].clone());
                proof {
                    assert(kept.deep_view() =~= dvs.take(k4 as int).filter(preds).push(
                        dvs[k4 as int],
                    ));
                }
            }
            k4 += 1;
        }
        proof {
            assert(dvs.take(dvs.len() as int) =~= dvs);
        }
        self.chat_messages = msgs;
        self.chat_groups = groups;
        self.participants = parts;
        self.sessions = kept;
        proof {
            assert(predm =~= (|m: (Seq<char>, Seq<char>)| !session_owns_group(
                oldst.chat_groups,
                id@,
                m.1,
            )));
            assert(predg =~= (|g: (Seq<char>, Seq<char>)| g.1 != id@));
            assert(predp =~= (|p: (Seq<char>, Seq<char>)| p.0 != id@));
            assert(preds =~= (|s: SessionV| s.id != id@));
            assert(self@ == delete_session_spec(oldst, id@));
            lemma_filter_distinct(dvs, preds, |s: SessionV| s.id);
            lemma_filter_distinct(dvp, predp, |p: (Seq<char>, Seq<char>)| p);
            lemma_filter_distinct(dvg, predg, |g: (Seq<char>, Seq<char>)| g.0);
            lemma_filter_distinct(oldst.humans, |h: HumanV| true, |h: HumanV| h.id);
        }
        Ok(())
    }

    /// The linked calendar event of a session, if any, through the
    /// nullable foreign key.
    pub fn session_get_event(&self, session_id: &str) -> (r: Result<Option<Event>, Error>)
        requires
            self@.wf(),
        ensures
            r is Ok,
            r.unwrap().deep_view() == get_event_spec(self@, session_id@),
    {
        match self.find_session(session_id) {
            None => {
                proof {
                    assert(!has_session(self@.sessions, session_id@));
                }
                Ok(None)
            },
            Some(i) => {
                proof {
                    assert(has_session(self@.sessions, session_id@));
                    let c = session_idx(self@.sessions, session_id@);
                    if c != i as int {
                        assert(self@.sessions[c].id == self@.sessions[i as int].id);
                        assert(false);
                    }
                }
                match &self.sessions[i].calendar_event_id {
                    None => {
                        proof {
                            assert(session_at(self@.sessions, session_id@).calendar_event_id
                                is None);
                        }
                        Ok(None)
                    },
                    Some(e) => {
                        let mut k: usize = 0;
                        #[verifier::loop_isolation(false)]
                        while k < self.events.len()
                            invariant
                                k <= self@.events.len(),
                                self@.events.len() == self.events@.len(),
                                forall|j: int|
                                    0 <= j < k ==> (#[trigger] self@.events[j]).id != e@,
                            decreases self.events.len() - k,
                        {
                            if crate::text::str_eq(self.events[k].id.as_str(), e.as_str()) {
                                let found = self.events[k].clone();
                                proof {
                                    assert((self@.events[k as int]).id == e@);
                                    assert(has_event(self@.events, e@));
                                    let c = choose|j: int|
                                        0 <= j < self@.events.len() && (#[trigger] self@.events[j]).id
                                            == e@;
                                    if c != k as int {
                                        assert(self@.events[c].id == self@.events[k as int].id);
                                        assert(false);
                                    }
                                    assert(event_at(self@.events, e@) == found.deep_view());
                                }
                                return Ok(Some(found));
                            }
                            k += 1;
                        }
                        proof {
                            assert(!has_event(self@.events, e@));
                        }
                        Ok(None)
                    },
                }
            },
        }
    }

    /// The transcript word sequence of a session, or an empty sequence
    /// when the session does not exist — absence is not an error.
    pub fn get_words(&self, session_id: &str) -> (r: Result<Vec<Word>, Error>)
        requires
            self@.wf(),
        ensures
            r is Ok,
            r.unwrap().deep_view() == words_spec(self@, session_id@),
    {
        match self.find_session(session_id) {
            None => {
                let out: Vec<Word> = Vec::new();
                proof {
                    assert(!has_session(self@.sessions, session_id@));
                    assert(out.deep_view() =~= Seq::<WordV>::empty());
                }
                Ok(out)
            },
            Some(i) => {
                let out = clone_words(&self.sessions[i].words);
                proof {
                    assert(has_session(self@.sessions, session_id@));
                    let c = session_idx(self@.sessions, session_id@);
                    if c != i as int {
                        assert(self@.sessions[c].id == self@.sessions[i as int].id);
                        assert(false);
                    }
                    assert(out.deep_view() =~= self.sessions@[i as int].words.deep_view());
                }
                Ok(out)
            },
        }
    }

    /// The transcript word sequence seeded under the reserved onboarding
    /// session identifier.
    pub fn get_words_onboarding(&self) -> (r: Result<Vec<Word>, Error>)
        requires
            self@.wf(),
        ensures
            r is Ok,
            r.unwrap().deep_view() == words_spec(self@, onboarding_id()),
    {
        let id = self.onboarding_session_id();
        self.get_words(id.as_str())
    }

    /// Insert-or-update of a Human record keyed on its identifier;
    /// returns the stored row. (The Human store is owned elsewhere; this
    /// seeds the join target that search and participant listing read.)
    pub fn upsert_human(&mut self, human: Human) -> (r: Result<Human, Error>)
        requires
            old(self)@.wf(),
        ensures
            r is Ok,
            r.unwrap() == human,
            final(self)@ == (StoreV {
                humans: upsert_humans(old(self)@.humans, human.deep_view()),
                ..old(self)@
            }),
            final(self)@.wf(),
    {
        let ret = human.clone();
        let mut i: usize = 0;
        #[verifier::loop_isolation(false)]
        while i < self.humans.len()
            invariant
                i <= self@.humans.len(),
                self@.humans.len() == self.humans@.len(),
                self@ == old(self)@,
                forall|j: int| 0 <= j < i ==> (#[trigger] self@.humans[j]).id != human.deep_view().id,
            decreases self.humans.len() - i,
        {
            if crate::text::str_eq(self.humans[i].id.as_str(), human.id.as_str()) {
                proof {
                    assert((self@.humans[i as int]).id == human.deep_view().id);
                }
                self.humans.set(i, human);
                proof {
                    let oldhs = old(self)@.humans;
                    let hv = ret.deep_view();
                    assert(has_human(oldhs, hv.id));
                    let c = choose|j: int| 0 <= j < oldhs.len() && (#[trigger] oldhs[j]).id == hv.id;
                    if c != i as int {
                        assert(oldhs[c].id == oldhs[i as int].id);
                        assert(false);
                    }
                    assert(self@.humans =~= upsert_humans(oldhs, hv));
                    assert(self@ == (StoreV { humans: upsert_humans(oldhs, hv), ..old(self)@ }));
                    assert forall|a: int, b: int|
                        0 <= a < b < self@.humans.len() implies (#[trigger] self@.humans[a]).id != (
                    #[trigger] self@.humans[b]).id by {
                        if a != i as int && b != i as int {
                            assert(self@.humans[a] == oldhs[a]);
                        }
                    }
                }
                return Ok(ret);
            }
            i += 1;
        }
        self.humans.push(human);
        proof {
            let oldhs = old(self)@.humans;
            let hv = ret.deep_view();
            assert(!has_human(oldhs, hv.id));
            assert(self@.humans =~= oldhs.push(hv));
            assert(self@ == (StoreV { humans: upsert_humans(oldhs, hv), ..old(self)@ }));
            assert forall|a: int, b: int|
                0 <= a < b < self@.humans.len() implies (#[trigger] self@.humans[a]).id != (
            #[trigger] self@.humans[b]).id by {
                if b == self@.humans.len() - 1 {
                    assert(self@.humans[a] == oldhs[a]);
                }
            }
        }
        Ok(ret)
    }

    /// Insert-or-update of an Event record keyed on its identifier;
    /// returns the stored row. (The Event store is owned elsewhere; this
    /// seeds the join target that date-range listing and event lookup
    /// read.)
    pub fn upsert_event(&mut self, event: Event) -> (r: Result<Event, Error>)
        requires
            old(self)@.wf(),
        ensures
            r is Ok,
            r.unwrap() == event,
            final(self)@ == (StoreV {
                events: upsert_events(old(self)@.events, event.deep_view()),
                ..old(self)@
            }),
            final(self)@.wf(),
    {
        let ret = event.clone();
        let mut i: usize = 0;
        #[verifier::loop_isolation(false)]
        while i < self.events.len()
            invariant
                i <= self@.events.len(),
                self@.events.len() == self.events@.len(),
                self@ == old(self)@,
                forall|j: int| 0 <= j < i ==> (#[trigger] self@.events[j]).id != event.deep_view().id,
            decreases self.events.len() - i,
        {
            if crate::text::str_eq(self.events[i].id.as_str(), event.id.as_str()) {
                proof {
                    assert((self@.events[i as int]).id == event.deep_view().id);
                }
                self.events.set(i, event);
                proof {
                    let oldes = old(self)@.events;
                    let ev = ret.deep_view();
                    assert(has_event(oldes, ev.id));
                    let c = choose|j: int| 0 <= j < oldes.len() && (#[trigger] oldes[j]).id == ev.id;
                    if c != i as int {
                        assert(oldes[c].id == oldes[i as int].id);
                        assert(false);
                    }
                    assert(self@.events =~= upsert_events(oldes, ev));
                    assert(self@ == (StoreV { events: upsert_events(oldes, ev), ..old(self)@ }));
                    assert forall|a: int, b: int|
                        0 <= a < b < self@.events.len() implies (#[trigger] self@.events[a]).id != (
                    #[trigger] self@.events[b]).id by {
                        if a != i as int && b != i as int {
                            assert(self@.events[a] == oldes[a]);
                        }
                    }
                }
                return Ok(ret);
            }
            i += 1;
        }
        self.events.push(event);
        proof {
            let oldes = old(self)@.events;
            let ev = ret.deep_view();
            assert(!has_event(oldes, ev.id));
            assert(self@.events =~= oldes.push(ev));
            assert(self@ == (StoreV { events: upsert_events(oldes, ev), ..old(self)@ }));
            assert forall|a: int, b: int|
                0 <= a < b < self@.events.len() implies (#[trigger] self@.events[a]).id != (
            #[trigger] self@.events[b]).id by {
                if b == self@.events.len() - 1 {
                    assert(self@.events[a] == oldes[a]);
                }
            }
        }
        Ok(ret)
    }

    /// Seeds a row of the externally-owned tag association, the join
    /// target of the tag-filtered queries.
    pub fn assign_tag(&mut self, tag_id: &str, session_id: &str) -> (r: Result<(), Error>)
        requires
            old(self)@.wf(),
        ensures
            r is Ok,
            final(self)@ == (StoreV {
                tag_links: old(self)@.tag_links.push((tag_id@, session_id@)),
                ..old(self)@
            }),
            final(self)@.wf(),
    {
        self.tag_links.push((tag_id.to_owned(), session_id.to_owned()));
        proof {
            assert(self@.tag_links =~= old(self)@.tag_links.push((tag_id@, session_id@)));
            assert(self@ == (StoreV {
                tag_links: old(self)@.tag_links.push((tag_id@, session_id@)),
                ..old(self)@
            }));
        }
        Ok(())
    }

    /// Seeds a chat group row (the dependent table of the cascading
    /// delete); adding an existing group identifier is a no-op.
    pub fn add_chat_group(&mut self, group_id: &str, session_id: &str) -> (r: Result<(), Error>)
        requires
            old(self)@.wf(),
        ensures
            r is Ok,
            final(self)@ == (if has_group(old(self)@.chat_groups, group_id@) {
                old(self)@
            } else {
                StoreV {
                    chat_groups: old(self)@.chat_groups.push((group_id@, session_id@)),
                    ..old(self)@
                }
            }),
            final(self)@.wf(),
    {
        let mut k: usize = 0;
        #[verifier::loop_isolation(false)]
        while k < self.chat_groups.len()
            invariant
                k <= self@.chat_groups.len(),
                self@.chat_groups.len() == self.chat_groups@.len(),
                self@ == old(self)@,
                forall|j: int| 0 <= j < k ==> (#[trigger] self@.chat_groups[j]).0 != group_id@,
            decreases self.chat_groups.len() - k,
        {
            if crate::text::str_eq(self.chat_groups[k].0.as_str(), group_id) {
                proof {
                    assert((self@.chat_groups[k as int]).0 == group_id@);
                    assert(has_group(self@.chat_groups, group_id@));
                }
                return Ok(());
            }
            k += 1;
        }
        proof {
            assert(!has_group(self@.chat_groups, group_id@));
        }
        self.chat_groups.push((group_id.to_owned(), session_id.to_owned()));
        proof {
            let oldst = old(self)@;
            assert(self@.chat_groups =~= oldst.chat_groups.push((group_id@, session_id@)));
            assert(self@ == (StoreV {
                chat_groups: oldst.chat_groups.push((group_id@, session_id@)),
                ..oldst
            }));
            assert forall|a: int, b: int|
                0 <= a < b < self@.chat_groups.len() implies (#[trigger] self@.chat_groups[a]).0 != (
            #[trigger] self@.chat_groups[b]).0 by {
                if b == self@.chat_groups.len() - 1 {
                    assert(self@.chat_groups[a] == oldst.chat_groups[a]);
                }
            }
        }
        Ok(())
    }

    /// Seeds a chat message row under a chat group.
    pub fn add_chat_message(&mut self, message_id: &str, group_id: &str) -> (r: Result<(), Error>)
        requires
            old(self)@.wf(),
        ensures
            r is Ok,
            final(self)@ == (StoreV {
                chat_messages: old(self)@.chat_messages.push((message_id@, group_id@)),
                ..old(self)@
            }),
            final(self)@.wf(),
    {
        self.chat_messages.push((message_id.to_owned(), group_id.to_owned()));
        proof {
            assert(self@.chat_messages =~= old(self)@.chat_messages.push((message_id@, group_id@)));
            assert(self@ == (StoreV {
                chat_messages: old(self)@.chat_messages.push((message_id@, group_id@)),
                ..old(self)@
            }));
        }
        Ok(())
    }

    /// The identifiers of the session's chat groups, in table order.
    pub fn list_session_chat_groups(&self, session_id: &str) -> (r: Vec<String>)
        ensures
            r.deep_view() == chat_groups_of(self@, session_id@),
    {
        let ghost dv = self@.chat_groups;
        let ghost pred = |g: (Seq<char>, Seq<char>)| g.1 == session_id@;
        let ghost f = |g: (Seq<char>, Seq<char>)| g.0;
        let mut out: Vec<String> = Vec::new();
        let mut k: usize = 0;
        proof {
            reveal(Seq::filter);
            assert(dv.take(0) =~= Seq::<(Seq<char>, Seq<char>)>::empty());
            assert(out.deep_view() =~= dv.take(0).filter(pred).map_values(f));
        }
        #[verifier::loop_isolation(false)]
        while k < self.chat_groups.len()
            invariant
                k <= dv.len(),
                dv.len() == self.chat_groups@.len(),
                out.deep_view() == dv.take(k as int).filter(pred).map_values(f),
            decreases self.chat_groups.len() - k,
        {
            let keep = crate::text::str_eq(self.chat_groups[k].1.as_str(), session_id);
            proof {
                assert(keep == pred(dv[k as int]));
                assert(dv.take(k + 1 as int) =~= dv.take(k as int).push(dv[k as int]));
                lemma_filter_push(dv.take(k as int), dv[k as int], pred);
            }
            if keep {
                out.push(self.chat_groups[k].0.clone());
                proof {
                    let pre = dv.take(k as int).filter(pred);
                    assert(pre.push(dv[k as int]).map_values(f) =~= pre.map_values(f).push(
                        f(dv[k as int]),
                    ));
                    assert(out.deep_view() =~= pre.map_values(f).push(f(dv[k as int])));
                }
            }
            k += 1;
        }
        proof {
            assert(dv.take(dv.len() as int) =~= dv);
            assert(pred =~= (|g: (Seq<char>, Seq<char>)| g.1 == session_id@));
            assert(f =~= (|g: (Seq<char>, Seq<char>)| g.0));
        }
        out
    }

    /// The identifiers of the chat group's messages, in table order.
    pub fn list_group_chat_messages(&self, group_id: &str) -> (r: Vec<String>)
        ensures
            r.deep_view() == chat_messages_of(self@, group_id@),
    {
        let ghost dv = self@.chat_messages;
        let ghost pred = |m: (Seq<char>, Seq<char>)| m.1 == group_id@;
        let ghost f = |m: (Seq<char>, Seq<char>)| m.0;
        let mut out: Vec<String> = Vec::new();
        let mut k: usize = 0;
        proof {
            reveal(Seq::filter);
            assert(dv.take(0) =~= Seq::<(Seq<char>, Seq<char>)>::empty());
            assert(out.deep_view() =~= dv.take(0).filter(pred).map_values(f));
        }
        #[verifier::loop_isolation(false)]
        while k < self.chat_messages.len()
            invariant
                k <= dv.len(),
                dv.len() == self.chat_messages@.len(),
                out.deep_view() == dv.take(k as int).filter(pred).map_values(f),
            decreases self.chat_messages.len() - k,
        {
            let keep = crate::text::str_eq(self.chat_messages[k].1.as_str(), group_id);
            proof {
                assert(keep == pred(dv[k as int]));
                assert(dv.take(k + 1 as int) =~= dv.take(k as int).push(dv[k as int]));
                lemma_filter_push(dv.take(k as int), dv[k as int], pred);
            }
            if keep {
                out.push(self.chat_messages[k].0.clone());
                proof {
                    let pre = dv.take(k as int).filter(pred);
                    assert(pre.push(dv[k as int]).map_values(f) =~= pre.map_values(f).push(
                        f(dv[k as int]),
                    ));
                    assert(out.deep_view() =~= pre.map_values(f).push(f(dv[k as int])));
                }
            }
            k += 1;
        }
        proof {
            assert(dv.take(dv.len() as int) =~= dv);
            assert(pred =~= (|m: (Seq<char>, Seq<char>)| m.1 == group_id@));
            assert(f =~= (|m: (Seq<char>, Seq<char>)| m.0));
        }
        out
    }

    /// The position of the event row with this identifier, if any.
    fn find_event(&self, id: &str) -> (r: Option<usize>)
        ensures
            match r {
                Some(i) => i < self@.events.len() && self@.events[i as int].id == id@,
                None => forall|j: int|
                    0 <= j < self@.events.len() ==> (#[trigger] self@.events[j]).id != id@,
            },
    {
        let mut i: usize = 0;
        #[verifier::loop_isolation(false)]
        while i < self.events.len()
            invariant
                i <= self@.events.len(),
                self@.events.len() == self.events@.len(),
                forall|j: int| 0 <= j < i ==> (#[trigger] self@.events[j]).id != id@,
            decreases self.events.len() - i,
        {
            if crate::text::str_eq(self.events[i].id.as_str(), id) {
                return Some(i);
            }
            i += 1;
        }
        None
    }

    /// Whether some joined participant's name or email matches the query.
    fn participant_search_hit(&self, s: &Session, needle: &Vec<char>) -> (r: bool)
        ensures
            r == exists|k: int|
                0 <= k < self@.humans.len() && participant_match(
                    self@,
                    s.deep_view(),
                    #[trigger] self@.humans[k],
                    needle@,
                ),
    {
        let mut k: usize = 0;
        #[verifier::loop_isolation(false)]
        while k < self.humans.len()
            invariant
                k <= self@.humans.len(),
                self@.humans.len() == self.humans@.len(),
                forall|j: int|
                    0 <= j < k ==> !participant_match(
                        self@,
                        s.deep_view(),
                        #[trigger] self@.humans[j],
                        needle@,
                    ),
            decreases self.humans.len() - k,
        {
            let h = &self.humans[k];
            let joined = self.has_participant(s.id.as_str(), h.id.as_str());
            let name_hit = match &h.full_name {
                Some(n) => {
                    let nc = chars_of(n.as_str());
                    contains_ci_exec(&nc, needle)
                },
                None => false,
            };
            let email_hit = match &h.email {
                Some(m) => {
                    let mc = chars_of(m.as_str());
                    contains_ci_exec(&mc, needle)
                },
                None => false,
            };
            let hit = joined && (name_hit || email_hit);
            proof {
                assert(h.deep_view() == self@.humans[k as int]);
                assert(hit == participant_match(
                    self@,
                    s.deep_view(),
                    self@.humans[k as int],
                    needle@,
                ));
            }
            if hit {
                return true;
            }
            k += 1;
        }
        false
    }

    /// Whether the session is linked to any of the given tags.
    fn tag_hit(&self, s: &Session, tag_ids: &Vec<String>) -> (r: bool)
        ensures
            r == tag_match(self@, tag_ids.deep_view(), s.deep_view()),
    {
        let mut j: usize = 0;
        #[verifier::loop_isolation(false)]
        while j < self.tag_links.len()
            invariant
                j <= self@.tag_links.len(),
                self@.tag_links.len() == self.tag_links@.len(),
                forall|jj: int|
                    0 <= jj < j ==> !((#[trigger] self@.tag_links[jj]).1 == s.deep_view().id
                        && tag_ids.deep_view().contains(self@.tag_links[jj].0)),
            decreases self.tag_links.len() - j,
        {
            if str_eq(self.tag_links[j].1.as_str(), s.id.as_str()) {
                let mut c: usize = 0;
                #[verifier::loop_isolation(false)]
                while c < tag_ids.len()
                    invariant
                        j < self@.tag_links.len(),
                        c <= tag_ids@.len(),
                        tag_ids.deep_view().len() == tag_ids@.len(),
                        forall|cc: int|
                            0 <= cc < c ==> #[trigger] tag_ids.deep_view()[cc]
                                != self@.tag_links[j as int].0,
                    decreases tag_ids.len() - c,
                {
                    if str_eq(tag_ids[c].as_str(), self.tag_links[j].0.as_str()) {
                        proof {
                            assert(tag_ids.deep_view()[c as int] == self@.tag_links[j as int].0);
                            assert(tag_ids.deep_view().contains(self@.tag_links[j as int].0));
                            assert((self@.tag_links[j as int]).1 == s.deep_view().id);
                        }
                        return true;
                    }
                    c += 1;
                }
                proof {
                    assert(!tag_ids.deep_view().contains(self@.tag_links[j as int].0));
                }
            } else {
                proof {
                    assert((self@.tag_links[j as int]).1 != s.deep_view().id);
                }
            }
            j += 1;
        }
        false
    }

    /// Filtered listing and search. With no filter, the most recent 100
    /// sessions globally, by creation time descending. With a filter, the
    /// mode's result set for the filter's user, in the mode's order, cut
    /// to the common limit (default 100). A tag filter holding a
    /// non-UUID identifier is rejected with `InvalidInput` naming the
    /// first offending value, before any row is read; an empty tag set
    /// yields an empty result without error.
    #[verifier::rlimit(100)]
    pub fn list_sessions(&self, filter: Option<ListSessionFilter>) -> (r: Result<
        Vec<Session>,
        Error,
    >)
        requires
            self@.wf(),
        ensures
            (r is Err) == tag_filter_rejected(filter.deep_view()),
            match r {
                Ok(v) => valid_listing(self@, filter.deep_view(), v.deep_view()),
                Err(Error::InvalidInput(m)) => offending_tag(filter.deep_view(), m@),
            },
    {
        let ghost fdv = filter.deep_view();
        let limit: usize = match &filter {
            None => 100,
            Some(f) => match f.common.limit {
                Some(n) => n,
                None => 100,
            },
        };
        proof {
            assert(limit as int == limit_of(fdv));
        }
        // the tag-filtered mode validates its input before any row is read
        if let Some(f) = &filter {
            if let ListSessionFilterSpecific::TagFilter { tag_ids } = &f.specific {
                if tag_ids.len() == 0 {
                    let out: Vec<Session> = Vec::new();
                    proof {
                        assert(out.deep_view() =~= Seq::<SessionV>::empty());
                        assert(!tag_filter_rejected(fdv));
                        assert forall|s: SessionV| !list_matches(self@, fdv, s) by {
                            assert(!tag_match(self@, tag_ids.deep_view(), s));
                        }
                        assert(valid_listing(self@, fdv, out.deep_view()));
                    }
                    return Ok(out);
                }
                let mut c: usize = 0;
                #[verifier::loop_isolation(false)]
                while c < tag_ids.len()
                    invariant
                        c <= tag_ids@.len(),
                        forall|j: int|
                            0 <= j < c ==> crate::valid::uuid_accepts(
                                #[trigger] tag_ids.deep_view()[j],
                            ),
                    decreases tag_ids.len() - c,
                {
                    if !is_valid_uuid(tag_ids[c].as_str()) {
                        let m = tag_ids[c].clone();
                        proof {
                            assert(m@ == tag_ids.deep_view()[c as int]);
                            assert(offending_tag(fdv, m@));
                            assert(tag_filter_rejected(fdv));
                        }
                        return Err(Error::InvalidInput(m));
                    }
                    c += 1;
                }
                proof {
                    assert(!tag_filter_rejected(fdv));
                }
            }
        }
        let mut cands: Vec<Keyed> = Vec::new();
        let mut k: usize = 0;
        #[verifier::loop_isolation(false)]
        while k < self.sessions.len()
            invariant
                k <= self@.sessions.len(),
                self@.sessions.len() == self.sessions@.len(),
                forall|i: int|
                    0 <= i < cands@.len() ==> self@.sessions.contains(
                        (#[trigger] cands@[i]).s.deep_view(),
                    ) && list_matches(self@, fdv, cands@[i].s.deep_view()) && keyed_ok(
                        self@,
                        fdv,
                        cands@[i],
                    ),
                forall|i: int|
                    0 <= i < cands@.len() ==> exists|kk: int|
                        0 <= kk < k && (#[trigger] cands@[i]).s.deep_view() == self@.sessions[kk],
                forall|i: int, j: int|
                    0 <= i < j < cands@.len() ==> kid(#[trigger] cands@[i]) != kid(
                        #[trigger] cands@[j],
                    ),
                forall|kk: int|
                    0 <= kk < k && list_matches(self@, fdv, #[trigger] self@.sessions[kk])
                        ==> exists|i: int|
                        0 <= i < cands@.len() && (#[trigger] cands@[i]).s.deep_view()
                            == self@.sessions[kk],
            decreases self.sessions.len() - k,
    {
            let s = &self.sessions[k];
            let ghost sv = self@.sessions[k as int];
            proof {
                assert(s.deep_view() == sv);
            }
            let mut matched: bool = false;
            let mut rank: u8 = 0;
            let mut t: i64 = s.created_at;
            match &filter {
                None => {
                    matched = true;
                },
                Some(f) => {
                    if str_eq(s.user_id.as_str(), f.common.user_id.as_str()) {
                        match &f.specific {
                            ListSessionFilterSpecific::Search { query } => {
                                let needle = chars_of(query.as_str());
                                let tc = chars_of(s.title.as_str());
                                let title_hit = contains_ci_exec(&tc, &needle);
                                let enh_hit = match &s.enhanced_memo_html {
                                    Some(e) => {
                                        let ec = chars_of(e.as_str());
                                        let es = strip_html_exec(&ec);
                                        contains_ci_exec(&es, &needle)
                                    },
                                    None => false,
                                };
                                let rc = chars_of(s.raw_memo_html.as_str());
                                let rs = strip_html_exec(&rc);
                                let raw_hit = contains_ci_exec(&rs, &needle);
                                let part_hit = self.participant_search_hit(s, &needle);
                                matched = title_hit || enh_hit || raw_hit || part_hit;
                                rank = if title_hit {
                                    0
                                } else {
                                    1
                                };
                                proof {
                                    assert(matched == search_text_match(self@, needle@, sv));
                                    assert(matched ==> list_matches(self@, fdv, sv));
                                    assert(!matched ==> !list_matches(self@, fdv, sv));
                                    assert(rank as int == rank_of(fdv, sv));
                                }
                            },
                            ListSessionFilterSpecific::RecentlyVisited {  } => {
                                matched = true;
                                t = s.visited_at;
                            },
                            ListSessionFilterSpecific::DateRange { start, end } => {
                                match &s.calendar_event_id {
                                    None => {
                                        matched = *start <= s.created_at && s.created_at <= *end;
                                    },
                                    Some(e) => {
                                        match self.find_event(e.as_str()) {
                                            Some(j) => {
                                                let sd = self.events[j].start_date;
                                                proof {
                                                    assert((self@.events[j as int]).id == e@);
                                                    assert(has_event(self@.events, e@));
                                                    let c = choose|cc: int|
                                                        0 <= cc < self@.events.len() && (
                                                        #[trigger] self@.events[cc]).id == e@;
                                                    if c != j as int {
                                                        assert(self@.events[c].id
                                                            == self@.events[j as int].id);
                                                        assert(false);
                                                    }
                                                    assert(event_at(self@.events, e@)
                                                        == self@.events[j as int]);
                                                }
                                                matched = *start <= sd && sd <= *end;
                                                t = sd;
                                            },
                                            None => {
                                                matched = false;
                                                proof {
                                                    assert(!has_event(self@.events, e@));
                                                }
                                            },
                                        }
                                    },
                                }
                                proof {
                                    assert(matched == effective_in_range(self@, *start, *end, sv));
                                    assert(matched ==> t as int == time_of(self@, fdv, sv));
                                }
                            },
                            ListSessionFilterSpecific::TagFilter { tag_ids } => {
                                matched = self.tag_hit(s, tag_ids);
                            },
                        }
                    } else {
                        proof {
                            assert(sv.user_id != f.common.user_id@);
                            assert(!list_matches(self@, fdv, sv));
                        }
                    }
                },
            }
            if matched {
                let ghost oldc = cands@;
                let newk = Keyed { rank, t, s: s.clone() };
                proof {
                    assert(newk.s.deep_view() == sv);
                    assert(keyed_ok(self@, fdv, newk));
                    assert(list_matches(self@, fdv, sv));
                    assert(self@.sessions.contains(sv));
                }
                cands.push(newk);
                proof {
                    assert(cands@ =~= oldc.push(newk));
                    assert forall|i: int| 0 <= i < oldc.len() implies kid(#[trigger] oldc[i])
                        != sv.id by {
                        let kk = choose|kk: int|
                            0 <= kk < k && (#[trigger] oldc[i]).s.deep_view()
                                == self@.sessions[kk];
                        assert(self@.sessions[kk].id != self@.sessions[k as int].id);
                    }
                    assert forall|kk: int|
                        0 <= kk < k + 1 && list_matches(
                            self@,
                            fdv,
                            #[trigger] self@.sessions[kk],
                        ) implies exists|i: int|
                        0 <= i < cands@.len() && (#[trigger] cands@[i]).s.deep_view()
                            == self@.sessions[kk] by {
                        if kk < k {
                            let i = choose|i: int|
                                0 <= i < oldc.len() && (#[trigger] oldc[i]).s.deep_view()
                                    == self@.sessions[kk];
                            assert(cands@[i].s.deep_view() == self@.sessions[kk]);
                        } else {
                            assert(cands@[oldc.len() as int].s.deep_view()
                                == self@.sessions[kk]);
                        }
                    }
                }
            } else {
                proof {
                    assert forall|kk: int|
                        0 <= kk < k + 1 && list_matches(
                            self@,
                            fdv,
                            #[trigger] self@.sessions[kk],
                        ) implies exists|i: int|
                        0 <= i < cands@.len() && (#[trigger] cands@[i]).s.deep_view()
                            == self@.sessions[kk] by {
                        assert(kk < k);
                    }
                }
            }
            k += 1;
        }
        let ghost candsv = cands@;
        let sorted = sort_keyed(cands);
        let out = take_limit(&sorted, limit);
        proof {
            assert forall|kk: int|
                0 <= kk < self@.sessions.len() && list_matches(
                    self@,
                    fdv,
                    #[trigger] self@.sessions[kk],
                ) implies exists|i: int|
                0 <= i < candsv.len() && (#[trigger] candsv[i]).s.deep_view()
                    == self@.sessions[kk] by {}
            lemma_listing_ok(self@, fdv, candsv, sorted@, out.deep_view());
        }
        Ok(out)
    }
}

} // verus!
