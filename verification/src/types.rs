//! The entity model: sessions, transcript words, humans, calendar events,
//! the filter variants of the query operations, and the error taxonomy.
//!
//! Timestamps are carried as `i64` milliseconds since the Unix epoch, the
//! round-trippable plain form of the textual timestamps at the storage
//! boundary; converting to and from a calendar representation is the
//! adapter's business, not this library's.

use vstd::prelude::*;

verus! {

/// One transcript word of a session's recording.
#[derive(Debug, PartialEq, Eq)]
pub struct Word {
    pub text: String,
    pub start_ms: Option<u64>,
    pub end_ms: Option<u64>,
    /// Speaker label, when diarization assigned one.
    pub speaker: Option<String>,
    /// Confidence score, carried opaquely as the source's 32-bit pattern;
    /// the store never interprets it.
    pub confidence: Option<u32>,
}

pub ghost struct WordV {
    pub text: Seq<char>,
    pub start_ms: Option<u64>,
    pub end_ms: Option<u64>,
    pub speaker: Option<Seq<char>>,
    pub confidence: Option<u32>,
}

pub open spec fn opt_str_view(o: Option<String>) -> Option<Seq<char>> {
    match o {
        Some(s) => Some(s@),
        None => None,
    }
}

impl DeepView for Word {
    type V = WordV;

    open spec fn deep_view(&self) -> WordV {
        WordV {
            text: self.text@,
            start_ms: self.start_ms,
            end_ms: self.end_ms,
            speaker: opt_str_view(self.speaker),
            confidence: self.confidence,
        }
    }
}

impl Clone for Word {
    fn clone(&self) -> (res: Self)
        ensures
            res == *self,
    {
        Word {
            text: self.text.clone(),
            start_ms: self.start_ms,
            end_ms: self.end_ms,
            speaker: clone_opt_string(&self.speaker),
            confidence: self.confidence,
        }
    }
}

/// Clones an optional string, keeping its value.
pub fn clone_opt_string(o: &Option<String>) -> (res: Option<String>)
    ensures
        res == *o,
{
    match o {
        Some(s) => Some(s.clone()),
        None => None,
    }
}

/// Clones a word sequence, keeping its value.
pub fn clone_words(v: &Vec<Word>) -> (res: Vec<Word>)
    ensures
        res@ =~= v@,
{
    let mut out: Vec<Word> = Vec::new();
    let mut i: usize = 0;
    while i < v.len()
        invariant
            i <= v.len(),
            out@ =~= v@.take(i as int),
        decreases v.len() - i,
    {
        out.push(v[i].clone());
        proof {
            assert(out@ =~= v@.take(i + 1 as int));
        }
        i += 1;
    }
    proof {
        assert(v@.take(v@.len() as int) =~= v@);
    }
    out
}

/// Clones a string sequence, keeping its value.
pub fn clone_strings(v: &Vec<String>) -> (res: Vec<String>)
    ensures
        res@ =~= v@,
{
    let mut out: Vec<String> = Vec::new();
    let mut i: usize = 0;
    while i < v.len()
        invariant
            i <= v.len(),
            out@ =~= v@.take(i as int),
        decreases v.len() - i,
    {
        out.push(v[i].clone());
        proof {
            assert(out@ =~= v@.take(i + 1 as int));
        }
        i += 1;
    }
    proof {
        assert(v@.take(v@.len() as int) =~= v@);
    }
    out
}

/// A stored meeting record, the primary entity of the store.
#[derive(Debug, PartialEq, Eq)]
pub struct Session {
    /// Unique identifier, UUID-shaped, assigned by the caller at creation.
    pub id: String,
    pub user_id: String,
    /// Creation timestamp, immutable once stored.
    pub created_at: i64,
    /// Last-visited timestamp, stamped by `visit_session`.
    pub visited_at: i64,
    /// At most one linked calendar event.
    pub calendar_event_id: Option<String>,
    pub title: String,
    pub raw_memo_html: String,
    pub enhanced_memo_html: Option<String>,
    /// Always written back as an empty collection by `upsert_session`.
    pub conversations: Vec<String>,
    /// Ordered transcript word sequence.
    pub words: Vec<Word>,
    pub record_start: Option<i64>,
    pub record_end: Option<i64>,
    pub pre_meeting_memo_html: Option<String>,
}

pub ghost struct SessionV {
    pub id: Seq<char>,
    pub user_id: Seq<char>,
    pub created_at: i64,
    pub visited_at: i64,
    pub calendar_event_id: Option<Seq<char>>,
    pub title: Seq<char>,
    pub raw_memo_html: Seq<char>,
    pub enhanced_memo_html: Option<Seq<char>>,
    pub conversations: Seq<Seq<char>>,
    pub words: Seq<WordV>,
    pub record_start: Option<i64>,
    pub record_end: Option<i64>,
    pub pre_meeting_memo_html: Option<Seq<char>>,
}

impl DeepView for Session {
    type V = SessionV;

    open spec fn deep_view(&self) -> SessionV {
        SessionV {
            id: self.id@,
            user_id: self.user_id@,
            created_at: self.created_at,
            visited_at: self.visited_at,
            calendar_event_id: opt_str_view(self.calendar_event_id),
            title: self.title@,
            raw_memo_html: self.raw_memo_html@,
            enhanced_memo_html: opt_str_view(self.enhanced_memo_html),
            conversations: self.conversations.deep_view(),
            words: self.words.deep_view(),
            record_start: self.record_start,
            record_end: self.record_end,
            pre_meeting_memo_html: opt_str_view(self.pre_meeting_memo_html),
        }
    }
}

impl Clone for Session {
    fn clone(&self) -> (res: Self)
        ensures
            res.deep_view() == self.deep_view(),
    {
        let res = Session {
            id: self.id.clone(),
            user_id: self.user_id.clone(),
            created_at: self.created_at,
            visited_at: self.visited_at,
            calendar_event_id: clone_opt_string(&self.calendar_event_id),
            title: self.title.clone(),
            raw_memo_html: self.raw_memo_html.clone(),
            enhanced_memo_html: clone_opt_string(&self.enhanced_memo_html),
            conversations: clone_strings(&self.conversations),
            words: clone_words(&self.words),
            record_start: self.record_start,
            record_end: self.record_end,
            pre_meeting_memo_html: clone_opt_string(&self.pre_meeting_memo_html),
        };
        proof {
            assert(res.conversations.deep_view() =~= self.conversations.deep_view());
            assert(res.words.deep_view() =~= self.words.deep_view());
        }
        res
    }
}

/// A person record; only the read contract used by this store (identity,
/// full name, email) is carried here.
#[derive(Debug, PartialEq, Eq)]
pub struct Human {
    pub id: String,
    pub full_name: Option<String>,
    pub email: Option<String>,
}

pub ghost struct HumanV {
    pub id: Seq<char>,
    pub full_name: Option<Seq<char>>,
    pub email: Option<Seq<char>>,
}

impl DeepView for Human {
    type V = HumanV;

    open spec fn deep_view(&self) -> HumanV {
        HumanV {
            id: self.id@,
            full_name: opt_str_view(self.full_name),
            email: opt_str_view(self.email),
        }
    }
}

impl Clone for Human {
    fn clone(&self) -> (res: Self)
        ensures
            res == *self,
    {
        Human {
            id: self.id.clone(),
            full_name: clone_opt_string(&self.full_name),
            email: clone_opt_string(&self.email),
        }
    }
}

/// A calendar event record; only the read contract used by this store
/// (identity and start time) is carried here.
#[derive(Debug, PartialEq, Eq)]
pub struct Event {
    pub id: String,
    pub start_date: i64,
}

pub ghost struct EventV {
    pub id: Seq<char>,
    pub start_date: i64,
}

impl DeepView for Event {
    type V = EventV;

    open spec fn deep_view(&self) -> EventV {
        EventV { id: self.id@, start_date: self.start_date }
    }
}

impl Clone for Event {
    fn clone(&self) -> (res: Self)
        ensures
            res == *self,
    {
        Event { id: self.id.clone(), start_date: self.start_date }
    }
}

/// The closed set of single-record fetch modes: exactly one is active per
/// call.
pub enum GetSessionFilter {
    Id(String),
    CalendarEventId(String),
    TagId(String),
}

pub ghost enum GetFilterV {
    Id(Seq<char>),
    CalendarEventId(Seq<char>),
    TagId(Seq<char>),
}

impl DeepView for GetSessionFilter {
    type V = GetFilterV;

    open spec fn deep_view(&self) -> GetFilterV {
        match self {
            GetSessionFilter::Id(s) => GetFilterV::Id(s@),
            GetSessionFilter::CalendarEventId(s) => GetFilterV::CalendarEventId(s@),
            GetSessionFilter::TagId(s) => GetFilterV::TagId(s@),
        }
    }
}

/// The part of a listing filter common to every mode.
pub struct ListSessionFilterCommon {
    pub user_id: String,
    /// Result-count limit; defaults to 100 when absent.
    pub limit: Option<usize>,
}

/// The closed set of listing modes: exactly one is active per call.
pub enum ListSessionFilterSpecific {
    Search { query: String },
    RecentlyVisited {},
    DateRange { start: i64, end: i64 },
    TagFilter { tag_ids: Vec<String> },
}

pub struct ListSessionFilter {
    pub common: ListSessionFilterCommon,
    pub specific: ListSessionFilterSpecific,
}

pub ghost struct ListCommonV {
    pub user_id: Seq<char>,
    pub limit: Option<usize>,
}

pub ghost enum ListSpecificV {
    Search { query: Seq<char> },
    RecentlyVisited {},
    DateRange { start: i64, end: i64 },
    TagFilter { tag_ids: Seq<Seq<char>> },
}

pub ghost struct ListFilterV {
    pub common: ListCommonV,
    pub specific: ListSpecificV,
}

impl DeepView for ListSessionFilterCommon {
    type V = ListCommonV;

    open spec fn deep_view(&self) -> ListCommonV {
        ListCommonV { user_id: self.user_id@, limit: self.limit }
    }
}

impl DeepView for ListSessionFilterSpecific {
    type V = ListSpecificV;

    open spec fn deep_view(&self) -> ListSpecificV {
        match self {
            ListSessionFilterSpecific::Search { query } => ListSpecificV::Search { query: query@ },
            ListSessionFilterSpecific::RecentlyVisited {} => ListSpecificV::RecentlyVisited {},
            ListSessionFilterSpecific::DateRange { start, end } => ListSpecificV::DateRange {
                start: *start,
                end: *end,
            },
            ListSessionFilterSpecific::TagFilter { tag_ids } => ListSpecificV::TagFilter {
                tag_ids: tag_ids.deep_view(),
            },
        }
    }
}

impl DeepView for ListSessionFilter {
    type V = ListFilterV;

    open spec fn deep_view(&self) -> ListFilterV {
        ListFilterV { common: self.common.deep_view(), specific: self.specific.deep_view() }
    }
}

/// The error taxonomy of the store. Absence of a record is never an error;
/// the only validated input-shape failure is a malformed tag identifier.
#[derive(Debug, PartialEq, Eq)]
pub enum Error {
    /// Holds the offending input value.
    InvalidInput(String),
}

} // verus!
