use session_store::models::SupportedModel;
use session_store::store::UserDatabase;
use session_store::types::{
    Error, Event, Human, ListSessionFilter, ListSessionFilterCommon, ListSessionFilterSpecific,
    Session,
};

fn new_id() -> String {
    uuid::Uuid::new_v4().to_string()
}

fn make_session(id: &str, user_id: &str, created_at: i64) -> Session {
    Session {
        id: id.to_string(),
        user_id: user_id.to_string(),
        created_at,
        visited_at: created_at,
        calendar_event_id: None,
        title: String::new(),
        raw_memo_html: String::new(),
        enhanced_memo_html: None,
        conversations: vec![],
        words: vec![],
        record_start: None,
        record_end: None,
        pre_meeting_memo_html: None,
    }
}

fn filter_for(
    user_id: &str,
    limit: Option<usize>,
    specific: ListSessionFilterSpecific,
) -> Option<ListSessionFilter> {
    Some(ListSessionFilter {
        common: ListSessionFilterCommon { user_id: user_id.to_string(), limit },
        specific,
    })
}

fn search(user_id: &str, query: &str) -> Option<ListSessionFilter> {
    filter_for(
        user_id,
        None,
        ListSessionFilterSpecific::Search { query: query.to_string() },
    )
}

#[test]
fn test_search_ordering_weekly() {
    let db = &mut UserDatabase::new();
    let mut older = make_session(&new_id(), "u1", 1_000);
    older.title = "Notes about Weekly".to_string();
    db.upsert_session(older).unwrap();
    let mut newer = make_session(&new_id(), "u1", 2_000);
    newer.title = "Weekly Sync".to_string();
    db.upsert_session(newer).unwrap();

    let found = db.list_sessions(search("u1", "Weekly")).unwrap();
    assert_eq!(found.len(), 2);
    assert_eq!(found[0].title, "Weekly Sync");
    assert_eq!(found[1].title, "Notes about Weekly");
}

#[test]
fn test_search_title_match_ranks_before_memo_match() {
    let db = &mut UserDatabase::new();
    // the memo-only match is more recent, yet the title match comes first
    let mut memo_only = make_session(&new_id(), "u1", 9_000);
    memo_only.title = "Standup".to_string();
    memo_only.raw_memo_html = "planning the Weekly agenda".to_string();
    db.upsert_session(memo_only).unwrap();
    let mut title_match = make_session(&new_id(), "u1", 1_000);
    title_match.title = "Weekly Sync".to_string();
    db.upsert_session(title_match).unwrap();

    let found = db.list_sessions(search("u1", "weekly")).unwrap();
    assert_eq!(found.len(), 2);
    assert_eq!(found[0].title, "Weekly Sync");
    assert_eq!(found[1].title, "Standup");
}

#[test]
fn test_search_is_case_insensitive_and_strips_markup() {
    let db = &mut UserDatabase::new();
    let mut s = make_session(&new_id(), "u1", 1);
    s.title = "untitled".to_string();
    s.enhanced_memo_html = Some("<p>Hello&nbsp;World</p>".to_string());
    db.upsert_session(s).unwrap();

    // &nbsp; and angle brackets read as spaces; matching folds ASCII case
    assert_eq!(db.list_sessions(search("u1", "hello world")).unwrap().len(), 1);
    assert_eq!(db.list_sessions(search("u1", "HELLO WOR")).unwrap().len(), 1);
    assert_eq!(db.list_sessions(search("u1", "<p>")).unwrap().len(), 0);
    assert_eq!(db.list_sessions(search("u1", "elsewhere")).unwrap().len(), 0);
}

#[test]
fn test_search_by_participant_name_and_email() {
    let db = &mut UserDatabase::new();
    let sid = new_id();
    let mut s = make_session(&sid, "u1", 1);
    s.title = "planning".to_string();
    db.upsert_session(s).unwrap();
    let h = db
        .upsert_human(Human {
            id: new_id(),
            full_name: Some("John Doe".to_string()),
            email: Some("john@example.com".to_string()),
        })
        .unwrap();
    // not yet a participant: no match through the join
    assert_eq!(db.list_sessions(search("u1", "john")).unwrap().len(), 0);
    db.session_add_participant(&sid, &h.id).unwrap();
    assert_eq!(db.list_sessions(search("u1", "john")).unwrap().len(), 1);
    assert_eq!(db.list_sessions(search("u1", "example.com")).unwrap().len(), 1);
}

#[test]
fn test_search_scoped_to_user() {
    let db = &mut UserDatabase::new();
    let mut s = make_session(&new_id(), "u1", 1);
    s.title = "shared word".to_string();
    db.upsert_session(s).unwrap();
    assert_eq!(db.list_sessions(search("someone-else", "shared")).unwrap().len(), 0);
}

#[test]
fn test_recently_visited_order() {
    let db = &mut UserDatabase::new();
    let mut a = make_session(&new_id(), "u1", 1);
    a.title = "a".to_string();
    a.visited_at = 10;
    db.upsert_session(a).unwrap();
    let mut b = make_session(&new_id(), "u1", 2);
    b.title = "b".to_string();
    b.visited_at = 20;
    db.upsert_session(b).unwrap();

    let found = db
        .list_sessions(filter_for("u1", None, ListSessionFilterSpecific::RecentlyVisited {}))
        .unwrap();
    assert_eq!(found.len(), 2);
    assert_eq!(found[0].title, "b");
    assert_eq!(found[1].title, "a");

    let limited = db
        .list_sessions(filter_for("u1", Some(1), ListSessionFilterSpecific::RecentlyVisited {}))
        .unwrap();
    assert_eq!(limited.len(), 1);
    assert_eq!(limited[0].title, "b");
}

#[test]
fn test_date_range_effective_date() {
    let db = &mut UserDatabase::new();
    // no linked event: the creation time decides
    let mut plain = make_session(&new_id(), "u1", 150);
    plain.title = "plain".to_string();
    db.upsert_session(plain).unwrap();
    // linked event: the event's start time decides, not the creation time
    db.upsert_event(Event { id: "ev-1".to_string(), start_date: 180 }).unwrap();
    let mut linked = make_session(&new_id(), "u1", 9_999);
    linked.title = "linked".to_string();
    linked.calendar_event_id = Some("ev-1".to_string());
    db.upsert_session(linked).unwrap();
    // outside the range
    let mut outside = make_session(&new_id(), "u1", 900);
    outside.title = "outside".to_string();
    db.upsert_session(outside).unwrap();

    let found = db
        .list_sessions(filter_for(
            "u1",
            None,
            ListSessionFilterSpecific::DateRange { start: 100, end: 200 },
        ))
        .unwrap();
    assert_eq!(found.len(), 2);
    // ordered by effective date descending: 180 before 150
    assert_eq!(found[0].title, "linked");
    assert_eq!(found[1].title, "plain");
}

#[test]
fn test_date_range_is_inclusive() {
    let db = &mut UserDatabase::new();
    let mut s = make_session(&new_id(), "u1", 100);
    s.title = "edge".to_string();
    db.upsert_session(s).unwrap();
    let at_start = db
        .list_sessions(filter_for(
            "u1",
            None,
            ListSessionFilterSpecific::DateRange { start: 100, end: 100 },
        ))
        .unwrap();
    assert_eq!(at_start.len(), 1);
}

#[test]
fn test_tag_filter_validation() {
    let db = &mut UserDatabase::new();
    let sid = new_id();
    db.upsert_session(make_session(&sid, "u1", 1)).unwrap();

    let r = db.list_sessions(filter_for(
        "u1",
        None,
        ListSessionFilterSpecific::TagFilter {
            tag_ids: vec![
                "3e0ae1a0-9292-4cb7-97aa-0d37b9ba73ab".to_string(),
                "not-a-uuid".to_string(),
            ],
        },
    ));
    assert_eq!(r, Err(Error::InvalidInput("not-a-uuid".to_string())));

    // nothing was mutated by the rejected call
    assert_eq!(db.list_sessions(None).unwrap().len(), 1);
}

#[test]
fn test_tag_filter_empty_set_short_circuits() {
    let db = &mut UserDatabase::new();
    db.upsert_session(make_session(&new_id(), "u1", 1)).unwrap();
    let r = db
        .list_sessions(filter_for(
            "u1",
            None,
            ListSessionFilterSpecific::TagFilter { tag_ids: vec![] },
        ))
        .unwrap();
    assert_eq!(r.len(), 0);
}

#[test]
fn test_tag_filter_match_and_dedup() {
    let db = &mut UserDatabase::new();
    let sid = new_id();
    let mut s = make_session(&sid, "u1", 1);
    s.title = "tagged".to_string();
    db.upsert_session(s).unwrap();
    let tag_a = new_id();
    let tag_b = new_id();
    db.assign_tag(&tag_a, &sid).unwrap();
    db.assign_tag(&tag_b, &sid).unwrap();

    // a session with several matching tags appears once
    let found = db
        .list_sessions(filter_for(
            "u1",
            None,
            ListSessionFilterSpecific::TagFilter { tag_ids: vec![tag_a.clone(), tag_b] },
        ))
        .unwrap();
    assert_eq!(found.len(), 1);
    assert_eq!(found[0].title, "tagged");

    // a valid but unknown tag matches nothing
    let none = db
        .list_sessions(filter_for(
            "u1",
            None,
            ListSessionFilterSpecific::TagFilter { tag_ids: vec![new_id()] },
        ))
        .unwrap();
    assert_eq!(none.len(), 0);
}

#[test]
fn test_unfiltered_list_is_global_and_capped_at_100() {
    let db = &mut UserDatabase::new();
    for i in 0..105 {
        let mut s = make_session(&new_id(), if i % 2 == 0 { "u1" } else { "u2" }, i as i64);
        s.title = format!("s{}", i);
        db.upsert_session(s).unwrap();
    }
    let found = db.list_sessions(None).unwrap();
    assert_eq!(found.len(), 100);
    // most recent creation first; the five oldest fall off
    assert_eq!(found[0].title, "s104");
    assert_eq!(found[99].title, "s5");
}

#[test]
fn test_supported_model_registry() {
    assert_eq!(SupportedModel::QuantizedTiny.file_name(), "ggml-tiny-q8_0.bin");
    assert_eq!(SupportedModel::QuantizedLargeTurbo.file_name(), "ggml-large-v3-turbo-q8_0.bin");
    assert_eq!(
        SupportedModel::QuantizedBaseEn.model_url(),
        "https://storage2.hyprnote.com/v0/ggerganov/whisper.cpp/main/ggml-base.en-q8_0.bin"
    );
    assert_eq!(SupportedModel::QuantizedTiny.model_size(), 43537433);
    assert_eq!(SupportedModel::QuantizedSmallEn.model_size(), 264477561);
}
