use session_store::store::UserDatabase;
use session_store::types::{Error, GetSessionFilter, Human, Session, Word};

fn new_id() -> String {
    uuid::Uuid::new_v4().to_string()
}

fn make_session(id: &str, user_id: &str, created_at: i64) -> Session {
    Session {
        id: id.to_string(),
        user_id: user_id.to_string(),
        created_at,
        visited_at: created_at,
        calendar_event_id: None,
        title: String::new(),
        raw_memo_html: String::new(),
        enhanced_memo_html: None,
        conversations: vec![],
        words: vec![],
        record_start: None,
        record_end: None,
        pre_meeting_memo_html: None,
    }
}

#[test]
fn test_sessions() {
    let db = &mut UserDatabase::new();

    let sessions = db.list_sessions(None).unwrap();
    assert_eq!(sessions.len(), 0);

    let user = db
        .upsert_human(Human {
            id: new_id(),
            full_name: Some("John Doe".to_string()),
            email: None,
        })
        .unwrap();

    let session = Session {
        id: new_id(),
        user_id: user.id.clone(),
        created_at: chrono::Utc::now().timestamp_millis(),
        visited_at: chrono::Utc::now().timestamp_millis(),
        calendar_event_id: None,
        title: "test".to_string(),
        raw_memo_html: "raw_memo_html_1".to_string(),
        enhanced_memo_html: None,
        conversations: vec![],
        words: vec![Word {
            text: "hello 1".to_string(),
            start_ms: None,
            end_ms: None,
            speaker: None,
            confidence: None,
        }],
        record_start: None,
        record_end: None,
        pre_meeting_memo_html: Some("pre_meeting_memo_html_1".to_string()),
    };

    let mut session = db.upsert_session(session).unwrap();
    assert_eq!(session.raw_memo_html, "raw_memo_html_1");
    assert_eq!(session.enhanced_memo_html, None);
    assert_eq!(session.title, "test");
    assert_eq!(session.words.len(), 1);
    assert_eq!(
        session.pre_meeting_memo_html,
        Some("pre_meeting_memo_html_1".to_string())
    );

    let sessions = db.list_sessions(None).unwrap();
    assert_eq!(sessions.len(), 1);

    session.raw_memo_html = "raw_memo_html_2".to_string();
    let session = db.upsert_session(session).unwrap();
    assert_eq!(session.raw_memo_html, "raw_memo_html_2");

    let sessions = db.list_sessions(None).unwrap();
    assert_eq!(sessions.len(), 1);

    db.delete_session(&session.id).unwrap();
    let sessions = db.list_sessions(None).unwrap();
    assert_eq!(sessions.len(), 0);

    let participants = db.session_list_participants(&session.id).unwrap();
    assert_eq!(participants.len(), 0);

    assert_eq!(db.session_get_event(&session.id).unwrap(), None);
}

#[test]
fn test_upsert_round_trip_conversations_reset() {
    let db = &mut UserDatabase::new();
    let id = new_id();
    let mut s = make_session(&id, "u1", 42);
    s.title = "kept".to_string();
    s.conversations = vec!["discarded".to_string()];
    let stored = db.upsert_session(s).unwrap();
    assert_eq!(stored.conversations.len(), 0);
    assert_eq!(stored.title, "kept");
    assert_eq!(stored.created_at, 42);

    let fetched = db.get_session(GetSessionFilter::Id(id.clone())).unwrap().unwrap();
    assert_eq!(fetched.id, id);
    assert_eq!(fetched.title, "kept");
    assert_eq!(fetched.conversations.len(), 0);
    assert_eq!(fetched.user_id, "u1");
}

#[test]
fn test_get_session_absence_is_not_an_error() {
    let db = &mut UserDatabase::new();
    assert_eq!(db.get_session(GetSessionFilter::Id("missing".to_string())).unwrap(), None);
    assert_eq!(
        db.get_session(GetSessionFilter::CalendarEventId("nope".to_string())).unwrap(),
        None
    );
    assert_eq!(db.get_session(GetSessionFilter::TagId("none".to_string())).unwrap(), None);
}

#[test]
fn test_get_session_by_calendar_event_and_tag() {
    let db = &mut UserDatabase::new();
    let sid = new_id();
    let mut s = make_session(&sid, "u1", 1);
    s.calendar_event_id = Some("ev-1".to_string());
    db.upsert_session(s).unwrap();
    db.assign_tag("tag-1", &sid).unwrap();

    let by_event = db
        .get_session(GetSessionFilter::CalendarEventId("ev-1".to_string()))
        .unwrap()
        .unwrap();
    assert_eq!(by_event.id, sid);

    let by_tag = db.get_session(GetSessionFilter::TagId("tag-1".to_string())).unwrap().unwrap();
    assert_eq!(by_tag.id, sid);
}

#[test]
fn test_participant_add_idempotent() {
    let db = &mut UserDatabase::new();
    let sid = new_id();
    db.upsert_session(make_session(&sid, "u1", 1)).unwrap();
    let h = db
        .upsert_human(Human { id: new_id(), full_name: Some("Ada".to_string()), email: None })
        .unwrap();
    db.session_add_participant(&sid, &h.id).unwrap();
    db.session_add_participant(&sid, &h.id).unwrap();
    let members = db.session_list_participants(&sid).unwrap();
    assert_eq!(members.len(), 1);
    assert_eq!(members[0].id, h.id);

    db.session_remove_participant(&sid, &h.id).unwrap();
    assert_eq!(db.session_list_participants(&sid).unwrap().len(), 0);
    // removing a non-member is a silent no-op
    db.session_remove_participant(&sid, &h.id).unwrap();
    assert_eq!(db.session_list_participants(&sid).unwrap().len(), 0);
}

#[test]
fn test_delete_cascade() {
    let db = &mut UserDatabase::new();
    let sid = new_id();
    db.upsert_session(make_session(&sid, "u1", 1)).unwrap();
    let h = db
        .upsert_human(Human { id: new_id(), full_name: None, email: None })
        .unwrap();
    db.session_add_participant(&sid, &h.id).unwrap();
    db.add_chat_group("g1", &sid).unwrap();
    db.add_chat_group("g2", &sid).unwrap();
    db.add_chat_message("m1", "g1").unwrap();
    db.add_chat_message("m2", "g1").unwrap();
    db.add_chat_message("m3", "g2").unwrap();
    assert_eq!(db.list_session_chat_groups(&sid).len(), 2);
    assert_eq!(db.list_group_chat_messages("g1").len(), 2);

    db.delete_session(&sid).unwrap();
    assert_eq!(db.get_session(GetSessionFilter::Id(sid.clone())).unwrap(), None);
    assert_eq!(db.session_list_participants(&sid).unwrap().len(), 0);
    assert_eq!(db.list_session_chat_groups(&sid).len(), 0);
    assert_eq!(db.list_group_chat_messages("g1").len(), 0);
    assert_eq!(db.list_group_chat_messages("g2").len(), 0);
}

#[test]
fn test_cleanup_selectivity() {
    let db = &mut UserDatabase::new();
    let empty_id = new_id();
    let kept_id = new_id();
    db.upsert_session(make_session(&empty_id, "u1", 1)).unwrap();
    let mut kept = make_session(&kept_id, "u1", 2);
    kept.title = "still here".to_string();
    db.upsert_session(kept).unwrap();

    db.cleanup_sessions().unwrap();
    assert_eq!(db.get_session(GetSessionFilter::Id(empty_id)).unwrap(), None);
    let survivor = db.get_session(GetSessionFilter::Id(kept_id)).unwrap().unwrap();
    assert_eq!(survivor.title, "still here");
}

#[test]
fn test_cleanup_empty_string_memos_removed() {
    let db = &mut UserDatabase::new();
    let id = new_id();
    let mut s = make_session(&id, "u1", 1);
    s.enhanced_memo_html = Some(String::new());
    s.pre_meeting_memo_html = Some(String::new());
    db.upsert_session(s).unwrap();
    db.cleanup_sessions().unwrap();
    assert_eq!(db.get_session(GetSessionFilter::Id(id)).unwrap(), None);
}

#[test]
fn test_event_linkage() {
    let db = &mut UserDatabase::new();
    let sid = new_id();
    db.upsert_session(make_session(&sid, "u1", 1)).unwrap();
    db.upsert_event(session_store::types::Event { id: "ev-9".to_string(), start_date: 777 })
        .unwrap();

    db.session_set_event(sid.clone(), Some("ev-9".to_string())).unwrap();
    let ev = db.session_get_event(&sid).unwrap().unwrap();
    assert_eq!(ev.id, "ev-9");
    assert_eq!(ev.start_date, 777);

    db.session_set_event(sid.clone(), None).unwrap();
    assert_eq!(db.session_get_event(&sid).unwrap(), None);
}

#[test]
fn test_visit_session() {
    let db = &mut UserDatabase::new();
    let sid = new_id();
    db.upsert_session(make_session(&sid, "u1", 1)).unwrap();
    db.visit_session(&sid).unwrap();
    // absence of the target row is not an error
    db.visit_session("no-such-session").unwrap();
    assert!(db.get_session(GetSessionFilter::Id(sid)).unwrap().is_some());
}

#[test]
fn test_visit_session_at_stamps_the_time() {
    let db = &mut UserDatabase::new();
    let sid = new_id();
    db.upsert_session(make_session(&sid, "u1", 1)).unwrap();
    db.visit_session_at(&sid, 123).unwrap();
    let s = db.get_session(GetSessionFilter::Id(sid)).unwrap().unwrap();
    assert_eq!(s.visited_at, 123);
    assert_eq!(s.created_at, 1);
}

#[test]
fn test_get_words() {
    let db = &mut UserDatabase::new();
    let sid = new_id();
    let mut s = make_session(&sid, "u1", 1);
    s.words = vec![
        Word {
            text: "alpha".to_string(),
            start_ms: Some(0),
            end_ms: Some(120),
            speaker: Some("s0".to_string()),
            confidence: Some(991),
        },
        Word {
            text: "beta".to_string(),
            start_ms: Some(130),
            end_ms: None,
            speaker: None,
            confidence: None,
        },
    ];
    db.upsert_session(s).unwrap();

    let words = db.get_words(&sid).unwrap();
    assert_eq!(words.len(), 2);
    assert_eq!(words[0].text, "alpha");
    assert_eq!(words[0].start_ms, Some(0));
    assert_eq!(words[0].end_ms, Some(120));
    assert_eq!(words[0].speaker, Some("s0".to_string()));
    assert_eq!(words[0].confidence, Some(991));
    assert_eq!(words[1].text, "beta");

    assert_eq!(db.get_words("unknown").unwrap().len(), 0);
}

#[test]
fn test_get_words_onboarding() {
    let db = &mut UserDatabase::new();
    let onboarding = db.onboarding_session_id();
    let mut s = make_session(&onboarding, "seed", 1);
    s.words = vec![Word {
        text: "welcome".to_string(),
        start_ms: None,
        end_ms: None,
        speaker: None,
        confidence: None,
    }];
    db.upsert_session(s).unwrap();
    let words = db.get_words_onboarding().unwrap();
    assert_eq!(words.len(), 1);
    assert_eq!(words[0].text, "welcome");
}

#[test]
fn test_reserved_session_ids() {
    let db = UserDatabase::new();
    assert_eq!(db.onboarding_session_id(), "df1d8c52-6d9d-4471-aff1-5dbd35899cbe");
    assert_eq!(db.thank_you_session_id(), "872cf207-6a28-4229-bd66-492d0dce43c0");
}

#[test]
fn test_invalid_input_error_holds_value() {
    let e = Error::InvalidInput("broken".to_string());
    assert_eq!(e, Error::InvalidInput("broken".to_string()));
}
