use chatcore::catalog::Catalog;
use chatcore::dto::ApiResponse;
use chatcore::model::{ChatRole, StreamItem};
use chatcore::service::{
    delete_session, derive_title, list_messages, prepare_send, send_message, title_prompt,
    TurnOutput,
};
use chatcore::store::Store;

fn chunk(s: &str) -> StreamItem {
    StreamItem::Chunk(s.to_string())
}

fn setup() -> (Store, Catalog, u64, u64) {
    let mut store = Store::new();
    let mut catalog = Catalog::new();
    let session = store.create_session(1).unwrap();
    let provider = catalog
        .create_provider(1, "p".to_string(), "https://x/v1".to_string(), None)
        .unwrap();
    let model = catalog
        .create_model(1, provider.id, "remote".to_string(), "m".to_string())
        .unwrap();
    (store, catalog, session.id, model.id)
}

#[test]
fn list_messages_absent_session_is_not_found() {
    let store = Store::new();
    match list_messages(&store, 1, 42) {
        Err(e) => assert_eq!(e.kind_name(), "NotFound"),
        Ok(_) => panic!("absent session must be refused"),
    }
}

#[test]
fn list_messages_non_owner_is_forbidden() {
    let (store, _catalog, sid, _mid) = setup();
    match list_messages(&store, 2, sid) {
        Err(e) => assert_eq!(e.kind_name(), "Forbidden"),
        Ok(_) => panic!("non-owner must be refused"),
    }
}

#[test]
fn list_messages_owner_sees_history_in_order() {
    let (mut store, _catalog, sid, _mid) = setup();
    store.append_pair(sid, "q0".to_string(), "a0".to_string()).unwrap();
    store.append_pair(sid, "q1".to_string(), "a1".to_string()).unwrap();
    let rows = list_messages(&store, 1, sid).unwrap();
    let contents: Vec<&str> = rows.iter().map(|m| m.content.as_str()).collect();
    assert_eq!(contents, vec!["q0", "a0", "q1", "a1"]);
    for w in rows.windows(2) {
        assert!(w[0].created_at <= w[1].created_at);
    }
}

#[test]
fn send_by_non_owner_on_existing_session_is_forbidden_not_not_found() {
    let (mut store, catalog, sid, mid) = setup();
    let r = send_message(
        &mut store,
        &catalog,
        2,
        sid,
        "hello".to_string(),
        mid,
        vec![chunk("x")],
        None,
    );
    match r {
        Err(e) => assert_eq!(e.kind_name(), "Forbidden"),
        Ok(_) => panic!("non-owner must be refused"),
    }
    // nothing was persisted for the intruder's attempt
    assert_eq!(store.list_messages(sid).len(), 0);
}

#[test]
fn send_on_absent_session_is_not_found() {
    let (mut store, catalog, sid, mid) = setup();
    let r = send_message(
        &mut store,
        &catalog,
        1,
        sid + 999,
        "hello".to_string(),
        mid,
        vec![chunk("x")],
        None,
    );
    match r {
        Err(e) => assert_eq!(e.kind_name(), "NotFound"),
        Ok(_) => panic!("absent session must be refused"),
    }
}

#[test]
fn send_with_absent_model_is_not_found() {
    let (mut store, catalog, sid, mid) = setup();
    let r = send_message(
        &mut store,
        &catalog,
        1,
        sid,
        "hello".to_string(),
        mid + 999,
        vec![chunk("x")],
        None,
    );
    match r {
        Err(e) => assert_eq!(e.kind_name(), "NotFound"),
        Ok(_) => panic!("absent model must be refused"),
    }
}

#[test]
fn send_with_foreign_provider_is_forbidden() {
    let (mut store, mut catalog, sid, _mid) = setup();
    let foreign_provider = catalog
        .create_provider(2, "theirs".to_string(), "https://y".to_string(), None)
        .unwrap();
    let foreign_model = catalog
        .create_model(2, foreign_provider.id, "fm".to_string(), "n".to_string())
        .unwrap();
    let r = send_message(
        &mut store,
        &catalog,
        1,
        sid,
        "hello".to_string(),
        foreign_model.id,
        vec![chunk("x")],
        None,
    );
    match r {
        Err(e) => assert_eq!(e.kind_name(), "Forbidden"),
        Ok(_) => panic!("foreign provider must be refused"),
    }
}

#[test]
fn prepare_builds_history_plus_new_message() {
    let (mut store, catalog, sid, mid) = setup();
    store.append_pair(sid, "q0".to_string(), "a0".to_string()).unwrap();
    let plan = prepare_send(&store, &catalog, 1, sid, "next".to_string(), mid).unwrap();
    assert_eq!(plan.remote_model_id, "remote");
    assert_eq!(plan.provider.url, "https://x/v1");
    assert!(plan.needs_title);
    let pairs: Vec<(&str, &str)> = plan
        .prompt
        .iter()
        .map(|p| (p.role.as_str(), p.content.as_str()))
        .collect();
    assert_eq!(pairs, vec![("user", "q0"), ("assistant", "a0"), ("user", "next")]);
}

#[test]
fn end_to_end_turn_relays_persists_and_titles() {
    let (mut store, catalog, sid, mid) = setup();
    let out = send_message(
        &mut store,
        &catalog,
        1,
        sid,
        "Hello".to_string(),
        mid,
        vec![chunk("Hi"), chunk(" there")],
        Some(vec![chunk("Greeting")]),
    )
    .unwrap();
    // the caller observed exactly the two increments, in order
    let delivered: Vec<&str> = out
        .output
        .delivered
        .iter()
        .map(|i| match i {
            StreamItem::Chunk(s) => s.as_str(),
            StreamItem::Failure(_) => panic!("no error was emitted"),
        })
        .collect();
    assert_eq!(delivered, vec!["Hi", " there"]);
    // the store holds one user message and one assistant message
    let rows = store.list_messages(sid);
    assert_eq!(rows.len(), 2);
    assert_eq!(rows[0].content, "Hello");
    assert!(matches!(rows[0].role, ChatRole::User));
    assert_eq!(rows[1].content, "Hi there");
    assert!(matches!(rows[1].role, ChatRole::Assistant));
    assert_eq!(out.persisted.unwrap().content, "Hi there");
    // the title came from the second stub call
    assert_eq!(store.get_session(sid).unwrap().title.as_deref(), Some("Greeting"));
    assert_eq!(out.title_set.as_deref(), Some("Greeting"));
}

#[test]
fn delivered_text_equals_persisted_content_even_across_errors() {
    let (mut store, catalog, sid, mid) = setup();
    let out = send_message(
        &mut store,
        &catalog,
        1,
        sid,
        "Hello".to_string(),
        mid,
        vec![
            chunk("a"),
            StreamItem::Failure("mid-stream fault".to_string()),
            chunk("b"),
        ],
        None,
    )
    .unwrap();
    assert_eq!(out.output.delivered.len(), 3);
    assert!(matches!(out.output.delivered[1], StreamItem::Failure(_)));
    assert_eq!(out.output.accumulated, "ab");
    let rows = store.list_messages(sid);
    assert_eq!(rows[1].content, "ab");
    assert_eq!(out.persisted.unwrap().content, "ab");
}

#[test]
fn empty_stream_persists_nothing() {
    let (mut store, catalog, sid, mid) = setup();
    let out = send_message(
        &mut store,
        &catalog,
        1,
        sid,
        "Hello".to_string(),
        mid,
        vec![],
        None,
    )
    .unwrap();
    assert!(out.output.delivered.is_empty());
    assert_eq!(out.output.accumulated, "");
    assert!(out.persisted.is_none());
    assert_eq!(store.list_messages(sid).len(), 0);
}

#[test]
fn all_error_turn_persists_nothing() {
    let (mut store, catalog, sid, mid) = setup();
    let out = send_message(
        &mut store,
        &catalog,
        1,
        sid,
        "Hello".to_string(),
        mid,
        vec![StreamItem::Failure("boom".to_string())],
        None,
    )
    .unwrap();
    assert!(out.persisted.is_none());
    assert_eq!(store.list_messages(sid).len(), 0);
}

#[test]
fn existing_title_is_never_overwritten() {
    let (mut store, catalog, sid, mid) = setup();
    // first turn sets the title
    send_message(
        &mut store,
        &catalog,
        1,
        sid,
        "Hello".to_string(),
        mid,
        vec![chunk("Hi")],
        Some(vec![chunk("First title")]),
    )
    .unwrap();
    assert_eq!(store.get_session(sid).unwrap().title.as_deref(), Some("First title"));
    // a second turn, even with a title sequence on offer, must not touch it
    let out = send_message(
        &mut store,
        &catalog,
        1,
        sid,
        "Again".to_string(),
        mid,
        vec![chunk("Sure")],
        Some(vec![chunk("Second title")]),
    )
    .unwrap();
    assert!(out.title_set.is_none());
    assert_eq!(store.get_session(sid).unwrap().title.as_deref(), Some("First title"));
}

#[test]
fn blank_title_candidate_sets_nothing() {
    let (mut store, catalog, sid, mid) = setup();
    let out = send_message(
        &mut store,
        &catalog,
        1,
        sid,
        "Hello".to_string(),
        mid,
        vec![chunk("Hi")],
        Some(vec![chunk("  \n \t ")]),
    )
    .unwrap();
    assert!(out.title_set.is_none());
    assert!(store.get_session(sid).unwrap().title.is_none());
}

#[test]
fn failed_title_call_is_swallowed() {
    let (mut store, catalog, sid, mid) = setup();
    let out = send_message(
        &mut store,
        &catalog,
        1,
        sid,
        "Hello".to_string(),
        mid,
        vec![chunk("Hi")],
        None,
    )
    .unwrap();
    assert!(out.title_set.is_none());
    assert!(store.get_session(sid).unwrap().title.is_none());
    // the turn itself still succeeded
    assert_eq!(store.list_messages(sid).len(), 2);
}

#[test]
fn delete_session_checks_access_then_cascades() {
    let (mut store, catalog, sid, mid) = setup();
    send_message(
        &mut store,
        &catalog,
        1,
        sid,
        "Hello".to_string(),
        mid,
        vec![chunk("Hi")],
        None,
    )
    .unwrap();
    match delete_session(&mut store, 2, sid) {
        Err(e) => assert_eq!(e.kind_name(), "Forbidden"),
        Ok(_) => panic!("non-owner must be refused"),
    }
    delete_session(&mut store, 1, sid).unwrap();
    assert!(store.get_session(sid).is_none());
    assert_eq!(store.list_messages(sid).len(), 0);
    match delete_session(&mut store, 1, sid) {
        Err(e) => assert_eq!(e.kind_name(), "NotFound"),
        Ok(_) => panic!("deleted session must be gone"),
    }
}

#[test]
fn title_prompt_carries_instruction_and_message() {
    let p = title_prompt("What is Rust?");
    assert_eq!(p.len(), 2);
    assert_eq!(p[0].role, "system");
    assert!(p[0].content.contains("title"));
    assert!(p[0].content.contains("20 characters"));
    assert_eq!(p[1].role, "user");
    assert_eq!(p[1].content, "What is Rust?");
}

#[test]
fn derive_title_trims_and_skips_errors() {
    let items = vec![
        chunk("  My "),
        StreamItem::Failure("x".to_string()),
        chunk("Title  "),
    ];
    assert_eq!(derive_title(&items).as_deref(), Some("My Title"));
    assert!(derive_title(&vec![chunk("   ")]).is_none());
    assert!(derive_title(&vec![]).is_none());
}

#[test]
fn turn_output_tee_keeps_both_views_in_step() {
    let mut out = TurnOutput::new();
    out.absorb(chunk("a"));
    out.absorb(StreamItem::Failure("e".to_string()));
    out.absorb(chunk("bc"));
    assert_eq!(out.delivered.len(), 3);
    assert_eq!(out.accumulated, "abc");
}

#[test]
fn response_envelope_shapes() {
    let ok: ApiResponse<u32> = ApiResponse::success(Some(5), Some("done".to_string()));
    assert!(ok.success);
    assert_eq!(ok.data, Some(5));
    assert_eq!(ok.message.as_deref(), Some("done"));
    assert!(ok.error.is_none());
    let bad = ApiResponse::failed(Some("nope".to_string()));
    assert!(!bad.success);
    assert!(bad.data.is_none());
    assert!(bad.message.is_none());
    assert_eq!(bad.error.as_deref(), Some("nope"));
}
