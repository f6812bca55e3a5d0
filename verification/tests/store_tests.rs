use chatcore::catalog::Catalog;
use chatcore::model::ChatRole;
use chatcore::store::Store;

#[test]
fn created_session_has_no_title_and_right_owner() {
    let mut store = Store::new();
    let s = store.create_session(7).unwrap();
    assert_eq!(s.user_id, 7);
    assert!(s.title.is_none());
    let fetched = store.get_session(s.id).unwrap();
    assert_eq!(fetched.id, s.id);
    assert_eq!(fetched.user_id, 7);
}

#[test]
fn list_sessions_filters_by_owner() {
    let mut store = Store::new();
    let a = store.create_session(1).unwrap();
    let _b = store.create_session(2).unwrap();
    let c = store.create_session(1).unwrap();
    let mine: Vec<u64> = store.list_sessions(1).iter().map(|s| s.id).collect();
    assert_eq!(mine, vec![a.id, c.id]);
    assert_eq!(store.list_sessions(3).len(), 0);
}

#[test]
fn append_pair_adds_both_rows_in_order() {
    let mut store = Store::new();
    let s = store.create_session(1).unwrap();
    let am = store
        .append_pair(s.id, "question".to_string(), "answer".to_string())
        .unwrap();
    assert_eq!(am.content, "answer");
    assert!(matches!(am.role, ChatRole::Assistant));
    let rows = store.list_messages(s.id);
    assert_eq!(rows.len(), 2);
    assert_eq!(rows[0].content, "question");
    assert!(matches!(rows[0].role, ChatRole::User));
    assert_eq!(rows[1].content, "answer");
    assert!(rows[0].id < rows[1].id);
    assert!(rows[0].created_at <= rows[1].created_at);
}

#[test]
fn append_pair_on_absent_session_leaves_zero_rows() {
    let mut store = Store::new();
    let s = store.create_session(1).unwrap();
    let missing = s.id + 999;
    let r = store.append_pair(missing, "user text".to_string(), "reply".to_string());
    assert!(r.is_err());
    assert_eq!(store.list_messages(missing).len(), 0);
    assert_eq!(store.list_messages(s.id).len(), 0);
}

#[test]
fn append_pair_after_delete_leaves_zero_rows() {
    let mut store = Store::new();
    let s = store.create_session(1).unwrap();
    assert_eq!(store.delete_session(s.id), 1);
    let r = store.append_pair(s.id, "u".to_string(), "a".to_string());
    assert!(r.is_err());
    assert_eq!(store.list_messages(s.id).len(), 0);
}

#[test]
fn messages_list_in_creation_order() {
    let mut store = Store::new();
    let s = store.create_session(1).unwrap();
    for i in 0..4u32 {
        store
            .append_pair(s.id, format!("q{}", i), format!("a{}", i))
            .unwrap();
    }
    let rows = store.list_messages(s.id);
    assert_eq!(rows.len(), 8);
    for w in rows.windows(2) {
        assert!(w[0].created_at <= w[1].created_at);
        assert!(w[0].id < w[1].id);
    }
    let contents: Vec<&str> = rows.iter().map(|m| m.content.as_str()).collect();
    assert_eq!(contents, vec!["q0", "a0", "q1", "a1", "q2", "a2", "q3", "a3"]);
}

#[test]
fn delete_session_cascades_to_messages() {
    let mut store = Store::new();
    let s1 = store.create_session(1).unwrap();
    let s2 = store.create_session(1).unwrap();
    store.append_pair(s1.id, "q1".to_string(), "a1".to_string()).unwrap();
    store.append_pair(s2.id, "q2".to_string(), "a2".to_string()).unwrap();
    assert_eq!(store.delete_session(s1.id), 1);
    assert!(store.get_session(s1.id).is_none());
    assert_eq!(store.list_messages(s1.id).len(), 0);
    assert_eq!(store.list_messages(s2.id).len(), 2);
    assert_eq!(store.delete_session(s1.id), 0);
}

#[test]
fn set_title_updates_one_session() {
    let mut store = Store::new();
    let s1 = store.create_session(1).unwrap();
    let s2 = store.create_session(1).unwrap();
    let updated = store.set_title(s1.id, "First".to_string()).unwrap();
    assert_eq!(updated.title.as_deref(), Some("First"));
    assert_eq!(store.get_session(s1.id).unwrap().title.as_deref(), Some("First"));
    assert!(store.get_session(s2.id).unwrap().title.is_none());
    assert!(store.set_title(s1.id + 999, "x".to_string()).is_err());
}

#[test]
fn catalog_rejects_duplicate_provider_names_per_user() {
    let mut catalog = Catalog::new();
    catalog
        .create_provider(1, "mine".to_string(), "https://a".to_string(), None)
        .unwrap();
    let again = catalog.create_provider(1, "mine".to_string(), "https://b".to_string(), None);
    match again {
        Err(e) => assert_eq!(e.kind_name(), "Conflict"),
        Ok(_) => panic!("duplicate name must be refused"),
    }
    // another user may reuse the name
    assert!(catalog
        .create_provider(2, "mine".to_string(), "https://c".to_string(), None)
        .is_ok());
}

#[test]
fn catalog_model_requires_owned_provider() {
    let mut catalog = Catalog::new();
    let p = catalog
        .create_provider(1, "p".to_string(), "https://a".to_string(), Some("k".to_string()))
        .unwrap();
    let m = catalog
        .create_model(1, p.id, "remote-model".to_string(), "nice name".to_string())
        .unwrap();
    assert_eq!(m.provider_id, p.id);
    assert_eq!(catalog.get_model(m.id).unwrap().model_id, "remote-model");
    // a stranger cannot hang a model on it
    let denied = catalog.create_model(2, p.id, "x".to_string(), "y".to_string());
    match denied {
        Err(e) => assert_eq!(e.kind_name(), "Forbidden"),
        Ok(_) => panic!("foreign provider must be refused"),
    }
    // and the same remote id cannot be registered twice under one provider
    let dup = catalog.create_model(1, p.id, "remote-model".to_string(), "again".to_string());
    match dup {
        Err(e) => assert_eq!(e.kind_name(), "Conflict"),
        Ok(_) => panic!("duplicate remote id must be refused"),
    }
}

#[test]
fn catalog_lists_are_owner_scoped() {
    let mut catalog = Catalog::new();
    let p1 = catalog
        .create_provider(1, "a".to_string(), "https://a".to_string(), None)
        .unwrap();
    let p2 = catalog
        .create_provider(2, "b".to_string(), "https://b".to_string(), None)
        .unwrap();
    let m1 = catalog.create_model(1, p1.id, "m1".to_string(), "n1".to_string()).unwrap();
    let _m2 = catalog.create_model(2, p2.id, "m2".to_string(), "n2".to_string()).unwrap();
    let mine: Vec<u64> = catalog.list_providers(1).iter().map(|p| p.id).collect();
    assert_eq!(mine, vec![p1.id]);
    let models = catalog.list_models(1, p1.id).unwrap();
    assert_eq!(models.len(), 1);
    assert_eq!(models[0].id, m1.id);
    match catalog.list_models(2, p1.id) {
        Err(e) => assert_eq!(e.kind_name(), "Forbidden"),
        Ok(_) => panic!("foreign provider listing must be refused"),
    }
}

#[test]
fn catalog_update_provider_applies_partial_changes() {
    let mut catalog = Catalog::new();
    let p = catalog
        .create_provider(1, "old".to_string(), "https://a".to_string(), Some("k1".to_string()))
        .unwrap();
    let q = catalog
        .update_provider(1, p.id, Some("new".to_string()), None, Some(None))
        .unwrap();
    assert_eq!(q.name, "new");
    assert_eq!(q.url, "https://a");
    assert!(q.key.is_none());
    // a rename onto a used name is refused
    catalog
        .create_provider(1, "taken".to_string(), "https://b".to_string(), None)
        .unwrap();
    match catalog.update_provider(1, p.id, Some("taken".to_string()), None, None) {
        Err(e) => assert_eq!(e.kind_name(), "Conflict"),
        Ok(_) => panic!("rename onto a used name must be refused"),
    }
    // keeping the current name is not a conflict
    assert!(catalog.update_provider(1, p.id, Some("new".to_string()), None, None).is_ok());
    // a stranger sees no provider at all
    match catalog.update_provider(2, p.id, None, None, None) {
        Err(e) => assert_eq!(e.kind_name(), "NotFound"),
        Ok(_) => panic!("foreign provider must stay hidden"),
    }
}

#[test]
fn catalog_update_model_applies_partial_changes() {
    let mut catalog = Catalog::new();
    let p = catalog
        .create_provider(1, "p".to_string(), "https://a".to_string(), None)
        .unwrap();
    let m1 = catalog.create_model(1, p.id, "one".to_string(), "n1".to_string()).unwrap();
    let m2 = catalog.create_model(1, p.id, "two".to_string(), "n2".to_string()).unwrap();
    let q = catalog
        .update_model(1, m2.id, None, Some("renamed".to_string()))
        .unwrap();
    assert_eq!(q.model_id, "two");
    assert_eq!(q.name, "renamed");
    match catalog.update_model(1, m2.id, Some("one".to_string()), None) {
        Err(e) => assert_eq!(e.kind_name(), "Conflict"),
        Ok(_) => panic!("remote id collision must be refused"),
    }
    match catalog.update_model(2, m1.id, None, None) {
        Err(e) => assert_eq!(e.kind_name(), "Forbidden"),
        Ok(_) => panic!("foreign model must be refused"),
    }
    match catalog.update_model(1, m2.id + 999, None, None) {
        Err(e) => assert_eq!(e.kind_name(), "NotFound"),
        Ok(_) => panic!("absent model must be refused"),
    }
}

#[test]
fn catalog_pairs_each_provider_with_its_models() {
    let mut catalog = Catalog::new();
    let p1 = catalog
        .create_provider(1, "a".to_string(), "https://a".to_string(), None)
        .unwrap();
    let p2 = catalog
        .create_provider(1, "b".to_string(), "https://b".to_string(), None)
        .unwrap();
    let m1 = catalog.create_model(1, p1.id, "m1".to_string(), "n".to_string()).unwrap();
    let m2 = catalog.create_model(1, p2.id, "m2".to_string(), "n".to_string()).unwrap();
    let m3 = catalog.create_model(1, p1.id, "m3".to_string(), "n".to_string()).unwrap();
    let all = catalog.list_with_models(1);
    assert_eq!(all.len(), 2);
    assert_eq!(all[0].provider.id, p1.id);
    let first: Vec<u64> = all[0].models.iter().map(|m| m.id).collect();
    assert_eq!(first, vec![m1.id, m3.id]);
    assert_eq!(all[1].provider.id, p2.id);
    assert_eq!(all[1].models[0].id, m2.id);
    let one = catalog.get_with_models(1, p2.id).unwrap();
    assert_eq!(one.provider.id, p2.id);
    assert_eq!(one.models.len(), 1);
    match catalog.get_with_models(2, p2.id) {
        Err(e) => assert_eq!(e.kind_name(), "NotFound"),
        Ok(_) => panic!("foreign provider must stay hidden"),
    }
}

#[test]
fn catalog_delete_model_and_provider_cascade() {
    let mut catalog = Catalog::new();
    let p = catalog
        .create_provider(1, "p".to_string(), "https://a".to_string(), None)
        .unwrap();
    let m = catalog.create_model(1, p.id, "one".to_string(), "n".to_string()).unwrap();
    match catalog.delete_model(2, m.id) {
        Err(e) => assert_eq!(e.kind_name(), "Forbidden"),
        Ok(_) => panic!("foreign model must be refused"),
    }
    catalog.delete_model(1, m.id).unwrap();
    assert!(catalog.get_model(m.id).is_none());
    // deleting the provider removes its remaining models too
    let m2 = catalog.create_model(1, p.id, "two".to_string(), "n".to_string()).unwrap();
    match catalog.delete_provider(2, p.id) {
        Err(e) => assert_eq!(e.kind_name(), "NotFound"),
        Ok(_) => panic!("foreign provider must stay hidden"),
    }
    catalog.delete_provider(1, p.id).unwrap();
    assert!(catalog.get_provider_for_user(1, p.id).is_none());
    assert!(catalog.get_model(m2.id).is_none());
    match catalog.delete_provider(1, p.id) {
        Err(e) => assert_eq!(e.kind_name(), "NotFound"),
        Ok(_) => panic!("deleted provider must be gone"),
    }
}

#[test]
fn catalog_provider_lookup_is_owner_scoped() {
    let mut catalog = Catalog::new();
    let p = catalog
        .create_provider(1, "p".to_string(), "https://a".to_string(), None)
        .unwrap();
    assert!(catalog.get_provider_for_user(1, p.id).is_some());
    assert!(catalog.get_provider_for_user(2, p.id).is_none());
    assert!(catalog.get_provider_for_user(1, p.id + 5).is_none());
}
