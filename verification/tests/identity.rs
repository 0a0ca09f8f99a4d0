use aura_chat::identity::{
    assign_identity, assign_with_suffix, fallback_username, guest_username, Assignment,
    IdentityMap, User,
};

#[test]
fn guest_username_is_guest_and_the_number_in_decimal() {
    assert_eq!(guest_username(0), "Guest0");
    assert_eq!(guest_username(7), "Guest7");
    assert_eq!(guest_username(10), "Guest10");
    assert_eq!(guest_username(100), "Guest100");
    assert_eq!(guest_username(4096), "Guest4096");
    assert_eq!(guest_username(60009), "Guest60009");
    assert_eq!(guest_username(65535), "Guest65535");
}

#[test]
fn guest_username_agrees_with_std_formatting() {
    for id in [0u16, 1, 9, 10, 11, 99, 100, 101, 999, 1000, 9999, 10000, 12345, 65534, 65535] {
        assert_eq!(guest_username(id), format!("Guest{}", id));
    }
}

#[test]
fn fallback_username_is_guest0() {
    assert_eq!(fallback_username(), "Guest0");
}

#[test]
fn fresh_key_becomes_a_guest_and_is_recorded() {
    let mut record = IdentityMap::new();
    let answer = assign_with_suffix(&mut record, "10.0.0.1", 4711);
    assert_eq!(answer, Assignment { username: "Guest4711".to_string(), fresh: true });
    assert_eq!(record.len(), 1);
    assert_eq!(
        record.get("10.0.0.1"),
        Some(&User { username: "Guest4711".to_string(), id: 4711 })
    );
}

#[test]
fn known_key_keeps_its_username() {
    let mut record = IdentityMap::new();
    record.insert("10.0.0.1".to_string(), User { username: "Guest12".to_string(), id: 12 });
    let answer = assign_with_suffix(&mut record, "10.0.0.1", 999);
    assert_eq!(answer, Assignment { username: "Guest12".to_string(), fresh: false });
    assert_eq!(record.len(), 1);
    assert_eq!(record.get("10.0.0.1").map(|user| user.id), Some(12));
}

#[test]
fn stored_username_is_returned_as_it_stands() {
    let mut record = IdentityMap::new();
    record.insert("k".to_string(), User { username: "alice".to_string(), id: 3 });
    assert_eq!(assign_with_suffix(&mut record, "k", 0).username, "alice");
}

#[test]
fn identity_survives_writing_out_and_reading_back() {
    let mut record = IdentityMap::new();
    let first = assign_with_suffix(&mut record, "127.0.0.1", 31337);
    assert!(first.fresh);

    // what goes to disk and comes back
    let written: Vec<(String, User)> =
        record.entries().into_iter().map(|(key, user)| (key.to_string(), user.clone())).collect();
    let mut reloaded = IdentityMap::new();
    for (key, user) in written {
        reloaded.insert(key, user);
    }

    let second = assign_with_suffix(&mut reloaded, "127.0.0.1", 5);
    assert_eq!(second, Assignment { username: first.username, fresh: false });
    assert_eq!(reloaded.get("127.0.0.1").map(|user| user.id), Some(31337));
    assert_eq!(reloaded.len(), 1);
}

#[test]
fn different_keys_get_their_own_identities() {
    let mut record = IdentityMap::new();
    assert_eq!(assign_with_suffix(&mut record, "a", 1).username, "Guest1");
    assert_eq!(assign_with_suffix(&mut record, "b", 2).username, "Guest2");
    assert_eq!(assign_with_suffix(&mut record, "a", 3).username, "Guest1");
    let keys: Vec<&str> = record.entries().into_iter().map(|(key, _)| key).collect();
    assert_eq!(keys, vec!["a", "b"]);
}

#[test]
fn random_assignment_makes_a_guest_and_records_its_number() {
    let mut record = IdentityMap::new();
    let answer = assign_identity(&mut record, "192.168.1.2");
    assert!(answer.fresh);
    let user = record.get("192.168.1.2").expect("the new identity is on record").clone();
    assert_eq!(user.username, answer.username);
    assert_eq!(answer.username, format!("Guest{}", user.id));

    let again = assign_identity(&mut record, "192.168.1.2");
    assert_eq!(again, Assignment { username: user.username, fresh: false });
    assert_eq!(record.len(), 1);
}

#[test]
fn empty_record_has_no_entries() {
    let record = IdentityMap::new();
    assert_eq!(record.len(), 0);
    assert!(record.entries().is_empty());
    assert_eq!(record.get("127.0.0.1"), None);
}

#[test]
fn from_entries_enters_each_in_turn() {
    let entries = vec![
        ("a".to_string(), User { username: "Guest1".to_string(), id: 1 }),
        ("b".to_string(), User { username: "Guest2".to_string(), id: 2 }),
        ("a".to_string(), User { username: "Guest3".to_string(), id: 3 }),
    ];
    let record = IdentityMap::from_entries(&entries);
    assert_eq!(record.len(), 2);
    assert_eq!(record.get("a"), Some(&User { username: "Guest3".to_string(), id: 3 }));
    assert_eq!(record.get("b"), Some(&User { username: "Guest2".to_string(), id: 2 }));
    let keys: Vec<&str> = record.entries().into_iter().map(|(key, _)| key).collect();
    assert_eq!(keys, vec!["a", "b"]);
}

#[test]
fn from_entries_undoes_entries() {
    let mut record = IdentityMap::new();
    assign_with_suffix(&mut record, "x", 10);
    assign_with_suffix(&mut record, "y", 20);
    assign_with_suffix(&mut record, "z", 30);
    let written: Vec<(String, User)> =
        record.entries().into_iter().map(|(key, user)| (key.to_string(), user.clone())).collect();
    let reloaded = IdentityMap::from_entries(&written);
    let again: Vec<(String, User)> =
        reloaded.entries().into_iter().map(|(key, user)| (key.to_string(), user.clone())).collect();
    assert_eq!(again, written);
    assert_eq!(
        again,
        vec![
            ("x".to_string(), User { username: "Guest10".to_string(), id: 10 }),
            ("y".to_string(), User { username: "Guest20".to_string(), id: 20 }),
            ("z".to_string(), User { username: "Guest30".to_string(), id: 30 }),
        ]
    );
}
