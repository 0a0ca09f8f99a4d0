use aura_chat::registry::Registry;
use aura_chat::session::{Session, OUTBOUND_QUEUE_CAPACITY};

#[test]
fn outbound_queue_holds_a_hundred_lines() {
    assert_eq!(OUTBOUND_QUEUE_CAPACITY, 100);
}

#[test]
fn open_registers_and_close_deregisters() {
    let mut registry: Registry<u8> = Registry::new();
    let session = Session::open(&mut registry, "Guest5".to_string(), 5);
    assert_eq!(session.username(), "Guest5");
    assert_eq!(registry.lookup("Guest5"), Some(&5));
    assert_eq!(registry.len(), 1);
    session.close(&mut registry);
    assert_eq!(registry.lookup("Guest5"), None);
    assert_eq!(registry.len(), 0);
}

#[test]
fn session_routes_its_lines_under_its_own_name() {
    let mut registry: Registry<u8> = Registry::new();
    let a = Session::open(&mut registry, "A".to_string(), 1);
    let b = Session::open(&mut registry, "B".to_string(), 2);

    let deliveries = a.on_line(&registry, "hello");
    assert_eq!(deliveries.len(), 1);
    assert_eq!(deliveries[0].recipient, "B");
    assert_eq!(*deliveries[0].handle, 2);
    assert_eq!(deliveries[0].line, "[A]: hello");

    let deliveries = b.on_line(&registry, "/msg A psst");
    assert_eq!(deliveries.len(), 1);
    assert_eq!(*deliveries[0].handle, 1);
    assert_eq!(deliveries[0].line, "[Private from B]: psst");
}

#[test]
fn closed_session_gets_nothing_more() {
    let mut registry: Registry<u8> = Registry::new();
    let a = Session::open(&mut registry, "A".to_string(), 1);
    let b = Session::open(&mut registry, "B".to_string(), 2);
    let c = Session::open(&mut registry, "C".to_string(), 3);
    b.close(&mut registry);
    assert!(a.on_line(&registry, "/msg B gone?").is_empty());
    let recipients: Vec<&str> =
        c.on_line(&registry, "/channel hall").iter().map(|d| d.recipient).collect();
    assert_eq!(recipients, vec!["A"]);
}

#[test]
fn sessions_with_one_username_share_one_entry() {
    let mut registry: Registry<u8> = Registry::new();
    let first = Session::open(&mut registry, "Guest1".to_string(), 1);
    let second = Session::open(&mut registry, "Guest1".to_string(), 2);
    assert_eq!(registry.len(), 1);
    assert_eq!(registry.lookup("Guest1"), Some(&2));
    // the first to leave takes the shared entry with it
    first.close(&mut registry);
    assert_eq!(registry.lookup("Guest1"), None);
    second.close(&mut registry);
    assert_eq!(registry.len(), 0);
}
