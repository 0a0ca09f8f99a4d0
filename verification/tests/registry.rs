use aura_chat::name_map::NameMap;
use aura_chat::registry::Registry;

fn names_of(targets: &[(&str, &u32)]) -> Vec<String> {
    targets.iter().map(|(name, _)| name.to_string()).collect()
}

#[test]
fn new_registry_is_empty() {
    let registry: Registry<u32> = Registry::new();
    assert_eq!(registry.len(), 0);
    assert_eq!(registry.lookup("A"), None);
    assert!(registry.broadcast_targets("A").is_empty());
}

#[test]
fn lookup_finds_what_was_registered() {
    let mut registry = Registry::new();
    registry.register("A".to_string(), 1u32);
    registry.register("B".to_string(), 2u32);
    assert_eq!(registry.lookup("A"), Some(&1));
    assert_eq!(registry.lookup("B"), Some(&2));
    assert_eq!(registry.lookup("C"), None);
    assert_eq!(registry.len(), 2);
}

#[test]
fn last_registrant_has_the_name() {
    let mut registry = Registry::new();
    registry.register("A".to_string(), 1u32);
    registry.register("B".to_string(), 2u32);
    registry.register("A".to_string(), 3u32);
    assert_eq!(registry.lookup("A"), Some(&3));
    assert_eq!(registry.len(), 2);
    let targets = registry.broadcast_targets("");
    assert_eq!(targets, vec![("A", &3), ("B", &2)]);
}

#[test]
fn deregister_removes_and_is_a_no_op_on_strangers() {
    let mut registry = Registry::new();
    registry.register("A".to_string(), 1u32);
    registry.register("B".to_string(), 2u32);
    registry.deregister("C");
    assert_eq!(registry.len(), 2);
    registry.deregister("A");
    assert_eq!(registry.lookup("A"), None);
    assert_eq!(registry.lookup("B"), Some(&2));
    assert_eq!(registry.len(), 1);
    registry.deregister("A");
    assert_eq!(registry.len(), 1);
}

#[test]
fn lookup_after_changes_finds_last_register_not_followed_by_deregister() {
    let mut registry = Registry::new();
    registry.register("u".to_string(), 1u32);
    registry.deregister("u");
    registry.register("v".to_string(), 7u32);
    registry.register("u".to_string(), 2u32);
    registry.register("u".to_string(), 3u32);
    registry.deregister("v");
    assert_eq!(registry.lookup("u"), Some(&3));
    assert_eq!(registry.lookup("v"), None);
    registry.deregister("u");
    assert_eq!(registry.lookup("u"), None);
}

#[test]
fn broadcast_targets_leave_out_the_excluded_name() {
    let mut registry = Registry::new();
    registry.register("A".to_string(), 1u32);
    registry.register("B".to_string(), 2u32);
    registry.register("C".to_string(), 3u32);
    assert_eq!(registry.broadcast_targets("A"), vec![("B", &2), ("C", &3)]);
    assert_eq!(registry.broadcast_targets("B"), vec![("A", &1), ("C", &3)]);
    assert_eq!(registry.broadcast_targets("C"), vec![("A", &1), ("B", &2)]);
    assert_eq!(names_of(&registry.broadcast_targets("nobody")), vec!["A", "B", "C"]);
}

#[test]
fn names_that_differ_only_in_case_are_different() {
    let mut registry = Registry::new();
    registry.register("guest1".to_string(), 1u32);
    assert_eq!(registry.lookup("Guest1"), None);
    assert_eq!(registry.broadcast_targets("Guest1").len(), 1);
}

#[test]
fn name_map_lists_entries_in_order_of_first_entry() {
    let mut map = NameMap::new();
    map.insert("x".to_string(), 10u32);
    map.insert("y".to_string(), 20u32);
    map.insert("z".to_string(), 30u32);
    map.insert("x".to_string(), 11u32);
    assert_eq!(map.entries(), vec![("x", &11), ("y", &20), ("z", &30)]);
    map.remove("y");
    assert_eq!(map.entries(), vec![("x", &11), ("z", &30)]);
    assert_eq!(map.entries_except("z"), vec![("x", &11)]);
    assert_eq!(map.get("y"), None);
    assert_eq!(map.get("z"), Some(&30));
    assert_eq!(map.len(), 2);
    map.insert("y".to_string(), 21u32);
    assert_eq!(map.entries(), vec![("x", &11), ("z", &30), ("y", &21)]);
}
