use hypha::{
    ServiceStatuses, UnitActiveState, UnitActiveSubState, UnitLoadState, DEFAULT_SERVER_PORT,
    SERVER_ENDPOINT,
};

fn running() -> (UnitLoadState, UnitActiveState, UnitActiveSubState) {
    (UnitLoadState::Loaded, UnitActiveState::Active, UnitActiveSubState::Running)
}

fn dead() -> (UnitLoadState, UnitActiveState, UnitActiveSubState) {
    (UnitLoadState::Masked, UnitActiveState::Inactive, UnitActiveSubState::Dead)
}

#[test]
fn endpoint_and_port() {
    assert_eq!(DEFAULT_SERVER_PORT, 8910);
    assert_eq!(SERVER_ENDPOINT, "/api");
}

#[test]
fn new_map_is_empty() {
    let statuses = ServiceStatuses::new();
    assert_eq!(statuses.len(), 0);
    assert!(statuses.is_empty());
    assert_eq!(statuses.get("polkit.service"), None);
    assert!(statuses.entries_vec().is_empty());
}

#[test]
fn read_after_write() {
    let mut statuses = ServiceStatuses::new();
    assert_eq!(statuses.insert("polkit.service".to_string(), running()), None);
    assert_eq!(statuses.get("polkit.service"), Some(running()));
    assert_eq!(statuses.get("audit.service"), None);
    assert_eq!(statuses.len(), 1);
}

#[test]
fn writing_a_name_again_replaces_its_status() {
    let mut statuses = ServiceStatuses::new();
    statuses.insert("audit.service".to_string(), running());
    statuses.insert("polkit.service".to_string(), running());
    assert_eq!(statuses.insert("audit.service".to_string(), dead()), Some(running()));
    assert_eq!(statuses.get("audit.service"), Some(dead()));
    assert_eq!(statuses.get("polkit.service"), Some(running()));
    assert_eq!(statuses.len(), 2);
}

#[test]
fn entries_come_in_ascending_order_of_name() {
    let mut statuses = ServiceStatuses::new();
    statuses.insert("polkit.service".to_string(), running());
    statuses.insert("NetworkManager.service".to_string(), running());
    statuses.insert("audit.service".to_string(), dead());
    statuses.insert("b.service".to_string(), running());
    statuses.insert("NetworkManager.service".to_string(), dead());
    let names: Vec<String> = statuses.entries_vec().into_iter().map(|(n, _)| n).collect();
    assert_eq!(
        names,
        vec!["NetworkManager.service", "audit.service", "b.service", "polkit.service"]
    );
    let mut sorted = names.clone();
    sorted.sort();
    assert_eq!(names, sorted);
    assert_eq!(statuses.entries_vec()[0].1, dead());
}

#[test]
fn prefixes_come_first() {
    let mut statuses = ServiceStatuses::new();
    statuses.insert("ab".to_string(), running());
    statuses.insert("a".to_string(), dead());
    statuses.insert("".to_string(), running());
    statuses.insert("é".to_string(), dead());
    statuses.insert("z".to_string(), dead());
    let names: Vec<String> = statuses.entries_vec().into_iter().map(|(n, _)| n).collect();
    assert_eq!(names, vec!["", "a", "ab", "z", "é"]);
}
