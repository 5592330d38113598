use hypha::systemd::{ServiceMonitorError, ServiceMonitorInterface, UnitRow};
use hypha::{UnitActiveState, UnitActiveSubState, UnitLoadState};

fn files(paths: &[&str]) -> Vec<(String, String)> {
    paths.iter().map(|p| (p.to_string(), "enabled".to_string())).collect()
}

fn names(items: &[&str]) -> Vec<String> {
    items.iter().map(|s| s.to_string()).collect()
}

fn row(name: &str, load: &str, active: &str, sub: &str) -> UnitRow {
    UnitRow {
        name: name.to_string(),
        load_state: load.to_string(),
        active_state: active.to_string(),
        sub_state: sub.to_string(),
    }
}

#[test]
fn unit_file_names_are_the_last_path_components() {
    let listed = files(&[
        "/usr/lib/systemd/system/polkit.service",
        "/etc/systemd/system/multi-user.target.wants/syncthing.service",
        "plain.service",
        "/trailing/",
        "",
    ]);
    assert_eq!(
        ServiceMonitorInterface::unit_file_names(&listed),
        names(&["polkit.service", "syncthing.service", "plain.service", "", ""])
    );
}

#[test]
fn names_without_unit_files_are_sorted_and_given_once() {
    let listed = files(&["/usr/lib/systemd/system/polkit.service", "/lib/tlp.service"]);
    let query = names(&["zz.service", "polkit.service", "aa.service", "zz.service", "tlp.service"]);
    assert_eq!(
        ServiceMonitorInterface::disjoint_from_unit_file_names(&listed, &query),
        names(&["aa.service", "zz.service"])
    );
}

#[test]
fn no_names_without_unit_files() {
    let listed = files(&["/a/x.service", "/b/y.service"]);
    assert!(ServiceMonitorInterface::disjoint_from_unit_file_names(&listed, &names(&["y.service"]))
        .is_empty());
    assert!(ServiceMonitorInterface::disjoint_from_unit_file_names(&listed, &names(&[])).is_empty());
}

#[test]
fn watching_known_services() {
    let listed = files(&["/usr/lib/systemd/system/polkit.service", "/x/tlp.service"]);
    let wanted = names(&["tlp.service", "polkit.service"]);
    match ServiceMonitorInterface::new(&wanted, &listed) {
        Ok(monitor) => assert_eq!(monitor.monitored_services(), &wanted),
        Err(e) => panic!("unexpected error {e:?}"),
    }
}

#[test]
fn watching_unknown_services_is_refused() {
    let listed = files(&["/usr/lib/systemd/system/polkit.service"]);
    let wanted = names(&["tlp.service", "polkit.service", "immich.service", "tlp.service"]);
    match ServiceMonitorInterface::new(&wanted, &listed) {
        Err(ServiceMonitorError::InvalidServiceName(list)) => {
            assert_eq!(list, "immich.service, tlp.service")
        }
        other => panic!("unexpected result {:?}", other.map(|m| m.monitored_services().clone())),
    }
}

#[test]
fn statuses_of_listed_units() {
    let rows = vec![
        row("polkit.service", "loaded", "active", "running"),
        row("audit.service", "masked", "inactive", "dead"),
    ];
    let statuses = ServiceMonitorInterface::get_service_statuses(&rows).unwrap();
    assert_eq!(statuses.len(), 2);
    assert_eq!(
        statuses.get("polkit.service"),
        Some((UnitLoadState::Loaded, UnitActiveState::Active, UnitActiveSubState::Running))
    );
    assert_eq!(
        statuses.get("audit.service"),
        Some((UnitLoadState::Masked, UnitActiveState::Inactive, UnitActiveSubState::Dead))
    );
}

#[test]
fn a_later_row_of_a_name_wins() {
    let rows = vec![
        row("polkit.service", "loaded", "active", "running"),
        row("polkit.service", "loaded", "failed", "failed"),
    ];
    let statuses = ServiceMonitorInterface::get_service_statuses(&rows).unwrap();
    assert_eq!(statuses.len(), 1);
    assert_eq!(
        statuses.get("polkit.service"),
        Some((UnitLoadState::Loaded, UnitActiveState::Failed, UnitActiveSubState::Failed))
    );
}

#[test]
fn the_first_unreadable_state_is_reported() {
    let rows = vec![
        row("a.service", "loaded", "active", "running"),
        row("b.service", "loaded", "Active", "bogus"),
        row("c.service", "weird", "active", "running"),
    ];
    match ServiceMonitorInterface::get_service_statuses(&rows) {
        Err(ServiceMonitorError::StateParseError(s)) => assert_eq!(s, "Active"),
        _ => panic!("expected a parse error"),
    }
    let rows = vec![row("a.service", "loaded", "active", "spinning")];
    match ServiceMonitorInterface::get_service_statuses(&rows) {
        Err(ServiceMonitorError::StateParseError(s)) => assert_eq!(s, "spinning"),
        _ => panic!("expected a parse error"),
    }
    let rows = vec![row("a.service", "", "active", "running")];
    match ServiceMonitorInterface::get_service_statuses(&rows) {
        Err(ServiceMonitorError::StateParseError(s)) => assert_eq!(s, ""),
        _ => panic!("expected a parse error"),
    }
}

#[test]
fn no_rows_no_statuses() {
    let statuses = ServiceMonitorInterface::get_service_statuses(&vec![]).unwrap();
    assert!(statuses.is_empty());
}

#[test]
fn error_messages() {
    assert_eq!(
        ServiceMonitorError::InvalidServiceName("a.service, b.service".to_string()).message(),
        "Invalid service names [a.service, b.service]"
    );
    assert_eq!(
        ServiceMonitorError::StateParseError("spinning".to_string()).message(),
        "Couldn't parse 'spinning' into a state enum"
    );
    let text = ServiceMonitorError::ZbusError(zbus::Error::InterfaceNotFound).message();
    assert!(text.starts_with("D-Bus error (") && text.ends_with(")") && text.len() > 13);
    let text = ServiceMonitorError::DbusConnection(zbus::Error::InterfaceNotFound).message();
    assert!(text.starts_with("Couldn't initialize systemd D-Bus connection ("));
    let text = ServiceMonitorError::ManagerProxyConnection(zbus::Error::InterfaceNotFound).message();
    assert!(text.starts_with("Couldn't initialize systemd manager proxy ("));
}
