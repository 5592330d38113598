use hypha::{UnitActiveState, UnitActiveSubState, UnitLoadState};

const LOAD_STATES: [UnitLoadState; 7] = [
    UnitLoadState::Stub,
    UnitLoadState::Loaded,
    UnitLoadState::NotFound,
    UnitLoadState::BadSetting,
    UnitLoadState::Error,
    UnitLoadState::Merged,
    UnitLoadState::Masked,
];

const ACTIVE_STATES: [UnitActiveState; 8] = [
    UnitActiveState::Active,
    UnitActiveState::Reloading,
    UnitActiveState::Inactive,
    UnitActiveState::Failed,
    UnitActiveState::Activating,
    UnitActiveState::Deactivating,
    UnitActiveState::Maintenance,
    UnitActiveState::Refreshing,
];

const SUB_STATES: [UnitActiveSubState; 26] = [
    UnitActiveSubState::Dead,
    UnitActiveSubState::Condition,
    UnitActiveSubState::StartPre,
    UnitActiveSubState::Start,
    UnitActiveSubState::StartPost,
    UnitActiveSubState::Running,
    UnitActiveSubState::Exited,
    UnitActiveSubState::Reload,
    UnitActiveSubState::ReloadSignal,
    UnitActiveSubState::ReloadNotify,
    UnitActiveSubState::Mounting,
    UnitActiveSubState::Stop,
    UnitActiveSubState::StopWatchdog,
    UnitActiveSubState::StopSigterm,
    UnitActiveSubState::StopSigkill,
    UnitActiveSubState::StopPost,
    UnitActiveSubState::FinalWatchdog,
    UnitActiveSubState::FinalSigterm,
    UnitActiveSubState::FinalSigkill,
    UnitActiveSubState::Failed,
    UnitActiveSubState::DeadBeforeAutoRestart,
    UnitActiveSubState::FailedBeforeAutoRestart,
    UnitActiveSubState::DeadResourcesPinned,
    UnitActiveSubState::AutoRestart,
    UnitActiveSubState::AutoRestartQueued,
    UnitActiveSubState::Cleaning,
];

#[test]
fn only_loaded_is_loaded() {
    for state in LOAD_STATES {
        assert_eq!(state.is_loaded(), state == UnitLoadState::Loaded);
    }
}

#[test]
fn active_states_that_count_as_active() {
    assert!(UnitActiveState::Active.is_active());
    assert!(UnitActiveState::Activating.is_active());
    assert!(UnitActiveState::Reloading.is_active());
    assert!(UnitActiveState::Refreshing.is_active());
    assert!(!UnitActiveState::Inactive.is_active());
    assert!(!UnitActiveState::Failed.is_active());
    assert!(!UnitActiveState::Deactivating.is_active());
    assert!(!UnitActiveState::Maintenance.is_active());
}

#[test]
fn load_state_names_are_kebab_case() {
    let names: Vec<String> = LOAD_STATES.iter().map(|s| s.to_string()).collect();
    assert_eq!(
        names,
        vec!["stub", "loaded", "not-found", "bad-setting", "error", "merged", "masked"]
    );
}

#[test]
fn active_state_names_are_kebab_case() {
    let names: Vec<&str> = ACTIVE_STATES.iter().map(|s| s.as_str()).collect();
    assert_eq!(
        names,
        vec![
            "active",
            "reloading",
            "inactive",
            "failed",
            "activating",
            "deactivating",
            "maintenance",
            "refreshing"
        ]
    );
}

#[test]
fn sub_state_names_are_kebab_case() {
    assert_eq!(UnitActiveSubState::StartPre.as_str(), "start-pre");
    assert_eq!(UnitActiveSubState::ReloadSignal.as_str(), "reload-signal");
    assert_eq!(UnitActiveSubState::StopSigkill.as_str(), "stop-sigkill");
    assert_eq!(UnitActiveSubState::FinalWatchdog.as_str(), "final-watchdog");
    assert_eq!(
        UnitActiveSubState::DeadBeforeAutoRestart.as_str(),
        "dead-before-auto-restart"
    );
    assert_eq!(
        UnitActiveSubState::FailedBeforeAutoRestart.as_str(),
        "failed-before-auto-restart"
    );
    assert_eq!(UnitActiveSubState::DeadResourcesPinned.as_str(), "dead-resources-pinned");
    assert_eq!(UnitActiveSubState::AutoRestartQueued.as_str(), "auto-restart-queued");
    assert_eq!(UnitActiveSubState::Running.to_string(), "running");
}

#[test]
fn names_read_back_as_their_states() {
    for state in LOAD_STATES {
        assert_eq!(UnitLoadState::from_str(&state.to_string()), Some(state));
    }
    for state in ACTIVE_STATES {
        assert_eq!(UnitActiveState::from_str(&state.to_string()), Some(state));
    }
    for state in SUB_STATES {
        assert_eq!(UnitActiveSubState::from_str(&state.to_string()), Some(state));
    }
}

#[test]
fn names_of_states_are_all_different() {
    let mut names: Vec<String> = SUB_STATES.iter().map(|s| s.to_string()).collect();
    names.sort();
    names.dedup();
    assert_eq!(names.len(), SUB_STATES.len());
}

#[test]
fn unknown_or_differently_written_names_are_refused() {
    assert_eq!(UnitLoadState::from_str("Loaded"), None);
    assert_eq!(UnitLoadState::from_str("not_found"), None);
    assert_eq!(UnitLoadState::from_str(""), None);
    assert_eq!(UnitActiveState::from_str("active "), None);
    assert_eq!(UnitActiveState::from_str("running"), None);
    assert_eq!(UnitActiveSubState::from_str("StartPre"), None);
    assert_eq!(UnitActiveSubState::from_str("auto-restart-"), None);
}

#[test]
fn systemd_names_are_read() {
    assert_eq!(UnitLoadState::from_str("not-found"), Some(UnitLoadState::NotFound));
    assert_eq!(UnitActiveState::from_str("deactivating"), Some(UnitActiveState::Deactivating));
    assert_eq!(
        UnitActiveSubState::from_str("stop-sigterm"),
        Some(UnitActiveSubState::StopSigterm)
    );
}
