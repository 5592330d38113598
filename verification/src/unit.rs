use vstd::prelude::*;

use crate::text::str_eq;

verus! {

broadcast use vstd::string::group_string_axioms;

/// The LOAD state of a systemd unit: whether its configuration was loaded.
/// Its text form is the variant's name in kebab case, as systemd writes it
/// (`NotFound` is `not-found`).
#[derive(Clone, Copy, Debug, PartialEq, Eq, Structural)]
pub enum UnitLoadState {
    Stub,
    Loaded,
    NotFound,
    BadSetting,
    Error,
    Merged,
    Masked,
}

impl UnitLoadState {
    /// The state's name as systemd writes it.
    pub open spec fn spec_name(self) -> Seq<char> {
        match self {
            UnitLoadState::Stub => "stub"@,
            UnitLoadState::Loaded => "loaded"@,
            UnitLoadState::NotFound => "not-found"@,
            UnitLoadState::BadSetting => "bad-setting"@,
            UnitLoadState::Error => "error"@,
            UnitLoadState::Merged => "merged"@,
            UnitLoadState::Masked => "masked"@,
        }
    }

    /// The state that `s` names, if any.
    pub open spec fn parse_spec(s: Seq<char>) -> Option<Self> {
        if exists|x: Self| #[trigger] x.spec_name() == s {
            Some(choose|x: Self| #[trigger] x.spec_name() == s)
        } else {
            None
        }
    }

    /// No two states share a name.
    pub proof fn lemma_names_distinct()
        ensures
            forall|x: Self, y: Self| #[trigger] x.spec_name() == #[trigger] y.spec_name() ==> x == y,
    {
        reveal_strlit("stub");
        assert("stub"@ =~= seq!['s', 't', 'u', 'b']);
        reveal_strlit("loaded");
        assert("loaded"@ =~= seq!['l', 'o', 'a', 'd', 'e', 'd']);
        reveal_strlit("not-found");
        assert("not-found"@ =~= seq!['n', 'o', 't', '-', 'f', 'o', 'u', 'n', 'd']);
        reveal_strlit("bad-setting");
        assert("bad-setting"@ =~= seq!['b', 'a', 'd', '-', 's', 'e', 't', 't', 'i', 'n', 'g']);
        reveal_strlit("error");
        assert("error"@ =~= seq!['e', 'r', 'r', 'o', 'r']);
        reveal_strlit("merged");
        assert("merged"@ =~= seq!['m', 'e', 'r', 'g', 'e', 'd']);
        reveal_strlit("masked");
        assert("masked"@ =~= seq!['m', 'a', 's', 'k', 'e', 'd']);
    }

    /// Reading a state's name gives the state back.
    pub proof fn lemma_parse_name(x: Self)
        ensures
            Self::parse_spec(x.spec_name()) == Some(x),
    {
        Self::lemma_names_distinct();
    }

    /// The names systemd gives the states: each variant's name in kebab case
    /// (words in lower case, joined by `-`), and each such name reads as its state.
    pub proof fn lemma_systemd_names()
        ensures
            UnitLoadState::Stub.spec_name() == "stub"@,
            Self::parse_spec("stub"@) == Some(UnitLoadState::Stub),
            UnitLoadState::Loaded.spec_name() == "loaded"@,
            Self::parse_spec("loaded"@) == Some(UnitLoadState::Loaded),
            UnitLoadState::NotFound.spec_name() == "not-found"@,
            Self::parse_spec("not-found"@) == Some(UnitLoadState::NotFound),
            UnitLoadState::BadSetting.spec_name() == "bad-setting"@,
            Self::parse_spec("bad-setting"@) == Some(UnitLoadState::BadSetting),
            UnitLoadState::Error.spec_name() == "error"@,
            Self::parse_spec("error"@) == Some(UnitLoadState::Error),
            UnitLoadState::Merged.spec_name() == "merged"@,
            Self::parse_spec("merged"@) == Some(UnitLoadState::Merged),
            UnitLoadState::Masked.spec_name() == "masked"@,
            Self::parse_spec("masked"@) == Some(UnitLoadState::Masked),
    {
        Self::lemma_parse_name(UnitLoadState::Stub);
        Self::lemma_parse_name(UnitLoadState::Loaded);
        Self::lemma_parse_name(UnitLoadState::NotFound);
        Self::lemma_parse_name(UnitLoadState::BadSetting);
        Self::lemma_parse_name(UnitLoadState::Error);
        Self::lemma_parse_name(UnitLoadState::Merged);
        Self::lemma_parse_name(UnitLoadState::Masked);
    }

    /// A string is read as a state only when it is that state's name.
    pub proof fn lemma_parse_only_names(s: Seq<char>)
        ensures
            Self::parse_spec(s) matches Some(x) ==> x.spec_name() == s,
    {
    }

    /// The state's name as systemd writes it.
    pub fn as_str(&self) -> (res: &'static str)
        ensures
            res@ == self.spec_name(),
    {
        match self {
            UnitLoadState::Stub => "stub",
            UnitLoadState::Loaded => "loaded",
            UnitLoadState::NotFound => "not-found",
            UnitLoadState::BadSetting => "bad-setting",
            UnitLoadState::Error => "error",
            UnitLoadState::Merged => "merged",
            UnitLoadState::Masked => "masked",
        }
    }

    /// The state's name as systemd writes it, as an owned string.
    pub fn to_string(&self) -> (res: String)
        ensures
            res@ == self.spec_name(),
    {
        self.as_str().to_owned()
    }

    /// The state that `s` names; `None` when `s` names none (names are case-sensitive).
    pub fn from_str(s: &str) -> (res: Option<Self>)
        ensures
            res == Self::parse_spec(s@),
    {
        proof {
            Self::lemma_names_distinct();
        }
        if str_eq(s, "stub") {
            proof { Self::lemma_parse_name(UnitLoadState::Stub); }
            Some(UnitLoadState::Stub)
        } else if str_eq(s, "loaded") {
            proof { Self::lemma_parse_name(UnitLoadState::Loaded); }
            Some(UnitLoadState::Loaded)
        } else if str_eq(s, "not-found") {
            proof { Self::lemma_parse_name(UnitLoadState::NotFound); }
            Some(UnitLoadState::NotFound)
        } else if str_eq(s, "bad-setting") {
            proof { Self::lemma_parse_name(UnitLoadState::BadSetting); }
            Some(UnitLoadState::BadSetting)
        } else if str_eq(s, "error") {
            proof { Self::lemma_parse_name(UnitLoadState::Error); }
            Some(UnitLoadState::Error)
        } else if str_eq(s, "merged") {
            proof { Self::lemma_parse_name(UnitLoadState::Merged); }
            Some(UnitLoadState::Merged)
        } else if str_eq(s, "masked") {
            proof { Self::lemma_parse_name(UnitLoadState::Masked); }
            Some(UnitLoadState::Masked)
        } else {
            proof {
                assert forall|x: Self| #[trigger] x.spec_name() != s@ by {
                    match x {
                        UnitLoadState::Stub => {},
                        UnitLoadState::Loaded => {},
                        UnitLoadState::NotFound => {},
                        UnitLoadState::BadSetting => {},
                        UnitLoadState::Error => {},
                        UnitLoadState::Merged => {},
                        UnitLoadState::Masked => {},
                    }
                }
            }
            None
        }
    }

    /// Whether the unit's configuration was loaded.
    pub fn is_loaded(&self) -> (res: bool)
        ensures
            res == (*self == UnitLoadState::Loaded),
    {
        match self {
            UnitLoadState::Loaded => true,
            _ => false,
        }
    }
}

/// The ACTIVE state of a systemd unit: its high-level activation state.
/// Its text form is the variant's name in kebab case, as systemd writes it
/// (`Inactive` is `inactive`).
#[derive(Clone, Copy, Debug, PartialEq, Eq, Structural)]
pub enum UnitActiveState {
    Active,
    Reloading,
    Inactive,
    Failed,
    Activating,
    Deactivating,
    Maintenance,
    Refreshing,
}

impl UnitActiveState {
    /// The state's name as systemd writes it.
    pub open spec fn spec_name(self) -> Seq<char> {
        match self {
            UnitActiveState::Active => "active"@,
            UnitActiveState::Reloading => "reloading"@,
            UnitActiveState::Inactive => "inactive"@,
            UnitActiveState::Failed => "failed"@,
            UnitActiveState::Activating => "activating"@,
            UnitActiveState::Deactivating => "deactivating"@,
            UnitActiveState::Maintenance => "maintenance"@,
            UnitActiveState::Refreshing => "refreshing"@,
        }
    }

    /// The state that `s` names, if any.
    pub open spec fn parse_spec(s: Seq<char>) -> Option<Self> {
        if exists|x: Self| #[trigger] x.spec_name() == s {
            Some(choose|x: Self| #[trigger] x.spec_name() == s)
        } else {
            None
        }
    }

    /// No two states share a name.
    pub proof fn lemma_names_distinct()
        ensures
            forall|x: Self, y: Self| #[trigger] x.spec_name() == #[trigger] y.spec_name() ==> x == y,
    {
        reveal_strlit("active");
        assert("active"@ =~= seq!['a', 'c', 't', 'i', 'v', 'e']);
        reveal_strlit("reloading");
        assert("reloading"@ =~= seq!['r', 'e', 'l', 'o', 'a', 'd', 'i', 'n', 'g']);
        reveal_strlit("inactive");
        assert("inactive"@ =~= seq!['i', 'n', 'a', 'c', 't', 'i', 'v', 'e']);
        reveal_strlit("failed");
        assert("failed"@ =~= seq!['f', 'a', 'i', 'l', 'e', 'd']);
        reveal_strlit("activating");
        assert("activating"@ =~= seq!['a', 'c', 't', 'i', 'v', 'a', 't', 'i', 'n', 'g']);
        reveal_strlit("deactivating");
        assert("deactivating"@ =~= seq!['d', 'e', 'a', 'c', 't', 'i', 'v', 'a', 't', 'i', 'n', 'g']);
        reveal_strlit("maintenance");
        assert("maintenance"@ =~= seq!['m', 'a', 'i', 'n', 't', 'e', 'n', 'a', 'n', 'c', 'e']);
        reveal_strlit("refreshing");
        assert("refreshing"@ =~= seq!['r', 'e', 'f', 'r', 'e', 's', 'h', 'i', 'n', 'g']);
    }

    /// Reading a state's name gives the state back.
    pub proof fn lemma_parse_name(x: Self)
        ensures
            Self::parse_spec(x.spec_name()) == Some(x),
    {
        Self::lemma_names_distinct();
    }

    /// The names systemd gives the states: each variant's name in kebab case
    /// (words in lower case, joined by `-`), and each such name reads as its state.
    pub proof fn lemma_systemd_names()
        ensures
            UnitActiveState::Active.spec_name() == "active"@,
            Self::parse_spec("active"@) == Some(UnitActiveState::Active),
            UnitActiveState::Reloading.spec_name() == "reloading"@,
            Self::parse_spec("reloading"@) == Some(UnitActiveState::Reloading),
            UnitActiveState::Inactive.spec_name() == "inactive"@,
            Self::parse_spec("inactive"@) == Some(UnitActiveState::Inactive),
            UnitActiveState::Failed.spec_name() == "failed"@,
            Self::parse_spec("failed"@) == Some(UnitActiveState::Failed),
            UnitActiveState::Activating.spec_name() == "activating"@,
            Self::parse_spec("activating"@) == Some(UnitActiveState::Activating),
            UnitActiveState::Deactivating.spec_name() == "deactivating"@,
            Self::parse_spec("deactivating"@) == Some(UnitActiveState::Deactivating),
            UnitActiveState::Maintenance.spec_name() == "maintenance"@,
            Self::parse_spec("maintenance"@) == Some(UnitActiveState::Maintenance),
            UnitActiveState::Refreshing.spec_name() == "refreshing"@,
            Self::parse_spec("refreshing"@) == Some(UnitActiveState::Refreshing),
    {
        Self::lemma_parse_name(UnitActiveState::Active);
        Self::lemma_parse_name(UnitActiveState::Reloading);
        Self::lemma_parse_name(UnitActiveState::Inactive);
        Self::lemma_parse_name(UnitActiveState::Failed);
        Self::lemma_parse_name(UnitActiveState::Activating);
        Self::lemma_parse_name(UnitActiveState::Deactivating);
        Self::lemma_parse_name(UnitActiveState::Maintenance);
        Self::lemma_parse_name(UnitActiveState::Refreshing);
    }

    /// A string is read as a state only when it is that state's name.
    pub proof fn lemma_parse_only_names(s: Seq<char>)
        ensures
            Self::parse_spec(s) matches Some(x) ==> x.spec_name() == s,
    {
    }

    /// The state's name as systemd writes it.
    pub fn as_str(&self) -> (res: &'static str)
        ensures
            res@ == self.spec_name(),
    {
        match self {
            UnitActiveState::Active => "active",
            UnitActiveState::Reloading => "reloading",
            UnitActiveState::Inactive => "inactive",
            UnitActiveState::Failed => "failed",
            UnitActiveState::Activating => "activating",
            UnitActiveState::Deactivating => "deactivating",
            UnitActiveState::Maintenance => "maintenance",
            UnitActiveState::Refreshing => "refreshing",
        }
    }

    /// The state's name as systemd writes it, as an owned string.
    pub fn to_string(&self) -> (res: String)
        ensures
            res@ == self.spec_name(),
    {
        self.as_str().to_owned()
    }

    /// The state that `s` names; `None` when `s` names none (names are case-sensitive).
    pub fn from_str(s: &str) -> (res: Option<Self>)
        ensures
            res == Self::parse_spec(s@),
    {
        proof {
            Self::lemma_names_distinct();
        }
        if str_eq(s, "active") {
            proof { Self::lemma_parse_name(UnitActiveState::Active); }
            Some(UnitActiveState::Active)
        } else if str_eq(s, "reloading") {
            proof { Self::lemma_parse_name(UnitActiveState::Reloading); }
            Some(UnitActiveState::Reloading)
        } else if str_eq(s, "inactive") {
            proof { Self::lemma_parse_name(UnitActiveState::Inactive); }
            Some(UnitActiveState::Inactive)
        } else if str_eq(s, "failed") {
            proof { Self::lemma_parse_name(UnitActiveState::Failed); }
            Some(UnitActiveState::Failed)
        } else if str_eq(s, "activating") {
            proof { Self::lemma_parse_name(UnitActiveState::Activating); }
            Some(UnitActiveState::Activating)
        } else if str_eq(s, "deactivating") {
            proof { Self::lemma_parse_name(UnitActiveState::Deactivating); }
            Some(UnitActiveState::Deactivating)
        } else if str_eq(s, "maintenance") {
            proof { Self::lemma_parse_name(UnitActiveState::Maintenance); }
            Some(UnitActiveState::Maintenance)
        } else if str_eq(s, "refreshing") {
            proof { Self::lemma_parse_name(UnitActiveState::Refreshing); }
            Some(UnitActiveState::Refreshing)
        } else {
            proof {
                assert forall|x: Self| #[trigger] x.spec_name() != s@ by {
                    match x {
                        UnitActiveState::Active => {},
                        UnitActiveState::Reloading => {},
                        UnitActiveState::Inactive => {},
                        UnitActiveState::Failed => {},
                        UnitActiveState::Activating => {},
                        UnitActiveState::Deactivating => {},
                        UnitActiveState::Maintenance => {},
                        UnitActiveState::Refreshing => {},
                    }
                }
            }
            None
        }
    }

    /// Whether the unit counts as running: active, or on its way there
    /// (activating), or active while reloading or refreshing.
    pub fn is_active(&self) -> (res: bool)
        ensures
            res == (*self == UnitActiveState::Active || *self == UnitActiveState::Activating
                || *self == UnitActiveState::Reloading || *self == UnitActiveState::Refreshing),
    {
        match self {
            UnitActiveState::Active | UnitActiveState::Activating | UnitActiveState::Reloading
            | UnitActiveState::Refreshing => true,
            _ => false,
        }
    }
}

/// The SUB state of a systemd unit: its low-level, type-specific state.
/// Its text form is the variant's name in kebab case, as systemd writes it
/// (`StartPre` is `start-pre`).
#[derive(Clone, Copy, Debug, PartialEq, Eq, Structural)]
pub enum UnitActiveSubState {
    Dead,
    Condition,
    StartPre,
    Start,
    StartPost,
    Running,
    Exited,
    Reload,
    ReloadSignal,
    ReloadNotify,
    Mounting,
    Stop,
    StopWatchdog,
    StopSigterm,
    StopSigkill,
    StopPost,
    FinalWatchdog,
    FinalSigterm,
    FinalSigkill,
    Failed,
    DeadBeforeAutoRestart,
    FailedBeforeAutoRestart,
    DeadResourcesPinned,
    AutoRestart,
    AutoRestartQueued,
    Cleaning,
}

impl UnitActiveSubState {
    /// The state's name as systemd writes it.
    pub open spec fn spec_name(self) -> Seq<char> {
        match self {
            UnitActiveSubState::Dead => "dead"@,
            UnitActiveSubState::Condition => "condition"@,
            UnitActiveSubState::StartPre => "start-pre"@,
            UnitActiveSubState::Start => "start"@,
            UnitActiveSubState::StartPost => "start-post"@,
            UnitActiveSubState::Running => "running"@,
            UnitActiveSubState::Exited => "exited"@,
            UnitActiveSubState::Reload => "reload"@,
            UnitActiveSubState::ReloadSignal => "reload-signal"@,
            UnitActiveSubState::ReloadNotify => "reload-notify"@,
            UnitActiveSubState::Mounting => "mounting"@,
            UnitActiveSubState::Stop => "stop"@,
            UnitActiveSubState::StopWatchdog => "stop-watchdog"@,
            UnitActiveSubState::StopSigterm => "stop-sigterm"@,
            UnitActiveSubState::StopSigkill => "stop-sigkill"@,
            UnitActiveSubState::StopPost => "stop-post"@,
            UnitActiveSubState::FinalWatchdog => "final-watchdog"@,
            UnitActiveSubState::FinalSigterm => "final-sigterm"@,
            UnitActiveSubState::FinalSigkill => "final-sigkill"@,
            UnitActiveSubState::Failed => "failed"@,
            UnitActiveSubState::DeadBeforeAutoRestart => "dead-before-auto-restart"@,
            UnitActiveSubState::FailedBeforeAutoRestart => "failed-before-auto-restart"@,
            UnitActiveSubState::DeadResourcesPinned => "dead-resources-pinned"@,
            UnitActiveSubState::AutoRestart => "auto-restart"@,
            UnitActiveSubState::AutoRestartQueued => "auto-restart-queued"@,
            UnitActiveSubState::Cleaning => "cleaning"@,
        }
    }

    /// The state that `s` names, if any.
    pub open spec fn parse_spec(s: Seq<char>) -> Option<Self> {
        if exists|x: Self| #[trigger] x.spec_name() == s {
            Some(choose|x: Self| #[trigger] x.spec_name() == s)
        } else {
            None
        }
    }

    /// No two states share a name.
    pub proof fn lemma_names_distinct()
        ensures
            forall|x: Self, y: Self| #[trigger] x.spec_name() == #[trigger] y.spec_name() ==> x == y,
    {
        reveal_strlit("dead");
        assert("dead"@ =~= seq!['d', 'e', 'a', 'd']);
        reveal_strlit("condition");
        assert("condition"@ =~= seq!['c', 'o', 'n', 'd', 'i', 't', 'i', 'o', 'n']);
        reveal_strlit("start-pre");
        assert("start-pre"@ =~= seq!['s', 't', 'a', 'r', 't', '-', 'p', 'r', 'e']);
        reveal_strlit("start");
        assert("start"@ =~= seq!['s', 't', 'a', 'r', 't']);
        reveal_strlit("start-post");
        assert("start-post"@ =~= seq!['s', 't', 'a', 'r', 't', '-', 'p', 'o', 's', 't']);
        reveal_strlit("running");
        assert("running"@ =~= seq!['r', 'u', 'n', 'n', 'i', 'n', 'g']);
        reveal_strlit("exited");
        assert("exited"@ =~= seq!['e', 'x', 'i', 't', 'e', 'd']);
        reveal_strlit("reload");
        assert("reload"@ =~= seq!['r', 'e', 'l', 'o', 'a', 'd']);
        reveal_strlit("reload-signal");
        assert("reload-signal"@ =~= seq!['r', 'e', 'l', 'o', 'a', 'd', '-', 's', 'i', 'g', 'n', 'a', 'l']);
        reveal_strlit("reload-notify");
        assert("reload-notify"@ =~= seq!['r', 'e', 'l', 'o', 'a', 'd', '-', 'n', 'o', 't', 'i', 'f', 'y']);
        reveal_strlit("mounting");
        assert("mounting"@ =~= seq!['m', 'o', 'u', 'n', 't', 'i', 'n', 'g']);
        reveal_strlit("stop");
        assert("stop"@ =~= seq!['s', 't', 'o', 'p']);
        reveal_strlit("stop-watchdog");
        assert("stop-watchdog"@ =~= seq!['s', 't', 'o', 'p', '-', 'w', 'a', 't', 'c', 'h', 'd', 'o', 'g']);
        reveal_strlit("stop-sigterm");
        assert("stop-sigterm"@ =~= seq!['s', 't', 'o', 'p', '-', 's', 'i', 'g', 't', 'e', 'r', 'm']);
        reveal_strlit("stop-sigkill");
        assert("stop-sigkill"@ =~= seq!['s', 't', 'o', 'p', '-', 's', 'i', 'g', 'k', 'i', 'l', 'l']);
        reveal_strlit("stop-post");
        assert("stop-post"@ =~= seq!['s', 't', 'o', 'p', '-', 'p', 'o', 's', 't']);
        reveal_strlit("final-watchdog");
        assert("final-watchdog"@ =~= seq!['f', 'i', 'n', 'a', 'l', '-', 'w', 'a', 't', 'c', 'h', 'd', 'o', 'g']);
        reveal_strlit("final-sigterm");
        assert("final-sigterm"@ =~= seq!['f', 'i', 'n', 'a', 'l', '-', 's', 'i', 'g', 't', 'e', 'r', 'm']);
        reveal_strlit("final-sigkill");
        assert("final-sigkill"@ =~= seq!['f', 'i', 'n', 'a', 'l', '-', 's', 'i', 'g', 'k', 'i', 'l', 'l']);
        reveal_strlit("failed");
        assert("failed"@ =~= seq!['f', 'a', 'i', 'l', 'e', 'd']);
        reveal_strlit("dead-before-auto-restart");
        assert("dead-before-auto-restart"@ =~= seq!['d', 'e', 'a', 'd', '-', 'b', 'e', 'f', 'o', 'r', 'e', '-', 'a', 'u', 't', 'o', '-', 'r', 'e', 's', 't', 'a', 'r', 't']);
        reveal_strlit("failed-before-auto-restart");
        assert("failed-before-auto-restart"@ =~= seq!['f', 'a', 'i', 'l', 'e', 'd', '-', 'b', 'e', 'f', 'o', 'r', 'e', '-', 'a', 'u', 't', 'o', '-', 'r', 'e', 's', 't', 'a', 'r', 't']);
        reveal_strlit("dead-resources-pinned");
        assert("dead-resources-pinned"@ =~= seq!['d', 'e', 'a', 'd', '-', 'r', 'e', 's', 'o', 'u', 'r', 'c', 'e', 's', '-', 'p', 'i', 'n', 'n', 'e', 'd']);
        reveal_strlit("auto-restart");
        assert("auto-restart"@ =~= seq!['a', 'u', 't', 'o', '-', 'r', 'e', 's', 't', 'a', 'r', 't']);
        reveal_strlit("auto-restart-queued");
        assert("auto-restart-queued"@ =~= seq!['a', 'u', 't', 'o', '-', 'r', 'e', 's', 't', 'a', 'r', 't', '-', 'q', 'u', 'e', 'u', 'e', 'd']);
        reveal_strlit("cleaning");
        assert("cleaning"@ =~= seq!['c', 'l', 'e', 'a', 'n', 'i', 'n', 'g']);
    }

    /// Reading a state's name gives the state back.
    pub proof fn lemma_parse_name(x: Self)
        ensures
            Self::parse_spec(x.spec_name()) == Some(x),
    {
        Self::lemma_names_distinct();
    }

    /// The names systemd gives the states: each variant's name in kebab case
    /// (words in lower case, joined by `-`), and each such name reads as its state.
    pub proof fn lemma_systemd_names()
        ensures
            UnitActiveSubState::Dead.spec_name() == "dead"@,
            Self::parse_spec("dead"@) == Some(UnitActiveSubState::Dead),
            UnitActiveSubState::Condition.spec_name() == "condition"@,
            Self::parse_spec("condition"@) == Some(UnitActiveSubState::Condition),
            UnitActiveSubState::StartPre.spec_name() == "start-pre"@,
            Self::parse_spec("start-pre"@) == Some(UnitActiveSubState::StartPre),
            UnitActiveSubState::Start.spec_name() == "start"@,
            Self::parse_spec("start"@) == Some(UnitActiveSubState::Start),
            UnitActiveSubState::StartPost.spec_name() == "start-post"@,
            Self::parse_spec("start-post"@) == Some(UnitActiveSubState::StartPost),
            UnitActiveSubState::Running.spec_name() == "running"@,
            Self::parse_spec("running"@) == Some(UnitActiveSubState::Running),
            UnitActiveSubState::Exited.spec_name() == "exited"@,
            Self::parse_spec("exited"@) == Some(UnitActiveSubState::Exited),
            UnitActiveSubState::Reload.spec_name() == "reload"@,
            Self::parse_spec("reload"@) == Some(UnitActiveSubState::Reload),
            UnitActiveSubState::ReloadSignal.spec_name() == "reload-signal"@,
            Self::parse_spec("reload-signal"@) == Some(UnitActiveSubState::ReloadSignal),
            UnitActiveSubState::ReloadNotify.spec_name() == "reload-notify"@,
            Self::parse_spec("reload-notify"@) == Some(UnitActiveSubState::ReloadNotify),
            UnitActiveSubState::Mounting.spec_name() == "mounting"@,
            Self::parse_spec("mounting"@) == Some(UnitActiveSubState::Mounting),
            UnitActiveSubState::Stop.spec_name() == "stop"@,
            Self::parse_spec("stop"@) == Some(UnitActiveSubState::Stop),
            UnitActiveSubState::StopWatchdog.spec_name() == "stop-watchdog"@,
            Self::parse_spec("stop-watchdog"@) == Some(UnitActiveSubState::StopWatchdog),
            UnitActiveSubState::StopSigterm.spec_name() == "stop-sigterm"@,
            Self::parse_spec("stop-sigterm"@) == Some(UnitActiveSubState::StopSigterm),
            UnitActiveSubState::StopSigkill.spec_name() == "stop-sigkill"@,
            Self::parse_spec("stop-sigkill"@) == Some(UnitActiveSubState::StopSigkill),
            UnitActiveSubState::StopPost.spec_name() == "stop-post"@,
            Self::parse_spec("stop-post"@) == Some(UnitActiveSubState::StopPost),
            UnitActiveSubState::FinalWatchdog.spec_name() == "final-watchdog"@,
            Self::parse_spec("final-watchdog"@) == Some(UnitActiveSubState::FinalWatchdog),
            UnitActiveSubState::FinalSigterm.spec_name() == "final-sigterm"@,
            Self::parse_spec("final-sigterm"@) == Some(UnitActiveSubState::FinalSigterm),
            UnitActiveSubState::FinalSigkill.spec_name() == "final-sigkill"@,
            Self::parse_spec("final-sigkill"@) == Some(UnitActiveSubState::FinalSigkill),
            UnitActiveSubState::Failed.spec_name() == "failed"@,
            Self::parse_spec("failed"@) == Some(UnitActiveSubState::Failed),
            UnitActiveSubState::DeadBeforeAutoRestart.spec_name() == "dead-before-auto-restart"@,
            Self::parse_spec("dead-before-auto-restart"@) == Some(UnitActiveSubState::DeadBeforeAutoRestart),
            UnitActiveSubState::FailedBeforeAutoRestart.spec_name() == "failed-before-auto-restart"@,
            Self::parse_spec("failed-before-auto-restart"@) == Some(UnitActiveSubState::FailedBeforeAutoRestart),
            UnitActiveSubState::DeadResourcesPinned.spec_name() == "dead-resources-pinned"@,
            Self::parse_spec("dead-resources-pinned"@) == Some(UnitActiveSubState::DeadResourcesPinned),
            UnitActiveSubState::AutoRestart.spec_name() == "auto-restart"@,
            Self::parse_spec("auto-restart"@) == Some(UnitActiveSubState::AutoRestart),
            UnitActiveSubState::AutoRestartQueued.spec_name() == "auto-restart-queued"@,
            Self::parse_spec("auto-restart-queued"@) == Some(UnitActiveSubState::AutoRestartQueued),
            UnitActiveSubState::Cleaning.spec_name() == "cleaning"@,
            Self::parse_spec("cleaning"@) == Some(UnitActiveSubState::Cleaning),
    {
        Self::lemma_parse_name(UnitActiveSubState::Dead);
        Self::lemma_parse_name(UnitActiveSubState::Condition);
        Self::lemma_parse_name(UnitActiveSubState::StartPre);
        Self::lemma_parse_name(UnitActiveSubState::Start);
        Self::lemma_parse_name(UnitActiveSubState::StartPost);
        Self::lemma_parse_name(UnitActiveSubState::Running);
        Self::lemma_parse_name(UnitActiveSubState::Exited);
        Self::lemma_parse_name(UnitActiveSubState::Reload);
        Self::lemma_parse_name(UnitActiveSubState::ReloadSignal);
        Self::lemma_parse_name(UnitActiveSubState::ReloadNotify);
        Self::lemma_parse_name(UnitActiveSubState::Mounting);
        Self::lemma_parse_name(UnitActiveSubState::Stop);
        Self::lemma_parse_name(UnitActiveSubState::StopWatchdog);
        Self::lemma_parse_name(UnitActiveSubState::StopSigterm);
        Self::lemma_parse_name(UnitActiveSubState::StopSigkill);
        Self::lemma_parse_name(UnitActiveSubState::StopPost);
        Self::lemma_parse_name(UnitActiveSubState::FinalWatchdog);
        Self::lemma_parse_name(UnitActiveSubState::FinalSigterm);
        Self::lemma_parse_name(UnitActiveSubState::FinalSigkill);
        Self::lemma_parse_name(UnitActiveSubState::Failed);
        Self::lemma_parse_name(UnitActiveSubState::DeadBeforeAutoRestart);
        Self::lemma_parse_name(UnitActiveSubState::FailedBeforeAutoRestart);
        Self::lemma_parse_name(UnitActiveSubState::DeadResourcesPinned);
        Self::lemma_parse_name(UnitActiveSubState::AutoRestart);
        Self::lemma_parse_name(UnitActiveSubState::AutoRestartQueued);
        Self::lemma_parse_name(UnitActiveSubState::Cleaning);
    }

    /// A string is read as a state only when it is that state's name.
    pub proof fn lemma_parse_only_names(s: Seq<char>)
        ensures
            Self::parse_spec(s) matches Some(x) ==> x.spec_name() == s,
    {
    }

    /// The state's name as systemd writes it.
    pub fn as_str(&self) -> (res: &'static str)
        ensures
            res@ == self.spec_name(),
    {
        match self {
            UnitActiveSubState::Dead => "dead",
            UnitActiveSubState::Condition => "condition",
            UnitActiveSubState::StartPre => "start-pre",
            UnitActiveSubState::Start => "start",
            UnitActiveSubState::StartPost => "start-post",
            UnitActiveSubState::Running => "running",
            UnitActiveSubState::Exited => "exited",
            UnitActiveSubState::Reload => "reload",
            UnitActiveSubState::ReloadSignal => "reload-signal",
            UnitActiveSubState::ReloadNotify => "reload-notify",
            UnitActiveSubState::Mounting => "mounting",
            UnitActiveSubState::Stop => "stop",
            UnitActiveSubState::StopWatchdog => "stop-watchdog",
            UnitActiveSubState::StopSigterm => "stop-sigterm",
            UnitActiveSubState::StopSigkill => "stop-sigkill",
            UnitActiveSubState::StopPost => "stop-post",
            UnitActiveSubState::FinalWatchdog => "final-watchdog",
            UnitActiveSubState::FinalSigterm => "final-sigterm",
            UnitActiveSubState::FinalSigkill => "final-sigkill",
            UnitActiveSubState::Failed => "failed",
            UnitActiveSubState::DeadBeforeAutoRestart => "dead-before-auto-restart",
            UnitActiveSubState::FailedBeforeAutoRestart => "failed-before-auto-restart",
            UnitActiveSubState::DeadResourcesPinned => "dead-resources-pinned",
            UnitActiveSubState::AutoRestart => "auto-restart",
            UnitActiveSubState::AutoRestartQueued => "auto-restart-queued",
            UnitActiveSubState::Cleaning => "cleaning",
        }
    }

    /// The state's name as systemd writes it, as an owned string.
    pub fn to_string(&self) -> (res: String)
        ensures
            res@ == self.spec_name(),
    {
        self.as_str().to_owned()
    }

    /// The state that `s` names; `None` when `s` names none (names are case-sensitive).
    pub fn from_str(s: &str) -> (res: Option<Self>)
        ensures
            res == Self::parse_spec(s@),
    {
        proof {
            Self::lemma_names_distinct();
        }
        if str_eq(s, "dead") {
            proof { Self::lemma_parse_name(UnitActiveSubState::Dead); }
            Some(UnitActiveSubState::Dead)
        } else if str_eq(s, "condition") {
            proof { Self::lemma_parse_name(UnitActiveSubState::Condition); }
            Some(UnitActiveSubState::Condition)
        } else if str_eq(s, "start-pre") {
            proof { Self::lemma_parse_name(UnitActiveSubState::StartPre); }
            Some(UnitActiveSubState::StartPre)
        } else if str_eq(s, "start") {
            proof { Self::lemma_parse_name(UnitActiveSubState::Start); }
            Some(UnitActiveSubState::Start)
        } else if str_eq(s, "start-post") {
            proof { Self::lemma_parse_name(UnitActiveSubState::StartPost); }
            Some(UnitActiveSubState::StartPost)
        } else if str_eq(s, "running") {
            proof { Self::lemma_parse_name(UnitActiveSubState::Running); }
            Some(UnitActiveSubState::Running)
        } else if str_eq(s, "exited") {
            proof { Self::lemma_parse_name(UnitActiveSubState::Exited); }
            Some(UnitActiveSubState::Exited)
        } else if str_eq(s, "reload") {
            proof { Self::lemma_parse_name(UnitActiveSubState::Reload); }
            Some(UnitActiveSubState::Reload)
        } else if str_eq(s, "reload-signal") {
            proof { Self::lemma_parse_name(UnitActiveSubState::ReloadSignal); }
            Some(UnitActiveSubState::ReloadSignal)
        } else if str_eq(s, "reload-notify") {
            proof { Self::lemma_parse_name(UnitActiveSubState::ReloadNotify); }
            Some(UnitActiveSubState::ReloadNotify)
        } else if str_eq(s, "mounting") {
            proof { Self::lemma_parse_name(UnitActiveSubState::Mounting); }
            Some(UnitActiveSubState::Mounting)
        } else if str_eq(s, "stop") {
            proof { Self::lemma_parse_name(UnitActiveSubState::Stop); }
            Some(UnitActiveSubState::Stop)
        } else if str_eq(s, "stop-watchdog") {
            proof { Self::lemma_parse_name(UnitActiveSubState::StopWatchdog); }
            Some(UnitActiveSubState::StopWatchdog)
        } else if str_eq(s, "stop-sigterm") {
            proof { Self::lemma_parse_name(UnitActiveSubState::StopSigterm); }
            Some(UnitActiveSubState::StopSigterm)
        } else if str_eq(s, "stop-sigkill") {
            proof { Self::lemma_parse_name(UnitActiveSubState::StopSigkill); }
            Some(UnitActiveSubState::StopSigkill)
        } else if str_eq(s, "stop-post") {
            proof { Self::lemma_parse_name(UnitActiveSubState::StopPost); }
            Some(UnitActiveSubState::StopPost)
        } else if str_eq(s, "final-watchdog") {
            proof { Self::lemma_parse_name(UnitActiveSubState::FinalWatchdog); }
            Some(UnitActiveSubState::FinalWatchdog)
        } else if str_eq(s, "final-sigterm") {
            proof { Self::lemma_parse_name(UnitActiveSubState::FinalSigterm); }
            Some(UnitActiveSubState::FinalSigterm)
        } else if str_eq(s, "final-sigkill") {
            proof { Self::lemma_parse_name(UnitActiveSubState::FinalSigkill); }
            Some(UnitActiveSubState::FinalSigkill)
        } else if str_eq(s, "failed") {
            proof { Self::lemma_parse_name(UnitActiveSubState::Failed); }
            Some(UnitActiveSubState::Failed)
        } else if str_eq(s, "dead-before-auto-restart") {
            proof { Self::lemma_parse_name(UnitActiveSubState::DeadBeforeAutoRestart); }
            Some(UnitActiveSubState::DeadBeforeAutoRestart)
        } else if str_eq(s, "failed-before-auto-restart") {
            proof { Self::lemma_parse_name(UnitActiveSubState::FailedBeforeAutoRestart); }
            Some(UnitActiveSubState::FailedBeforeAutoRestart)
        } else if str_eq(s, "dead-resources-pinned") {
            proof { Self::lemma_parse_name(UnitActiveSubState::DeadResourcesPinned); }
            Some(UnitActiveSubState::DeadResourcesPinned)
        } else if str_eq(s, "auto-restart") {
            proof { Self::lemma_parse_name(UnitActiveSubState::AutoRestart); }
            Some(UnitActiveSubState::AutoRestart)
        } else if str_eq(s, "auto-restart-queued") {
            proof { Self::lemma_parse_name(UnitActiveSubState::AutoRestartQueued); }
            Some(UnitActiveSubState::AutoRestartQueued)
        } else if str_eq(s, "cleaning") {
            proof { Self::lemma_parse_name(UnitActiveSubState::Cleaning); }
            Some(UnitActiveSubState::Cleaning)
        } else {
            proof {
                assert forall|x: Self| #[trigger] x.spec_name() != s@ by {
                    match x {
                        UnitActiveSubState::Dead => {},
                        UnitActiveSubState::Condition => {},
                        UnitActiveSubState::StartPre => {},
                        UnitActiveSubState::Start => {},
                        UnitActiveSubState::StartPost => {},
                        UnitActiveSubState::Running => {},
                        UnitActiveSubState::Exited => {},
                        UnitActiveSubState::Reload => {},
                        UnitActiveSubState::ReloadSignal => {},
                        UnitActiveSubState::ReloadNotify => {},
                        UnitActiveSubState::Mounting => {},
                        UnitActiveSubState::Stop => {},
                        UnitActiveSubState::StopWatchdog => {},
                        UnitActiveSubState::StopSigterm => {},
                        UnitActiveSubState::StopSigkill => {},
                        UnitActiveSubState::StopPost => {},
                        UnitActiveSubState::FinalWatchdog => {},
                        UnitActiveSubState::FinalSigterm => {},
                        UnitActiveSubState::FinalSigkill => {},
                        UnitActiveSubState::Failed => {},
                        UnitActiveSubState::DeadBeforeAutoRestart => {},
                        UnitActiveSubState::FailedBeforeAutoRestart => {},
                        UnitActiveSubState::DeadResourcesPinned => {},
                        UnitActiveSubState::AutoRestart => {},
                        UnitActiveSubState::AutoRestartQueued => {},
                        UnitActiveSubState::Cleaning => {},
                    }
                }
            }
            None
        }
    }

}

} // verus!
