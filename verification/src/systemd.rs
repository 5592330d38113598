use vstd::prelude::*;

use crate::api::{ServiceStatuses, UnitStatus};
use crate::text::{
    contains_str, copy_strings, file_name, file_name_of, insert_sorted, join, seq_join,
    strictly_sorted, views,
};
use crate::unit::{UnitActiveState, UnitActiveSubState, UnitLoadState};
use vstd::string::StringExecFns;

verus! {

/// An error of the D-Bus library. Nothing is known of what it holds.
#[verifier::external_type_specification]
#[verifier::external_body]
pub struct ExDbusError(zbus::Error);

/// Why watching the services could not go on.
#[derive(Debug)]
pub enum ServiceMonitorError {
    /// The connection to the system bus could not be made.
    DbusConnection(zbus::Error),
    /// The proxy of systemd's manager could not be made.
    ManagerProxyConnection(zbus::Error),
    /// Services that systemd has no unit file for; their names, sorted and joined by `", "`.
    InvalidServiceName(String),
    /// A state that names no known state.
    StateParseError(String),
    /// A call on the bus failed.
    ZbusError(zbus::Error),
}

/// The text of a D-Bus error, as its `Display` writes it. Nothing is stated
/// of the text: it depends on what the error holds, which is not visible here.
#[verifier::external_body]
fn dbus_error_text(e: &zbus::Error) -> (res: String) {
    format!("{e}")
}

impl ServiceMonitorError {
    /// The error as a sentence for the log and for the server's answer.
    pub fn message(&self) -> (res: String)
        ensures
            match self {
                ServiceMonitorError::DbusConnection(_) => exists|t: Seq<char>|
                    res@ == "Couldn't initialize systemd D-Bus connection ("@ + t + ")"@,
                ServiceMonitorError::ManagerProxyConnection(_) => exists|t: Seq<char>|
                    res@ == "Couldn't initialize systemd manager proxy ("@ + t + ")"@,
                ServiceMonitorError::InvalidServiceName(names) => res@ == "Invalid service names ["@
                    + names@ + "]"@,
                ServiceMonitorError::StateParseError(state) => res@ == "Couldn't parse '"@ + state@
                    + "' into a state enum"@,
                ServiceMonitorError::ZbusError(_) => exists|t: Seq<char>|
                    res@ == "D-Bus error ("@ + t + ")"@,
            },
    {
        let (mut res, inner, close) = match self {
            ServiceMonitorError::DbusConnection(e) => (
                String::from_str("Couldn't initialize systemd D-Bus connection ("),
                dbus_error_text(e),
                ")",
            ),
            ServiceMonitorError::ManagerProxyConnection(e) => (
                String::from_str("Couldn't initialize systemd manager proxy ("),
                dbus_error_text(e),
                ")",
            ),
            ServiceMonitorError::InvalidServiceName(names) => (
                String::from_str("Invalid service names ["),
                names.clone(),
                "]",
            ),
            ServiceMonitorError::StateParseError(state) => (
                String::from_str("Couldn't parse '"),
                state.clone(),
                "' into a state enum",
            ),
            ServiceMonitorError::ZbusError(e) => (
                String::from_str("D-Bus error ("),
                dbus_error_text(e),
                ")",
            ),
        };
        res.append(inner.as_str());
        res.append(close);
        res
    }
}

/// One unit as systemd lists it: its name and the names of its LOAD, ACTIVE and SUB states.
pub struct UnitRow {
    pub name: String,
    pub load_state: String,
    pub active_state: String,
    pub sub_state: String,
}

/// The states a unit row names, or the first name in it that names no state
/// (LOAD first, then ACTIVE, then SUB).
pub open spec fn parse_row(row: UnitRow) -> Result<UnitStatus, Seq<char>> {
    match UnitLoadState::parse_spec(row.load_state@) {
        None => Err(row.load_state@),
        Some(load) => match UnitActiveState::parse_spec(row.active_state@) {
            None => Err(row.active_state@),
            Some(active) => match UnitActiveSubState::parse_spec(row.sub_state@) {
                None => Err(row.sub_state@),
                Some(sub) => Ok((load, active, sub)),
            },
        },
    }
}

/// The statuses of a list of unit rows, a later row of a name replacing an
/// earlier one; or the first state name, in row order, that names no state.
pub open spec fn statuses_of(rows: Seq<UnitRow>) -> Result<Map<Seq<char>, UnitStatus>, Seq<char>>
    decreases rows.len(),
{
    if rows.len() == 0 {
        Ok(Map::empty())
    } else {
        match statuses_of(rows.drop_last()) {
            Err(e) => Err(e),
            Ok(m) => match parse_row(rows.last()) {
                Err(e) => Err(e),
                Ok(status) => Ok(m.insert(rows.last().name@, status)),
            },
        }
    }
}

/// The unit names of the unit files systemd lists as (path, state) pairs:
/// what follows the last `/` of each path, in list order.
pub open spec fn unit_names(unit_files: Seq<(String, String)>) -> Seq<Seq<char>> {
    unit_files.map_values(|f: (String, String)| file_name(f.0@))
}

/// The services that systemd watches for this program.
pub struct ServiceMonitorInterface {
    monitored_services: Vec<String>,
}

impl ServiceMonitorInterface {
    /// The names of the watched services, in the order they were asked for.
    pub closed spec fn services(self) -> Seq<Seq<char>> {
        views(self.monitored_services@)
    }

    /// The unit names of the unit files systemd lists as (path, state) pairs.
    pub fn unit_file_names(unit_files: &Vec<(String, String)>) -> (res: Vec<String>)
        ensures
            views(res@) == unit_names(unit_files@),
    {
        let mut res: Vec<String> = Vec::new();
        let mut i: usize = 0;
        while i < unit_files.len()
            invariant
                i <= unit_files.len(),
                res@.len() == i,
                forall|j: int| 0 <= j < i ==> (#[trigger] res@[j])@ == file_name(unit_files@[j].0@),
            decreases unit_files.len() - i,
        {
            res.push(file_name_of(unit_files[i].0.as_str()));
            i = i + 1;
        }
        assert(views(res@) =~= unit_names(unit_files@));
        res
    }

    /// The asked-for names that no listed unit file has, each once, in ascending order.
    pub fn disjoint_from_unit_file_names(
        unit_files: &Vec<(String, String)>,
        query_names: &Vec<String>,
    ) -> (res: Vec<String>)
        ensures
            strictly_sorted(views(res@)),
            forall|k: Seq<char>|
                #[trigger] views(res@).contains(k) <==> (views(query_names@).contains(k)
                    && !unit_names(unit_files@).contains(k)),
    {
        let names = Self::unit_file_names(unit_files);
        let mut res: Vec<String> = Vec::new();
        let mut i: usize = 0;
        while i < query_names.len()
            invariant
                i <= query_names.len(),
                views(names@) == unit_names(unit_files@),
                strictly_sorted(views(res@)),
                forall|k: Seq<char>|
                    #[trigger] views(res@).contains(k) <==> (views(query_names@).take(
                        i as int,
                    ).contains(k) && !unit_names(unit_files@).contains(k)),
            decreases query_names.len() - i,
        {
            let ghost before = views(query_names@).take(i as int);
            let ghost after = views(query_names@).take(i + 1);
            assert(after =~= before.push(views(query_names@)[i as int]));
            assert forall|k: Seq<char>| #[trigger] after.contains(k) <==> (before.contains(k) || k
                == views(query_names@)[i as int]) by {
                if after.contains(k) {
                    let j = choose|j: int| 0 <= j < after.len() && after[j] == k;
                    if j < i {
                        assert(before[j] == k);
                    }
                }
                if before.contains(k) {
                    let j = choose|j: int| 0 <= j < before.len() && before[j] == k;
                    assert(after[j] == k);
                }
                if k == views(query_names@)[i as int] {
                    assert(after[i as int] == k);
                }
            }
            if !contains_str(&names, query_names[i].as_str()) {
                insert_sorted(&mut res, query_names[i].clone());
            }
            i = i + 1;
        }
        assert(views(query_names@).take(query_names.len() as int) =~= views(query_names@));
        res
    }

    /// Starts watching `services_to_monitor`, given the unit files systemd
    /// lists as (path, state) pairs. Fails with `InvalidServiceName` when a
    /// service has no unit file; it names those services, sorted, each once,
    /// joined by `", "`.
    pub fn new(services_to_monitor: &Vec<String>, unit_files: &Vec<(String, String)>) -> (res:
        Result<Self, ServiceMonitorError>)
        ensures
            (forall|k: Seq<char>|
                #[trigger] views(services_to_monitor@).contains(k) ==> unit_names(
                    unit_files@,
                ).contains(k)) ==> (res matches Ok(m) && m.services() == views(
                services_to_monitor@,
            )),
            !(forall|k: Seq<char>|
                #[trigger] views(services_to_monitor@).contains(k) ==> unit_names(
                    unit_files@,
                ).contains(k)) ==> (res matches Err(ServiceMonitorError::InvalidServiceName(
                names,
            )) && exists|invalid: Seq<Seq<char>>|
                {
                    &&& strictly_sorted(invalid)
                    &&& forall|k: Seq<char>|
                        #[trigger] invalid.contains(k) <==> (views(services_to_monitor@).contains(k)
                            && !unit_names(unit_files@).contains(k))
                    &&& names@ == seq_join(invalid, ", "@)
                }),
    {
        let invalid_services = Self::disjoint_from_unit_file_names(unit_files, services_to_monitor);
        if invalid_services.len() != 0 {
            proof {
                let k = views(invalid_services@)[0];
                assert(views(invalid_services@).contains(k));
            }
            return Err(ServiceMonitorError::InvalidServiceName(join(&invalid_services, ", ")));
        }
        proof {
            assert forall|k: Seq<char>|
                #[trigger] views(services_to_monitor@).contains(k) implies unit_names(
                unit_files@,
            ).contains(k) by {
                if !unit_names(unit_files@).contains(k) {
                    assert(views(invalid_services@).contains(k));
                }
            }
        }
        Ok(ServiceMonitorInterface { monitored_services: copy_strings(services_to_monitor) })
    }

    /// The names of the watched services, in the order they were asked for.
    pub fn monitored_services(&self) -> (res: &Vec<String>)
        ensures
            views(res@) == self.services(),
    {
        &self.monitored_services
    }

    /// The statuses of the units systemd listed, by unit name; fails with
    /// `StateParseError` on the first state name that names no state.
    pub fn get_service_statuses(units: &Vec<UnitRow>) -> (res: Result<
        ServiceStatuses,
        ServiceMonitorError,
    >)
        ensures
            match res {
                Ok(statuses) => statuses_of(units@) == Ok::<_, Seq<char>>(statuses@),
                Err(e) => e matches ServiceMonitorError::StateParseError(name) && statuses_of(
                    units@,
                ) == Err::<Map<Seq<char>, UnitStatus>, _>(name@),
            },
    {
        let mut statuses = ServiceStatuses::new();
        let mut i: usize = 0;
        while i < units.len()
            invariant
                i <= units.len(),
                statuses_of(units@.take(i as int)) == Ok::<_, Seq<char>>(statuses@),
            decreases units.len() - i,
        {
            let row = &units[i];
            proof {
                assert(units@.take(i + 1).drop_last() =~= units@.take(i as int));
                assert(units@.take(i + 1).last() == units@[i as int]);
                lemma_statuses_of_prefix_error(units@, i + 1);
            }
            let load = match UnitLoadState::from_str(row.load_state.as_str()) {
                Some(load) => load,
                None => {
                    return Err(ServiceMonitorError::StateParseError(row.load_state.clone()));
                },
            };
            let active = match UnitActiveState::from_str(row.active_state.as_str()) {
                Some(active) => active,
                None => {
                    return Err(ServiceMonitorError::StateParseError(row.active_state.clone()));
                },
            };
            let sub = match UnitActiveSubState::from_str(row.sub_state.as_str()) {
                Some(sub) => sub,
                None => {
                    return Err(ServiceMonitorError::StateParseError(row.sub_state.clone()));
                },
            };
            statuses.insert(row.name.clone(), (load, active, sub));
            i = i + 1;
        }
        assert(units@.take(units.len() as int) =~= units@);
        Ok(statuses)
    }
}

/// The statuses come out when every row's states are readable, and then
/// hold exactly the rows' names, each with the states of its last row;
/// otherwise the error is the first unreadable state name of the first row
/// that has one.
pub proof fn lemma_statuses_of(rows: Seq<UnitRow>)
    ensures
        statuses_of(rows) is Ok <==> forall|i: int| 0 <= i < rows.len() ==> #[trigger] parse_row(rows[i]) is Ok,
        statuses_of(rows) matches Ok(m) ==> {
            &&& forall|k: Seq<char>| #[trigger] m.contains_key(k) <==> exists|i: int| 0 <= i < rows.len() && #[trigger] rows[i].name@ == k
            &&& forall|i: int| 0 <= i < rows.len() && (forall|j: int| i < j < rows.len() ==> #[trigger] rows[j].name@ != rows[i].name@)
                ==> m[#[trigger] rows[i].name@] == parse_row(rows[i])->Ok_0
        },
        statuses_of(rows) matches Err(e) ==> exists|i: int| 0 <= i < rows.len() && #[trigger] parse_row(rows[i]) == Err::<UnitStatus, Seq<char>>(e)
            && forall|j: int| 0 <= j < i ==> #[trigger] parse_row(rows[j]) is Ok,
    decreases rows.len(),
{
    if rows.len() > 0 {
        let rest = rows.drop_last();
        let last = rows.last();
        let n = rows.len() - 1;
        lemma_statuses_of(rest);
        assert forall|i: int| 0 <= i < rest.len() implies #[trigger] rest[i] == rows[i] by {}
        match statuses_of(rest) {
            Err(e) => {
                let i = choose|i: int| 0 <= i < rest.len() && #[trigger] parse_row(rest[i]) == Err::<UnitStatus, Seq<char>>(e)
                    && forall|j: int| 0 <= j < i ==> #[trigger] parse_row(rest[j]) is Ok;
                assert(parse_row(rows[i]) == Err::<UnitStatus, Seq<char>>(e));
                assert forall|j: int| 0 <= j < i implies #[trigger] parse_row(rows[j]) is Ok by {
                    assert(parse_row(rest[j]) is Ok);
                }
            },
            Ok(m) => {
                assert(rows[n] == last);
                match parse_row(last) {
                    Err(e) => {
                        assert forall|j: int| 0 <= j < n implies #[trigger] parse_row(rows[j]) is Ok by {
                            assert(parse_row(rest[j]) is Ok);
                        }
                    },
                    Ok(status) => {
                        let m2 = m.insert(last.name@, status);
                        assert forall|i: int| 0 <= i < rows.len() implies #[trigger] parse_row(rows[i]) is Ok by {
                            if i < n {
                                assert(parse_row(rest[i]) is Ok);
                            }
                        }
                        assert forall|k: Seq<char>| #[trigger] m2.contains_key(k) <==> exists|i: int| 0 <= i < rows.len() && #[trigger] rows[i].name@ == k by {
                            if m.contains_key(k) {
                                let i = choose|i: int| 0 <= i < rest.len() && #[trigger] rest[i].name@ == k;
                                assert(rows[i].name@ == k);
                            }
                            if k == last.name@ {
                                assert(rows[n].name@ == k);
                            }
                            if exists|i: int| 0 <= i < rows.len() && #[trigger] rows[i].name@ == k {
                                let i = choose|i: int| 0 <= i < rows.len() && #[trigger] rows[i].name@ == k;
                                if i < n {
                                    assert(rest[i].name@ == k);
                                }
                            }
                        }
                        assert forall|i: int| 0 <= i < rows.len() && (forall|j: int| i < j < rows.len() ==> #[trigger] rows[j].name@ != rows[i].name@)
                            implies m2[#[trigger] rows[i].name@] == parse_row(rows[i])->Ok_0 by {
                            if i < n {
                                assert(rows[n].name@ != rows[i].name@);
                                assert forall|j: int| i < j < rest.len() implies #[trigger] rest[j].name@ != rest[i].name@ by {
                                    assert(rows[j].name@ != rows[i].name@);
                                }
                                assert(m[rest[i].name@] == parse_row(rest[i])->Ok_0);
                            }
                        }
                    },
                }
            },
        }
    }
}

/// A row is read field by field: its status is the LOAD state its load text
/// names, the ACTIVE state its active text names and the SUB state its sub
/// text names; it is unreadable exactly when one of the three names no state,
/// and then the error is the first such text, in the order load, active, sub.
pub proof fn lemma_row_fields(row: UnitRow)
    ensures
        parse_row(row) is Ok <==> (UnitLoadState::parse_spec(row.load_state@) is Some
            && UnitActiveState::parse_spec(row.active_state@) is Some
            && UnitActiveSubState::parse_spec(row.sub_state@) is Some),
        parse_row(row) is Ok ==> parse_row(row)->Ok_0 == (
            UnitLoadState::parse_spec(row.load_state@)->Some_0,
            UnitActiveState::parse_spec(row.active_state@)->Some_0,
            UnitActiveSubState::parse_spec(row.sub_state@)->Some_0,
        ),
        UnitLoadState::parse_spec(row.load_state@) is None ==> parse_row(row) == Err::<UnitStatus, Seq<char>>(row.load_state@),
        UnitLoadState::parse_spec(row.load_state@) is Some && UnitActiveState::parse_spec(row.active_state@) is None
            ==> parse_row(row) == Err::<UnitStatus, Seq<char>>(row.active_state@),
        UnitLoadState::parse_spec(row.load_state@) is Some && UnitActiveState::parse_spec(row.active_state@) is Some
            && UnitActiveSubState::parse_spec(row.sub_state@) is None
            ==> parse_row(row) == Err::<UnitStatus, Seq<char>>(row.sub_state@),
{
}

/// The status recorded for a name whose last row is readable is that row's
/// three states, each read from its own text.
pub proof fn lemma_statuses_of_fields(rows: Seq<UnitRow>, i: int)
    requires
        0 <= i < rows.len(),
        forall|j: int| i < j < rows.len() ==> #[trigger] rows[j].name@ != rows[i].name@,
        statuses_of(rows) is Ok,
    ensures
        statuses_of(rows)->Ok_0.contains_key(rows[i].name@),
        statuses_of(rows)->Ok_0[rows[i].name@] == (
            UnitLoadState::parse_spec(rows[i].load_state@)->Some_0,
            UnitActiveState::parse_spec(rows[i].active_state@)->Some_0,
            UnitActiveSubState::parse_spec(rows[i].sub_state@)->Some_0,
        ),
{
    lemma_statuses_of(rows);
    assert(parse_row(rows[i]) is Ok);
    lemma_row_fields(rows[i]);
}

/// Once the rows up to some point hold an unreadable state, so do all the rows.
proof fn lemma_statuses_of_prefix_error(rows: Seq<UnitRow>, n: int)
    requires
        0 <= n <= rows.len(),
    ensures
        statuses_of(rows.take(n)) is Err ==> statuses_of(rows) == statuses_of(rows.take(n)),
    decreases rows.len() - n,
{
    if n < rows.len() {
        lemma_statuses_of_prefix_error(rows, n + 1);
        assert(rows.take(n + 1).drop_last() =~= rows.take(n));
    } else {
        assert(rows.take(n) =~= rows);
    }
}

} // verus!
