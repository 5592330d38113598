use vstd::prelude::*;

use crate::text::{
    lemma_lt_irreflexive, seq_lt, sorted_position, strictly_sorted, views,
};
use crate::unit::{UnitActiveState, UnitActiveSubState, UnitLoadState};

verus! {

/// The port the status server listens on unless told otherwise.
pub const DEFAULT_SERVER_PORT: u16 = 8910;

/// The path under which the status server answers.
pub const SERVER_ENDPOINT: &'static str = "/api";

/// The LOAD, ACTIVE and SUB states of one unit.
pub type UnitStatus = (UnitLoadState, UnitActiveState, UnitActiveSubState);

/// A list of named entries whose names stand in strictly ascending order.
pub open spec fn sorted_by_name<V>(entries: Seq<(Seq<char>, V)>) -> bool {
    forall|i: int, j: int|
        0 <= i < j < entries.len() ==> seq_lt(#[trigger] entries[i].0, #[trigger] entries[j].0)
}

/// A position of an entry named `k`.
pub open spec fn position_of<V>(entries: Seq<(Seq<char>, V)>, k: Seq<char>) -> int {
    choose|i: int| 0 <= i < entries.len() && #[trigger] entries[i].0 == k
}

/// The map that a list of named entries with distinct names stands for.
pub open spec fn map_of<V>(entries: Seq<(Seq<char>, V)>) -> Map<Seq<char>, V> {
    Map::new(
        |k: Seq<char>| exists|i: int| 0 <= i < entries.len() && #[trigger] entries[i].0 == k,
        |k: Seq<char>| entries[position_of(entries, k)].1,
    )
}

/// In a list sorted by name, each entry is the map's value for its name.
pub proof fn lemma_map_of_at<V>(entries: Seq<(Seq<char>, V)>, i: int)
    requires
        sorted_by_name(entries),
        0 <= i < entries.len(),
    ensures
        map_of(entries).contains_key(entries[i].0),
        map_of(entries)[entries[i].0] == entries[i].1,
{
    let k = entries[i].0;
    assert(exists|j: int| 0 <= j < entries.len() && #[trigger] entries[j].0 == k);
    let j = position_of(entries, k);
    if j != i {
        lemma_lt_irreflexive(k);
        if j < i {
            assert(seq_lt(entries[j].0, entries[i].0));
        } else {
            assert(seq_lt(entries[i].0, entries[j].0));
        }
    }
    assert(map_of(entries).dom().contains(k));
    assert(map_of(entries)[k] == entries[j].1);
}

/// Putting a new name into its place in a sorted list adds it to the map.
proof fn lemma_map_of_insert_at<V>(entries: Seq<(Seq<char>, V)>, p: int, k: Seq<char>, v: V)
    requires
        sorted_by_name(entries),
        sorted_by_name(entries.insert(p, (k, v))),
        0 <= p <= entries.len(),
        !map_of(entries).contains_key(k),
    ensures
        map_of(entries.insert(p, (k, v))) == map_of(entries).insert(k, v),
{
    let e2 = entries.insert(p, (k, v));
    let m = map_of(entries).insert(k, v);
    assert forall|key: Seq<char>| #[trigger] map_of(e2).contains_key(key) <==> m.contains_key(key) by {
        if map_of(e2).contains_key(key) {
            let j = choose|j: int| 0 <= j < e2.len() && #[trigger] e2[j].0 == key;
            if j < p {
                assert(entries[j].0 == key);
            } else if j > p {
                assert(entries[j - 1].0 == key);
            }
        }
        if map_of(entries).contains_key(key) {
            let j = choose|j: int| 0 <= j < entries.len() && #[trigger] entries[j].0 == key;
            if j < p {
                assert(e2[j].0 == key);
            } else {
                assert(e2[j + 1].0 == key);
            }
        }
        if key == k {
            assert(e2[p].0 == key);
        }
    }
    assert forall|key: Seq<char>| #[trigger] map_of(e2).contains_key(key) implies map_of(e2)[key]
        == m[key] by {
        let j = choose|j: int| 0 <= j < e2.len() && #[trigger] e2[j].0 == key;
        lemma_map_of_at(e2, j);
        if j < p {
            lemma_map_of_at(entries, j);
        } else if j > p {
            lemma_map_of_at(entries, j - 1);
        }
    }
    assert(map_of(e2) =~= m);
}

/// Replacing the value of an entry in a sorted list replaces it in the map.
proof fn lemma_map_of_update<V>(entries: Seq<(Seq<char>, V)>, p: int, v: V)
    requires
        sorted_by_name(entries),
        0 <= p < entries.len(),
    ensures
        sorted_by_name(entries.update(p, (entries[p].0, v))),
        map_of(entries.update(p, (entries[p].0, v))) == map_of(entries).insert(entries[p].0, v),
{
    let k = entries[p].0;
    let e2 = entries.update(p, (k, v));
    let m = map_of(entries).insert(k, v);
    assert forall|i: int, j: int| 0 <= i < j < e2.len() implies seq_lt(
        #[trigger] e2[i].0,
        #[trigger] e2[j].0,
    ) by {
        assert(e2[i].0 == entries[i].0 && e2[j].0 == entries[j].0);
    }
    assert forall|key: Seq<char>| #[trigger] map_of(e2).contains_key(key) <==> m.contains_key(key) by {
        if map_of(e2).contains_key(key) {
            let j = choose|j: int| 0 <= j < e2.len() && #[trigger] e2[j].0 == key;
            assert(entries[j].0 == key);
        }
        if map_of(entries).contains_key(key) {
            let j = choose|j: int| 0 <= j < entries.len() && #[trigger] entries[j].0 == key;
            assert(e2[j].0 == key);
        }
        if key == k {
            assert(e2[p].0 == key);
        }
    }
    assert forall|key: Seq<char>| #[trigger] map_of(e2).contains_key(key) implies map_of(e2)[key]
        == m[key] by {
        let j = choose|j: int| 0 <= j < e2.len() && #[trigger] e2[j].0 == key;
        lemma_map_of_at(e2, j);
        if j != p {
            lemma_map_of_at(entries, j);
            lemma_lt_irreflexive(k);
            if j < p {
                assert(seq_lt(entries[j].0, entries[p].0));
            } else {
                assert(seq_lt(entries[p].0, entries[j].0));
            }
        }
    }
    assert(map_of(e2) =~= m);
}

/// The map of a sorted list has exactly as many names as the list has entries.
pub proof fn lemma_map_of_len<V>(entries: Seq<(Seq<char>, V)>)
    requires
        sorted_by_name(entries),
    ensures
        map_of(entries).dom().finite(),
        map_of(entries).dom().len() == entries.len(),
{
    let names = entries.map_values(|e: (Seq<char>, V)| e.0);
    assert forall|i: int, j: int| 0 <= i < names.len() && 0 <= j < names.len() && i != j
        implies names[i] != names[j] by {
        lemma_lt_irreflexive(names[i]);
        if i < j {
            assert(seq_lt(entries[i].0, entries[j].0));
        } else {
            assert(seq_lt(entries[j].0, entries[i].0));
        }
    }
    assert(names.no_duplicates());
    names.unique_seq_to_set();
    assert forall|k: Seq<char>| #[trigger] map_of(entries).dom().contains(k) <==> names.to_set().contains(k) by {
        if map_of(entries).dom().contains(k) {
            let j = choose|j: int| 0 <= j < entries.len() && #[trigger] entries[j].0 == k;
            assert(names[j] == k);
        }
        if names.to_set().contains(k) {
            let j = choose|j: int| 0 <= j < names.len() && names[j] == k;
            assert(entries[j].0 == k);
        }
    }
    assert(map_of(entries).dom() =~= names.to_set());
}

/// The statuses of the monitored services, by service name, as the server
/// reports them. Names are kept in ascending order, each at most once.
pub struct ServiceStatuses {
    names: Vec<String>,
    states: Vec<UnitStatus>,
}

impl ServiceStatuses {
    /// The entries, in ascending order of name.
    pub closed spec fn entries(self) -> Seq<(Seq<char>, UnitStatus)> {
        Seq::new(self.names@.len(), |i: int| (self.names@[i]@, self.states@[i]))
    }

    #[verifier::type_invariant]
    spec fn names_sorted(self) -> bool {
        &&& self.names@.len() == self.states@.len()
        &&& strictly_sorted(views(self.names@))
    }

    proof fn lemma_entries(self)
        requires
            self.names_sorted(),
        ensures
            sorted_by_name(self.entries()),
            self.entries().len() == self.names@.len(),
            forall|i: int| 0 <= i < self.names@.len() ==> #[trigger] self.entries()[i] == (
            views(self.names@)[i], self.states@[i]),
    {
        let e = self.entries();
        let ks = views(self.names@);
        assert forall|i: int, j: int| 0 <= i < j < e.len() implies seq_lt(
            #[trigger] e[i].0,
            #[trigger] e[j].0,
        ) by {
            assert(e[i].0 == ks[i] && e[j].0 == ks[j]);
        }
    }

    /// An empty map.
    pub fn new() -> (res: Self)
        ensures
            res@ == Map::<Seq<char>, UnitStatus>::empty(),
            res.entries().len() == 0,
    {
        let res = ServiceStatuses { names: Vec::new(), states: Vec::new() };
        assert(res@ =~= Map::<Seq<char>, UnitStatus>::empty());
        res
    }

    /// The status recorded for `name`, if any.
    pub fn get(&self, name: &str) -> (res: Option<UnitStatus>)
        ensures
            res == (if self@.contains_key(name@) {
                Some(self@[name@])
            } else {
                None
            }),
    {
        proof {
            use_type_invariant(self);
            self.lemma_entries();
        }
        let (p, found) = sorted_position(&self.names, name);
        if found {
            proof {
                lemma_map_of_at(self.entries(), p as int);
            }
            Some(self.states[p])
        } else {
            proof {
                if self@.contains_key(name@) {
                    let j = choose|j: int|
                        0 <= j < self.entries().len() && #[trigger] self.entries()[j].0 == name@;
                    assert(views(self.names@)[j] == name@);
                }
            }
            None
        }
    }

    /// Records `status` for `name`, replacing what was recorded for it, and
    /// returns what was recorded for it before.
    pub fn insert(&mut self, name: String, status: UnitStatus) -> (res: Option<UnitStatus>)
        ensures
            final(self)@ == old(self)@.insert(name@, status),
            res == (if old(self)@.contains_key(name@) {
                Some(old(self)@[name@])
            } else {
                None
            }),
    {
        proof {
            use_type_invariant(&*self);
            self.lemma_entries();
        }
        let ghost e = self.entries();
        let (p, found) = sorted_position(&self.names, name.as_str());
        let mut taken = ServiceStatuses::new();
        std::mem::swap(&mut taken, self);
        proof {
            use_type_invariant(&taken);
        }
        let ServiceStatuses { mut names, mut states } = taken;
        let ghost ks = views(names@);
        if found {
            let previous = states[p];
            states.set(p, status);
            let ghost e2 = Seq::new(names@.len(), |i: int| (names@[i]@, states@[i]));
            proof {
                lemma_map_of_at(e, p as int);
                assert(e2 =~= e.update(p as int, (e[p as int].0, status)));
                lemma_map_of_update(e, p as int, status);
            }
            *self = ServiceStatuses { names, states };
            Some(previous)
        } else {
            names.insert(p, name);
            states.insert(p, status);
            let ghost e2 = Seq::new(names@.len(), |i: int| (names@[i]@, states@[i]));
            proof {
                assert(e2 =~= e.insert(p as int, (name@, status)));
                assert(views(names@) =~= ks.insert(p as int, name@));
                assert forall|i: int, j: int| 0 <= i < j < e2.len() implies seq_lt(
                    #[trigger] e2[i].0,
                    #[trigger] e2[j].0,
                ) by {
                    if j < p {
                        assert(seq_lt(ks[i], ks[j]));
                    } else if j == p {
                        assert(seq_lt(ks[i], name@));
                    } else if i < p {
                        assert(seq_lt(ks[i], ks[j - 1]));
                    } else if i == p {
                        assert(seq_lt(name@, ks[j - 1]));
                    } else {
                        assert(seq_lt(ks[i - 1], ks[j - 1]));
                    }
                }
                assert forall|i: int, j: int| 0 <= i < j < views(names@).len() implies seq_lt(
                    #[trigger] views(names@)[i],
                    #[trigger] views(names@)[j],
                ) by {
                    assert(views(names@)[i] == e2[i].0 && views(names@)[j] == e2[j].0);
                }
                if map_of(e).contains_key(name@) {
                    let j = choose|j: int| 0 <= j < e.len() && #[trigger] e[j].0 == name@;
                    assert(ks[j] == name@);
                }
                lemma_map_of_insert_at(e, p as int, name@, status);
            }
            *self = ServiceStatuses { names, states };
            None
        }
    }

    /// The number of services recorded.
    pub fn len(&self) -> (res: usize)
        ensures
            res == self@.len(),
            res == self.entries().len(),
    {
        proof {
            use_type_invariant(self);
            self.lemma_entries();
            lemma_map_of_len(self.entries());
        }
        self.names.len()
    }

    /// Whether no service is recorded.
    pub fn is_empty(&self) -> (res: bool)
        ensures
            res == (self@.len() == 0),
    {
        self.len() == 0
    }

    /// The recorded services and their statuses, in ascending order of name.
    pub fn entries_vec(&self) -> (res: Vec<(String, UnitStatus)>)
        ensures
            res@.map_values(|e: (String, UnitStatus)| (e.0@, e.1)) == self.entries(),
            sorted_by_name(self.entries()),
            self@ == map_of(self.entries()),
    {
        proof {
            use_type_invariant(self);
            self.lemma_entries();
        }
        let mut res: Vec<(String, UnitStatus)> = Vec::new();
        let mut i: usize = 0;
        while i < self.names.len()
            invariant
                self.names_sorted(),
                i <= self.names@.len(),
                res@.len() == i,
                forall|j: int| 0 <= j < i ==> (#[trigger] res@[j]).0@ == self.names@[j]@ && res@[j].1
                    == self.states@[j],
            decreases self.names@.len() - i,
        {
            res.push((self.names[i].clone(), self.states[i]));
            i = i + 1;
        }
        assert(res@.map_values(|e: (String, UnitStatus)| (e.0@, e.1)) =~= self.entries());
        res
    }
}


impl View for ServiceStatuses {
    type V = Map<Seq<char>, UnitStatus>;

    open spec fn view(&self) -> Map<Seq<char>, UnitStatus> {
        map_of(self.entries())
    }
}

/// What is written for a name is what is read back for it; every other name
/// keeps what it had; the number of names grows by one exactly when the name
/// is new.
pub proof fn lemma_read_after_write(
    before: Map<Seq<char>, UnitStatus>,
    name: Seq<char>,
    status: UnitStatus,
    other: Seq<char>,
)
    requires
        before.dom().finite(),
    ensures
        before.insert(name, status).contains_key(name),
        before.insert(name, status)[name] == status,
        other != name ==> (before.insert(name, status).contains_key(other) == before.contains_key(
            other,
        )),
        other != name && before.contains_key(other) ==> before.insert(name, status)[other]
            == before[other],
        before.insert(name, status).len() == if before.contains_key(name) {
            before.len()
        } else {
            before.len() + 1
        },
{
    if before.contains_key(name) {
        assert(before.insert(name, status).dom() =~= before.dom());
    }
}

} // verus!
