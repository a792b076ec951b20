//! The unit-tracking state of the service-manager watcher: which units are
//! known under which bus path, and the per-unit state snapshot the source
//! emits. The bus itself is driven outside the core; it hands names, paths
//! and fetched statuses in, and takes snapshot updates out.
use vstd::prelude::*;

use crate::monitor::Data;
use crate::monitor::DataRep;
use crate::monitor::Status;
use crate::monitor::StatusMap;
use crate::monitor::StatusRep;
use crate::monitor::Time;
use crate::monitor::Update;
use crate::monitor::UpdateScope;
use crate::strutil::str_eq;
use crate::value::distinct_keys;
use crate::value::lemma_map_bind;
use crate::value::lemma_map_drop;
use crate::value::lemma_map_find_witness;
use crate::value::lemma_map_key_index;
use crate::value::map_bind;
use crate::value::map_drop;
use crate::value::map_find;
use crate::value::map_key_index;

verus! {

/// Tracks the units the watcher knows: bus path to unit name, and unit
/// name to its latest status.
pub struct UnitTracker {
    units: Vec<(String, String)>,
    state: StatusMap,
}

impl UnitTracker {
    /// Bus path to unit name.
    pub closed spec fn units_rep(&self) -> Seq<(Seq<char>, Seq<char>)> {
        Seq::new(self.units@.len(), |i: int| (self.units@[i].0@, self.units@[i].1@))
    }

    /// Unit name to latest status.
    pub closed spec fn state_rep(&self) -> Seq<(Seq<char>, StatusRep)> {
        self.state@
    }

    /// Paths and names are distinct.
    pub open spec fn wf(&self) -> bool {
        distinct_keys(self.units_rep()) && distinct_keys(self.state_rep())
    }

    /// An empty tracker.
    pub fn new() -> (r: UnitTracker)
        ensures
            r.wf(),
            r.units_rep() =~= Seq::<(Seq<char>, Seq<char>)>::empty(),
            r.state_rep() =~= Seq::<(Seq<char>, StatusRep)>::empty(),
    {
        UnitTracker { units: Vec::new(), state: StatusMap::new() }
    }

    /// The position of `path`, if known.
    fn find_path(&self, path: &str) -> (r: Option<usize>)
        ensures
            match r {
                Some(i) => map_key_index(self.units_rep(), path@) == i as int && i
                    < self.units_rep().len(),
                None => map_key_index(self.units_rep(), path@) == -1,
            },
    {
        let n = self.units.len();
        let mut i: usize = 0;
        while i < n
            invariant
                i <= n,
                n == self.units_rep().len(),
                n == self.units@.len(),
                forall|j: int| 0 <= j < i ==> self.units_rep()[j].0 != path@,
                forall|j: int| 0 <= j < n ==> self.units_rep()[j] == (
                    self.units@[j].0@,
                    self.units@[j].1@,
                ),
            decreases n - i,
        {
            if str_eq(self.units[i].0.as_str(), path) {
                proof {
                    lemma_map_find_witness(self.units_rep(), path@, i as int);
                }
                return Some(i);
            }
            i += 1;
        }
        proof {
            lemma_map_key_index(self.units_rep(), path@);
            if map_key_index(self.units_rep(), path@) != -1 {
                let r = map_key_index(self.units_rep(), path@);
                assert(self.units_rep()[r].0 != path@);
                assert(false);
            }
        }
        None
    }

    /// Whether `path` is already tracked.
    pub fn knows_path(&self, path: &str) -> (r: bool)
        ensures
            r == (map_find(self.units_rep(), path@) is Some),
    {
        proof {
            lemma_map_key_index(self.units_rep(), path@);
        }
        match self.find_path(path) {
            Some(_) => true,
            None => false,
        }
    }

    /// Start tracking a unit under its bus path with a first status; an
    /// already-known path is left as it is.
    pub fn add_unit(&mut self, name: &str, path: &str, status: Status) -> (r: bool)
        requires
            old(self).wf(),
        ensures
            final(self).wf(),
            map_find(old(self).units_rep(), path@) is Some ==> !r && final(self).units_rep()
                == old(self).units_rep() && final(self).state_rep() == old(self).state_rep(),
            map_find(old(self).units_rep(), path@) is None ==> r && final(self).units_rep()
                == old(self).units_rep().push((path@, name@)) && final(self).state_rep()
                == map_bind(old(self).state_rep(), name@, status@),
    {
        proof {
            lemma_map_key_index(self.units_rep(), path@);
            lemma_map_bind(old(self).state_rep(), name@, status@);
        }
        match self.find_path(path) {
            Some(_) => false,
            None => {
                self.units.push((path.to_owned(), name.to_owned()));
                self.state.insert(name.to_owned(), status);
                proof {
                    assert(self.units_rep() =~= old(self).units_rep().push((path@, name@)));
                    assert forall|p: int, q: int|
                        0 <= p < q < self.units_rep().len() implies self.units_rep()[p].0
                        != self.units_rep()[q].0 by {
                        if q < self.units_rep().len() - 1 {
                            assert(old(self).units_rep()[p].0 != old(self).units_rep()[q].0);
                        } else {
                            lemma_map_key_index(old(self).units_rep(), path@);
                        }
                    }
                }
                true
            },
        }
    }

    /// Stop tracking the unit under `path`, dropping its status; an unknown
    /// path changes nothing.
    pub fn remove_unit(&mut self, path: &str) -> (r: Option<String>)
        requires
            old(self).wf(),
        ensures
            final(self).wf(),
            map_find(old(self).units_rep(), path@) is None ==> r is None && final(self).units_rep() == old(self).units_rep() && final(self).state_rep() == old(
                self,
            ).state_rep(),
            map_find(old(self).units_rep(), path@) matches Some(name) ==> (r matches Some(n)
                && n@ == name && final(self).units_rep() == map_drop(old(self).units_rep(), path@)
                && final(self).state_rep() == map_drop(old(self).state_rep(), name)),
    {
        proof {
            lemma_map_key_index(self.units_rep(), path@);
            lemma_map_drop(old(self).units_rep(), path@);
        }
        match self.find_path(path) {
            None => None,
            Some(i) => {
                let entry = self.units.remove(i);
                proof {
                    assert(self.units_rep() =~= map_drop(old(self).units_rep(), path@));
                }
                let name = entry.1;
                self.state.remove(name.as_str());
                Some(name)
            },
        }
    }

    /// The name of the unit under `path`, if known.
    pub fn name_of(&self, path: &str) -> (r: Option<String>)
        ensures
            match r {
                Some(n) => map_find(self.units_rep(), path@) == Some(n@),
                None => map_find(self.units_rep(), path@) is None,
            },
    {
        proof {
            lemma_map_key_index(self.units_rep(), path@);
        }
        match self.find_path(path) {
            Some(i) => Some(self.units[i].1.clone()),
            None => None,
        }
    }

    /// Record a fresh status for the unit under `path`; an unknown path
    /// changes nothing.
    pub fn unit_changed(&mut self, path: &str, status: Status) -> (r: bool)
        requires
            old(self).wf(),
        ensures
            final(self).wf(),
            final(self).units_rep() == old(self).units_rep(),
            map_find(old(self).units_rep(), path@) is None ==> !r && final(self).state_rep()
                == old(self).state_rep(),
            map_find(old(self).units_rep(), path@) matches Some(name) ==> r && final(self).state_rep() == map_bind(old(self).state_rep(), name, status@),
    {
        proof {
            lemma_map_key_index(self.units_rep(), path@);
        }
        match self.find_path(path) {
            None => false,
            Some(i) => {
                let name = self.units[i].1.clone();
                self.state.insert(name, status);
                true
            },
        }
    }

    /// The snapshot-scoped update carrying the whole tracked state,
    /// attributed to the source.
    pub fn snapshot_update(&self, id: &str, time: Time) -> (r: Update)
        ensures
            r@.source == id@,
            r@.typ == "systemd"@,
            r@.scope == UpdateScope::Snapshot,
            r@.time == time,
            r@.data matches DataRep::State(m) && m == self.state_rep(),
    {
        Update {
            source: id.to_owned(),
            typ: "systemd".to_owned(),
            scope: UpdateScope::Snapshot,
            time,
            data: Data::State(self.state.clone()),
        }
    }
}

} // verus!
