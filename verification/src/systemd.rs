//! The service-manager source: its identity, the unit types it ignores,
//! and the in-band updates it emits.
use vstd::prelude::*;

use crate::config::SystemdConfig;
use crate::monitor::Data;
use crate::monitor::DataRep;
use crate::monitor::DataSource;
use crate::monitor::Failure;
use crate::monitor::Time;
use crate::monitor::Update;
use crate::monitor::UpdateScope;

verus! {

/// The unit types every service-manager source ignores.
pub open spec fn spec_ignored_types() -> Seq<Seq<char>> {
    seq!["device"@, "target"@, "slice"@, "machine"@, "mount"@]
}

/// A configured service-manager source.
#[derive(Debug)]
pub struct SystemdMonitor {
    pub ignored_types: Vec<String>,
    pub user: bool,
    pub id: String,
}

/// The push flavour of a service-manager source: it watches unit signals
/// from its own worker.
#[derive(Debug)]
pub struct SystemdPusher {
    pub ignored_types: Vec<String>,
    pub user: bool,
    pub id: String,
}

impl SystemdMonitor {
    /// A source from its configuration: the id is the configured one, the
    /// user flag defaults to off, and the fixed unit types are ignored.
    pub fn new(conf: SystemdConfig) -> (r: SystemdMonitor)
        ensures
            r.id@ == conf.common.id@,
            r.user == (conf.user == Some(true)),
            r.ignored_types@.len() == spec_ignored_types().len(),
            forall|i: int| 0 <= i < spec_ignored_types().len() ==> (
            #[trigger] r.ignored_types@[i])@ == spec_ignored_types()[i],
    {
        let user = match conf.user {
            Some(u) => u,
            None => false,
        };
        let mut ignored: Vec<String> = Vec::new();
        ignored.push("device".to_owned());
        ignored.push("target".to_owned());
        ignored.push("slice".to_owned());
        ignored.push("machine".to_owned());
        ignored.push("mount".to_owned());
        SystemdMonitor { ignored_types: ignored, user, id: conf.common.id }
    }

    /// The push flavour of this source.
    pub fn pusher(&self) -> (r: SystemdPusher)
        ensures
            r.id@ == self.id@,
            r.user == self.user,
            r.ignored_types@.len() == self.ignored_types@.len(),
            forall|i: int| 0 <= i < self.ignored_types@.len() ==> (
            #[trigger] r.ignored_types@[i])@ == self.ignored_types@[i]@,
    {
        let mut ignored: Vec<String> = Vec::new();
        let n = self.ignored_types.len();
        let mut i: usize = 0;
        while i < n
            invariant
                i <= n,
                n == self.ignored_types@.len(),
                ignored@.len() == i as int,
                forall|j: int| 0 <= j < i ==> (#[trigger] ignored@[j])@ == self.ignored_types@[j]@,
            decreases n - i,
        {
            ignored.push(self.ignored_types[i].clone());
            i += 1;
        }
        SystemdPusher { ignored_types: ignored, user: self.user, id: self.id.clone() }
    }
}

impl DataSource for SystemdPusher {
    closed spec fn spec_id(&self) -> Seq<char> {
        self.id@
    }

    closed spec fn spec_typ(&self) -> Seq<char> {
        "systemd"@
    }

    fn id(&self) -> (r: String)
        ensures
            r@ == self.spec_id(),
    {
        self.id.clone()
    }

    fn typ(&self) -> (r: String)
        ensures
            r@ == self.spec_typ(),
    {
        "systemd".to_owned()
    }
}

/// The in-band failure update the watcher emits when unit watching fails:
/// a partial update attributed to the source.
pub fn watch_failure_update(id: &str, reason: &str, time: Time) -> (r: Update)
    ensures
        r@.source == id@,
        r@.typ == "systemd"@,
        r@.scope == UpdateScope::Partial,
        r@.time == time,
        r@.data matches DataRep::Error(f) && f.id == Some("systemd"@) && f.error
            == "failed to monitor systemd units: "@ + reason@,
{
    let mut error = "failed to monitor systemd units: ".to_owned();
    error.append(reason);
    Update {
        source: id.to_owned(),
        typ: "systemd".to_owned(),
        scope: UpdateScope::Partial,
        time,
        data: Data::Error(Failure { id: Some("systemd".to_owned()), error }),
    }
}

/// The snapshot-scoped update a poll pass produces: the polled data on
/// success, an in-band failure rolled up under the `poll` id on error.
pub fn poll_update(id: &str, typ: &str, outcome: Result<Data, crate::errors::InternalError>, time: Time) -> (r: Update)
    ensures
        r@.source == id@,
        r@.typ == typ@,
        r@.scope == UpdateScope::Snapshot,
        r@.time == time,
        outcome matches Ok(d) ==> r@.data == d@,
        outcome matches Err(e) ==> (r@.data matches DataRep::Error(f) && f.id == Some("poll"@)
            && f.error == e.reason@),
{
    let data = match outcome {
        Ok(d) => d,
        Err(e) => Data::Error(Failure { id: Some("poll".to_owned()), error: e.reason }),
    };
    Update {
        source: id.to_owned(),
        typ: typ.to_owned(),
        scope: UpdateScope::Snapshot,
        time,
        data,
    }
}

} // verus!
