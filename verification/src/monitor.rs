//! The unit of traffic through the fabric: typed updates carrying per-entity
//! state, events, metrics or failures, stamped with their source and time.
use vstd::prelude::*;

use crate::errors::InternalError;
use crate::strutil::i64_to_string;
use crate::strutil::spec_decimal_i64;
use crate::value::distinct_keys;
use crate::value::lemma_map_bind;
use crate::value::lemma_map_drop;
use crate::value::lemma_map_find_witness;
use crate::value::lemma_map_key_index;
use crate::value::map_bind;
use crate::value::map_drop;
use crate::value::map_find;
use crate::value::map_key_index;
use crate::value::ValueMap;
use crate::value::ValueRep;

verus! {

/// Per-entity state of a monitored unit.
#[derive(Debug, Clone, Copy, PartialEq, Eq, Structural)]
pub enum State {
    Active,
    Inactive,
    Error,
    Unknown,
}

/// Syslog severity; `Emergency` is the greatest severity although it carries
/// the smallest number.
#[derive(Debug, Clone, Copy, PartialEq, Eq, Structural)]
pub enum Severity {
    Emergency,
    Alert,
    Critical,
    Error,
    Warning,
    Notice,
    Info,
    Debug,
}

impl Severity {
    /// The syslog number of this severity.
    pub open spec fn spec_int(self) -> int {
        match self {
            Severity::Emergency => 0,
            Severity::Alert => 1,
            Severity::Critical => 2,
            Severity::Error => 3,
            Severity::Warning => 4,
            Severity::Notice => 5,
            Severity::Info => 6,
            Severity::Debug => 7,
        }
    }

    /// This severity is at least as severe as `other`: severity decreases as
    /// the syslog number grows.
    pub open spec fn spec_at_least(self, other: Severity) -> bool {
        self.spec_int() <= other.spec_int()
    }

    /// The severity a syslog number names, if any.
    pub open spec fn of_num(i: int) -> Option<Severity> {
        if i == 0 {
            Some(Severity::Emergency)
        } else if i == 1 {
            Some(Severity::Alert)
        } else if i == 2 {
            Some(Severity::Critical)
        } else if i == 3 {
            Some(Severity::Error)
        } else if i == 4 {
            Some(Severity::Warning)
        } else if i == 5 {
            Some(Severity::Notice)
        } else if i == 6 {
            Some(Severity::Info)
        } else if i == 7 {
            Some(Severity::Debug)
        } else {
            None
        }
    }

    /// The name of this severity.
    pub open spec fn spec_name(self) -> Seq<char> {
        match self {
            Severity::Emergency => "Emergency"@,
            Severity::Alert => "Alert"@,
            Severity::Critical => "Critical"@,
            Severity::Error => "Error"@,
            Severity::Warning => "Warning"@,
            Severity::Notice => "Notice"@,
            Severity::Info => "Info"@,
            Severity::Debug => "Debug"@,
        }
    }

    /// The syslog number of this severity.
    pub fn to_int(&self) -> (r: i64)
        ensures
            r == self.spec_int(),
    {
        match *self {
            Severity::Emergency => 0,
            Severity::Alert => 1,
            Severity::Critical => 2,
            Severity::Error => 3,
            Severity::Warning => 4,
            Severity::Notice => 5,
            Severity::Info => 6,
            Severity::Debug => 7,
        }
    }

    /// The severity for a syslog number: defined exactly on 0 through 7.
    pub fn from_syslog(i: i64) -> (r: Result<Severity, InternalError>)
        ensures
            0 <= i <= 7 ==> (r matches Ok(s) && s.spec_int() == i && Severity::of_num(i as int)
                == Some(s)),
            !(0 <= i <= 7) ==> (r matches Err(e) && e.reason@ == "Unknown severity: "@
                + spec_decimal_i64(i as int)),
    {
        match i {
            0 => Ok(Severity::Emergency),
            1 => Ok(Severity::Alert),
            2 => Ok(Severity::Critical),
            3 => Ok(Severity::Error),
            4 => Ok(Severity::Warning),
            5 => Ok(Severity::Notice),
            6 => Ok(Severity::Info),
            7 => Ok(Severity::Debug),
            _ => {
                let mut reason = "Unknown severity: ".to_owned();
                let digits = i64_to_string(i);
                reason.append(digits.as_str());
                Err(InternalError::new(reason))
            },
        }
    }

    /// The name of this severity.
    pub fn to_string(&self) -> (r: String)
        ensures
            r@ == self.spec_name(),
    {
        match *self {
            Severity::Emergency => "Emergency".to_owned(),
            Severity::Alert => "Alert".to_owned(),
            Severity::Critical => "Critical".to_owned(),
            Severity::Error => "Error".to_owned(),
            Severity::Warning => "Warning".to_owned(),
            Severity::Notice => "Notice".to_owned(),
            Severity::Info => "Info".to_owned(),
            Severity::Debug => "Debug".to_owned(),
        }
    }

    /// Whether this severity is at least as severe as `other`.
    pub fn at_least(&self, other: &Severity) -> (r: bool)
        ensures
            r == self.spec_at_least(*other),
    {
        self.to_int() <= other.to_int()
    }
}

impl Default for Severity {
    /// The default severity is `Info`.
    fn default() -> (r: Severity)
        ensures
            r == Severity::Info,
    {
        Severity::Info
    }
}

/// A length of time in milliseconds.
#[derive(Debug, Clone, Copy, PartialEq, Eq, Structural)]
pub struct DurationMs {
    pub ms: i64,
}

/// Per-entity state record: a state plus typed attributes.
#[derive(Debug, PartialEq)]
pub struct Status {
    pub state: State,
    pub attrs: ValueMap,
}

/// The mathematical shape of a `Status`.
pub struct StatusRep {
    pub state: State,
    pub attrs: Seq<(Seq<char>, ValueRep)>,
}

impl View for Status {
    type V = StatusRep;

    open spec fn view(&self) -> StatusRep {
        StatusRep { state: self.state, attrs: self.attrs@ }
    }
}

impl Clone for Status {
    /// The clone has the same shape.
    fn clone(&self) -> (r: Self)
        ensures
            r@ == self@,
    {
        Status { state: self.state, attrs: self.attrs.clone() }
    }
}

/// A log event: optional identity, severity and message, plus attributes.
#[derive(Debug, PartialEq)]
pub struct Event {
    pub id: Option<String>,
    pub severity: Option<Severity>,
    pub message: Option<String>,
    pub attrs: ValueMap,
}

/// The mathematical shape of an `Event`.
pub struct EventRep {
    pub id: Option<Seq<char>>,
    pub severity: Option<Severity>,
    pub message: Option<Seq<char>>,
    pub attrs: Seq<(Seq<char>, ValueRep)>,
}

/// The view of an optional string.
pub open spec fn opt_str_rep(o: Option<String>) -> Option<Seq<char>> {
    match o {
        Some(s) => Some(s@),
        None => None,
    }
}

impl View for Event {
    type V = EventRep;

    open spec fn view(&self) -> EventRep {
        EventRep {
            id: opt_str_rep(self.id),
            severity: self.severity,
            message: opt_str_rep(self.message),
            attrs: self.attrs@,
        }
    }
}

/// Clone of an optional string, preserving its view.
fn clone_opt_string(o: &Option<String>) -> (r: Option<String>)
    ensures
        opt_str_rep(r) == opt_str_rep(*o),
{
    match o {
        Some(s) => Some(s.clone()),
        None => None,
    }
}

impl Clone for Event {
    /// The clone has the same shape.
    fn clone(&self) -> (r: Self)
        ensures
            r@ == self@,
    {
        Event {
            id: clone_opt_string(&self.id),
            severity: self.severity,
            message: clone_opt_string(&self.message),
            attrs: self.attrs.clone(),
        }
    }
}

/// A per-source operational failure, reported in-band.
#[derive(Debug, PartialEq)]
pub struct Failure {
    /// Recurring failures share an id so consumers can roll them up;
    /// ephemeral ones carry none.
    pub id: Option<String>,
    pub error: String,
}

/// The mathematical shape of a `Failure`.
pub struct FailureRep {
    pub id: Option<Seq<char>>,
    pub error: Seq<char>,
}

impl View for Failure {
    type V = FailureRep;

    open spec fn view(&self) -> FailureRep {
        FailureRep { id: opt_str_rep(self.id), error: self.error@ }
    }
}

impl Clone for Failure {
    /// The clone has the same shape.
    fn clone(&self) -> (r: Self)
        ensures
            r@ == self@,
    {
        Failure { id: clone_opt_string(&self.id), error: self.error.clone() }
    }
}

/// A gauge reading: an absolute level or a change.
#[derive(Debug, Clone, Copy, PartialEq, Eq, Structural)]
pub enum GaugeValue {
    Absolute(i32),
    Difference(i32),
}

/// A raw metric reading.
#[derive(Debug, Clone, Copy, PartialEq, Eq, Structural)]
pub enum MetricValue {
    Counter(i32),
    Gauge(GaugeValue),
    Timespan(DurationMs),
}

/// A raw metric with its identity.
#[derive(Debug, PartialEq)]
pub struct Metric {
    pub id: String,
    pub value: MetricValue,
}

/// A computed metric value. Floating-point readings are not carried by the
/// core; an integer count or a duration is.
#[derive(Debug, Clone, Copy, PartialEq, Eq, Structural)]
pub enum ComputedMetricValue {
    Int(i64),
    Duration(DurationMs),
}

/// A computed metric with its identity.
#[derive(Debug, PartialEq)]
pub struct ComputedMetric {
    pub id: String,
    pub value: ComputedMetricValue,
}

/// A batch of computed metrics over a timespan.
#[derive(Debug, PartialEq)]
pub struct Metrics {
    pub values: Vec<ComputedMetric>,
    pub span: DurationMs,
}

/// The mathematical shape of a `Metrics` batch.
pub struct MetricsRep {
    pub values: Seq<(Seq<char>, ComputedMetricValue)>,
    pub span: DurationMs,
}

impl View for Metrics {
    type V = MetricsRep;

    open spec fn view(&self) -> MetricsRep {
        MetricsRep {
            values: Seq::new(
                self.values@.len(),
                |i: int| (self.values@[i].id@, self.values@[i].value),
            ),
            span: self.span,
        }
    }
}

impl Clone for Metrics {
    /// The clone has the same shape.
    fn clone(&self) -> (r: Self)
        ensures
            r@ == self@,
    {
        let mut values: Vec<ComputedMetric> = Vec::new();
        let n = self.values.len();
        let mut i: usize = 0;
        while i < n
            invariant
                i <= n,
                n == self.values@.len(),
                values@.len() == i as int,
                forall|j: int| 0 <= j < i ==> values@[j].id@ == self.values@[j].id@
                    && values@[j].value == self.values@[j].value,
            decreases n - i,
        {
            let m = &self.values[i];
            values.push(ComputedMetric { id: m.id.clone(), value: m.value });
            i += 1;
        }
        let r = Metrics { values, span: self.span };
        proof {
            assert(r@.values =~= self@.values);
        }
        r
    }
}

/// A map from entity name to its status; names distinct, order kept.
#[derive(Debug, PartialEq)]
pub struct StatusMap {
    entries: Vec<(String, Status)>,
}

impl View for StatusMap {
    type V = Seq<(Seq<char>, StatusRep)>;

    closed spec fn view(&self) -> Seq<(Seq<char>, StatusRep)> {
        Seq::new(self.entries@.len(), |i: int| (self.entries@[i].0@, self.entries@[i].1@))
    }
}

impl StatusMap {
    /// Names are pairwise distinct.
    pub open spec fn wf(&self) -> bool {
        distinct_keys(self@)
    }

    /// The status bound to name `k`, if any.
    pub open spec fn spec_get(&self, k: Seq<char>) -> Option<StatusRep> {
        map_find(self@, k)
    }

    /// An empty map.
    pub fn new() -> (r: StatusMap)
        ensures
            r@ =~= Seq::<(Seq<char>, StatusRep)>::empty(),
            r.wf(),
    {
        StatusMap { entries: Vec::new() }
    }

    /// The number of entries.
    pub fn len(&self) -> (r: usize)
        ensures
            r == self@.len(),
    {
        self.entries.len()
    }

    /// The name and status of the entry at position `i`.
    pub fn entry_at(&self, i: usize) -> (r: (&String, &Status))
        requires
            i < self@.len(),
        ensures
            r.0@ == self@[i as int].0,
            r.1@ == self@[i as int].1,
    {
        let e = &self.entries[i];
        (&e.0, &e.1)
    }

    /// The position of name `k`, if present.
    fn find_index(&self, k: &str) -> (r: Option<usize>)
        ensures
            match r {
                Some(i) => map_key_index(self@, k@) == i as int && i < self@.len(),
                None => map_key_index(self@, k@) == -1,
            },
    {
        let n = self.entries.len();
        let mut i: usize = 0;
        while i < n
            invariant
                i <= n,
                n == self@.len(),
                n == self.entries@.len(),
                forall|j: int| 0 <= j < i ==> self@[j].0 != k@,
                forall|j: int| 0 <= j < n ==> self@[j] == (self.entries@[j].0@, self.entries@[j].1@),
            decreases n - i,
        {
            if crate::strutil::str_eq(self.entries[i].0.as_str(), k) {
                proof {
                    lemma_map_find_witness(self@, k@, i as int);
                }
                return Some(i);
            }
            i += 1;
        }
        proof {
            lemma_map_key_index(self@, k@);
            if map_key_index(self@, k@) != -1 {
                let r = map_key_index(self@, k@);
                assert(self@[r].0 != k@);
                assert(false);
            }
        }
        None
    }

    /// Whether name `k` is present.
    pub fn contains_key(&self, k: &str) -> (r: bool)
        ensures
            r == (self.spec_get(k@) is Some),
    {
        proof {
            lemma_map_key_index(self@, k@);
        }
        match self.find_index(k) {
            Some(_) => true,
            None => false,
        }
    }

    /// The status bound to name `k`, if any.
    pub fn get(&self, k: &str) -> (r: Option<&Status>)
        ensures
            match r {
                Some(v) => self.spec_get(k@) == Some(v@),
                None => self.spec_get(k@) is None,
            },
    {
        proof {
            lemma_map_key_index(self@, k@);
        }
        match self.find_index(k) {
            Some(i) => Some(&self.entries[i].1),
            None => None,
        }
    }

    /// Bind name `k` to `v`: replace an existing entry in place, or append.
    pub fn insert(&mut self, k: String, v: Status)
        ensures
            final(self)@ == map_bind(old(self)@, k@, v@),
            old(self).wf() ==> final(self).wf(),
    {
        proof {
            lemma_map_key_index(self@, k@);
            if old(self).wf() {
                lemma_map_bind(old(self)@, k@, v@);
            }
        }
        match self.find_index(&k) {
            Some(i) => {
                self.entries.remove(i);
                self.entries.insert(i, (k, v));
                proof {
                    assert(self@ =~= map_bind(old(self)@, k@, v@));
                }
            },
            None => {
                self.entries.push((k, v));
                proof {
                    assert(self@ =~= map_bind(old(self)@, k@, v@));
                }
            },
        }
    }

    /// Drop name `k`, returning the status it was bound to, if any.
    pub fn remove(&mut self, k: &str) -> (r: Option<Status>)
        ensures
            final(self)@ == map_drop(old(self)@, k@),
            match r {
                Some(v) => old(self).spec_get(k@) == Some(v@),
                None => old(self).spec_get(k@) is None,
            },
            old(self).wf() ==> final(self).wf(),
    {
        proof {
            lemma_map_key_index(self@, k@);
            if old(self).wf() {
                lemma_map_drop(old(self)@, k@);
            }
        }
        match self.find_index(k) {
            Some(i) => {
                let e = self.entries.remove(i);
                proof {
                    assert(self@ =~= map_drop(old(self)@, k@));
                }
                Some(e.1)
            },
            None => {
                proof {
                    assert(self@ =~= map_drop(old(self)@, k@));
                }
                None
            },
        }
    }
}

impl Clone for StatusMap {
    /// The clone has the same entries.
    fn clone(&self) -> (r: Self)
        ensures
            r@ == self@,
            r.wf() == self.wf(),
    {
        let mut entries: Vec<(String, Status)> = Vec::new();
        let n = self.entries.len();
        let mut i: usize = 0;
        while i < n
            invariant
                i <= n,
                n == self.entries@.len(),
                entries@.len() == i as int,
                forall|j: int| 0 <= j < i ==> entries@[j].0@ == self.entries@[j].0@
                    && entries@[j].1@ == self.entries@[j].1@,
            decreases n - i,
        {
            let e = &self.entries[i];
            entries.push((e.0.clone(), e.1.clone()));
            i += 1;
        }
        let r = StatusMap { entries };
        proof {
            assert(r@ =~= self@);
        }
        r
    }
}

/// The payload of an update.
#[derive(Debug, PartialEq)]
pub enum Data {
    State(StatusMap),
    Event(Event),
    Metrics(Metrics),
    Error(Failure),
}

/// The mathematical shape of a `Data` payload.
pub enum DataRep {
    State(Seq<(Seq<char>, StatusRep)>),
    Event(EventRep),
    Metrics(MetricsRep),
    Error(FailureRep),
}

impl View for Data {
    type V = DataRep;

    open spec fn view(&self) -> DataRep {
        match self {
            Data::State(m) => DataRep::State(m@),
            Data::Event(e) => DataRep::Event(e@),
            Data::Metrics(m) => DataRep::Metrics(m@),
            Data::Error(f) => DataRep::Error(f@),
        }
    }
}

impl Clone for Data {
    /// The clone has the same shape.
    fn clone(&self) -> (r: Self)
        ensures
            r@ == self@,
    {
        match self {
            Data::State(m) => Data::State(m.clone()),
            Data::Event(e) => Data::Event(e.clone()),
            Data::Metrics(m) => Data::Metrics(m.clone()),
            Data::Error(f) => Data::Error(f.clone()),
        }
    }
}

/// A wall-clock instant: seconds since the epoch plus a millisecond part.
#[derive(Debug, Clone, Copy, PartialEq, Eq, Structural)]
pub struct Time {
    pub sec: i64,
    pub ms: u32,
}

impl Time {
    /// The millisecond part stays under two seconds (above 999 only while a
    /// leap second is represented).
    pub open spec fn wf(self) -> bool {
        self.ms < 2000
    }

    /// Relies on `chrono::Utc::now`, `DateTime::timestamp` and
    /// `DateTime::timestamp_subsec_millis`: seconds since the epoch and a
    /// subsecond millisecond part, which chrono keeps below 2000. `Utc::now`
    /// aborts on a host clock set before 1970, an environment condition no
    /// input can avoid.
    #[verifier::external_body]
    fn clock_now() -> (r: (i64, u32))
        ensures
            r.1 < 2000,
    {
        let t = chrono::Utc::now();
        (t.timestamp(), t.timestamp_subsec_millis())
    }

    /// The current wall-clock instant.
    pub fn now() -> (t: Time)
        ensures
            t.wf(),
    {
        let (sec, ms) = Self::clock_now();
        Time { sec, ms }
    }

    /// Seconds since the epoch.
    pub fn timestamp(&self) -> (r: i64)
        ensures
            r == self.sec,
    {
        self.sec
    }
}

/// Whether an update replaces its source's stored snapshot.
#[derive(Debug, Clone, Copy, PartialEq, Eq, Structural)]
pub enum UpdateScope {
    /// The update fully represents the producer's current state and replaces
    /// any previous snapshot from the same producer.
    Snapshot,
    /// The update merges into the stream but does not displace the prior
    /// snapshot.
    Partial,
}

/// The unit of traffic: a payload stamped with source, type, scope and time.
#[derive(Debug, PartialEq)]
pub struct Update {
    pub source: String,
    pub scope: UpdateScope,
    pub typ: String,
    pub time: Time,
    pub data: Data,
}

/// The mathematical shape of an `Update`.
pub struct UpdateRep {
    pub source: Seq<char>,
    pub scope: UpdateScope,
    pub typ: Seq<char>,
    pub time: Time,
    pub data: DataRep,
}

impl View for Update {
    type V = UpdateRep;

    open spec fn view(&self) -> UpdateRep {
        UpdateRep {
            source: self.source@,
            scope: self.scope,
            typ: self.typ@,
            time: self.time,
            data: self.data@,
        }
    }
}

impl Clone for Update {
    /// The clone has the same shape.
    fn clone(&self) -> (r: Self)
        ensures
            r@ == self@,
    {
        Update {
            source: self.source.clone(),
            scope: self.scope,
            typ: self.typ.clone(),
            time: self.time,
            data: self.data.clone(),
        }
    }
}

/// A data source's identity: its user-chosen id and its module type.
pub trait DataSource {
    /// The source's id.
    spec fn spec_id(&self) -> Seq<char>;

    /// The source's module type.
    spec fn spec_typ(&self) -> Seq<char>;

    /// The source's id.
    fn id(&self) -> (r: String)
        ensures
            r@ == self.spec_id(),
    ;

    /// The source's module type.
    fn typ(&self) -> (r: String)
        ensures
            r@ == self.spec_typ(),
    ;
}

/// A detached copy of a source's identity.
#[derive(Debug, PartialEq)]
pub struct MonitorDataSource {
    id: String,
    typ: String,
}

impl DataSource for MonitorDataSource {
    closed spec fn spec_id(&self) -> Seq<char> {
        self.id@
    }

    closed spec fn spec_typ(&self) -> Seq<char> {
        self.typ@
    }

    fn id(&self) -> (r: String)
        ensures
            r@ == self.spec_id(),
    {
        self.id.clone()
    }

    fn typ(&self) -> (r: String)
        ensures
            r@ == self.spec_typ(),
    {
        self.typ.clone()
    }
}

impl MonitorDataSource {
    /// Capture a source's identity.
    pub fn extract<S: DataSource>(src: &S) -> (r: MonitorDataSource)
        ensures
            r.spec_id() == src.spec_id(),
            r.spec_typ() == src.spec_typ(),
    {
        MonitorDataSource { id: src.id(), typ: src.typ() }
    }
}

/// A handle owning a push source's background activity; dropping it must end
/// that activity.
pub trait PushSubscription {

}

/// Builds in-band failure updates attributed to one source.
#[derive(Debug, PartialEq)]
pub struct ErrorReporter {
    id: String,
    typ: String,
}

impl ErrorReporter {
    /// A reporter for the given source.
    pub fn new<S: DataSource>(src: &S) -> (r: ErrorReporter)
        ensures
            r.spec_id() == src.spec_id(),
            r.spec_typ() == src.spec_typ(),
    {
        ErrorReporter { id: src.id(), typ: src.typ() }
    }

    /// The id of the reported-on source.
    pub closed spec fn spec_id(&self) -> Seq<char> {
        self.id@
    }

    /// The type of the reported-on source.
    pub closed spec fn spec_typ(&self) -> Seq<char> {
        self.typ@
    }

    /// The partial failure update for an error: attributed to the source,
    /// with the error text `Error <context>: <reason>`.
    pub fn failure_update(&self, context: &str, reason: &str, time: Time) -> (r: Update)
        ensures
            r@.source == self.spec_id(),
            r@.typ == self.spec_typ(),
            r@.scope == UpdateScope::Partial,
            r@.time == time,
            r@.data matches DataRep::Error(f) && f.id is None && f.error == "Error "@ + context@
                + ": "@ + reason@,
    {
        let mut error = "Error ".to_owned();
        error.append(context);
        error.append(": ");
        error.append(reason);
        Update {
            source: self.id.clone(),
            typ: self.typ.clone(),
            scope: UpdateScope::Partial,
            time,
            data: Data::Error(Failure { id: None, error }),
        }
    }
}

} // verus!
