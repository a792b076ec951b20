//! The journal source's record processing: a followed log line, parsed into
//! attributes elsewhere, becomes an event after running the filter
//! pipeline; a line that does not parse becomes an informational event; a
//! failure of the follower becomes an in-band failure update.
use vstd::prelude::*;

use crate::config::JournalConfig;
use crate::errors::InternalError;
use crate::filter::filter;
use crate::filter::filters_valid;
use crate::filter::get_severity;
use crate::filter::is_internal_key;
use crate::filter::spec_drill;
use crate::filter::spec_emits;
use crate::filter::spec_emitted;
use crate::filter::spec_severity_of;
use crate::monitor::Data;
use crate::monitor::DataRep;
use crate::monitor::Event;
use crate::monitor::Failure;
use crate::monitor::Severity;
use crate::monitor::Time;
use crate::monitor::Update;
use crate::monitor::UpdateScope;
use crate::value::map_bind;
use crate::value::map_find;
use crate::value::Value;
use crate::value::ValueMap;
use crate::value::ValueRep;

verus! {

broadcast use crate::value::value_rep_facts;

/// How long the follower sleeps before it retries after a failure.
pub const JOURNAL_BACKOFF_MS: u32 = 10000;

/// A journal source, created from its configuration.
#[derive(Debug)]
pub struct Journal {
    pub config: JournalConfig,
}

impl Journal {
    /// A journal source for the given configuration.
    pub fn new(config: JournalConfig) -> (r: Result<Journal, InternalError>)
        ensures
            r matches Ok(j) && j.config == config,
    {
        Ok(Journal { config })
    }
}

/// The identity of a journal record: its `SYSLOG_IDENTIFIER` if that is a
/// string, else its `_SYSTEMD_UNIT`, else nothing.
pub open spec fn spec_record_identity(attrs: Seq<(Seq<char>, ValueRep)>) -> Option<Seq<char>> {
    match spec_drill(attrs, "SYSLOG_IDENTIFIER"@) {
        Some(s) => Some(s),
        None => spec_drill(attrs, "_SYSTEMD_UNIT"@),
    }
}

/// The attributes a record enters the pipeline with: its identity is copied
/// into a `SOURCE` attribute when it has one.
pub open spec fn spec_record_attrs(attrs: Seq<(Seq<char>, ValueRep)>) -> Seq<
    (Seq<char>, ValueRep),
> {
    match spec_record_identity(attrs) {
        Some(s) => map_bind(attrs, "SOURCE"@, ValueRep::Str(s)),
        None => attrs,
    }
}

/// The identity a record is matched under: its identity, or `UNKNOWN`.
pub open spec fn spec_record_source(attrs: Seq<(Seq<char>, ValueRep)>) -> Seq<char> {
    match spec_record_identity(attrs) {
        Some(s) => s,
        None => "UNKNOWN"@,
    }
}

/// Turn one parsed journal record into an event, if the filters admit it:
/// the record's identity is matched, the admitted record's `MESSAGE` becomes
/// the event message and its remaining attributes ride along.
pub fn journal_record_event(filters: &Vec<crate::config::JournalFilter>, attrs: ValueMap) -> (r:
    Option<Event>)
    requires
        attrs.wf(),
        filters_valid(filters@),
    ensures
        (r is Some) == spec_emits(filters@, spec_record_source(attrs@), spec_record_attrs(attrs@)),
        r matches Some(ev) ==> {
            let emitted = spec_emitted(
                filters@,
                spec_record_source(attrs@),
                spec_record_attrs(attrs@),
            );
            &&& ev@.id is None
            &&& ev@.severity == spec_severity_of(emitted)
            &&& ev@.message == (match map_find(emitted, "MESSAGE"@) {
                Some(mv) => mv.as_str(),
                None => None,
            })
            &&& map_find(ev@.attrs, "MESSAGE"@) is None
            &&& (forall|i: int| 0 <= i < ev@.attrs.len() ==> !is_internal_key(
                #[trigger] ev@.attrs[i].0,
            ))
            &&& (forall|k: Seq<char>|
                !is_internal_key(k) && k != "MESSAGE"@ ==> map_find(ev@.attrs, k) == map_find(
                    emitted,
                    k,
                ))
        },
{
    let ghost a0 = attrs@;
    let mut attrs = attrs;
    let found: Option<String> = match attrs.get("SYSLOG_IDENTIFIER") {
        Some(v) => match v.get_str() {
            Some(s) => Some(s.clone()),
            None => None,
        },
        None => None,
    };
    let found: Option<String> = match found {
        Some(s) => Some(s),
        None => match attrs.get("_SYSTEMD_UNIT") {
            Some(v) => match v.get_str() {
                Some(s) => Some(s.clone()),
                None => None,
            },
            None => None,
        },
    };
    let source: String = match found {
        Some(s) => {
            let copy = s.clone();
            attrs.insert("SOURCE".to_owned(), Value::Str(copy));
            s
        },
        None => "UNKNOWN".to_owned(),
    };
    proof {
        assert(source@ == spec_record_source(a0));
        assert(attrs@ == spec_record_attrs(a0));
    }
    let filtered = filter(source.as_str(), filters, attrs);
    match filtered {
        None => None,
        Some(mut out) => {
            let ghost o0 = out@;
            proof {
                crate::value::lemma_map_key_index(o0, "MESSAGE"@);
                crate::value::lemma_map_drop(o0, "MESSAGE"@);
            }
            let message: Option<String> = match out.remove("MESSAGE") {
                Some(mv) => match mv.into_str() {
                    Ok(m) => Some(m),
                    Err(_) => None,
                },
                None => None,
            };
            proof {
                let k = crate::value::map_key_index(o0, "MESSAGE"@);
                assert forall|i: int| 0 <= i < out@.len() implies !is_internal_key(
                    #[trigger] out@[i].0,
                ) by {
                    if k == -1 {
                        assert(out@[i] == o0[i]);
                    } else if i < k {
                        assert(out@[i] == o0[i]);
                    } else {
                        assert(out@[i] == o0[i + 1]);
                    }
                }
            }
            proof {
                let emitted = spec_emitted(
                    filters@,
                    spec_record_source(a0),
                    spec_record_attrs(a0),
                );
                assert(!is_internal_key("MESSAGE"@) && !is_internal_key("PRIORITY"@)
                    && "MESSAGE"@ != "PRIORITY"@) by {
                    reveal_strlit("MESSAGE");
                    reveal_strlit("PRIORITY");
                    assert("MESSAGE"@[0] == 'M' && "PRIORITY"@[0] == 'P');
                }
                assert(map_find(o0, "MESSAGE"@) == map_find(emitted, "MESSAGE"@));
                assert(map_find(out@, "PRIORITY"@) == map_find(o0, "PRIORITY"@));
                assert(map_find(o0, "PRIORITY"@) == map_find(emitted, "PRIORITY"@));
                assert forall|k: Seq<char>|
                    !is_internal_key(k) && k != "MESSAGE"@ implies map_find(out@, k) == map_find(
                    emitted,
                    k,
                ) by {
                    assert(map_find(out@, k) == map_find(o0, k));
                    assert(map_find(o0, k) == map_find(emitted, k));
                }
            }
            let severity = get_severity(&out);
            Some(Event { id: None, severity, message, attrs: out })
        },
    }
}

/// The in-band failure update the follower emits when following fails: a
/// partial update attributed to the source, rolled up under the `follow`
/// id.
pub fn follow_failure_update(id: &str, reason: &str, time: Time) -> (r: Update)
    ensures
        r@.source == id@,
        r@.typ == "journal"@,
        r@.scope == UpdateScope::Partial,
        r@.time == time,
        r@.data matches DataRep::Error(f) && f.id == Some("follow"@) && f.error
            == "failed to follow journal logs: "@ + reason@,
{
    let mut error = "failed to follow journal logs: ".to_owned();
    error.append(reason);
    Update {
        source: id.to_owned(),
        typ: "journal".to_owned(),
        scope: UpdateScope::Partial,
        time,
        data: Data::Error(Failure { id: Some("follow".to_owned()), error }),
    }
}

/// The event standing in for a line the journal emitted but the parser
/// could not read.
pub fn unparseable_line_event(line: &str) -> (r: Event)
    ensures
        r@.id == Some("internal"@),
        r@.severity == Some(Severity::Info),
        r@.message == Some("Unparseable journal line: "@ + line@),
        r@.attrs =~= Seq::<(Seq<char>, ValueRep)>::empty(),
{
    let mut message = "Unparseable journal line: ".to_owned();
    message.append(line);
    Event {
        id: Some("internal".to_owned()),
        severity: Some(Severity::Info),
        message: Some(message),
        attrs: ValueMap::new(),
    }
}

} // verus!
