//! What the stream serves: each dispatched update as one JSON document
//! wrapped in a server-sent-events frame, with a keep-alive comment frame
//! for idle periods.
use vstd::prelude::*;

use crate::monitor::DataRep;
use crate::monitor::EventRep;
use crate::monitor::FailureRep;
use crate::monitor::MetricsRep;
use crate::monitor::ComputedMetricValue;
use crate::monitor::Severity;
use crate::monitor::State;
use crate::monitor::StatusRep;
use crate::monitor::Time;
use crate::monitor::Update;
use crate::monitor::UpdateScope;
use crate::strutil::spec_decimal;
use crate::strutil::spec_decimal_i64;
use crate::strutil::i64_to_string;
use crate::strutil::u64_to_string;
use crate::strutil::str_eq;
use crate::value::Value;
use crate::value::ValueMap;
use crate::value::ValueRep;

verus! {

broadcast use crate::value::value_rep_facts;

/// Whether a character is written escaped inside a JSON string.
pub open spec fn needs_escape(c: char) -> bool {
    c == '"' || c == '\\' || (c as int) < 32
}

/// The escaped writing of one character.
pub open spec fn spec_escape_char(c: char) -> Seq<char> {
    if c == '"' {
        seq!['\\', '"']
    } else if c == '\\' {
        seq!['\\', '\\']
    } else if c == '\n' {
        seq!['\\', 'n']
    } else if c == '\r' {
        seq!['\\', 'r']
    } else if c == '\t' {
        seq!['\\', 't']
    } else if (c as int) < 32 {
        "\\u00"@ + spec_hex_byte(c as int)
    } else {
        seq![c]
    }
}

/// Two hex digits for a value below 256.
pub open spec fn spec_hex_byte(v: int) -> Seq<char> {
    seq![spec_hex_digit(v / 16), spec_hex_digit(v % 16)]
}

/// One hex digit.
pub open spec fn spec_hex_digit(v: int) -> char {
    if v < 10 {
        crate::strutil::spec_digit_char(v)
    } else if v == 10 {
        'a'
    } else if v == 11 {
        'b'
    } else if v == 12 {
        'c'
    } else if v == 13 {
        'd'
    } else if v == 14 {
        'e'
    } else {
        'f'
    }
}

/// A string's characters, escaped for JSON.
pub open spec fn json_escape(s: Seq<char>) -> Seq<char>
    decreases s.len(),
{
    if s.len() == 0 {
        Seq::empty()
    } else {
        json_escape(s.drop_last()) + spec_escape_char(s.last())
    }
}

/// Appending characters that need no escape appends them unchanged.
proof fn lemma_escape_plain_run(s: Seq<char>, a: int, b: int)
    requires
        0 <= a <= b <= s.len(),
        forall|j: int| a <= j < b ==> !needs_escape(s[j]),
    ensures
        json_escape(s.subrange(0, b)) == json_escape(s.subrange(0, a)) + s.subrange(a, b),
    decreases b - a,
{
    if a == b {
        assert(s.subrange(a, b) =~= Seq::<char>::empty());
        assert(json_escape(s.subrange(0, b)) =~= json_escape(s.subrange(0, a)) + s.subrange(a, b));
    } else {
        lemma_escape_plain_run(s, a, b - 1);
        let p = s.subrange(0, b);
        assert(p.drop_last() =~= s.subrange(0, b - 1));
        assert(p.last() == s[b - 1]);
        assert(spec_escape_char(s[b - 1]) =~= seq![s[b - 1]]);
        assert(json_escape(s.subrange(0, b)) =~= json_escape(s.subrange(0, a)) + s.subrange(a, b));
    }
}

/// One hex digit character for a value below 16.
fn hex_digit_str(v: u32) -> (r: &'static str)
    requires
        v < 16,
    ensures
        r@ =~= seq![spec_hex_digit(v as int)],
{
    proof {
        reveal_strlit("a");
        reveal_strlit("b");
        reveal_strlit("c");
        reveal_strlit("d");
        reveal_strlit("e");
        reveal_strlit("f");
    }
    if v < 10 {
        crate::strutil::digit_str(v as u64)
    } else if v == 10 {
        "a"
    } else if v == 11 {
        "b"
    } else if v == 12 {
        "c"
    } else if v == 13 {
        "d"
    } else if v == 14 {
        "e"
    } else {
        "f"
    }
}

/// Append `s`, escaped for JSON, onto `out`.
#[verifier::loop_isolation(false)]
fn append_escaped(out: &mut String, s: &str)
    ensures
        final(out)@ == old(out)@ + json_escape(s@),
{
    let n = s.unicode_len();
    let mut run: usize = 0;
    let mut i: usize = 0;
    while i < n
        invariant
            run <= i <= n,
            out@ == old(out)@ + json_escape(s@.subrange(0, run as int)),
            forall|j: int| run <= j < i ==> !needs_escape(s@[j]),
        decreases n - i,
    {
        let c = s.get_char(i);
        let cv = c as u32;
        if cv == 34 || cv == 92 || cv < 32 {
            out.append(s.substring_char(run, i));
            proof {
                lemma_escape_plain_run(s@, run as int, i as int);
            }
            if cv == 34 {
                out.append("\\\"");
                proof {
                    reveal_strlit("\\\"");
                }
            } else if cv == 92 {
                out.append("\\\\");
                proof {
                    reveal_strlit("\\\\");
                }
            } else if cv == 10 {
                out.append("\\n");
                proof {
                    reveal_strlit("\\n");
                }
            } else if cv == 13 {
                out.append("\\r");
                proof {
                    reveal_strlit("\\r");
                }
            } else if cv == 9 {
                out.append("\\t");
                proof {
                    reveal_strlit("\\t");
                }
            } else {
                out.append("\\u00");
                let v = c as u32;
                out.append(hex_digit_str(v / 16));
                out.append(hex_digit_str(v % 16));
                proof {
                    assert(spec_escape_char(c) =~= "\\u00"@ + spec_hex_byte(c as int));
                }
            }
            proof {
                let p = s@.subrange(0, i + 1);
                assert(p.drop_last() =~= s@.subrange(0, i as int));
                assert(p.last() == s@[i as int]);
                assert(out@ =~= old(out)@ + json_escape(s@.subrange(0, i + 1)));
            }
            run = i + 1;
        }
        i += 1;
    }
    out.append(s.substring_char(run, n));
    proof {
        lemma_escape_plain_run(s@, run as int, n as int);
        assert(s@.subrange(0, n as int) =~= s@);
    }
}

/// A JSON string: the characters, escaped, between quotes.
pub open spec fn json_of_str(s: Seq<char>) -> Seq<char> {
    "\""@ + json_escape(s) + "\""@
}

/// The JSON writing of a document value.
pub open spec fn json_of_value(v: ValueRep) -> Seq<char>
    decreases v,
{
    match v {
        ValueRep::Null => "null"@,
        ValueRep::Bool(b) => if b {
            "true"@
        } else {
            "false"@
        },
        ValueRep::Int(n) => spec_decimal_i64(n as int),
        ValueRep::UInt(n) => spec_decimal(n as int),
        ValueRep::Float(text) => text,
        ValueRep::Str(s) => json_of_str(s),
        ValueRep::Arr(items) => "["@ + json_of_items(items) + "]"@,
        ValueRep::Obj(e) => "{"@ + json_of_entries(e) + "}"@,
    }
}

/// The comma-separated JSON writings of array elements.
pub open spec fn json_of_items(items: Seq<ValueRep>) -> Seq<char>
    decreases items,
{
    if items.len() == 0 {
        Seq::empty()
    } else if items.len() == 1 {
        json_of_value(items.last())
    } else {
        json_of_items(items.drop_last()) + ","@ + json_of_value(items.last())
    }
}

/// The comma-separated JSON writings of object entries.
pub open spec fn json_of_entries(e: Seq<(Seq<char>, ValueRep)>) -> Seq<char>
    decreases e,
{
    if e.len() == 0 {
        Seq::empty()
    } else if e.len() == 1 {
        json_of_str(e.last().0) + ":"@ + json_of_value(e.last().1)
    } else {
        json_of_entries(e.drop_last()) + ","@ + json_of_str(e.last().0) + ":"@ + json_of_value(
            e.last().1,
        )
    }
}

/// Append the JSON writing of `v` onto `out`.
#[verifier::loop_isolation(false)]
pub fn append_json_value(out: &mut String, v: &Value)
    ensures
        final(out)@ == old(out)@ + json_of_value(v.rep()),
    decreases *v,
{
    match v {
        Value::Null => {
            out.append("null");
            proof {
                assert(Value::Null.rep() == ValueRep::Null);
            }
        },
        Value::Bool(b) => {
            if *b {
                out.append("true");
            } else {
                out.append("false");
            }
            proof {
                assert(Value::Bool(*b).rep() == ValueRep::Bool(*b));
            }
        },
        Value::Int(n) => {
            let digits = i64_to_string(*n);
            out.append(digits.as_str());
            proof {
                assert(Value::Int(*n).rep() == ValueRep::Int(*n));
            }
        },
        Value::UInt(n) => {
            let digits = u64_to_string(*n);
            out.append(digits.as_str());
            proof {
                assert(Value::UInt(*n).rep() == ValueRep::UInt(*n));
            }
        },
        Value::Float(text) => {
            out.append(text.as_str());
            proof {
                assert(v.rep() == ValueRep::Float(text@));
                assert(out@ =~= old(out)@ + json_of_value(v.rep()));
            }
        },
        Value::Str(s) => {
            out.append("\"");
            append_escaped(out, s.as_str());
            out.append("\"");
            proof {
                assert(v.rep() == ValueRep::Str(s@));
                assert(out@ =~= old(out)@ + json_of_value(v.rep()));
            }
        },
        Value::Arr(items) => {
            proof {
                assert(v.rep() == ValueRep::Arr(crate::value::Value::rep_of_seq(items@)));
            }
            out.append("[");
            let ghost base = out@;
            let n = items.len();
            let mut i: usize = 0;
            proof {
                crate::value::Value::lemma_rep_of_seq(items@);
            }
            while i < n
                invariant
                    i <= n,
                    out@ == base + json_of_items(
                        crate::value::Value::rep_of_seq(items@).subrange(0, i as int),
                    ),
                decreases n - i,
            {
                if i > 0 {
                    out.append(",");
                }
                proof {
                    assert(decreases_to!(*v => *items));
                    assert(decreases_to!(*items => items@));
                    assert(decreases_to!(items@ => items@[i as int]));
                }
                append_json_value(out, &items[i]);
                proof {
                    let reps = crate::value::Value::rep_of_seq(items@);
                    let p = reps.subrange(0, i + 1);
                    assert(p.drop_last() =~= reps.subrange(0, i as int));
                    assert(p.last() == reps[i as int]);
                    assert(out@ =~= base + json_of_items(reps.subrange(0, i + 1)));
                }
                i += 1;
            }
            proof {
                assert(crate::value::Value::rep_of_seq(items@).subrange(0, n as int)
                    =~= crate::value::Value::rep_of_seq(items@));
            }
            out.append("]");
            proof {
                assert(out@ =~= old(out)@ + json_of_value(v.rep()));
            }
        },
        Value::Obj(m) => {
            proof {
                assert(v.rep() == ValueRep::Obj(m@));
            }
            out.append("{");
            append_json_obj_entries(out, m);
            out.append("}");
            proof {
                assert(out@ =~= old(out)@ + json_of_value(v.rep()));
            }
        },
    }
}

/// Append the comma-separated entries of `m` onto `out`.
#[verifier::loop_isolation(false)]
fn append_json_obj_entries(out: &mut String, m: &ValueMap)
    ensures
        final(out)@ == old(out)@ + json_of_entries(m@),
    decreases *m,
{
    let ghost base = out@;
    proof {
        crate::value::lemma_map_view(m);
    }
    let n = m.entries.len();
    let mut i: usize = 0;
    while i < n
        invariant
            i <= n,
            n == m@.len(),
            out@ == base + json_of_entries(m@.subrange(0, i as int)),
        decreases n - i,
    {
        if i > 0 {
            out.append(",");
        }
        let e = &m.entries[i];
        out.append("\"");
        append_escaped(out, e.0.as_str());
        out.append("\"");
        out.append(":");
        proof {
            assert(decreases_to!(*m => m.entries));
            assert(decreases_to!(m.entries => m.entries@));
            assert(decreases_to!(m.entries@ => m.entries@[i as int]));
            assert(decreases_to!(m.entries@[i as int] => m.entries@[i as int].1));
        }
        append_json_value(out, &e.1);
        proof {
            let p = m@.subrange(0, i + 1);
            assert(p.drop_last() =~= m@.subrange(0, i as int));
            assert(p.last() == m@[i as int]);
            assert(out@ =~= base + json_of_entries(m@.subrange(0, i + 1)));
        }
        i += 1;
    }
    proof {
        assert(m@.subrange(0, n as int) =~= m@);
    }
}


/// The name of a unit state.
pub open spec fn spec_state_name(st: State) -> Seq<char> {
    match st {
        State::Active => "Active"@,
        State::Inactive => "Inactive"@,
        State::Error => "Error"@,
        State::Unknown => "Unknown"@,
    }
}

/// The name of a unit state.
fn state_name(st: State) -> (r: &'static str)
    ensures
        r@ == spec_state_name(st),
{
    match st {
        State::Active => "Active",
        State::Inactive => "Inactive",
        State::Error => "Error",
        State::Unknown => "Unknown",
    }
}

/// The JSON writing of an optional string field value.
pub open spec fn json_of_opt_str(o: Option<Seq<char>>) -> Seq<char> {
    match o {
        Some(s) => json_of_str(s),
        None => "null"@,
    }
}

/// Append the JSON writing of an optional string.
fn append_opt_str(out: &mut String, o: &Option<String>)
    ensures
        final(out)@ == old(out)@ + json_of_opt_str(crate::monitor::opt_str_rep(*o)),
{
    match o {
        Some(s) => {
            out.append("\"");
            append_escaped(out, s.as_str());
            out.append("\"");
            proof {
                assert(out@ =~= old(out)@ + json_of_str(s@));
            }
        },
        None => {
            out.append("null");
        },
    }
}

/// The JSON writing of a status: its state's name and its attributes.
pub open spec fn json_of_status(st: StatusRep) -> Seq<char> {
    "{\"state\":\""@ + spec_state_name(st.state) + "\",\"attrs\":{"@ + json_of_entries(st.attrs)
        + "}}"@
}

/// The comma-separated JSON writings of named statuses.
pub open spec fn json_of_status_entries(e: Seq<(Seq<char>, StatusRep)>) -> Seq<char>
    decreases e.len(),
{
    if e.len() == 0 {
        Seq::empty()
    } else if e.len() == 1 {
        json_of_str(e.last().0) + ":"@ + json_of_status(e.last().1)
    } else {
        json_of_status_entries(e.drop_last()) + ","@ + json_of_str(e.last().0) + ":"@
            + json_of_status(e.last().1)
    }
}

/// Append the JSON writing of one status.
fn append_status(out: &mut String, st: &crate::monitor::Status)
    ensures
        final(out)@ == old(out)@ + json_of_status(st@),
{
    out.append("{\"state\":\"");
    out.append(state_name(st.state));
    out.append("\",\"attrs\":{");
    append_json_obj_entries(out, &st.attrs);
    out.append("}}");
    proof {
        assert(out@ =~= old(out)@ + json_of_status(st@));
    }
}

/// The JSON writing of an optional severity field value.
pub open spec fn json_of_opt_severity(o: Option<Severity>) -> Seq<char> {
    match o {
        Some(sev) => "\""@ + sev.spec_name() + "\""@,
        None => "null"@,
    }
}

/// The JSON writing of an event.
pub open spec fn json_of_event(ev: EventRep) -> Seq<char> {
    "{\"id\":"@ + json_of_opt_str(ev.id) + ",\"severity\":"@ + json_of_opt_severity(ev.severity)
        + ",\"message\":"@ + json_of_opt_str(ev.message) + ",\"attrs\":{"@ + json_of_entries(
        ev.attrs,
    ) + "}}"@
}

/// The JSON writing of a failure.
pub open spec fn json_of_failure(f: FailureRep) -> Seq<char> {
    "{\"id\":"@ + json_of_opt_str(f.id) + ",\"error\":"@ + json_of_str(f.error) + "}"@
}

/// The JSON writing of a duration: its millisecond count.
pub open spec fn json_of_duration(d: crate::monitor::DurationMs) -> Seq<char> {
    "{\"ms\":"@ + spec_decimal_i64(d.ms as int) + "}"@
}

/// The JSON writing of one computed metric value.
pub open spec fn json_of_metric_value(v: ComputedMetricValue) -> Seq<char> {
    match v {
        ComputedMetricValue::Int(n) => spec_decimal_i64(n as int),
        ComputedMetricValue::Duration(d) => json_of_duration(d),
    }
}

/// The comma-separated JSON writings of computed metrics.
pub open spec fn json_of_metric_entries(e: Seq<(Seq<char>, ComputedMetricValue)>) -> Seq<char>
    decreases e.len(),
{
    if e.len() == 0 {
        Seq::empty()
    } else if e.len() == 1 {
        "{\"id\":"@ + json_of_str(e.last().0) + ",\"value\":"@ + json_of_metric_value(e.last().1)
            + "}"@
    } else {
        json_of_metric_entries(e.drop_last()) + ","@ + "{\"id\":"@ + json_of_str(e.last().0)
            + ",\"value\":"@ + json_of_metric_value(e.last().1) + "}"@
    }
}

/// The JSON writing of a metrics batch.
pub open spec fn json_of_metrics(m: MetricsRep) -> Seq<char> {
    "{\"values\":["@ + json_of_metric_entries(m.values) + "],\"span\":"@ + json_of_duration(
        m.span,
    ) + "}"@
}

/// The JSON writing of an update's payload: a tagged pair of the variant's
/// name and its content.
pub open spec fn json_of_data(d: DataRep) -> Seq<char> {
    match d {
        DataRep::State(sts) => "[\"State\",{"@ + json_of_status_entries(sts) + "}]"@,
        DataRep::Event(ev) => "[\"Event\","@ + json_of_event(ev) + "]"@,
        DataRep::Metrics(m) => "[\"Metrics\","@ + json_of_metrics(m) + "]"@,
        DataRep::Error(f) => "[\"Error\","@ + json_of_failure(f) + "]"@,
    }
}

/// The JSON writing of an instant: seconds and the millisecond part.
pub open spec fn json_of_time(t: Time) -> Seq<char> {
    "{\"sec\":"@ + spec_decimal_i64(t.sec as int) + ",\"ms\":"@ + spec_decimal(t.ms as int) + "}"@
}

/// The JSON writing of a whole update.
pub open spec fn spec_json_of_update(u: crate::monitor::UpdateRep) -> Seq<char> {
    "{\"source\":"@ + json_of_str(u.source) + ",\"type\":"@ + json_of_str(u.typ) + ",\"time\":"@
        + json_of_time(u.time) + ",\"data\":"@ + json_of_data(u.data) + "}"@
}

/// Append the JSON writing of a state payload.
#[verifier::loop_isolation(false)]
fn append_state_data(out: &mut String, sts: &crate::monitor::StatusMap)
    ensures
        final(out)@ == old(out)@ + "[\"State\",{"@ + json_of_status_entries(sts@) + "}]"@,
{
    out.append("[\"State\",{");
    let ghost base = out@;
    let n = sts.len();
    let mut i: usize = 0;
    while i < n
        invariant
            i <= n,
            n == sts@.len(),
            out@ == base + json_of_status_entries(sts@.subrange(0, i as int)),
        decreases n - i,
    {
        if i > 0 {
            out.append(",");
        }
        let e = sts.entry_at(i);
        out.append("\"");
        append_escaped(out, e.0.as_str());
        out.append("\"");
        out.append(":");
        append_status(out, e.1);
        proof {
            let p = sts@.subrange(0, i + 1);
            assert(p.drop_last() =~= sts@.subrange(0, i as int));
            assert(p.last() == sts@[i as int]);
            assert(out@ =~= base + json_of_status_entries(sts@.subrange(0, i + 1)));
        }
        i += 1;
    }
    proof {
        assert(sts@.subrange(0, n as int) =~= sts@);
    }
    out.append("}]");
    proof {
        assert(out@ =~= old(out)@ + "[\"State\",{"@ + json_of_status_entries(sts@) + "}]"@);
    }
}

/// Append the JSON writing of an event payload.
fn append_event_data(out: &mut String, ev: &crate::monitor::Event)
    ensures
        final(out)@ == old(out)@ + "[\"Event\","@ + json_of_event(ev@) + "]"@,
{
    out.append("[\"Event\",");
    out.append("{\"id\":");
    append_opt_str(out, &ev.id);
    out.append(",\"severity\":");
    match &ev.severity {
        Some(sev) => {
            out.append("\"");
            let name = sev.to_string();
            out.append(name.as_str());
            out.append("\"");
        },
        None => {
            out.append("null");
        },
    }
    out.append(",\"message\":");
    append_opt_str(out, &ev.message);
    out.append(",\"attrs\":{");
    append_json_obj_entries(out, &ev.attrs);
    out.append("}}");
    out.append("]");
    proof {
        assert(out@ =~= old(out)@ + "[\"Event\","@ + json_of_event(ev@) + "]"@);
    }
}

/// Append the JSON writing of a metrics payload.
#[verifier::loop_isolation(false)]
#[verifier::rlimit(60)]
fn append_metrics_data(out: &mut String, m: &crate::monitor::Metrics)
    ensures
        final(out)@ == old(out)@ + "[\"Metrics\","@ + json_of_metrics(m@) + "]"@,
{
    out.append("[\"Metrics\",");
    out.append("{\"values\":[");
    let ghost mrep = m@;
    let ghost base = out@;
    let n = m.values.len();
    let mut i: usize = 0;
    while i < n
        invariant
            i <= n,
            n == mrep.values.len(),
            mrep == m@,
            out@ == base + json_of_metric_entries(mrep.values.subrange(0, i as int)),
        decreases n - i,
    {
        if i > 0 {
            out.append(",");
        }
        out.append("{\"id\":");
        let cm = &m.values[i];
        out.append("\"");
        append_escaped(out, cm.id.as_str());
        out.append("\"");
        out.append(",\"value\":");
        match cm.value {
            ComputedMetricValue::Int(x) => {
                let digits = i64_to_string(x);
                out.append(digits.as_str());
            },
            ComputedMetricValue::Duration(dd) => {
                out.append("{\"ms\":");
                let digits = i64_to_string(dd.ms);
                out.append(digits.as_str());
                out.append("}");
            },
        }
        out.append("}");
        proof {
            let p = mrep.values.subrange(0, i + 1);
            assert(p.drop_last() =~= mrep.values.subrange(0, i as int));
            assert(p.last() == mrep.values[i as int]);
            assert(mrep.values[i as int] == (
                m.values@[i as int].id@,
                m.values@[i as int].value,
            ));
            assert(out@ =~= base + json_of_metric_entries(mrep.values.subrange(0, i + 1)));
        }
        i += 1;
    }
    proof {
        assert(mrep.values.subrange(0, n as int) =~= mrep.values);
    }
    out.append("],\"span\":");
    out.append("{\"ms\":");
    let digits = i64_to_string(m.span.ms);
    out.append(digits.as_str());
    out.append("}");
    out.append("}");
    out.append("]");
    proof {
        assert(out@ =~= old(out)@ + "[\"Metrics\","@ + json_of_metrics(m@) + "]"@);
    }
}

/// Append the JSON writing of a failure payload.
fn append_failure_data(out: &mut String, f: &crate::monitor::Failure)
    ensures
        final(out)@ == old(out)@ + "[\"Error\","@ + json_of_failure(f@) + "]"@,
{
    out.append("[\"Error\",");
    out.append("{\"id\":");
    append_opt_str(out, &f.id);
    out.append(",\"error\":");
    out.append("\"");
    append_escaped(out, f.error.as_str());
    out.append("\"");
    out.append("}");
    out.append("]");
    proof {
        assert(out@ =~= old(out)@ + "[\"Error\","@ + json_of_failure(f@) + "]"@);
    }
}

/// Append the JSON writing of an update's payload.
fn append_data(out: &mut String, d: &crate::monitor::Data)
    ensures
        final(out)@ == old(out)@ + json_of_data(d@),
{
    match d {
        crate::monitor::Data::State(sts) => {
            append_state_data(out, sts);
        },
        crate::monitor::Data::Event(ev) => {
            append_event_data(out, ev);
        },
        crate::monitor::Data::Metrics(m) => {
            append_metrics_data(out, m);
        },
        crate::monitor::Data::Error(f) => {
            append_failure_data(out, f);
        },
    }
}

/// The JSON document for one update.
pub fn json_of_update(u: &Update) -> (r: String)
    ensures
        r@ == spec_json_of_update(u@),
{
    let mut out = String::new();
    out.append("{\"source\":");
    out.append("\"");
    append_escaped(&mut out, u.source.as_str());
    out.append("\"");
    out.append(",\"type\":");
    out.append("\"");
    append_escaped(&mut out, u.typ.as_str());
    out.append("\"");
    out.append(",\"time\":");
    out.append("{\"sec\":");
    let secs = i64_to_string(u.time.sec);
    out.append(secs.as_str());
    out.append(",\"ms\":");
    let ms = u64_to_string(u.time.ms as u64);
    out.append(ms.as_str());
    out.append("}");
    out.append(",\"data\":");
    append_data(&mut out, &u.data);
    out.append("}");
    proof {
        assert(out@ =~= spec_json_of_update(u@));
    }
    out
}

/// A single-line string: one the frame writer can emit as one data line.
pub open spec fn single_line(s: Seq<char>) -> bool {
    forall|i: int| 0 <= i < s.len() ==> s[i] != '\n'
}

/// One server-sent-events frame: the prefixed data line, then the blank
/// line that ends the message.
pub fn sse_frame(prefix: &str, data: &str) -> (r: String)
    requires
        single_line(data@),
    ensures
        r@ == prefix@ + ": "@ + data@ + "\n\n"@,
{
    let mut out = prefix.to_owned();
    out.append(": ");
    out.append(data);
    out.append("\n\n");
    proof {
        assert(out@ =~= prefix@ + ": "@ + data@ + "\n\n"@);
    }
    out
}

/// The keep-alive frame: a comment line, emitted when the stream is idle.
pub fn sse_keepalive() -> (r: String)
    ensures
        r@ == ":\n"@,
{
    ":\n".to_owned()
}

/// Per-stream envelope state: which sources this stream has already seen.
pub struct SseSession {
    seen: Vec<String>,
}

/// The envelope for one update: its source as the key, `replace` for the
/// source's first message on this stream and `diff` afterwards, and the
/// update's JSON document as the data.
pub open spec fn spec_envelope(u: crate::monitor::UpdateRep, first: bool) -> Seq<char> {
    "{\"key\":"@ + json_of_str(u.source) + ",\"overlay\":"@ + (if first {
        "\"replace\""@
    } else {
        "\"diff\""@
    }) + ",\"data\":"@ + spec_json_of_update(u) + "}"@
}

impl SseSession {
    /// The sources already seen.
    pub closed spec fn seen_rep(&self) -> Seq<Seq<char>> {
        Seq::new(self.seen@.len(), |i: int| self.seen@[i]@)
    }

    /// A fresh stream that has seen nothing.
    pub fn new() -> (r: SseSession)
        ensures
            r.seen_rep() =~= Seq::<Seq<char>>::empty(),
    {
        SseSession { seen: Vec::new() }
    }

    /// The enveloped JSON document for one dispatched update; the first
    /// message for a source replaces, later ones are diffs.
    pub fn envelope(&mut self, u: &Update) -> (r: String)
        ensures
            r@ == spec_envelope(
                u@,
                !exists|i: int|
                    0 <= i < old(self).seen_rep().len() && old(self).seen_rep()[i] == u@.source,
            ),
            (exists|i: int| 0 <= i < old(self).seen_rep().len() && old(self).seen_rep()[i]
                == u@.source) ==> final(self).seen_rep() == old(self).seen_rep(),
            !(exists|i: int| 0 <= i < old(self).seen_rep().len() && old(self).seen_rep()[i]
                == u@.source) ==> final(self).seen_rep() == old(self).seen_rep().push(u@.source),
    {
        let n = self.seen.len();
        let mut known = false;
        let mut i: usize = 0;
        while i < n
            invariant
                i <= n,
                n == self.seen@.len(),
                known == exists|j: int| 0 <= j < i && self.seen_rep()[j] == u.source@,
            decreases n - i,
        {
            if !known {
                if str_eq(self.seen[i].as_str(), u.source.as_str()) {
                    proof {
                        assert(self.seen_rep()[i as int] == u.source@);
                    }
                    known = true;
                }
            }
            proof {
                if !known {
                    assert(forall|j: int| 0 <= j < i + 1 ==> self.seen_rep()[j] != u.source@);
                }
            }
            i += 1;
        }
        if !known {
            self.seen.push(u.source.clone());
            proof {
                assert(final(self).seen_rep() =~= old(self).seen_rep().push(u@.source));
            }
        }
        let mut out = "{\"key\":".to_owned();
        out.append("\"");
        append_escaped(&mut out, u.source.as_str());
        out.append("\"");
        out.append(",\"overlay\":");
        if !known {
            out.append("\"replace\"");
        } else {
            out.append("\"diff\"");
        }
        out.append(",\"data\":");
        let doc = json_of_update(u);
        out.append(doc.as_str());
        out.append("}");
        proof {
            assert(out@ =~= spec_envelope(u@, !known));
        }
        out
    }
}

} // verus!
