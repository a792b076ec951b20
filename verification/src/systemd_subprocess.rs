//! The pull flavour of the service-manager source: it lists units and
//! fetches their properties through the service manager's command-line
//! tools. The subprocesses are run outside the core; the core parses their
//! output and decides how unit names are batched onto command lines.
use vstd::prelude::*;

use chrono::TimeZone;

use crate::errors::InternalError;
use crate::monitor::DataSource;
use crate::monitor::Status;
use crate::systemd_common::spec_state_of;
use crate::systemd_common::state_of_active_state;
use crate::value::map_find;
use crate::value::Value;
use crate::value::ValueMap;
use crate::value::ValueRep;

verus! {

broadcast use crate::value::value_rep_facts;

/// A conservative bound on one command line's arguments; real systems allow
/// more.
pub const MAX_EXECV_ARGLEN: usize = 4096;

/// The pull flavour of a service-manager source.
#[derive(Debug)]
pub struct SystemdPoller {
    pub ignored_types: Vec<String>,
    pub user: bool,
    pub id: String,
}

impl DataSource for SystemdPoller {
    closed spec fn spec_id(&self) -> Seq<char> {
        self.id@
    }

    closed spec fn spec_typ(&self) -> Seq<char> {
        "systemd"@
    }

    fn id(&self) -> (r: String)
        ensures
            r@ == self.spec_id(),
    {
        self.id.clone()
    }

    fn typ(&self) -> (r: String)
        ensures
            r@ == self.spec_typ(),
    {
        "systemd".to_owned()
    }
}

/// A blank-ish character of unit listings.
pub open spec fn is_listing_space(c: char) -> bool {
    c == ' ' || c == '\t'
}

/// The first position of `s` at or after `i` that does not hold a listing
/// space.
pub open spec fn first_nonspace(s: Seq<char>, i: int) -> int
    decreases s.len() - i,
{
    if i < 0 || i >= s.len() {
        s.len() as int
    } else if is_listing_space(s[i]) {
        first_nonspace(s, i + 1)
    } else {
        i
    }
}

/// The first position of `s` at or after `i` that holds a listing space.
pub open spec fn first_space(s: Seq<char>, i: int) -> int
    decreases s.len() - i,
{
    if i < 0 || i >= s.len() {
        s.len() as int
    } else if is_listing_space(s[i]) {
        i
    } else {
        first_space(s, i + 1)
    }
}

/// The unit name of a listing line: its first blank-delimited token.
pub open spec fn spec_unit_name_of_line(s: Seq<char>) -> Seq<char> {
    let a = first_nonspace(s, 0);
    let b = first_space(s, a);
    s.subrange(a, b)
}

impl SystemdPoller {
    /// The unit name a listing line starts with, after leading blanks.
    pub fn parse_unit_name<'a>(&self, list_line: &'a str) -> (r: Result<&'a str, InternalError>)
        ensures
            r matches Ok(t) && t@ == spec_unit_name_of_line(list_line@),
    {
        let n = list_line.unicode_len();
        let mut a: usize = 0;
        let mut stop_a = false;
        while a < n && !stop_a
            invariant
                a <= n,
                n == list_line@.len(),
                !stop_a ==> first_nonspace(list_line@, 0) == first_nonspace(list_line@, a as int),
                stop_a ==> first_nonspace(list_line@, 0) == a as int,
            decreases n - a + (if stop_a { 0int } else { 1int }),
        {
            let c = list_line.get_char(a);
            if c != ' ' && c != '\t' {
                stop_a = true;
            } else {
                a += 1;
            }
        }
        proof {
            assert(first_nonspace(list_line@, 0) == a as int);
        }
        let mut b: usize = a;
        let mut stop_b = false;
        while b < n && !stop_b
            invariant
                a <= b <= n,
                n == list_line@.len(),
                !stop_b ==> first_space(list_line@, a as int) == first_space(
                    list_line@,
                    b as int,
                ),
                stop_b ==> first_space(list_line@, a as int) == b as int,
            decreases n - b + (if stop_b { 0int } else { 1int }),
        {
            let c = list_line.get_char(b);
            if c == ' ' || c == '\t' {
                stop_b = true;
            } else {
                b += 1;
            }
        }
        proof {
            assert(first_space(list_line@, a as int) == b as int);
        }
        Ok(list_line.substring_char(a, b))
    }

    /// Whether adding a name of `next_len` to a command line already
    /// `argv_len` long would leave too little room for the leading
    /// arguments, so the batch must be flushed first.
    pub fn batch_full(&self, argv_len: usize, next_len: usize) -> (r: bool)
        requires
            argv_len <= MAX_EXECV_ARGLEN,
            next_len <= MAX_EXECV_ARGLEN,
        ensures
            r == (argv_len + next_len > MAX_EXECV_ARGLEN - 200),
    {
        argv_len + next_len > MAX_EXECV_ARGLEN - 200
    }
}

/// The position of the first `=` in `s`, or the length when it has none.
pub open spec fn first_eq(s: Seq<char>, i: int) -> int
    decreases s.len() - i,
{
    if i < 0 || i >= s.len() {
        s.len() as int
    } else if s[i] == '=' {
        i
    } else {
        first_eq(s, i + 1)
    }
}

/// Split one `key=value` property line; a line without `=` is invalid.
pub fn parse_prop_line(line: &str) -> (r: Result<(String, String), InternalError>)
    ensures
        (r is Ok) == (first_eq(line@, 0) < line@.len()),
        r matches Ok(kv) ==> {
            let e = first_eq(line@, 0);
            kv.0@ == line@.subrange(0, e) && kv.1@ == line@.subrange(e + 1, line@.len() as int)
        },
{
    let n = line.unicode_len();
    let mut i: usize = 0;
    let mut stop = false;
    while i < n && !stop
        invariant
            i <= n,
            n == line@.len(),
            !stop ==> first_eq(line@, 0) == first_eq(line@, i as int),
            stop ==> first_eq(line@, 0) == i as int,
        decreases n - i + (if stop { 0int } else { 1int }),
    {
        let c = line.get_char(i);
        if c == '=' {
            stop = true;
        } else {
            i += 1;
        }
    }
    proof {
        assert(first_eq(line@, 0) == i as int);
    }
    if i >= n {
        let mut m = "Invalid property line: ".to_owned();
        m.append(line);
        return Err(InternalError::new(m));
    }
    let key = line.substring_char(0, i).to_owned();
    let val = line.substring_char(i + 1, n).to_owned();
    Ok((key, val))
}

/// Relies on `chrono::NaiveDateTime::parse_from_str` and
/// `chrono::offset::Local`: the timestamp of a local date text depends on
/// the host's time zone, so nothing is stated of the outcome.
#[verifier::external_body]
fn parse_local_timestamp(s: &str) -> (r: Option<i64>)
{
    let dt = chrono::NaiveDateTime::parse_from_str(s, "%a %F %T").ok()?;
    chrono::offset::Local.from_local_datetime(&dt).single().map(|t| t.timestamp())
}

/// Whether a property key names a timestamp.
pub open spec fn spec_is_timestamp_key(k: Seq<char>) -> bool {
    k.len() >= 9 && k.subrange(k.len() - 9, k.len() as int) == "Timestamp"@
}

/// Whether `k` ends in `Timestamp`.
fn is_timestamp_key(k: &str) -> (r: bool)
    ensures
        r == spec_is_timestamp_key(k@),
{
    let n = k.unicode_len();
    if n < 9 {
        return false;
    }
    let tail = k.substring_char(n - 9, n);
    crate::strutil::str_eq(tail, "Timestamp")
}

/// The value of the first `ActiveState` property, if any.
pub open spec fn spec_active_state(props: Seq<(Seq<char>, Seq<char>)>) -> Option<Seq<char>> {
    map_find(props, "ActiveState"@)
}

/// The attributes carry the surviving properties: each non-empty property
/// other than `ActiveState` is bound under its key, a timestamp-named one
/// either parsed to an instant or kept as its text; `ActiveState` and
/// empty-valued properties are bound to nothing.
pub open spec fn spec_attrs_carry_props(
    prep: Seq<(Seq<char>, Seq<char>)>,
    attrs: Seq<(Seq<char>, ValueRep)>,
) -> bool {
    &&& (forall|j: int|
        0 <= j < prep.len() && (#[trigger] prep[j]).0 != "ActiveState"@ && prep[j].1.len() > 0
            ==> match map_find(attrs, prep[j].0) {
            Some(v) => match v {
                ValueRep::Str(t) => t == prep[j].1,
                ValueRep::Int(_) => spec_is_timestamp_key(prep[j].0),
                _ => false,
            },
            None => false,
        })
    &&& (forall|j: int|
        0 <= j < prep.len() && ((#[trigger] prep[j]).0 == "ActiveState"@ || prep[j].1.len()
            == 0) ==> map_find(attrs, prep[j].0) is None)
}

/// Turn one unit's `key=value` properties into a status: the `ActiveState`
/// property names the state and must be present; the other non-empty
/// properties become attributes, timestamp-named ones parsed against the
/// host's clock where possible. Properties of one unit carry distinct keys;
/// should a key repeat, the last non-empty occurrence wins.
#[verifier::loop_isolation(false)]
pub fn process_props(props: Vec<(String, String)>) -> (r: Result<Status, InternalError>)
    ensures
        (r is Ok) == (spec_active_state(
            Seq::new(props@.len(), |i: int| (props@[i].0@, props@[i].1@)),
        ) is Some),
        r matches Ok(st) ==> {
            let prep = Seq::new(props@.len(), |i: int| (props@[i].0@, props@[i].1@));
            &&& st@.state == spec_state_of(spec_active_state(prep).unwrap())
            &&& crate::value::distinct_keys(st@.attrs)
            &&& (crate::value::distinct_keys(prep) ==> spec_attrs_carry_props(prep, st@.attrs))
        },
{
    let ghost prep = Seq::new(props@.len(), |i: int| (props@[i].0@, props@[i].1@));
    let n = props.len();
    let mut active: Option<usize> = None;
    let mut i: usize = 0;
    while i < n
        invariant
            i <= n,
            match active {
                Some(k) => k < i <= n && prep[k as int].0 == "ActiveState"@ && (forall|j: int|
                    0 <= j < k ==> prep[j].0 != "ActiveState"@),
                None => forall|j: int| 0 <= j < i ==> prep[j].0 != "ActiveState"@,
            },
        decreases n - i,
    {
        if active.is_none() && crate::strutil::str_eq(props[i].0.as_str(), "ActiveState") {
            active = Some(i);
        }
        i += 1;
    }
    let k = match active {
        Some(k) => k,
        None => {
            proof {
                crate::value::lemma_map_key_index(prep, "ActiveState"@);
                if map_find(prep, "ActiveState"@) is Some {
                    let r2 = crate::value::map_key_index(prep, "ActiveState"@);
                    assert(prep[r2].0 != "ActiveState"@);
                    assert(false);
                }
            }
            return Err(InternalError::new("Missing service property: ActiveState".to_owned()));
        },
    };
    proof {
        crate::value::lemma_map_find_witness(prep, "ActiveState"@, k as int);
    }
    let state = state_of_active_state(props[k].1.as_str());
    let mut attrs = ValueMap::new();
    let mut j: usize = 0;
    while j < n
        invariant
            j <= n,
            attrs.wf(),
            crate::value::distinct_keys(prep) ==> {
                &&& (forall|i2: int|
                    0 <= i2 < j && (#[trigger] prep[i2]).0 != "ActiveState"@ && prep[i2].1.len()
                        > 0 ==> match map_find(attrs@, prep[i2].0) {
                        Some(v) => match v {
                            ValueRep::Str(t) => t == prep[i2].1,
                            ValueRep::Int(_) => spec_is_timestamp_key(prep[i2].0),
                            _ => false,
                        },
                        None => false,
                    })
                &&& (forall|i2: int|
                    0 <= i2 < j && ((#[trigger] prep[i2]).0 == "ActiveState"@ || prep[i2].1.len()
                        == 0) ==> map_find(attrs@, prep[i2].0) is None)
                &&& (forall|i2: int|
                    j <= i2 < n ==> map_find(attrs@, (#[trigger] prep[i2]).0) is None)
            },
        decreases n - j,
    {
        proof {
            if crate::value::distinct_keys(prep) {
                crate::value::lemma_map_key_index(attrs@, prep[j as int].0);
            }
        }
        if j != k {
            let key = props[j].0.clone();
            let val = &props[j].1;
            if val.unicode_len() > 0 {
                let bound: Value = if is_timestamp_key(key.as_str()) {
                    match timestamp_of_text(val.as_str()) {
                        Some(ts) => Value::Int(ts),
                        None => Value::Str(val.clone()),
                    }
                } else {
                    Value::Str(val.clone())
                };
                proof {
                    if crate::value::distinct_keys(prep) {
                        crate::value::lemma_map_bind(attrs@, key@, bound.rep());
                        assert forall|i2: int| 0 <= i2 < n && i2 != j implies prep[i2].0
                            != prep[j as int].0 by {}
                    }
                }
                attrs.insert(key, bound);
            }
        }
        j += 1;
    }
    Ok(Status { state, attrs })
}

/// The instant a timestamp property denotes, if its text parses: the
/// trailing time-zone word is dropped first, as the tools print one the
/// parser does not read.
fn timestamp_of_text(val: &str) -> (r: Option<i64>)
{
    let n = val.unicode_len();
    let mut last_space: usize = n;
    let mut scan: usize = n;
    while scan > 0
        invariant
            scan <= n,
            n == val@.len(),
            last_space <= n,
        decreases scan,
    {
        let c = val.get_char(scan - 1);
        if c == ' ' {
            last_space = scan - 1;
            scan = 0;
        } else {
            scan -= 1;
        }
    }
    if last_space >= n {
        return None;
    }
    parse_local_timestamp(val.substring_char(0, last_space))
}

} // verus!
