//! The journal filter pipeline: a global pre-mutation on every record,
//! per-filter matching and mutation, and a global post-mutation on emitted
//! records.
use vstd::prelude::*;

use crate::config::JournalFilter;
use crate::config::FilterCommon;
use crate::config::FilterCommonRep;
use crate::config::JournalFilterRep;
use crate::monitor::Severity;
use crate::patterns::Match;
use crate::patterns::MatchRep;
use crate::strutil::parse_decimal_i64;
use crate::strutil::spec_parse_i64;
use crate::strutil::str_starts_with;
use crate::value::distinct_keys;
use crate::value::lemma_map_bind;
use crate::value::lemma_map_drop;
use crate::value::lemma_map_extend;
use crate::value::lemma_map_find_witness;
use crate::value::lemma_map_key_index;
use crate::value::map_bind;
use crate::value::map_drop;
use crate::value::map_extend;
use crate::value::map_find;
use crate::value::map_key_index;
use crate::value::Value;
use crate::value::ValueMap;
use crate::value::ValueRep;

verus! {

broadcast use crate::value::value_rep_facts;

/// Entries of a record's attribute object.
pub type AttrEntries = Seq<(Seq<char>, ValueRep)>;

/// The `PRIORITY` attribute is absent or already a signed integer, as
/// `pre_mutate` leaves it.
pub open spec fn priority_normalized(attrs: AttrEntries) -> bool {
    match map_find(attrs, "PRIORITY"@) {
        Some(v) => v is Int,
        None => true,
    }
}

/// The severity a record's normalized `PRIORITY` attribute names, if any.
pub open spec fn spec_severity_of(attrs: AttrEntries) -> Option<Severity> {
    match map_find(attrs, "PRIORITY"@) {
        Some(v) => match v {
            ValueRep::Int(p) => Severity::of_num(p as int),
            _ => None,
        },
        None => None,
    }
}

/// The severity named by the record's `PRIORITY` attribute; a `PRIORITY`
/// that is not an integer names none.
pub fn get_severity(attrs: &ValueMap) -> (r: Option<Severity>)
    ensures
        r == spec_severity_of(attrs@),
{
    match attrs.get("PRIORITY") {
        Some(v) => match v.get_int() {
            Some(p) => match Severity::from_syslog(p) {
                Ok(s) => Some(s),
                Err(_) => None,
            },
            None => None,
        },
        None => None,
    }
}

/// The string value of attribute `path`, if it is a string; any other type
/// of value is treated as absent.
pub open spec fn spec_drill(attrs: AttrEntries, path: Seq<char>) -> Option<Seq<char>> {
    match map_find(attrs, path) {
        Some(v) => v.as_str(),
        None => None,
    }
}

/// The string value of attribute `path`, if any.
fn drill<'a>(path: &str, obj: &'a ValueMap) -> (r: Option<&'a String>)
    ensures
        (r is Some) == (spec_drill(obj@, path@) is Some),
        r matches Some(s) ==> spec_drill(obj@, path@) == Some(s@),
{
    match obj.get(path) {
        Some(v) => v.get_str(),
        None => None,
    }
}

/// What a matcher looks at and whether it matches: the named attribute's
/// string value, or the record's identity when no attribute is named. A
/// non-string or absent attribute matches nothing.
pub open spec fn spec_test_match(m: MatchRep, id: Seq<char>, attrs: AttrEntries) -> bool {
    match m.attr {
        Some(a) => match spec_drill(attrs, a) {
            Some(s) => m.pattern.accepts(s),
            None => false,
        },
        None => m.pattern.accepts(id),
    }
}

/// Whether matcher `m` matches the record.
fn test_match(m: &Match, id: &str, attribs: &ValueMap) -> (r: bool)
    requires
        m@.pattern.valid(),
    ensures
        r == spec_test_match(m@, id@, attribs@),
{
    match &m.attr {
        Some(attr) => match drill(attr.as_str(), attribs) {
            Some(s) => m.pattern.matches_text(s.as_str()),
            None => false,
        },
        None => m.pattern.matches_text(id),
    }
}

/// The include/exclude criterion: an empty include list admits everything,
/// otherwise some include matcher must match; no exclude matcher may match.
pub open spec fn spec_matches_common(c: FilterCommonRep, id: Seq<char>, attrs: AttrEntries) -> bool {
    &&& (c.includes.len() == 0 || exists|i: int|
        0 <= i < c.includes.len() && spec_test_match(#[trigger] c.includes[i], id, attrs))
    &&& !(exists|i: int|
        0 <= i < c.excludes.len() && spec_test_match(#[trigger] c.excludes[i], id, attrs))
}

/// Whether the record passes the include/exclude lists.
#[verifier::loop_isolation(false)]
fn matches_common(common: &FilterCommon, id: &str, payload: &ValueMap) -> (r: bool)
    requires
        common@.valid(),
    ensures
        r == spec_matches_common(common@, id@, payload@),
{
    let ninc = common.includes.len();
    if ninc > 0 {
        let mut i: usize = 0;
        let mut found = false;
        while i < ninc
            invariant
                i <= ninc,
                ninc == common@.includes.len(),
                common@.valid(),
                ninc == common.includes@.len(),
                forall|j: int| 0 <= j < ninc ==> common@.includes[j] == common.includes@[j]@,
                found == exists|j: int|
                    0 <= j < i && spec_test_match(#[trigger] common@.includes[j], id@, payload@),
            decreases ninc - i,
        {
            proof {
                assert(common@.includes[i as int] == common.includes@[i as int]@);
                assert(common@.includes[i as int].pattern.valid());
            }
            if !found {
                if test_match(&common.includes[i], id, payload) {
                    found = true;
                }
            }
            i += 1;
        }
        if !found {
            return false;
        }
    }
    let nexc = common.excludes.len();
    let mut i: usize = 0;
    while i < nexc
        invariant
            i <= nexc,
            nexc == common@.excludes.len(),
            common@.valid(),
            nexc == common.excludes@.len(),
            forall|j: int| 0 <= j < nexc ==> common@.excludes[j] == common.excludes@[j]@,
            forall|j: int| 0 <= j < i ==> !spec_test_match(
                #[trigger] common@.excludes[j],
                id@,
                payload@,
            ),
            ninc == common@.includes.len(),
            ninc > 0 ==> exists|j: int|
                0 <= j < ninc && spec_test_match(#[trigger] common@.includes[j], id@, payload@),
        decreases nexc - i,
    {
        proof {
            assert(common@.excludes[i as int] == common.excludes@[i as int]@);
            assert(common@.excludes[i as int].pattern.valid());
        }
        if test_match(&common.excludes[i], id, payload) {
            return false;
        }
        i += 1;
    }
    true
}

/// The numeric priority a record attribute denotes: an integer as itself, a
/// string by its decimal reading; anything else denotes none.
pub open spec fn spec_priority_value(v: ValueRep) -> Option<int> {
    match v {
        ValueRep::Int(p) => Some(p as int),
        ValueRep::UInt(p) => Some(p as int),
        ValueRep::Str(s) => match spec_parse_i64(s) {
            Some(x) => Some(x as int),
            None => None,
        },
        _ => None,
    }
}

/// The record's attributes after the global pre-mutation: `PRIORITY`
/// normalized to an integer and `SEVERITY` added when it names a severity,
/// `PRIORITY` dropped when it does not.
pub open spec fn spec_pre_mutate(attrs: AttrEntries) -> AttrEntries {
    match map_find(attrs, "PRIORITY"@) {
        None => attrs,
        Some(v) => match spec_priority_value(v) {
            Some(p) => if 0 <= p <= 7 {
                map_bind(
                    map_bind(attrs, "PRIORITY"@, ValueRep::Int(p as i64)),
                    "SEVERITY"@,
                    ValueRep::Str(Severity::of_num(p).unwrap().spec_name()),
                )
            } else {
                map_drop(attrs, "PRIORITY"@)
            },
            None => map_drop(attrs, "PRIORITY"@),
        },
    }
}

/// Normalize the record's `PRIORITY` attribute and derive `SEVERITY`.
pub fn pre_mutate(attrs: &mut ValueMap)
    ensures
        final(attrs)@ == spec_pre_mutate(old(attrs)@),
        old(attrs).wf() ==> final(attrs).wf(),
{
    let ghost pv = map_find(old(attrs)@, "PRIORITY"@);
    let mut present = false;
    let mut prio: Option<i64> = None;
    match attrs.get("PRIORITY") {
        None => {},
        Some(v) => {
            present = true;
            match v.get_int() {
                Some(p) => {
                    proof {
                        assert(spec_priority_value(v.rep()) == Some(p as int));
                    }
                    if 0 <= p && p <= 7 {
                        prio = Some(p);
                    }
                },
                None => {
                    match v.get_uint() {
                        Some(p) => {
                            proof {
                                assert(spec_priority_value(v.rep()) == Some(p as int));
                            }
                            if p <= 7 {
                                prio = Some(p as i64);
                            }
                        },
                        None => {
                            match v.get_str() {
                                Some(s) => {
                                    match parse_decimal_i64(s.as_str()) {
                                        Some(x) => {
                                            proof {
                                                crate::strutil::lemma_digits_value_nonneg(s@);
                                                assert(spec_priority_value(v.rep()) == Some(
                                                    x as int,
                                                ));
                                                assert(x >= 0);
                                            }
                                            if x <= 7 {
                                                prio = Some(x);
                                            }
                                        },
                                        None => {
                                            proof {
                                                assert(spec_priority_value(v.rep()) is None);
                                            }
                                        },
                                    }
                                },
                                None => {
                                    proof {
                                        assert(spec_priority_value(v.rep()) is None);
                                    }
                                },
                            }
                        },
                    }
                },
            }
        },
    }
    proof {
        assert(present == (pv is Some));
        if present {
            let q = spec_priority_value(pv.unwrap());
            match prio {
                Some(p) => {
                    assert(q == Some(p as int) && 0 <= p <= 7);
                },
                None => {
                    assert(match q {
                        Some(x) => !(0 <= x <= 7),
                        None => true,
                    });
                },
            }
        }
    }
    if present {
        match prio {
            Some(p) => {
                let sev = match Severity::from_syslog(p) {
                    Ok(s) => s,
                    Err(_) => Severity::Debug,
                };
                attrs.insert("PRIORITY".to_owned(), Value::Int(p));
                attrs.insert("SEVERITY".to_owned(), Value::Str(sev.to_string()));
                proof {
                    assert(final(attrs)@ == spec_pre_mutate(old(attrs)@));
                }
            },
            None => {
                let _ = attrs.remove("PRIORITY");
                proof {
                    assert(final(attrs)@ == spec_pre_mutate(old(attrs)@));
                }
            },
        }
    } else {
        proof {
            assert(final(attrs)@ == spec_pre_mutate(old(attrs)@));
        }
    }
}

/// After pre-mutation, `PRIORITY` is absent or an integer 0 through 7, and
/// when present, `SEVERITY` carries the name of the severity it denotes.
pub proof fn lemma_pre_mutate_normalized(attrs: AttrEntries)
    requires
        distinct_keys(attrs),
    ensures
        priority_normalized(spec_pre_mutate(attrs)),
        match map_find(spec_pre_mutate(attrs), "PRIORITY"@) {
            Some(v) => {
                &&& v matches ValueRep::Int(p)
                &&& 0 <= p <= 7
                &&& map_find(spec_pre_mutate(attrs), "SEVERITY"@) == Some(
                    ValueRep::Str(Severity::of_num(p as int).unwrap().spec_name()),
                )
            },
            None => true,
        },
{
    let out = spec_pre_mutate(attrs);
    match map_find(attrs, "PRIORITY"@) {
        None => {
        },
        Some(v) => {
            match spec_priority_value(v) {
                Some(p) => {
                    if 0 <= p <= 7 {
                        let mid = map_bind(attrs, "PRIORITY"@, ValueRep::Int(p as i64));
                        lemma_map_bind(attrs, "PRIORITY"@, ValueRep::Int(p as i64));
                        lemma_map_bind(
                            mid,
                            "SEVERITY"@,
                            ValueRep::Str(Severity::of_num(p).unwrap().spec_name()),
                        );
                        assert("PRIORITY"@ != "SEVERITY"@) by {
                            reveal_strlit("PRIORITY");
                            reveal_strlit("SEVERITY");
                            assert("PRIORITY"@[0] == 'P');
                            assert("SEVERITY"@[0] == 'S');
                        }
                    } else {
                        lemma_map_drop(attrs, "PRIORITY"@);
                    }
                },
                None => {
                    lemma_map_drop(attrs, "PRIORITY"@);
                },
            }
        },
    }
}

/// Whether one filter admits the record: the include/exclude lists pass and,
/// when the filter sets a severity floor and the record names a severity,
/// the record is at least that severe.
pub open spec fn spec_filter_matches(f: JournalFilterRep, id: Seq<char>, attrs: AttrEntries) -> bool {
    &&& spec_matches_common(f.common, id, attrs)
    &&& match f.level {
        None => true,
        Some(target) => match spec_severity_of(attrs) {
            None => true,
            Some(lvl) => lvl.spec_at_least(target),
        },
    }
}

impl JournalFilter {
    /// Whether this filter admits the record.
    pub fn matches(&self, id: &str, payload: &ValueMap) -> (r: bool)
        requires
            self@.valid(),
            priority_normalized(payload@),
        ensures
            r == spec_filter_matches(self@, id@, payload@),
    {
        if !matches_common(&self.common, id, payload) {
            return false;
        }
        match &self.level {
            None => true,
            Some(target) => match get_severity(payload) {
                None => true,
                Some(lvl) => lvl.at_least(target),
            },
        }
    }

    /// Merge this filter's attribute extension into the record.
    pub fn mutate(&self, orig: &mut ValueMap)
        ensures
            final(orig)@ == match self@.attr_extend {
                Some(e) => map_extend(old(orig)@, e),
                None => old(orig)@,
            },
    {
        match &self.attr_extend {
            Some(extra) => orig.extend_from(extra),
            None => {},
        }
    }
}

/// A key that the post-mutation strips: one that begins with an underscore.
pub open spec fn is_internal_key(k: Seq<char>) -> bool {
    k.len() > 0 && k[0] == '_'
}

/// Strip every attribute whose key begins with an underscore.
pub fn post_mutate(attrs: &mut ValueMap)
    requires
        old(attrs).wf(),
    ensures
        final(attrs).wf(),
        forall|i: int| 0 <= i < final(attrs)@.len() ==> !is_internal_key(
            #[trigger] final(attrs)@[i].0,
        ),
        forall|k: Seq<char>| !is_internal_key(k) ==> map_find(final(attrs)@, k) == map_find(
            old(attrs)@,
            k,
        ),
{
    let mut i: usize = 0;
    while i < attrs.len()
        invariant
            attrs.wf(),
            i <= attrs@.len(),
            forall|j: int| 0 <= j < i ==> !is_internal_key(#[trigger] attrs@[j].0),
            forall|k: Seq<char>| !is_internal_key(k) ==> map_find(attrs@, k) == map_find(
                old(attrs)@,
                k,
            ),
        decreases attrs@.len() - i,
    {
        let key_is_internal = {
            let e = attrs.entry_at(i);
            str_starts_with(e.0.as_str(), "_")
        };
        proof {
            reveal_strlit("_");
        }
        if key_is_internal {
            let ghost k0 = attrs@[i as int].0;
            proof {
                assert(is_internal_key(k0)) by {
                    assert(k0.subrange(0, 1)[0] == k0[0]);
                }
                lemma_map_find_witness(attrs@, k0, i as int);
                lemma_map_drop(attrs@, k0);
                assert(map_drop(attrs@, k0) == attrs@.remove(i as int));
            }
            attrs.remove_at(i);
        } else {
            proof {
                let k0 = attrs@[i as int].0;
                if is_internal_key(k0) {
                    assert(k0.subrange(0, 1) =~= "_"@);
                }
            }
            i += 1;
        }
    }
}

/// The position of the first filter that admits the record, from `i`
/// onward, or -1 when none does.
pub open spec fn spec_first_match(
    fs: Seq<JournalFilter>,
    id: Seq<char>,
    attrs: AttrEntries,
    i: int,
) -> int
    decreases fs.len() - i,
{
    if i < 0 || i >= fs.len() {
        -1
    } else if spec_filter_matches(fs[i]@, id, attrs) {
        i
    } else {
        spec_first_match(fs, id, attrs, i + 1)
    }
}

/// Every filter's patterns are well-formed.
pub open spec fn filters_valid(fs: Seq<JournalFilter>) -> bool {
    forall|i: int| 0 <= i < fs.len() ==> (#[trigger] fs[i])@.valid()
}

/// Whether the pipeline emits the record: no filters means everything is
/// emitted, otherwise some filter must admit it.
pub open spec fn spec_emits(fs: Seq<JournalFilter>, id: Seq<char>, attrs: AttrEntries) -> bool {
    fs.len() == 0 || spec_first_match(fs, id, spec_pre_mutate(attrs), 0) != -1
}

/// The attributes of the emitted record before the post-mutation: the
/// pre-mutated record, extended by the first matching filter.
pub open spec fn spec_emitted(fs: Seq<JournalFilter>, id: Seq<char>, attrs: AttrEntries)
    -> AttrEntries {
    let pre = spec_pre_mutate(attrs);
    if fs.len() == 0 {
        pre
    } else {
        let fm = spec_first_match(fs, id, pre, 0);
        match fs[fm]@.attr_extend {
            Some(e) => map_extend(pre, e),
            None => pre,
        }
    }
}

/// A first match exists exactly when some filter admits the record.
pub proof fn lemma_first_match_exists(
    fs: Seq<JournalFilter>,
    id: Seq<char>,
    attrs: AttrEntries,
    i: int,
)
    requires
        0 <= i <= fs.len(),
    ensures
        (spec_first_match(fs, id, attrs, i) != -1) <==> (exists|j: int|
            i <= j < fs.len() && spec_filter_matches((#[trigger] fs[j])@, id, attrs)),
        spec_first_match(fs, id, attrs, i) != -1 ==> {
            let fm = spec_first_match(fs, id, attrs, i);
            &&& i <= fm < fs.len()
            &&& spec_filter_matches(fs[fm]@, id, attrs)
            &&& forall|j: int| i <= j < fm ==> !spec_filter_matches((#[trigger] fs[j])@, id, attrs)
        },
    decreases fs.len() - i,
{
    if i < fs.len() && !spec_filter_matches(fs[i]@, id, attrs) {
        lemma_first_match_exists(fs, id, attrs, i + 1);
    }
}

/// Emission follows the per-filter criterion: with filters present, the
/// record is emitted exactly when some filter's include/exclude lists and
/// severity floor admit it; with none, it is always emitted.
pub proof fn lemma_filter_semantics(fs: Seq<JournalFilter>, id: Seq<char>, attrs: AttrEntries)
    ensures
        spec_emits(fs, id, attrs) <==> (fs.len() == 0 || exists|j: int|
            0 <= j < fs.len() && spec_filter_matches(
                (#[trigger] fs[j])@,
                id,
                spec_pre_mutate(attrs),
            )),
{
    lemma_first_match_exists(fs, id, spec_pre_mutate(attrs), 0);
}

/// Run the pipeline on one record: pre-mutate it, find the first admitting
/// filter, apply its mutation and the post-mutation, or drop the record.
#[verifier::loop_isolation(false)]
pub fn filter(id: &str, filters: &Vec<JournalFilter>, payload: ValueMap) -> (r: Option<ValueMap>)
    requires
        payload.wf(),
        filters_valid(filters@),
    ensures
        (r is Some) == spec_emits(filters@, id@, payload@),
        r matches Some(out) ==> {
            &&& out.wf()
            &&& (forall|i: int| 0 <= i < out@.len() ==> !is_internal_key(#[trigger] out@[i].0))
            &&& (forall|k: Seq<char>| !is_internal_key(k) ==> map_find(out@, k) == map_find(
                spec_emitted(filters@, id@, payload@),
                k,
            ))
        },
{
    let ghost orig = payload@;
    let mut payload = payload;
    pre_mutate(&mut payload);
    let ghost pre = payload@;
    if filters.is_empty() {
        post_mutate(&mut payload);
        return Some(payload);
    }
    let n = filters.len();
    let mut i: usize = 0;
    while i < n
        invariant
            payload@ == pre,
            pre == spec_pre_mutate(orig),
            payload.wf(),
            filters_valid(filters@),
            n == filters@.len(),
            n > 0,
            i <= n,
            spec_first_match(filters@, id@, pre, 0) == spec_first_match(filters@, id@, pre, i as int),
            forall|j: int| 0 <= j < i ==> !spec_filter_matches((#[trigger] filters@[j])@, id@, pre),
        decreases n - i,
    {
        proof {
            lemma_pre_mutate_normalized(orig);
            assert(filters@[i as int]@.valid());
        }
        if filters[i].matches(id, &payload) {
            filters[i].mutate(&mut payload);
            proof {
                match filters@[i as int]@.attr_extend {
                    Some(e) => {
                        lemma_map_extend(pre, e);
                    },
                    None => {},
                }
                assert(payload.wf());
                assert(spec_first_match(filters@, id@, pre, i as int) == i as int);
                assert(payload@ == spec_emitted(filters@, id@, orig));
            }
            post_mutate(&mut payload);
            return Some(payload);
        }
        proof {
            assert(spec_first_match(filters@, id@, pre, i as int) == spec_first_match(
                filters@,
                id@,
                pre,
                i + 1,
            ));
        }
        i += 1;
    }
    None
}

} // verus!
