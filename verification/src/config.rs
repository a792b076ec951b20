//! The typed configuration: polymorphic per-source modules, per-filter rule
//! sets, and the poll interval. Parsing consumes every key it understands
//! and rejects what is left over.
use vstd::prelude::*;

use crate::config_error::ConfigError;
use crate::config_error::ConfigErrorReason;
use crate::monitor::opt_str_rep;
use crate::monitor::DurationMs;
use crate::monitor::Severity;
use crate::patterns::glob_compile;
use crate::patterns::glob_valid;
use crate::patterns::regex_compile;
use crate::patterns::regex_valid;
use crate::patterns::Match;
use crate::patterns::MatchRep;
use crate::patterns::Pattern;
use crate::patterns::PatternRep;
use crate::strutil::is_digit;
use crate::strutil::parse_decimal_i64;
use crate::strutil::spec_parse_i64;
use crate::strutil::str_eq;
use crate::value::entries_wf;
use crate::value::lemma_entries_wf;
use crate::value::lemma_entries_wf_drop;
use crate::value::map_drop;
use crate::value::map_find;
use crate::value::map_key_index;
use crate::value::rep_wf;
use crate::value::lemma_rep_wf_seq;
use crate::value::lemma_map_drop;
use crate::value::Value;
use crate::value::ValueMap;
use crate::value::ValueRep;

verus! {

broadcast use crate::value::value_rep_facts;

/// What every source module shares: its filters and its user-chosen id.
#[derive(Debug, Clone, PartialEq)]
pub struct CommonConfig<T> {
    pub filters: Vec<T>,
    pub id: String,
}

/// The matcher lists every filter carries.
#[derive(Debug, Clone, PartialEq)]
pub struct FilterCommon {
    pub includes: Vec<Match>,
    pub excludes: Vec<Match>,
}

/// The mathematical shape of a `FilterCommon`.
pub struct FilterCommonRep {
    pub includes: Seq<MatchRep>,
    pub excludes: Seq<MatchRep>,
}

impl View for FilterCommon {
    type V = FilterCommonRep;

    open spec fn view(&self) -> FilterCommonRep {
        FilterCommonRep {
            includes: Seq::new(self.includes@.len(), |i: int| self.includes@[i]@),
            excludes: Seq::new(self.excludes@.len(), |i: int| self.excludes@[i]@),
        }
    }
}

impl FilterCommonRep {
    /// Every pattern in both lists is well-formed.
    pub open spec fn valid(self) -> bool {
        &&& forall|i: int| 0 <= i < self.includes.len() ==> (#[trigger] self.includes[i]).pattern.valid()
        &&& forall|i: int| 0 <= i < self.excludes.len() ==> (#[trigger] self.excludes[i]).pattern.valid()
    }
}

/// One filter of a journal source: matchers, an optional severity floor, and
/// attributes to merge into matching records.
#[derive(Debug, Clone, PartialEq)]
pub struct JournalFilter {
    pub common: FilterCommon,
    pub level: Option<Severity>,
    pub attr_extend: Option<ValueMap>,
}

/// The mathematical shape of a `JournalFilter`.
pub struct JournalFilterRep {
    pub common: FilterCommonRep,
    pub level: Option<Severity>,
    pub attr_extend: Option<Seq<(Seq<char>, ValueRep)>>,
}

impl View for JournalFilter {
    type V = JournalFilterRep;

    open spec fn view(&self) -> JournalFilterRep {
        JournalFilterRep {
            common: self.common@,
            level: self.level,
            attr_extend: match &self.attr_extend {
                Some(m) => Some(m@),
                None => None,
            },
        }
    }
}

impl JournalFilterRep {
    /// Every pattern is well-formed and the extension keys are distinct.
    pub open spec fn valid(self) -> bool {
        &&& self.common.valid()
        &&& match self.attr_extend {
            Some(e) => crate::value::distinct_keys(e),
            None => true,
        }
    }
}

/// Configuration of a journal source.
#[derive(Debug, Clone, PartialEq)]
pub struct JournalConfig {
    pub common: CommonConfig<JournalFilter>,
    pub backlog: Option<i32>,
}

/// Configuration of a service-manager source.
#[derive(Debug, Clone, PartialEq)]
pub struct SystemdConfig {
    pub common: CommonConfig<()>,
    pub user: Option<bool>,
}

/// One configured source.
#[derive(Debug, Clone, PartialEq)]
pub enum SourceConfig {
    Systemd(SystemdConfig),
    Journal(JournalConfig),
}

/// How often pull sources are polled.
#[derive(Debug, Clone, Copy, PartialEq, Eq, Structural)]
pub struct PollConfig {
    pub interval: DurationMs,
}

/// The whole validated configuration.
#[derive(Debug, Clone, PartialEq)]
pub struct Config {
    pub sources: Vec<SourceConfig>,
    pub poll: PollConfig,
}


/// The whole configuration is structurally valid: every journal filter's
/// patterns compile and its attribute extension has distinct keys.
pub open spec fn config_valid(c: Config) -> bool {
    forall|i: int| 0 <= i < c.sources@.len() ==> match #[trigger] c.sources@[i] {
        SourceConfig::Journal(j) => crate::filter::filters_valid(j.common.filters@),
        SourceConfig::Systemd(_) => true,
    }
}

/// An error annotated with the key under which it arose.
fn err_at(key: &str, mut e: ConfigError) -> (r: ConfigError)
    ensures
        r.reason == e.reason,
        crate::config_error::ctx_rep(r.context@) =~= crate::config_error::ctx_rep(
            e.context@,
        ).push(key@),
{
    let ghost c0 = e.context@;
    e.annotate(key.to_owned());
    proof {
        assert(crate::config_error::ctx_rep(e.context@) =~= crate::config_error::ctx_rep(
            c0,
        ).push(key@));
    }
    e
}

/// The message a type mismatch carries.
pub open spec fn mismatch_msg(expected: Seq<char>, v: ValueRep) -> Seq<char> {
    "Expected "@ + expected + ", got "@ + v.kind_name()
}

/// The error is a plain message at the given path, deepest key first.
pub open spec fn err_is(e: ConfigError, msg: Seq<char>, path: Seq<Seq<char>>) -> bool {
    &&& e.reason matches ConfigErrorReason::Generic(m) && m@ == msg
    &&& crate::config_error::ctx_rep(e.context@) =~= path
}

/// The error is a missing-value report at the given path.
pub open spec fn err_is_missing(e: ConfigError, path: Seq<Seq<char>>) -> bool {
    &&& e.reason is Missing
    &&& crate::config_error::ctx_rep(e.context@) =~= path
}

/// The type-mismatch error for a value: what was expected, what was found.
pub fn type_mismatch(v: &Value, expected: &str) -> (r: ConfigError)
    ensures
        r.reason matches ConfigErrorReason::Generic(m) && m@ == "Expected "@ + expected@
            + ", got "@ + v.rep().kind_name(),
        r.context@.len() == 0,
{
    let mut m = "Expected ".to_owned();
    m.append(expected);
    m.append(", got ");
    m.append(v.kind_name());
    ConfigError::new(m)
}

/// The keys of leftover entries, joined with commas.
pub open spec fn spec_keys_join(e: Seq<(Seq<char>, crate::value::ValueRep)>) -> Seq<char>
    decreases e.len(),
{
    if e.len() == 0 {
        Seq::empty()
    } else if e.len() == 1 {
        e[0].0
    } else {
        spec_keys_join(e.drop_last()) + ", "@ + e.last().0
    }
}

/// The error for keys that no part of the schema consumed, placed at the
/// first such key.
fn unused_keys_error(attrs: &ValueMap) -> (r: ConfigError)
    requires
        attrs@.len() > 0,
    ensures
        r.reason matches ConfigErrorReason::Generic(m) && m@ == "Unused config key(s): "@
            + spec_keys_join(attrs@),
        r.context@.len() == 1 && r.context@[0]@ == attrs@[0].0,
{
    let mut m = "Unused config key(s): ".to_owned();
    let n = attrs.len();
    let mut i: usize = 0;
    while i < n
        invariant
            i <= n,
            n == attrs@.len(),
            m@ == "Unused config key(s): "@ + spec_keys_join(attrs@.subrange(0, i as int)),
        decreases n - i,
    {
        if i > 0 {
            m.append(", ");
        }
        let e = attrs.entry_at(i);
        m.append(e.0.as_str());
        proof {
            let pre = attrs@.subrange(0, i as int);
            let cur = attrs@.subrange(0, i + 1);
            assert(cur.drop_last() =~= pre);
            assert(cur.last() == attrs@[i as int]);
            if i == 0 {
                assert(m@ =~= "Unused config key(s): "@ + spec_keys_join(cur));
            } else {
                assert(m@ =~= "Unused config key(s): "@ + spec_keys_join(cur));
            }
        }
        i += 1;
    }
    proof {
        assert(attrs@.subrange(0, n as int) =~= attrs@);
    }
    let first = attrs.entry_at(0).0.clone();
    let mut err = ConfigError::new(m);
    err.annotate(first);
    err
}

/// The severity a name denotes, if any.
pub open spec fn severity_of_name(s: Seq<char>) -> Option<Severity> {
    if s == "Emergency"@ {
        Some(Severity::Emergency)
    } else if s == "Alert"@ {
        Some(Severity::Alert)
    } else if s == "Critical"@ {
        Some(Severity::Critical)
    } else if s == "Error"@ {
        Some(Severity::Error)
    } else if s == "Warning"@ {
        Some(Severity::Warning)
    } else if s == "Notice"@ {
        Some(Severity::Notice)
    } else if s == "Info"@ {
        Some(Severity::Info)
    } else if s == "Debug"@ {
        Some(Severity::Debug)
    } else {
        None
    }
}

/// The severity a name denotes: defined exactly on the eight names.
pub fn as_severity(s: &str) -> (r: Result<Severity, ConfigError>)
    ensures
        (r is Ok) == (severity_of_name(s@) is Some),
        r matches Ok(sev) ==> severity_of_name(s@) == Some(sev),
        r matches Err(e) ==> err_is(e, "Unknown severity: "@ + s@, Seq::empty()),
{
    if str_eq(s, "Emergency") {
        Ok(Severity::Emergency)
    } else if str_eq(s, "Alert") {
        Ok(Severity::Alert)
    } else if str_eq(s, "Critical") {
        Ok(Severity::Critical)
    } else if str_eq(s, "Error") {
        Ok(Severity::Error)
    } else if str_eq(s, "Warning") {
        Ok(Severity::Warning)
    } else if str_eq(s, "Notice") {
        Ok(Severity::Notice)
    } else if str_eq(s, "Info") {
        Ok(Severity::Info)
    } else if str_eq(s, "Debug") {
        Ok(Severity::Debug)
    } else {
        let mut m = "Unknown severity: ".to_owned();
        m.append(s);
        Err(ConfigError::new(m))
    }
}

/// The first position in `s` that does not hold a decimal digit, or the
/// length when all are digits.
pub open spec fn first_nondigit(s: Seq<char>, i: int) -> int
    decreases s.len() - i,
{
    if i < 0 || i >= s.len() {
        s.len() as int
    } else if !is_digit(s[i]) {
        i
    } else {
        first_nondigit(s, i + 1)
    }
}

/// The factor a duration suffix denotes, in milliseconds.
pub open spec fn suffix_factor(s: Seq<char>) -> Option<int> {
    if s == "ms"@ {
        Some(1)
    } else if s == "s"@ {
        Some(1000)
    } else if s == "m"@ {
        Some(60000)
    } else if s == "h"@ {
        Some(3600000)
    } else if s == "d"@ {
        Some(86400000)
    } else {
        None
    }
}

/// The milliseconds a duration string denotes: decimal digits followed by
/// one of `ms s m h d`, the product fitting a signed 64-bit count.
pub open spec fn spec_duration_ms(s: Seq<char>) -> Option<int> {
    let i = first_nondigit(s, 0);
    if i >= s.len() {
        None
    } else {
        let digits = s.subrange(0, i);
        let suffix = s.subrange(i, s.len() as int);
        match spec_parse_i64(digits) {
            Some(v) => match suffix_factor(suffix) {
                Some(f) => if v * f <= i64::MAX {
                    Some(v * f)
                } else {
                    None
                },
                None => None,
            },
            None => None,
        }
    }
}

/// Parse a duration string into milliseconds.
pub fn parse_duration(s: &str) -> (r: Result<DurationMs, ConfigError>)
    ensures
        (r is Ok) == (spec_duration_ms(s@) is Some),
        r matches Ok(d) ==> spec_duration_ms(s@) == Some(d.ms as int) && d.ms >= 0,
        r matches Err(e) ==> err_is(e, "Invalid duration: "@ + s@, Seq::empty()),
{
    let n = s.unicode_len();
    let mut i: usize = 0;
    let mut stop = false;
    while i < n && !stop
        invariant
            i <= n,
            n == s@.len(),
            !stop ==> first_nondigit(s@, 0) == first_nondigit(s@, i as int),
            stop ==> (i < n && first_nondigit(s@, 0) == i as int),
        decreases n - i + (if stop { 0int } else { 1int }),
    {
        let c = s.get_char(i);
        if c < '0' || c > '9' {
            stop = true;
        } else {
            i += 1;
        }
    }
    proof {
        assert(first_nondigit(s@, 0) == i as int);
    }
    if i >= n {
        let mut m = "Invalid duration: ".to_owned();
        m.append(s);
        return Err(ConfigError::new(m));
    }
    let digits = s.substring_char(0, i);
    let suffix = s.substring_char(i, n);
    let v = match parse_decimal_i64(digits) {
        Some(v) => v,
        None => {
            let mut m = "Invalid duration: ".to_owned();
            m.append(s);
            return Err(ConfigError::new(m));
        },
    };
    let factor: i64 = if str_eq(suffix, "ms") {
        1
    } else if str_eq(suffix, "s") {
        1000
    } else if str_eq(suffix, "m") {
        60000
    } else if str_eq(suffix, "h") {
        3600000
    } else if str_eq(suffix, "d") {
        86400000
    } else {
        let mut m = "Invalid duration: ".to_owned();
        m.append(s);
        return Err(ConfigError::new(m));
    };
    proof {
        crate::strutil::lemma_digits_value_nonneg(digits@);
    }
    match v.checked_mul(factor) {
        Some(ms) => Ok(DurationMs { ms }),
        None => {
            let mut m = "Invalid duration: ".to_owned();
            m.append(s);
            Err(ConfigError::new(m))
        },
    }
}


/// All-digit positions push the first non-digit to `k`, where a non-digit
/// sits.
proof fn lemma_first_nondigit_from(s: Seq<char>, i: int, k: int)
    requires
        0 <= i <= k < s.len(),
        forall|j: int| i <= j < k ==> is_digit(s[j]),
        !is_digit(s[k]),
    ensures
        first_nondigit(s, i) == k,
    decreases k - i,
{
    if i < k {
        lemma_first_nondigit_from(s, i + 1, k);
    }
}

/// A rendered millisecond count followed by `ms` reads back as itself.
pub proof fn lemma_duration_round_trip(ms: int)
    requires
        0 <= ms <= i64::MAX,
    ensures
        spec_duration_ms(crate::strutil::spec_decimal(ms) + "ms"@) == Some(ms),
{
    let digits = crate::strutil::spec_decimal(ms);
    let s = digits + "ms"@;
    crate::strutil::lemma_decimal_round_trip(ms);
    assert("ms"@.len() == 2 && "ms"@[0] == 'm' && "ms"@[1] == 's') by {
        reveal_strlit("ms");
    }
    let dl = digits.len() as int;
    assert(s[dl] == 'm');
    assert(!is_digit('m'));
    assert forall|j: int| 0 <= j < dl implies is_digit(s[j]) by {
        assert(s[j] == digits[j]);
    }
    lemma_first_nondigit_from(s, 0, dl);
    assert(s.subrange(0, dl) =~= digits);
    assert(s.subrange(dl, s.len() as int) =~= "ms"@);
    assert(spec_parse_i64(digits) == Some(ms as i64));
    assert(suffix_factor("ms"@) == Some(1int));
    assert((ms as i64) * 1 == ms);
}

/// The pattern a matcher object's `type` and `pattern` texts denote, when
/// the type is known and the pattern well-formed.
pub open spec fn spec_pattern_of(typ: Seq<char>, pat: Seq<char>) -> Option<PatternRep> {
    if typ == "glob"@ {
        if glob_valid(pat) {
            Some(PatternRep::Glob(pat))
        } else {
            None
        }
    } else if typ == "regex"@ {
        if regex_valid(pat) {
            Some(PatternRep::Regex(pat))
        } else {
            None
        }
    } else if typ == "literal"@ {
        Some(PatternRep::Literal(pat))
    } else {
        None
    }
}

/// Whether a value is a well-formed matcher: a bare string, or an object of
/// `attr`, `type` and `pattern` with a known type and a pattern its engine
/// accepts.
pub open spec fn spec_matcher_ok(v: ValueRep) -> bool {
    match v {
        ValueRep::Str(_) => true,
        ValueRep::Obj(e) => {
            &&& match map_find(e, "attr"@) {
                None => true,
                Some(a) => a is Str,
            }
            &&& match (map_find(e, "type"@), map_find(e, "pattern"@)) {
                (Some(t), Some(p)) => {
                    &&& t is Str
                    &&& p is Str
                    &&& spec_pattern_of(t.as_str().unwrap(), p.as_str().unwrap()) is Some
                },
                _ => false,
            }
            &&& map_drop(map_drop(map_drop(e, "attr"@), "type"@), "pattern"@).len() == 0
        },
        _ => false,
    }
}

/// The matcher a well-formed matcher value denotes.
pub open spec fn spec_matcher(v: ValueRep) -> MatchRep {
    match v {
        ValueRep::Str(lit) => MatchRep { attr: None, pattern: PatternRep::Literal(lit) },
        ValueRep::Obj(e) => MatchRep {
            attr: match map_find(e, "attr"@) {
                Some(a) => a.as_str(),
                None => None,
            },
            pattern: match (map_find(e, "type"@), map_find(e, "pattern"@)) {
                (Some(t), Some(p)) => match spec_pattern_of(
                    t.as_str().unwrap(),
                    p.as_str().unwrap(),
                ) {
                    Some(x) => x,
                    None => PatternRep::Literal(Seq::empty()),
                },
                _ => PatternRep::Literal(Seq::empty()),
            },
        },
        _ => MatchRep { attr: None, pattern: PatternRep::Literal(Seq::empty()) },
    }
}

/// Why a matcher object with a readable shape was rejected: an unknown
/// pattern type, a pattern its engine refuses (reported in the engine's own
/// words), or a leftover key. `tail` is the path from the matcher outward.
pub open spec fn spec_matcher_typed_err(ents: Entries, e: ConfigError, tail: Seq<Seq<char>>) -> bool {
    match (map_find(ents, "type"@), map_find(ents, "pattern"@)) {
        (Some(tv), Some(pv2)) => {
            let t = tv.as_str().unwrap();
            let p2 = pv2.as_str().unwrap();
            if t != "glob"@ && t != "regex"@ && t != "literal"@ {
                err_is(e, "Unsupported pattern type: "@ + t, tail)
            } else if spec_pattern_of(t, p2) is None {
                (e.reason is Generic) && crate::config_error::ctx_rep(e.context@) =~= tail
            } else {
                let rest = map_drop(map_drop(map_drop(ents, "attr"@), "type"@), "pattern"@);
                rest.len() != 0 && err_is(
                    e,
                    "Unused config key(s): "@ + spec_keys_join(rest),
                    seq![rest[0].0] + tail,
                )
            }
        },
        _ => false,
    }
}

/// Why a matcher value was rejected, its error's path ending in `tail`.
pub open spec fn spec_matcher_err(v: ValueRep, e: ConfigError, tail: Seq<Seq<char>>) -> bool {
    match v {
        ValueRep::Str(_) => false,
        ValueRep::Obj(ents) => {
            let bad_attr = match map_find(ents, "attr"@) {
                Some(av) => !(av is Str),
                None => false,
            };
            if bad_attr {
                let av = map_find(ents, "attr"@).unwrap();
                err_is(e, mismatch_msg("String"@, av), seq!["attr"@] + tail)
            } else {
                match map_find(ents, "type"@) {
                    None => err_is_missing(e, seq!["type"@] + tail),
                    Some(tv) => if !(tv is Str) {
                        err_is(e, mismatch_msg("String"@, tv), seq!["type"@] + tail)
                    } else {
                        match map_find(ents, "pattern"@) {
                            None => err_is_missing(e, seq!["pattern"@] + tail),
                            Some(pv2) => if !(pv2 is Str) {
                                err_is(e, mismatch_msg("String"@, pv2), seq!["pattern"@] + tail)
                            } else {
                                spec_matcher_typed_err(ents, e, tail)
                            },
                        }
                    },
                }
            }
        },
        _ => err_is(e, mismatch_msg("String or Object"@, v), tail),
    }
}

/// Annotating a rejected matcher's error with one more key extends its path.
proof fn lemma_matcher_err_annotate(
    v: ValueRep,
    e: ConfigError,
    e2: ConfigError,
    key: Seq<char>,
    tail: Seq<Seq<char>>,
)
    requires
        spec_matcher_err(v, e, tail),
        e2.reason == e.reason,
        crate::config_error::ctx_rep(e2.context@) =~= crate::config_error::ctx_rep(
            e.context@,
        ).push(key),
    ensures
        spec_matcher_err(v, e2, tail.push(key)),
{
    assert forall|p: Seq<Seq<char>>|
        crate::config_error::ctx_rep(e.context@) =~= (p + tail) implies crate::config_error::ctx_rep(
        e2.context@,
    ) =~= (p + tail.push(key)) by {
        assert((p + tail).push(key) =~= p + tail.push(key));
    }
    assert(crate::config_error::ctx_rep(e.context@) =~= tail ==> crate::config_error::ctx_rep(
        e2.context@,
    ) =~= tail.push(key)) by {
        if crate::config_error::ctx_rep(e.context@) =~= tail {
            assert(tail.push(key) =~= crate::config_error::ctx_rep(e.context@).push(key));
        }
    }
    match v {
        ValueRep::Obj(ents) => {
            assert(seq!["attr"@] + tail.push(key) =~= (seq!["attr"@] + tail).push(key));
            assert(seq!["type"@] + tail.push(key) =~= (seq!["type"@] + tail).push(key));
            assert(seq!["pattern"@] + tail.push(key) =~= (seq!["pattern"@] + tail).push(key));
            let rest = map_drop(map_drop(map_drop(ents, "attr"@), "type"@), "pattern"@);
            if rest.len() != 0 {
                assert(seq![rest[0].0] + tail.push(key) =~= (seq![rest[0].0] + tail).push(key));
            }
        },
        _ => (),
    }
}

/// Parse one matcher: a bare string is a literal match on the record's
/// identity; an object names an attribute, a pattern type and a pattern.
pub fn parse_matcher(v: Value) -> (r: Result<Match, ConfigError>)
    requires
        rep_wf(v.rep()),
    ensures
        (r is Ok) == spec_matcher_ok(v.rep()),
        r matches Ok(m) ==> m@ == spec_matcher(v.rep()) && m@.pattern.valid(),
        r matches Err(e) ==> spec_matcher_err(v.rep(), e, Seq::empty()),
{
    let v = match v.into_str() {
        Ok(lit) => {
            return Ok(Match { attr: None, pattern: Pattern::Literal(lit) });
        },
        Err(v) => v,
    };
    let mut attrs = match v.into_obj() {
        Ok(m) => m,
        Err(v) => {
            return Err(type_mismatch(&v, "String or Object"));
        },
    };
    let ghost e = attrs@;
    proof {
        lemma_entries_wf(e);
        lemma_entries_wf_drop(e, "attr"@);
        crate::value::lemma_map_drop(e, "attr"@);
        lemma_entries_wf_drop(map_drop(e, "attr"@), "type"@);
        crate::value::lemma_map_drop(map_drop(e, "attr"@), "type"@);
        assert("attr"@ != "type"@ && "attr"@ != "pattern"@ && "type"@ != "pattern"@) by {
            reveal_strlit("attr");
            reveal_strlit("type");
            reveal_strlit("pattern");
            assert("attr"@[0] == 'a' && "type"@[0] == 't' && "pattern"@[0] == 'p');
        }
    }
    let attr: Option<String> = match attrs.remove("attr") {
        None => None,
        Some(av) => match av.into_str() {
            Ok(a) => Some(a),
            Err(av) => {
                return Err(err_at("attr", type_mismatch(&av, "String")));
            },
        },
    };
    let typ: String = match attrs.remove("type") {
        None => {
            return Err(err_at("type", ConfigError::missing()));
        },
        Some(tv) => match tv.into_str() {
            Ok(t) => t,
            Err(tv) => {
                return Err(err_at("type", type_mismatch(&tv, "String")));
            },
        },
    };
    let pat: String = match attrs.remove("pattern") {
        None => {
            return Err(err_at("pattern", ConfigError::missing()));
        },
        Some(pv) => match pv.into_str() {
            Ok(p) => p,
            Err(pv) => {
                return Err(err_at("pattern", type_mismatch(&pv, "String")));
            },
        },
    };
    let pattern: Pattern = if str_eq(typ.as_str(), "glob") {
        match glob_compile(pat.as_str()) {
            None => Pattern::Glob(pat),
            Some(msg) => {
                return Err(ConfigError::new(msg));
            },
        }
    } else if str_eq(typ.as_str(), "regex") {
        match regex_compile(pat.as_str()) {
            None => Pattern::Regex(pat),
            Some(msg) => {
                return Err(ConfigError::new(msg));
            },
        }
    } else if str_eq(typ.as_str(), "literal") {
        Pattern::Literal(pat)
    } else {
        let mut m = "Unsupported pattern type: ".to_owned();
        m.append(typ.as_str());
        return Err(ConfigError::new(m));
    };
    if !attrs.is_empty() {
        return Err(unused_keys_error(&attrs));
    }
    Ok(Match { attr, pattern })
}


/// The entries of an object value.
pub type Entries = Seq<(Seq<char>, ValueRep)>;

/// The mathematical shape of a `SystemdConfig`: systemd filters carry no
/// data, so only their number remains.
pub struct SystemdConfigRep {
    pub id: Seq<char>,
    pub nfilters: nat,
    pub user: Option<bool>,
}

/// The mathematical shape of a `JournalConfig`.
pub struct JournalConfigRep {
    pub id: Seq<char>,
    pub filters: Seq<JournalFilterRep>,
    pub backlog: Option<i32>,
}

/// The mathematical shape of a `SourceConfig`.
pub enum SourceConfigRep {
    Systemd(SystemdConfigRep),
    Journal(JournalConfigRep),
}

/// The mathematical shape of a `Config`.
pub struct ConfigRep {
    pub sources: Seq<SourceConfigRep>,
    pub poll_ms: int,
}

impl View for SystemdConfig {
    type V = SystemdConfigRep;

    open spec fn view(&self) -> SystemdConfigRep {
        SystemdConfigRep {
            id: self.common.id@,
            nfilters: self.common.filters@.len(),
            user: self.user,
        }
    }
}

impl View for JournalConfig {
    type V = JournalConfigRep;

    open spec fn view(&self) -> JournalConfigRep {
        JournalConfigRep {
            id: self.common.id@,
            filters: Seq::new(self.common.filters@.len(), |i: int| self.common.filters@[i]@),
            backlog: self.backlog,
        }
    }
}

impl View for SourceConfig {
    type V = SourceConfigRep;

    open spec fn view(&self) -> SourceConfigRep {
        match self {
            SourceConfig::Systemd(c) => SourceConfigRep::Systemd(c@),
            SourceConfig::Journal(c) => SourceConfigRep::Journal(c@),
        }
    }
}

impl View for Config {
    type V = ConfigRep;

    open spec fn view(&self) -> ConfigRep {
        ConfigRep {
            sources: Seq::new(self.sources@.len(), |i: int| self.sources@[i]@),
            poll_ms: self.poll.interval.ms as int,
        }
    }
}

/// Whether every value of a sequence is a well-formed matcher.
pub open spec fn spec_matcher_seq_ok(s: Seq<ValueRep>) -> bool
    decreases s.len(),
{
    if s.len() == 0 {
        true
    } else {
        spec_matcher_seq_ok(s.drop_last()) && spec_matcher_ok(s.last())
    }
}

/// The matchers a sequence of matcher values denotes.
pub open spec fn spec_matcher_seq(s: Seq<ValueRep>) -> Seq<MatchRep>
    decreases s.len(),
{
    if s.len() == 0 {
        Seq::empty()
    } else {
        spec_matcher_seq(s.drop_last()).push(spec_matcher(s.last()))
    }
}

/// `spec_matcher_seq_ok` and `spec_matcher_seq` are element-wise.
pub proof fn lemma_spec_matcher_seq(s: Seq<ValueRep>)
    ensures
        spec_matcher_seq_ok(s) == (forall|i: int| 0 <= i < s.len() ==> spec_matcher_ok(
            #[trigger] s[i],
        )),
        spec_matcher_seq(s).len() == s.len(),
        forall|i: int| 0 <= i < s.len() ==> spec_matcher_seq(s)[i] == spec_matcher(#[trigger] s[i]),
    decreases s.len(),
{
    if s.len() > 0 {
        lemma_spec_matcher_seq(s.drop_last());
        if forall|i: int| 0 <= i < s.drop_last().len() ==> spec_matcher_ok(
            #[trigger] s.drop_last()[i],
        ) {
            assert forall|i: int| 0 <= i < s.len() - 1 implies spec_matcher_ok(#[trigger] s[i]) by {
                assert(spec_matcher_ok(s.drop_last()[i]));
            }
        }
        if forall|i: int| 0 <= i < s.len() ==> spec_matcher_ok(#[trigger] s[i]) {
            assert forall|i: int| 0 <= i < s.drop_last().len() implies spec_matcher_ok(
                #[trigger] s.drop_last()[i],
            ) by {
                assert(spec_matcher_ok(s[i]));
            }
        }
        assert forall|i: int| 0 <= i < s.len() implies spec_matcher_seq(s)[i] == spec_matcher(
            #[trigger] s[i],
        ) by {
            if i < s.len() - 1 {
                assert(spec_matcher_seq(s.drop_last())[i] == spec_matcher(s.drop_last()[i]));
                assert(s.drop_last()[i] == s[i]);
            }
        }
    }
}

/// Whether an optional matcher-list value is well-formed: absent, or an
/// array of well-formed matchers.
pub open spec fn spec_matchers_ok(v: Option<ValueRep>) -> bool {
    match v {
        None => true,
        Some(x) => match x {
            ValueRep::Arr(s) => spec_matcher_seq_ok(s),
            _ => false,
        },
    }
}

/// The matchers an optional matcher-list value denotes.
pub open spec fn spec_matchers(v: Option<ValueRep>) -> Seq<MatchRep> {
    match v {
        None => Seq::empty(),
        Some(x) => match x {
            ValueRep::Arr(s) => spec_matcher_seq(s),
            _ => Seq::empty(),
        },
    }
}

/// Why a matcher list was rejected: not an array, or its first ill-formed
/// matcher, the error's path carrying that matcher's index before `tail`.
pub open spec fn spec_matchers_err(v: Option<ValueRep>, e: ConfigError, tail: Seq<Seq<char>>) -> bool {
    match v {
        None => false,
        Some(x) => match x {
            ValueRep::Arr(items) => exists|j: int|
                #![auto]
                {
                    &&& 0 <= j < items.len()
                    &&& !spec_matcher_ok(items[j])
                    &&& (forall|i: int| 0 <= i < j ==> spec_matcher_ok(#[trigger] items[i]))
                    &&& spec_matcher_err(
                        items[j],
                        e,
                        seq![crate::strutil::spec_decimal(j)] + tail,
                    )
                },
            _ => err_is(e, mismatch_msg("Array"@, x), tail),
        },
    }
}

/// Annotating a rejected matcher list's error with one more key extends its
/// path.
proof fn lemma_matchers_err_annotate(
    v: Option<ValueRep>,
    e: ConfigError,
    e2: ConfigError,
    key: Seq<char>,
    tail: Seq<Seq<char>>,
)
    requires
        spec_matchers_err(v, e, tail),
        e2.reason == e.reason,
        crate::config_error::ctx_rep(e2.context@) =~= crate::config_error::ctx_rep(
            e.context@,
        ).push(key),
    ensures
        spec_matchers_err(v, e2, tail.push(key)),
{
    match v {
        Some(x) => match x {
            ValueRep::Arr(items) => {
                let j = choose|j: int|
                    #![auto]
                    {
                        &&& 0 <= j < items.len()
                        &&& !spec_matcher_ok(items[j])
                        &&& (forall|i: int| 0 <= i < j ==> spec_matcher_ok(#[trigger] items[i]))
                        &&& spec_matcher_err(
                            items[j],
                            e,
                            seq![crate::strutil::spec_decimal(j)] + tail,
                        )
                    };
                lemma_matcher_err_annotate(
                    items[j],
                    e,
                    e2,
                    key,
                    seq![crate::strutil::spec_decimal(j)] + tail,
                );
                assert((seq![crate::strutil::spec_decimal(j)] + tail).push(key) =~= seq![
                    crate::strutil::spec_decimal(j),
                ] + tail.push(key));
            },
            _ => {
                assert(tail.push(key) =~= crate::config_error::ctx_rep(e.context@).push(key));
            },
        },
        None => (),
    }
}

/// Every matcher's pattern is well-formed.
pub open spec fn matchers_valid(ms: Seq<MatchRep>) -> bool {
    forall|i: int| 0 <= i < ms.len() ==> (#[trigger] ms[i]).pattern.valid()
}

/// Parse an optional matcher list: absent means none.
#[verifier::loop_isolation(false)]
fn parse_matchers(v: Option<Value>) -> (r: Result<Vec<Match>, ConfigError>)
    requires
        match v {
            Some(x) => rep_wf(x.rep()),
            None => true,
        },
    ensures
        (r is Ok) == spec_matchers_ok(opt_rep(&v)),
        r matches Ok(ms) ==> {
            &&& ms@.len() == spec_matchers(opt_rep(&v)).len()
            &&& (forall|i: int| 0 <= i < ms@.len() ==> (#[trigger] ms@[i])@ == spec_matchers(
                opt_rep(&v),
            )[i])
            &&& matchers_valid(Seq::new(ms@.len(), |i: int| ms@[i]@))
        },
        r matches Err(e) ==> spec_matchers_err(opt_rep(&v), e, Seq::empty()),
{
    let x = match v {
        None => {
            proof {
                lemma_spec_matcher_seq(Seq::empty());
            }
            return Ok(Vec::new());
        },
        Some(x) => x,
    };
    let mut items = match x.into_arr() {
        Ok(a) => a,
        Err(x) => {
            return Err(type_mismatch(&x, "Array"));
        },
    };
    let ghost orig = Value::rep_of_seq(items@);
    proof {
        Value::lemma_rep_of_seq(items@);
        lemma_spec_matcher_seq(orig);
        lemma_rep_wf_seq(orig);
    }
    let mut out: Vec<Match> = Vec::new();
    let n = items.len();
    let mut idx: usize = 0;
    while idx < n
        invariant
            idx <= n,
            n == orig.len(),
            items@.len() == n - idx,
            forall|j: int| 0 <= j < items@.len() ==> (#[trigger] items@[j]).rep() == orig[idx + j],
            out@.len() == idx as int,
            forall|j: int| 0 <= j < idx ==> spec_matcher_ok(#[trigger] orig[j]),
            forall|j: int| 0 <= j < idx ==> (#[trigger] out@[j])@ == spec_matcher(orig[j])
                && out@[j]@.pattern.valid(),
            spec_matcher_seq_ok(orig) == (forall|i: int| 0 <= i < orig.len() ==> spec_matcher_ok(
                #[trigger] orig[i],
            )),
            spec_matcher_seq(orig).len() == orig.len(),
            forall|i: int| 0 <= i < orig.len() ==> spec_matcher_seq(orig)[i] == spec_matcher(
                #[trigger] orig[i],
            ),
            forall|i: int| 0 <= i < orig.len() ==> rep_wf(#[trigger] orig[i]),
        decreases n - idx,
    {
        proof {
            Value::lemma_rep_of_seq(items@);
        }
        let item = items.remove(0);
        proof {
            Value::lemma_rep_of_seq(items@);
        }
        match parse_matcher(item) {
            Ok(m) => {
                out.push(m);
            },
            Err(e) => {
                proof {
                    assert(!spec_matcher_ok(orig[idx as int]));
                }
                let ghost e0 = e;
                let key = crate::strutil::u64_to_string(idx as u64);
                let mut e = e;
                e.annotate(key);
                proof {
                    assert(crate::config_error::ctx_rep(e.context@)
                        =~= crate::config_error::ctx_rep(e0.context@).push(
                        crate::strutil::spec_decimal(idx as int),
                    ));
                    assert(Seq::<Seq<char>>::empty().push(crate::strutil::spec_decimal(
                        idx as int,
                    )) =~= seq![crate::strutil::spec_decimal(idx as int)] + Seq::<
                        Seq<char>,
                    >::empty());
                    lemma_matcher_err_annotate(
                        orig[idx as int],
                        e0,
                        e,
                        crate::strutil::spec_decimal(idx as int),
                        Seq::empty(),
                    );
                    assert(spec_matchers_err(opt_rep(&v), e, Seq::empty()));
                }
                return Err(e);
            },
        }
        idx += 1;
    }
    Ok(out)
}

/// The shape of an optional value.
pub open spec fn opt_rep(v: &Option<Value>) -> Option<ValueRep> {
    match v {
        Some(x) => Some(x.rep()),
        None => None,
    }
}

/// Whether an object's `include` and `exclude` keys hold well-formed
/// matcher lists.
pub open spec fn spec_fc_ok(e: Entries) -> bool {
    spec_matchers_ok(map_find(e, "include"@)) && spec_matchers_ok(map_find(e, "exclude"@))
}

/// The matcher lists an object's `include` and `exclude` keys denote.
pub open spec fn spec_fc(e: Entries) -> FilterCommonRep {
    FilterCommonRep {
        includes: spec_matchers(map_find(e, "include"@)),
        excludes: spec_matchers(map_find(e, "exclude"@)),
    }
}

/// The entries left after consuming `include` and `exclude`.
pub open spec fn spec_fc_rest(e: Entries) -> Entries {
    map_drop(map_drop(e, "include"@), "exclude"@)
}

/// Why the matcher lists were rejected: the failing list's key ends the
/// error's path.
pub open spec fn spec_fc_err(ents: Entries, e: ConfigError) -> bool {
    if !spec_matchers_ok(map_find(ents, "include"@)) {
        spec_matchers_err(map_find(ents, "include"@), e, seq!["include"@])
    } else {
        !spec_matchers_ok(map_find(ents, "exclude"@)) && spec_matchers_err(
            map_find(ents, "exclude"@),
            e,
            seq!["exclude"@],
        )
    }
}

impl FilterCommon {
    /// Parse and consume the `include` and `exclude` keys.
    pub fn parse(attrs: &mut ValueMap) -> (r: Result<FilterCommon, ConfigError>)
        requires
            entries_wf(old(attrs)@),
        ensures
            (r is Ok) == spec_fc_ok(old(attrs)@),
            r is Ok ==> final(attrs)@ == spec_fc_rest(old(attrs)@) && entries_wf(final(attrs)@),
            r matches Ok(fc) ==> fc@ == spec_fc(old(attrs)@) && fc@.valid(),
            r matches Err(e2) ==> spec_fc_err(old(attrs)@, e2),
    {
        let ghost e = old(attrs)@;
        proof {
            lemma_entries_wf_drop(e, "include"@);
            lemma_map_drop(e, "include"@);
            lemma_entries_wf_drop(map_drop(e, "include"@), "exclude"@);
            assert("include"@ != "exclude"@) by {
                reveal_strlit("include");
                reveal_strlit("exclude");
                assert("include"@[0] == 'i' && "exclude"@[0] == 'e');
            }
        }
        let inc_v = attrs.remove("include");
        let includes = match parse_matchers(inc_v) {
            Ok(ms) => ms,
            Err(e2) => {
                let ghost inner = e2;
                let e2 = err_at("include", e2);
                proof {
                    lemma_matchers_err_annotate(
                        map_find(e, "include"@),
                        inner,
                        e2,
                        "include"@,
                        Seq::empty(),
                    );
                    assert(Seq::<Seq<char>>::empty().push("include"@) =~= seq!["include"@]);
                }
                return Err(e2);
            },
        };
        let exc_v = attrs.remove("exclude");
        let excludes = match parse_matchers(exc_v) {
            Ok(ms) => ms,
            Err(e2) => {
                let ghost inner = e2;
                let e2 = err_at("exclude", e2);
                proof {
                    lemma_matchers_err_annotate(
                        map_find(e, "exclude"@),
                        inner,
                        e2,
                        "exclude"@,
                        Seq::empty(),
                    );
                    assert(Seq::<Seq<char>>::empty().push("exclude"@) =~= seq!["exclude"@]);
                }
                return Err(e2);
            },
        };
        let fc = FilterCommon { includes, excludes };
        proof {
            assert(fc@.includes =~= spec_fc(e).includes);
            assert(fc@.excludes =~= spec_fc(e).excludes);
        }
        Ok(fc)
    }
}

/// Whether an object's entries form one journal filter: matcher lists, an
/// optional severity name under `level`, an optional object under
/// `attr_extend`.
pub open spec fn spec_jf_ok(e: Entries) -> bool {
    &&& spec_fc_ok(e)
    &&& match map_find(e, "level"@) {
        None => true,
        Some(lv) => lv is Str && severity_of_name(lv.as_str().unwrap()) is Some,
    }
    &&& match map_find(e, "attr_extend"@) {
        None => true,
        Some(av) => av is Obj,
    }
}

/// The journal filter an object's entries denote.
pub open spec fn spec_jf(e: Entries) -> JournalFilterRep {
    JournalFilterRep {
        common: spec_fc(e),
        level: match map_find(e, "level"@) {
            Some(lv) => severity_of_name(lv.as_str().unwrap()),
            None => None,
        },
        attr_extend: match map_find(e, "attr_extend"@) {
            Some(av) => av.as_obj(),
            None => None,
        },
    }
}

/// The entries left after consuming the journal filter keys.
pub open spec fn spec_jf_rest(e: Entries) -> Entries {
    map_drop(map_drop(spec_fc_rest(e), "level"@), "attr_extend"@)
}

/// Parse and consume one journal filter's keys from an object.
fn parse_journal_filter(attrs: &mut ValueMap) -> (r: Result<JournalFilter, ConfigError>)
    requires
        entries_wf(old(attrs)@),
    ensures
        (r is Ok) == spec_jf_ok(old(attrs)@),
        r is Ok ==> final(attrs)@ == spec_jf_rest(old(attrs)@) && entries_wf(final(attrs)@),
        r matches Ok(f) ==> f@ == spec_jf(old(attrs)@) && f@.valid() && spec_filter_deep_wf(f),
{
    let ghost e = old(attrs)@;
    proof {
        lemma_keys_distinct_filter();
        lemma_entries_wf_drop(e, "include"@);
        lemma_map_drop(e, "include"@);
        lemma_entries_wf_drop(map_drop(e, "include"@), "exclude"@);
        lemma_map_drop(map_drop(e, "include"@), "exclude"@);
        lemma_entries_wf_drop(spec_fc_rest(e), "level"@);
        lemma_map_drop(spec_fc_rest(e), "level"@);
        lemma_entries_wf_drop(map_drop(spec_fc_rest(e), "level"@), "attr_extend"@);
        lemma_map_drop(map_drop(spec_fc_rest(e), "level"@), "attr_extend"@);
    }
    let common = match FilterCommon::parse(attrs) {
        Ok(fc) => fc,
        Err(err) => {
            return Err(err);
        },
    };
    let level: Option<Severity> = match attrs.remove("level") {
        None => None,
        Some(lv) => match lv.into_str() {
            Ok(name) => match as_severity(name.as_str()) {
                Ok(sev) => Some(sev),
                Err(err) => {
                    return Err(err_at("level", err));
                },
            },
            Err(lv) => {
                return Err(err_at("level", type_mismatch(&lv, "String")));
            },
        },
    };
    let attr_extend: Option<ValueMap> = match attrs.remove("attr_extend") {
        None => None,
        Some(av) => match av.into_obj() {
            Ok(m) => Some(m),
            Err(av) => {
                return Err(err_at("attr_extend", type_mismatch(&av, "Object")));
            },
        },
    };
    let f = JournalFilter { common, level, attr_extend };
    proof {
        assert(f@.common == spec_jf(e).common);
    }
    Ok(f)
}

/// The distinct filter keys: `include`, `exclude`, `level`, `attr_extend`,
/// `filters`, `backlog`, `user` and `module` are pairwise different.
proof fn lemma_keys_distinct_filter()
    ensures
        "include"@ != "exclude"@,
        "level"@ != "include"@ && "level"@ != "exclude"@,
        "attr_extend"@ != "include"@ && "attr_extend"@ != "exclude"@ && "attr_extend"@
            != "level"@,
        "filters"@ != "include"@ && "filters"@ != "exclude"@ && "filters"@ != "level"@
            && "filters"@ != "attr_extend"@ && "filters"@ != "backlog"@ && "filters"@ != "user"@,
        "backlog"@ != "include"@ && "backlog"@ != "exclude"@ && "backlog"@ != "level"@
            && "backlog"@ != "attr_extend"@,
        "user"@ != "include"@ && "user"@ != "exclude"@ && "user"@ != "level"@ && "user"@
            != "attr_extend"@ && "user"@ != "backlog"@,
        "module"@ != "filters"@ && "module"@ != "backlog"@ && "module"@ != "user"@ && "module"@
            != "include"@ && "module"@ != "exclude"@ && "module"@ != "level"@ && "module"@
            != "attr_extend"@,
        "poll"@ != "sources"@,
        "interval"@ != "poll"@,
{
    reveal_strlit("include");
    reveal_strlit("exclude");
    reveal_strlit("level");
    reveal_strlit("attr_extend");
    reveal_strlit("filters");
    reveal_strlit("backlog");
    reveal_strlit("user");
    reveal_strlit("module");
    reveal_strlit("poll");
    reveal_strlit("sources");
    reveal_strlit("interval");
    assert("include"@[0] == 'i');
    assert("exclude"@[0] == 'e');
    assert("level"@[0] == 'l');
    assert("attr_extend"@[0] == 'a');
    assert("filters"@[0] == 'f');
    assert("backlog"@[0] == 'b');
    assert("user"@[0] == 'u');
    assert("module"@[0] == 'm');
    assert("poll"@[0] == 'p');
    assert("sources"@[0] == 's');
    assert("interval"@[0] == 'i');
    assert("interval"@.len() == 8);
    assert("poll"@.len() == 4);
}


/// Whether a value is one complete journal filter object.
pub open spec fn spec_jf_obj_ok(v: ValueRep) -> bool {
    match v {
        ValueRep::Obj(e) => spec_jf_ok(e) && spec_jf_rest(e).len() == 0,
        _ => false,
    }
}

/// The journal filter a complete filter object denotes.
pub open spec fn spec_jf_obj(v: ValueRep) -> JournalFilterRep {
    match v {
        ValueRep::Obj(e) => spec_jf(e),
        _ => spec_jf(Seq::empty()),
    }
}

/// Whether every value of a sequence is a complete journal filter object.
pub open spec fn spec_jf_objs_ok(s: Seq<ValueRep>) -> bool
    decreases s.len(),
{
    if s.len() == 0 {
        true
    } else {
        spec_jf_objs_ok(s.drop_last()) && spec_jf_obj_ok(s.last())
    }
}

/// The journal filters a sequence of filter objects denotes.
pub open spec fn spec_jf_objs(s: Seq<ValueRep>) -> Seq<JournalFilterRep>
    decreases s.len(),
{
    if s.len() == 0 {
        Seq::empty()
    } else {
        spec_jf_objs(s.drop_last()).push(spec_jf_obj(s.last()))
    }
}

/// `spec_jf_objs_ok` and `spec_jf_objs` are element-wise.
pub proof fn lemma_spec_jf_objs(s: Seq<ValueRep>)
    ensures
        spec_jf_objs_ok(s) == (forall|i: int| 0 <= i < s.len() ==> spec_jf_obj_ok(
            #[trigger] s[i],
        )),
        spec_jf_objs(s).len() == s.len(),
        forall|i: int| 0 <= i < s.len() ==> spec_jf_objs(s)[i] == spec_jf_obj(#[trigger] s[i]),
    decreases s.len(),
{
    if s.len() > 0 {
        lemma_spec_jf_objs(s.drop_last());
        if forall|i: int| 0 <= i < s.drop_last().len() ==> spec_jf_obj_ok(
            #[trigger] s.drop_last()[i],
        ) {
            assert forall|i: int| 0 <= i < s.len() - 1 implies spec_jf_obj_ok(#[trigger] s[i]) by {
                assert(spec_jf_obj_ok(s.drop_last()[i]));
            }
        }
        if forall|i: int| 0 <= i < s.len() ==> spec_jf_obj_ok(#[trigger] s[i]) {
            assert forall|i: int| 0 <= i < s.drop_last().len() implies spec_jf_obj_ok(
                #[trigger] s.drop_last()[i],
            ) by {
                assert(spec_jf_obj_ok(s[i]));
            }
        }
        assert forall|i: int| 0 <= i < s.len() implies spec_jf_objs(s)[i] == spec_jf_obj(
            #[trigger] s[i],
        ) by {
            if i < s.len() - 1 {
                assert(spec_jf_objs(s.drop_last())[i] == spec_jf_obj(s.drop_last()[i]));
                assert(s.drop_last()[i] == s[i]);
            }
        }
    }
}

/// Parse one complete journal filter object.
fn parse_journal_filter_obj(v: Value) -> (r: Result<JournalFilter, ConfigError>)
    requires
        rep_wf(v.rep()),
    ensures
        (r is Ok) == spec_jf_obj_ok(v.rep()),
        r matches Ok(f) ==> f@ == spec_jf_obj(v.rep()) && f@.valid() && spec_filter_deep_wf(f),
{
    let mut attrs = match v.into_obj() {
        Ok(m) => m,
        Err(v) => {
            return Err(type_mismatch(&v, "Object"));
        },
    };
    proof {
        lemma_entries_wf(attrs@);
    }
    let f = match parse_journal_filter(&mut attrs) {
        Ok(f) => f,
        Err(e) => {
            return Err(e);
        },
    };
    if !attrs.is_empty() {
        return Err(unused_keys_error(&attrs));
    }
    Ok(f)
}

/// Whether an optional backlog entry is a fitting integer.
pub open spec fn spec_backlog_ok(e: Entries) -> bool {
    match map_find(e, "backlog"@) {
        None => true,
        Some(b) => match b {
            ValueRep::Int(n) => -2147483648 <= n <= 2147483647,
            ValueRep::UInt(n) => n <= 2147483647,
            _ => false,
        },
    }
}

/// The backlog an object's entries denote.
pub open spec fn spec_backlog(e: Entries) -> Option<i32> {
    match map_find(e, "backlog"@) {
        None => None,
        Some(b) => match b {
            ValueRep::Int(n) => Some(n as i32),
            ValueRep::UInt(n) => Some(n as i32),
            _ => None,
        },
    }
}

/// Parse and consume an optional `backlog` key.
fn parse_backlog(attrs: &mut ValueMap) -> (r: Result<Option<i32>, ConfigError>)
    ensures
        (r is Ok) == spec_backlog_ok(old(attrs)@),
        final(attrs)@ == map_drop(old(attrs)@, "backlog"@),
        r matches Ok(b) ==> b == spec_backlog(old(attrs)@),
        old(attrs).wf() ==> final(attrs).wf(),
{
    match attrs.remove("backlog") {
        None => Ok(None),
        Some(bv) => match bv.get_int() {
            Some(n) => {
                if -2147483648i64 <= n && n <= 2147483647i64 {
                    Ok(Some(n as i32))
                } else {
                    Err(err_at("backlog", ConfigError::new("backlog out of range".to_owned())))
                }
            },
            None => match bv.get_uint() {
                Some(n) => {
                    if n <= 2147483647u64 {
                        Ok(Some(n as i32))
                    } else {
                        Err(err_at("backlog", ConfigError::new("backlog out of range".to_owned())))
                    }
                },
                None => Err(err_at("backlog", type_mismatch(&bv, "Integer"))),
            },
        },
    }
}

/// Whether an optional module body is a complete journal module: an
/// explicit `filters` array or one implicit filter, then `backlog`, with
/// nothing left over.
pub open spec fn spec_jmodule_ok(o: Option<Entries>) -> bool {
    match o {
        None => true,
        Some(e) => match map_find(e, "filters"@) {
            Some(fv) => {
                &&& match fv {
                    ValueRep::Arr(s) => spec_jf_objs_ok(s),
                    _ => false,
                }
                &&& spec_backlog_ok(map_drop(e, "filters"@))
                &&& map_drop(map_drop(e, "filters"@), "backlog"@).len() == 0
            },
            None => {
                &&& spec_jf_ok(e)
                &&& spec_backlog_ok(spec_jf_rest(e))
                &&& map_drop(spec_jf_rest(e), "backlog"@).len() == 0
            },
        },
    }
}

/// The filters of a journal module body.
pub open spec fn spec_jmodule_filters(o: Option<Entries>) -> Seq<JournalFilterRep> {
    match o {
        None => Seq::empty(),
        Some(e) => match map_find(e, "filters"@) {
            Some(fv) => match fv {
                ValueRep::Arr(s) => spec_jf_objs(s),
                _ => Seq::empty(),
            },
            None => seq![spec_jf(e)],
        },
    }
}

/// The backlog of a journal module body.
pub open spec fn spec_jmodule_backlog(o: Option<Entries>) -> Option<i32> {
    match o {
        None => None,
        Some(e) => match map_find(e, "filters"@) {
            Some(_) => spec_backlog(map_drop(e, "filters"@)),
            None => spec_backlog(spec_jf_rest(e)),
        },
    }
}

/// Parse a journal module body; an absent body takes every default.
#[verifier::loop_isolation(false)]
#[verifier::rlimit(60)]
fn parse_journal_module(id: String, attrs: Option<ValueMap>) -> (r: Result<
    JournalConfig,
    ConfigError,
>)
    requires
        match attrs {
            Some(m) => entries_wf(m@),
            None => true,
        },
    ensures
        (r is Ok) == spec_jmodule_ok(opt_entries(attrs)),
        r matches Ok(c) ==> {
            &&& c@.id == id@
            &&& c@.filters == spec_jmodule_filters(opt_entries(attrs))
            &&& c@.backlog == spec_jmodule_backlog(opt_entries(attrs))
            &&& crate::filter::filters_valid(c.common.filters@)
            &&& (forall|i: int|
                0 <= i < c.common.filters@.len() ==> (
                #[trigger] c.common.filters@[i])@.valid() && spec_filter_deep_wf(
                    c.common.filters@[i],
                ))
        },
{
    let mut attrs = match attrs {
        None => {
            let c = JournalConfig {
                common: CommonConfig { filters: Vec::new(), id },
                backlog: None,
            };
            proof {
                assert(c@.filters =~= spec_jmodule_filters(None));
            }
            return Ok(c);
        },
        Some(m) => m,
    };
    let ghost e = attrs@;
    proof {
        lemma_keys_distinct_filter();
        crate::value::lemma_map_key_index(e, "filters"@);
        lemma_entries_wf_drop(e, "filters"@);
        lemma_map_drop(e, "filters"@);
        lemma_entries_wf_drop(map_drop(e, "filters"@), "backlog"@);
        lemma_map_drop(map_drop(e, "filters"@), "backlog"@);
        lemma_entries_wf_drop(e, "include"@);
        lemma_map_drop(e, "include"@);
        lemma_entries_wf_drop(map_drop(e, "include"@), "exclude"@);
        lemma_map_drop(map_drop(e, "include"@), "exclude"@);
        lemma_entries_wf_drop(spec_fc_rest(e), "level"@);
        lemma_map_drop(spec_fc_rest(e), "level"@);
        lemma_entries_wf_drop(map_drop(spec_fc_rest(e), "level"@), "attr_extend"@);
        lemma_map_drop(map_drop(spec_fc_rest(e), "level"@), "attr_extend"@);
        lemma_entries_wf_drop(spec_jf_rest(e), "backlog"@);
        lemma_map_drop(spec_jf_rest(e), "backlog"@);
    }
    let filters: Vec<JournalFilter> = match attrs.remove("filters") {
        Some(fv) => {
            proof {
                lemma_entries_wf(e);
            }
            let mut items = match fv.into_arr() {
                Ok(a) => a,
                Err(fv) => {
                    return Err(err_at("filters", type_mismatch(&fv, "Array")));
                },
            };
            let ghost orig = Value::rep_of_seq(items@);
            proof {
                Value::lemma_rep_of_seq(items@);
                lemma_spec_jf_objs(orig);
                lemma_rep_wf_seq(orig);
            }
            let mut out: Vec<JournalFilter> = Vec::new();
            let n = items.len();
            let mut idx: usize = 0;
            while idx < n
                invariant
                    idx <= n,
                    n == orig.len(),
                    items@.len() == n - idx,
                    forall|j: int| 0 <= j < items@.len() ==> (#[trigger] items@[j]).rep()
                        == orig[idx + j],
                    out@.len() == idx as int,
                    forall|j: int| 0 <= j < idx ==> spec_jf_obj_ok(#[trigger] orig[j]),
                    forall|j: int| 0 <= j < idx ==> (#[trigger] out@[j])@ == spec_jf_obj(orig[j])
                        && out@[j]@.valid() && spec_filter_deep_wf(out@[j]),
                decreases n - idx,
            {
                proof {
                    Value::lemma_rep_of_seq(items@);
                }
                let item = items.remove(0);
                proof {
                    Value::lemma_rep_of_seq(items@);
                }
                match parse_journal_filter_obj(item) {
                    Ok(f) => {
                        out.push(f);
                    },
                    Err(err) => {
                        proof {
                            assert(!spec_jf_obj_ok(orig[idx as int]));
                        }
                        let key = crate::strutil::u64_to_string(idx as u64);
                        let mut err = err;
                        err.annotate(key);
                        return Err(err_at("filters", err));
                    },
                }
                idx += 1;
            }
            out
        },
        None => {
            let f = match parse_journal_filter(&mut attrs) {
                Ok(f) => f,
                Err(err) => {
                    return Err(err);
                },
            };
            let mut out: Vec<JournalFilter> = Vec::new();
            out.push(f);
            out
        },
    };
    let backlog = match parse_backlog(&mut attrs) {
        Ok(b) => b,
        Err(err) => {
            return Err(err);
        },
    };
    if !attrs.is_empty() {
        return Err(unused_keys_error(&attrs));
    }
    let c = JournalConfig { common: CommonConfig { filters, id }, backlog };
    proof {
        assert(c@.filters =~= spec_jmodule_filters(Some(e)));
    }
    Ok(c)
}

/// The entries of an optional object.
pub open spec fn opt_entries(o: Option<ValueMap>) -> Option<Entries> {
    match o {
        Some(m) => Some(m@),
        None => None,
    }
}

/// Whether an optional `user` entry is a boolean.
pub open spec fn spec_user_ok(e: Entries) -> bool {
    match map_find(e, "user"@) {
        None => true,
        Some(u) => u is Bool,
    }
}

/// The `user` flag an object's entries denote.
pub open spec fn spec_user(e: Entries) -> Option<bool> {
    match map_find(e, "user"@) {
        None => None,
        Some(u) => u.as_bool(),
    }
}

/// Whether a value is one complete service-manager filter object: matcher
/// lists and nothing else.
pub open spec fn spec_sfilter_obj_ok(v: ValueRep) -> bool {
    match v {
        ValueRep::Obj(e) => spec_fc_ok(e) && spec_fc_rest(e).len() == 0,
        _ => false,
    }
}

/// Whether every value of a sequence is a complete service-manager filter
/// object.
pub open spec fn spec_sfilter_objs_ok(s: Seq<ValueRep>) -> bool
    decreases s.len(),
{
    if s.len() == 0 {
        true
    } else {
        spec_sfilter_objs_ok(s.drop_last()) && spec_sfilter_obj_ok(s.last())
    }
}

/// `spec_sfilter_objs_ok` is element-wise.
pub proof fn lemma_spec_sfilter_objs(s: Seq<ValueRep>)
    ensures
        spec_sfilter_objs_ok(s) == (forall|i: int| 0 <= i < s.len() ==> spec_sfilter_obj_ok(
            #[trigger] s[i],
        )),
    decreases s.len(),
{
    if s.len() > 0 {
        lemma_spec_sfilter_objs(s.drop_last());
        if forall|i: int| 0 <= i < s.drop_last().len() ==> spec_sfilter_obj_ok(
            #[trigger] s.drop_last()[i],
        ) {
            assert forall|i: int| 0 <= i < s.len() - 1 implies spec_sfilter_obj_ok(
                #[trigger] s[i],
            ) by {
                assert(spec_sfilter_obj_ok(s.drop_last()[i]));
            }
        }
        if forall|i: int| 0 <= i < s.len() ==> spec_sfilter_obj_ok(#[trigger] s[i]) {
            assert forall|i: int| 0 <= i < s.drop_last().len() implies spec_sfilter_obj_ok(
                #[trigger] s.drop_last()[i],
            ) by {
                assert(spec_sfilter_obj_ok(s[i]));
            }
        }
    }
}

/// Whether an optional module body is a complete service-manager module.
pub open spec fn spec_smodule_ok(o: Option<Entries>) -> bool {
    match o {
        None => true,
        Some(e) => match map_find(e, "filters"@) {
            Some(fv) => {
                &&& match fv {
                    ValueRep::Arr(s) => spec_sfilter_objs_ok(s),
                    _ => false,
                }
                &&& spec_user_ok(map_drop(e, "filters"@))
                &&& map_drop(map_drop(e, "filters"@), "user"@).len() == 0
            },
            None => {
                &&& spec_fc_ok(e)
                &&& spec_user_ok(spec_fc_rest(e))
                &&& map_drop(spec_fc_rest(e), "user"@).len() == 0
            },
        },
    }
}

/// The number of filters of a service-manager module body.
pub open spec fn spec_smodule_nfilters(o: Option<Entries>) -> nat {
    match o {
        None => 0,
        Some(e) => match map_find(e, "filters"@) {
            Some(fv) => match fv {
                ValueRep::Arr(s) => s.len(),
                _ => 0,
            },
            None => 1,
        },
    }
}

/// The `user` flag of a service-manager module body.
pub open spec fn spec_smodule_user(o: Option<Entries>) -> Option<bool> {
    match o {
        None => None,
        Some(e) => match map_find(e, "filters"@) {
            Some(_) => spec_user(map_drop(e, "filters"@)),
            None => spec_user(spec_fc_rest(e)),
        },
    }
}

/// Parse a service-manager module body; an absent body takes every default.
#[verifier::loop_isolation(false)]
fn parse_systemd_module(id: String, attrs: Option<ValueMap>) -> (r: Result<
    SystemdConfig,
    ConfigError,
>)
    requires
        match attrs {
            Some(m) => entries_wf(m@),
            None => true,
        },
    ensures
        (r is Ok) == spec_smodule_ok(opt_entries(attrs)),
        r matches Ok(c) ==> {
            &&& c@.id == id@
            &&& c@.nfilters == spec_smodule_nfilters(opt_entries(attrs))
            &&& c@.user == spec_smodule_user(opt_entries(attrs))
        },
{
    let mut attrs = match attrs {
        None => {
            return Ok(SystemdConfig { common: CommonConfig { filters: Vec::new(), id }, user: None });
        },
        Some(m) => m,
    };
    let ghost e = attrs@;
    proof {
        lemma_keys_distinct_filter();
        crate::value::lemma_map_key_index(e, "filters"@);
        lemma_entries_wf_drop(e, "filters"@);
        lemma_map_drop(e, "filters"@);
        lemma_entries_wf_drop(map_drop(e, "filters"@), "user"@);
        lemma_map_drop(map_drop(e, "filters"@), "user"@);
        lemma_entries_wf_drop(e, "include"@);
        lemma_map_drop(e, "include"@);
        lemma_entries_wf_drop(map_drop(e, "include"@), "exclude"@);
        lemma_map_drop(map_drop(e, "include"@), "exclude"@);
        lemma_entries_wf_drop(spec_fc_rest(e), "user"@);
        lemma_map_drop(spec_fc_rest(e), "user"@);
    }
    let nfilters: usize = match attrs.remove("filters") {
        Some(fv) => {
            proof {
                lemma_entries_wf(e);
            }
            let mut items = match fv.into_arr() {
                Ok(a) => a,
                Err(fv) => {
                    return Err(err_at("filters", type_mismatch(&fv, "Array")));
                },
            };
            let ghost orig = Value::rep_of_seq(items@);
            proof {
                Value::lemma_rep_of_seq(items@);
                lemma_spec_sfilter_objs(orig);
                lemma_rep_wf_seq(orig);
            }
            let n = items.len();
            let mut idx: usize = 0;
            while idx < n
                invariant
                    idx <= n,
                    n == orig.len(),
                    items@.len() == n - idx,
                    forall|j: int| 0 <= j < items@.len() ==> (#[trigger] items@[j]).rep()
                        == orig[idx + j],
                    forall|j: int| 0 <= j < idx ==> spec_sfilter_obj_ok(#[trigger] orig[j]),
                decreases n - idx,
            {
                proof {
                    Value::lemma_rep_of_seq(items@);
                }
                let item = items.remove(0);
                proof {
                    Value::lemma_rep_of_seq(items@);
                }
                let mut fattrs = match item.into_obj() {
                    Ok(m) => m,
                    Err(item) => {
                        proof {
                            assert(!spec_sfilter_obj_ok(orig[idx as int]));
                        }
                        let key = crate::strutil::u64_to_string(idx as u64);
                        return Err(err_at("filters", err_at(
                            key.as_str(),
                            type_mismatch(&item, "Object"),
                        )));
                    },
                };
                proof {
                    lemma_entries_wf(fattrs@);
                }
                match FilterCommon::parse(&mut fattrs) {
                    Ok(_) => {},
                    Err(err) => {
                        proof {
                            assert(!spec_sfilter_obj_ok(orig[idx as int]));
                        }
                        let key = crate::strutil::u64_to_string(idx as u64);
                        let mut err = err;
                        err.annotate(key);
                        return Err(err_at("filters", err));
                    },
                }
                if !fattrs.is_empty() {
                    proof {
                        assert(!spec_sfilter_obj_ok(orig[idx as int]));
                    }
                    let err = unused_keys_error(&fattrs);
                    let key = crate::strutil::u64_to_string(idx as u64);
                    return Err(err_at("filters", err_at(key.as_str(), err)));
                }
                idx += 1;
            }
            n
        },
        None => {
            match FilterCommon::parse(&mut attrs) {
                Ok(_) => {},
                Err(err) => {
                    return Err(err);
                },
            }
            1
        },
    };
    let user: Option<bool> = match attrs.remove("user") {
        None => None,
        Some(uv) => match uv.get_bool() {
            Some(b) => Some(b),
            None => {
                return Err(err_at("user", type_mismatch(&uv, "Boolean")));
            },
        },
    };
    if !attrs.is_empty() {
        return Err(unused_keys_error(&attrs));
    }
    let mut filters: Vec<()> = Vec::new();
    let mut k: usize = 0;
    while k < nfilters
        invariant
            k <= nfilters,
            filters@.len() == k as int,
        decreases nfilters - k,
    {
        filters.push(());
        k += 1;
    }
    Ok(SystemdConfig { common: CommonConfig { filters, id }, user })
}


/// The module name a source's body selects: its `module` key, or the
/// source's id when absent.
pub open spec fn spec_module_name(id: Seq<char>, e: Entries) -> Option<Seq<char>> {
    match map_find(e, "module"@) {
        None => Some(id),
        Some(m) => m.as_str(),
    }
}

/// Whether a value configures one source: the literal `true` accepts the
/// defaults of the module the id names, an object selects and configures a
/// module.
pub open spec fn spec_source_ok(id: Seq<char>, v: ValueRep) -> bool {
    match v {
        ValueRep::Bool(b) => b && (id == "systemd"@ || id == "journal"@),
        ValueRep::Obj(e) => match spec_module_name(id, e) {
            Some(m) => {
                let rest = map_drop(e, "module"@);
                if m == "systemd"@ {
                    spec_smodule_ok(Some(rest))
                } else if m == "journal"@ {
                    spec_jmodule_ok(Some(rest))
                } else {
                    false
                }
            },
            None => false,
        },
        _ => false,
    }
}

/// The source a well-formed source value configures.
pub open spec fn spec_source(id: Seq<char>, v: ValueRep) -> SourceConfigRep {
    match v {
        ValueRep::Bool(_) => if id == "systemd"@ {
            SourceConfigRep::Systemd(SystemdConfigRep { id, nfilters: 0, user: None })
        } else {
            SourceConfigRep::Journal(JournalConfigRep { id, filters: Seq::empty(), backlog: None })
        },
        ValueRep::Obj(e) => {
            let rest = map_drop(e, "module"@);
            match spec_module_name(id, e) {
                Some(m) => if m == "systemd"@ {
                    SourceConfigRep::Systemd(
                        SystemdConfigRep {
                            id,
                            nfilters: spec_smodule_nfilters(Some(rest)),
                            user: spec_smodule_user(Some(rest)),
                        },
                    )
                } else {
                    SourceConfigRep::Journal(
                        JournalConfigRep {
                            id,
                            filters: spec_jmodule_filters(Some(rest)),
                            backlog: spec_jmodule_backlog(Some(rest)),
                        },
                    )
                },
                None => SourceConfigRep::Systemd(SystemdConfigRep { id, nfilters: 0, user: None }),
            }
        },
        _ => SourceConfigRep::Systemd(SystemdConfigRep { id, nfilters: 0, user: None }),
    }
}

/// A source configuration's journal filters are valid.
pub open spec fn source_valid(sc: SourceConfig) -> bool {
    match sc {
        SourceConfig::Journal(j) => crate::filter::filters_valid(j.common.filters@),
        SourceConfig::Systemd(_) => true,
    }
}

/// Why a source body's module selection was rejected; failures inside an
/// accepted module's body carry that body's own error.
pub open spec fn spec_source_module_err(m: Seq<char>, e: ConfigError) -> bool {
    if m != "systemd"@ && m != "journal"@ {
        err_is(e, "Unknown module: "@ + m, Seq::empty())
    } else {
        true
    }
}

/// Why a source value was rejected at its own level, with the error's path.
pub open spec fn spec_source_shape_err(id: Seq<char>, v: ValueRep, e: ConfigError) -> bool {
    match v {
        ValueRep::Bool(b) => if b {
            spec_source_module_err(id, e)
        } else {
            err_is(e, mismatch_msg("Object or `true`"@, v), Seq::empty())
        },
        ValueRep::Obj(ents) => match map_find(ents, "module"@) {
            Some(mv) => if !(mv is Str) {
                err_is(e, mismatch_msg("String"@, mv), seq!["module"@])
            } else {
                spec_source_module_err(mv.as_str().unwrap(), e)
            },
            None => spec_source_module_err(id, e),
        },
        _ => err_is(e, mismatch_msg("Object or `true`"@, v), Seq::empty()),
    }
}

/// Parse one source's configuration.
pub fn parse_source_config(id: &String, conf: Value) -> (r: Result<SourceConfig, ConfigError>)
    requires
        rep_wf(conf.rep()),
    ensures
        (r is Ok) == spec_source_ok(id@, conf.rep()),
        r matches Ok(sc) ==> sc@ == spec_source(id@, conf.rep()) && source_valid(sc)
            && spec_source_serializable(sc),
        r matches Err(e) ==> spec_source_shape_err(id@, conf.rep(), e),
{
    proof {
        lemma_keys_distinct_source();
    }
    let conf = match conf.get_bool() {
        Some(true) => {
            if str_eq(id.as_str(), "systemd") {
                let c = match parse_systemd_module(id.clone(), None) {
                    Ok(c) => c,
                    Err(e) => {
                        return Err(e);
                    },
                };
                return Ok(SourceConfig::Systemd(c));
            } else if str_eq(id.as_str(), "journal") {
                let c = match parse_journal_module(id.clone(), None) {
                    Ok(c) => c,
                    Err(e) => {
                        return Err(e);
                    },
                };
                return Ok(SourceConfig::Journal(c));
            } else {
                let mut m = "Unknown module: ".to_owned();
                m.append(id.as_str());
                return Err(ConfigError::new(m));
            }
        },
        Some(false) => {
            return Err(type_mismatch(&conf, "Object or `true`"));
        },
        None => conf,
    };
    let mut attrs = match conf.into_obj() {
        Ok(m) => m,
        Err(v) => {
            return Err(type_mismatch(&v, "Object or `true`"));
        },
    };
    let ghost e = attrs@;
    proof {
        lemma_entries_wf(e);
        crate::value::lemma_map_key_index(e, "module"@);
        lemma_entries_wf_drop(e, "module"@);
        lemma_map_drop(e, "module"@);
    }
    let module: String = match attrs.remove("module") {
        None => id.clone(),
        Some(mv) => match mv.into_str() {
            Ok(m) => m,
            Err(mv) => {
                return Err(err_at("module", type_mismatch(&mv, "String")));
            },
        },
    };
    if str_eq(module.as_str(), "systemd") {
        match parse_systemd_module(id.clone(), Some(attrs)) {
            Ok(c) => Ok(SourceConfig::Systemd(c)),
            Err(e) => Err(e),
        }
    } else if str_eq(module.as_str(), "journal") {
        match parse_journal_module(id.clone(), Some(attrs)) {
            Ok(c) => Ok(SourceConfig::Journal(c)),
            Err(e) => Err(e),
        }
    } else {
        let mut m = "Unknown module: ".to_owned();
        m.append(module.as_str());
        Err(ConfigError::new(m))
    }
}

/// The source keys are pairwise different module names.
proof fn lemma_keys_distinct_source()
    ensures
        "systemd"@ != "journal"@,
{
    reveal_strlit("systemd");
    reveal_strlit("journal");
    assert("systemd"@[0] == 's');
    assert("journal"@[0] == 'j');
}

/// Whether every entry of a sources object configures its source.
pub open spec fn spec_sources_ok(se: Entries) -> bool
    decreases se.len(),
{
    if se.len() == 0 {
        true
    } else {
        spec_sources_ok(se.drop_last()) && spec_source_ok(se.last().0, se.last().1)
    }
}

/// The sources a sources object configures, in entry order.
pub open spec fn spec_sources(se: Entries) -> Seq<SourceConfigRep>
    decreases se.len(),
{
    if se.len() == 0 {
        Seq::empty()
    } else {
        spec_sources(se.drop_last()).push(spec_source(se.last().0, se.last().1))
    }
}

/// `spec_sources_ok` and `spec_sources` are entry-wise.
pub proof fn lemma_spec_sources(se: Entries)
    ensures
        spec_sources_ok(se) == (forall|i: int| 0 <= i < se.len() ==> spec_source_ok(
            (#[trigger] se[i]).0,
            se[i].1,
        )),
        spec_sources(se).len() == se.len(),
        forall|i: int| 0 <= i < se.len() ==> spec_sources(se)[i] == spec_source(
            (#[trigger] se[i]).0,
            se[i].1,
        ),
    decreases se.len(),
{
    if se.len() > 0 {
        lemma_spec_sources(se.drop_last());
        if forall|i: int| 0 <= i < se.drop_last().len() ==> spec_source_ok(
            (#[trigger] se.drop_last()[i]).0,
            se.drop_last()[i].1,
        ) {
            assert forall|i: int| 0 <= i < se.len() - 1 implies spec_source_ok(
                (#[trigger] se[i]).0,
                se[i].1,
            ) by {
                assert(spec_source_ok(se.drop_last()[i].0, se.drop_last()[i].1));
            }
        }
        if forall|i: int| 0 <= i < se.len() ==> spec_source_ok((#[trigger] se[i]).0, se[i].1) {
            assert forall|i: int| 0 <= i < se.drop_last().len() implies spec_source_ok(
                (#[trigger] se.drop_last()[i]).0,
                se.drop_last()[i].1,
            ) by {
                assert(spec_source_ok(se[i].0, se[i].1));
            }
        }
        assert forall|i: int| 0 <= i < se.len() implies spec_sources(se)[i] == spec_source(
            (#[trigger] se[i]).0,
            se[i].1,
        ) by {
            if i < se.len() - 1 {
                assert(spec_sources(se.drop_last())[i] == spec_source(
                    se.drop_last()[i].0,
                    se.drop_last()[i].1,
                ));
                assert(se.drop_last()[i] == se[i]);
            }
        }
    }
}

/// The single default journal filter: warning level, no matchers.
pub open spec fn spec_default_sources_journal_filters() -> Seq<JournalFilterRep> {
    seq![
        JournalFilterRep {
            common: FilterCommonRep { includes: Seq::empty(), excludes: Seq::empty() },
            level: Some(Severity::Warning),
            attr_extend: None,
        },
    ]
}

/// The default sources when none are configured: the system service manager
/// and the journal at warning level.
pub open spec fn spec_default_sources() -> Seq<SourceConfigRep> {
    seq![
        SourceConfigRep::Systemd(
            SystemdConfigRep { id: "systemd.system"@, nfilters: 0, user: None },
        ),
        SourceConfigRep::Journal(
            JournalConfigRep {
                id: "journal"@,
                filters: spec_default_sources_journal_filters(),
                backlog: None,
            },
        ),
    ]
}

/// The milliseconds an optional poll object denotes; 15 seconds when absent.
pub open spec fn spec_poll_ms_opt(pv: Option<ValueRep>) -> Option<int> {
    match pv {
        None => Some(15000),
        Some(p) => match p {
            ValueRep::Obj(pe) => {
                if map_drop(pe, "interval"@).len() != 0 {
                    None
                } else {
                    match map_find(pe, "interval"@) {
                        None => Some(15000),
                        Some(iv) => match iv {
                            ValueRep::Str(s2) => spec_duration_ms(s2),
                            _ => None,
                        },
                    }
                }
            },
            _ => None,
        },
    }
}

/// Why a present poll section was rejected: a leftover key under `poll`.
pub open spec fn spec_poll_leftover_err(pe: Entries, e: ConfigError) -> bool {
    let rest = map_drop(pe, "interval"@);
    rest.len() != 0 && err_is(
        e,
        "Unused config key(s): "@ + spec_keys_join(rest),
        seq![rest[0].0, "poll"@],
    )
}

/// Why a present poll section was rejected, with the error's path.
pub open spec fn spec_poll_err(pv: Option<ValueRep>, e: ConfigError) -> bool {
    match pv {
        None => false,
        Some(p) => match p {
            ValueRep::Obj(pe) => match map_find(pe, "interval"@) {
                Some(iv) => match iv {
                    ValueRep::Str(s2) => if spec_duration_ms(s2) is None {
                        err_is(e, "Invalid duration: "@ + s2, seq!["interval"@, "poll"@])
                    } else {
                        spec_poll_leftover_err(pe, e)
                    },
                    _ => err_is(e, mismatch_msg("String"@, iv), seq!["interval"@, "poll"@]),
                },
                None => spec_poll_leftover_err(pe, e),
            },
            _ => err_is(e, mismatch_msg("Object"@, p), seq!["poll"@]),
        },
    }
}

/// Parse the optional `poll` object.
fn parse_poll(pv: Option<Value>) -> (r: Result<PollConfig, ConfigError>)
    requires
        match pv {
            Some(x) => rep_wf(x.rep()),
            None => true,
        },
    ensures
        (r is Ok) == (spec_poll_ms_opt(opt_rep(&pv)) is Some),
        r matches Ok(p) ==> spec_poll_ms_opt(opt_rep(&pv)) == Some(p.interval.ms as int)
            && p.interval.ms >= 0,
        r matches Err(e) ==> spec_poll_err(opt_rep(&pv), e),
{
    let x = match pv {
        None => {
            return Ok(PollConfig { interval: DurationMs { ms: 15000 } });
        },
        Some(x) => x,
    };
    let mut pe = match x.into_obj() {
        Ok(m) => m,
        Err(x) => {
            return Err(err_at("poll", type_mismatch(&x, "Object")));
        },
    };
    let ghost e0 = pe@;
    let interval = match pe.remove("interval") {
        None => DurationMs { ms: 15000 },
        Some(iv) => match iv.get_str() {
            Some(s2) => match parse_duration(s2.as_str()) {
                Ok(d) => d,
                Err(err) => {
                    return Err(err_at("poll", err_at("interval", err)));
                },
            },
            None => {
                return Err(err_at("poll", err_at("interval", type_mismatch(&iv, "String"))));
            },
        },
    };
    if !pe.is_empty() {
        return Err(err_at("poll", unused_keys_error(&pe)));
    }
    Ok(PollConfig { interval })
}

/// Whether a whole document is a valid configuration.
pub open spec fn spec_config_ok(v: ValueRep) -> bool {
    match v {
        ValueRep::Obj(e) => {
            &&& spec_poll_ms_opt(map_find(e, "poll"@)) is Some
            &&& match map_find(e, "sources"@) {
                None => true,
                Some(sv) => match sv {
                    ValueRep::Obj(se) => spec_sources_ok(se),
                    _ => false,
                },
            }
            &&& map_drop(map_drop(e, "poll"@), "sources"@).len() == 0
        },
        _ => false,
    }
}

/// The configuration a valid document denotes.
pub open spec fn spec_config(v: ValueRep) -> ConfigRep {
    match v {
        ValueRep::Obj(e) => ConfigRep {
            poll_ms: spec_poll_ms_opt(map_find(e, "poll"@)).unwrap(),
            sources: match map_find(e, "sources"@) {
                None => spec_default_sources(),
                Some(sv) => match sv {
                    ValueRep::Obj(se) => spec_sources(se),
                    _ => Seq::empty(),
                },
            },
        },
        _ => ConfigRep { poll_ms: 0, sources: Seq::empty() },
    }
}

/// Why a document was rejected for keys no part of the schema consumed.
pub open spec fn spec_top_leftover_err(ents: Entries, e: ConfigError) -> bool {
    let rest = map_drop(map_drop(ents, "poll"@), "sources"@);
    rest.len() != 0 && err_is(
        e,
        "Unused config key(s): "@ + spec_keys_join(rest),
        seq![rest[0].0],
    )
}

/// A failing source annotates the error with its id under `sources`: some
/// entry is the first invalid one, and the error's path ends with that
/// entry's key followed by `sources`.
pub open spec fn spec_sources_err(se: Entries, e: ConfigError) -> bool {
    exists|j: int|
        #![auto]
        {
            &&& 0 <= j < se.len()
            &&& !spec_source_ok(se[j].0, se[j].1)
            &&& (forall|i: int| 0 <= i < j ==> spec_source_ok((#[trigger] se[i]).0, se[i].1))
            &&& (exists|pre: Seq<Seq<char>>|
                crate::config_error::ctx_rep(e.context@) == pre.push(se[j].0).push("sources"@))
        }
}

/// Why a document was rejected, with the error's path: a malformed poll
/// section, a malformed or failing source, or leftover keys.
pub open spec fn spec_config_err(v: ValueRep, e: ConfigError) -> bool {
    match v {
        ValueRep::Obj(ents) => if spec_poll_ms_opt(map_find(ents, "poll"@)) is None {
            spec_poll_err(map_find(ents, "poll"@), e)
        } else {
            match map_find(ents, "sources"@) {
                Some(sv) => match sv {
                    ValueRep::Obj(se) => if !spec_sources_ok(se) {
                        spec_sources_err(se, e)
                    } else {
                        spec_top_leftover_err(ents, e)
                    },
                    _ => err_is(e, mismatch_msg("Object"@, sv), seq!["sources"@]),
                },
                None => spec_top_leftover_err(ents, e),
            }
        },
        _ => err_is(e, mismatch_msg("Object"@, v), Seq::empty()),
    }
}

impl Config {
    /// Parse a whole configuration document: the poll settings and the
    /// source topology, rejecting any key the schema does not know.
    #[verifier::loop_isolation(false)]
    pub fn parse(v: Value) -> (r: Result<Config, ConfigError>)
        requires
            rep_wf(v.rep()),
        ensures
            (r is Ok) == spec_config_ok(v.rep()),
            r matches Ok(c) ==> c@ == spec_config(v.rep()) && config_valid(c)
                && spec_config_serializable(c),
            r matches Err(e) ==> spec_config_err(v.rep(), e),
    {
        proof {
            lemma_keys_distinct_filter();
        }
        let mut attrs = match v.into_obj() {
            Ok(m) => m,
            Err(v) => {
                return Err(type_mismatch(&v, "Object"));
            },
        };
        let ghost e = attrs@;
        proof {
            lemma_entries_wf(e);
            crate::value::lemma_map_key_index(e, "poll"@);
            lemma_entries_wf_drop(e, "poll"@);
            lemma_map_drop(e, "poll"@);
            lemma_entries_wf_drop(map_drop(e, "poll"@), "sources"@);
            lemma_map_drop(map_drop(e, "poll"@), "sources"@);
        }
        let poll = match parse_poll(attrs.remove("poll")) {
            Ok(p) => p,
            Err(err) => {
                return Err(err);
            },
        };
        let sources: Vec<SourceConfig> = match attrs.remove("sources") {
            None => {
                let mut out: Vec<SourceConfig> = Vec::new();
                out.push(
                    SourceConfig::Systemd(
                        SystemdConfig {
                            common: CommonConfig {
                                filters: Vec::new(),
                                id: "systemd.system".to_owned(),
                            },
                            user: None,
                        },
                    ),
                );
                let mut jfilters: Vec<JournalFilter> = Vec::new();
                jfilters.push(
                    JournalFilter {
                        common: FilterCommon { includes: Vec::new(), excludes: Vec::new() },
                        level: Some(Severity::Warning),
                        attr_extend: None,
                    },
                );
                proof {
                    let jfr = JournalFilterRep {
                        common: FilterCommonRep {
                            includes: Seq::<MatchRep>::empty(),
                            excludes: Seq::<MatchRep>::empty(),
                        },
                        level: Some(Severity::Warning),
                        attr_extend: None,
                    };
                    assert(jfilters@[0]@.common.includes =~= jfr.common.includes);
                    assert(jfilters@[0]@.common.excludes =~= jfr.common.excludes);
                    assert(jfilters@[0]@ == jfr);
                }
                let jc = SourceConfig::Journal(
                    JournalConfig {
                        common: CommonConfig { filters: jfilters, id: "journal".to_owned() },
                        backlog: None,
                    },
                );
                proof {
                    assert(jc@ == spec_default_sources()[1]) by {
                        match jc {
                            SourceConfig::Journal(j) => {
                                assert(j@.filters =~= spec_default_sources_journal_filters());
                            },
                            _ => {
                                assert(false);
                            },
                        }
                    }
                }
                proof {
                    assert(spec_source_serializable(out@[0]));
                    assert(spec_source_serializable(jc)) by {
                        match jc {
                            SourceConfig::Journal(j) => {
                                assert(forall|i: int|
                                    0 <= i < j.common.filters@.len() ==> (
                                    #[trigger] j.common.filters@[i])@.valid()
                                        && spec_filter_deep_wf(j.common.filters@[i]));
                            },
                            _ => {
                                assert(false);
                            },
                        }
                    }
                    assert(spec_source_id(out@[0]) != spec_source_id(jc)) by {
                        reveal_strlit("systemd.system");
                        reveal_strlit("journal");
                        assert("systemd.system"@[0] == 's' && "journal"@[0] == 'j');
                    }
                }
                out.push(jc);
                out
            },
            Some(sv) => {
                let mut se = match sv.into_obj() {
                    Ok(m) => m,
                    Err(sv) => {
                        return Err(err_at("sources", type_mismatch(&sv, "Object")));
                    },
                };
                let ghost sentries = se@;
                proof {
                    lemma_spec_sources(sentries);
                    crate::value::lemma_rep_wf_entries(sentries);
                }
                let mut out: Vec<SourceConfig> = Vec::new();
                let ghost total = sentries.len();
                let mut idx: usize = 0;
                let n = se.len();
                while idx < n
                    invariant
                        idx <= n,
                        n == sentries.len(),
                        se@.len() == n - idx,
                        se@ == sentries.skip(idx as int),
                        se.wf(),
                        out@.len() == idx as int,
                        forall|j: int| 0 <= j < idx ==> spec_source_ok(
                            (#[trigger] sentries[j]).0,
                            sentries[j].1,
                        ),
                        forall|j: int| 0 <= j < idx ==> (#[trigger] out@[j])@ == spec_source(
                            sentries[j].0,
                            sentries[j].1,
                        ) && source_valid(out@[j]) && spec_source_serializable(out@[j])
                            && spec_source_id(out@[j]) == sentries[j].0,
                    decreases n - idx,
                {
                    let entry = match se.take_first() {
                        Some(p) => p,
                        None => {
                            proof {
                                assert(false);
                            }
                            break;
                        },
                    };
                    let (sid, sconf) = entry;
                    proof {
                        assert(sentries.skip(idx as int)[0] == sentries[idx as int]);
                        assert(rep_wf(sentries[idx as int].1)) by {
                            crate::value::lemma_rep_wf_entries(sentries);
                        }
                        assert(sentries.skip(idx as int).skip(1) =~= sentries.skip(idx + 1));
                    }
                    let sc = match parse_source_config(&sid, sconf) {
                        Ok(sc) => sc,
                        Err(err) => {
                            let ghost inner_path = crate::config_error::ctx_rep(err.context@);
                            let e2 = err_at("sources", err_at(sid.as_str(), err));
                            proof {
                                let en = sentries[idx as int];
                                assert(!spec_source_ok(en.0, en.1));
                                assert(crate::config_error::ctx_rep(e2.context@) == inner_path.push(
                                    en.0,
                                ).push("sources"@));
                                assert(spec_sources_err(sentries, e2)) by {
                                    assert(0 <= idx < sentries.len() && !spec_source_ok(
                                        sentries[idx as int].0,
                                        sentries[idx as int].1,
                                    ) && (forall|i2: int|
                                        0 <= i2 < idx ==> spec_source_ok(
                                            (#[trigger] sentries[i2]).0,
                                            sentries[i2].1,
                                        )) && crate::config_error::ctx_rep(e2.context@)
                                        == inner_path.push(sentries[idx as int].0).push(
                                        "sources"@,
                                    ));
                                }
                            }
                            return Err(e2);
                        },
                    };
                    out.push(sc);
                    idx += 1;
                }
                out
            },
        };
        if !attrs.is_empty() {
            return Err(unused_keys_error(&attrs));
        }
        let c = Config { sources, poll };
        proof {
            if map_find(e, "sources"@) is None {
                assert(c@.sources =~= spec_default_sources()) by {
                    assert(c.sources@.len() == 2);
                    assert(c@.sources[0] == spec_default_sources()[0]);
                    assert(c@.sources[1] == spec_default_sources()[1]);
                }
            } else {
                assert(c@.sources =~= spec_config(v.rep()).sources);
            }
        }
        Ok(c)
    }
}


/// Construct an object from its exact entries.
fn obj_of_entries(entries: Vec<(String, Value)>) -> (r: Value)
    ensures
        r.rep() == ValueRep::Obj(
            Seq::new(entries@.len(), |i: int| (entries@[i].0@, entries@[i].1.rep())),
        ),
{
    let ghost ents = entries@;
    let m = crate::value::ValueMap { entries };
    proof {
        crate::value::lemma_map_view(&m);
        assert(m@ =~= Seq::new(ents.len(), |i: int| (ents[i].0@, ents[i].1.rep())));
    }
    Value::Obj(m)
}

/// The normalized writing of one matcher: its attribute when it has one,
/// its pattern type's name, and its pattern text.
fn matcher_to_value(m: &Match) -> (r: Value)
    requires
        m@.pattern.valid(),
    ensures
        rep_wf(r.rep()),
        spec_matcher_ok(r.rep()),
        spec_matcher(r.rep()) == m@,
{
    proof {
        lemma_keys_distinct_filter();
        lemma_keys_distinct_matcher();
    }
    let (tname, ptext): (&str, String) = match &m.pattern {
        Pattern::Glob(p) => ("glob", p.clone()),
        Pattern::Regex(p) => ("regex", p.clone()),
        Pattern::Literal(p) => ("literal", p.clone()),
    };
    let mut entries: Vec<(String, Value)> = Vec::new();
    match &m.attr {
        Some(a) => {
            entries.push(("attr".to_owned(), Value::Str(a.clone())));
        },
        None => {},
    }
    entries.push(("type".to_owned(), Value::Str(tname.to_owned())));
    entries.push(("pattern".to_owned(), Value::Str(ptext)));
    let r = obj_of_entries(entries);
    proof {
        let e = r.rep().as_obj().unwrap();
        if m@.attr is Some {
            assert(e.len() == 3);
            assert(e[0].0 == "attr"@ && e[1].0 == "type"@ && e[2].0 == "pattern"@);
            crate::value::lemma_map_find_witness(e, "attr"@, 0);
            crate::value::lemma_map_find_witness(e, "type"@, 1);
            crate::value::lemma_map_find_witness(e, "pattern"@, 2);
            assert(map_drop(e, "attr"@) =~= e.subrange(1, 3));
            let e1 = map_drop(e, "attr"@);
            crate::value::lemma_map_find_witness(e1, "type"@, 0);
            assert(map_drop(e1, "type"@) =~= e.subrange(2, 3));
            let e2 = map_drop(e1, "type"@);
            crate::value::lemma_map_find_witness(e2, "pattern"@, 0);
            assert(map_drop(e2, "pattern"@) =~= Seq::<(Seq<char>, ValueRep)>::empty());
        } else {
            assert(e.len() == 2);
            assert(e[0].0 == "type"@ && e[1].0 == "pattern"@);
            crate::value::lemma_map_key_index(e, "attr"@);
            assert(map_key_index(e, "attr"@) == -1) by {
                if map_key_index(e, "attr"@) != -1 {
                    assert(e[map_key_index(e, "attr"@)].0 == "attr"@);
                }
            }
            crate::value::lemma_map_find_witness(e, "type"@, 0);
            crate::value::lemma_map_find_witness(e, "pattern"@, 1);
            assert(map_drop(e, "attr"@) == e);
            crate::value::lemma_map_find_witness(e, "type"@, 0);
            assert(map_drop(e, "type"@) =~= e.subrange(1, 2));
            let e2 = map_drop(map_drop(e, "attr"@), "type"@);
            crate::value::lemma_map_find_witness(e2, "pattern"@, 0);
            assert(map_drop(e2, "pattern"@) =~= Seq::<(Seq<char>, ValueRep)>::empty());
        }
        match m@.pattern {
            crate::patterns::PatternRep::Glob(p) => {
                assert(spec_pattern_of("glob"@, p) == Some(m@.pattern));
            },
            crate::patterns::PatternRep::Regex(p) => {
                assert("regex"@ != "glob"@);
                assert(spec_pattern_of("regex"@, p) == Some(m@.pattern));
            },
            crate::patterns::PatternRep::Literal(p) => {
                assert(spec_pattern_of("literal"@, p) == Some(m@.pattern));
            },
        }
        assert(spec_matcher(r.rep()).pattern == m@.pattern);
        let eo = r.rep().as_obj().unwrap();
        crate::value::lemma_rep_wf_entries(eo);
        assert forall|i: int| 0 <= i < eo.len() implies rep_wf(#[trigger] eo[i].1) by {
            assert(eo[i].1 is Str);
        }
    }
    r
}

/// The matcher keys are pairwise different.
proof fn lemma_keys_distinct_matcher()
    ensures
        "attr"@ != "type"@,
        "attr"@ != "pattern"@,
        "type"@ != "pattern"@,
        "glob"@ != "regex"@ && "glob"@ != "literal"@ && "regex"@ != "literal"@,
{
    reveal_strlit("attr");
    reveal_strlit("type");
    reveal_strlit("pattern");
    reveal_strlit("glob");
    reveal_strlit("regex");
    reveal_strlit("literal");
    assert("attr"@[0] == 'a' && "type"@[0] == 't' && "pattern"@[0] == 'p');
    assert("glob"@[0] == 'g' && "regex"@[0] == 'r' && "literal"@[0] == 'l');
}


/// A severity's name reads back as that severity.
proof fn lemma_severity_name_round_trip(sev: Severity)
    ensures
        severity_of_name(sev.spec_name()) == Some(sev),
{
    reveal_strlit("Emergency");
    reveal_strlit("Alert");
    reveal_strlit("Critical");
    reveal_strlit("Error");
    reveal_strlit("Warning");
    reveal_strlit("Notice");
    reveal_strlit("Info");
    reveal_strlit("Debug");
    assert("Emergency"@[0] == 'E' && "Error"@[0] == 'E');
    assert("Emergency"@[1] == 'm' && "Error"@[1] == 'r');
    assert("Alert"@[0] == 'A');
    assert("Critical"@[0] == 'C');
    assert("Warning"@[0] == 'W');
    assert("Notice"@[0] == 'N');
    assert("Info"@[0] == 'I');
    assert("Debug"@[0] == 'D');
}

/// The normalized writing of a matcher list.
#[verifier::loop_isolation(false)]
fn matchers_to_value(ms: &Vec<Match>) -> (r: Value)
    requires
        forall|i: int| 0 <= i < ms@.len() ==> (#[trigger] ms@[i])@.pattern.valid(),
    ensures
        rep_wf(r.rep()),
        r.rep().as_arr() is Some,
        spec_matchers_ok(Some(r.rep())),
        spec_matchers(Some(r.rep())) == Seq::new(ms@.len(), |i: int| ms@[i]@),
{
    let mut items: Vec<Value> = Vec::new();
    let n = ms.len();
    let mut i: usize = 0;
    while i < n
        invariant
            i <= n,
            items@.len() == i as int,
            forall|j: int| 0 <= j < i ==> rep_wf((#[trigger] items@[j]).rep())
                && spec_matcher_ok(items@[j].rep()) && spec_matcher(items@[j].rep()) == ms@[j]@,
        decreases n - i,
    {
        let mv = matcher_to_value(&ms[i]);
        items.push(mv);
        i += 1;
    }
    let ghost reps = Value::rep_of_seq(items@);
    proof {
        Value::lemma_rep_of_seq(items@);
        lemma_spec_matcher_seq(reps);
        lemma_rep_wf_seq(reps);
        assert forall|k: int| 0 <= k < reps.len() implies spec_matcher_seq(reps)[k] == Seq::new(
            ms@.len(),
            |k2: int| ms@[k2]@,
        )[k] by {
            assert(reps[k] == items@[k].rep());
            assert(spec_matcher(items@[k].rep()) == ms@[k]@);
        }
        assert(spec_matcher_seq(reps) =~= Seq::new(ms@.len(), |k: int| ms@[k]@));
    }
    Value::Arr(items)
}

/// Whether a filter's attribute extension is a deeply well-formed object.
pub open spec fn spec_filter_deep_wf(f: JournalFilter) -> bool {
    match f.attr_extend {
        Some(m) => rep_wf(ValueRep::Obj(m@)),
        None => true,
    }
}

/// The normalized writing of one journal filter.
fn journal_filter_to_value(f: &JournalFilter) -> (r: Value)
    requires
        f@.valid(),
        spec_filter_deep_wf(*f),
    ensures
        rep_wf(r.rep()),
        spec_jf_obj_ok(r.rep()),
        spec_jf_obj(r.rep()) == f@,
{
    proof {
        lemma_keys_distinct_filter();
        assert forall|i: int| 0 <= i < f.common.includes@.len() implies (
        #[trigger] f.common.includes@[i])@.pattern.valid() by {
            assert(f@.common.includes[i] == f.common.includes@[i]@);
            assert(f@.common.includes[i].pattern.valid());
        }
        assert forall|i: int| 0 <= i < f.common.excludes@.len() implies (
        #[trigger] f.common.excludes@[i])@.pattern.valid() by {
            assert(f@.common.excludes[i] == f.common.excludes@[i]@);
            assert(f@.common.excludes[i].pattern.valid());
        }
    }
    let mut entries: Vec<(String, Value)> = Vec::new();
    let inc = matchers_to_value(&f.common.includes);
    let exc = matchers_to_value(&f.common.excludes);
    entries.push(("include".to_owned(), inc));
    entries.push(("exclude".to_owned(), exc));
    match &f.level {
        Some(sev) => {
            entries.push(("level".to_owned(), Value::Str(sev.to_string())));
        },
        None => {},
    }
    match &f.attr_extend {
        Some(m) => {
            entries.push(("attr_extend".to_owned(), Value::Obj(m.clone())));
        },
        None => {},
    }
    let r = obj_of_entries(entries);
    proof {
        let e = r.rep().as_obj().unwrap();
        assert(e[0].0 == "include"@ && e[1].0 == "exclude"@);
        crate::value::lemma_map_find_witness(e, "include"@, 0);
        crate::value::lemma_map_find_witness(e, "exclude"@, 1);
        assert(map_drop(e, "include"@) =~= e.subrange(1, e.len() as int));
        let e1 = map_drop(e, "include"@);
        crate::value::lemma_map_find_witness(e1, "exclude"@, 0);
        assert(map_drop(e1, "exclude"@) =~= e.subrange(2, e.len() as int));
        let rest = spec_fc_rest(e);
        assert(rest =~= e.subrange(2, e.len() as int));
        assert(spec_fc(e) == f@.common) by {
            assert(spec_matchers(map_find(e, "include"@)) == f@.common.includes);
            assert(spec_matchers(map_find(e, "exclude"@)) == f@.common.excludes);
        }
        let has_level = f@.level is Some;
        let has_ext = f@.attr_extend is Some;
        if has_level {
            lemma_severity_name_round_trip(f@.level.unwrap());
            assert(e[2].0 == "level"@);
            crate::value::lemma_map_find_witness(e, "level"@, 2);
            crate::value::lemma_map_find_witness(rest, "level"@, 0);
            assert(map_drop(rest, "level"@) =~= e.subrange(3, e.len() as int));
        } else {
            crate::value::lemma_map_key_index(e, "level"@);
            assert(map_key_index(e, "level"@) == -1) by {
                if map_key_index(e, "level"@) != -1 {
                    assert(e[map_key_index(e, "level"@)].0 == "level"@);
                }
            }
            crate::value::lemma_map_key_index(rest, "level"@);
            assert(map_key_index(rest, "level"@) == -1) by {
                if map_key_index(rest, "level"@) != -1 {
                    assert(rest[map_key_index(rest, "level"@)].0 == "level"@);
                }
            }
            assert(map_drop(rest, "level"@) == rest);
        }
        let e2 = map_drop(rest, "level"@);
        let ei = if has_level { 3int } else { 2int };
        assert(e2 =~= e.subrange(ei, e.len() as int));
        if has_ext {
            assert(e[ei].0 == "attr_extend"@);
            crate::value::lemma_map_find_witness(e, "attr_extend"@, ei);
            crate::value::lemma_map_find_witness(e2, "attr_extend"@, 0);
            assert(map_drop(e2, "attr_extend"@) =~= e.subrange(ei + 1, e.len() as int));
            assert(e.len() == ei + 1);
            assert(spec_jf_rest(e).len() == 0);
        } else {
            crate::value::lemma_map_key_index(e, "attr_extend"@);
            assert(map_key_index(e, "attr_extend"@) == -1) by {
                if map_key_index(e, "attr_extend"@) != -1 {
                    assert(e[map_key_index(e, "attr_extend"@)].0 == "attr_extend"@);
                }
            }
            crate::value::lemma_map_key_index(e2, "attr_extend"@);
            assert(map_key_index(e2, "attr_extend"@) == -1) by {
                if map_key_index(e2, "attr_extend"@) != -1 {
                    assert(e2[map_key_index(e2, "attr_extend"@)].0 == "attr_extend"@);
                }
            }
            assert(map_drop(e2, "attr_extend"@) == e2);
            assert(e.len() == ei);
            assert(spec_jf_rest(e).len() == 0);
        }
        assert(spec_jf(e).level == f@.level);
        assert(spec_jf(e).attr_extend == f@.attr_extend);
        crate::value::lemma_rep_wf_entries(e);
        assert forall|i2: int| 0 <= i2 < e.len() implies rep_wf(#[trigger] e[i2].1) by {
            lemma_rep_wf_seq(Value::rep_of_seq(Seq::<Value>::empty()));
        }
    }
    r
}


/// The id a source was configured under.
pub open spec fn spec_source_id(sc: SourceConfig) -> Seq<char> {
    match sc {
        SourceConfig::Systemd(c) => c.common.id@,
        SourceConfig::Journal(c) => c.common.id@,
    }
}

/// Whether one source can be written back out: every journal filter's
/// patterns compile and its attribute extension is a deeply well-formed
/// object.
pub open spec fn spec_source_serializable(sc: SourceConfig) -> bool {
    match sc {
        SourceConfig::Systemd(_) => true,
        SourceConfig::Journal(c) => forall|i: int|
            0 <= i < c.common.filters@.len() ==> (#[trigger] c.common.filters@[i])@.valid()
                && spec_filter_deep_wf(c.common.filters@[i]),
    }
}

/// The normalized writing of one source's body.
#[verifier::loop_isolation(false)]
#[verifier::rlimit(60)]
fn source_to_value(sc: &SourceConfig) -> (r: Value)
    requires
        spec_source_serializable(*sc),
    ensures
        rep_wf(r.rep()),
        spec_source_ok(spec_source_id(*sc), r.rep()),
        spec_source(spec_source_id(*sc), r.rep()) == sc@,
{
    proof {
        lemma_keys_distinct_filter();
        lemma_keys_distinct_source();
    }
    let mut entries: Vec<(String, Value)> = Vec::new();
    match sc {
        SourceConfig::Journal(c) => {
            entries.push(("module".to_owned(), Value::Str("journal".to_owned())));
            let mut items: Vec<Value> = Vec::new();
            let n = c.common.filters.len();
            let mut i: usize = 0;
            while i < n
                invariant
                    i <= n,
                    items@.len() == i as int,
                    forall|j: int| 0 <= j < i ==> {
                        let v = #[trigger] items@[j];
                        rep_wf(v.rep()) && spec_jf_obj_ok(v.rep()) && spec_jf_obj(v.rep())
                            == c.common.filters@[j]@
                    },
                decreases n - i,
            {
                let fv = journal_filter_to_value(&c.common.filters[i]);
                items.push(fv);
                i += 1;
            }
            let ghost freps = Value::rep_of_seq(items@);
            proof {
                Value::lemma_rep_of_seq(items@);
                lemma_spec_jf_objs(freps);
                lemma_rep_wf_seq(freps);
                assert forall|k: int| 0 <= k < freps.len() implies spec_jf_objs(freps)[k]
                    == c@.filters[k] by {
                    assert(freps[k] == items@[k].rep());
                }
                assert(spec_jf_objs(freps) =~= c@.filters);
            }
            entries.push(("filters".to_owned(), Value::Arr(items)));
            match c.backlog {
                Some(b) => {
                    entries.push(("backlog".to_owned(), Value::Int(b as i64)));
                },
                None => {},
            }
            let r = obj_of_entries(entries);
            proof {
                let e = r.rep().as_obj().unwrap();
                assert(e[0].0 == "module"@ && e[1].0 == "filters"@);
                crate::value::lemma_map_find_witness(e, "module"@, 0);
                crate::value::lemma_map_find_witness(e, "filters"@, 1);
                assert(map_drop(e, "module"@) =~= e.subrange(1, e.len() as int));
                let rest = map_drop(e, "module"@);
                crate::value::lemma_map_find_witness(rest, "filters"@, 0);
                assert(map_drop(rest, "filters"@) =~= e.subrange(2, e.len() as int));
                let after = map_drop(rest, "filters"@);
                if c.backlog is Some {
                    assert(e[2].0 == "backlog"@);
                    crate::value::lemma_map_find_witness(after, "backlog"@, 0);
                    assert(map_drop(after, "backlog"@) =~= e.subrange(3, e.len() as int));
                } else {
                    crate::value::lemma_map_key_index(after, "backlog"@);
                    assert(map_key_index(after, "backlog"@) == -1) by {
                        if map_key_index(after, "backlog"@) != -1 {
                            assert(after[map_key_index(after, "backlog"@)].0 == "backlog"@);
                        }
                    }
                    assert(map_drop(after, "backlog"@) == after);
                }
                assert(spec_jmodule_ok(Some(rest)));
                assert(spec_jmodule_filters(Some(rest)) == c@.filters);
                assert(spec_jmodule_backlog(Some(rest)) == c@.backlog);
                crate::value::lemma_rep_wf_entries(e);
            }
            r
        },
        SourceConfig::Systemd(c) => {
            entries.push(("module".to_owned(), Value::Str("systemd".to_owned())));
            let mut items: Vec<Value> = Vec::new();
            let n = c.common.filters.len();
            let mut i: usize = 0;
            while i < n
                invariant
                    i <= n,
                    items@.len() == i as int,
                    forall|j: int| 0 <= j < i ==> {
                        let v = #[trigger] items@[j];
                        rep_wf(v.rep()) && spec_sfilter_obj_ok(v.rep())
                    },
                decreases n - i,
            {
                let fv = obj_of_entries(Vec::new());
                proof {
                    let fe = fv.rep().as_obj().unwrap();
                    assert(fe =~= Seq::<(Seq<char>, ValueRep)>::empty());
                    assert(map_drop(map_drop(fe, "include"@), "exclude"@) == fe);
                    crate::value::lemma_rep_wf_entries(fe);
                }
                items.push(fv);
                i += 1;
            }
            let ghost freps = Value::rep_of_seq(items@);
            proof {
                Value::lemma_rep_of_seq(items@);
                lemma_spec_sfilter_objs(freps);
                lemma_rep_wf_seq(freps);
            }
            entries.push(("filters".to_owned(), Value::Arr(items)));
            match c.user {
                Some(u) => {
                    entries.push(("user".to_owned(), Value::Bool(u)));
                },
                None => {},
            }
            let r = obj_of_entries(entries);
            proof {
                let e = r.rep().as_obj().unwrap();
                assert(e[0].0 == "module"@ && e[1].0 == "filters"@);
                crate::value::lemma_map_find_witness(e, "module"@, 0);
                crate::value::lemma_map_find_witness(e, "filters"@, 1);
                assert(map_drop(e, "module"@) =~= e.subrange(1, e.len() as int));
                let rest = map_drop(e, "module"@);
                crate::value::lemma_map_find_witness(rest, "filters"@, 0);
                assert(map_drop(rest, "filters"@) =~= e.subrange(2, e.len() as int));
                let after = map_drop(rest, "filters"@);
                if c.user is Some {
                    assert(e[2].0 == "user"@);
                    crate::value::lemma_map_find_witness(after, "user"@, 0);
                    assert(map_drop(after, "user"@) =~= e.subrange(3, e.len() as int));
                } else {
                    crate::value::lemma_map_key_index(after, "user"@);
                    assert(map_key_index(after, "user"@) == -1) by {
                        if map_key_index(after, "user"@) != -1 {
                            assert(after[map_key_index(after, "user"@)].0 == "user"@);
                        }
                    }
                    assert(map_drop(after, "user"@) == after);
                }
                assert(spec_smodule_ok(Some(rest)));
                assert(spec_smodule_nfilters(Some(rest)) == c@.nfilters);
                assert(spec_smodule_user(Some(rest)) == c@.user);
                crate::value::lemma_rep_wf_entries(e);
            }
            r
        },
    }
}

/// Whether a whole configuration can be written back out: a non-negative
/// poll interval, distinct source ids, and serializable sources.
pub open spec fn spec_config_serializable(c: Config) -> bool {
    &&& 0 <= c.poll.interval.ms
    &&& (forall|i: int, j: int|
        0 <= i < j < c.sources@.len() ==> spec_source_id(#[trigger] c.sources@[i])
            != spec_source_id(#[trigger] c.sources@[j]))
    &&& (forall|i: int|
        0 <= i < c.sources@.len() ==> spec_source_serializable(#[trigger] c.sources@[i]))
}

impl Config {
    /// Write the configuration back out as a normalized document; parsing
    /// that document yields this configuration again. Every configuration
    /// `parse` returns is serializable, so the round trip holds for all of
    /// them.
    #[verifier::loop_isolation(false)]
    #[verifier::rlimit(60)]
    pub fn to_value(&self) -> (r: Value)
        requires
            spec_config_serializable(*self),
        ensures
            rep_wf(r.rep()),
            spec_config_ok(r.rep()),
            spec_config(r.rep()) == self@,
    {
        proof {
            lemma_keys_distinct_filter();
        }
        let ms = self.poll.interval.ms;
        let mut interval = crate::strutil::u64_to_string(ms as u64);
        interval.append("ms");
        let ghost interval_view = interval@;
        let mut poll_entries: Vec<(String, Value)> = Vec::new();
        poll_entries.push(("interval".to_owned(), Value::Str(interval)));
        let poll_obj = obj_of_entries(poll_entries);
        proof {
            let pe = poll_obj.rep().as_obj().unwrap();
            assert(pe[0].0 == "interval"@);
            crate::value::lemma_map_find_witness(pe, "interval"@, 0);
            assert(map_drop(pe, "interval"@) =~= Seq::<(Seq<char>, ValueRep)>::empty());
            lemma_duration_round_trip(ms as int);
            assert(spec_poll_ms_opt(Some(poll_obj.rep())) == Some(ms as int));
            crate::value::lemma_rep_wf_entries(pe);
        }
        let mut source_entries: Vec<(String, Value)> = Vec::new();
        let n = self.sources.len();
        let mut i: usize = 0;
        while i < n
            invariant
                i <= n,
                n == self.sources@.len(),
                source_entries@.len() == i as int,
                forall|j: int| 0 <= j < i ==> {
                    let ent = #[trigger] source_entries@[j];
                    &&& ent.0@ == spec_source_id(self.sources@[j])
                    &&& rep_wf(ent.1.rep())
                    &&& spec_source_ok(ent.0@, ent.1.rep())
                    &&& spec_source(ent.0@, ent.1.rep()) == self.sources@[j]@
                },
            decreases n - i,
        {
            let sv = source_to_value(&self.sources[i]);
            let sid = match &self.sources[i] {
                SourceConfig::Systemd(c) => c.common.id.clone(),
                SourceConfig::Journal(c) => c.common.id.clone(),
            };
            source_entries.push((sid, sv));
            i += 1;
        }
        let sources_obj = obj_of_entries(source_entries);
        let ghost se = sources_obj.rep().as_obj().unwrap();
        proof {
            lemma_spec_sources(se);
            assert forall|k: int| 0 <= k < se.len() implies spec_source_ok(
                (#[trigger] se[k]).0,
                se[k].1,
            ) by {}
            assert forall|k: int| 0 <= k < se.len() implies spec_sources(se)[k]
                == self@.sources[k] by {
                assert(spec_sources(se)[k] == spec_source(se[k].0, se[k].1));
            }
            assert(spec_sources(se) =~= self@.sources);
            assert forall|p: int, q: int| 0 <= p < q < se.len() implies se[p].0 != se[q].0 by {
                assert(se[p].0 == spec_source_id(self.sources@[p]));
                assert(se[q].0 == spec_source_id(self.sources@[q]));
            }
            crate::value::lemma_rep_wf_entries(se);
        }
        let mut top: Vec<(String, Value)> = Vec::new();
        top.push(("poll".to_owned(), poll_obj));
        top.push(("sources".to_owned(), sources_obj));
        let r = obj_of_entries(top);
        proof {
            let e = r.rep().as_obj().unwrap();
            assert(e[0].0 == "poll"@ && e[1].0 == "sources"@);
            assert("poll"@ != "sources"@);
            crate::value::lemma_map_find_witness(e, "poll"@, 0);
            crate::value::lemma_map_find_witness(e, "sources"@, 1);
            assert(map_drop(e, "poll"@) =~= e.subrange(1, 2));
            let e1 = map_drop(e, "poll"@);
            crate::value::lemma_map_find_witness(e1, "sources"@, 0);
            assert(map_drop(e1, "sources"@) =~= Seq::<(Seq<char>, ValueRep)>::empty());
            assert(spec_config_ok(r.rep()));
            assert(spec_config(r.rep()).sources == self@.sources);
            assert(spec_config(r.rep()).poll_ms == self@.poll_ms);
            crate::value::lemma_rep_wf_entries(e);
        }
        r
    }
}

} // verus!
