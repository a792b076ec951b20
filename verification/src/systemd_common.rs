//! What both service-manager source flavours share: unit filtering by type
//! and the mapping from an active-state word to a `State`.
use vstd::prelude::*;

use crate::monitor::State;
use crate::strutil::str_eq;

verus! {

/// A service-manager runtime error.
#[derive(Debug)]
pub enum RuntimeError {
    UnexpectedBlankLine,
    ChildOutputStreamMissing,
    BadServiceName(String),
    MissingProperty(String),
}

impl RuntimeError {
    /// The error, rendered.
    pub fn render(&self) -> (r: String)
        ensures
            self is UnexpectedBlankLine ==> r@ == "Unexpected blank line"@,
            self is ChildOutputStreamMissing ==> r@ == "Child output stream missing"@,
            self matches RuntimeError::BadServiceName(n) ==> r@ == "Bad service name: "@ + n@,
            self matches RuntimeError::MissingProperty(p) ==> r@
                == "Missing service property: "@ + p@,
    {
        match self {
            RuntimeError::UnexpectedBlankLine => "Unexpected blank line".to_owned(),
            RuntimeError::ChildOutputStreamMissing => "Child output stream missing".to_owned(),
            RuntimeError::BadServiceName(n) => {
                let mut s = "Bad service name: ".to_owned();
                s.append(n.as_str());
                s
            },
            RuntimeError::MissingProperty(p) => {
                let mut s = "Missing service property: ".to_owned();
                s.append(p.as_str());
                s
            },
        }
    }
}

/// The position after the last dot of `s`, or 0 when it has none: where a
/// unit's type suffix starts.
pub open spec fn spec_suffix_start(s: Seq<char>) -> int
    decreases s.len(),
{
    if s.len() == 0 {
        0
    } else if s.last() == '.' {
        s.len() as int
    } else {
        spec_suffix_start(s.drop_last())
    }
}

/// The unit-type suffix of a unit name: what follows the last dot, or the
/// whole name when it has none.
pub open spec fn spec_unit_type(s: Seq<char>) -> Seq<char> {
    s.subrange(spec_suffix_start(s), s.len() as int)
}

/// Whether some entry of `set` reads `x`.
pub open spec fn contains_str(set: Seq<String>, x: Seq<char>) -> bool {
    exists|i: int| 0 <= i < set.len() && set[i]@ == x
}

/// The suffix start stays within the name.
pub proof fn lemma_suffix_start_bounds(s: Seq<char>)
    ensures
        0 <= spec_suffix_start(s) <= s.len(),
    decreases s.len(),
{
    if s.len() > 0 && s.last() != '.' {
        lemma_suffix_start_bounds(s.drop_last());
    }
}

/// Whether a unit should be ignored: its type suffix is one of the ignored
/// types.
pub fn should_ignore_unit(ignored_types: &Vec<String>, unit: &str) -> (r: bool)
    ensures
        r == contains_str(ignored_types@, spec_unit_type(unit@)),
{
    let n = unit.unicode_len();
    let mut start: usize = n;
    proof {
        lemma_suffix_start_bounds(unit@);
        assert(unit@.subrange(0, n as int) =~= unit@);
    }
    let mut scan: usize = n;
    let mut stop = false;
    while scan > 0 && !stop
        invariant
            scan <= n,
            n == unit@.len(),
            !stop ==> spec_suffix_start(unit@) == spec_suffix_start(
                unit@.subrange(0, scan as int),
            ),
            stop ==> spec_suffix_start(unit@) == scan as int,
        decreases scan + (if stop { 0int } else { 1int }),
    {
        let c = unit.get_char(scan - 1);
        proof {
            let pre = unit@.subrange(0, scan as int);
            assert(pre.last() == unit@[scan - 1]);
            assert(pre.drop_last() =~= unit@.subrange(0, scan - 1));
        }
        if c == '.' {
            stop = true;
        } else {
            scan -= 1;
        }
    }
    proof {
        if !stop {
            assert(unit@.subrange(0, 0) =~= Seq::<char>::empty());
        }
        assert(spec_suffix_start(unit@) == scan as int);
    }
    start = scan;
    let unit_type = unit.substring_char(start, n);
    let m = ignored_types.len();
    let mut i: usize = 0;
    while i < m
        invariant
            i <= m,
            m == ignored_types@.len(),
            unit_type@ == spec_unit_type(unit@),
            forall|j: int| 0 <= j < i ==> (#[trigger] ignored_types@[j])@ != unit_type@,
        decreases m - i,
    {
        if str_eq(ignored_types[i].as_str(), unit_type) {
            return true;
        }
        i += 1;
    }
    proof {
        if contains_str(ignored_types@, spec_unit_type(unit@)) {
            let j = choose|j: int|
                0 <= j < ignored_types@.len() && (#[trigger] ignored_types@[j])@ == spec_unit_type(
                    unit@,
                );
            assert(ignored_types@[j]@ != unit_type@);
            assert(false);
        }
    }
    false
}

/// The `State` an active-state word names: `active`, `reloading` and
/// `activating` are active; `inactive` and `deactivating` inactive;
/// `failed` is an error; anything else is unknown.
pub open spec fn spec_state_of(s: Seq<char>) -> State {
    if s == "active"@ || s == "reloading"@ || s == "activating"@ {
        State::Active
    } else if s == "inactive"@ || s == "deactivating"@ {
        State::Inactive
    } else if s == "failed"@ {
        State::Error
    } else {
        State::Unknown
    }
}

/// The `State` an active-state word names.
pub fn state_of_active_state(active_state: &str) -> (r: State)
    ensures
        r == spec_state_of(active_state@),
{
    if str_eq(active_state, "active") || str_eq(active_state, "reloading") || str_eq(
        active_state,
        "activating",
    ) {
        State::Active
    } else if str_eq(active_state, "inactive") || str_eq(active_state, "deactivating") {
        State::Inactive
    } else if str_eq(active_state, "failed") {
        State::Error
    } else {
        State::Unknown
    }
}

} // verus!
