//! A tree-structured document value: the shape of parsed configuration
//! documents and of journal records. Objects keep their entries in order,
//! with distinct keys.
use vstd::prelude::*;

use crate::strutil::str_eq;

verus! {

/// The mathematical shape of a `Value`: strings become character sequences,
/// arrays and objects become sequences.
pub enum ValueRep {
    Null,
    Bool(bool),
    Int(i64),
    UInt(u64),
    /// A floating-point number, carried as its source text; the core never
    /// computes with it.
    Float(Seq<char>),
    Str(Seq<char>),
    Arr(Seq<ValueRep>),
    Obj(Seq<(Seq<char>, ValueRep)>),
}

/// A tree-structured document value.
#[derive(Debug, PartialEq)]
pub enum Value {
    Null,
    Bool(bool),
    Int(i64),
    UInt(u64),
    Float(String),
    Str(String),
    Arr(Vec<Value>),
    Obj(ValueMap),
}

/// An object: entries in insertion order, keys distinct.
#[derive(Debug, PartialEq)]
pub struct ValueMap {
    pub(crate) entries: Vec<(String, Value)>,
}

impl View for Value {
    type V = ValueRep;

    open spec fn view(&self) -> ValueRep {
        self.rep()
    }
}

impl View for ValueMap {
    type V = Seq<(Seq<char>, ValueRep)>;

    closed spec fn view(&self) -> Seq<(Seq<char>, ValueRep)> {
        Value::rep_of_entries(self.entries@)
    }
}

impl Value {
    /// The mathematical shape of this value.
    pub closed spec fn rep(self) -> ValueRep
        decreases self,
        via Value::rep_decreases
    {
        match self {
            Value::Null => ValueRep::Null,
            Value::Bool(b) => ValueRep::Bool(b),
            Value::Int(n) => ValueRep::Int(n),
            Value::UInt(n) => ValueRep::UInt(n),
            Value::Float(s) => ValueRep::Float(s@),
            Value::Str(s) => ValueRep::Str(s@),
            Value::Arr(items) => ValueRep::Arr(Value::rep_of_seq(items@)),
            Value::Obj(m) => ValueRep::Obj(Value::rep_of_entries(m.entries@)),
        }
    }

    /// The shapes of a sequence of values, element by element.
    pub closed spec fn rep_of_seq(s: Seq<Value>) -> Seq<ValueRep>
        decreases s,
    {
        if s.len() == 0 {
            Seq::empty()
        } else {
            Value::rep_of_seq(s.drop_last()).push(s.last().rep())
        }
    }

    /// The shapes of a sequence of keyed entries, entry by entry.
    pub closed spec fn rep_of_entries(s: Seq<(String, Value)>) -> Seq<(Seq<char>, ValueRep)>
        decreases s,
    {
        if s.len() == 0 {
            Seq::empty()
        } else {
            Value::rep_of_entries(s.drop_last()).push((s.last().0@, s.last().1.rep()))
        }
    }

    #[via_fn]
    proof fn rep_decreases(self) {
        match self {
            Value::Arr(items) => {
                assert(decreases_to!(self => items));
                assert(decreases_to!(items => items@));
            },
            Value::Obj(m) => {
                assert(decreases_to!(self => m.entries));
                assert(decreases_to!(m.entries => m.entries@));
            },
            _ => (),
        }
    }

    /// `rep_of_seq` is the element-wise shape.
    pub proof fn lemma_rep_of_seq(s: Seq<Value>)
        ensures
            Value::rep_of_seq(s).len() == s.len(),
            forall|i: int| 0 <= i < s.len() ==> Value::rep_of_seq(s)[i] == s[i].rep(),
        decreases s.len(),
    {
        if s.len() > 0 {
            Value::lemma_rep_of_seq(s.drop_last());
        }
    }

    /// `rep_of_entries` is the entry-wise shape.
    pub proof fn lemma_rep_of_entries(s: Seq<(String, Value)>)
        ensures
            Value::rep_of_entries(s).len() == s.len(),
            forall|i: int| 0 <= i < s.len() ==> Value::rep_of_entries(s)[i] == (
                s[i].0@,
                s[i].1.rep(),
            ),
        decreases s.len(),
    {
        if s.len() > 0 {
            Value::lemma_rep_of_entries(s.drop_last());
        }
    }

    /// Deep copy; the copy has the same shape.
    #[verifier::loop_isolation(false)]
    pub fn deep_copy(&self) -> (r: Value)
        ensures
            r.rep() == self.rep(),
        decreases *self,
    {
        match self {
            Value::Null => Value::Null,
            Value::Bool(b) => Value::Bool(*b),
            Value::Int(n) => Value::Int(*n),
            Value::UInt(n) => Value::UInt(*n),
            Value::Float(s) => Value::Float(s.clone()),
            Value::Str(s) => Value::Str(s.clone()),
            Value::Arr(items) => {
                let mut out: Vec<Value> = Vec::new();
                let n = items.len();
                let mut i: usize = 0;
                while i < n
                    invariant
                        i <= n,
                        n == items@.len(),
                        out@.len() == i as int,
                        forall|j: int| 0 <= j < i ==> out@[j].rep() == items@[j].rep(),
                    decreases n - i,
                {
                    proof {
                        assert(decreases_to!(*self => *items));
                        assert(decreases_to!(*items => items@));
                        assert(decreases_to!(items@ => items@[i as int]));
                    }
                    let c = items[i].deep_copy();
                    out.push(c);
                    i += 1;
                }
                proof {
                    Value::lemma_rep_of_seq(items@);
                    Value::lemma_rep_of_seq(out@);
                    assert(Value::rep_of_seq(out@) =~= Value::rep_of_seq(items@));
                }
                Value::Arr(out)
            },
            Value::Obj(m) => {
                let mut out: Vec<(String, Value)> = Vec::new();
                let n = m.entries.len();
                let mut i: usize = 0;
                while i < n
                    invariant
                        i <= n,
                        n == m.entries@.len(),
                        out@.len() == i as int,
                        forall|j: int| 0 <= j < i ==> out@[j].0@ == m.entries@[j].0@
                            && out@[j].1.rep() == m.entries@[j].1.rep(),
                    decreases n - i,
                {
                    proof {
                        assert(decreases_to!(*self => m.entries));
                        assert(decreases_to!(m.entries => m.entries@));
                        assert(decreases_to!(m.entries@ => m.entries@[i as int]));
                        assert(decreases_to!(m.entries@[i as int] => m.entries@[i as int].1));
                    }
                    let e = &m.entries[i];
                    let k = e.0.clone();
                    let v = e.1.deep_copy();
                    out.push((k, v));
                    i += 1;
                }
                proof {
                    Value::lemma_rep_of_entries(m.entries@);
                    Value::lemma_rep_of_entries(out@);
                    assert(Value::rep_of_entries(out@) =~= Value::rep_of_entries(m.entries@));
                }
                Value::Obj(ValueMap { entries: out })
            },
        }
    }
}

impl Clone for Value {
    /// The clone has the same shape as the original.
    fn clone(&self) -> (r: Self)
        ensures
            r.rep() == self.rep(),
    {
        self.deep_copy()
    }
}

impl Clone for ValueMap {
    /// The clone has the same entries as the original.
    fn clone(&self) -> (r: Self)
        ensures
            r@ == self@,
            r.wf() == self.wf(),
    {
        let v = Value::Obj(ValueMap { entries: clone_entries(&self.entries) });
        match v {
            Value::Obj(m) => {
                proof {
                    Value::lemma_rep_of_entries(self.entries@);
                    Value::lemma_rep_of_entries(m.entries@);
                }
                m
            },
            _ => {
                proof {
                    assert(false);
                }
                ValueMap { entries: Vec::new() }
            },
        }
    }
}

/// Deep copy of an entry list; the copy has the same entry shapes.
fn clone_entries(entries: &Vec<(String, Value)>) -> (r: Vec<(String, Value)>)
    ensures
        Value::rep_of_entries(r@) == Value::rep_of_entries(entries@),
{
    let mut out: Vec<(String, Value)> = Vec::new();
    let n = entries.len();
    let mut i: usize = 0;
    while i < n
        invariant
            i <= n,
            n == entries@.len(),
            out@.len() == i as int,
            forall|j: int| 0 <= j < i ==> out@[j].0@ == entries@[j].0@ && out@[j].1.rep()
                == entries@[j].1.rep(),
        decreases n - i,
    {
        let e = &entries[i];
        let k = e.0.clone();
        let v = e.1.deep_copy();
        out.push((k, v));
        i += 1;
    }
    proof {
        Value::lemma_rep_of_entries(entries@);
        Value::lemma_rep_of_entries(out@);
        assert(Value::rep_of_entries(out@) =~= Value::rep_of_entries(entries@));
    }
    out
}



/// A null value's shape.
pub broadcast proof fn lemma_rep_null()
    ensures
        (#[trigger] Value::Null.rep()) == ValueRep::Null,
{
}

/// A boolean value's shape.
pub broadcast proof fn lemma_rep_bool(b: bool)
    ensures
        (#[trigger] Value::Bool(b).rep()) == ValueRep::Bool(b),
{
}

/// A signed integer value's shape.
pub broadcast proof fn lemma_rep_int(n: i64)
    ensures
        (#[trigger] Value::Int(n).rep()) == ValueRep::Int(n),
{
}

/// An unsigned integer value's shape.
pub broadcast proof fn lemma_rep_uint(n: u64)
    ensures
        (#[trigger] Value::UInt(n).rep()) == ValueRep::UInt(n),
{
}

/// A float value's shape.
pub broadcast proof fn lemma_rep_float(s: String)
    ensures
        (#[trigger] Value::Float(s).rep()) == ValueRep::Float(s@),
{
}

/// A string value's shape.
pub broadcast proof fn lemma_rep_str(s: String)
    ensures
        (#[trigger] Value::Str(s).rep()) == ValueRep::Str(s@),
{
}

/// An array value's shape.
pub broadcast proof fn lemma_rep_arr(items: Vec<Value>)
    ensures
        (#[trigger] Value::Arr(items).rep()) == ValueRep::Arr(Value::rep_of_seq(items@)),
{
}

/// An object value's shape.
pub broadcast proof fn lemma_rep_obj(m: ValueMap)
    ensures
        (#[trigger] Value::Obj(m).rep()) == ValueRep::Obj(m@),
{
}

/// The shapes of the basic value constructors.
pub broadcast group value_rep_facts {
    lemma_rep_null,
    lemma_rep_bool,
    lemma_rep_int,
    lemma_rep_uint,
    lemma_rep_float,
    lemma_rep_str,
    lemma_rep_arr,
    lemma_rep_obj,
}

impl ValueRep {
    /// The integer payload, if this is a signed integer.
    pub open spec fn as_int(self) -> Option<i64> {
        match self {
            ValueRep::Int(n) => Some(n),
            _ => None,
        }
    }

    /// The integer payload, if this is an unsigned integer.
    pub open spec fn as_uint(self) -> Option<u64> {
        match self {
            ValueRep::UInt(n) => Some(n),
            _ => None,
        }
    }

    /// The characters, if this is a string.
    pub open spec fn as_str(self) -> Option<Seq<char>> {
        match self {
            ValueRep::Str(t) => Some(t),
            _ => None,
        }
    }

    /// The payload, if this is a boolean.
    pub open spec fn as_bool(self) -> Option<bool> {
        match self {
            ValueRep::Bool(b) => Some(b),
            _ => None,
        }
    }

    /// The entries, if this is an object.
    pub open spec fn as_obj(self) -> Option<Seq<(Seq<char>, ValueRep)>> {
        match self {
            ValueRep::Obj(e) => Some(e),
            _ => None,
        }
    }

    /// The elements, if this is an array.
    pub open spec fn as_arr(self) -> Option<Seq<ValueRep>> {
        match self {
            ValueRep::Arr(e) => Some(e),
            _ => None,
        }
    }

    /// The name of this value's type, as error messages spell it.
    pub open spec fn kind_name(self) -> Seq<char> {
        match self {
            ValueRep::Null => "Null"@,
            ValueRep::Bool(_) => "Boolean"@,
            ValueRep::Int(_) => "Integer"@,
            ValueRep::UInt(_) => "Integer"@,
            ValueRep::Float(_) => "Float"@,
            ValueRep::Str(_) => "String"@,
            ValueRep::Arr(_) => "Array"@,
            ValueRep::Obj(_) => "Object"@,
        }
    }
}

/// Every object in the tree has distinct keys.
pub open spec fn rep_wf(r: ValueRep) -> bool
    decreases r,
{
    match r {
        ValueRep::Arr(s) => rep_wf_seq(s),
        ValueRep::Obj(e) => distinct_keys(e) && rep_wf_entries(e),
        _ => true,
    }
}

/// Every element is well-formed.
pub open spec fn rep_wf_seq(s: Seq<ValueRep>) -> bool
    decreases s,
{
    if s.len() == 0 {
        true
    } else {
        rep_wf_seq(s.drop_last()) && rep_wf(s.last())
    }
}

/// Every entry's value is well-formed.
pub open spec fn rep_wf_entries(e: Seq<(Seq<char>, ValueRep)>) -> bool
    decreases e,
{
    if e.len() == 0 {
        true
    } else {
        rep_wf_entries(e.drop_last()) && rep_wf(e.last().1)
    }
}

/// `rep_wf_seq` is the element-wise condition.
pub proof fn lemma_rep_wf_seq(s: Seq<ValueRep>)
    ensures
        rep_wf_seq(s) == (forall|i: int| 0 <= i < s.len() ==> rep_wf(#[trigger] s[i])),
    decreases s.len(),
{
    if s.len() > 0 {
        lemma_rep_wf_seq(s.drop_last());
        if forall|i: int| 0 <= i < s.drop_last().len() ==> rep_wf(#[trigger] s.drop_last()[i]) {
            assert forall|i: int| 0 <= i < s.len() - 1 implies rep_wf(#[trigger] s[i]) by {
                assert(rep_wf(s.drop_last()[i]));
            }
        }
        if forall|i: int| 0 <= i < s.len() ==> rep_wf(#[trigger] s[i]) {
            assert forall|i: int| 0 <= i < s.drop_last().len() implies rep_wf(
                #[trigger] s.drop_last()[i],
            ) by {
                assert(rep_wf(s[i]));
            }
        }
    }
}

/// `rep_wf_entries` is the entry-wise condition.
pub proof fn lemma_rep_wf_entries(e: Seq<(Seq<char>, ValueRep)>)
    ensures
        rep_wf_entries(e) == (forall|i: int| 0 <= i < e.len() ==> rep_wf(#[trigger] e[i].1)),
    decreases e.len(),
{
    if e.len() > 0 {
        lemma_rep_wf_entries(e.drop_last());
        if forall|i: int| 0 <= i < e.drop_last().len() ==> rep_wf(#[trigger] e.drop_last()[i].1) {
            assert forall|i: int| 0 <= i < e.len() - 1 implies rep_wf(#[trigger] e[i].1) by {
                assert(rep_wf(e.drop_last()[i].1));
            }
        }
        if forall|i: int| 0 <= i < e.len() ==> rep_wf(#[trigger] e[i].1) {
            assert forall|i: int| 0 <= i < e.drop_last().len() implies rep_wf(
                #[trigger] e.drop_last()[i].1,
            ) by {
                assert(rep_wf(e[i].1));
            }
        }
    }
}

impl Value {
    /// The integer payload, if this is a signed integer.
    pub fn get_int(&self) -> (r: Option<i64>)
        ensures
            r == self.rep().as_int(),
    {
        match self {
            Value::Int(n) => Some(*n),
            _ => None,
        }
    }

    /// The integer payload, if this is an unsigned integer.
    pub fn get_uint(&self) -> (r: Option<u64>)
        ensures
            r == self.rep().as_uint(),
    {
        match self {
            Value::UInt(n) => Some(*n),
            _ => None,
        }
    }

    /// The payload, if this is a boolean.
    pub fn get_bool(&self) -> (r: Option<bool>)
        ensures
            r == self.rep().as_bool(),
    {
        match self {
            Value::Bool(b) => Some(*b),
            _ => None,
        }
    }

    /// The string payload, if this is a string.
    pub fn get_str(&self) -> (r: Option<&String>)
        ensures
            (r is Some) == (self.rep().as_str() is Some),
            r matches Some(t) ==> self.rep().as_str() == Some(t@),
    {
        match self {
            Value::Str(t) => Some(t),
            _ => None,
        }
    }

    /// The object payload, if this is an object.
    pub fn get_obj(&self) -> (r: Option<&ValueMap>)
        ensures
            (r is Some) == (self.rep().as_obj() is Some),
            r matches Some(m) ==> self.rep().as_obj() == Some(m@),
    {
        match self {
            Value::Obj(m) => Some(m),
            _ => None,
        }
    }

    /// The string payload by value, or the value back unchanged.
    pub fn into_str(self) -> (r: Result<String, Value>)
        ensures
            r matches Ok(t) ==> self.rep().as_str() == Some(t@),
            r matches Err(v) ==> v.rep() == self.rep() && self.rep().as_str() is None,
    {
        match self {
            Value::Str(t) => Ok(t),
            v => Err(v),
        }
    }

    /// The object payload by value, or the value back unchanged.
    pub fn into_obj(self) -> (r: Result<ValueMap, Value>)
        ensures
            r matches Ok(m) ==> self.rep().as_obj() == Some(m@),
            r matches Err(v) ==> v.rep() == self.rep() && self.rep().as_obj() is None,
    {
        match self {
            Value::Obj(m) => Ok(m),
            v => Err(v),
        }
    }

    /// The array payload by value, or the value back unchanged.
    pub fn into_arr(self) -> (r: Result<Vec<Value>, Value>)
        ensures
            r matches Ok(a) ==> self.rep().as_arr() == Some(Value::rep_of_seq(a@)),
            r matches Err(v) ==> v.rep() == self.rep() && self.rep().as_arr() is None,
    {
        match self {
            Value::Arr(a) => Ok(a),
            v => Err(v),
        }
    }

    /// The name of this value's type, as error messages spell it.
    pub fn kind_name(&self) -> (r: &'static str)
        ensures
            r@ == self.rep().kind_name(),
    {
        match self {
            Value::Null => "Null",
            Value::Bool(_) => "Boolean",
            Value::Int(_) => "Integer",
            Value::UInt(_) => "Integer",
            Value::Float(_) => "Float",
            Value::Str(_) => "String",
            Value::Arr(_) => "Array",
            Value::Obj(_) => "Object",
        }
    }

    /// Whether every object in this tree has distinct keys.
    #[verifier::loop_isolation(false)]
    pub fn deep_wf_check(&self) -> (r: bool)
        ensures
            r == rep_wf(self.rep()),
        decreases *self,
    {
        match self {
            Value::Arr(items) => {
                let n = items.len();
                let mut i: usize = 0;
                proof {
                    Value::lemma_rep_of_seq(items@);
                    lemma_rep_wf_seq(Value::rep_of_seq(items@));
                }
                while i < n
                    invariant
                        i <= n,
                        forall|j: int| 0 <= j < i ==> rep_wf(#[trigger] Value::rep_of_seq(
                            items@,
                        )[j]),
                    decreases n - i,
                {
                    proof {
                        assert(decreases_to!(*self => *items));
                        assert(decreases_to!(*items => items@));
                        assert(decreases_to!(items@ => items@[i as int]));
                    }
                    if !items[i].deep_wf_check() {
                        proof {
                            let s = Value::rep_of_seq(items@);
                            lemma_rep_wf_seq(s);
                            assert(!rep_wf(s[i as int]));
                        }
                        return false;
                    }
                    i += 1;
                }
                true
            },
            Value::Obj(m) => {
                if !m.check_distinct() {
                    proof {
                        Value::lemma_rep_of_entries(m.entries@);
                    }
                    return false;
                }
                let n = m.entries.len();
                let mut i: usize = 0;
                proof {
                    Value::lemma_rep_of_entries(m.entries@);
                    lemma_rep_wf_entries(Value::rep_of_entries(m.entries@));
                }
                while i < n
                    invariant
                        i <= n,
                        forall|j: int| 0 <= j < i ==> rep_wf(
                            #[trigger] Value::rep_of_entries(m.entries@)[j].1,
                        ),
                    decreases n - i,
                {
                    proof {
                        assert(decreases_to!(*self => m.entries));
                        assert(decreases_to!(m.entries => m.entries@));
                        assert(decreases_to!(m.entries@ => m.entries@[i as int]));
                        assert(decreases_to!(m.entries@[i as int] => m.entries@[i as int].1));
                    }
                    if !m.entries[i].1.deep_wf_check() {
                        proof {
                            lemma_rep_wf_entries(Value::rep_of_entries(m.entries@));
                            assert(!rep_wf(Value::rep_of_entries(m.entries@)[i as int].1));
                        }
                        return false;
                    }
                    i += 1;
                }
                true
            },
            _ => true,
        }
    }
}


/// Entry values are all deeply well-formed, keys distinct: what `rep_wf`
/// says of an object's entries.
pub open spec fn entries_wf(e: Seq<(Seq<char>, ValueRep)>) -> bool {
    distinct_keys(e) && (forall|i: int| 0 <= i < e.len() ==> rep_wf(#[trigger] e[i].1))
}

/// A well-formed object has well-formed entries and the other way round.
pub proof fn lemma_entries_wf(e: Seq<(Seq<char>, ValueRep)>)
    ensures
        rep_wf(ValueRep::Obj(e)) == entries_wf(e),
{
    lemma_rep_wf_entries(e);
}

/// Dropping a key keeps the entries well-formed; the value found under any
/// key of a well-formed object is itself well-formed.
pub proof fn lemma_entries_wf_drop(e: Seq<(Seq<char>, ValueRep)>, k: Seq<char>)
    requires
        entries_wf(e),
    ensures
        entries_wf(map_drop(e, k)),
        match map_find(e, k) {
            Some(v) => rep_wf(v),
            None => true,
        },
{
    lemma_map_key_index(e, k);
    let r = map_key_index(e, k);
    if r != -1 {
        lemma_distinct_remove(e, r);
        let t = e.remove(r);
        assert forall|i: int| 0 <= i < t.len() implies rep_wf(#[trigger] t[i].1) by {
            if i < r {
                assert(t[i] == e[i]);
            } else {
                assert(t[i] == e[i + 1]);
            }
        }
    }
}

/// The first value bound to key `k` in an entry sequence, if any.
pub open spec fn map_find<V>(s: Seq<(Seq<char>, V)>, k: Seq<char>) -> Option<V>
    decreases s.len(),
{
    if s.len() == 0 {
        None
    } else if s[0].0 == k {
        Some(s[0].1)
    } else {
        map_find(s.skip(1), k)
    }
}

/// The position of key `k` in an entry sequence, or -1 if it is absent.
pub open spec fn map_key_index<V>(s: Seq<(Seq<char>, V)>, k: Seq<char>) -> int
    decreases s.len(),
{
    if s.len() == 0 {
        -1
    } else if s[0].0 == k {
        0
    } else {
        let r = map_key_index(s.skip(1), k);
        if r == -1 {
            -1
        } else {
            r + 1
        }
    }
}

/// The entry sequence after binding key `k` to `v`: an existing entry is
/// replaced in place, a new key is appended.
pub open spec fn map_bind<V>(s: Seq<(Seq<char>, V)>, k: Seq<char>, v: V) -> Seq<
    (Seq<char>, V),
> {
    if map_key_index(s, k) == -1 {
        s.push((k, v))
    } else {
        s.update(map_key_index(s, k), (k, v))
    }
}

/// The entry sequence after dropping key `k`, if present.
pub open spec fn map_drop<V>(s: Seq<(Seq<char>, V)>, k: Seq<char>) -> Seq<
    (Seq<char>, V),
> {
    if map_key_index(s, k) == -1 {
        s
    } else {
        s.remove(map_key_index(s, k))
    }
}

/// Keys of an entry sequence are pairwise distinct.
pub open spec fn distinct_keys<V>(s: Seq<(Seq<char>, V)>) -> bool {
    forall|i: int, j: int| 0 <= i < j < s.len() ==> s[i].0 != s[j].0
}

/// How `map_key_index` relates to the entries: a found index carries the key,
/// everything before it does not, and `map_find` returns the value there.
pub proof fn lemma_map_key_index<V>(s: Seq<(Seq<char>, V)>, k: Seq<char>)
    ensures
        map_key_index(s, k) == -1 ==> forall|i: int| 0 <= i < s.len() ==> s[i].0 != k,
        map_key_index(s, k) != -1 ==> {
            let r = map_key_index(s, k);
            &&& 0 <= r < s.len()
            &&& s[r].0 == k
            &&& forall|i: int| 0 <= i < r ==> s[i].0 != k
        },
        map_find(s, k) == if map_key_index(s, k) == -1 {
            None::<V>
        } else {
            Some(s[map_key_index(s, k)].1)
        },
    decreases s.len(),
{
    if s.len() > 0 && s[0].0 != k {
        lemma_map_key_index(s.skip(1), k);
        let st = s.skip(1);
        assert(forall|i: int| 0 <= i < st.len() ==> st[i] == s[i + 1]);
        let r1 = map_key_index(st, k);
        if r1 == -1 {
            assert forall|i: int| 0 <= i < s.len() implies s[i].0 != k by {
                if i > 0 {
                    assert(st[i - 1] == s[i]);
                }
            }
        } else {
            assert(map_key_index(s, k) == r1 + 1);
            assert(s[r1 + 1] == st[r1]);
            assert forall|i: int| 0 <= i < r1 + 1 implies s[i].0 != k by {
                if i > 0 {
                    assert(st[i - 1] == s[i]);
                }
            }
        }
    }
}

/// `map_find` after `map_bind`: the bound key reads back the new value, all
/// other keys are unchanged, and distinctness is preserved.
pub proof fn lemma_map_bind<V>(s: Seq<(Seq<char>, V)>, k: Seq<char>, v: V)
    requires
        distinct_keys(s),
    ensures
        distinct_keys(map_bind(s, k, v)),
        map_find(map_bind(s, k, v), k) == Some(v),
        forall|k2: Seq<char>| k2 != k ==> map_find(map_bind(s, k, v), k2) == map_find(s, k2),
    decreases s.len(),
{
    lemma_map_key_index(s, k);
    let t = map_bind(s, k, v);
    assert forall|k2: Seq<char>| map_find(t, k2) == if k2 == k {
        Some(v)
    } else {
        map_find(s, k2)
    } by {
        lemma_map_find_at(s, k2);
        lemma_map_find_at(t, k2);
        lemma_map_key_index(s, k2);
        lemma_map_key_index(t, k2);
        if k2 == k {
            if map_key_index(s, k) == -1 {
                lemma_map_find_witness(t, k, s.len() as int);
            } else {
                lemma_map_find_witness(t, k, map_key_index(s, k));
            }
        } else {
            match map_find(s, k2) {
                Some(_) => {
                    let i = map_key_index(s, k2);
                    lemma_map_find_witness(t, k2, i);
                },
                None => {
                    if map_find(t, k2) is Some {
                        let j = map_key_index(t, k2);
                        assert(s[j].0 == k2);
                        assert(false);
                    }
                },
            }
        }
    }
    assert(map_find(t, k) == Some(v));
}

/// `map_find` after `map_drop`: the dropped key is gone, all other keys are
/// unchanged, and distinctness is preserved.
pub proof fn lemma_map_drop<V>(s: Seq<(Seq<char>, V)>, k: Seq<char>)
    requires
        distinct_keys(s),
    ensures
        distinct_keys(map_drop(s, k)),
        map_find(map_drop(s, k), k) is None,
        forall|k2: Seq<char>| k2 != k ==> map_find(map_drop(s, k), k2) == map_find(s, k2),
{
    lemma_map_key_index(s, k);
    let t = map_drop(s, k);
    let r = map_key_index(s, k);
    assert forall|k2: Seq<char>| map_find(t, k2) == if k2 == k {
        None::<V>
    } else {
        map_find(s, k2)
    } by {
        lemma_map_key_index(t, k2);
        lemma_map_key_index(s, k2);
        if k2 == k {
            if map_find(t, k) is Some {
                let j = map_key_index(t, k);
                if r == -1 {
                } else {
                    if j < r {
                        assert(s[j].0 == k);
                        assert(false);
                    } else {
                        assert(s[j + 1].0 == k);
                        assert(false);
                    }
                }
            }
        } else {
            match map_find(s, k2) {
                Some(_) => {
                    let i = map_key_index(s, k2);
                    if r == -1 {
                    } else if i < r {
                        lemma_map_find_witness(t, k2, i);
                    } else {
                        assert(t[i - 1] == s[i]);
                        lemma_map_find_witness(t, k2, i - 1);
                    }
                },
                None => {
                    if map_find(t, k2) is Some {
                        let j = map_key_index(t, k2);
                        if r == -1 || j < r {
                            assert(s[j].0 == k2);
                        } else {
                            assert(s[j + 1].0 == k2);
                        }
                        assert(false);
                    }
                },
            }
        }
    }
}

/// `map_find` is `Some` exactly when some entry carries the key.
pub proof fn lemma_map_find_at<V>(s: Seq<(Seq<char>, V)>, k: Seq<char>)
    ensures
        map_find(s, k) is Some <==> exists|i: int| 0 <= i < s.len() && s[i].0 == k,
    decreases s.len(),
{
    lemma_map_key_index(s, k);
    if map_key_index(s, k) != -1 {
        assert(s[map_key_index(s, k)].0 == k);
    } else {
        if exists|i: int| 0 <= i < s.len() && s[i].0 == k {
            let i = choose|i: int| 0 <= i < s.len() && s[i].0 == k;
            assert(s[i].0 != k);
            assert(false);
        }
    }
}

/// An entry carrying the key at position `i`, with no earlier occurrence,
/// fixes `map_key_index`.
pub proof fn lemma_map_find_witness<V>(s: Seq<(Seq<char>, V)>, k: Seq<char>, i: int)
    requires
        0 <= i < s.len(),
        s[i].0 == k,
        forall|j: int| 0 <= j < i ==> s[j].0 != k,
    ensures
        map_key_index(s, k) == i,
        map_find(s, k) == Some(s[i].1),
    decreases s.len(),
{
    if s[0].0 != k {
        lemma_map_find_witness(s.skip(1), k, i - 1);
    }
    lemma_map_key_index(s, k);
}


/// Dropping the entry at `i` keeps keys distinct.
pub proof fn lemma_distinct_remove<V>(s: Seq<(Seq<char>, V)>, i: int)
    requires
        distinct_keys(s),
        0 <= i < s.len(),
    ensures
        distinct_keys(s.remove(i)),
{
    let t = s.remove(i);
    assert forall|p: int, q: int| 0 <= p < q < t.len() implies t[p].0 != t[q].0 by {
        let p0 = if p < i { p } else { p + 1 };
        let q0 = if q < i { q } else { q + 1 };
        assert(t[p] == s[p0]);
        assert(t[q] == s[q0]);
    }
}

/// The entry sequence after binding every entry of `t` in order.
pub open spec fn map_extend<V>(s: Seq<(Seq<char>, V)>, t: Seq<(Seq<char>, V)>) -> Seq<
    (Seq<char>, V),
>
    decreases t.len(),
{
    if t.len() == 0 {
        s
    } else {
        map_bind(map_extend(s, t.drop_last()), t.last().0, t.last().1)
    }
}

/// Extending binds each key of `t` to its value there; keys only in `s` keep
/// their value, and distinctness is preserved.
pub proof fn lemma_map_extend<V>(s: Seq<(Seq<char>, V)>, t: Seq<(Seq<char>, V)>)
    requires
        distinct_keys(s),
        distinct_keys(t),
    ensures
        distinct_keys(map_extend(s, t)),
        forall|k: Seq<char>| map_key_index(t, k) == -1 ==> map_find(map_extend(s, t), k)
            == map_find(s, k),
        forall|k: Seq<char>| map_key_index(t, k) != -1 ==> map_find(map_extend(s, t), k)
            == map_find(t, k),
    decreases t.len(),
{
    if t.len() > 0 {
        let t0 = t.drop_last();
        assert(distinct_keys(t0)) by {
            assert(forall|p: int, q: int| 0 <= p < q < t0.len() ==> t[p].0 != t[q].0);
        }
        lemma_map_extend(s, t0);
        lemma_map_bind(map_extend(s, t0), t.last().0, t.last().1);
        assert forall|k: Seq<char>| map_key_index(t, k) == -1 implies map_find(
            map_extend(s, t),
            k,
        ) == map_find(s, k) by {
            lemma_map_key_index(t, k);
            lemma_map_key_index(t0, k);
            if map_key_index(t0, k) != -1 {
                assert(t0[map_key_index(t0, k)].0 == k);
                assert(t[map_key_index(t0, k)].0 == k);
                assert(false);
            }
            assert(k != t.last().0);
        }
        assert forall|k: Seq<char>| map_key_index(t, k) != -1 implies map_find(
            map_extend(s, t),
            k,
        ) == map_find(t, k) by {
            lemma_map_key_index(t, k);
            lemma_map_key_index(t0, k);
            if k == t.last().0 {
                lemma_map_find_witness(t, k, t.len() - 1);
            } else {
                let j = map_key_index(t, k);
                assert(t[j].0 == k);
                assert(j < t.len() - 1);
                assert(t0[j] == t[j]);
                lemma_map_find_witness(t0, k, j);
                lemma_map_find_witness(t, k, j);
            }
        }
    }
}

/// How an object's view lines up with its stored entries.
pub(crate) proof fn lemma_map_view(m: &ValueMap)
    ensures
        m@.len() == m.entries@.len(),
        forall|i: int| 0 <= i < m.entries@.len() ==> m@[i] == (
            m.entries@[i].0@,
            m.entries@[i].1.rep(),
        ),
{
    Value::lemma_rep_of_entries(m.entries@);
}

impl ValueMap {
    /// Keys are pairwise distinct.
    pub open spec fn wf(&self) -> bool {
        distinct_keys(self@)
    }

    /// The value bound to key `k`, if any.
    pub open spec fn spec_get(&self, k: Seq<char>) -> Option<ValueRep> {
        map_find(self@, k)
    }

    /// An empty object.
    pub fn new() -> (r: ValueMap)
        ensures
            r@ =~= Seq::<(Seq<char>, ValueRep)>::empty(),
            r.wf(),
    {
        let r = ValueMap { entries: Vec::new() };
        proof {
            Value::lemma_rep_of_entries(r.entries@);
        }
        r
    }

    /// The number of entries.
    pub fn len(&self) -> (r: usize)
        ensures
            r == self@.len(),
    {
        proof {
            Value::lemma_rep_of_entries(self.entries@);
        }
        self.entries.len()
    }

    /// Whether the object has no entries.
    pub fn is_empty(&self) -> (r: bool)
        ensures
            r == (self@.len() == 0),
    {
        self.len() == 0
    }

    /// The key and value of the entry at position `i`.
    pub fn entry_at(&self, i: usize) -> (r: (&String, &Value))
        requires
            i < self@.len(),
        ensures
            r.0@ == self@[i as int].0,
            r.1.rep() == self@[i as int].1,
    {
        proof {
            Value::lemma_rep_of_entries(self.entries@);
        }
        let e = &self.entries[i];
        (&e.0, &e.1)
    }

    /// The position of key `k`, if present.
    fn find_index(&self, k: &str) -> (r: Option<usize>)
        ensures
            match r {
                Some(i) => map_key_index(self@, k@) == i as int && i < self@.len(),
                None => map_key_index(self@, k@) == -1,
            },
    {
        proof {
            Value::lemma_rep_of_entries(self.entries@);
        }
        let n = self.entries.len();
        let mut i: usize = 0;
        while i < n
            invariant
                i <= n,
                n == self@.len(),
                n == self.entries@.len(),
                forall|j: int| 0 <= j < i ==> self@[j].0 != k@,
                forall|j: int| 0 <= j < n ==> self@[j] == (
                    self.entries@[j].0@,
                    self.entries@[j].1.rep(),
                ),
            decreases n - i,
        {
            if str_eq(self.entries[i].0.as_str(), k) {
                proof {
                    lemma_map_find_witness(self@, k@, i as int);
                }
                return Some(i);
            }
            i += 1;
        }
        proof {
            lemma_map_key_index(self@, k@);
            if map_key_index(self@, k@) != -1 {
                let r = map_key_index(self@, k@);
                assert(self@[r].0 != k@);
                assert(false);
            }
        }
        None
    }

    /// Whether key `k` is present.
    pub fn contains_key(&self, k: &str) -> (r: bool)
        ensures
            r == (self.spec_get(k@) is Some),
    {
        proof {
            lemma_map_key_index(self@, k@);
        }
        match self.find_index(k) {
            Some(_) => true,
            None => false,
        }
    }

    /// The value bound to key `k`, if any.
    pub fn get(&self, k: &str) -> (r: Option<&Value>)
        ensures
            match r {
                Some(v) => self.spec_get(k@) == Some(v.rep()),
                None => self.spec_get(k@) is None,
            },
    {
        proof {
            lemma_map_key_index(self@, k@);
            Value::lemma_rep_of_entries(self.entries@);
        }
        match self.find_index(k) {
            Some(i) => Some(&self.entries[i].1),
            None => None,
        }
    }

    /// Bind key `k` to `v`: replace an existing entry in place, or append.
    pub fn insert(&mut self, k: String, v: Value)
        ensures
            final(self)@ == map_bind(old(self)@, k@, v.rep()),
            old(self).wf() ==> final(self).wf(),
    {
        proof {
            Value::lemma_rep_of_entries(self.entries@);
            lemma_map_key_index(self@, k@);
            if old(self).wf() {
                lemma_map_bind(old(self)@, k@, v.rep());
            }
        }
        match self.find_index(&k) {
            Some(i) => {
                self.entries.remove(i);
                self.entries.insert(i, (k, v));
                proof {
                    Value::lemma_rep_of_entries(self.entries@);
                    Value::lemma_rep_of_entries(old(self).entries@);
                    assert(self@ =~= map_bind(old(self)@, k@, v.rep()));
                }
            },
            None => {
                self.entries.push((k, v));
                proof {
                    Value::lemma_rep_of_entries(self.entries@);
                    Value::lemma_rep_of_entries(old(self).entries@);
                    assert(self@ =~= map_bind(old(self)@, k@, v.rep()));
                }
            },
        }
    }



    /// Whether the keys really are pairwise distinct.
    pub fn check_distinct(&self) -> (r: bool)
        ensures
            r == distinct_keys(self@),
    {
        proof {
            Value::lemma_rep_of_entries(self.entries@);
        }
        let n = self.entries.len();
        let mut i: usize = 0;
        while i < n
            invariant
                i <= n,
                n == self@.len(),
                n == self.entries@.len(),
                forall|p: int, q: int| 0 <= p < q < i ==> self@[p].0 != self@[q].0,
                forall|j: int| 0 <= j < n ==> self@[j] == (
                    self.entries@[j].0@,
                    self.entries@[j].1.rep(),
                ),
            decreases n - i,
        {
            let mut j: usize = 0;
            while j < i
                invariant
                    j <= i,
                    i < n,
                    n == self@.len(),
                    n == self.entries@.len(),
                    forall|q: int| 0 <= q < j ==> self@[q].0 != self@[i as int].0,
                    forall|k: int| 0 <= k < n ==> self@[k] == (
                        self.entries@[k].0@,
                        self.entries@[k].1.rep(),
                    ),
                decreases i - j,
            {
                if crate::strutil::str_eq(self.entries[j].0.as_str(), self.entries[i].0.as_str()) {
                    proof {
                        assert(!distinct_keys(self@)) by {
                            assert(self@[j as int].0 == self@[i as int].0);
                        }
                    }
                    return false;
                }
                j += 1;
            }
            i += 1;
        }
        true
    }


    /// Remove and return the first entry, if any.
    pub fn take_first(&mut self) -> (r: Option<(String, Value)>)
        ensures
            old(self)@.len() == 0 ==> r is None && final(self)@ == old(self)@,
            old(self)@.len() > 0 ==> (r matches Some(e) && e.0@ == old(self)@[0].0 && e.1.rep()
                == old(self)@[0].1 && final(self)@ == old(self)@.skip(1)),
            old(self).wf() ==> final(self).wf(),
    {
        proof {
            Value::lemma_rep_of_entries(self.entries@);
            if old(self).wf() && old(self)@.len() > 0 {
                lemma_distinct_remove(old(self)@, 0);
            }
        }
        if self.entries.len() == 0 {
            return None;
        }
        let e = self.entries.remove(0);
        proof {
            Value::lemma_rep_of_entries(self.entries@);
            Value::lemma_rep_of_entries(old(self).entries@);
            assert(self@ =~= old(self)@.skip(1)) by {
                assert(self@ =~= old(self)@.remove(0));
            }
        }
        Some(e)
    }

    /// Drop the entry at position `i`.
    pub fn remove_at(&mut self, i: usize)
        requires
            i < old(self)@.len(),
        ensures
            final(self)@ == old(self)@.remove(i as int),
            old(self).wf() ==> final(self).wf(),
    {
        proof {
            Value::lemma_rep_of_entries(self.entries@);
            if old(self).wf() {
                lemma_distinct_remove(old(self)@, i as int);
            }
        }
        self.entries.remove(i);
        proof {
            Value::lemma_rep_of_entries(self.entries@);
            Value::lemma_rep_of_entries(old(self).entries@);
            assert(self@ =~= old(self)@.remove(i as int));
        }
    }

    /// Bind every entry of `other`, in order, into this object.
    pub fn extend_from(&mut self, other: &ValueMap)
        ensures
            final(self)@ == map_extend(old(self)@, other@),
    {
        let n = other.len();
        let mut i: usize = 0;
        while i < n
            invariant
                i <= n,
                n == other@.len(),
                self@ == map_extend(old(self)@, other@.subrange(0, i as int)),
            decreases n - i,
        {
            let e = other.entry_at(i);
            let k = e.0.clone();
            let v = e.1.deep_copy();
            self.insert(k, v);
            proof {
                assert(other@.subrange(0, i + 1).drop_last() =~= other@.subrange(0, i as int));
                assert(other@.subrange(0, i + 1).last() == other@[i as int]);
            }
            i += 1;
        }
        proof {
            assert(other@.subrange(0, n as int) =~= other@);
        }
    }

    /// Drop key `k`, returning the value it was bound to, if any.
    pub fn remove(&mut self, k: &str) -> (r: Option<Value>)
        ensures
            final(self)@ == map_drop(old(self)@, k@),
            match r {
                Some(v) => old(self).spec_get(k@) == Some(v.rep()),
                None => old(self).spec_get(k@) is None,
            },
            old(self).wf() ==> final(self).wf(),
    {
        proof {
            Value::lemma_rep_of_entries(self.entries@);
            lemma_map_key_index(self@, k@);
            if old(self).wf() {
                lemma_map_drop(old(self)@, k@);
            }
        }
        match self.find_index(k) {
            Some(i) => {
                let e = self.entries.remove(i);
                proof {
                    Value::lemma_rep_of_entries(self.entries@);
                    Value::lemma_rep_of_entries(old(self).entries@);
                    assert(self@ =~= map_drop(old(self)@, k@));
                }
                Some(e.1)
            },
            None => {
                proof {
                    assert(self@ =~= map_drop(old(self)@, k@));
                }
                None
            },
        }
    }
}

} // verus!
