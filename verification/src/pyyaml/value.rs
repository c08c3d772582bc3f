//! A plain YAML value tree, for configuration files.

use vstd::prelude::*;
use crate::text::{eq_str, str_chars};

verus! {

/// A YAML value. A float is held by the bits of its IEEE 754 double.
#[derive(Debug)]
pub enum YamlValue {
    Null,
    Bool(bool),
    Int(i64),
    Float(u64),
    Str(String),
    Sequence(Vec<YamlValue>),
    Mapping(YamlMapping),
}

/// An ordered mapping: keys keep the order in which they came; a repeated
/// key keeps its place and takes the last value.
#[derive(Debug)]
pub struct YamlMapping {
    entries: Vec<(YamlValue, YamlValue)>,
}

/// The sign bit of a double.
pub open spec fn sign_mask() -> u64 {
    0x8000_0000_0000_0000u64
}

/// The exponent bits of a double.
pub open spec fn exponent_mask() -> u64 {
    0x7FF0_0000_0000_0000u64
}

/// The fraction bits of a double.
pub open spec fn fraction_mask() -> u64 {
    0x000F_FFFF_FFFF_FFFFu64
}

/// The bits of a NaN: all exponent bits set and a fraction.
pub open spec fn is_nan_bits(b: u64) -> bool {
    b & exponent_mask() == exponent_mask() && b & fraction_mask() != 0
}

/// `==` on the doubles with bits `a` and `b`: a NaN equals nothing, and
/// the two zeros are equal.
pub open spec fn float_bits_eq(a: u64, b: u64) -> bool {
    !is_nan_bits(a) && !is_nan_bits(b) && (a == b || (a & !sign_mask() == 0 && b & !sign_mask()
        == 0))
}

fn float_eq(a: u64, b: u64) -> (r: bool)
    ensures
        r == float_bits_eq(a, b),
{
    let nan_a = a & 0x7FF0_0000_0000_0000u64 == 0x7FF0_0000_0000_0000u64 && a
        & 0x000F_FFFF_FFFF_FFFFu64 != 0;
    let nan_b = b & 0x7FF0_0000_0000_0000u64 == 0x7FF0_0000_0000_0000u64 && b
        & 0x000F_FFFF_FFFF_FFFFu64 != 0;
    !nan_a && !nan_b && (a == b || (a & !0x8000_0000_0000_0000u64 == 0 && b
        & !0x8000_0000_0000_0000u64 == 0))
}

/// `==` on values: the same variant with equal contents, floats compared
/// as doubles, sequences and mappings item by item in order.
pub closed spec fn value_eq(a: YamlValue, b: YamlValue) -> bool
    decreases a,
{
    match (a, b) {
        (YamlValue::Null, YamlValue::Null) => true,
        (YamlValue::Bool(x), YamlValue::Bool(y)) => x == y,
        (YamlValue::Int(x), YamlValue::Int(y)) => x == y,
        (YamlValue::Float(x), YamlValue::Float(y)) => float_bits_eq(x, y),
        (YamlValue::Str(x), YamlValue::Str(y)) => x@ == y@,
        (YamlValue::Sequence(x), YamlValue::Sequence(y)) => x@.len() == y@.len() && forall|i: int|
            0 <= i < x@.len() ==> value_eq(#[trigger] x@[i], y@[i]),
        (YamlValue::Mapping(x), YamlValue::Mapping(y)) => x.entries@.len() == y.entries@.len() && forall|
            i: int,
        |
            0 <= i < x.entries@.len() ==> value_eq((#[trigger] x.entries@[i]).0, y.entries@[i].0)
                && value_eq(x.entries@[i].1, y.entries@[i].1),
        _ => false,
    }
}

/// Whether two values are equal.
pub fn values_equal(a: &YamlValue, b: &YamlValue) -> (r: bool)
    ensures
        r == value_eq(*a, *b),
    decreases a,
{
    match a {
        YamlValue::Null => matches!(b, YamlValue::Null),
        YamlValue::Bool(x) => match b {
            YamlValue::Bool(y) => *x == *y,
            _ => false,
        },
        YamlValue::Int(x) => match b {
            YamlValue::Int(y) => *x == *y,
            _ => false,
        },
        YamlValue::Float(x) => match b {
            YamlValue::Float(y) => float_eq(*x, *y),
            _ => false,
        },
        YamlValue::Str(x) => match b {
            YamlValue::Str(y) => *x == *y,
            _ => false,
        },
        YamlValue::Sequence(x) => match b {
            YamlValue::Sequence(y) => {
                if x.len() != y.len() {
                    return false;
                }
                let mut i: usize = 0;
                while i < x.len()
                    invariant
                        *a == YamlValue::Sequence(*x),
                        *b == YamlValue::Sequence(*y),
                        x@.len() == y@.len(),
                        i <= x@.len(),
                        forall|k: int| 0 <= k < i ==> value_eq(#[trigger] x@[k], y@[k]),
                    decreases x@.len() - i,
                {
                    proof {
                        vstd::std_specs::vec::axiom_vec_index_decreases(*x, i as int);
                        assert(decreases_to!(*a => (*a)->Sequence_0));
                        assert((*a)->Sequence_0 == *x);
                        assert(decreases_to!(*x => x[i as int]));
                        assert(decreases_to!(*a => x[i as int]));
                    }
                    if !values_equal(&x[i], &y[i]) {
                        return false;
                    }
                    i = i + 1;
                }
                true
            },
            _ => false,
        },
        YamlValue::Mapping(x) => match b {
            YamlValue::Mapping(y) => {
                if x.entries.len() != y.entries.len() {
                    return false;
                }
                let mut i: usize = 0;
                while i < x.entries.len()
                    invariant
                        *a == YamlValue::Mapping(*x),
                        *b == YamlValue::Mapping(*y),
                        x.entries@.len() == y.entries@.len(),
                        i <= x.entries@.len(),
                        forall|k: int|
                            0 <= k < i ==> value_eq((#[trigger] x.entries@[k]).0, y.entries@[k].0)
                                && value_eq(x.entries@[k].1, y.entries@[k].1),
                    decreases x.entries@.len() - i,
                {
                    proof {
                        vstd::std_specs::vec::axiom_vec_index_decreases(x.entries, i as int);
                        assert(decreases_to!(*a => (*a)->Mapping_0));
                        assert((*a)->Mapping_0 == *x);
                        assert(decreases_to!(*x => x.entries));
                        assert(decreases_to!(x.entries => x.entries[i as int]));
                        assert(decreases_to!(x.entries[i as int] => x.entries[i as int].0));
                        assert(decreases_to!(x.entries[i as int] => x.entries[i as int].1));
                        assert(decreases_to!(*a => x.entries[i as int].0));
                        assert(decreases_to!(*a => x.entries[i as int].1));
                    }
                    if !values_equal(&x.entries[i].0, &y.entries[i].0) {
                        return false;
                    }
                    if !values_equal(&x.entries[i].1, &y.entries[i].1) {
                        return false;
                    }
                    i = i + 1;
                }
                true
            },
            _ => false,
        },
    }
}

/// `a` and `b` are the same tree: the same variant with the same contents,
/// floats by their bits.
pub closed spec fn same_value(a: YamlValue, b: YamlValue) -> bool
    decreases a,
{
    match (a, b) {
        (YamlValue::Null, YamlValue::Null) => true,
        (YamlValue::Bool(x), YamlValue::Bool(y)) => x == y,
        (YamlValue::Int(x), YamlValue::Int(y)) => x == y,
        (YamlValue::Float(x), YamlValue::Float(y)) => x == y,
        (YamlValue::Str(x), YamlValue::Str(y)) => x@ == y@,
        (YamlValue::Sequence(x), YamlValue::Sequence(y)) => x@.len() == y@.len() && forall|i: int|
            0 <= i < x@.len() ==> same_value(#[trigger] x@[i], y@[i]),
        (YamlValue::Mapping(x), YamlValue::Mapping(y)) => x.entries@.len() == y.entries@.len()
            && forall|i: int|
            0 <= i < x.entries@.len() ==> same_value((#[trigger] x.entries@[i]).0, y.entries@[i].0)
                && same_value(x.entries@[i].1, y.entries@[i].1),
        _ => false,
    }
}

/// A copy of `v`.
pub fn copy_value(v: &YamlValue) -> (r: YamlValue)
    ensures
        same_value(*v, r),
    decreases v,
{
    match v {
        YamlValue::Null => YamlValue::Null,
        YamlValue::Bool(b) => YamlValue::Bool(*b),
        YamlValue::Int(i) => YamlValue::Int(*i),
        YamlValue::Float(f) => YamlValue::Float(*f),
        YamlValue::Str(s) => YamlValue::Str(s.clone()),
        YamlValue::Sequence(x) => {
            let mut out: Vec<YamlValue> = Vec::new();
            let mut i: usize = 0;
            while i < x.len()
                invariant
                    *v == YamlValue::Sequence(*x),
                    i <= x@.len(),
                    out@.len() == i,
                    forall|k: int| 0 <= k < i ==> same_value(#[trigger] x@[k], out@[k]),
                decreases x@.len() - i,
            {
                proof {
                    vstd::std_specs::vec::axiom_vec_index_decreases(*x, i as int);
                    assert(decreases_to!(*v => (*v)->Sequence_0));
                    assert(decreases_to!(*v => x[i as int]));
                }
                let c = copy_value(&x[i]);
                out.push(c);
                i = i + 1;
            }
            YamlValue::Sequence(out)
        },
        YamlValue::Mapping(m) => {
            let mut out: Vec<(YamlValue, YamlValue)> = Vec::new();
            let mut i: usize = 0;
            while i < m.entries.len()
                invariant
                    *v == YamlValue::Mapping(*m),
                    i <= m.entries@.len(),
                    out@.len() == i,
                    forall|k: int|
                        0 <= k < i ==> same_value((#[trigger] m.entries@[k]).0, out@[k].0)
                            && same_value(m.entries@[k].1, out@[k].1),
                decreases m.entries@.len() - i,
            {
                proof {
                    vstd::std_specs::vec::axiom_vec_index_decreases(m.entries, i as int);
                    assert(decreases_to!(*v => (*v)->Mapping_0));
                    assert(decreases_to!(*m => m.entries));
                    assert(decreases_to!(m.entries => m.entries[i as int]));
                    assert(decreases_to!(*v => m.entries[i as int].0));
                    assert(decreases_to!(*v => m.entries[i as int].1));
                }
                let k = copy_value(&m.entries[i].0);
                let w = copy_value(&m.entries[i].1);
                out.push((k, w));
                i = i + 1;
            }
            YamlValue::Mapping(YamlMapping { entries: out })
        },
    }
}

/// `v` is the string `key`.
pub open spec fn is_key(v: YamlValue, key: Seq<char>) -> bool {
    match v {
        YamlValue::Str(k) => k@ == key,
        _ => false,
    }
}

impl YamlMapping {
    /// The entries, in order.
    pub closed spec fn entries_view(&self) -> Seq<(YamlValue, YamlValue)> {
        self.entries@
    }

    pub fn new() -> (m: Self)
        ensures
            m.entries_view().len() == 0,
    {
        YamlMapping { entries: Vec::new() }
    }

    /// The value of the first entry whose key is the string `key`.
    pub fn get(&self, key: &str) -> (r: Option<&YamlValue>)
        ensures
            r matches Some(v) ==> exists|i: int|
                0 <= i < self.entries_view().len() && is_key(#[trigger] self.entries_view()[i].0, key@)
                    && self.entries_view()[i].1 == *v,
            r is None ==> forall|i: int|
                0 <= i < self.entries_view().len() ==> !is_key(#[trigger] self.entries_view()[i].0, key@),
    {
        let mut i: usize = 0;
        while i < self.entries.len()
            invariant
                i <= self.entries@.len(),
                forall|k: int| 0 <= k < i ==> !is_key(#[trigger] self.entries@[k].0, key@),
            decreases self.entries@.len() - i,
        {
            match &self.entries[i].0 {
                YamlValue::Str(s) => {
                    if eq_str(str_chars(s.as_str()).as_slice(), key) {
                        proof {
                            assert(is_key(self.entries_view()[i as int].0, key@));
                        }
                        return Some(&self.entries[i].1);
                    }
                },
                _ => {},
            }
            i = i + 1;
        }
        None
    }

    pub fn contains_key(&self, key: &str) -> (r: bool)
        ensures
            r == exists|i: int|
                0 <= i < self.entries_view().len() && is_key(#[trigger] self.entries_view()[i].0, key@),
    {
        self.get(key).is_some()
    }

    /// Set `key` to `value`: in place when an equal key is there, at the
    /// end otherwise.
    pub fn insert(&mut self, key: YamlValue, value: YamlValue)
        ensures
            match first_equal_key(old(self).entries_view(), key) {
                Some(i) => final(self).entries_view() == old(self).entries_view().update(
                    i,
                    (old(self).entries_view()[i].0, value),
                ),
                None => final(self).entries_view() == old(self).entries_view().push((key, value)),
            },
    {
        let mut i: usize = 0;
        while i < self.entries.len()
            invariant
                i <= self.entries@.len(),
                self.entries@ == old(self).entries@,
                forall|k: int| 0 <= k < i ==> !value_eq((#[trigger] self.entries@[k]).0, key),
            decreases self.entries@.len() - i,
        {
            if values_equal(&self.entries[i].0, &key) {
                proof {
                    lemma_first_equal_key(old(self).entries@, key, i as int);
                }
                let (k, _) = self.entries.remove(i);
                self.entries.insert(i, (k, value));
                return ;
            }
            i = i + 1;
        }
        proof {
            lemma_no_equal_key(old(self).entries@, key);
        }
        self.entries.push((key, value));
    }

    /// The entries, in order.
    pub fn iter(&self) -> (r: &[(YamlValue, YamlValue)])
        ensures
            r@ == self.entries_view(),
    {
        self.entries.as_slice()
    }

    pub fn is_empty(&self) -> (r: bool)
        ensures
            r == (self.entries_view().len() == 0),
    {
        self.entries.len() == 0
    }
}

/// The index of the first entry whose key equals `key`.
pub open spec fn first_equal_key(entries: Seq<(YamlValue, YamlValue)>, key: YamlValue) -> Option<int> {
    if exists|i: int| 0 <= i < entries.len() && value_eq(#[trigger] entries[i].0, key) {
        Some(choose|i: int| 0 <= i < entries.len() && value_eq(#[trigger] entries[i].0, key) && forall|
            k: int,
        | 0 <= k < i ==> !value_eq(#[trigger] entries[k].0, key))
    } else {
        None
    }
}

proof fn lemma_first_equal_key(entries: Seq<(YamlValue, YamlValue)>, key: YamlValue, i: int)
    requires
        0 <= i < entries.len(),
        value_eq(entries[i].0, key),
        forall|k: int| 0 <= k < i ==> !value_eq(#[trigger] entries[k].0, key),
    ensures
        first_equal_key(entries, key) == Some(i),
{
    let j = choose|j: int|
        0 <= j < entries.len() && value_eq(#[trigger] entries[j].0, key) && forall|k: int|
            0 <= k < j ==> !value_eq(#[trigger] entries[k].0, key);
    if j < i {
        assert(!value_eq(entries[j].0, key));
    } else if j > i {
        assert(!value_eq(entries[i].0, key));
    }
}

proof fn lemma_no_equal_key(entries: Seq<(YamlValue, YamlValue)>, key: YamlValue)
    requires
        forall|k: int| 0 <= k < entries.len() ==> !value_eq(#[trigger] entries[k].0, key),
    ensures
        first_equal_key(entries, key) is None,
{
}

impl YamlValue {
    pub fn as_str(&self) -> (r: Option<&str>)
        ensures
            match *self {
                YamlValue::Str(s) => r matches Some(t) && t@ == s@,
                _ => r is None,
            },
    {
        match self {
            YamlValue::Str(s) => Some(s.as_str()),
            _ => None,
        }
    }

    pub fn as_bool(&self) -> (r: Option<bool>)
        ensures
            r == (match *self {
                YamlValue::Bool(b) => Some(b),
                _ => None,
            }),
    {
        match self {
            YamlValue::Bool(b) => Some(*b),
            _ => None,
        }
    }

    pub fn as_i64(&self) -> (r: Option<i64>)
        ensures
            r == (match *self {
                YamlValue::Int(i) => Some(i),
                _ => None,
            }),
    {
        match self {
            YamlValue::Int(i) => Some(*i),
            _ => None,
        }
    }

    pub fn as_sequence(&self) -> (r: Option<&[YamlValue]>)
        ensures
            match *self {
                YamlValue::Sequence(s) => r matches Some(t) && t@ == s@,
                _ => r is None,
            },
    {
        match self {
            YamlValue::Sequence(s) => Some(s.as_slice()),
            _ => None,
        }
    }

    pub fn as_mapping(&self) -> (r: Option<&YamlMapping>)
        ensures
            match *self {
                YamlValue::Mapping(m) => r matches Some(t) && *t == m,
                _ => r is None,
            },
    {
        match self {
            YamlValue::Mapping(m) => Some(m),
            _ => None,
        }
    }

    pub fn is_bool(&self) -> (r: bool)
        ensures
            r == (*self is Bool),
    {
        match self {
            YamlValue::Bool(_) => true,
            _ => false,
        }
    }

    pub fn is_string(&self) -> (r: bool)
        ensures
            r == (*self is Str),
    {
        match self {
            YamlValue::Str(_) => true,
            _ => false,
        }
    }
}

} // verus!
