//! When two values count as equal.
use vstd::prelude::*;
use crate::endian::be_signed;
use vstd::set_lib::lemma_subset_equality;
use vstd::std_specs::cmp::PartialEqSpecImpl;
use crate::value::entries_to_map;
use crate::value::keys_distinct;
use crate::value::lemma_distinct_keys_count;
use crate::value::lemma_distinct_keys_lookup;
use crate::value::named_models;
use crate::value::value_models;
use crate::value::Value;
use crate::value::ValueMap;
use crate::value::ValueModel;

verus! {

/// Whether `a` and `b` are the same value: alike in kind and in content,
/// where decimals are alike when their integers are, in however many bytes
/// each is kept, and maps are alike when they have the same keys with the same
/// values.
pub open spec fn same_value(a: ValueModel, b: ValueModel) -> bool
    decreases a,
{
    match a {
        ValueModel::Decimal(x) => b matches ValueModel::Decimal(y) && be_signed(x) == be_signed(y),
        ValueModel::Union(x) => b matches ValueModel::Union(y) && same_value(*x, *y),
        ValueModel::Array(x) => b matches ValueModel::Array(y) && x.len() == y.len() && forall|
            i: int,
        | 0 <= i < x.len() ==> same_value(#[trigger] x[i], y[i]),
        ValueModel::Record(x) => b matches ValueModel::Record(y) && x.len() == y.len() && forall|
            i: int,
        | 0 <= i < x.len() ==> (#[trigger] x[i]).0 == y[i].0 && same_value(x[i].1, y[i].1),
        ValueModel::Mapping(x) => b matches ValueModel::Mapping(y) && x.dom() =~= y.dom()
            && forall|key: Seq<char>| #[trigger]
            x.dom().contains(key) ==> same_value(x[key], y[key]),
        _ => a == b,
    }
}

/// Every value is the same value as itself.
pub proof fn lemma_same_value_reflexive(a: ValueModel)
    ensures
        same_value(a, a),
    decreases a,
{
    match a {
        ValueModel::Union(x) => lemma_same_value_reflexive(*x),
        ValueModel::Array(x) => {
            assert forall|i: int| 0 <= i < x.len() implies same_value(#[trigger] x[i], x[i]) by {
                lemma_same_value_reflexive(x[i]);
            }
        },
        ValueModel::Record(x) => {
            assert forall|i: int| 0 <= i < x.len() implies (#[trigger] x[i]).0 == x[i].0
                && same_value(x[i].1, x[i].1) by {
                lemma_same_value_reflexive(x[i].1);
            }
        },
        ValueModel::Mapping(x) => {
            assert forall|key: Seq<char>| #[trigger] x.dom().contains(key) implies same_value(
                x[key],
                x[key],
            ) by {
                lemma_same_value_reflexive(x[key]);
            }
        },
        _ => {},
    }
}

/// If `a` is the same value as `b`, then `b` is the same value as `a`.
pub proof fn lemma_same_value_symmetric(a: ValueModel, b: ValueModel)
    requires
        same_value(a, b),
    ensures
        same_value(b, a),
    decreases a,
{
    match (a, b) {
        (ValueModel::Union(x), ValueModel::Union(y)) => lemma_same_value_symmetric(*x, *y),
        (ValueModel::Array(x), ValueModel::Array(y)) => {
            assert forall|i: int| 0 <= i < y.len() implies same_value(#[trigger] y[i], x[i]) by {
                assert(same_value(x[i], y[i]));
                lemma_same_value_symmetric(x[i], y[i]);
            }
        },
        (ValueModel::Record(x), ValueModel::Record(y)) => {
            assert forall|i: int| 0 <= i < y.len() implies (#[trigger] y[i]).0 == x[i].0
                && same_value(y[i].1, x[i].1) by {
                assert(x[i].0 == y[i].0 && same_value(x[i].1, y[i].1));
                lemma_same_value_symmetric(x[i].1, y[i].1);
            }
        },
        (ValueModel::Mapping(x), ValueModel::Mapping(y)) => {
            assert forall|key: Seq<char>| #[trigger] y.dom().contains(key) implies same_value(
                y[key],
                x[key],
            ) by {
                assert(x.dom().contains(key));
                lemma_same_value_symmetric(x[key], y[key]);
            }
        },
        _ => {},
    }
}

/// If `a` is the same value as `b` and `b` the same as `c`, then `a` is the
/// same value as `c`.
pub proof fn lemma_same_value_transitive(a: ValueModel, b: ValueModel, c: ValueModel)
    requires
        same_value(a, b),
        same_value(b, c),
    ensures
        same_value(a, c),
    decreases a,
{
    match (a, b, c) {
        (ValueModel::Union(x), ValueModel::Union(y), ValueModel::Union(z)) => {
            lemma_same_value_transitive(*x, *y, *z)
        },
        (ValueModel::Array(x), ValueModel::Array(y), ValueModel::Array(z)) => {
            assert forall|i: int| 0 <= i < x.len() implies same_value(#[trigger] x[i], z[i]) by {
                assert(same_value(x[i], y[i]));
                assert(same_value(y[i], z[i]));
                lemma_same_value_transitive(x[i], y[i], z[i]);
            }
        },
        (ValueModel::Record(x), ValueModel::Record(y), ValueModel::Record(z)) => {
            assert forall|i: int| 0 <= i < x.len() implies (#[trigger] x[i]).0 == z[i].0
                && same_value(x[i].1, z[i].1) by {
                assert(x[i].0 == y[i].0 && same_value(x[i].1, y[i].1));
                assert(y[i].0 == z[i].0 && same_value(y[i].1, z[i].1));
                lemma_same_value_transitive(x[i].1, y[i].1, z[i].1);
            }
        },
        (ValueModel::Mapping(x), ValueModel::Mapping(y), ValueModel::Mapping(z)) => {
            assert forall|key: Seq<char>| #[trigger] x.dom().contains(key) implies same_value(
                x[key],
                z[key],
            ) by {
                assert(y.dom().contains(key));
                lemma_same_value_transitive(x[key], y[key], z[key]);
            }
        },
        _ => {},
    }
}

/// Whether two byte strings are the same.
fn bytes_eq(x: &Vec<u8>, y: &Vec<u8>) -> (same: bool)
    ensures
        same == (x@ == y@),
{
    if x.len() != y.len() {
        return false;
    }
    let mut i: usize = 0;
    while i < x.len()
        invariant
            i <= x.len(),
            x.len() == y.len(),
            forall|j: int| 0 <= j < i ==> x[j] == y[j],
        decreases x.len() - i,
    {
        if x[i] != y[i] {
            return false;
        }
        i = i + 1;
    }
    assert(x@ =~= y@);
    true
}

/// Whether `a`, which is a null, a boolean, a number, a time, a duration or a
/// UUID, is the same value as `b`.
fn number_eq(a: &Value, b: &Value) -> (same: bool)
    requires
        a is Null || a is Boolean || a is Int || a is Long || a is Float || a is Double
            || a is Date || a is TimeMillis || a is TimeMicros || a is TimestampMillis
            || a is TimestampMicros || a is Duration || a is Uuid,
    ensures
        same == same_value(a@, b@),
{
    match (a, b) {
        (Value::Null, Value::Null) => true,
        (Value::Boolean(x), Value::Boolean(y)) => *x == *y,
        (Value::Int(x), Value::Int(y)) => *x == *y,
        (Value::Long(x), Value::Long(y)) => *x == *y,
        (Value::Float(x), Value::Float(y)) => *x == *y,
        (Value::Double(x), Value::Double(y)) => *x == *y,
        (Value::Date(x), Value::Date(y)) => *x == *y,
        (Value::TimeMillis(x), Value::TimeMillis(y)) => *x == *y,
        (Value::TimeMicros(x), Value::TimeMicros(y)) => *x == *y,
        (Value::TimestampMillis(x), Value::TimestampMillis(y)) => *x == *y,
        (Value::TimestampMicros(x), Value::TimestampMicros(y)) => *x == *y,
        (Value::Duration(x), Value::Duration(y)) => *x == *y,
        (Value::Uuid(x), Value::Uuid(y)) => *x == *y,
        _ => false,
    }
}

/// Whether `a`, which is bytes, a string, a fixed, an enum or a decimal, is
/// the same value as `b`.
fn content_eq(a: &Value, b: &Value) -> (same: bool)
    requires
        a is Bytes || a is String || a is Fixed || a is Enum || a is Decimal,
    ensures
        same == same_value(a@, b@),
{
    match (a, b) {
        (Value::Bytes(x), Value::Bytes(y)) => bytes_eq(x, y),
        (Value::String(x), Value::String(y)) => *x == *y,
        (Value::Fixed(m, x), Value::Fixed(n, y)) => *m == *n && bytes_eq(x, y),
        (Value::Enum(m, x), Value::Enum(n, y)) => *m == *n && *x == *y,
        (Value::Decimal(x), Value::Decimal(y)) => x.same_number(y),
        _ => false,
    }
}

/// Whether the values of `x` and of `y` are the same, one by one.
fn values_eq(x: &Vec<Value>, y: &Vec<Value>) -> (same: bool)
    ensures
        same == same_value(ValueModel::Array(value_models(*x)), ValueModel::Array(value_models(*y))),
    decreases x, 1nat,
{
    if x.len() != y.len() {
        return false;
    }
    let mut i: usize = 0;
    while i < x.len()
        invariant
            i <= x.len(),
            x.len() == y.len(),
            forall|j: int| 0 <= j < i ==> same_value((#[trigger] x[j])@, y[j]@),
        decreases x.len() - i,
    {
        if !value_eq(&x[i], &y[i]) {
            assert(value_models(*x)[i as int] == x[i as int]@);
            assert(value_models(*y)[i as int] == y[i as int]@);
            return false;
        }
        i = i + 1;
    }
    assert forall|j: int| 0 <= j < x.len() implies same_value(
        #[trigger] value_models(*x)[j],
        value_models(*y)[j],
    ) by {
        assert(same_value(x[j]@, y[j]@));
    }
    true
}

/// Whether the named values of `x` and of `y` are the same, one by one.
fn named_eq(x: &Vec<(String, Value)>, y: &Vec<(String, Value)>) -> (same: bool)
    ensures
        same == same_value(
            ValueModel::Record(named_models(*x)),
            ValueModel::Record(named_models(*y)),
        ),
    decreases x, 1nat,
{
    if x.len() != y.len() {
        return false;
    }
    let mut i: usize = 0;
    while i < x.len()
        invariant
            i <= x.len(),
            x.len() == y.len(),
            forall|j: int|
                0 <= j < i ==> (#[trigger] x[j]).0@ == y[j].0@ && same_value(x[j].1@, y[j].1@),
        decreases x.len() - i,
    {
        let names = x[i].0 == y[i].0;
        if !names || !value_eq(&x[i].1, &y[i].1) {
            assert(named_models(*x)[i as int] == (x[i as int].0@, x[i as int].1@));
            assert(named_models(*y)[i as int] == (y[i as int].0@, y[i as int].1@));
            return false;
        }
        i = i + 1;
    }
    assert forall|j: int| 0 <= j < x.len() implies (#[trigger] named_models(*x)[j]).0
        == named_models(*y)[j].0 && same_value(named_models(*x)[j].1, named_models(*y)[j].1) by {
        assert(x[j].0@ == y[j].0@ && same_value(x[j].1@, y[j].1@));
    }
    true
}

/// Whether `a` and `b` are the same value.
pub fn value_eq(a: &Value, b: &Value) -> (same: bool)
    ensures
        same == same_value(a@, b@),
    decreases a, 0nat,
{
    match a {
        Value::Union(x) => match b {
            Value::Union(y) => value_eq(x, y),
            _ => false,
        },
        Value::Array(x) => match b {
            Value::Array(y) => values_eq(x, y),
            _ => false,
        },
        Value::Record(x) => match b {
            Value::Record(y) => named_eq(x, y),
            _ => false,
        },
        Value::Mapping(x) => match b {
            Value::Mapping(y) => maps_eq(x, y),
            _ => false,
        },
        Value::Bytes(_) | Value::String(_) | Value::Fixed(_, _) | Value::Enum(_, _)
        | Value::Decimal(_) => content_eq(a, b),
        _ => number_eq(a, b),
    }
}

/// Whether `x` and `y` have the same keys with the same values.
pub fn maps_eq(x: &ValueMap, y: &ValueMap) -> (same: bool)
    ensures
        same == same_value(ValueModel::Mapping(x@), ValueModel::Mapping(y@)),
    decreases x, 1nat,
{
    let ours = x.own_entries();
    let theirs = y.own_entries();
    let ghost pairs = named_models(*ours);
    proof {
        lemma_distinct_keys_count(pairs);
        lemma_distinct_keys_count(named_models(*theirs));
    }
    if ours.len() != theirs.len() {
        return false;
    }
    let mut i: usize = 0;
    while i < ours.len()
        invariant
            i <= ours.len(),
            *ours == x.entries,
            pairs == named_models(*ours),
            keys_distinct(pairs),
            entries_to_map(pairs) == x@,
            forall|j: int|
                0 <= j < i ==> y@.contains_key((#[trigger] pairs[j]).0) && same_value(
                    pairs[j].1,
                    y@[pairs[j].0],
                ),
        decreases ours.len() - i,
    {
        proof {
            lemma_distinct_keys_lookup(pairs);
            assert(x@.contains_key(pairs[i as int].0));
            assert(x@[pairs[i as int].0] == pairs[i as int].1);
        }
        match y.get(&ours[i].0) {
            Some(value) => {
                if !value_eq(&ours[i].1, value) {
                    return false;
                }
            },
            None => {
                return false;
            },
        }
        i = i + 1;
    }
    proof {
        lemma_distinct_keys_lookup(pairs);
        assert forall|key: Seq<char>| x@.dom().contains(key) implies y@.dom().contains(key)
            && same_value(x@[key], y@[key]) by {
            let j = choose|j: int| 0 <= j < pairs.len() && pairs[j].0 == key;
            assert(y@.contains_key(pairs[j].0) && same_value(pairs[j].1, y@[pairs[j].0]));
        }
        assert(x@.dom().subset_of(y@.dom()));
        lemma_subset_equality(x@.dom(), y@.dom());
    }
    true
}

impl PartialEq for Value {
    /// Whether the two are the same value.
    fn eq(&self, other: &Value) -> (same: bool) {
        value_eq(self, other)
    }
}

impl PartialEqSpecImpl for Value {
    open spec fn obeys_eq_spec() -> bool {
        true
    }

    open spec fn eq_spec(&self, other: &Value) -> bool {
        same_value(self@, other@)
    }
}

impl PartialEq for ValueMap {
    /// Whether the two have the same keys with the same values.
    fn eq(&self, other: &ValueMap) -> (same: bool) {
        maps_eq(self, other)
    }
}

impl PartialEqSpecImpl for ValueMap {
    open spec fn obeys_eq_spec() -> bool {
        true
    }

    open spec fn eq_spec(&self, other: &ValueMap) -> bool {
        same_value(ValueModel::Mapping(self@), ValueModel::Mapping(other@))
    }
}

} // verus!
