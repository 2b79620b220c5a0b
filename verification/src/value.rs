//! Values: what decoding produces.
use vstd::prelude::*;
use crate::decimal::Decimal;
use crate::duration::Duration;

pub mod equality;

verus! {

/// A datum of any shape.
///
/// Two values are equal under `==` when [`equality::same_value`] holds of
/// them.
#[derive(Debug)]
pub enum Value {
    Null,
    Boolean(bool),
    Int(i32),
    Long(i64),
    /// A single-precision number, as its IEEE-754 bit pattern.
    Float(u32),
    /// A double-precision number, as its IEEE-754 bit pattern.
    Double(u64),
    Bytes(Vec<u8>),
    String(String),
    /// The declared size and the bytes.
    Fixed(usize, Vec<u8>),
    /// The index of the symbol and the symbol itself.
    Enum(i32, String),
    /// The value of the branch that was taken.
    Union(Box<Value>),
    Array(Vec<Value>),
    Mapping(ValueMap),
    /// The fields in the order of the schema, each with its name.
    Record(Vec<(String, Value)>),
    Date(i32),
    Decimal(Decimal),
    TimeMillis(i32),
    TimeMicros(i64),
    TimestampMillis(i64),
    TimestampMicros(i64),
    Duration(Duration),
    /// A UUID, as its 128-bit number.
    Uuid(u128),
}

/// A mapping from strings to values. No key occurs twice: inserting under a
/// key that is present replaces what was there. Two mappings are equal under
/// `==` when they have the same keys with the same values, in whatever order
/// the keys were inserted.
///
/// The entries are kept in a vector, in the order in which their keys were
/// first inserted, and a key is found by going through them one by one.
#[derive(Debug)]
pub struct ValueMap {
    pub(crate) entries: Vec<(String, Value)>,
}

/// The mathematical form of a [`Value`].
pub enum ValueModel {
    Null,
    Boolean(bool),
    Int(i32),
    Long(i64),
    Float(u32),
    Double(u64),
    Bytes(Seq<u8>),
    String(Seq<char>),
    Fixed(nat, Seq<u8>),
    Enum(i32, Seq<char>),
    Union(Box<ValueModel>),
    Array(Seq<ValueModel>),
    Mapping(Map<Seq<char>, ValueModel>),
    Record(Seq<(Seq<char>, ValueModel)>),
    Date(i32),
    Decimal(Seq<u8>),
    TimeMillis(i32),
    TimeMicros(i64),
    TimestampMillis(i64),
    TimestampMicros(i64),
    Duration(Duration),
    Uuid(u128),
}

/// The mapping that inserting `entries` one after another builds: of two
/// entries with one key, the later one stays.
pub open spec fn entries_to_map(entries: Seq<(Seq<char>, ValueModel)>) -> Map<
    Seq<char>,
    ValueModel,
>
    decreases entries.len(),
{
    if entries.len() == 0 {
        Map::empty()
    } else {
        entries_to_map(entries.drop_last()).insert(entries.last().0, entries.last().1)
    }
}

/// The model of each value of `values`, in order.
pub open spec fn value_models(values: Vec<Value>) -> Seq<ValueModel>
    decreases values, 1nat,
{
    Seq::new(
        values.len() as nat,
        |i: int|
            if 0 <= i < values.len() {
                value_model(values[i])
            } else {
                ValueModel::Null
            },
    )
}

/// The model of each named value of `named`, in order.
pub open spec fn named_models(named: Vec<(String, Value)>) -> Seq<(Seq<char>, ValueModel)>
    decreases named, 1nat,
{
    Seq::new(
        named.len() as nat,
        |i: int|
            if 0 <= i < named.len() {
                (named[i].0@, value_model(named[i].1))
            } else {
                (Seq::empty(), ValueModel::Null)
            },
    )
}

/// The model of `value`.
pub open spec fn value_model(value: Value) -> ValueModel
    decreases value, 0nat,
{
    match value {
        Value::Null => ValueModel::Null,
        Value::Boolean(b) => ValueModel::Boolean(b),
        Value::Int(n) => ValueModel::Int(n),
        Value::Long(n) => ValueModel::Long(n),
        Value::Float(bits) => ValueModel::Float(bits),
        Value::Double(bits) => ValueModel::Double(bits),
        Value::Bytes(bytes) => ValueModel::Bytes(bytes@),
        Value::String(text) => ValueModel::String(text@),
        Value::Fixed(size, bytes) => ValueModel::Fixed(size as nat, bytes@),
        Value::Enum(index, symbol) => ValueModel::Enum(index, symbol@),
        Value::Union(inner) => ValueModel::Union(Box::new(value_model(*inner))),
        Value::Array(items) => ValueModel::Array(value_models(items)),
        Value::Mapping(map) => ValueModel::Mapping(map.model()),
        Value::Record(fields) => ValueModel::Record(named_models(fields)),
        Value::Date(n) => ValueModel::Date(n),
        Value::Decimal(decimal) => ValueModel::Decimal(decimal@),
        Value::TimeMillis(n) => ValueModel::TimeMillis(n),
        Value::TimeMicros(n) => ValueModel::TimeMicros(n),
        Value::TimestampMillis(n) => ValueModel::TimestampMillis(n),
        Value::TimestampMicros(n) => ValueModel::TimestampMicros(n),
        Value::Duration(duration) => ValueModel::Duration(duration),
        Value::Uuid(number) => ValueModel::Uuid(number),
    }
}

impl View for Value {
    type V = ValueModel;

    open spec fn view(&self) -> ValueModel {
        value_model(*self)
    }
}

impl View for ValueMap {
    type V = Map<Seq<char>, ValueModel>;

    open spec fn view(&self) -> Map<Seq<char>, ValueModel> {
        self.model()
    }
}

impl ValueMap {
    #[verifier::type_invariant]
    spec fn keys_distinct(self) -> bool {
        forall|i: int, j: int|
            0 <= i < j < self.entries.len() ==> self.entries[i].0@ != self.entries[j].0@
    }

    /// The mapping that the entries stand for.
    pub closed spec fn model(self) -> Map<Seq<char>, ValueModel>
        decreases self, 2nat,
    {
        entries_to_map(named_models(self.entries))
    }

    /// The empty mapping.
    pub fn new() -> (map: ValueMap)
        ensures
            map@ == Map::<Seq<char>, ValueModel>::empty(),
    {
        ValueMap { entries: Vec::new() }
    }

    /// Makes room for `additional` more entries where memory allows, so that
    /// inserting them need not move the entries again. The mapping stays as
    /// it is.
    pub fn reserve(&mut self, additional: usize)
        ensures
            final(self)@ == old(self)@,
    {
        proof {
            use_type_invariant(&*self);
        }
        let mut entries: Vec<(String, Value)> = Vec::new();
        core::mem::swap(&mut self.entries, &mut entries);
        let _ = entries.try_reserve(additional);
        core::mem::swap(&mut self.entries, &mut entries);
    }

    /// Where `key` stands among the entries, if it is present.
    fn position(&self, key: &String) -> (at: Option<usize>)
        ensures
            match at {
                Some(i) => i < self.entries.len() && self.entries[i as int].0@ == key@,
                None => forall|j: int| 0 <= j < self.entries.len() ==> self.entries[j].0@ != key@,
            },
    {
        let mut i: usize = 0;
        while i < self.entries.len()
            invariant
                i <= self.entries.len(),
                forall|j: int| 0 <= j < i ==> self.entries[j].0@ != key@,
            decreases self.entries.len() - i,
        {
            if self.entries[i].0 == *key {
                return Some(i);
            }
            i = i + 1;
        }
        None
    }

    /// Puts `value` under `key`, in place of what was there if the key was
    /// present.
    pub fn insert(&mut self, key: String, value: Value)
        ensures
            final(self)@ == old(self)@.insert(key@, value@),
    {
        proof {
            use_type_invariant(&*self);
        }
        let ghost before = named_models(self.entries);
        let at = self.position(&key);
        let mut entries: Vec<(String, Value)> = Vec::new();
        core::mem::swap(&mut self.entries, &mut entries);
        match at {
            Some(i) => {
                proof {
                    lemma_replace_entry(before, i as int, value@);
                }
                entries.set(i, (key, value));
                assert(named_models(entries) =~= before.update(
                    i as int,
                    (before[i as int].0, value@),
                ));
            },
            None => {
                entries.push((key, value));
                assert(named_models(entries).drop_last() =~= before);
            },
        }
        core::mem::swap(&mut self.entries, &mut entries);
    }

    /// The entries, each key once, in the order in which the keys were first
    /// inserted.
    pub fn entries(&self) -> (entries: &Vec<(String, Value)>)
        ensures
            keys_distinct(named_models(*entries)),
            entries_to_map(named_models(*entries)) == self@,
    {
        proof {
            use_type_invariant(self);
        }
        &self.entries
    }

    /// The entries, as the part of the mapping that they are.
    pub(crate) fn own_entries(&self) -> (entries: &Vec<(String, Value)>)
        ensures
            *entries == self.entries,
            keys_distinct(named_models(*entries)),
            entries_to_map(named_models(*entries)) == self@,
    {
        proof {
            use_type_invariant(self);
        }
        &self.entries
    }

    /// Gives up the mapping for its entries, each key once, in the order in
    /// which the keys were first inserted.
    pub fn into_entries(self) -> (entries: Vec<(String, Value)>)
        ensures
            keys_distinct(named_models(entries)),
            entries_to_map(named_models(entries)) == self@,
    {
        proof {
            use_type_invariant(&self);
        }
        self.entries
    }

    /// How many keys the mapping has.
    pub fn len(&self) -> (n: usize)
        ensures
            n == self@.dom().len(),
            self@.dom().finite(),
    {
        proof {
            use_type_invariant(self);
            lemma_distinct_keys_count(named_models(self.entries));
        }
        self.entries.len()
    }

    /// The value under `key`, if the key is present.
    pub fn get(&self, key: &String) -> (found: Option<&Value>)
        ensures
            match found {
                Some(value) => self@.contains_key(key@) && self@[key@] == value@,
                None => !self@.contains_key(key@),
            },
    {
        proof {
            use_type_invariant(self);
            lemma_distinct_keys_lookup(named_models(self.entries));
        }
        match self.position(key) {
            Some(i) => {
                assert(named_models(self.entries)[i as int].0 == key@);
                Some(&self.entries[i].1)
            },
            None => None,
        }
    }
}

/// Pushing a value onto a vector pushes its model onto the vector's models.
pub proof fn lemma_value_models_push(earlier: Vec<Value>, later: Vec<Value>, value: Value)
    requires
        later@ == earlier@.push(value),
    ensures
        value_models(later) == value_models(earlier).push(value@),
{
    assert forall|k: int| 0 <= k < later.len() implies value_models(later)[k] == value_models(
        earlier,
    ).push(value@)[k] by {
        if k < earlier.len() {
            assert(later[k] == earlier[k]);
        } else {
            assert(later[k] == value);
        }
    }
    assert(value_models(later) =~= value_models(earlier).push(value@));
}

/// Pushing a named value onto a vector pushes its model onto the vector's
/// models.
pub proof fn lemma_named_models_push(
    earlier: Vec<(String, Value)>,
    later: Vec<(String, Value)>,
    name: String,
    value: Value,
)
    requires
        later@ == earlier@.push((name, value)),
    ensures
        named_models(later) == named_models(earlier).push((name@, value@)),
{
    assert forall|k: int| 0 <= k < later.len() implies named_models(later)[k] == named_models(
        earlier,
    ).push((name@, value@))[k] by {
        if k < earlier.len() {
            assert(later[k] == earlier[k]);
        } else {
            assert(later[k] == (name, value));
        }
    }
    assert(named_models(later) =~= named_models(earlier).push((name@, value@)));
}

/// Whether no key occurs twice in `entries`.
pub open spec fn keys_distinct(entries: Seq<(Seq<char>, ValueModel)>) -> bool {
    forall|i: int, j: int| 0 <= i < j < entries.len() ==> entries[i].0 != entries[j].0
}

/// Among entries with distinct keys, the mapping holds exactly the entries.
pub proof fn lemma_distinct_keys_lookup(entries: Seq<(Seq<char>, ValueModel)>)
    requires
        keys_distinct(entries),
    ensures
        forall|i: int|
            0 <= i < entries.len() ==> entries_to_map(entries).contains_key(
                #[trigger] entries[i].0,
            ) && entries_to_map(entries)[entries[i].0] == entries[i].1,
        forall|key: Seq<char>| #[trigger]
            entries_to_map(entries).contains_key(key) ==> exists|i: int|
                0 <= i < entries.len() && entries[i].0 == key,
    decreases entries.len(),
{
    if entries.len() > 0 {
        let front = entries.drop_last();
        lemma_distinct_keys_lookup(front);
        assert forall|i: int| 0 <= i < entries.len() implies entries_to_map(entries).contains_key(
            #[trigger] entries[i].0,
        ) && entries_to_map(entries)[entries[i].0] == entries[i].1 by {
            if i < entries.len() - 1 {
                assert(front[i] == entries[i]);
            }
        }
        assert forall|key: Seq<char>| #[trigger]
            entries_to_map(entries).contains_key(key) implies exists|i: int|
            0 <= i < entries.len() && entries[i].0 == key by {
            if key != entries.last().0 {
                assert(entries_to_map(front).contains_key(key));
                let i = choose|i: int| 0 <= i < front.len() && front[i].0 == key;
                assert(entries[i].0 == key);
            } else {
                assert(entries[entries.len() - 1].0 == key);
            }
        }
    }
}

/// Among entries with distinct keys, there are as many keys as entries.
pub proof fn lemma_distinct_keys_count(entries: Seq<(Seq<char>, ValueModel)>)
    requires
        keys_distinct(entries),
    ensures
        entries_to_map(entries).dom().finite(),
        entries_to_map(entries).dom().len() == entries.len(),
    decreases entries.len(),
{
    if entries.len() > 0 {
        let front = entries.drop_last();
        lemma_distinct_keys_count(front);
        lemma_distinct_keys_lookup(front);
        if entries_to_map(front).contains_key(entries.last().0) {
            let i = choose|i: int| 0 <= i < front.len() && front[i].0 == entries.last().0;
            assert(entries[i].0 == entries[entries.len() - 1].0);
        }
        assert(entries_to_map(entries).dom() =~= entries_to_map(front).dom().insert(
            entries.last().0,
        ));
    }
}

/// Giving a key that is present a new value is the same as inserting under it.
proof fn lemma_replace_entry(entries: Seq<(Seq<char>, ValueModel)>, i: int, value: ValueModel)
    requires
        0 <= i < entries.len(),
        keys_distinct(entries),
    ensures
        entries_to_map(entries.update(i, (entries[i].0, value))) == entries_to_map(entries).insert(
            entries[i].0,
            value,
        ),
    decreases entries.len(),
{
    let key = entries[i].0;
    let updated = entries.update(i, (key, value));
    let front = entries.drop_last();
    if i == entries.len() - 1 {
        assert(updated.drop_last() =~= front);
        assert(entries_to_map(updated) =~= entries_to_map(entries).insert(key, value));
    } else {
        lemma_replace_entry(front, i, value);
        assert(updated.drop_last() =~= front.update(i, (key, value)));
        assert(front[i] == entries[i]);
        assert(entries.last().0 != key);
        assert(entries_to_map(updated) =~= entries_to_map(entries).insert(key, value));
    }
}

} // verus!
