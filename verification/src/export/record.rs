//! OTLP log records, and maps of their attributes.

use vstd::prelude::*;

use crate::text;

verus! {

/// The value of an attribute, or none.
pub struct AttributeValue {
    pub value: Option<Value>,
}

/// The value of an attribute.
pub enum Value {
    StringValue(String),
    BoolValue(bool),
    IntValue(i64),
    /// A value of another kind: the protobuf encoding of the OTLP value that holds it.
    EncodedValue(Vec<u8>),
}

/// An attribute.
pub struct KeyValue {
    pub key: String,
    pub value: Option<AttributeValue>,
}

/// A log record, as it is exported.
pub struct LogRecord {
    pub time_unix_nano: u64,
    pub observed_time_unix_nano: u64,
    pub severity_number: i32,
    pub severity_text: String,
    pub body: Option<AttributeValue>,
    pub attributes: Vec<KeyValue>,
    pub dropped_attributes_count: u32,
    pub flags: u32,
    pub trace_id: Vec<u8>,
    pub span_id: Vec<u8>,
    pub event_name: String,
}

/// What an attribute holds.
pub enum Attribute {
    Text(Seq<char>),
    Integer(i64),
    Flag(bool),
    /// Any other value, as it was supplied.
    Supplied(AttributeValue),
}

impl View for AttributeValue {
    type V = Attribute;

    open spec fn view(&self) -> Attribute {
        match self.value {
            Some(Value::StringValue(s)) => Attribute::Text(s@),
            Some(Value::IntValue(n)) => Attribute::Integer(n),
            Some(Value::BoolValue(b)) => Attribute::Flag(b),
            _ => Attribute::Supplied(*self),
        }
    }
}

/// A string as a value.
pub fn string_value(value: &str) -> (any: AttributeValue)
    ensures
        any@ == Attribute::Text(value@),
{
    AttributeValue { value: Some(Value::StringValue(value.to_owned())) }
}

/// An integer as a value.
pub fn int_value(value: i64) -> (any: AttributeValue)
    ensures
        any@ == Attribute::Integer(value),
{
    AttributeValue { value: Some(Value::IntValue(value)) }
}

/// A boolean as a value.
pub fn bool_value(value: bool) -> (any: AttributeValue)
    ensures
        any@ == Attribute::Flag(value),
{
    AttributeValue { value: Some(Value::BoolValue(value)) }
}

/// Whether attributes all have a value, and come in the order of their keys, each key once.
pub open spec fn in_key_order(attributes: Seq<KeyValue>) -> bool {
    &&& forall|i: int| 0 <= i < attributes.len() ==> (#[trigger] attributes[i]).value is Some
    &&& forall|i: int, j: int|
        0 <= i < j < attributes.len() ==> text::precedes(
            (#[trigger] attributes[i]).key@,
            (#[trigger] attributes[j]).key@,
        )
}

/// Whether an attribute has a key.
pub open spec fn has_attribute(attributes: Seq<KeyValue>, key: Seq<char>) -> bool {
    exists|i: int| 0 <= i < attributes.len() && (#[trigger] attributes[i]).key@ == key
}

/// Where the attribute with a key is.
pub open spec fn attribute_index(attributes: Seq<KeyValue>, key: Seq<char>) -> int {
    choose|i: int| 0 <= i < attributes.len() && (#[trigger] attributes[i]).key@ == key
}

/// Attributes as a map from keys to what they hold.
pub open spec fn attribute_map(attributes: Seq<KeyValue>) -> Map<Seq<char>, Attribute> {
    Map::new(
        |key: Seq<char>| has_attribute(attributes, key),
        |key: Seq<char>| attributes[attribute_index(attributes, key)].value->0@,
    )
}

/// Attributes in the order of their keys, each key once.
pub struct AttributeMap {
    entries: Vec<KeyValue>,
}

proof fn lemma_index_is_unique(attributes: Seq<KeyValue>, i: int)
    requires
        in_key_order(attributes),
        0 <= i < attributes.len(),
    ensures
        has_attribute(attributes, attributes[i].key@),
        attribute_index(attributes, attributes[i].key@) == i,
{
    let key = attributes[i].key@;
    assert(has_attribute(attributes, key));
    let j = attribute_index(attributes, key);
    text::lemma_precedes_is_strict(key, key);
    if i < j {
        assert(text::precedes(attributes[i].key@, attributes[j].key@));
    } else if j < i {
        assert(text::precedes(attributes[j].key@, attributes[i].key@));
    }
}

impl AttributeMap {
    /// The keys come in order, each once.
    pub closed spec fn wf(&self) -> bool {
        in_key_order(self.entries@)
    }

    /// What the attributes hold.
    pub closed spec fn map(&self) -> Map<Seq<char>, Attribute> {
        attribute_map(self.entries@)
    }

    /// No attributes.
    pub fn new() -> (attributes: AttributeMap)
        ensures
            attributes.wf(),
            attributes.map() == Map::<Seq<char>, Attribute>::empty(),
    {
        let attributes = AttributeMap { entries: Vec::new() };
        assert(attributes.map() =~= Map::<Seq<char>, Attribute>::empty());
        attributes
    }

    /// Sets what an attribute holds.
    pub fn insert(&mut self, key: String, value: AttributeValue)
        requires
            old(self).wf(),
        ensures
            final(self).wf(),
            final(self).map() == old(self).map().insert(key@, value@),
    {
        let ghost before = self.entries@;
        let mut i: usize = 0;
        while i < self.entries.len()
            invariant
                i <= self.entries@.len(),
                self.entries@ == before,
                before == old(self).entries@,
                in_key_order(before),
                forall|j: int|
                    0 <= j < i ==> text::precedes((#[trigger] before[j]).key@, key@),
            decreases self.entries@.len() - i,
        {
            match text::order_of(self.entries[i].key.as_str(), key.as_str()) {
                text::TextOrder::Before => {},
                text::TextOrder::Same => {
                    self.entries.set(i, KeyValue { key, value: Some(value) });
                    proof {
                        lemma_replace(before, self.entries@, i as int);
                    }
                    return ;
                },
                text::TextOrder::After => {
                    self.entries.insert(i, KeyValue { key, value: Some(value) });
                    proof {
                        lemma_insert(before, self.entries@, i as int);
                    }
                    return ;
                },
            }
            i = i + 1;
        }
        self.entries.push(KeyValue { key, value: Some(value) });
        proof {
            assert(self.entries@ =~= before.insert(i as int, self.entries@[i as int]));
            lemma_insert(before, self.entries@, i as int);
        }
    }

    /// Sets the attributes of another map.
    pub fn append(&mut self, other: AttributeMap)
        requires
            old(self).wf(),
            other.wf(),
        ensures
            final(self).wf(),
            final(self).map() == old(self).map().union_prefer_right(other.map()),
    {
        let ghost base = self.map();
        let ghost all = other.entries@;
        let mut entries = other.entries;
        proof {
            assert(all.skip(all.len() as int) =~= Seq::<KeyValue>::empty());
            assert(attribute_map(all.skip(all.len() as int)) =~= Map::empty());
            assert(self.map() =~= base.union_prefer_right(Map::empty()));
        }
        while entries.len() > 0
            invariant
                self.wf(),
                in_key_order(all),
                entries@.len() <= all.len(),
                entries@ == all.take(entries@.len() as int),
                self.map() == base.union_prefer_right(attribute_map(all.skip(entries@.len() as int))),
            decreases entries@.len(),
        {
            let ghost n = entries@.len() as int;
            let last = entries.pop();
            match last {
                Some(entry) => {
                    assert(entry == all[n - 1]);
                    let KeyValue { key, value } = entry;
                    match value {
                        Some(value) => {
                            self.insert(key, value);
                            proof {
                                lemma_map_grows(all, n - 1);
                                assert(all.take(n).drop_last() =~= all.take(n - 1));
                                assert(self.map() =~= base.union_prefer_right(
                                    attribute_map(all.skip(n - 1)),
                                ));
                            }
                        },
                        None => {
                            assert(false);
                        },
                    }
                },
                None => {
                    assert(false);
                },
            }
        }
        assert(all.skip(0) =~= all);
    }

    /// The attributes, in the order of their keys.
    pub fn into_attributes(self) -> (attributes: Vec<KeyValue>)
        requires
            self.wf(),
        ensures
            in_key_order(attributes@),
            attribute_map(attributes@) == self.map(),
    {
        self.entries
    }
}

proof fn lemma_map_grows(all: Seq<KeyValue>, i: int)
    requires
        in_key_order(all),
        0 <= i < all.len(),
    ensures
        attribute_map(all.skip(i)) == attribute_map(all.skip(i + 1)).insert(
            all[i].key@,
            all[i].value->0@,
        ),
{
    let big = all.skip(i);
    let small = all.skip(i + 1);
    assert(in_key_order(big)) by {
        assert forall|j: int, k: int| 0 <= j < k < big.len() implies text::precedes(
            (#[trigger] big[j]).key@,
            (#[trigger] big[k]).key@,
        ) by {
            assert(big[j] == all[i + j] && big[k] == all[i + k]);
        }
        assert forall|j: int| 0 <= j < big.len() implies (#[trigger] big[j]).value is Some by {
            assert(big[j] == all[i + j]);
        }
    }
    assert(in_key_order(small)) by {
        assert forall|j: int, k: int| 0 <= j < k < small.len() implies text::precedes(
            (#[trigger] small[j]).key@,
            (#[trigger] small[k]).key@,
        ) by {
            assert(small[j] == all[i + 1 + j] && small[k] == all[i + 1 + k]);
        }
        assert forall|j: int| 0 <= j < small.len() implies (#[trigger] small[j]).value is Some by {
            assert(small[j] == all[i + 1 + j]);
        }
    }
    assert(big[0] == all[i]);
    lemma_index_is_unique(big, 0);
    assert forall|key: Seq<char>|
        #![trigger has_attribute(big, key)]
        has_attribute(big, key) <==> key == all[i].key@ || has_attribute(small, key) by {
        if has_attribute(big, key) {
            let j = attribute_index(big, key);
            if j > 0 {
                assert(small[j - 1] == big[j]);
            }
        }
        if has_attribute(small, key) {
            let j = attribute_index(small, key);
            assert(big[j + 1] == small[j]);
        }
    }
    assert forall|key: Seq<char>| has_attribute(small, key) && key != all[i].key@ implies big[
        #[trigger] attribute_index(big, key)] == small[attribute_index(small, key)] by {
        let j = attribute_index(small, key);
        assert(big[j + 1] == small[j]);
        lemma_index_is_unique(big, j + 1);
    }
    assert(attribute_map(big) =~= attribute_map(small).insert(all[i].key@, all[i].value->0@));
}

proof fn lemma_replace(before: Seq<KeyValue>, after: Seq<KeyValue>, i: int)
    requires
        in_key_order(before),
        0 <= i < before.len(),
        after == before.update(i, after[i]),
        after[i].key@ == before[i].key@,
        after[i].value is Some,
    ensures
        in_key_order(after),
        attribute_map(after) == attribute_map(before).insert(after[i].key@, after[i].value->0@),
{
    assert forall|j: int, k: int| 0 <= j < k < after.len() implies text::precedes(
        (#[trigger] after[j]).key@,
        (#[trigger] after[k]).key@,
    ) by {
        assert(text::precedes(before[j].key@, before[k].key@));
    }
    assert forall|j: int| 0 <= j < after.len() implies (#[trigger] after[j]).value is Some by {
        assert(before[j].value is Some);
    }
    assert forall|key: Seq<char>|
        #![trigger has_attribute(after, key)]
        has_attribute(after, key) <==> has_attribute(before, key) by {
        if has_attribute(after, key) {
            let j = attribute_index(after, key);
            assert(before[j].key@ == key);
        }
        if has_attribute(before, key) {
            let j = attribute_index(before, key);
            assert(after[j].key@ == key);
        }
    }
    lemma_index_is_unique(after, i);
    assert(has_attribute(before, after[i].key@));
    assert forall|key: Seq<char>| has_attribute(before, key) && key != after[i].key@ implies after[
        #[trigger] attribute_index(after, key)] == before[attribute_index(before, key)] by {
        let j = attribute_index(before, key);
        assert(after[j] == before[j]);
        lemma_index_is_unique(after, j);
    }
    assert(attribute_map(after) =~= attribute_map(before).insert(
        after[i].key@,
        after[i].value->0@,
    ));
}

proof fn lemma_insert(before: Seq<KeyValue>, after: Seq<KeyValue>, i: int)
    requires
        in_key_order(before),
        0 <= i <= before.len(),
        after == before.insert(i, after[i]),
        after[i].value is Some,
        forall|j: int|
            0 <= j < i ==> text::precedes((#[trigger] before[j]).key@, after[i].key@),
        i < before.len() ==> text::precedes(after[i].key@, before[i].key@),
    ensures
        in_key_order(after),
        attribute_map(after) == attribute_map(before).insert(after[i].key@, after[i].value->0@),
{
    let new = after[i];
    assert forall|j: int| i <= j < before.len() implies text::precedes(
        new.key@,
        (#[trigger] before[j]).key@,
    ) by {
        if j > i {
            text::lemma_precedes_is_transitive(new.key@, before[i].key@, before[j].key@);
        }
    }
    assert forall|j: int, k: int| 0 <= j < k < after.len() implies text::precedes(
        (#[trigger] after[j]).key@,
        (#[trigger] after[k]).key@,
    ) by {
        let x = if j < i {
            j
        } else {
            j - 1
        };
        let y = if k < i {
            k
        } else {
            k - 1
        };
        if j != i {
            assert(after[j] == before[x]);
        }
        if k != i {
            assert(after[k] == before[y]);
        }
        if j != i && k != i {
            assert(text::precedes(before[x].key@, before[y].key@));
        }
    }
    assert forall|j: int| 0 <= j < after.len() implies (#[trigger] after[j]).value is Some by {
        if j < i {
            assert(after[j] == before[j]);
        } else if j > i {
            assert(after[j] == before[j - 1]);
        }
    }
    assert forall|key: Seq<char>|
        #![trigger has_attribute(after, key)]
        has_attribute(after, key) <==> key == new.key@ || has_attribute(before, key) by {
        if has_attribute(after, key) {
            let j = attribute_index(after, key);
            if j < i {
                assert(after[j] == before[j]);
            } else if j > i {
                assert(after[j] == before[j - 1]);
            }
        }
        if has_attribute(before, key) {
            let j = attribute_index(before, key);
            if j < i {
                assert(after[j] == before[j]);
            } else {
                assert(after[j + 1] == before[j]);
            }
        }
    }
    lemma_index_is_unique(after, i);
    assert forall|key: Seq<char>| has_attribute(before, key) && key != new.key@ implies after[
        #[trigger] attribute_index(after, key)] == before[attribute_index(before, key)] by {
        let j = attribute_index(before, key);
        if j < i {
            assert(after[j] == before[j]);
            lemma_index_is_unique(after, j);
        } else {
            assert(after[j + 1] == before[j]);
            lemma_index_is_unique(after, j + 1);
        }
    }
    assert(attribute_map(after) =~= attribute_map(before).insert(new.key@, new.value->0@));
}

}
