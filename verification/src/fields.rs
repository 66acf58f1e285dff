//! Fields of a log line, and the request fields that an application defines for itself.
//!
//! An application implements `RequestFields` on a type of its own (tenant, user, endpoint). The
//! logger hands it a `FieldWriter` when a line is formatted. `()` is the type without fields.

use vstd::prelude::*;

use crate::json;
use crate::text;

verus! {

/// The value of a field, as a writer receives it.
pub enum FieldValue {
    Text(Seq<char>),
    Unsigned(u64),
    Signed(i64),
    Flag(bool),
}

/// A field, as a writer receives it: its key and its value.
pub type Field = (Seq<char>, FieldValue);

/// The text of a field's value.
pub open spec fn value_text(value: FieldValue) -> Seq<char> {
    match value {
        FieldValue::Text(t) => t,
        FieldValue::Unsigned(n) => text::decimal(n as int),
        FieldValue::Signed(n) => text::decimal(n as int),
        FieldValue::Flag(b) => if b {
            "true"@
        } else {
            "false"@
        },
    }
}

/// The text ` key=value` of a field.
pub open spec fn pair_text(key: Seq<char>, value: Seq<char>) -> Seq<char> {
    seq![' '] + key + seq!['='] + value
}

/// The display text of fields: ` key=value`, one behind the other.
pub open spec fn display_text(fields: Seq<Field>) -> Seq<char>
    decreases fields.len(),
{
    if fields.len() == 0 {
        Seq::empty()
    } else {
        display_text(fields.drop_last()) + pair_text(
            fields.last().0,
            value_text(fields.last().1),
        )
    }
}

/// A field as a member of a JSON object: numbers and booleans keep their JSON type.
pub open spec fn json_member(field: Field) -> json::JsonMember {
    (
        field.0,
        match field.1 {
            FieldValue::Text(t) => json::JsonValue::Text(t),
            FieldValue::Unsigned(n) => json::JsonValue::Integer(n as int),
            FieldValue::Signed(n) => json::JsonValue::Integer(n as int),
            FieldValue::Flag(b) => json::JsonValue::Flag(b),
        },
    )
}

/// Fields as members of a JSON object.
pub open spec fn json_members(fields: Seq<Field>) -> Seq<json::JsonMember> {
    fields.map_values(|field: Field| json_member(field))
}

/// Receives the fields of a log line, one by one.
pub trait FieldWriter: Sized {
    /// Whether the writer is in a state in which it can receive fields.
    spec fn wf(&self) -> bool;

    /// The fields received so far.
    spec fn fields(&self) -> Seq<Field>;

    /// Receives a string-valued field.
    fn write_str(&mut self, key: &str, value: &str)
        requires
            old(self).wf(),
        ensures
            final(self).wf(),
            final(self).fields() == old(self).fields().push((key@, FieldValue::Text(value@))),
    ;

    /// Receives an unsigned integer field.
    fn write_u64(&mut self, key: &str, value: u64)
        requires
            old(self).wf(),
        ensures
            final(self).wf(),
            final(self).fields() == old(self).fields().push((key@, FieldValue::Unsigned(value))),
    ;

    /// Receives a signed integer field.
    fn write_i64(&mut self, key: &str, value: i64)
        requires
            old(self).wf(),
        ensures
            final(self).wf(),
            final(self).fields() == old(self).fields().push((key@, FieldValue::Signed(value))),
    ;

    /// Receives a boolean field.
    fn write_bool(&mut self, key: &str, value: bool)
        requires
            old(self).wf(),
        ensures
            final(self).wf(),
            final(self).fields() == old(self).fields().push((key@, FieldValue::Flag(value))),
    ;

    /// Receives a field whose value was formatted as text.
    fn write_display(&mut self, key: &str, value: &str)
        requires
            old(self).wf(),
        ensures
            final(self).wf(),
            final(self).fields() == old(self).fields().push((key@, FieldValue::Text(value@))),
    ;
}

/// Request fields that an application defines for itself.
///
/// Fields that are absent are skipped.
pub trait RequestFields: Default + Send + Sync + 'static {
    /// The fields of a display line, in order. Nothing is known of them unless an implementation
    /// says what they are.
    closed spec fn display_fields(&self) -> Seq<Field> {
        arbitrary()
    }

    /// The fields of a JSON line, in order. Nothing is known of them unless an implementation says
    /// what they are.
    closed spec fn json_fields(&self) -> Seq<Field> {
        arbitrary()
    }

    /// These fields, overridden by the fields that `other` has. Nothing is known of them unless an
    /// implementation says what they are.
    closed spec fn merged(self, other: Self) -> Self {
        arbitrary()
    }

    /// Writes the fields that are present, for a display line.
    fn write_display<W: FieldWriter>(&self, w: &mut W)
        requires
            old(w).wf(),
        ensures
            final(w).wf(),
            final(w).fields() == old(w).fields() + self.display_fields(),
    ;

    /// Writes the fields that are present, for a JSON line.
    fn write_json<W: FieldWriter>(&self, w: &mut W)
        requires
            old(w).wf(),
        ensures
            final(w).wf(),
            final(w).fields() == old(w).fields() + self.json_fields(),
    ;

    /// A copy of these fields.
    fn duplicate(&self) -> (copy: Self)
        ensures
            copy == *self,
    ;

    /// Overrides these fields by those that `other` has.
    fn merge(&mut self, other: Self)
        ensures
            *final(self) == old(self).merged(other),
    ;
}

impl RequestFields for () {
    open spec fn display_fields(&self) -> Seq<Field> {
        Seq::empty()
    }

    open spec fn json_fields(&self) -> Seq<Field> {
        Seq::empty()
    }

    open spec fn merged(self, other: Self) -> Self {
        self
    }

    fn write_display<W: FieldWriter>(&self, w: &mut W) {
        assert(w.fields() + Seq::<Field>::empty() =~= w.fields());
    }

    fn write_json<W: FieldWriter>(&self, w: &mut W) {
        assert(w.fields() + Seq::<Field>::empty() =~= w.fields());
    }

    fn duplicate(&self) -> (copy: Self) {
        ()
    }

    fn merge(&mut self, other: ()) {
    }
}

/// Writes fields as ` key=value`.
pub struct DisplayFieldWriter {
    buf: String,
    received: Ghost<Seq<Field>>,
}

impl DisplayFieldWriter {
    pub fn new() -> (writer: DisplayFieldWriter)
        ensures
            writer.wf(),
            writer.fields() == Seq::<Field>::empty(),
    {
        DisplayFieldWriter { buf: String::new(), received: Ghost(Seq::empty()) }
    }

    /// The text of the fields that were received.
    pub fn finish(self) -> (text: String)
        requires
            self.wf(),
        ensures
            text@ == display_text(self.fields()),
    {
        self.buf
    }
}

/// Appends ` key=value`.
pub(crate) fn push_pair(buf: &mut String, key: &str, value: &str)
    ensures
        final(buf)@ == old(buf)@ + pair_text(key@, value@),
{
    let ghost start = buf@;
    buf.push(' ');
    buf.append(key);
    buf.push('=');
    buf.append(value);
    assert(buf@ =~= start + pair_text(key@, value@));
}

proof fn lemma_display_push(fields: Seq<Field>, field: Field)
    ensures
        display_text(fields.push(field)) == display_text(fields) + pair_text(
            field.0,
            value_text(field.1),
        ),
{
    assert(fields.push(field).drop_last() =~= fields);
}

impl FieldWriter for DisplayFieldWriter {
    closed spec fn wf(&self) -> bool {
        self.buf@ == display_text(self.received@)
    }

    closed spec fn fields(&self) -> Seq<Field> {
        self.received@
    }

    fn write_str(&mut self, key: &str, value: &str) {
        push_pair(&mut self.buf, key, value);
        proof {
            lemma_display_push(self.received@, (key@, FieldValue::Text(value@)));
        }
        self.received = Ghost(self.received@.push((key@, FieldValue::Text(value@))));
    }

    fn write_u64(&mut self, key: &str, value: u64) {
        let digits = text::format_integer(value as i128);
        push_pair(&mut self.buf, key, digits.as_str());
        proof {
            lemma_display_push(self.received@, (key@, FieldValue::Unsigned(value)));
        }
        self.received = Ghost(self.received@.push((key@, FieldValue::Unsigned(value))));
    }

    fn write_i64(&mut self, key: &str, value: i64) {
        let digits = text::format_integer(value as i128);
        push_pair(&mut self.buf, key, digits.as_str());
        proof {
            lemma_display_push(self.received@, (key@, FieldValue::Signed(value)));
        }
        self.received = Ghost(self.received@.push((key@, FieldValue::Signed(value))));
    }

    fn write_bool(&mut self, key: &str, value: bool) {
        push_pair(
            &mut self.buf,
            key,
            if value {
                "true"
            } else {
                "false"
            },
        );
        proof {
            lemma_display_push(self.received@, (key@, FieldValue::Flag(value)));
        }
        self.received = Ghost(self.received@.push((key@, FieldValue::Flag(value))));
    }

    fn write_display(&mut self, key: &str, value: &str) {
        self.write_str(key, value);
    }
}

/// Writes fields as members of a JSON object, each behind a comma.
pub struct JsonFieldWriter {
    buf: String,
    received: Ghost<Seq<Field>>,
}

impl JsonFieldWriter {
    pub fn new() -> (writer: JsonFieldWriter)
        ensures
            writer.wf(),
            writer.fields() == Seq::<Field>::empty(),
    {
        JsonFieldWriter { buf: String::new(), received: Ghost(Seq::empty()) }
    }

    /// The text of the fields that were received.
    pub fn finish(self) -> (text: String)
        requires
            self.wf(),
        ensures
            text@ == json::more_members_text(json_members(self.fields())),
    {
        self.buf
    }
}

proof fn lemma_json_push(fields: Seq<Field>, field: Field)
    ensures
        json::more_members_text(json_members(fields.push(field))) == json::more_members_text(
            json_members(fields),
        ) + seq![','] + json::member_text(json_member(field)),
{
    let members = json_members(fields.push(field));
    assert(members.drop_last() =~= json_members(fields));
    assert(members.last() == json_member(field));
}

impl FieldWriter for JsonFieldWriter {
    closed spec fn wf(&self) -> bool {
        self.buf@ == json::more_members_text(json_members(self.received@))
    }

    closed spec fn fields(&self) -> Seq<Field> {
        self.received@
    }

    fn write_str(&mut self, key: &str, value: &str) {
        json::push_text_member(&mut self.buf, key, value);
        proof {
            lemma_json_push(self.received@, (key@, FieldValue::Text(value@)));
        }
        self.received = Ghost(self.received@.push((key@, FieldValue::Text(value@))));
    }

    fn write_u64(&mut self, key: &str, value: u64) {
        json::push_integer_member(&mut self.buf, key, value as i128);
        proof {
            lemma_json_push(self.received@, (key@, FieldValue::Unsigned(value)));
        }
        self.received = Ghost(self.received@.push((key@, FieldValue::Unsigned(value))));
    }

    fn write_i64(&mut self, key: &str, value: i64) {
        json::push_integer_member(&mut self.buf, key, value as i128);
        proof {
            lemma_json_push(self.received@, (key@, FieldValue::Signed(value)));
        }
        self.received = Ghost(self.received@.push((key@, FieldValue::Signed(value))));
    }

    fn write_bool(&mut self, key: &str, value: bool) {
        json::push_flag_member(&mut self.buf, key, value);
        proof {
            lemma_json_push(self.received@, (key@, FieldValue::Flag(value)));
        }
        self.received = Ghost(self.received@.push((key@, FieldValue::Flag(value))));
    }

    fn write_display(&mut self, key: &str, value: &str) {
        self.write_str(key, value);
    }
}

/// Named text values: each key once, in the order in which the keys came first.
pub struct FieldMap {
    entries: Vec<(String, String)>,
}

/// The pairs of texts that a vector of pairs of strings holds.
pub open spec fn text_pairs(entries: Seq<(String, String)>) -> Seq<(Seq<char>, Seq<char>)> {
    entries.map_values(|entry: (String, String)| (entry.0@, entry.1@))
}

/// Whether no key occurs twice.
pub open spec fn distinct_keys(pairs: Seq<(Seq<char>, Seq<char>)>) -> bool {
    forall|i: int, j: int|
        0 <= i < j < pairs.len() ==> (#[trigger] pairs[i]).0 != (#[trigger] pairs[j]).0
}

/// Whether a key occurs.
pub open spec fn has_key(pairs: Seq<(Seq<char>, Seq<char>)>, key: Seq<char>) -> bool {
    exists|i: int| 0 <= i < pairs.len() && (#[trigger] pairs[i]).0 == key
}

/// Where a key occurs.
pub open spec fn key_index(pairs: Seq<(Seq<char>, Seq<char>)>, key: Seq<char>) -> int {
    choose|i: int| 0 <= i < pairs.len() && (#[trigger] pairs[i]).0 == key
}

/// The pairs with a value set: in the place of the key where it occurs, else at the end.
pub open spec fn pairs_put(
    pairs: Seq<(Seq<char>, Seq<char>)>,
    key: Seq<char>,
    value: Seq<char>,
) -> Seq<(Seq<char>, Seq<char>)> {
    if has_key(pairs, key) {
        pairs.update(key_index(pairs, key), (key, value))
    } else {
        pairs.push((key, value))
    }
}

/// The pairs with the values of further pairs set, one by one.
pub open spec fn pairs_put_all(
    pairs: Seq<(Seq<char>, Seq<char>)>,
    more: Seq<(Seq<char>, Seq<char>)>,
) -> Seq<(Seq<char>, Seq<char>)>
    decreases more.len(),
{
    if more.len() == 0 {
        pairs
    } else {
        pairs_put(pairs_put_all(pairs, more.drop_last()), more.last().0, more.last().1)
    }
}

/// The pairs as a map from keys to values.
pub open spec fn pairs_map(pairs: Seq<(Seq<char>, Seq<char>)>) -> Map<Seq<char>, Seq<char>> {
    Map::new(|key: Seq<char>| has_key(pairs, key), |key: Seq<char>| pairs[key_index(pairs, key)].1)
}

/// Setting a value is an insertion into the map of the pairs, and keeps the keys distinct.
pub proof fn law_put_inserts(
    pairs: Seq<(Seq<char>, Seq<char>)>,
    key: Seq<char>,
    value: Seq<char>,
)
    requires
        distinct_keys(pairs),
    ensures
        distinct_keys(pairs_put(pairs, key, value)),
        pairs_map(pairs_put(pairs, key, value)) == pairs_map(pairs).insert(key, value),
{
    let put = pairs_put(pairs, key, value);
    let at = if has_key(pairs, key) {
        key_index(pairs, key)
    } else {
        pairs.len() as int
    };
    assert(put[at] == (key, value));
    assert(forall|i: int| 0 <= i < pairs.len() && i != at ==> put[i] == #[trigger] pairs[i]);
    assert forall|k: Seq<char>|
        #![trigger has_key(put, k)]
        has_key(put, k) <==> k == key || has_key(pairs, k) by {
        if has_key(pairs, k) {
            let i = key_index(pairs, k);
            assert(put[i].0 == k);
        }
        if has_key(put, k) {
            let i = key_index(put, k);
            if i != at {
                assert(pairs[i].0 == k);
            }
        }
    }
    assert forall|k: Seq<char>| #[trigger] has_key(put, k) implies put[key_index(put, k)].1
        == pairs_map(pairs).insert(key, value)[k] by {
        let i = key_index(put, k);
        if k == key {
            if i != at {
                assert(put[i].0 == put[at].0);
                assert(distinct_keys(put));
            }
        } else {
            assert(has_key(pairs, k));
            let j = key_index(pairs, k);
            assert(i != at);
            assert(pairs[i].0 == pairs[j].0);
            assert(i == j);
        }
    }
    assert(pairs_map(put) =~= pairs_map(pairs).insert(key, value));
}

/// Setting further values keeps the keys distinct, and a value that was set last is the one kept.
pub proof fn law_put_all_overrides(
    pairs: Seq<(Seq<char>, Seq<char>)>,
    more: Seq<(Seq<char>, Seq<char>)>,
)
    requires
        distinct_keys(pairs),
        distinct_keys(more),
    ensures
        distinct_keys(pairs_put_all(pairs, more)),
        pairs_map(pairs_put_all(pairs, more)) == pairs_map(pairs).union_prefer_right(
            pairs_map(more),
        ),
    decreases more.len(),
{
    if more.len() == 0 {
        assert(pairs_map(pairs) =~= pairs_map(pairs).union_prefer_right(pairs_map(more)));
    } else {
        let before = more.drop_last();
        let last = more.last();
        assert forall|i: int, j: int| 0 <= i < j < before.len() implies (#[trigger] before[i]).0
            != (#[trigger] before[j]).0 by {
            assert(before[i] == more[i] && before[j] == more[j]);
        }
        law_put_all_overrides(pairs, before);
        law_put_inserts(pairs_put_all(pairs, before), last.0, last.1);
        assert(!has_key(before, last.0)) by {
            if has_key(before, last.0) {
                let i = key_index(before, last.0);
                assert(more[i] == before[i]);
                assert(more[i].0 == more[more.len() - 1].0);
            }
        }
        law_put_inserts(before, last.0, last.1);
        assert(before.push(last) =~= more);
        assert(pairs_map(more) == pairs_map(before).insert(last.0, last.1));
        assert(pairs_map(pairs_put_all(pairs, more)) =~= pairs_map(pairs).union_prefer_right(
            pairs_map(more),
        ));
    }
}

/// Setting pairs whose keys are all new appends them.
pub proof fn lemma_put_all_appends(
    pairs: Seq<(Seq<char>, Seq<char>)>,
    more: Seq<(Seq<char>, Seq<char>)>,
)
    requires
        distinct_keys(pairs + more),
    ensures
        pairs_put_all(pairs, more) == pairs + more,
    decreases more.len(),
{
    let all = pairs + more;
    if more.len() == 0 {
        assert(all =~= pairs);
    } else {
        let before = pairs + more.drop_last();
        assert(before =~= all.drop_last());
        assert forall|i: int, j: int| 0 <= i < j < before.len() implies (#[trigger] before[i]).0
            != (#[trigger] before[j]).0 by {
            assert(before[i] == all[i] && before[j] == all[j]);
        }
        lemma_put_all_appends(pairs, more.drop_last());
        if has_key(before, more.last().0) {
            let i = key_index(before, more.last().0);
            assert(all[i].0 == all[all.len() - 1].0);
        }
        assert(before.push(more.last()) =~= all);
    }
}

impl FieldMap {
    #[verifier::type_invariant]
    closed spec fn inv(&self) -> bool {
        distinct_keys(text_pairs(self.entries@))
    }

    /// The keys and values, in order.
    pub closed spec fn pairs(&self) -> Seq<(Seq<char>, Seq<char>)> {
        text_pairs(self.entries@)
    }

    /// A map without entries.
    pub fn new() -> (map: FieldMap)
        ensures
            map.pairs() == Seq::<(Seq<char>, Seq<char>)>::empty(),
    {
        let map = FieldMap { entries: Vec::new() };
        assert(text_pairs(map.entries@) =~= Seq::<(Seq<char>, Seq<char>)>::empty());
        map
    }

    /// The number of entries.
    pub fn len(&self) -> (len: usize)
        ensures
            len == self.pairs().len(),
            distinct_keys(self.pairs()),
    {
        proof {
            use_type_invariant(self);
        }
        self.entries.len()
    }

    /// The key of an entry.
    pub fn key_at(&self, i: usize) -> (key: &str)
        requires
            i < self.pairs().len(),
        ensures
            key@ == self.pairs()[i as int].0,
    {
        self.entries[i].0.as_str()
    }

    /// The value of an entry.
    pub fn value_at(&self, i: usize) -> (value: &str)
        requires
            i < self.pairs().len(),
        ensures
            value@ == self.pairs()[i as int].1,
    {
        self.entries[i].1.as_str()
    }

    fn find(&self, key: &str) -> (found: Option<usize>)
        ensures
            found matches Some(i) ==> i < self.pairs().len() && has_key(self.pairs(), key@) && i
                == key_index(self.pairs(), key@) && self.pairs()[i as int].0 == key@,
            found is None <==> !has_key(self.pairs(), key@),
    {
        proof {
            use_type_invariant(self);
        }
        let mut i: usize = 0;
        while i < self.entries.len()
            invariant
                i <= self.entries.len(),
                distinct_keys(self.pairs()),
                self.pairs() == text_pairs(self.entries@),
                forall|j: int| 0 <= j < i ==> (#[trigger] self.pairs()[j]).0 != key@,
            decreases self.entries.len() - i,
        {
            if text::same_text(self.entries[i].0.as_str(), key) {
                assert(self.pairs()[i as int].0 == key@);
                assert(has_key(self.pairs(), key@));
                return Some(i);
            }
            i = i + 1;
        }
        None
    }

    /// The value of a key.
    pub fn get(&self, key: &str) -> (value: Option<&String>)
        ensures
            value is Some <==> pairs_map(self.pairs()).contains_key(key@),
            value matches Some(v) ==> v@ == pairs_map(self.pairs())[key@],
    {
        match self.find(key) {
            Some(i) => Some(&self.entries[i].1),
            None => None,
        }
    }

    /// Sets the value of a key.
    pub fn insert(&mut self, key: &str, value: &str)
        ensures
            final(self).pairs() == pairs_put(old(self).pairs(), key@, value@),
            distinct_keys(final(self).pairs()),
            pairs_map(final(self).pairs()) == pairs_map(old(self).pairs()).insert(key@, value@),
    {
        let found = self.find(key);
        let ghost before = self.pairs();
        proof {
            use_type_invariant(&*self);
            law_put_inserts(before, key@, value@);
        }
        let mut entries: Vec<(String, String)> = Vec::new();
        assert(text_pairs(entries@) =~= Seq::<(Seq<char>, Seq<char>)>::empty());
        std::mem::swap(&mut entries, &mut self.entries);
        match found {
            Some(i) => {
                entries.set(i, (key.to_owned(), value.to_owned()));
            },
            None => {
                entries.push((key.to_owned(), value.to_owned()));
            },
        }
        assert(text_pairs(entries@) =~= pairs_put(before, key@, value@));
        self.entries = entries;
    }

    /// Sets the values of all keys of another map.
    pub fn extend(&mut self, other: &FieldMap)
        ensures
            final(self).pairs() == pairs_put_all(old(self).pairs(), other.pairs()),
            distinct_keys(final(self).pairs()),
            pairs_map(final(self).pairs()) == pairs_map(old(self).pairs()).union_prefer_right(
                pairs_map(other.pairs()),
            ),
    {
        let ghost before = self.pairs();
        proof {
            use_type_invariant(&*self);
            use_type_invariant(other);
            law_put_all_overrides(before, other.pairs());
        }
        let len: usize = other.len();
        let mut i: usize = 0;
        assert(other.pairs().take(0) =~= Seq::<(Seq<char>, Seq<char>)>::empty());
        while i < len
            invariant
                i <= len,
                len == other.pairs().len(),
                self.pairs() == pairs_put_all(before, other.pairs().take(i as int)),
            decreases len - i,
        {
            self.insert(other.key_at(i), other.value_at(i));
            i = i + 1;
            assert(other.pairs().take(i as int).drop_last() =~= other.pairs().take(i - 1));
        }
        assert(other.pairs().take(len as int) =~= other.pairs());
    }
}

impl Clone for FieldMap {
    fn clone(&self) -> (copy: Self)
        ensures
            copy.pairs() == self.pairs(),
    {
        let mut entries: Vec<(String, String)> = Vec::new();
        let mut i: usize = 0;
        while i < self.entries.len()
            invariant
                i <= self.entries.len(),
                entries@.len() == i,
                forall|j: int|
                    0 <= j < i ==> (#[trigger] entries@[j]).0@ == self.entries@[j].0@
                        && entries@[j].1@ == self.entries@[j].1@,
            decreases self.entries.len() - i,
        {
            entries.push((self.entries[i].0.clone(), self.entries[i].1.clone()));
            i = i + 1;
        }
        proof {
            use_type_invariant(self);
            assert(text_pairs(entries@) =~= text_pairs(self.entries@));
        }
        FieldMap { entries }
    }
}

/// A value is shown as what it is: a text as itself, a number by digits that read back as the number,
/// and a flag as `true` or `false`. As a member of a JSON object it keeps its key, its type and its
/// value.
pub proof fn law_a_value_is_shown_as_it_is(field: Field)
    ensures
        json_member(field).0 == field.0,
        field.1 matches FieldValue::Text(t) ==> value_text(field.1) == t && json_member(field).1
            == json::JsonValue::Text(t),
        field.1 matches FieldValue::Unsigned(n) ==> text::number(value_text(field.1)) == n
            && json_member(field).1 == json::JsonValue::Integer(n as int),
        field.1 matches FieldValue::Signed(n) ==> json_member(field).1 == json::JsonValue::Integer(
            n as int,
        ) && (n >= 0 ==> text::number(value_text(field.1)) == n) && (n < 0 ==> value_text(
            field.1,
        )[0] == '-' && -text::number(value_text(field.1).drop_first()) == n),
        field.1 matches FieldValue::Flag(b) ==> json_member(field).1 == json::JsonValue::Flag(b) && (
        b ==> value_text(field.1) == "true"@) && (!b ==> value_text(field.1) == "false"@),
{
    match field.1 {
        FieldValue::Unsigned(n) => {
            text::law_decimal_reads_back(n as int);
        },
        FieldValue::Signed(n) => {
            text::law_decimal_reads_back(n as int);
        },
        _ => {},
    }
}

}
