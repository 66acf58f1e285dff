//! The mapping of log records to OTLP log records.

use vstd::prelude::*;

use crate::context;
use crate::export::config;
use crate::export::record;
use crate::export::record::{
    Attribute, AttributeMap, KeyValue, LogRecord,
};
use crate::fields::{Field, FieldMap, FieldValue, FieldWriter, RequestFields};
use crate::json;
use crate::schema::{EdenLog, LogLevel};
use crate::text;
use crate::trace;

verus! {

/// Maps log records to OTLP log records.
#[derive(Debug, Clone, Copy)]
pub struct EdenLogOtlpMapper;

/// What the attribute of a request field holds. An unsigned number beyond the range of OTLP's
/// integers is written as text.
pub open spec fn field_attribute(value: FieldValue) -> Attribute {
    match value {
        FieldValue::Text(t) => Attribute::Text(t),
        FieldValue::Unsigned(n) => if n <= i64::MAX {
            Attribute::Integer(n as i64)
        } else {
            Attribute::Text(text::decimal(n as int))
        },
        FieldValue::Signed(n) => Attribute::Integer(n),
        FieldValue::Flag(b) => Attribute::Flag(b),
    }
}

/// The attributes of request fields: of two fields with the same key the later one counts.
pub open spec fn fields_map(fields: Seq<Field>) -> Map<Seq<char>, Attribute>
    decreases fields.len(),
{
    if fields.len() == 0 {
        Map::empty()
    } else {
        fields_map(fields.drop_last()).insert(fields.last().0, field_attribute(fields.last().1))
    }
}

/// The attributes of pairs: of two pairs with the same key the later one counts.
pub open spec fn texts_map(pairs: Seq<(Seq<char>, Seq<char>)>) -> Map<Seq<char>, Attribute>
    decreases pairs.len(),
{
    if pairs.len() == 0 {
        Map::empty()
    } else {
        texts_map(pairs.drop_last()).insert(pairs.last().0, Attribute::Text(pairs.last().1))
    }
}

/// The attributes of supplied ones: those without a value are passed over, and of two with the same
/// key the later one counts.
pub open spec fn supplied_map(supplied: Seq<KeyValue>) -> Map<Seq<char>, Attribute>
    decreases supplied.len(),
{
    if supplied.len() == 0 {
        Map::empty()
    } else {
        match supplied.last().value {
            Some(value) => supplied_map(supplied.drop_last()).insert(
                supplied.last().key@,
                value@,
            ),
            None => supplied_map(supplied.drop_last()),
        }
    }
}

/// Sets an attribute to an optional text.
pub open spec fn with_text(
    map: Map<Seq<char>, Attribute>,
    key: Seq<char>,
    value: Option<Seq<char>>,
) -> Map<Seq<char>, Attribute> {
    match value {
        Some(v) => map.insert(key, Attribute::Text(v)),
        None => map,
    }
}

/// The attributes that the fields of a record itself set.
pub open spec fn with_intrinsic<R: RequestFields>(
    map: Map<Seq<char>, Attribute>,
    log: EdenLog<R>,
) -> Map<Seq<char>, Attribute> {
    let m1 = map.insert("eden.audience"@, Attribute::Text(log.audience.name()));
    let m2 = with_text(m1, "eden.feature"@, context::text_of(log.feature));
    let m3 = with_text(m2, "code.function.name"@, context::text_of(log.function));
    let m4 = with_text(m3, "code.file.path"@, context::text_of(log.file));
    let m5 = match log.line {
        Some(line) => m4.insert("code.line.number"@, Attribute::Integer(line as i64)),
        None => m4,
    };
    let m6 = with_text(m5, "error.code"@, context::text_of(log.error_code));
    with_text(m6, "error.type"@, context::text_of(log.error_category))
}

/// The attributes of IDs that are no OTLP IDs, and so are kept as text.
pub open spec fn with_malformed_ids<R: RequestFields>(
    map: Map<Seq<char>, Attribute>,
    log: EdenLog<R>,
) -> Map<Seq<char>, Attribute> {
    let m1 = if record_trace_id(log) is None {
        with_text(map, "eden.trace_id"@, context::text_of(log.trace_id))
    } else {
        map
    };
    if record_span_id(log) is None {
        with_text(m1, "eden.span_id"@, context::text_of(log.span_id))
    } else {
        m1
    }
}

/// The attributes of a record: intrinsic fields come before supplied attributes, those before
/// request fields, and those before additional fields.
pub open spec fn mapped_attributes<R: RequestFields>(
    log: EdenLog<R>,
    supplied: Seq<KeyValue>,
) -> Map<Seq<char>, Attribute> {
    with_malformed_ids(
        with_intrinsic(
            texts_map(log.additional.pairs()).union_prefer_right(
                fields_map(log.request.json_fields()),
            ).union_prefer_right(supplied_map(supplied)),
            log,
        ),
        log,
    )
}

/// The bytes that hexadecimal digits stand for, two digits for each byte.
pub open spec fn hex_bytes(s: Seq<char>) -> Seq<u8> {
    Seq::new(
        s.len() / 2,
        |i: int| (json::hex_value(s[2 * i])->0 * 16 + json::hex_value(s[2 * i + 1])->0) as u8,
    )
}

/// The ID of `n` bytes that a text stands for: it has two hexadecimal digits for each byte, and is
/// not zero.
pub open spec fn decoded_id(value: Option<Seq<char>>, n: nat) -> Option<Seq<u8>> {
    match value {
        Some(s) => if s.len() == 2 * n && (forall|i: int|
            0 <= i < s.len() ==> json::hex_value(#[trigger] s[i]) is Some) && !trace::all_zero(
            hex_bytes(s),
        ) {
            Some(hex_bytes(s))
        } else {
            None
        },
        None => None,
    }
}

/// The trace ID of a record.
pub open spec fn record_trace_id<R: RequestFields>(log: EdenLog<R>) -> Option<Seq<u8>> {
    decoded_id(context::text_of(log.trace_id), 16)
}

/// The span ID of a record; there is none without a trace ID.
pub open spec fn record_span_id<R: RequestFields>(log: EdenLog<R>) -> Option<Seq<u8>> {
    if record_trace_id(log) is Some {
        decoded_id(context::text_of(log.span_id), 8)
    } else {
        None
    }
}

/// The bytes of an optional ID.
pub open spec fn id_bytes(id: Option<Seq<u8>>) -> Seq<u8> {
    match id {
        Some(bytes) => bytes,
        None => Seq::empty(),
    }
}

/// The time of a record in nanoseconds, and zero where that is out of range.
pub open spec fn time_nanos<R: RequestFields>(log: EdenLog<R>) -> u64 {
    let total = log.timestamp.secs() * 1_000_000_000 + log.timestamp.subsec_nanos();
    if 0 <= total <= i64::MAX {
        total as u64
    } else {
        0
    }
}

/// The OTLP number of a level.
pub open spec fn level_number(level: LogLevel) -> i32 {
    match level {
        LogLevel::Trace => 1,
        LogLevel::Debug => 5,
        LogLevel::Info => 9,
        LogLevel::Warn => 13,
        LogLevel::Error => 17,
    }
}

/// Whether an OTLP record is what a log record maps to.
pub open spec fn is_mapped<R: RequestFields>(
    record: LogRecord,
    log: EdenLog<R>,
    observed: u64,
    supplied: Seq<KeyValue>,
) -> bool {
    &&& record.time_unix_nano == time_nanos(log)
    &&& record.observed_time_unix_nano == observed
    &&& record.severity_number == level_number(log.level)
    &&& record.severity_text@ == log.level.name()
    &&& record.body is Some && record.body->0@ == Attribute::Text(log.message@)
    &&& record::in_key_order(record.attributes@)
    &&& record::attribute_map(record.attributes@) == mapped_attributes(log, supplied)
    &&& record.dropped_attributes_count == 0
    &&& record.flags == 0
    &&& record.trace_id@ == id_bytes(record_trace_id(log))
    &&& record.span_id@ == id_bytes(record_span_id(log))
    &&& record.event_name@.len() == 0
}

impl EdenLogOtlpMapper {
    /// Maps a log record.
    pub fn map<R: RequestFields>(
        &self,
        log: &EdenLog<R>,
        observed_time_unix_nano: u64,
    ) -> (record: LogRecord)
        ensures
            is_mapped(record, *log, observed_time_unix_nano, Seq::empty()),
    {
        self.map_with_attributes(log, observed_time_unix_nano, Vec::new())
    }

    /// Maps a log record, and adds attributes that an integration supplies.
    pub fn map_with_attributes<R: RequestFields>(
        &self,
        log: &EdenLog<R>,
        observed_time_unix_nano: u64,
        supplied: Vec<KeyValue>,
    ) -> (record: LogRecord)
        ensures
            is_mapped(record, *log, observed_time_unix_nano, supplied@),
    {
        let mut attributes = additional_attributes(&log.additional);
        let mut writer = AttributeWriter::new();
        log.request.write_json(&mut writer);
        assert(writer.fields() =~= log.request.json_fields());
        attributes.append(writer.finish());
        attributes.append(supplied_attributes(supplied));
        insert_intrinsic(&mut attributes, log);
        let trace_id = decode_hex_id(&log.trace_id, 16);
        let span_id = if trace_id.is_some() {
            decode_hex_id(&log.span_id, 8)
        } else {
            None
        };
        if trace_id.is_none() {
            insert_optional_string(&mut attributes, "eden.trace_id", &log.trace_id);
        }
        if span_id.is_none() {
            insert_optional_string(&mut attributes, "eden.span_id", &log.span_id);
        }
        LogRecord {
            time_unix_nano: timestamp_nanos(log),
            observed_time_unix_nano,
            severity_number: severity_number(log.level),
            severity_text: log.level.to_string(),
            body: Some(record::string_value(log.message.as_str())),
            attributes: attributes.into_attributes(),
            dropped_attributes_count: 0,
            flags: 0,
            trace_id: bytes_or_none(trace_id),
            span_id: bytes_or_none(span_id),
            event_name: String::new(),
        }
    }
}

fn bytes_or_none(id: Option<Vec<u8>>) -> (bytes: Vec<u8>)
    ensures
        bytes@ == id_bytes(id_view(id)),
{
    match id {
        Some(bytes) => bytes,
        None => Vec::new(),
    }
}

/// The bytes of an optional ID.
pub open spec fn id_view(id: Option<Vec<u8>>) -> Option<Seq<u8>> {
    match id {
        Some(bytes) => Some(bytes@),
        None => None,
    }
}

fn additional_attributes(map: &FieldMap) -> (attributes: AttributeMap)
    ensures
        attributes.wf(),
        attributes.map() == texts_map(map.pairs()),
{
    let mut attributes = AttributeMap::new();
    let len: usize = map.len();
    let mut i: usize = 0;
    assert(map.pairs().take(0) =~= Seq::<(Seq<char>, Seq<char>)>::empty());
    while i < len
        invariant
            i <= len,
            len == map.pairs().len(),
            attributes.wf(),
            attributes.map() == texts_map(map.pairs().take(i as int)),
        decreases len - i,
    {
        insert_string(&mut attributes, map.key_at(i), map.value_at(i));
        i = i + 1;
        assert(map.pairs().take(i as int).drop_last() =~= map.pairs().take(i - 1));
    }
    assert(map.pairs().take(len as int) =~= map.pairs());
    attributes
}

fn supplied_attributes(supplied: Vec<KeyValue>) -> (attributes: AttributeMap)
    ensures
        attributes.wf(),
        attributes.map() == supplied_map(supplied@),
{
    let ghost all = supplied@;
    let mut attributes = AttributeMap::new();
    assert(all.take(0) =~= Seq::<KeyValue>::empty());
    for attribute in it: supplied
        invariant
            it.seq() == all,
            attributes.wf(),
            attributes.map() == supplied_map(all.take(it.index() as int)),
    {
        assert(all.take(it.index() + 1).drop_last() =~= all.take(it.index() as int));
        assert(all.take(it.index() + 1).last() == attribute);
        match attribute.value {
            Some(value) => {
                attributes.insert(attribute.key, value);
            },
            None => {},
        }
    }
    assert(all.take(all.len() as int) =~= all);
    attributes
}

fn insert_intrinsic<R: RequestFields>(attributes: &mut AttributeMap, log: &EdenLog<R>)
    requires
        old(attributes).wf(),
    ensures
        final(attributes).wf(),
        final(attributes).map() == with_intrinsic(old(attributes).map(), *log),
{
    insert_string(attributes, "eden.audience", log.audience.as_str());
    insert_optional_string(attributes, "eden.feature", &log.feature);
    insert_optional_string(attributes, "code.function.name", &log.function);
    insert_optional_string(attributes, "code.file.path", &log.file);
    match log.line {
        Some(line) => {
            attributes.insert("code.line.number".to_owned(), record::int_value(line as i64));
        },
        None => {},
    }
    insert_optional_string(attributes, "error.code", &log.error_code);
    insert_optional_string(attributes, "error.type", &log.error_category);
}

fn insert_optional_string(attributes: &mut AttributeMap, key: &str, value: &Option<String>)
    requires
        old(attributes).wf(),
    ensures
        final(attributes).wf(),
        final(attributes).map() == with_text(
            old(attributes).map(),
            key@,
            context::text_of(*value),
        ),
{
    match value {
        Some(value) => {
            insert_string(attributes, key, value.as_str());
        },
        None => {},
    }
}

fn insert_string(attributes: &mut AttributeMap, key: &str, value: &str)
    requires
        old(attributes).wf(),
    ensures
        final(attributes).wf(),
        final(attributes).map() == old(attributes).map().insert(key@, Attribute::Text(value@)),
{
    attributes.insert(key.to_owned(), record::string_value(value));
}

fn timestamp_nanos<R: RequestFields>(log: &EdenLog<R>) -> (nanos: u64)
    ensures
        nanos == time_nanos(*log),
{
    match log.timestamp.timestamp_nanos_opt() {
        Some(nanos) => if nanos >= 0 {
            nanos as u64
        } else {
            0
        },
        None => 0,
    }
}

/// The OTLP number of a level.
pub fn severity_number(level: LogLevel) -> (number: i32)
    ensures
        number == level_number(level),
{
    match level {
        LogLevel::Trace => 1,
        LogLevel::Debug => 5,
        LogLevel::Info => 9,
        LogLevel::Warn => 13,
        LogLevel::Error => 17,
    }
}

/// Decodes an ID of `n` bytes from hexadecimal digits, unless it is malformed or zero.
pub fn decode_hex_id(value: &Option<String>, n: usize) -> (id: Option<Vec<u8>>)
    requires
        2 * n <= usize::MAX,
    ensures
        id_view(id) == decoded_id(context::text_of(*value), n as nat),
{
    let s = match value {
        Some(s) => text::to_chars(s.as_str()),
        None => {
            return None;
        },
    };
    if s.len() != n * 2 {
        return None;
    }
    let mut output: Vec<u8> = Vec::new();
    let mut zero = true;
    let mut i: usize = 0;
    while i < n
        invariant
            i <= n,
            s@.len() == 2 * n,
            context::text_of(*value) == Some(s@),
            output@.len() == i,
            forall|j: int| 0 <= j < 2 * i ==> json::hex_value(#[trigger] s@[j]) is Some,
            forall|j: int| 0 <= j < i ==> #[trigger] output@[j] == hex_bytes(s@)[j],
            zero <==> trace::all_zero(output@),
        decreases n - i,
    {
        let high: u8 = match hex_nibble(s[2 * i]) {
            Some(nibble) => nibble,
            None => {
                assert(json::hex_value(s@[2 * i as int]) is None);
                return None;
            },
        };
        let low: u8 = match hex_nibble(s[2 * i + 1]) {
            Some(nibble) => nibble,
            None => {
                assert(json::hex_value(s@[2 * i + 1]) is None);
                return None;
            },
        };
        let byte: u8 = high * 16 + low;
        let ghost before = output@;
        output.push(byte);
        proof {
            assert(hex_bytes(s@)[i as int] == byte);
            assert(forall|j: int| 0 <= j < before.len() ==> output@[j] == #[trigger] before[j]);
            if byte != 0 {
                assert(output@[i as int] != 0);
            }
            if zero && byte == 0 {
                assert(trace::all_zero(output@));
            }
            if !zero {
                let j = choose|j: int| 0 <= j < before.len() && before[j] != 0;
                assert(output@[j] != 0);
            }
        }
        zero = zero && byte == 0;
        i = i + 1;
    }
    assert(output@ =~= hex_bytes(s@));
    if zero {
        return None;
    }
    Some(output)
}

fn hex_nibble(c: char) -> (nibble: Option<u8>)
    ensures
        nibble is Some <==> json::hex_value(c) is Some,
        nibble matches Some(n) ==> n < 16 && json::hex_value(c) == Some(n as int),
{
    if '0' <= c && c <= '9' {
        Some(c as u8 - 48)
    } else if 'a' <= c && c <= 'f' {
        Some(c as u8 - 87)
    } else if 'A' <= c && c <= 'F' {
        Some(c as u8 - 55)
    } else {
        None
    }
}

/// Collects request fields as attributes.
pub struct AttributeWriter {
    attributes: AttributeMap,
    received: Ghost<Seq<Field>>,
}

impl AttributeWriter {
    pub fn new() -> (writer: AttributeWriter)
        ensures
            writer.wf(),
            writer.fields() == Seq::<Field>::empty(),
    {
        AttributeWriter { attributes: AttributeMap::new(), received: Ghost(Seq::empty()) }
    }

    /// The attributes of the fields that were received.
    pub fn finish(self) -> (attributes: AttributeMap)
        requires
            self.wf(),
        ensures
            attributes.wf(),
            attributes.map() == fields_map(self.fields()),
    {
        self.attributes
    }
}

proof fn lemma_fields_push(fields: Seq<Field>, field: Field)
    ensures
        fields_map(fields.push(field)) == fields_map(fields).insert(
            field.0,
            field_attribute(field.1),
        ),
{
    assert(fields.push(field).drop_last() =~= fields);
}

impl FieldWriter for AttributeWriter {
    closed spec fn wf(&self) -> bool {
        self.attributes.wf() && self.attributes.map() == fields_map(self.received@)
    }

    closed spec fn fields(&self) -> Seq<Field> {
        self.received@
    }

    fn write_str(&mut self, key: &str, value: &str) {
        insert_string(&mut self.attributes, key, value);
        proof {
            lemma_fields_push(self.received@, (key@, FieldValue::Text(value@)));
        }
        self.received = Ghost(self.received@.push((key@, FieldValue::Text(value@))));
    }

    fn write_u64(&mut self, key: &str, value: u64) {
        let attribute = if value <= i64::MAX as u64 {
            record::int_value(value as i64)
        } else {
            let digits = text::format_integer(value as i128);
            record::string_value(digits.as_str())
        };
        self.attributes.insert(key.to_owned(), attribute);
        proof {
            lemma_fields_push(self.received@, (key@, FieldValue::Unsigned(value)));
        }
        self.received = Ghost(self.received@.push((key@, FieldValue::Unsigned(value))));
    }

    fn write_i64(&mut self, key: &str, value: i64) {
        self.attributes.insert(key.to_owned(), record::int_value(value));
        proof {
            lemma_fields_push(self.received@, (key@, FieldValue::Signed(value)));
        }
        self.received = Ghost(self.received@.push((key@, FieldValue::Signed(value))));
    }

    fn write_bool(&mut self, key: &str, value: bool) {
        self.attributes.insert(key.to_owned(), record::bool_value(value));
        proof {
            lemma_fields_push(self.received@, (key@, FieldValue::Flag(value)));
        }
        self.received = Ghost(self.received@.push((key@, FieldValue::Flag(value))));
    }

    fn write_display(&mut self, key: &str, value: &str) {
        self.write_str(key, value);
    }
}

/// The hexadecimal text of an ID that is not zero decodes to the ID.
pub proof fn law_hex_ids_round_trip(bytes: Seq<u8>)
    requires
        !trace::all_zero(bytes),
    ensures
        decoded_id(Some(trace::hex_text(bytes)), bytes.len()) == Some(bytes),
{
    let s = trace::hex_text(bytes);
    assert forall|i: int| 0 <= i < s.len() implies json::hex_value(#[trigger] s[i]) is Some by {
        let b = bytes[i / 2] as int;
        assert(0 <= b / 16 < 16 && 0 <= b % 16 < 16);
    }
    assert(s.len() / 2 == bytes.len());
    assert forall|i: int| 0 <= i < bytes.len() implies hex_bytes(s)[i] == bytes[i] by {
        let b = bytes[i] as int;
        assert((2 * i) / 2 == i && (2 * i + 1) / 2 == i);
        assert((2 * i) % 2 == 0 && (2 * i + 1) % 2 == 1);
        assert(s[2 * i] == json::hex_digit(b / 16));
        assert(s[2 * i + 1] == json::hex_digit(b % 16));
        assert(json::hex_value(s[2 * i]) == Some(b / 16));
        assert(json::hex_value(s[2 * i + 1]) == Some(b % 16));
        assert(b / 16 * 16 + b % 16 == b);
    }
    assert(hex_bytes(s) =~= bytes);
}

/// Whether a key is one that the fields of records themselves use.
pub open spec fn is_intrinsic(key: Seq<char>) -> bool {
    ||| key == "eden.audience"@
    ||| key == "eden.feature"@
    ||| key == "code.function.name"@
    ||| key == "code.file.path"@
    ||| key == "code.line.number"@
    ||| key == "error.code"@
    ||| key == "error.type"@
    ||| key == "eden.trace_id"@
    ||| key == "eden.span_id"@
}

/// Outside the intrinsic keys, supplied attributes come before request fields, and those before
/// additional fields.
pub proof fn law_attribute_precedence<R: RequestFields>(
    log: EdenLog<R>,
    supplied: Seq<KeyValue>,
    key: Seq<char>,
)
    requires
        !is_intrinsic(key),
    ensures
        ({
            let mapped = mapped_attributes(log, supplied);
            let request = fields_map(log.request.json_fields());
            let additional = texts_map(log.additional.pairs());
            &&& supplied_map(supplied).contains_key(key) ==> mapped.contains_key(key)
                && mapped[key] == supplied_map(supplied)[key]
            &&& !supplied_map(supplied).contains_key(key) && request.contains_key(key)
                ==> mapped.contains_key(key) && mapped[key] == request[key]
            &&& !supplied_map(supplied).contains_key(key) && !request.contains_key(key)
                && additional.contains_key(key) ==> mapped.contains_key(key) && mapped[key]
                == additional[key]
            &&& !supplied_map(supplied).contains_key(key) && !request.contains_key(key)
                && !additional.contains_key(key) ==> !mapped.contains_key(key)
        }),
{
}

/// The audience of a record always wins over attributes of the same key.
pub proof fn law_audience_cannot_be_forged<R: RequestFields>(
    log: EdenLog<R>,
    supplied: Seq<KeyValue>,
)
    ensures
        mapped_attributes(log, supplied).contains_key("eden.audience"@),
        mapped_attributes(log, supplied)["eden.audience"@] == Attribute::Text(log.audience.name()),
{
    reveal_strlit("eden.audience");
    reveal_strlit("eden.feature");
    reveal_strlit("code.function.name");
    reveal_strlit("code.file.path");
    reveal_strlit("code.line.number");
    reveal_strlit("error.code");
    reveal_strlit("error.type");
    reveal_strlit("eden.trace_id");
    reveal_strlit("eden.span_id");
    let key = "eden.audience"@;
    assert(key[5] == 'a');
    assert("eden.feature"@[5] == 'f');
    assert("eden.trace_id"@[5] == 't');
    assert("eden.span_id"@[5] == 's');
    assert(key[0] == 'e');
    assert("code.function.name"@[0] == 'c');
    assert("code.file.path"@[0] == 'c');
    assert("code.line.number"@[0] == 'c');
    assert("error.code"@.len() == 10 && key.len() == 13 && "error.type"@.len() == 10);
}

proof fn lemma_intrinsic_keys_differ()
    ensures
        "eden.audience"@.len() == 13,
        "eden.feature"@.len() == 12,
        "code.function.name"@.len() == 18,
        "code.file.path"@.len() == 14,
        "code.line.number"@.len() == 16,
        "error.code"@.len() == 10,
        "error.type"@.len() == 10,
        "eden.trace_id"@.len() == 13,
        "eden.span_id"@.len() == 12,
        "eden.audience"@ != "eden.trace_id"@,
        "eden.feature"@ != "eden.span_id"@,
        "error.code"@ != "error.type"@,
{
    reveal_strlit("eden.audience");
    reveal_strlit("eden.feature");
    reveal_strlit("code.function.name");
    reveal_strlit("code.file.path");
    reveal_strlit("code.line.number");
    reveal_strlit("error.code");
    reveal_strlit("error.type");
    reveal_strlit("eden.trace_id");
    reveal_strlit("eden.span_id");
    assert("eden.audience"@[5] == 'a' && "eden.trace_id"@[5] == 't');
    assert("eden.feature"@[5] == 'f' && "eden.span_id"@[5] == 's');
    assert("error.code"@[6] == 'c' && "error.type"@[6] == 't');
}

/// The attribute of a key, where there is one.
pub open spec fn attribute_at(
    map: Map<Seq<char>, Attribute>,
    key: Seq<char>,
) -> Option<Attribute> {
    if map.contains_key(key) {
        Some(map[key])
    } else {
        None
    }
}

/// The attributes of a record that are not its own: the supplied ones, the request fields and the
/// additional fields, in this order of precedence.
pub open spec fn attribute_given<R: RequestFields>(
    log: EdenLog<R>,
    supplied: Seq<KeyValue>,
    key: Seq<char>,
) -> Option<Attribute> {
    if supplied_map(supplied).contains_key(key) {
        Some(supplied_map(supplied)[key])
    } else if fields_map(log.request.json_fields()).contains_key(key) {
        Some(fields_map(log.request.json_fields())[key])
    } else if texts_map(log.additional.pairs()).contains_key(key) {
        Some(texts_map(log.additional.pairs())[key])
    } else {
        None
    }
}

/// Each field of a record that is set has an attribute of its own, which holds that field and no
/// other, whatever else is given; a field that is not set leaves its key to what is given.
#[verifier::rlimit(30)]
pub proof fn law_each_field_has_its_own_attribute<R: RequestFields>(
    record: LogRecord,
    log: EdenLog<R>,
    observed: u64,
    supplied: Seq<KeyValue>,
)
    requires
        is_mapped(record, log, observed, supplied),
    ensures
        ({
            let map = record::attribute_map(record.attributes@);
            let found = |key: Seq<char>| attribute_at(map, key);
            let given = |key: Seq<char>| attribute_given(log, supplied, key);
            &&& found("eden.audience"@) == Some(Attribute::Text(log.audience.name()))
            &&& found("eden.feature"@) == match log.feature {
                Some(feature) => Some(Attribute::Text(feature@)),
                None => given("eden.feature"@),
            }
            &&& found("code.function.name"@) == match log.function {
                Some(function) => Some(Attribute::Text(function@)),
                None => given("code.function.name"@),
            }
            &&& found("code.file.path"@) == match log.file {
                Some(file) => Some(Attribute::Text(file@)),
                None => given("code.file.path"@),
            }
            &&& found("code.line.number"@) == match log.line {
                Some(line) => Some(Attribute::Integer(line as i64)),
                None => given("code.line.number"@),
            }
            &&& found("error.code"@) == match log.error_code {
                Some(code) => Some(Attribute::Text(code@)),
                None => given("error.code"@),
            }
            &&& found("error.type"@) == match log.error_category {
                Some(category) => Some(Attribute::Text(category@)),
                None => given("error.type"@),
            }
            &&& found("eden.trace_id"@) == match log.trace_id {
                Some(id) => if record.trace_id@.len() == 0 {
                    Some(Attribute::Text(id@))
                } else {
                    given("eden.trace_id"@)
                },
                None => given("eden.trace_id"@),
            }
            &&& found("eden.span_id"@) == match log.span_id {
                Some(id) => if record.span_id@.len() == 0 {
                    Some(Attribute::Text(id@))
                } else {
                    given("eden.span_id"@)
                },
                None => given("eden.span_id"@),
            }
            &&& forall|key: Seq<char>| !is_intrinsic(key) ==> #[trigger] attribute_at(map, key)
                == given(key)
        }),
{
    lemma_intrinsic_keys_differ();
    lemma_ids_have_bytes(context::text_of(log.trace_id), 16);
    lemma_ids_have_bytes(context::text_of(log.span_id), 8);
    assert forall|key: Seq<char>| !is_intrinsic(key) implies #[trigger] attribute_at(
        record::attribute_map(record.attributes@),
        key,
    ) == attribute_given(log, supplied, key) by {
        law_attribute_precedence(log, supplied, key);
    }
}

proof fn lemma_ids_have_bytes(value: Option<Seq<char>>, n: nat)
    requires
        n > 0,
    ensures
        decoded_id(value, n) matches Some(bytes) ==> bytes.len() == n,
{
    if let Some(s) = value {
        if s.len() == 2 * n {
            assert(s.len() / 2 == n);
        }
    }
}

/// Of the request fields with a key the last one counts, and so it is with additional fields and with
/// supplied attributes; each keeps its kind, but that a number beyond the range of integers becomes
/// its digits.
pub proof fn law_the_last_value_of_a_key_counts(
    fields: Seq<Field>,
    pairs: Seq<(Seq<char>, Seq<char>)>,
    supplied: Seq<KeyValue>,
    i: int,
)
    ensures
        0 <= i < fields.len() && (forall|j: int|
            i < j < fields.len() ==> (#[trigger] fields[j]).0 != fields[i].0) ==> {
            let value = attribute_at(fields_map(fields), fields[i].0);
            match fields[i].1 {
                FieldValue::Text(t) => value == Some(Attribute::Text(t)),
                FieldValue::Signed(n) => value == Some(Attribute::Integer(n)),
                FieldValue::Flag(b) => value == Some(Attribute::Flag(b)),
                FieldValue::Unsigned(n) => if n < 0x8000_0000_0000_0000 {
                    value matches Some(Attribute::Integer(m)) && m == n
                } else {
                    value == Some(Attribute::Text(text::decimal_nat(n as nat)))
                },
            }
        },
        0 <= i < pairs.len() && (forall|j: int|
            i < j < pairs.len() ==> (#[trigger] pairs[j]).0 != pairs[i].0) ==> attribute_at(
            texts_map(pairs),
            pairs[i].0,
        ) == Some(Attribute::Text(pairs[i].1)),
        0 <= i < supplied.len() && supplied[i].value is Some && (forall|j: int|
            i < j < supplied.len() ==> (#[trigger] supplied[j]).key@ != supplied[i].key@
                || supplied[j].value is None) ==> attribute_at(
            supplied_map(supplied),
            supplied[i].key@,
        ) == Some(supplied[i].value->0@),
    decreases fields.len() + pairs.len() + supplied.len(),
{
    if fields.len() > 0 && i < fields.len() - 1 {
        let front = fields.drop_last();
        assert(fields[fields.len() - 1] == fields.last());
        assert(forall|j: int| 0 <= j < front.len() ==> #[trigger] front[j] == fields[j]);
        law_the_last_value_of_a_key_counts(front, Seq::empty(), Seq::empty(), i);
    }
    if pairs.len() > 0 && i < pairs.len() - 1 {
        let front = pairs.drop_last();
        assert(pairs[pairs.len() - 1] == pairs.last());
        assert(forall|j: int| 0 <= j < front.len() ==> #[trigger] front[j] == pairs[j]);
        law_the_last_value_of_a_key_counts(Seq::empty(), front, Seq::empty(), i);
    }
    if supplied.len() > 0 && i < supplied.len() - 1 {
        let front = supplied.drop_last();
        assert(supplied[supplied.len() - 1] == supplied.last());
        assert(forall|j: int| 0 <= j < front.len() ==> #[trigger] front[j] == supplied[j]);
        law_the_last_value_of_a_key_counts(Seq::empty(), Seq::empty(), front, i);
    }
}

/// No attribute comes from nowhere: a key that no field, pair or supplied attribute has, has none.
pub proof fn law_no_attribute_comes_from_nowhere(
    fields: Seq<Field>,
    pairs: Seq<(Seq<char>, Seq<char>)>,
    supplied: Seq<KeyValue>,
    key: Seq<char>,
)
    ensures
        (forall|j: int| 0 <= j < fields.len() ==> (#[trigger] fields[j]).0 != key)
            ==> !fields_map(fields).contains_key(key),
        (forall|j: int| 0 <= j < pairs.len() ==> (#[trigger] pairs[j]).0 != key)
            ==> !texts_map(pairs).contains_key(key),
        (forall|j: int|
            0 <= j < supplied.len() ==> (#[trigger] supplied[j]).key@ != key
                || supplied[j].value is None) ==> !supplied_map(supplied).contains_key(key),
    decreases fields.len() + pairs.len() + supplied.len(),
{
    if fields.len() > 0 {
        let front = fields.drop_last();
        assert(fields[fields.len() - 1] == fields.last());
        assert(forall|j: int| 0 <= j < front.len() ==> #[trigger] front[j] == fields[j]);
        law_no_attribute_comes_from_nowhere(front, Seq::empty(), Seq::empty(), key);
    }
    if pairs.len() > 0 {
        let front = pairs.drop_last();
        assert(pairs[pairs.len() - 1] == pairs.last());
        assert(forall|j: int| 0 <= j < front.len() ==> #[trigger] front[j] == pairs[j]);
        law_no_attribute_comes_from_nowhere(Seq::empty(), front, Seq::empty(), key);
    }
    if supplied.len() > 0 {
        let front = supplied.drop_last();
        assert(supplied[supplied.len() - 1] == supplied.last());
        assert(forall|j: int| 0 <= j < front.len() ==> #[trigger] front[j] == supplied[j]);
        law_no_attribute_comes_from_nowhere(Seq::empty(), Seq::empty(), front, key);
    }
}

/// A mapped record is at the time of its log record, to the nanosecond, and observed when it says; its
/// body is the message; its severity is the first number of the range of its level, which come in the
/// order of the levels, four numbers each; and its IDs spell those of the log record, or are empty: a
/// span ID without a trace ID is.
pub proof fn law_a_record_keeps_what_its_log_says<R: RequestFields>(
    record: LogRecord,
    log: EdenLog<R>,
    observed: u64,
    supplied: Seq<KeyValue>,
)
    requires
        is_mapped(record, log, observed, supplied),
    ensures
        ({
            let nanos = log.timestamp.secs() * 1_000_000_000 + log.timestamp.subsec_nanos();
            &&& 0 <= nanos <= i64::MAX ==> record.time_unix_nano == nanos
            &&& nanos < 0 || nanos > i64::MAX ==> record.time_unix_nano == 0
            &&& record.observed_time_unix_nano == observed
            &&& record.body matches Some(body) && body.value matches Some(
                record::Value::StringValue(text),
            ) && text@ == log.message@
            &&& record.severity_number == 1 + 4 * config::rank(log.level)
            &&& record.severity_text@ == log.level.name()
            &&& record.trace_id@.len() == 0 || record.trace_id@.len() == 16
            &&& record.span_id@.len() == 0 || record.span_id@.len() == 8
            &&& record.trace_id@.len() == 0 ==> record.span_id@.len() == 0
            &&& record.trace_id@.len() > 0 ==> {
                &&& !trace::all_zero(record.trace_id@)
                &&& log.trace_id matches Some(id) && text::same_ignoring_case(
                    trace::hex_text(record.trace_id@),
                    id@,
                )
            }
            &&& record.span_id@.len() > 0 ==> {
                &&& !trace::all_zero(record.span_id@)
                &&& log.span_id matches Some(id) && text::same_ignoring_case(
                    trace::hex_text(record.span_id@),
                    id@,
                )
            }
        }),
{
    lemma_ids_have_bytes(context::text_of(log.trace_id), 16);
    lemma_ids_have_bytes(context::text_of(log.span_id), 8);
    lemma_decoded_ids_spell_their_text(context::text_of(log.trace_id), 16);
    lemma_decoded_ids_spell_their_text(context::text_of(log.span_id), 8);
}

proof fn lemma_decoded_ids_spell_their_text(value: Option<Seq<char>>, n: nat)
    ensures
        decoded_id(value, n) matches Some(bytes) ==> text::same_ignoring_case(
            trace::hex_text(bytes),
            value->0,
        ),
{
    if let Some(bytes) = decoded_id(value, n) {
        let s = value->0;
        let t = trace::hex_text(bytes);
        assert(s.len() / 2 == n);
        assert(t.len() == s.len());
        assert forall|i: int| 0 <= i < s.len() implies text::ascii_lower(t[i]) == text::ascii_lower(
            #[trigger] s[i],
        ) by {
            let k = i / 2;
            let high = json::hex_value(s[2 * k])->0;
            let low = json::hex_value(s[2 * k + 1])->0;
            assert(json::hex_value(s[2 * k]) is Some && json::hex_value(s[2 * k + 1]) is Some);
            assert(0 <= high < 16 && 0 <= low < 16);
            assert(bytes[k] == high * 16 + low);
            assert((high * 16 + low) / 16 == high && (high * 16 + low) % 16 == low);
            assert(i == 2 * k || i == 2 * k + 1);
        }
    }
}

/// A request field is mapped to an attribute of its own type and value; an unsigned number beyond the
/// integers of OTLP is spelled by digits that read back as the number.
pub proof fn law_a_field_keeps_its_type(value: FieldValue)
    ensures
        value matches FieldValue::Text(t) ==> field_attribute(value) == Attribute::Text(t),
        value matches FieldValue::Flag(b) ==> field_attribute(value) == Attribute::Flag(b),
        value matches FieldValue::Signed(n) ==> field_attribute(value) == Attribute::Integer(n),
        value matches FieldValue::Unsigned(n) ==> match field_attribute(value) {
            Attribute::Integer(i) => i == n,
            Attribute::Text(t) => n > i64::MAX && text::number(t) == n,
            _ => false,
        },
{
    if let FieldValue::Unsigned(n) = value {
        text::law_decimal_reads_back(n as int);
    }
}

}
