//! The encoded sizes of records and requests.

use fast_telemetry::otlp::pb;
use fast_telemetry::otlp::pb::any_value::Value as OtlpValue;
use fast_telemetry::otlp::pb::LogRecord as OtlpRecord;
use prost::Message;
use vstd::prelude::*;

use crate::export::record::{AttributeValue, LogRecord, Value};
use crate::fields;

verus! {

/// `fast_telemetry::otlp::pb::AnyValue`: the value of an OTLP attribute.
#[verifier::external_type_specification]
#[verifier::external_body]
pub struct ExAnyValue(pb::AnyValue);

/// `fast_telemetry::otlp::pb::LogRecord`: an OTLP log record.
#[verifier::external_type_specification]
#[verifier::external_body]
pub struct ExOtlpRecord(OtlpRecord);

/// The size of the protobuf encoding of a record.
pub uninterp spec fn record_size(record: LogRecord) -> usize;

/// The OTLP value of an attribute's value, variant for variant. An encoded value is decoded with
/// `prost::Message::decode`; one that does not decode is no value. Only the sizes of records depend
/// on it.
#[verifier::external_body]
fn otlp_value(value: &AttributeValue) -> (converted: pb::AnyValue) {
    let value = value.value.as_ref().and_then(|value| match value {
        Value::StringValue(text) => Some(OtlpValue::StringValue(text.clone())),
        Value::BoolValue(flag) => Some(OtlpValue::BoolValue(*flag)),
        Value::IntValue(number) => Some(OtlpValue::IntValue(*number)),
        Value::EncodedValue(bytes) => pb::AnyValue::decode(bytes.as_slice()).ok().and_then(|any| any.value),
    });
    pb::AnyValue { value }
}

/// The OTLP record of a record, field for field. Only the sizes of records and of requests depend on
/// it.
#[verifier::external_body]
fn otlp_record(record: &LogRecord) -> (converted: OtlpRecord) {
    OtlpRecord {
        time_unix_nano: record.time_unix_nano,
        observed_time_unix_nano: record.observed_time_unix_nano,
        severity_number: record.severity_number,
        severity_text: record.severity_text.clone(),
        body: record.body.as_ref().map(otlp_value),
        attributes: record.attributes.iter().map(|a| pb::KeyValue { key: a.key.clone(), value: a.value.as_ref().map(otlp_value) }).collect(),
        dropped_attributes_count: record.dropped_attributes_count,
        flags: record.flags,
        trace_id: record.trace_id.clone(),
        span_id: record.span_id.clone(),
        event_name: record.event_name.clone(),
    }
}

/// `prost::Message::encoded_len` gives the size of the protobuf encoding of a record, here of the
/// `fast_telemetry::otlp::pb::LogRecord` with the same fields. It is a function of the record.
#[verifier::external_body]
fn record_encoded_len(record: &LogRecord) -> (len: usize)
    ensures
        len == record_size(*record),
{
    otlp_record(record).encoded_len()
}

/// `fast_telemetry::otlp::build_resource` makes the resource of a service name and further
/// attributes, and `prost::Message::encoded_len` gives the size of its protobuf encoding: a field for
/// each attribute, that of the service name first. It does so as long as that size is below the
/// largest one.
#[verifier::external_body]
fn resource_encoded_len(service_name: &str, attributes: &Vec<(String, String)>) -> (len: usize)
    requires
        resource_size(service_name@, fields::text_pairs(attributes@)) < usize::MAX,
    ensures
        len == resource_size(service_name@, fields::text_pairs(attributes@)),
{
    let pairs: Vec<(&str, &str)> = attributes.iter().map(|(k, v)| (k.as_str(), v.as_str())).collect();
    fast_telemetry::otlp::build_resource(service_name, &pairs).encoded_len()
}

/// `fast_telemetry::otlp::build_log_export_request` makes one request of a resource, a scope that has
/// nothing but a name, and records, and `prost::Message::encoded_len` gives the size of its protobuf
/// encoding: a field inside a field inside a field, with the resource, the scope and each record in
/// fields of their own. It does so as long as that size is below the largest one.
#[verifier::external_body]
fn request_encoded_len(
    service_name: &str,
    attributes: &Vec<(String, String)>,
    scope_name: &str,
    records: &Vec<LogRecord>,
) -> (len: usize)
    requires
        request_size_of(service_name@, fields::text_pairs(attributes@), scope_name@, records@)
            < usize::MAX,
    ensures
        len == request_size_of(
            service_name@,
            fields::text_pairs(attributes@),
            scope_name@,
            records@,
        ),
{
    let pairs: Vec<(&str, &str)> = attributes.iter().map(|(k, v)| (k.as_str(), v.as_str())).collect();
    let resource = fast_telemetry::otlp::build_resource(service_name, &pairs);
    let logs = records.iter().map(otlp_record).collect();
    fast_telemetry::otlp::build_log_export_request(&resource, scope_name, logs).encoded_len()
}

/// The number of bytes of a text.
pub open spec fn byte_len(text: Seq<char>) -> nat {
    vstd::utf8::encode_utf8(text).len()
}

/// The size of a text in a field of its own, and nothing where the text is empty.
pub open spec fn text_field_size(text: Seq<char>) -> int {
    if byte_len(text) == 0 {
        0
    } else {
        field_size(byte_len(text) as int)
    }
}

/// The size of the encoding of an instrumentation scope that has nothing but a name.
pub open spec fn scope_size(name: Seq<char>) -> int {
    text_field_size(name)
}

/// The size of the encoding of an attribute with a text as its value: the key, and a field that holds
/// the value in a field, also where it is empty.
pub open spec fn attribute_size(key: Seq<char>, value: Seq<char>) -> int {
    text_field_size(key) + field_size(field_size(byte_len(value) as int))
}

/// The size of attributes, each in a field.
pub open spec fn attributes_size(attributes: Seq<(Seq<char>, Seq<char>)>) -> int
    decreases attributes.len(),
{
    if attributes.len() == 0 {
        0
    } else {
        attributes_size(attributes.drop_last()) + field_size(
            attribute_size(attributes.last().0, attributes.last().1),
        )
    }
}

/// The attributes of a resource: the service name, and further ones.
pub open spec fn resource_pairs(
    service_name: Seq<char>,
    attributes: Seq<(Seq<char>, Seq<char>)>,
) -> Seq<(Seq<char>, Seq<char>)> {
    seq![("service.name"@, service_name)] + attributes
}

/// The size of the encoding of a resource with a service name and further attributes.
pub open spec fn resource_size(
    service_name: Seq<char>,
    attributes: Seq<(Seq<char>, Seq<char>)>,
) -> int {
    attributes_size(resource_pairs(service_name, attributes))
}

/// The size of a number in the encoding of protobuf: seven bits for each byte.
pub open spec fn varint_size(value: nat) -> nat
    decreases value,
{
    if value < 128 {
        1
    } else {
        1 + varint_size(value / 128)
    }
}

/// A size, or the largest one where it would go beyond.
pub open spec fn clamp(size: int) -> int {
    if size <= usize::MAX {
        size
    } else {
        usize::MAX as int
    }
}

/// The size of a field that holds `payload` bytes: its key, its length and the bytes.
pub open spec fn field_size(payload: int) -> int {
    clamp(1 + varint_size(payload as nat) + payload)
}

/// The size of a request whose records, with their keys and lengths, take `records` bytes.
pub open spec fn request_size(resource_field: int, scope_field: int, records: int) -> int {
    field_size(clamp(resource_field + field_size(clamp(scope_field + records))))
}

/// The size of records in a request, with their keys and lengths.
pub open spec fn record_fields_size(records: Seq<LogRecord>) -> int
    decreases records.len(),
{
    if records.len() == 0 {
        0
    } else {
        record_fields_size(records.drop_last()) + field_size(record_size(records.last()) as int)
    }
}

/// The size of the request of a service, a scope and records.
pub open spec fn request_size_of(
    service_name: Seq<char>,
    attributes: Seq<(Seq<char>, Seq<char>)>,
    scope_name: Seq<char>,
    records: Seq<LogRecord>,
) -> int {
    request_size(
        field_size(clamp(resource_size(service_name, attributes))),
        field_size(scope_size(scope_name)),
        record_fields_size(records),
    )
}

/// The size of a number in the encoding of protobuf.
pub fn varint_len(value: usize) -> (len: usize)
    ensures
        len == varint_size(value as nat),
        1 <= len <= 10,
{
    let mut rest: usize = value;
    let mut len: usize = 1;
    let ghost mut bound: int = 0x1_0000_0000_0000_0000;
    while rest >= 128
        invariant
            len <= 10,
            0 <= rest < bound,
            len == 1 ==> bound == 0x1_0000_0000_0000_0000,
            len == 2 ==> bound == 0x200_0000_0000_0000,
            len == 3 ==> bound == 0x4_0000_0000_0000,
            len == 4 ==> bound == 0x800_0000_0000,
            len == 5 ==> bound == 0x10_0000_0000,
            len == 6 ==> bound == 0x2000_0000,
            len == 7 ==> bound == 0x40_0000,
            len == 8 ==> bound == 0x8000,
            len == 9 ==> bound == 0x100,
            len == 10 ==> bound == 2,
            len >= 1,
            varint_size(value as nat) == len - 1 + varint_size(rest as nat),
        decreases rest,
    {
        rest = rest / 128;
        len = len + 1;
        proof {
            bound = bound / 128;
        }
    }
    len
}

/// The size of a field that holds `payload_len` bytes.
pub fn length_delimited_field_len(payload_len: usize) -> (len: usize)
    ensures
        len == field_size(payload_len as int),
{
    let one: usize = 1;
    one.saturating_add(varint_len(payload_len)).saturating_add(payload_len)
}

fn text_field_len(name: &str) -> (len: usize)
    ensures
        len == text_field_size(name@),
{
    let bytes: usize = name.as_bytes().len();
    if bytes == 0 {
        0
    } else {
        length_delimited_field_len(bytes)
    }
}

fn attribute_field_len(key: &str, value: &str) -> (len: usize)
    ensures
        len == field_size(attribute_size(key@, value@)),
{
    let value_len: usize = length_delimited_field_len(
        length_delimited_field_len(value.as_bytes().len()),
    );
    let len: usize = text_field_len(key).saturating_add(value_len);
    length_delimited_field_len(len)
}

proof fn lemma_attributes_size(attributes: Seq<(Seq<char>, Seq<char>)>)
    ensures
        attributes_size(attributes) >= 0,
    decreases attributes.len(),
{
    if attributes.len() > 0 {
        lemma_attributes_size(attributes.drop_last());
    }
}

fn resource_len(service_name: &str, attributes: &Vec<(String, String)>) -> (len: usize)
    ensures
        len == clamp(resource_size(service_name@, fields::text_pairs(attributes@))),
{
    let ghost all = resource_pairs(service_name@, fields::text_pairs(attributes@));
    let mut total: usize = attribute_field_len("service.name", service_name);
    let mut i: usize = 0;
    proof {
        assert(all.take(1).drop_last() =~= Seq::<(Seq<char>, Seq<char>)>::empty());
        assert(attributes_size(all.take(1).drop_last()) == 0);
    }
    while i < attributes.len()
        invariant
            i <= attributes@.len(),
            all == resource_pairs(service_name@, fields::text_pairs(attributes@)),
            total == clamp(attributes_size(all.take(i + 1))),
        decreases attributes@.len() - i,
    {
        proof {
            assert(all.take(i + 2).drop_last() =~= all.take(i + 1));
            assert(all[i + 1] == (attributes@[i as int].0@, attributes@[i as int].1@));
            lemma_attributes_size(all.take(i + 1));
        }
        total = total.saturating_add(
            attribute_field_len(attributes[i].0.as_str(), attributes[i].1.as_str()),
        );
        i = i + 1;
    }
    assert(all.take(i + 1) =~= all);
    if total == usize::MAX {
        return total;
    }
    resource_encoded_len(service_name, attributes)
}

/// Sizes requests without encoding them.
pub struct ExportRequestSizer {
    pub resource_field_len: usize,
    pub scope_field_len: usize,
}

impl ExportRequestSizer {
    /// Whether this sizes the requests of a service and a scope.
    pub open spec fn is_for(
        &self,
        service_name: Seq<char>,
        attributes: Seq<(Seq<char>, Seq<char>)>,
        scope_name: Seq<char>,
    ) -> bool {
        &&& self.resource_field_len == field_size(clamp(resource_size(service_name, attributes)))
        &&& self.scope_field_len == field_size(scope_size(scope_name))
    }

    /// The size of a request.
    pub open spec fn size(&self, records: int) -> int {
        request_size(self.resource_field_len as int, self.scope_field_len as int, records)
    }

    pub fn new(
        service_name: &str,
        attributes: &Vec<(String, String)>,
        scope_name: &str,
    ) -> (sizer: ExportRequestSizer)
        ensures
            sizer.is_for(service_name@, fields::text_pairs(attributes@), scope_name@),
    {
        ExportRequestSizer {
            resource_field_len: length_delimited_field_len(
                resource_len(service_name, attributes),
            ),
            scope_field_len: length_delimited_field_len(text_field_len(scope_name)),
        }
    }

    /// The size of a request whose records, with their keys and lengths, take so many bytes.
    pub fn encoded_len(&self, records_encoded_len: usize) -> (len: usize)
        ensures
            len == self.size(records_encoded_len as int),
    {
        let scope_logs_len: usize = self.scope_field_len.saturating_add(records_encoded_len);
        let resource_logs_len: usize = self.resource_field_len.saturating_add(
            length_delimited_field_len(scope_logs_len),
        );
        length_delimited_field_len(resource_logs_len)
    }
}

/// A record, with the size of its field in a request.
pub struct SizedRecord {
    pub record: LogRecord,
    pub field_len: usize,
}

impl SizedRecord {
    /// The size is that of the record's field.
    pub open spec fn wf(&self) -> bool {
        self.field_len == field_size(record_size(self.record) as int)
    }

    /// Sizes a record.
    pub fn new(record: LogRecord) -> (sized: SizedRecord)
        ensures
            sized.wf(),
            sized.record == record,
    {
        let field_len: usize = length_delimited_field_len(record_encoded_len(&record));
        SizedRecord { record, field_len }
    }
}

proof fn lemma_record_fields_size(records: Seq<LogRecord>)
    ensures
        record_fields_size(records) >= 0,
    decreases records.len(),
{
    if records.len() > 0 {
        lemma_record_fields_size(records.drop_last());
    }
}

/// Builds the request of a service, a scope and records, and gives the size of its encoding: the
/// size that a sizer of the service and the scope gives for the sizes of the records' fields.
///
/// Gives nothing for a request that does not fit in memory.
pub fn encoded_request_len(
    service_name: &str,
    attributes: &Vec<(String, String)>,
    scope_name: &str,
    records: &Vec<LogRecord>,
) -> (len: Option<usize>)
    ensures
        ({
            let size = request_size_of(
                service_name@,
                fields::text_pairs(attributes@),
                scope_name@,
                records@,
            );
            &&& len is Some <==> size < usize::MAX
            &&& len matches Some(n) ==> n == size
            &&& forall|sizer: ExportRequestSizer| #[trigger]
                sizer.is_for(service_name@, fields::text_pairs(attributes@), scope_name@)
                    ==> sizer.size(record_fields_size(records@)) == size
        }),
{
    let sizer = ExportRequestSizer::new(service_name, attributes, scope_name);
    let mut total: usize = 0;
    let mut i: usize = 0;
    while i < records.len()
        invariant
            i <= records@.len(),
            total == clamp(record_fields_size(records@.take(i as int))),
        decreases records@.len() - i,
    {
        let field_len: usize = length_delimited_field_len(record_encoded_len(&records[i]));
        proof {
            assert(records@.take(i + 1).drop_last() =~= records@.take(i as int));
            lemma_record_fields_size(records@.take(i as int));
        }
        total = total.saturating_add(field_len);
        i = i + 1;
    }
    let size: usize = sizer.encoded_len(total);
    proof {
        assert(records@.take(i as int) =~= records@);
        lemma_record_fields_size(records@);
        lemma_clamped_records(
            sizer.resource_field_len as int,
            sizer.scope_field_len as int,
            record_fields_size(records@),
        );
    }
    if size == usize::MAX {
        return None;
    }
    Some(request_encoded_len(service_name, attributes, scope_name, records))
}

/// The size of a request does not depend on how far the size of its records goes beyond the largest
/// one.
pub proof fn lemma_clamped_records(resource_field: int, scope_field: int, records: int)
    requires
        scope_field >= 0,
        records >= 0,
    ensures
        request_size(resource_field, scope_field, clamp(records)) == request_size(
            resource_field,
            scope_field,
            records,
        ),
{
    assert(clamp(scope_field + clamp(records)) == clamp(scope_field + records));
}

/// A request grows with its records.
pub proof fn law_request_size_is_monotone(sizer: ExportRequestSizer, less: int, more: int)
    requires
        0 <= less <= more,
    ensures
        sizer.size(less) <= sizer.size(more),
        less <= usize::MAX ==> less <= sizer.size(less),
{
    let scope = sizer.scope_field_len as int;
    let resource = sizer.resource_field_len as int;
    lemma_field_size_is_monotone(clamp(scope + less), clamp(scope + more));
    lemma_field_size_is_monotone(
        clamp(resource + field_size(clamp(scope + less))),
        clamp(resource + field_size(clamp(scope + more))),
    );
}

proof fn lemma_varint_size_is_monotone(a: nat, b: nat)
    requires
        a <= b,
    ensures
        varint_size(a) <= varint_size(b),
    decreases b,
{
    if a >= 128 {
        lemma_varint_size_is_monotone(a / 128, b / 128);
    }
}

proof fn lemma_field_size_is_monotone(a: int, b: int)
    requires
        0 <= a <= b,
    ensures
        field_size(a) <= field_size(b),
        a <= usize::MAX ==> a <= field_size(a),
        b <= usize::MAX ==> b <= field_size(b),
{
    lemma_varint_size_is_monotone(a as nat, b as nat);
}

/// A number takes as many bytes as it has groups of seven bits: a number that takes `n` bytes is below
/// the `n`th power of 128, and not below the power before.
pub proof fn law_a_number_takes_a_byte_for_seven_bits(value: nat)
    ensures
        value < vstd::arithmetic::power::pow(128, varint_size(value)),
        varint_size(value) > 1 ==> value >= vstd::arithmetic::power::pow(
            128,
            (varint_size(value) - 1) as nat,
        ),
        varint_size(value) >= 1,
    decreases value,
{
    reveal(vstd::arithmetic::power::pow);
    if value < 128 {
        reveal_with_fuel(vstd::arithmetic::power::pow, 2);
        assert(vstd::arithmetic::power::pow(128, 0) == 1);
        assert(vstd::arithmetic::power::pow(128, 1) == 128);
    } else {
        let rest = value / 128;
        law_a_number_takes_a_byte_for_seven_bits(rest);
        let n = varint_size(rest);
        assert(vstd::arithmetic::power::pow(128, n + 1) == 128 * vstd::arithmetic::power::pow(
            128,
            n,
        ));
        assert(vstd::arithmetic::power::pow(128, n) == 128 * vstd::arithmetic::power::pow(
            128,
            (n - 1) as nat,
        ));
        assert(vstd::arithmetic::power::pow(128, 0) == 1);
        assert(value < 128 * (rest + 1));
        if n > 1 {
            assert(rest >= vstd::arithmetic::power::pow(128, (n - 1) as nat));
        } else {
            assert(rest >= 1);
        }
    }
}

}
