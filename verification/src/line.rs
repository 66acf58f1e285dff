//! The text of a log line: what it holds, and its display and JSON forms.

use vstd::prelude::*;

use crate::context;
use crate::context::LogAudience;
use crate::fields;
use crate::fields::{DisplayFieldWriter, Field, FieldMap, FieldWriter, JsonFieldWriter, RequestFields};
use crate::json;
use crate::schema::LogLevel;
use crate::text;

verus! {

/// What a log line holds.
pub struct Line {
    pub time: Seq<char>,
    pub level: LogLevel,
    pub audience: LogAudience,
    pub trace_id: Option<Seq<char>>,
    pub span_id: Option<Seq<char>>,
    pub feature: Option<Seq<char>>,
    pub function: Option<Seq<char>>,
    pub request: Seq<Field>,
    pub error_code: Option<Seq<char>>,
    pub error_category: Option<Seq<char>>,
    pub additional: Seq<(Seq<char>, Seq<char>)>,
    pub message: Seq<char>,
    pub file: Option<Seq<char>>,
    pub line: Option<u32>,
}

/// The pairs of texts that a slice of pairs of strings holds.
pub open spec fn str_pairs(pairs: Seq<(&str, &str)>) -> Seq<(Seq<char>, Seq<char>)> {
    pairs.map_values(|pair: (&str, &str)| (pair.0@, pair.1@))
}

/// The display text ` key=value` of an optional field.
pub open spec fn optional_pair(key: Seq<char>, value: Option<Seq<char>>) -> Seq<char> {
    match value {
        Some(v) => fields::pair_text(key, v),
        None => Seq::empty(),
    }
}

/// The display text of pairs: ` key=value`, one behind the other.
pub open spec fn pairs_text(pairs: Seq<(Seq<char>, Seq<char>)>) -> Seq<char>
    decreases pairs.len(),
{
    if pairs.len() == 0 {
        Seq::empty()
    } else {
        pairs_text(pairs.drop_last()) + fields::pair_text(pairs.last().0, pairs.last().1)
    }
}

/// The text of a source location, on a line of its own: `   --> file:line`.
pub open spec fn location_text(file: Option<Seq<char>>, line: Option<u32>) -> Seq<char> {
    match file {
        Some(f) => seq!['\n', ' ', ' ', ' ', '-', '-', '>', ' '] + f + match line {
            Some(l) => seq![':'] + text::decimal(l as int),
            None => Seq::empty(),
        },
        None => Seq::empty(),
    }
}

/// The start of a display line: `[time] [level] [audience]`, with the level in its color.
pub open spec fn header_text(time: Seq<char>, level: LogLevel, audience: LogAudience) -> Seq<char> {
    seq!['['] + time + seq![']', ' ', '['] + level.colored_name() + seq![']', ' ', '[']
        + audience.name() + seq![']']
}

/// The fields of a display line that come before the additional ones.
pub open spec fn known_fields_text(line: Line) -> Seq<char> {
    optional_pair("trace_id"@, line.trace_id) + optional_pair("span_id"@, line.span_id)
        + optional_pair("feature"@, line.feature) + optional_pair("fn"@, line.function)
        + fields::display_text(line.request) + optional_pair("error"@, line.error_code)
}

/// The display form of a line.
pub open spec fn display_line(line: Line) -> Seq<char> {
    header_text(line.time, line.level, line.audience) + known_fields_text(line) + pairs_text(
        line.additional,
    ) + seq![' '] + line.message + location_text(line.file, line.line)
}

/// The member of an optional field.
pub open spec fn optional_member(key: Seq<char>, value: Option<Seq<char>>) -> Seq<
    json::JsonMember,
> {
    match value {
        Some(v) => seq![(key, json::JsonValue::Text(v))],
        None => Seq::empty(),
    }
}

/// The members of pairs.
pub open spec fn pair_members(pairs: Seq<(Seq<char>, Seq<char>)>) -> Seq<json::JsonMember> {
    pairs.map_values(|pair: (Seq<char>, Seq<char>)| (pair.0, json::JsonValue::Text(pair.1)))
}

/// The members of a source location.
pub open spec fn location_members(file: Option<Seq<char>>, line: Option<u32>) -> Seq<
    json::JsonMember,
> {
    match file {
        Some(f) => seq![("file"@, json::JsonValue::Text(f))] + match line {
            Some(l) => seq![("line"@, json::JsonValue::Integer(l as int))],
            None => Seq::empty(),
        },
        None => Seq::empty(),
    }
}

/// The members of a JSON line that come behind the time and before the additional ones.
pub open spec fn known_members(line: Line) -> Seq<json::JsonMember> {
    seq![
        ("level"@, json::JsonValue::Text(line.level.name())),
        ("audience"@, json::JsonValue::Text(line.audience.name())),
    ] + optional_member("trace_id"@, line.trace_id) + optional_member("span_id"@, line.span_id)
        + optional_member("feature"@, line.feature) + optional_member("fn"@, line.function)
        + fields::json_members(line.request) + optional_member("error_code"@, line.error_code)
        + optional_member("error_category"@, line.error_category)
}

/// The members of a JSON line, in order: the message comes last.
pub open spec fn line_members(line: Line) -> Seq<json::JsonMember> {
    seq![("ts"@, json::JsonValue::Text(line.time))] + (known_members(line) + pair_members(
        line.additional,
    ) + location_members(line.file, line.line) + seq![
        ("msg"@, json::JsonValue::Text(line.message)),
    ])
}

/// The JSON form of a line: one flat object.
pub open spec fn json_line(line: Line) -> Seq<char> {
    json::object_text(line_members(line))
}

/// The JSON form of a line reads back as exactly the members of the line, whatever its texts hold.
pub proof fn law_json_line_reads_back(line: Line)
    ensures
        json::read_object(json_line(line)) == Some(line_members(line)),
{
    json::law_object_reads_back(line_members(line));
}

/// Whether a text stands somewhere in a line.
pub open spec fn shows(line: Seq<char>, part: Seq<char>) -> bool {
    exists|i: int|
        0 <= i <= line.len() - part.len() && #[trigger] line.subrange(i, i + part.len()) == part
}

/// Whether a line shows a field that has a value, as ` label=value`.
pub open spec fn shows_field(line: Seq<char>, label: Seq<char>, value: Option<Seq<char>>) -> bool {
    value is Some ==> shows(line, seq![' '] + label + seq!['='] + value->0)
}

/// Whether an object has a text under a key where there is one.
pub open spec fn has_member(
    members: Seq<json::JsonMember>,
    key: Seq<char>,
    value: Option<Seq<char>>,
) -> bool {
    value is Some ==> members.contains((key, json::JsonValue::Text(value->0)))
}

proof fn lemma_shows(before: Seq<char>, part: Seq<char>, behind: Seq<char>)
    ensures
        shows(before + part + behind, part),
{
    let line = before + part + behind;
    let at = before.len() as int;
    assert(line.subrange(at, at + part.len()) =~= part);
}

proof fn lemma_shows_more(before: Seq<char>, line: Seq<char>, behind: Seq<char>, part: Seq<char>)
    requires
        shows(line, part),
    ensures
        shows(before + line + behind, part),
{
    let i = choose|i: int|
        0 <= i <= line.len() - part.len() && #[trigger] line.subrange(i, i + part.len()) == part;
    let at = before.len() + i;
    assert((before + line + behind).subrange(at, at + part.len()) =~= line.subrange(
        i,
        i + part.len(),
    ));
}

proof fn lemma_pairs_text_shows(pairs: Seq<(Seq<char>, Seq<char>)>, i: int)
    requires
        0 <= i < pairs.len(),
    ensures
        shows(pairs_text(pairs), seq![' '] + pairs[i].0 + seq!['='] + pairs[i].1),
    decreases pairs.len(),
{
    let front = pairs.drop_last();
    let last = fields::pair_text(pairs.last().0, pairs.last().1);
    if i == front.len() {
        lemma_shows(pairs_text(front), last, Seq::empty());
        assert(pairs_text(front) + last + Seq::<char>::empty() =~= pairs_text(pairs));
    } else {
        lemma_pairs_text_shows(front, i);
        lemma_shows_more(
            Seq::empty(),
            pairs_text(front),
            last,
            seq![' '] + pairs[i].0 + seq!['='] + pairs[i].1,
        );
        assert(Seq::<char>::empty() + pairs_text(front) + last =~= pairs_text(pairs));
    }
}

/// A display line starts with its time and its audience in brackets, and shows every field that has
/// a value under the label of that field. Its message stands behind all of them, and its location,
/// where there is one, behind the message.
#[verifier::rlimit(30)]
pub proof fn law_display_line_shows_every_field(line: Line)
    ensures
        ({
            let shown = display_line(line);
            let head = seq!['['] + line.time + seq![']', ' ', '['] + line.level.colored_name()
                + seq![']', ' ', '['] + line.audience.name() + seq![']'];
            &&& head.is_prefix_of(shown)
            &&& shows_field(shown, "trace_id"@, line.trace_id)
            &&& shows_field(shown, "span_id"@, line.span_id)
            &&& shows_field(shown, "feature"@, line.feature)
            &&& shows_field(shown, "fn"@, line.function)
            &&& shows_field(shown, "error"@, line.error_code)
            &&& line.file is None ==> (seq![' '] + line.message).is_suffix_of(shown)
            &&& line.file is Some && line.line is None ==> (seq![' '] + line.message + seq!['\n']
                + "   --> "@ + line.file->0).is_suffix_of(shown)
            &&& line.file is Some && line.line is Some ==> (seq![' '] + line.message + seq!['\n']
                + "   --> "@ + line.file->0 + seq![':'] + text::decimal(
                line.line->0 as int,
            )).is_suffix_of(shown)
        }),
        forall|i: int|
            0 <= i < line.additional.len() ==> shows_field(
                display_line(line),
                (#[trigger] line.additional[i]).0,
                Some(line.additional[i].1),
            ),
{
    reveal_strlit("   --> ");
    let shown = display_line(line);
    let head = header_text(line.time, line.level, line.audience);
    let known = known_fields_text(line);
    let pairs = pairs_text(line.additional);
    let end = seq![' '] + line.message + location_text(line.file, line.line);
    assert(shown =~= head + known + (pairs + end));
    assert(shown =~= (head + known) + pairs + end);
    assert(head.is_prefix_of(shown));
    assert(end.is_suffix_of(shown));
    assert("   --> "@ =~= seq![' ', ' ', ' ', '-', '-', '>', ' ']);
    assert(line.file is None ==> end =~= seq![' '] + line.message);
    if line.file is Some {
        assert(seq!['\n', ' ', ' ', ' ', '-', '-', '>', ' '] + line.file->0 =~= seq!['\n']
            + "   --> "@ + line.file->0);
        if line.line is None {
            assert(end =~= seq![' '] + line.message + seq!['\n'] + "   --> "@ + line.file->0);
        } else {
            assert(end =~= seq![' '] + line.message + seq!['\n'] + "   --> "@ + line.file->0 + seq![
                ':',
            ] + text::decimal(line.line->0 as int));
        }
    }
    lemma_known_fields_show(line);
    lemma_field_shows_more(head, known, pairs + end, "trace_id"@, line.trace_id);
    lemma_field_shows_more(head, known, pairs + end, "span_id"@, line.span_id);
    lemma_field_shows_more(head, known, pairs + end, "feature"@, line.feature);
    lemma_field_shows_more(head, known, pairs + end, "fn"@, line.function);
    lemma_field_shows_more(head, known, pairs + end, "error"@, line.error_code);
    assert forall|i: int| 0 <= i < line.additional.len() implies shows_field(
        display_line(line),
        (#[trigger] line.additional[i]).0,
        Some(line.additional[i].1),
    ) by {
        lemma_pairs_text_shows(line.additional, i);
        lemma_shows_more(
            head + known,
            pairs,
            end,
            seq![' '] + line.additional[i].0 + seq!['='] + line.additional[i].1,
        );
    }
}

proof fn lemma_field_shows_more(
    before: Seq<char>,
    line: Seq<char>,
    behind: Seq<char>,
    label: Seq<char>,
    value: Option<Seq<char>>,
)
    requires
        shows_field(line, label, value),
    ensures
        shows_field(before + line + behind, label, value),
{
    if value is Some {
        lemma_shows_more(before, line, behind, seq![' '] + label + seq!['='] + value->0);
    }
}

proof fn lemma_known_fields_show(line: Line)
    ensures
        shows_field(known_fields_text(line), "trace_id"@, line.trace_id),
        shows_field(known_fields_text(line), "span_id"@, line.span_id),
        shows_field(known_fields_text(line), "feature"@, line.feature),
        shows_field(known_fields_text(line), "fn"@, line.function),
        shows_field(known_fields_text(line), "error"@, line.error_code),
{
    let none = Seq::<char>::empty();
    let t = optional_pair("trace_id"@, line.trace_id);
    let s = optional_pair("span_id"@, line.span_id);
    let f = optional_pair("feature"@, line.feature);
    let n = optional_pair("fn"@, line.function);
    let r = fields::display_text(line.request);
    let e = optional_pair("error"@, line.error_code);
    let known = known_fields_text(line);
    assert(known =~= none + t + (s + f + n + r + e));
    assert(known =~= t + s + (f + n + r + e));
    assert(known =~= (t + s) + f + (n + r + e));
    assert(known =~= (t + s + f) + n + (r + e));
    assert(known =~= (t + s + f + n + r) + e + none);
    lemma_shows(none, t, s + f + n + r + e);
    lemma_shows(t, s, f + n + r + e);
    lemma_shows(t + s, f, n + r + e);
    lemma_shows(t + s + f, n, r + e);
    lemma_shows(t + s + f + n + r, e, none);
}

/// The object that a JSON line reads back as has every field under the key of that field: the time
/// first, the message last, each optional field that has a value, each request field, each
/// additional pair, and the location. It has nothing else.
pub proof fn law_json_line_has_every_field(line: Line, members: Seq<json::JsonMember>)
    requires
        json::read_object(json_line(line)) == Some(members),
    ensures
        members.len() >= 4,
        members[0] == ("ts"@, json::JsonValue::Text(line.time)),
        members[1] == ("level"@, json::JsonValue::Text(line.level.name())),
        members[2] == ("audience"@, json::JsonValue::Text(line.audience.name())),
        members.last() == ("msg"@, json::JsonValue::Text(line.message)),
        has_member(members, "trace_id"@, line.trace_id),
        has_member(members, "span_id"@, line.span_id),
        has_member(members, "feature"@, line.feature),
        has_member(members, "fn"@, line.function),
        has_member(members, "error_code"@, line.error_code),
        has_member(members, "error_category"@, line.error_category),
        has_member(members, "file"@, line.file),
        line.file is Some && line.line is Some ==> members.contains(
            ("line"@, json::JsonValue::Integer(line.line->0 as int)),
        ),
        forall|i: int|
            0 <= i < line.additional.len() ==> has_member(
                members,
                (#[trigger] line.additional[i]).0,
                Some(line.additional[i].1),
            ),
        forall|i: int|
            0 <= i < line.request.len() ==> members.contains(
                fields::json_member(#[trigger] line.request[i]),
            ),
        members.len() == 4 + one_if(line.trace_id is Some) + one_if(line.span_id is Some) + one_if(
            line.feature is Some,
        ) + one_if(line.function is Some) + one_if(line.error_code is Some) + one_if(
            line.error_category is Some,
        ) + one_if(line.file is Some) + one_if(line.file is Some && line.line is Some)
            + line.request.len() + line.additional.len(),
{
    law_json_line_reads_back(line);
    let first = seq![("ts"@, json::JsonValue::Text(line.time))];
    let known = known_members(line);
    let a = pair_members(line.additional);
    let l = location_members(line.file, line.line);
    let m = seq![("msg"@, json::JsonValue::Text(line.message))];
    lemma_known_members_have(line);
    lemma_in_sum(first, known + a + l + m);
    lemma_in_sum(known + a + l, m);
    lemma_in_sum(known + a, l);
    lemma_in_sum(known, a);
    assert(line.file is Some ==> l[0] == ("file"@, json::JsonValue::Text(line.file->0)));
    assert(line.file is Some && line.line is Some ==> l[1] == (
        "line"@,
        json::JsonValue::Integer(line.line->0 as int),
    ));
    assert forall|i: int| 0 <= i < line.additional.len() implies has_member(
        members,
        (#[trigger] line.additional[i]).0,
        Some(line.additional[i].1),
    ) by {
        assert(a[i] == (line.additional[i].0, json::JsonValue::Text(line.additional[i].1)));
    }
    assert forall|i: int| 0 <= i < line.request.len() implies members.contains(
        fields::json_member(#[trigger] line.request[i]),
    ) by {
        assert(known.contains(fields::json_member(line.request[i])));
    }
}

proof fn lemma_known_members_have(line: Line)
    ensures
        known_members(line).len() == 2 + one_if(line.trace_id is Some) + one_if(
            line.span_id is Some,
        ) + one_if(line.feature is Some) + one_if(line.function is Some) + one_if(
            line.error_code is Some,
        ) + one_if(line.error_category is Some) + line.request.len(),
        known_members(line)[0] == ("level"@, json::JsonValue::Text(line.level.name())),
        known_members(line)[1] == ("audience"@, json::JsonValue::Text(line.audience.name())),
        has_member(known_members(line), "trace_id"@, line.trace_id),
        has_member(known_members(line), "span_id"@, line.span_id),
        has_member(known_members(line), "feature"@, line.feature),
        has_member(known_members(line), "fn"@, line.function),
        has_member(known_members(line), "error_code"@, line.error_code),
        has_member(known_members(line), "error_category"@, line.error_category),
        forall|i: int|
            0 <= i < line.request.len() ==> known_members(line).contains(
                fields::json_member(#[trigger] line.request[i]),
            ),
{
    let h = seq![
        ("level"@, json::JsonValue::Text(line.level.name())),
        ("audience"@, json::JsonValue::Text(line.audience.name())),
    ];
    let t = optional_member("trace_id"@, line.trace_id);
    let s = optional_member("span_id"@, line.span_id);
    let f = optional_member("feature"@, line.feature);
    let n = optional_member("fn"@, line.function);
    let r = fields::json_members(line.request);
    let e = optional_member("error_code"@, line.error_code);
    let c = optional_member("error_category"@, line.error_category);
    lemma_in_sum(h + t + s + f + n + r + e, c);
    lemma_in_sum(h + t + s + f + n + r, e);
    lemma_in_sum(h + t + s + f + n, r);
    lemma_in_sum(h + t + s + f, n);
    lemma_in_sum(h + t + s, f);
    lemma_in_sum(h + t, s);
    lemma_in_sum(h, t);
    assert(line.trace_id is Some ==> t[0] == ("trace_id"@, json::JsonValue::Text(line.trace_id->0)));
    assert(line.span_id is Some ==> s[0] == ("span_id"@, json::JsonValue::Text(line.span_id->0)));
    assert(line.feature is Some ==> f[0] == ("feature"@, json::JsonValue::Text(line.feature->0)));
    assert(line.function is Some ==> n[0] == ("fn"@, json::JsonValue::Text(line.function->0)));
    assert(line.error_code is Some ==> e[0] == (
        "error_code"@,
        json::JsonValue::Text(line.error_code->0),
    ));
    assert(line.error_category is Some ==> c[0] == (
        "error_category"@,
        json::JsonValue::Text(line.error_category->0),
    ));
    assert forall|i: int| 0 <= i < line.request.len() implies known_members(line).contains(
        fields::json_member(#[trigger] line.request[i]),
    ) by {
        assert(r[i] == fields::json_member(line.request[i]));
    }
}

/// One where something holds, else nothing.
pub open spec fn one_if(holds: bool) -> int {
    if holds {
        1
    } else {
        0
    }
}

proof fn lemma_in_sum(a: Seq<json::JsonMember>, b: Seq<json::JsonMember>)
    ensures
        forall|member: json::JsonMember| #[trigger]
            (a + b).contains(member) <==> a.contains(member) || b.contains(member),
{
    assert forall|member: json::JsonMember| #[trigger] (a + b).contains(member) <==> a.contains(
        member,
    ) || b.contains(member) by {
        let sum = a + b;
        if a.contains(member) {
            let i = choose|i: int| 0 <= i < a.len() && a[i] == member;
            assert(sum[i] == member);
        }
        if b.contains(member) {
            let i = choose|i: int| 0 <= i < b.len() && b[i] == member;
            assert(sum[a.len() + i] == member);
        }
        if sum.contains(member) {
            let i = choose|i: int| 0 <= i < sum.len() && sum[i] == member;
            if i < a.len() {
                assert(a[i] == member);
            } else {
                assert(b[i - a.len()] == member);
            }
        }
    }
}

proof fn lemma_pairs_text_push(pairs: Seq<(Seq<char>, Seq<char>)>, i: int)
    requires
        0 <= i < pairs.len(),
    ensures
        pairs_text(pairs.take(i + 1)) == pairs_text(pairs.take(i)) + fields::pair_text(
            pairs[i].0,
            pairs[i].1,
        ),
{
    assert(pairs.take(i + 1).drop_last() =~= pairs.take(i));
}

pub proof fn lemma_pairs_text_concat(
    a: Seq<(Seq<char>, Seq<char>)>,
    b: Seq<(Seq<char>, Seq<char>)>,
)
    ensures
        pairs_text(a + b) == pairs_text(a) + pairs_text(b),
    decreases b.len(),
{
    if b.len() == 0 {
        assert(a + b =~= a);
        assert(pairs_text(a) + pairs_text(b) =~= pairs_text(a));
    } else {
        lemma_pairs_text_concat(a, b.drop_last());
        assert((a + b).drop_last() =~= a + b.drop_last());
        assert(pairs_text(a + b) =~= pairs_text(a) + pairs_text(b));
    }
}

proof fn lemma_more_members_concat(a: Seq<json::JsonMember>, b: Seq<json::JsonMember>)
    ensures
        json::more_members_text(a + b) == json::more_members_text(a) + json::more_members_text(b),
    decreases b.len(),
{
    if b.len() == 0 {
        assert(a + b =~= a);
        assert(json::more_members_text(a) + json::more_members_text(b)
            =~= json::more_members_text(a));
    } else {
        lemma_more_members_concat(a, b.drop_last());
        assert((a + b).drop_last() =~= a + b.drop_last());
        assert(json::more_members_text(a + b) =~= json::more_members_text(a)
            + json::more_members_text(b));
    }
}

proof fn lemma_one_member(member: json::JsonMember)
    ensures
        json::more_members_text(seq![member]) == seq![','] + json::member_text(member),
        json::more_members_text(Seq::empty()) == Seq::<char>::empty(),
{
    let one = seq![member];
    assert(one.drop_last() =~= Seq::<json::JsonMember>::empty());
    assert(json::more_members_text(Seq::empty()) =~= Seq::<char>::empty());
    assert(json::more_members_text(one) =~= seq![','] + json::member_text(member));
}

fn push_optional_pair(s: &mut String, key: &str, value: &Option<String>)
    ensures
        final(s)@ == old(s)@ + optional_pair(key@, context::text_of(*value)),
{
    match value {
        Some(v) => {
            fields::push_pair(s, key, v.as_str());
        },
        None => {
            assert(s@ + Seq::<char>::empty() =~= s@);
        },
    }
}

/// Appends `[time] [level] [audience]`.
pub(crate) fn write_header(s: &mut String, time: &str, level: LogLevel, audience: LogAudience)
    ensures
        final(s)@ == old(s)@ + header_text(time@, level, audience),
{
    let ghost start = s@;
    s.push('[');
    s.append(time);
    s.push(']');
    s.push(' ');
    s.push('[');
    s.append(level.as_colored_str());
    s.push(']');
    s.push(' ');
    s.push('[');
    s.append(audience.as_str());
    s.push(']');
    assert(s@ =~= start + header_text(time@, level, audience));
}

/// Appends the fields of a display line that come before the additional ones.
pub(crate) fn write_known_fields<R: RequestFields>(
    s: &mut String,
    trace_id: &Option<String>,
    span_id: &Option<String>,
    feature: &Option<String>,
    function: &Option<String>,
    request: &R,
    error_code: &Option<String>,
    line: Ghost<Line>,
)
    requires
        line@.trace_id == context::text_of(*trace_id),
        line@.span_id == context::text_of(*span_id),
        line@.feature == context::text_of(*feature),
        line@.function == context::text_of(*function),
        line@.request == request.display_fields(),
        line@.error_code == context::text_of(*error_code),
    ensures
        final(s)@ == old(s)@ + known_fields_text(line@),
{
    let ghost start = s@;
    push_optional_pair(s, "trace_id", trace_id);
    push_optional_pair(s, "span_id", span_id);
    push_optional_pair(s, "feature", feature);
    push_optional_pair(s, "fn", function);
    let mut writer = DisplayFieldWriter::new();
    request.write_display(&mut writer);
    assert(writer.fields() =~= request.display_fields());
    let request_text = writer.finish();
    s.append(request_text.as_str());
    push_optional_pair(s, "error", error_code);
    assert(s@ =~= start + known_fields_text(line@));
}

/// Appends ` key=value` for each entry of a map.
pub(crate) fn write_map_pairs(s: &mut String, map: &FieldMap)
    ensures
        final(s)@ == old(s)@ + pairs_text(map.pairs()),
{
    let ghost start = s@;
    let len: usize = map.len();
    let mut i: usize = 0;
    assert(s@ =~= start + pairs_text(map.pairs().take(0)));
    while i < len
        invariant
            i <= len,
            len == map.pairs().len(),
            s@ == start + pairs_text(map.pairs().take(i as int)),
        decreases len - i,
    {
        fields::push_pair(s, map.key_at(i), map.value_at(i));
        proof {
            lemma_pairs_text_push(map.pairs(), i as int);
        }
        i = i + 1;
        assert(s@ =~= start + pairs_text(map.pairs().take(i as int)));
    }
    assert(map.pairs().take(len as int) =~= map.pairs());
}

/// Appends ` key=value` for each pair.
pub(crate) fn write_pairs(s: &mut String, pairs: &[(&str, &str)])
    ensures
        final(s)@ == old(s)@ + pairs_text(str_pairs(pairs@)),
{
    let ghost start = s@;
    let ghost all = str_pairs(pairs@);
    let mut i: usize = 0;
    assert(s@ =~= start + pairs_text(all.take(0)));
    while i < pairs.len()
        invariant
            i <= pairs@.len(),
            all == str_pairs(pairs@),
            s@ == start + pairs_text(all.take(i as int)),
        decreases pairs@.len() - i,
    {
        fields::push_pair(s, pairs[i].0, pairs[i].1);
        proof {
            lemma_pairs_text_push(all, i as int);
        }
        i = i + 1;
        assert(s@ =~= start + pairs_text(all.take(i as int)));
    }
    assert(all.take(pairs@.len() as int) =~= all);
}

/// Appends the message and the source location.
pub(crate) fn write_message(s: &mut String, message: &str, file: Option<&str>, line: Option<u32>)
    ensures
        final(s)@ == old(s)@ + seq![' '] + message@ + location_text(str_text(file), line),
{
    let ghost start = s@;
    s.push(' ');
    s.append(message);
    match file {
        Some(file) => {
            s.push('\n');
            s.append("   --> ");
            s.append(file);
            match line {
                Some(line) => {
                    s.push(':');
                    let digits = text::format_integer(line as i128);
                    s.append(digits.as_str());
                },
                None => {},
            }
            proof {
                reveal_strlit("   --> ");
            }
        },
        None => {},
    }
    assert(s@ =~= start + seq![' '] + message@ + location_text(str_text(file), line));
}

/// The text of an optional string slice.
pub open spec fn str_text(value: Option<&str>) -> Option<Seq<char>> {
    match value {
        Some(s) => Some(s@),
        None => None,
    }
}

/// Text that grows piece by piece behind a start.
pub proof fn lemma_grow(start: Seq<char>, grown: Seq<char>, piece: Seq<char>)
    ensures
        start + grown + piece == start + (grown + piece),
{
    assert(start + grown + piece =~= start + (grown + piece));
}

proof fn lemma_grow_members(
    start: Seq<char>,
    members: Seq<json::JsonMember>,
    next: Seq<json::JsonMember>,
)
    ensures
        start + json::more_members_text(members) + json::more_members_text(next) == start
            + json::more_members_text(members + next),
{
    lemma_more_members_concat(members, next);
    lemma_grow(start, json::more_members_text(members), json::more_members_text(next));
}

fn push_member(s: &mut String, key: &str, value: &str)
    ensures
        final(s)@ == old(s)@ + json::more_members_text(seq![(key@, json::JsonValue::Text(value@))]),
{
    let ghost start = s@;
    json::push_text_member(s, key, value);
    proof {
        lemma_one_member((key@, json::JsonValue::Text(value@)));
        assert(s@ =~= start + json::more_members_text(
            seq![(key@, json::JsonValue::Text(value@))],
        ));
    }
}

fn push_optional_member(s: &mut String, key: &str, value: &Option<String>)
    ensures
        final(s)@ == old(s)@ + json::more_members_text(
            optional_member(key@, context::text_of(*value)),
        ),
{
    match value {
        Some(v) => {
            push_member(s, key, v.as_str());
        },
        None => {
            proof {
                lemma_one_member((key@, json::JsonValue::Flag(true)));
            }
            assert(s@ + Seq::<char>::empty() =~= s@);
        },
    }
}

/// Appends the start of a JSON line, up to the additional members.
pub(crate) fn write_known_members<R: RequestFields>(
    s: &mut String,
    level: LogLevel,
    audience: LogAudience,
    trace_id: &Option<String>,
    span_id: &Option<String>,
    feature: &Option<String>,
    function: &Option<String>,
    request: &R,
    error_code: &Option<String>,
    error_category: &Option<String>,
    line: Ghost<Line>,
)
    requires
        line@.level == level,
        line@.audience == audience,
        line@.trace_id == context::text_of(*trace_id),
        line@.span_id == context::text_of(*span_id),
        line@.feature == context::text_of(*feature),
        line@.function == context::text_of(*function),
        line@.request == request.json_fields(),
        line@.error_code == context::text_of(*error_code),
        line@.error_category == context::text_of(*error_category),
    ensures
        final(s)@ == old(s)@ + json::more_members_text(known_members(line@)),
{
    let ghost start = s@;
    let ghost m1 = seq![("level"@, json::JsonValue::Text(level.name()))];
    let ghost m2 = m1 + seq![("audience"@, json::JsonValue::Text(audience.name()))];
    let ghost m3 = m2 + optional_member("trace_id"@, line@.trace_id);
    let ghost m4 = m3 + optional_member("span_id"@, line@.span_id);
    let ghost m5 = m4 + optional_member("feature"@, line@.feature);
    let ghost m6 = m5 + optional_member("fn"@, line@.function);
    let ghost m7 = m6 + fields::json_members(line@.request);
    let ghost m8 = m7 + optional_member("error_code"@, line@.error_code);
    push_member(s, "level", level.as_str());
    push_member(s, "audience", audience.as_str());
    push_optional_member(s, "trace_id", trace_id);
    push_optional_member(s, "span_id", span_id);
    push_optional_member(s, "feature", feature);
    push_optional_member(s, "fn", function);
    let mut writer = JsonFieldWriter::new();
    request.write_json(&mut writer);
    assert(writer.fields() =~= request.json_fields());
    let request_text = writer.finish();
    s.append(request_text.as_str());
    push_optional_member(s, "error_code", error_code);
    push_optional_member(s, "error_category", error_category);
    proof {
        lemma_grow_members(
            start,
            m1,
            seq![("audience"@, json::JsonValue::Text(audience.name()))],
        );
        lemma_grow_members(start, m2, optional_member("trace_id"@, line@.trace_id));
        lemma_grow_members(start, m3, optional_member("span_id"@, line@.span_id));
        lemma_grow_members(start, m4, optional_member("feature"@, line@.feature));
        lemma_grow_members(start, m5, optional_member("fn"@, line@.function));
        lemma_grow_members(start, m6, fields::json_members(line@.request));
        lemma_grow_members(start, m7, optional_member("error_code"@, line@.error_code));
        lemma_grow_members(start, m8, optional_member("error_category"@, line@.error_category));
        assert(m2 =~= seq![
            ("level"@, json::JsonValue::Text(level.name())),
            ("audience"@, json::JsonValue::Text(audience.name())),
        ]);
    }
}

/// Appends a member for each entry of a map.
pub(crate) fn write_map_members(s: &mut String, map: &FieldMap)
    ensures
        final(s)@ == old(s)@ + json::more_members_text(pair_members(map.pairs())),
{
    let ghost start = s@;
    let ghost all = pair_members(map.pairs());
    let len: usize = map.len();
    let mut i: usize = 0;
    assert(s@ =~= start + json::more_members_text(all.take(0)));
    while i < len
        invariant
            i <= len,
            len == map.pairs().len(),
            all == pair_members(map.pairs()),
            s@ == start + json::more_members_text(all.take(i as int)),
        decreases len - i,
    {
        json::push_text_member(s, map.key_at(i), map.value_at(i));
        i = i + 1;
        assert(all.take(i as int).drop_last() =~= all.take(i - 1));
        assert(s@ =~= start + json::more_members_text(all.take(i as int)));
    }
    assert(all.take(len as int) =~= all);
}

/// Appends a member for each pair.
pub(crate) fn write_pair_members(s: &mut String, pairs: &[(&str, &str)])
    ensures
        final(s)@ == old(s)@ + json::more_members_text(pair_members(str_pairs(pairs@))),
{
    let ghost start = s@;
    let ghost all = pair_members(str_pairs(pairs@));
    let mut i: usize = 0;
    assert(s@ =~= start + json::more_members_text(all.take(0)));
    while i < pairs.len()
        invariant
            i <= pairs@.len(),
            all == pair_members(str_pairs(pairs@)),
            s@ == start + json::more_members_text(all.take(i as int)),
        decreases pairs@.len() - i,
    {
        json::push_text_member(s, pairs[i].0, pairs[i].1);
        i = i + 1;
        assert(all.take(i as int).drop_last() =~= all.take(i - 1));
        assert(s@ =~= start + json::more_members_text(all.take(i as int)));
    }
    assert(all.take(pairs@.len() as int) =~= all);
}

/// Appends the members of the source location and of the message.
pub(crate) fn write_message_members(
    s: &mut String,
    message: &str,
    file: Option<&str>,
    line: Option<u32>,
)
    ensures
        final(s)@ == old(s)@ + json::more_members_text(
            location_members(str_text(file), line) + seq![
                ("msg"@, json::JsonValue::Text(message@)),
            ],
        ),
{
    let ghost start = s@;
    let ghost location = location_members(str_text(file), line);
    match file {
        Some(f) => {
            push_member(s, "file", f);
            match line {
                Some(l) => {
                    json::push_integer_member(s, "line", l as i128);
                    proof {
                        let number = ("line"@, json::JsonValue::Integer(l as int));
                        lemma_one_member(number);
                        lemma_more_members_concat(
                            seq![("file"@, json::JsonValue::Text(f@))],
                            seq![number],
                        );
                        assert(s@ =~= start + json::more_members_text(location));
                    }
                },
                None => {
                    assert(location =~= seq![("file"@, json::JsonValue::Text(f@))]);
                },
            }
        },
        None => {
            assert(s@ =~= start + json::more_members_text(location));
        },
    }
    assert(s@ == start + json::more_members_text(location));
    push_member(s, "msg", message);
    proof {
        lemma_more_members_concat(location, seq![("msg"@, json::JsonValue::Text(message@))]);
        assert(s@ =~= start + json::more_members_text(
            location + seq![("msg"@, json::JsonValue::Text(message@))],
        ));
    }
}

/// Appends the start of a JSON line: the brace and the time.
pub(crate) fn write_json_start(s: &mut String, time: &str)
    requires
        forall|i: int| 0 <= i < time@.len() ==> json::is_plain(#[trigger] time@[i]),
    ensures
        final(s)@ == old(s)@ + seq!['{'] + json::member_text(
            ("ts"@, json::JsonValue::Text(time@)),
        ),
{
    let ghost start = s@;
    s.append("{\"ts\":\"");
    s.append(time);
    s.push('"');
    proof {
        reveal_strlit("{\"ts\":\"");
        reveal_strlit("ts");
        json::law_plain_text_is_unchanged(time@);
        json::law_plain_text_is_unchanged("ts"@);
        assert(s@ =~= start + seq!['{'] + json::member_text(
            ("ts"@, json::JsonValue::Text(time@)),
        ));
    }
}

/// The pieces of a JSON line, put together.
pub proof fn lemma_json_line_pieces(line: Line)
    ensures
        json_line(line) == seq!['{'] + json::member_text(("ts"@, json::JsonValue::Text(line.time)))
            + json::more_members_text(known_members(line)) + json::more_members_text(
            pair_members(line.additional),
        ) + json::more_members_text(
            location_members(line.file, line.line) + seq![
                ("msg"@, json::JsonValue::Text(line.message)),
            ],
        ) + seq!['}'],
{
    let known = known_members(line);
    let pairs = pair_members(line.additional);
    let tail = location_members(line.file, line.line) + seq![
        ("msg"@, json::JsonValue::Text(line.message)),
    ];
    let rest = known + pairs + location_members(line.file, line.line) + seq![
        ("msg"@, json::JsonValue::Text(line.message)),
    ];
    assert(rest =~= known + pairs + tail);
    lemma_more_members_concat(known, pairs);
    lemma_more_members_concat(known + pairs, tail);
    json::lemma_members_text_append(("ts"@, json::JsonValue::Text(line.time)), rest);
    assert(json_line(line) =~= seq!['{'] + json::member_text(
        ("ts"@, json::JsonValue::Text(line.time)),
    ) + json::more_members_text(known) + json::more_members_text(pairs)
        + json::more_members_text(tail) + seq!['}']);
}

/// Pieces that are put behind a start, one after the other, are those pieces put together behind it.
pub proof fn lemma_regroup_pieces(
    start: Seq<char>,
    front: Seq<char>,
    time: Seq<char>,
    known: Seq<char>,
    own: Seq<char>,
    more: Seq<char>,
    tail: Seq<char>,
    back: Seq<char>,
)
    ensures
        start + front + time + known + own + more + tail + back == start + (front + time + known + (
        own + more) + tail + back),
{
    assert(start + front + time + known + own + more + tail + back =~= start + (front + time + known
        + (own + more) + tail + back));
}

pub proof fn lemma_pair_members_concat(
    a: Seq<(Seq<char>, Seq<char>)>,
    b: Seq<(Seq<char>, Seq<char>)>,
)
    ensures
        json::more_members_text(pair_members(a + b)) == json::more_members_text(pair_members(a))
            + json::more_members_text(pair_members(b)),
{
    assert(pair_members(a + b) =~= pair_members(a) + pair_members(b));
    lemma_more_members_concat(pair_members(a), pair_members(b));
}

proof fn lemma_request_text_shows(request: Seq<Field>, i: int)
    requires
        0 <= i < request.len(),
    ensures
        shows_field(
            fields::display_text(request),
            request[i].0,
            Some(fields::value_text(request[i].1)),
        ),
    decreases request.len(),
{
    let front = request.drop_last();
    let last = fields::pair_text(request.last().0, fields::value_text(request.last().1));
    let none = Seq::<char>::empty();
    if i == front.len() {
        lemma_shows(fields::display_text(front), last, none);
        assert(fields::display_text(front) + last + none =~= fields::display_text(request));
    } else {
        lemma_request_text_shows(front, i);
        lemma_field_shows_more(
            none,
            fields::display_text(front),
            last,
            request[i].0,
            Some(fields::value_text(request[i].1)),
        );
        assert(none + fields::display_text(front) + last =~= fields::display_text(request));
    }
}

/// A display line shows every request field under its own key.
pub proof fn law_display_line_shows_request_fields(line: Line, i: int)
    requires
        0 <= i < line.request.len(),
    ensures
        shows_field(
            display_line(line),
            line.request[i].0,
            Some(fields::value_text(line.request[i].1)),
        ),
{
    let before = header_text(line.time, line.level, line.audience) + (optional_pair(
        "trace_id"@,
        line.trace_id,
    ) + optional_pair("span_id"@, line.span_id) + optional_pair("feature"@, line.feature)
        + optional_pair("fn"@, line.function));
    let shown = fields::display_text(line.request);
    let behind = optional_pair("error"@, line.error_code) + pairs_text(line.additional) + seq![' ']
        + line.message + location_text(line.file, line.line);
    assert(display_line(line) =~= before + shown + behind);
    lemma_request_text_shows(line.request, i);
    lemma_field_shows_more(
        before,
        shown,
        behind,
        line.request[i].0,
        Some(fields::value_text(line.request[i].1)),
    );
}

}
