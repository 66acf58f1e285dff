//! JSON text: escaping, flat objects, and the reading of them.
//!
//! A log line in JSON is a flat object whose values are strings, integers and booleans. The
//! writing side is executable; the reading side is a specification, and `law_object_reads_back`
//! ties the two together.

use vstd::prelude::*;

use crate::text;

verus! {

/// A value of a flat JSON object.
pub enum JsonValue {
    Text(Seq<char>),
    Integer(int),
    Flag(bool),
}

/// A member of a flat JSON object: its key and its value.
pub type JsonMember = (Seq<char>, JsonValue);

/// The lower-case hexadecimal digit of a value below sixteen.
pub open spec fn hex_digit(d: int) -> char {
    if d < 10 {
        (48 + d) as char
    } else {
        (87 + d) as char
    }
}

/// Whether a character stands for itself inside a JSON string.
pub open spec fn is_plain(c: char) -> bool {
    c as u32 >= 0x20 && c != '"' && c != '\\'
}

/// How one character is written inside a JSON string.
pub open spec fn escape_char(c: char) -> Seq<char> {
    if c == '"' {
        seq!['\\', '"']
    } else if c == '\\' {
        seq!['\\', '\\']
    } else if c == '\n' {
        seq!['\\', 'n']
    } else if c == '\r' {
        seq!['\\', 'r']
    } else if c == '\t' {
        seq!['\\', 't']
    } else if (c as u32) < 0x20 {
        seq!['\\', 'u', '0', '0', hex_digit(c as u32 as int / 16), hex_digit(
            c as u32 as int % 16,
        )]
    } else {
        seq![c]
    }
}

/// How a text is written inside a JSON string: character by character.
pub open spec fn escaped(s: Seq<char>) -> Seq<char>
    decreases s.len(),
{
    if s.len() == 0 {
        Seq::empty()
    } else {
        escape_char(s[0]) + escaped(s.drop_first())
    }
}

/// The JSON text of a value.
pub open spec fn value_text(value: JsonValue) -> Seq<char> {
    match value {
        JsonValue::Text(t) => seq!['"'] + escaped(t) + seq!['"'],
        JsonValue::Integer(n) => text::decimal(n),
        JsonValue::Flag(b) => if b {
            seq!['t', 'r', 'u', 'e']
        } else {
            seq!['f', 'a', 'l', 's', 'e']
        },
    }
}

/// The JSON text of a member.
pub open spec fn member_text(member: JsonMember) -> Seq<char> {
    seq!['"'] + escaped(member.0) + seq!['"', ':'] + value_text(member.1)
}

/// The JSON text of the members of an object, separated by commas.
pub open spec fn members_text(members: Seq<JsonMember>) -> Seq<char>
    decreases members.len(),
{
    if members.len() == 0 {
        Seq::empty()
    } else if members.len() == 1 {
        member_text(members[0])
    } else {
        member_text(members[0]) + seq![','] + members_text(members.drop_first())
    }
}

/// The JSON text of a flat object.
pub open spec fn object_text(members: Seq<JsonMember>) -> Seq<char> {
    seq!['{'] + members_text(members) + seq!['}']
}

/// The JSON text of further members of an object that already has one: each with its comma.
pub open spec fn more_members_text(members: Seq<JsonMember>) -> Seq<char>
    decreases members.len(),
{
    if members.len() == 0 {
        Seq::empty()
    } else {
        more_members_text(members.drop_last()) + seq![','] + member_text(members.last())
    }
}

pub open spec fn hex_value(c: char) -> Option<int> {
    if '0' <= c <= '9' {
        Some(c as int - 48)
    } else if 'a' <= c <= 'f' {
        Some(c as int - 87)
    } else if 'A' <= c <= 'F' {
        Some(c as int - 55)
    } else {
        None
    }
}

/// Reads one character of a JSON string: the character and the length of its text.
pub open spec fn read_char(s: Seq<char>) -> Option<(char, int)> {
    if s.len() == 0 {
        None
    } else if s[0] == '\\' {
        if s.len() < 2 {
            None
        } else if s[1] == '"' || s[1] == '\\' || s[1] == '/' {
            Some((s[1], 2))
        } else if s[1] == 'n' {
            Some(('\n', 2))
        } else if s[1] == 'r' {
            Some(('\r', 2))
        } else if s[1] == 't' {
            Some(('\t', 2))
        } else if s[1] == 'b' {
            Some(('\u{8}', 2))
        } else if s[1] == 'f' {
            Some(('\u{c}', 2))
        } else if s[1] == 'u' && s.len() >= 6 {
            match (hex_value(s[2]), hex_value(s[3]), hex_value(s[4]), hex_value(s[5])) {
                (Some(a), Some(b), Some(c), Some(d)) => {
                    let code = a * 4096 + b * 256 + c * 16 + d;
                    if 0xd800 <= code <= 0xdfff {
                        None
                    } else {
                        Some((code as char, 6))
                    }
                },
                _ => None,
            }
        } else {
            None
        }
    } else if is_plain(s[0]) {
        Some((s[0], 1))
    } else {
        None
    }
}

/// Reads a JSON string behind its opening quote: its text and what follows the closing quote.
pub open spec fn read_string(s: Seq<char>) -> Option<(Seq<char>, Seq<char>)>
    decreases s.len(),
{
    if s.len() == 0 {
        None
    } else if s[0] == '"' {
        Some((Seq::empty(), s.skip(1)))
    } else {
        match read_char(s) {
            Some((c, n)) => match read_string(s.skip(n)) {
                Some((t, rest)) => Some((seq![c] + t, rest)),
                None => None,
            },
            None => None,
        }
    }
}

pub open spec fn is_digit(c: char) -> bool {
    '0' <= c <= '9'
}

/// Reads the digits at the front of a text, in base ten, behind the value read so far.
pub open spec fn read_digits(value: nat, s: Seq<char>) -> (nat, Seq<char>)
    decreases s.len(),
{
    if s.len() > 0 && is_digit(s[0]) {
        read_digits((value * 10 + (s[0] as int - 48)) as nat, s.drop_first())
    } else {
        (value, s)
    }
}

/// Reads a JSON integer without a sign: no leading zeros, and at least one digit.
pub open spec fn read_natural(s: Seq<char>) -> Option<(nat, Seq<char>)> {
    if s.len() == 0 || !is_digit(s[0]) {
        None
    } else if s[0] == '0' && s.len() > 1 && is_digit(s[1]) {
        None
    } else {
        Some(read_digits(0, s))
    }
}

/// Reads a value: the value and what follows it.
pub open spec fn read_value(s: Seq<char>) -> Option<(JsonValue, Seq<char>)> {
    if s.len() == 0 {
        None
    } else if s[0] == '"' {
        match read_string(s.skip(1)) {
            Some((t, rest)) => Some((JsonValue::Text(t), rest)),
            None => None,
        }
    } else if s.len() >= 4 && s.take(4) == seq!['t', 'r', 'u', 'e'] {
        Some((JsonValue::Flag(true), s.skip(4)))
    } else if s.len() >= 5 && s.take(5) == seq!['f', 'a', 'l', 's', 'e'] {
        Some((JsonValue::Flag(false), s.skip(5)))
    } else if s[0] == '-' {
        match read_natural(s.skip(1)) {
            Some((n, rest)) => Some((JsonValue::Integer(-(n as int)), rest)),
            None => None,
        }
    } else {
        match read_natural(s) {
            Some((n, rest)) => Some((JsonValue::Integer(n as int), rest)),
            None => None,
        }
    }
}

/// Reads one member: the member and what follows it.
pub open spec fn read_member(s: Seq<char>) -> Option<(JsonMember, Seq<char>)> {
    if s.len() == 0 || s[0] != '"' {
        None
    } else {
        match read_string(s.skip(1)) {
            Some((key, rest)) => if rest.len() == 0 || rest[0] != ':' {
                None
            } else {
                match read_value(rest.skip(1)) {
                    Some((value, after)) => Some(((key, value), after)),
                    None => None,
                }
            },
            None => None,
        }
    }
}

/// Reads members up to the closing brace, which must be the end of the text.
pub open spec fn read_members(s: Seq<char>) -> Option<Seq<JsonMember>>
    decreases s.len(),
{
    match read_member(s) {
        Some((member, rest)) => if rest.len() >= s.len() {
            None
        } else if rest == seq!['}'] {
            Some(seq![member])
        } else if rest.len() > 0 && rest[0] == ',' {
            match read_members(rest.skip(1)) {
                Some(members) => Some(seq![member] + members),
                None => None,
            }
        } else {
            None
        },
        None => None,
    }
}

/// Reads a text as a flat JSON object: its members, in order.
pub open spec fn read_object(s: Seq<char>) -> Option<Seq<JsonMember>> {
    if s == seq!['{', '}'] {
        Some(Seq::empty())
    } else if s.len() > 0 && s[0] == '{' {
        read_members(s.skip(1))
    } else {
        None
    }
}

/// Escaping goes character by character, so pieces may be escaped one after the other.
pub proof fn law_escaped_concat(a: Seq<char>, b: Seq<char>)
    ensures
        escaped(a + b) == escaped(a) + escaped(b),
    decreases a.len(),
{
    if a.len() == 0 {
        assert(a + b =~= b);
        assert(escaped(a) + escaped(b) =~= escaped(b));
    } else {
        law_escaped_concat(a.drop_first(), b);
        assert((a + b).drop_first() =~= a.drop_first() + b);
        assert(escaped(a + b) =~= escaped(a) + escaped(b));
    }
}

/// A text of plain characters is its own escaped form.
pub proof fn law_plain_text_is_unchanged(s: Seq<char>)
    requires
        forall|i: int| 0 <= i < s.len() ==> is_plain(#[trigger] s[i]),
    ensures
        escaped(s) == s,
    decreases s.len(),
{
    if s.len() > 0 {
        assert forall|i: int| 0 <= i < s.drop_first().len() implies is_plain(
            #[trigger] s.drop_first()[i],
        ) by {
            assert(s.drop_first()[i] == s[i + 1]);
        }
        law_plain_text_is_unchanged(s.drop_first());
        assert(escaped(s) =~= s);
    }
}

proof fn lemma_read_escaped_char(c: char, rest: Seq<char>)
    ensures
        read_char(escape_char(c) + rest) == Some((c, escape_char(c).len() as int)),
        escape_char(c).len() > 0,
        escape_char(c)[0] != '"',
{
    let s = escape_char(c) + rest;
    let p = c as u32 as int;
    if p < 0x20 && c != '\n' && c != '\r' && c != '\t' {
        let hi = p / 16;
        let lo = p % 16;
        assert(hex_value(hex_digit(hi)) == Some(hi));
        assert(hex_value(hex_digit(lo)) == Some(lo));
        assert(hex_value('0') == Some(0int));
        assert(hi * 16 + lo == p);
        assert(s[4] == hex_digit(hi));
        assert(s[5] == hex_digit(lo));
    }
}

/// The text of one escaped character, and what follows it, reads as that character and what follows.
proof fn lemma_read_string_step(c: char, tail: Seq<char>)
    ensures
        read_string(escape_char(c) + tail) == match read_string(tail) {
            Some((t, rest)) => Some((seq![c] + t, rest)),
            None => None,
        },
{
    let e = escape_char(c);
    let s = e + tail;
    lemma_read_escaped_char(c, tail);
    assert(s.len() > 0);
    assert(s[0] == e[0]);
    assert(s.skip(e.len() as int) =~= tail);
}

proof fn lemma_regroup(a: Seq<char>, b: Seq<char>, c: Seq<char>, d: Seq<char>)
    ensures
        a + b + c + d == a + (b + c + d),
{
    assert(a + b + c + d =~= a + (b + c + d));
}

proof fn lemma_empty_string_reads_back(rest: Seq<char>)
    ensures
        read_string(Seq::<char>::empty() + seq!['"'] + rest) == Some((Seq::<char>::empty(), rest)),
{
    let s = Seq::<char>::empty() + seq!['"'] + rest;
    assert(s[0] == '"');
    assert(s.skip(1) =~= rest);
}

/// A JSON string reads back as the text that was escaped, and ends at its closing quote.
pub proof fn law_string_reads_back(t: Seq<char>, rest: Seq<char>)
    ensures
        read_string(escaped(t) + seq!['"'] + rest) == Some((t, rest)),
    decreases t.len(),
{
    if t.len() == 0 {
        lemma_empty_string_reads_back(rest);
        assert(t =~= Seq::<char>::empty());
    } else {
        let tail = escaped(t.drop_first()) + seq!['"'] + rest;
        law_string_reads_back(t.drop_first(), rest);
        lemma_read_string_step(t[0], tail);
        lemma_regroup(escape_char(t[0]), escaped(t.drop_first()), seq!['"'], rest);
        assert(seq![t[0]] + t.drop_first() =~= t);
    }
}

proof fn lemma_decimal_nat_digits(n: nat)
    ensures
        text::decimal_nat(n).len() > 0,
        is_digit(text::decimal_nat(n)[0]),
        text::decimal_nat(n)[0] == '0' ==> n == 0 && text::decimal_nat(n).len() == 1,
    decreases n,
{
    if n >= 10 {
        lemma_decimal_nat_digits(n / 10);
    }
}

proof fn lemma_read_decimal(n: nat, rest: Seq<char>)
    ensures
        read_digits(0, text::decimal_nat(n) + rest) == read_digits(n, rest),
    decreases n,
{
    let s = text::decimal_nat(n) + rest;
    if n < 10 {
        assert(s.drop_first() =~= rest);
    } else {
        let d = text::digit((n % 10) as int);
        lemma_read_decimal(n / 10, seq![d] + rest);
        assert(s =~= text::decimal_nat(n / 10) + (seq![d] + rest));
        assert((seq![d] + rest).drop_first() =~= rest);
    }
}

proof fn lemma_value_reads_back(value: JsonValue, rest: Seq<char>)
    requires
        rest.len() > 0,
        !is_digit(rest[0]),
    ensures
        read_value(value_text(value) + rest) == Some((value, rest)),
        value_text(value).len() > 0,
{
    let s = value_text(value) + rest;
    match value {
        JsonValue::Text(t) => {
            law_string_reads_back(t, rest);
            assert(s.skip(1) =~= escaped(t) + seq!['"'] + rest);
        },
        JsonValue::Integer(n) => {
            let m = (if n < 0 {
                -n
            } else {
                n
            }) as nat;
            lemma_decimal_nat_digits(m);
            lemma_read_decimal(m, rest);
            let tail = text::decimal_nat(m) + rest;
            assert(read_digits(m, rest) == (m, rest));
            if tail[0] == '0' {
                assert(tail[1] == rest[0]);
            }
            if n < 0 {
                assert(s.skip(1) =~= tail);
            } else {
                assert(s =~= tail);
            }
            assert(s.len() >= 4 ==> s.take(4)[0] == s[0]);
            assert(s.len() >= 5 ==> s.take(5)[0] == s[0]);
        },
        JsonValue::Flag(b) => {
            if b {
                assert(s.take(4) =~= seq!['t', 'r', 'u', 'e']);
                assert(s.skip(4) =~= rest);
            } else {
                assert(s.take(4)[0] == 'f');
                assert(s.take(5) =~= seq!['f', 'a', 'l', 's', 'e']);
                assert(s.skip(5) =~= rest);
            }
        },
    }
}

proof fn lemma_member_reads_back(member: JsonMember, rest: Seq<char>)
    requires
        rest.len() > 0,
        !is_digit(rest[0]),
    ensures
        read_member(member_text(member) + rest) == Some((member, rest)),
        member_text(member).len() > 0,
{
    let s = member_text(member) + rest;
    let after_key = seq![':'] + value_text(member.1) + rest;
    law_string_reads_back(member.0, after_key);
    assert(s.skip(1) =~= escaped(member.0) + seq!['"'] + after_key);
    lemma_value_reads_back(member.1, rest);
    assert(after_key.skip(1) =~= value_text(member.1) + rest);
}

proof fn lemma_members_read_back(members: Seq<JsonMember>)
    requires
        members.len() > 0,
    ensures
        read_members(members_text(members) + seq!['}']) == Some(members),
    decreases members.len(),
{
    let s = members_text(members) + seq!['}'];
    if members.len() == 1 {
        lemma_member_reads_back(members[0], seq!['}']);
        assert(seq![members[0]] =~= members);
    } else {
        let tail = members_text(members.drop_first()) + seq!['}'];
        let rest = seq![','] + tail;
        lemma_member_reads_back(members[0], rest);
        assert(s =~= member_text(members[0]) + rest);
        lemma_members_read_back(members.drop_first());
        assert(rest.skip(1) =~= tail);
        assert(rest[0] == ',');
        assert(rest != seq!['}']);
        assert(seq![members[0]] + members.drop_first() =~= members);
    }
}

/// A flat object reads back as exactly the members that were written, in order.
pub proof fn law_object_reads_back(members: Seq<JsonMember>)
    ensures
        read_object(object_text(members)) == Some(members),
{
    let s = object_text(members);
    if members.len() == 0 {
        assert(s =~= seq!['{', '}']);
        assert(members =~= Seq::<JsonMember>::empty());
    } else {
        lemma_members_read_back(members);
        assert(s.skip(1) =~= members_text(members) + seq!['}']);
        if s == seq!['{', '}'] {
            lemma_member_reads_back(members[0], seq!['}']);
            assert(members_text(members).len() > 0);
            assert(s.len() > 2);
        }
    }
}

/// Members may be appended one by one, each behind a comma.
pub proof fn lemma_members_text_append(first: JsonMember, more: Seq<JsonMember>)
    ensures
        members_text(seq![first] + more) == member_text(first) + more_members_text(more),
    decreases more.len(),
{
    if more.len() == 0 {
        assert(seq![first] + more =~= seq![first]);
        assert(member_text(first) + more_members_text(more) =~= member_text(first));
    } else {
        lemma_members_text_push(seq![first] + more.drop_last(), more.last());
        lemma_members_text_append(first, more.drop_last());
        assert(seq![first] + more =~= (seq![first] + more.drop_last()).push(more.last()));
        assert(member_text(first) + more_members_text(more) =~= members_text(
            seq![first] + more.drop_last(),
        ) + seq![','] + member_text(more.last()));
    }
}

proof fn lemma_members_text_push(members: Seq<JsonMember>, next: JsonMember)
    requires
        members.len() > 0,
    ensures
        members_text(members.push(next)) == members_text(members) + seq![','] + member_text(next),
    decreases members.len(),
{
    if members.len() == 1 {
        assert(members.push(next).drop_first() =~= seq![next]);
        assert(members_text(seq![next]) == member_text(next));
    } else {
        lemma_members_text_push(members.drop_first(), next);
        assert(members.push(next).drop_first() =~= members.drop_first().push(next));
        assert(members_text(members.push(next)) =~= members_text(members) + seq![',']
            + member_text(next));
    }
}

/// Appends a text to the buffer as it is written inside a JSON string.
///
/// Escapes `"`, `\` and the control characters below 0x20; every other character is written as it
/// is.
pub fn write_json_escaped(buf: &mut String, s: &str)
    ensures
        final(buf)@ == old(buf)@ + escaped(s@),
{
    let ghost start = buf@;
    assert(start + escaped(s@.take(0)) =~= start);
    for c in it: s.chars()
        invariant
            it.seq() == s@,
            buf@ == start + escaped(s@.take(it.index() as int)),
    {
        let ghost done = s@.take(it.index() as int);
        push_escaped(buf, c);
        proof {
            law_escaped_concat(done, seq![c]);
            assert(seq![c].drop_first() =~= Seq::<char>::empty());
            assert(escaped(Seq::<char>::empty()) =~= Seq::<char>::empty());
            assert(escaped(seq![c]) =~= escape_char(c));
            assert(s@.take(it.index() + 1) =~= done + seq![c]);
            assert(buf@ =~= start + escaped(s@.take(it.index() + 1)));
        }
    }
    assert(s@.take(s@.len() as int) =~= s@);
}

fn push_escaped(buf: &mut String, c: char)
    ensures
        final(buf)@ == old(buf)@ + escape_char(c),
{
    let ghost start = buf@;
    let code: u32 = c as u32;
    if c == '"' {
        buf.push('\\');
        buf.push('"');
    } else if c == '\\' {
        buf.push('\\');
        buf.push('\\');
    } else if c == '\n' {
        buf.push('\\');
        buf.push('n');
    } else if c == '\r' {
        buf.push('\\');
        buf.push('r');
    } else if c == '\t' {
        buf.push('\\');
        buf.push('t');
    } else if code < 0x20 {
        buf.push('\\');
        buf.push('u');
        buf.push('0');
        buf.push('0');
        buf.push(hex_char((code / 16) as u8));
        buf.push(hex_char((code % 16) as u8));
    } else {
        buf.push(c);
    }
    assert(buf@ =~= start + escape_char(c));
}

/// The lower-case hexadecimal digit of a value below sixteen.
pub(crate) fn hex_char(nibble: u8) -> (c: char)
    requires
        nibble < 16,
    ensures
        c == hex_digit(nibble as int),
{
    if nibble < 10 {
        (48 + nibble) as char
    } else {
        (87 + nibble) as char
    }
}

/// Appends a string member behind a comma.
pub(crate) fn push_text_member(buf: &mut String, key: &str, value: &str)
    ensures
        final(buf)@ == old(buf)@ + seq![','] + member_text((key@, JsonValue::Text(value@))),
{
    let ghost start = buf@;
    buf.push(',');
    buf.push('"');
    write_json_escaped(buf, key);
    buf.push('"');
    buf.push(':');
    buf.push('"');
    write_json_escaped(buf, value);
    buf.push('"');
    assert(buf@ =~= start + seq![','] + member_text((key@, JsonValue::Text(value@))));
}

/// Appends an integer member behind a comma.
pub(crate) fn push_integer_member(buf: &mut String, key: &str, value: i128)
    ensures
        final(buf)@ == old(buf)@ + seq![','] + member_text(
            (key@, JsonValue::Integer(value as int)),
        ),
{
    let ghost start = buf@;
    buf.push(',');
    buf.push('"');
    write_json_escaped(buf, key);
    buf.push('"');
    buf.push(':');
    let digits = text::format_integer(value);
    buf.append(digits.as_str());
    assert(buf@ =~= start + seq![','] + member_text((key@, JsonValue::Integer(value as int))));
}

/// Appends a boolean member behind a comma.
pub(crate) fn push_flag_member(buf: &mut String, key: &str, value: bool)
    ensures
        final(buf)@ == old(buf)@ + seq![','] + member_text((key@, JsonValue::Flag(value))),
{
    let ghost start = buf@;
    buf.push(',');
    buf.push('"');
    write_json_escaped(buf, key);
    buf.push('"');
    buf.push(':');
    if value {
        buf.append("true");
    } else {
        buf.append("false");
    }
    proof {
        reveal_strlit("true");
        reveal_strlit("false");
    }
    assert(buf@ =~= start + seq![','] + member_text((key@, JsonValue::Flag(value))));
}

}
