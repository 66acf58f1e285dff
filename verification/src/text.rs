//! Text building blocks: decimal and hexadecimal digits, padding, trimming and comparison.
//!
//! Text is modelled as the sequence of its characters, which is the view of `str` and `String`.

use vstd::prelude::*;

verus! {

/// `String::push` appends one character to the end of the text.
pub assume_specification[ String::push ](s: &mut String, c: char)
    ensures
        final(s)@ == old(s)@.push(c),
;

/// The decimal digit of a value below ten.
pub open spec fn digit(d: int) -> char {
    (48 + d) as char
}

/// A natural number in base ten, without leading zeros.
pub open spec fn decimal_nat(n: nat) -> Seq<char>
    decreases n,
{
    if n < 10 {
        seq![digit(n as int)]
    } else {
        decimal_nat(n / 10).push(digit((n % 10) as int))
    }
}

/// An integer in base ten, with a leading minus sign where it is negative.
pub open spec fn decimal(n: int) -> Seq<char> {
    if n < 0 {
        seq!['-'] + decimal_nat((-n) as nat)
    } else {
        decimal_nat(n as nat)
    }
}

/// A run of `n` zero digits.
pub open spec fn zeros(n: int) -> Seq<char> {
    Seq::new(
        if n < 0 {
            0
        } else {
            n as nat
        },
        |i: int| '0',
    )
}

/// A natural number in base ten, padded on the left with zeros to at least `width` digits.
pub open spec fn padded(n: nat, width: nat) -> Seq<char> {
    zeros(width - decimal_nat(n).len()) + decimal_nat(n)
}

/// `itoa::Buffer::format` prints an integer in base ten, with a minus sign in front of a negative
/// one.
#[verifier::external_body]
pub(crate) fn format_integer(value: i128) -> (text: String)
    ensures
        text@ == decimal(value as int),
{
    let mut buffer = itoa::Buffer::new();
    buffer.format(value).to_string()
}

pub proof fn lemma_decimal_len(n: nat)
    ensures
        decimal_nat(n).len() >= 1,
        n < 10 <==> decimal_nat(n).len() == 1,
        10 <= n < 100 <==> decimal_nat(n).len() == 2,
        100 <= n < 1000 <==> decimal_nat(n).len() == 3,
        1000 <= n <==> decimal_nat(n).len() >= 4,
        n < 10000 ==> decimal_nat(n).len() <= 4,
    decreases n,
{
    if n >= 10 {
        lemma_decimal_len(n / 10);
    }
}

/// Appends `value` in base ten, padded on the left with zeros to at least `width` digits.
pub(crate) fn append_padded(buf: &mut String, value: u32, width: usize)
    requires
        width <= 4,
    ensures
        final(buf)@ == old(buf)@ + padded(value as nat, width as nat),
{
    let digits: usize = digit_count(value as u64) as usize;
    let ghost start = buf@;
    proof {
        lemma_decimal_len(value as nat);
    }
    let mut written: usize = digits;
    while written < width
        invariant
            digits <= written,
            digits <= width ==> written <= width,
            digits > width ==> written == digits,
            width <= 4,
            buf@ == start + zeros(written - digits),
        decreases width - written,
    {
        buf.append("0");
        proof {
            reveal_strlit("0");
        }
        written = written + 1;
        assert(zeros(written - digits) =~= zeros(written - 1 - digits).push('0'));
        assert(buf@ =~= start + zeros(written - digits));
    }
    assert(zeros(width - decimal_nat(value as nat).len()) =~= zeros(written - digits));
    let number = format_integer(value as i128);
    buf.append(number.as_str());
    assert(buf@ =~= start + padded(value as nat, width as nat));
}

/// The number of decimal digits of `n`, counted up to four.
pub fn digit_count(n: u64) -> (count: u32)
    ensures
        n < 1000 ==> count == decimal_nat(n as nat).len(),
        n >= 1000 ==> count == 4,
{
    proof {
        lemma_decimal_len(n as nat);
    }
    if n <= 9 {
        1
    } else if n <= 99 {
        2
    } else if n <= 999 {
        3
    } else {
        4
    }
}

/// The characters of a text, one by one.
pub(crate) fn to_chars(s: &str) -> (chars: Vec<char>)
    ensures
        chars@ == s@,
{
    let mut chars: Vec<char> = Vec::new();
    for c in it: s.chars()
        invariant
            chars@ == s@.take(it.index() as int),
            it.seq() == s@,
    {
        chars.push(c);
        assert(s@.take(it.index() + 1) =~= s@.take(it.index() as int).push(c));
    }
    assert(s@.take(s@.len() as int) =~= s@);
    chars
}

/// The text of characters.
pub(crate) fn to_text(chars: &Vec<char>) -> (s: String)
    ensures
        s@ == chars@,
{
    let mut s = String::new();
    let mut i: usize = 0;
    while i < chars.len()
        invariant
            i <= chars@.len(),
            s@ == chars@.take(i as int),
        decreases chars@.len() - i,
    {
        s.push(chars[i]);
        i = i + 1;
        assert(s@ =~= chars@.take(i as int));
    }
    assert(s@ =~= chars@);
    s
}

/// Whether two texts hold the same characters.
pub(crate) fn same_text(a: &str, b: &str) -> (same: bool)
    ensures
        same == (a@ == b@),
{
    let left = to_chars(a);
    let right = to_chars(b);
    same_chars(&left, &right)
}

fn same_chars(a: &Vec<char>, b: &Vec<char>) -> (same: bool)
    ensures
        same == (a@ == b@),
{
    if a.len() != b.len() {
        return false;
    }
    let mut i: usize = 0;
    while i < a.len()
        invariant
            a.len() == b.len(),
            i <= a.len(),
            forall|j: int| 0 <= j < i ==> a@[j] == b@[j],
        decreases a.len() - i,
    {
        if a[i] != b[i] {
            assert(a@[i as int] != b@[i as int]);
            return false;
        }
        i = i + 1;
    }
    assert(a@ =~= b@);
    true
}

/// The lower-case form of an ASCII letter; every other character stays as it is.
pub open spec fn ascii_lower(c: char) -> char {
    if 'A' <= c <= 'Z' {
        (c as int + 32) as char
    } else {
        c
    }
}

/// Whether two texts are the same once ASCII letters are in lower case.
pub open spec fn same_ignoring_case(a: Seq<char>, b: Seq<char>) -> bool {
    a.len() == b.len() && forall|i: int|
        0 <= i < a.len() ==> ascii_lower(#[trigger] a[i]) == ascii_lower(b[i])
}

fn to_ascii_lower(c: char) -> (lower: char)
    ensures
        lower == ascii_lower(c),
{
    if 'A' <= c && c <= 'Z' {
        ((c as u8) + 32) as char
    } else {
        c
    }
}

/// Whether `a` is `b`, letters of either case being the same.
pub(crate) fn eq_ignore_case(a: &Vec<char>, b: &str) -> (same: bool)
    ensures
        same == same_ignoring_case(a@, b@),
{
    let other = to_chars(b);
    if a.len() != other.len() {
        return false;
    }
    let mut i: usize = 0;
    while i < a.len()
        invariant
            a.len() == other.len(),
            i <= a.len(),
            other@ == b@,
            forall|j: int| 0 <= j < i ==> ascii_lower(#[trigger] a@[j]) == ascii_lower(b@[j]),
        decreases a.len() - i,
    {
        if to_ascii_lower(a[i]) != to_ascii_lower(other[i]) {
            assert(ascii_lower(a@[i as int]) != ascii_lower(b@[i as int]));
            return false;
        }
        i = i + 1;
    }
    true
}

/// The characters with the Unicode property `White_Space`.
pub open spec fn is_white_space(c: char) -> bool {
    let p = c as u32;
    ||| 0x09 <= p <= 0x0d
    ||| p == 0x20
    ||| p == 0x85
    ||| p == 0xa0
    ||| p == 0x1680
    ||| 0x2000 <= p <= 0x200a
    ||| p == 0x2028
    ||| p == 0x2029
    ||| p == 0x202f
    ||| p == 0x205f
    ||| p == 0x3000
}

/// `char::is_whitespace` tells whether a character has the Unicode property `White_Space`.
pub assume_specification[ char::is_whitespace ](c: char) -> (white: bool)
    ensures
        white == is_white_space(c),
;

/// A text without its leading white space.
pub open spec fn trim_start(s: Seq<char>) -> Seq<char>
    decreases s.len(),
{
    if s.len() > 0 && is_white_space(s[0]) {
        trim_start(s.drop_first())
    } else {
        s
    }
}

/// A text without its trailing white space.
pub open spec fn trim_end(s: Seq<char>) -> Seq<char>
    decreases s.len(),
{
    if s.len() > 0 && is_white_space(s.last()) {
        trim_end(s.drop_last())
    } else {
        s
    }
}

/// A text without the white space around it.
pub open spec fn trimmed(s: Seq<char>) -> Seq<char> {
    trim_end(trim_start(s))
}

/// Removes the white space around a text.
pub(crate) fn trim(s: &Vec<char>) -> (inner: Vec<char>)
    ensures
        inner@ == trimmed(s@),
{
    let mut start: usize = 0;
    assert(s@.skip(0) =~= s@);
    while start < s.len() && s[start].is_whitespace()
        invariant
            start <= s.len(),
            trim_start(s@) == trim_start(s@.skip(start as int)),
        decreases s.len() - start,
    {
        assert(s@.skip(start as int).drop_first() =~= s@.skip(start + 1));
        start = start + 1;
    }
    let mut end: usize = s.len();
    let ghost tail = s@.skip(start as int);
    assert(trim_start(s@) == tail);
    assert(s@.subrange(start as int, end as int) =~= tail);
    while end > start && s[end - 1].is_whitespace()
        invariant
            start <= end <= s.len(),
            trim_end(tail) == trim_end(s@.subrange(start as int, end as int)),
        decreases end - start,
    {
        assert(s@.subrange(start as int, end as int).drop_last() =~= s@.subrange(
            start as int,
            end - 1,
        ));
        assert(s@.subrange(start as int, end as int).last() == s@[end - 1]);
        end = end - 1;
    }
    assert(trim_end(tail) == s@.subrange(start as int, end as int));
    let mut inner: Vec<char> = Vec::new();
    let mut i: usize = start;
    while i < end
        invariant
            start <= i <= end <= s.len(),
            inner@ == s@.subrange(start as int, i as int),
        decreases end - i,
    {
        inner.push(s[i]);
        i = i + 1;
        assert(inner@ =~= s@.subrange(start as int, i as int));
    }
    inner
}

/// The parts of a text between the occurrences of a separator, in order.
pub open spec fn split(s: Seq<char>, separator: char) -> Seq<Seq<char>>
    decreases s.len(),
{
    if s.len() == 0 {
        seq![Seq::<char>::empty()]
    } else {
        let parts = split(s.drop_last(), separator);
        if s.last() == separator {
            parts.push(Seq::empty())
        } else {
            parts.drop_last().push(parts.last().push(s.last()))
        }
    }
}

/// The characters of each part.
pub open spec fn part_texts(parts: Seq<Vec<char>>) -> Seq<Seq<char>> {
    parts.map_values(|part: Vec<char>| part@)
}

/// Splits a text at a separator.
pub(crate) fn split_at_each(s: &Vec<char>, separator: char) -> (parts: Vec<Vec<char>>)
    ensures
        part_texts(parts@) == split(s@, separator),
{
    let mut parts: Vec<Vec<char>> = Vec::new();
    let mut part: Vec<char> = Vec::new();
    let mut i: usize = 0;
    assert(s@.take(0) =~= Seq::<char>::empty());
    assert(part_texts(parts@).push(part@) =~= split(s@.take(0), separator));
    while i < s.len()
        invariant
            i <= s.len(),
            part_texts(parts@).push(part@) == split(s@.take(i as int), separator),
        decreases s.len() - i,
    {
        let ghost before = split(s@.take(i as int), separator);
        let ghost done = part_texts(parts@);
        let ghost current = part@;
        assert(before.drop_last() =~= done);
        assert(before.last() == current);
        assert(s@.take(i + 1).drop_last() =~= s@.take(i as int));
        assert(s@.take(i + 1).last() == s@[i as int]);
        if s[i] == separator {
            parts.push(part);
            part = Vec::new();
            assert(part_texts(parts@) =~= before);
            assert(part@ =~= Seq::<char>::empty());
        } else {
            part.push(s[i]);
        }
        i = i + 1;
        assert(part_texts(parts@).push(part@) =~= split(s@.take(i as int), separator));
    }
    assert(s@.take(i as int) =~= s@);
    let ghost done = part_texts(parts@);
    let ghost current = part@;
    parts.push(part);
    assert(part_texts(parts@) =~= done.push(current));
    parts
}

/// Lexicographic order by code point, which is also the order of the UTF-8 bytes.
pub open spec fn precedes(a: Seq<char>, b: Seq<char>) -> bool
    decreases a.len(),
{
    if b.len() == 0 {
        false
    } else if a.len() == 0 {
        true
    } else if a[0] == b[0] {
        precedes(a.drop_first(), b.drop_first())
    } else {
        a[0] < b[0]
    }
}

/// A text does not precede itself, and of two texts at most one precedes the other.
pub proof fn lemma_precedes_is_strict(a: Seq<char>, b: Seq<char>)
    ensures
        !precedes(a, a),
        !(precedes(a, b) && precedes(b, a)),
    decreases a.len(),
{
    if a.len() > 0 {
        lemma_precedes_is_strict(
            a.drop_first(),
            if b.len() > 0 {
                b.drop_first()
            } else {
                b
            },
        );
    }
}

/// Of two different texts one precedes the other.
pub proof fn lemma_precedes_is_total(a: Seq<char>, b: Seq<char>)
    ensures
        a == b || precedes(a, b) || precedes(b, a),
    decreases a.len(),
{
    if a.len() == 0 || b.len() == 0 {
        if a.len() == 0 && b.len() == 0 {
            assert(a =~= b);
        }
    } else if a[0] == b[0] {
        lemma_precedes_is_total(a.drop_first(), b.drop_first());
        if a.drop_first() == b.drop_first() {
            assert(a =~= seq![a[0]] + a.drop_first());
            assert(b =~= seq![b[0]] + b.drop_first());
        }
    }
}

/// The order of texts is transitive.
pub proof fn lemma_precedes_is_transitive(a: Seq<char>, b: Seq<char>, c: Seq<char>)
    requires
        precedes(a, b),
        precedes(b, c),
    ensures
        precedes(a, c),
    decreases a.len(),
{
    if a.len() > 0 && a[0] == b[0] && b[0] == c[0] {
        lemma_precedes_is_transitive(a.drop_first(), b.drop_first(), c.drop_first());
    }
}

/// Two texts of the same length are ordered as their parts up to a place are, and as the rest is
/// where those are the same.
pub proof fn lemma_precedes_by_parts(a: Seq<char>, b: Seq<char>, place: int)
    requires
        a.len() == b.len(),
        0 <= place <= a.len(),
    ensures
        precedes(a, b) <==> precedes(a.take(place), b.take(place)) || (a.take(place) == b.take(
            place,
        ) && precedes(a.skip(place), b.skip(place))),
    decreases place,
{
    if place == 0 {
        assert(a.take(0) =~= b.take(0));
        assert(a.skip(0) =~= a);
        assert(b.skip(0) =~= b);
    } else {
        assert(a.take(place)[0] == a[0] && b.take(place)[0] == b[0]);
        if a[0] == b[0] {
            lemma_precedes_by_parts(a.drop_first(), b.drop_first(), place - 1);
            assert(a.take(place).drop_first() =~= a.drop_first().take(place - 1));
            assert(b.take(place).drop_first() =~= b.drop_first().take(place - 1));
            assert(a.skip(place) =~= a.drop_first().skip(place - 1));
            assert(b.skip(place) =~= b.drop_first().skip(place - 1));
            if a.drop_first().take(place - 1) == b.drop_first().take(place - 1) {
                assert(a.take(place) =~= seq![a[0]] + a.drop_first().take(place - 1));
                assert(b.take(place) =~= seq![b[0]] + b.drop_first().take(place - 1));
            }
        }
    }
}

/// The number that digits stand for in base ten.
pub open spec fn number(digits: Seq<char>) -> int
    decreases digits.len(),
{
    if digits.len() == 0 {
        0
    } else {
        number(digits.drop_last()) * 10 + (digits.last() as int - 48)
    }
}

proof fn lemma_decimal_number(n: nat)
    ensures
        number(decimal_nat(n)) == n,
    decreases n,
{
    if n < 10 {
        assert(decimal_nat(n).drop_last() =~= Seq::<char>::empty());
        assert(number(decimal_nat(n).drop_last()) == 0);
    } else {
        lemma_decimal_number(n / 10);
        assert(decimal_nat(n).drop_last() =~= decimal_nat(n / 10));
    }
}

proof fn lemma_number_behind_zeros(count: int, digits: Seq<char>)
    requires
        count >= 0,
    ensures
        number(zeros(count) + digits) == number(digits),
    decreases count + digits.len(),
{
    let all = zeros(count) + digits;
    if digits.len() > 0 {
        lemma_number_behind_zeros(count, digits.drop_last());
        assert(all.drop_last() =~= zeros(count) + digits.drop_last());
    } else if count > 0 {
        lemma_number_behind_zeros(count - 1, digits);
        assert(all.drop_last() =~= zeros(count - 1) + digits);
    } else {
        assert(all =~= digits);
    }
}

/// A padded number reads back.
pub proof fn lemma_padded_number(n: nat, width: nat)
    ensures
        number(padded(n, width)) == n,
{
    let count = width - decimal_nat(n).len();
    lemma_decimal_number(n);
    if count >= 0 {
        lemma_number_behind_zeros(count, decimal_nat(n));
    } else {
        assert(zeros(count) + decimal_nat(n) =~= decimal_nat(n));
    }
}

/// How two texts are ordered.
pub enum TextOrder {
    Before,
    Same,
    After,
}

/// Whether an order is that of two texts.
pub open spec fn is_order(a: Seq<char>, b: Seq<char>, order: TextOrder) -> bool {
    match order {
        TextOrder::Before => precedes(a, b) && a != b,
        TextOrder::Same => a == b,
        TextOrder::After => precedes(b, a) && a != b,
    }
}

/// Finds how two texts are ordered.
pub(crate) fn order_of(a: &str, b: &str) -> (order: TextOrder)
    ensures
        is_order(a@, b@, order),
{
    let left = to_chars(a);
    let right = to_chars(b);
    let mut i: usize = 0;
    assert(left@.skip(0) =~= left@);
    assert(right@.skip(0) =~= right@);
    while i < left.len() && i < right.len()
        invariant
            i <= left@.len(),
            i <= right@.len(),
            left@ == a@,
            right@ == b@,
            left@.take(i as int) =~= right@.take(i as int),
            precedes(a@, b@) == precedes(left@.skip(i as int), right@.skip(i as int)),
            precedes(b@, a@) == precedes(right@.skip(i as int), left@.skip(i as int)),
        decreases left@.len() - i,
    {
        let x: char = left[i];
        let y: char = right[i];
        assert(left@.skip(i as int)[0] == x);
        assert(right@.skip(i as int)[0] == y);
        if x != y {
            assert(a@[i as int] != b@[i as int]);
            return if x < y {
                TextOrder::Before
            } else {
                TextOrder::After
            };
        }
        assert(left@.skip(i as int).drop_first() =~= left@.skip(i + 1));
        assert(right@.skip(i as int).drop_first() =~= right@.skip(i + 1));
        assert(left@.take(i + 1) =~= left@.take(i as int).push(x));
        assert(right@.take(i + 1) =~= right@.take(i as int).push(y));
        i = i + 1;
    }
    if left.len() == right.len() {
        assert(left@.take(i as int) =~= left@);
        assert(right@.take(i as int) =~= right@);
        TextOrder::Same
    } else if i == left.len() {
        TextOrder::Before
    } else {
        TextOrder::After
    }
}

/// A text without the separator is one part.
pub proof fn lemma_split_whole(s: Seq<char>, separator: char)
    requires
        !s.contains(separator),
    ensures
        split(s, separator) == seq![s],
    decreases s.len(),
{
    if s.len() == 0 {
        assert(s =~= Seq::<char>::empty());
    } else {
        let front = s.drop_last();
        assert(!front.contains(separator)) by {
            if front.contains(separator) {
                let i = choose|i: int| 0 <= i < front.len() && front[i] == separator;
                assert(s[i] == separator);
            }
        }
        lemma_split_whole(front, separator);
        assert(s[s.len() - 1] == s.last());
        assert(front.push(s.last()) =~= s);
        assert(split(s, separator) =~= seq![s]);
    }
}

proof fn lemma_split_nonempty(s: Seq<char>, separator: char)
    ensures
        split(s, separator).len() > 0,
    decreases s.len(),
{
    if s.len() > 0 {
        lemma_split_nonempty(s.drop_last(), separator);
    }
}

/// Two texts with a separator between them have the parts of the first and the parts of the second.
pub proof fn law_split_at_a_separator(a: Seq<char>, b: Seq<char>, separator: char)
    ensures
        split(a + seq![separator] + b, separator) == split(a, separator) + split(b, separator),
    decreases b.len(),
{
    let s = a + seq![separator] + b;
    if b.len() == 0 {
        assert(s.drop_last() =~= a);
        assert(b =~= Seq::<char>::empty());
        assert(split(s, separator) =~= split(a, separator) + split(b, separator));
    } else {
        law_split_at_a_separator(a, b.drop_last(), separator);
        lemma_split_nonempty(b.drop_last(), separator);
        assert(s.drop_last() =~= a + seq![separator] + b.drop_last());
        assert(split(s, separator) =~= split(a, separator) + split(b, separator));
    }
}

/// The decimal text of a number reads back as the number: its digits behind a minus sign where it is
/// below zero, and else its digits alone.
pub proof fn law_decimal_reads_back(n: int)
    ensures
        n >= 0 ==> number(decimal(n)) == n,
        n < 0 ==> decimal(n).len() > 1 && decimal(n)[0] == '-' && -number(decimal(n).drop_first())
            == n,
{
    if n >= 0 {
        lemma_decimal_number(n as nat);
    } else {
        lemma_decimal_number((-n) as nat);
        lemma_decimal_len((-n) as nat);
        assert(decimal(n).drop_first() =~= decimal_nat((-n) as nat));
    }
}

}
