//! Reading the code of a log call back: what it binds, and what it hands to the logger.

use vstd::prelude::*;

use crate::macros;
use crate::macros::{Features, RestItem};
use crate::text;

verus! {

/// Where a text holds another one for the first time.
pub open spec fn find(s: Seq<char>, part: Seq<char>) -> Option<int>
    decreases s.len(),
{
    if s.len() < part.len() {
        None
    } else if s.take(part.len() as int) == part {
        Some(0)
    } else if s.len() == 0 {
        None
    } else {
        match find(s.drop_first(), part) {
            Some(i) => Some(i + 1),
            None => None,
        }
    }
}

/// What a text holds before the first occurrence of another one, and what behind it.
pub open spec fn cut(s: Seq<char>, part: Seq<char>) -> Option<(Seq<char>, Seq<char>)> {
    match find(s, part) {
        Some(i) => Some((s.take(i), s.skip(i + part.len()))),
        None => None,
    }
}

/// Whether a text ends where what follows it begins: the first occurrence of that is not before it.
pub open spec fn ends_at(s: Seq<char>, part: Seq<char>) -> bool {
    find(s + part, part) == Some(s.len() as int)
}

/// What ends the expression of a binding.
pub open spec fn expression_end() -> Seq<char> {
    ") as &dyn ::core::fmt::Display; "@
}

/// Reads bindings `let name = &(expression) as &dyn ::core::fmt::Display;` from the front of a text:
/// their names and expressions, and what follows them.
pub open spec fn read_bindings(code: Seq<char>) -> (Seq<(Seq<char>, Seq<char>)>, Seq<char>)
    decreases code.len(),
{
    if code.len() >= 4 && code.take(4) == "let "@ {
        match cut(code.skip(4), " = &("@) {
            Some((name, behind)) => match cut(behind, expression_end()) {
                Some((expression, rest)) => if rest.len() < code.len() {
                    let (more, end) = read_bindings(rest);
                    (seq![(name, expression)] + more, end)
                } else {
                    (Seq::empty(), code)
                },
                None => (Seq::empty(), code),
            },
            None => (Seq::empty(), code),
        }
    } else {
        (Seq::empty(), code)
    }
}

/// Reads entries `(stringify!(key), name),` from the front of a text: their keys and names, and what
/// follows them.
pub open spec fn read_entries(code: Seq<char>) -> (Seq<(Seq<char>, Seq<char>)>, Seq<char>)
    decreases code.len(),
{
    if code.len() >= 12 && code.take(12) == "(stringify!("@ {
        match cut(code.skip(12), "), "@) {
            Some((key, behind)) => match cut(behind, "),"@) {
                Some((name, rest)) => if rest.len() < code.len() {
                    let (more, end) = read_entries(rest);
                    (seq![(key, name)] + more, end)
                } else {
                    (Seq::empty(), code)
                },
                None => (Seq::empty(), code),
            },
            None => (Seq::empty(), code),
        }
    } else {
        (Seq::empty(), code)
    }
}

/// What is bound to a name: the last binding of it counts.
pub open spec fn bound_to(
    bindings: Seq<(Seq<char>, Seq<char>)>,
    name: Seq<char>,
) -> Option<Seq<char>>
    decreases bindings.len(),
{
    if bindings.len() == 0 {
        None
    } else if bindings.last().0 == name {
        Some(bindings.last().1)
    } else {
        bound_to(bindings.drop_last(), name)
    }
}

/// The pairs that entries stand for: each key, with the expression that is bound to its name.
pub open spec fn pairs_of(
    entries: Seq<(Seq<char>, Seq<char>)>,
    bindings: Seq<(Seq<char>, Seq<char>)>,
) -> Seq<(Seq<char>, Option<Seq<char>>)> {
    entries.map_values(|entry: (Seq<char>, Seq<char>)| (entry.0, bound_to(bindings, entry.1)))
}

proof fn lemma_find_in_longer(s: Seq<char>, more: Seq<char>, part: Seq<char>)
    requires
        find(s, part) is Some,
        part.len() > 0,
    ensures
        find(s + more, part) == find(s, part),
        0 <= find(s, part)->0 <= s.len() - part.len(),
    decreases s.len(),
{
    assert((s + more).take(part.len() as int) =~= s.take(part.len() as int));
    if s.take(part.len() as int) != part {
        lemma_find_in_longer(s.drop_first(), more, part);
        assert((s + more).drop_first() =~= s.drop_first() + more);
    }
}

proof fn lemma_cut(s: Seq<char>, part: Seq<char>, rest: Seq<char>)
    requires
        ends_at(s, part),
        part.len() > 0,
    ensures
        cut(s + part + rest, part) == Some((s, rest)),
{
    lemma_find_in_longer(s + part, rest, part);
    let all = s + part + rest;
    assert(all.take(s.len() as int) =~= s);
    assert(all.skip((s.len() + part.len()) as int) =~= rest);
}

proof fn lemma_ends_without(s: Seq<char>, part: Seq<char>)
    requires
        part.len() > 0,
        forall|i: int| 0 <= i < s.len() ==> #[trigger] s[i] != part[0],
    ensures
        ends_at(s, part),
    decreases s.len(),
{
    let all = s + part;
    if s.len() == 0 {
        assert(all.take(part.len() as int) =~= part);
    } else {
        assert(all.take(part.len() as int)[0] == s[0]);
        assert(s[0] != part[0]);
        assert forall|i: int| 0 <= i < s.drop_first().len() implies #[trigger] s.drop_first()[i]
            != part[0] by {
            assert(s.drop_first()[i] == s[i + 1]);
        }
        lemma_ends_without(s.drop_first(), part);
        assert(all.drop_first() =~= s.drop_first() + part);
    }
}

/// The name of a binding.
spec fn name_of(n: nat) -> Seq<char> {
    "__kv"@ + text::decimal_nat(n)
}

proof fn lemma_digits(n: nat)
    ensures
        forall|i: int|
            0 <= i < text::decimal_nat(n).len() ==> '0' <= #[trigger] text::decimal_nat(n)[i]
                <= '9',
    decreases n,
{
    let last = text::digit((n % 10) as int);
    assert('0' <= last <= '9');
    if n >= 10 {
        lemma_digits(n / 10);
        assert(text::decimal_nat(n) == text::decimal_nat(n / 10).push(last));
    }
}

proof fn lemma_names(n: nat)
    ensures
        forall|i: int|
            0 <= i < name_of(n).len() ==> #[trigger] name_of(n)[i] != ' ' && name_of(n)[i] != ')',
{
    reveal_strlit("__kv");
    lemma_digits(n);
    let name = name_of(n);
    assert forall|i: int| 0 <= i < name.len() implies #[trigger] name[i] != ' ' && name[i] != ')' by {
        if i >= 4 {
            assert(name[i] == text::decimal_nat(n)[i - 4]);
        }
    }
}

proof fn lemma_names_differ(a: nat, b: nat)
    requires
        a != b,
    ensures
        name_of(a) != name_of(b),
{
    if name_of(a) == name_of(b) {
        reveal_strlit("__kv");
        assert(name_of(a).skip(4) =~= text::decimal_nat(a));
        assert(name_of(b).skip(4) =~= text::decimal_nat(b));
        text::lemma_padded_number(a, 0);
        text::lemma_padded_number(b, 0);
        text::lemma_decimal_len(a);
        text::lemma_decimal_len(b);
        assert(text::padded(a, 0) =~= text::decimal_nat(a));
        assert(text::padded(b, 0) =~= text::decimal_nat(b));
    }
}

/// The bindings that a reader finds: a name for each pair, and its expression.
spec fn expected_bindings(kvs: Seq<(Seq<char>, Seq<char>)>) -> Seq<(Seq<char>, Seq<char>)> {
    Seq::new(kvs.len(), |i: int| (name_of(i as nat), kvs[i].1))
}

spec fn expected_entries(kvs: Seq<(Seq<char>, Seq<char>)>) -> Seq<(Seq<char>, Seq<char>)> {
    Seq::new(kvs.len(), |i: int| (kvs[i].0, name_of(i as nat)))
}

spec fn binding_of(n: nat, value: Seq<char>) -> Seq<char> {
    "let "@ + name_of(n) + " = &("@ + value + expression_end()
}

spec fn entry_of(n: nat, key: Seq<char>) -> Seq<char> {
    "(stringify!("@ + key + "), "@ + name_of(n) + "),"@
}

proof fn lemma_binding_piece(kvs: Seq<(Seq<char>, Seq<char>)>)
    requires
        kvs.len() > 0,
    ensures
        macros::bindings_text(kvs) == macros::bindings_text(kvs.drop_last()) + binding_of(
            (kvs.len() - 1) as nat,
            kvs.last().1,
        ),
        macros::entries_text(kvs) == macros::entries_text(kvs.drop_last()) + entry_of(
            (kvs.len() - 1) as nat,
            kvs.last().0,
        ),
{
    let n = (kvs.len() - 1) as nat;
    let d = text::decimal_nat(n);
    reveal_strlit("let __kv");
    reveal_strlit("let ");
    reveal_strlit("__kv");
    reveal_strlit("), __kv");
    reveal_strlit("), ");
    assert("let __kv"@ =~= "let "@ + "__kv"@);
    assert("), __kv"@ =~= "), "@ + "__kv"@);
    let b = macros::bindings_text(kvs.drop_last());
    let e = macros::entries_text(kvs.drop_last());
    assert(macros::bindings_text(kvs) =~= b + binding_of(n, kvs.last().1));
    assert(macros::entries_text(kvs) =~= e + entry_of(n, kvs.last().0));
}

/// Reading further bindings behind some that are read already.
proof fn lemma_read_bindings_append(
    kvs: Seq<(Seq<char>, Seq<char>)>,
    tail: Seq<char>,
)
    requires
        forall|i: int| 0 <= i < kvs.len() ==> ends_at((#[trigger] kvs[i]).1, expression_end()),
    ensures
        read_bindings(macros::bindings_text(kvs) + tail) == ({
            let (more, end) = read_bindings(tail);
            (expected_bindings(kvs) + more, end)
        }),
    decreases kvs.len(),
{
    if kvs.len() == 0 {
        assert(macros::bindings_text(kvs) + tail =~= tail);
        assert(expected_bindings(kvs) + read_bindings(tail).0 =~= read_bindings(tail).0);
    } else {
        let front = kvs.drop_last();
        let n = (kvs.len() - 1) as nat;
        let value = kvs.last().1;
        let piece = binding_of(n, value);
        lemma_binding_piece(kvs);
        assert(ends_at(kvs[n as int].1, expression_end()));
        assert forall|i: int| 0 <= i < front.len() implies ends_at(
            (#[trigger] front[i]).1,
            expression_end(),
        ) by {
            assert(front[i] == kvs[i]);
        }
        lemma_read_bindings_append(front, piece + tail);
        assert(macros::bindings_text(kvs) + tail =~= macros::bindings_text(front) + (piece + tail));
        lemma_read_one_binding(n, value, tail);
        let (more, end) = read_bindings(tail);
        assert(expected_bindings(front) + (seq![(name_of(n), value)] + more)
            =~= expected_bindings(kvs) + more);
    }
}

proof fn lemma_read_one_binding(n: nat, value: Seq<char>, tail: Seq<char>)
    requires
        ends_at(value, expression_end()),
    ensures
        read_bindings(binding_of(n, value) + tail) == ({
            let (more, end) = read_bindings(tail);
            (seq![(name_of(n), value)] + more, end)
        }),
{
    let code = binding_of(n, value) + tail;
    let behind = value + expression_end() + tail;
    reveal_strlit("let ");
    reveal_strlit(" = &(");
    reveal_strlit(") as &dyn ::core::fmt::Display; ");
    lemma_names(n);
    lemma_ends_without(name_of(n), " = &("@);
    lemma_cut(name_of(n), " = &("@, behind);
    lemma_cut(value, expression_end(), tail);
    assert(code.take(4) =~= "let "@);
    assert(code.skip(4) =~= name_of(n) + " = &("@ + behind);
}

proof fn lemma_read_entries_append(kvs: Seq<(Seq<char>, Seq<char>)>, tail: Seq<char>)
    requires
        forall|i: int| 0 <= i < kvs.len() ==> ends_at((#[trigger] kvs[i]).0, "), "@),
    ensures
        read_entries(macros::entries_text(kvs) + tail) == ({
            let (more, end) = read_entries(tail);
            (expected_entries(kvs) + more, end)
        }),
    decreases kvs.len(),
{
    if kvs.len() == 0 {
        assert(macros::entries_text(kvs) + tail =~= tail);
        assert(expected_entries(kvs) + read_entries(tail).0 =~= read_entries(tail).0);
    } else {
        let front = kvs.drop_last();
        let n = (kvs.len() - 1) as nat;
        let key = kvs.last().0;
        let piece = entry_of(n, key);
        lemma_binding_piece(kvs);
        assert(ends_at(kvs[n as int].0, "), "@));
        assert forall|i: int| 0 <= i < front.len() implies ends_at((#[trigger] front[i]).0, "), "@) by {
            assert(front[i] == kvs[i]);
        }
        lemma_read_entries_append(front, piece + tail);
        assert(macros::entries_text(kvs) + tail =~= macros::entries_text(front) + (piece + tail));
        lemma_read_one_entry(n, key, tail);
        let (more, end) = read_entries(tail);
        assert(expected_entries(front) + (seq![(key, name_of(n))] + more)
            =~= expected_entries(kvs) + more);
    }
}

proof fn lemma_read_one_entry(n: nat, key: Seq<char>, tail: Seq<char>)
    requires
        ends_at(key, "), "@),
    ensures
        read_entries(entry_of(n, key) + tail) == ({
            let (more, end) = read_entries(tail);
            (seq![(key, name_of(n))] + more, end)
        }),
{
    let code = entry_of(n, key) + tail;
    let behind = name_of(n) + "),"@ + tail;
    reveal_strlit("(stringify!(");
    reveal_strlit("), ");
    reveal_strlit("),");
    lemma_names(n);
    lemma_ends_without(name_of(n), "),"@);
    lemma_cut(key, "), "@, behind);
    lemma_cut(name_of(n), "),"@, tail);
    assert(code.take(12) =~= "(stringify!("@);
    assert(code.skip(12) =~= key + "), "@ + behind);
}

proof fn lemma_bound(kvs: Seq<(Seq<char>, Seq<char>)>, count: int, i: int)
    requires
        0 <= i < count <= kvs.len(),
    ensures
        bound_to(expected_bindings(kvs).take(count), name_of(i as nat)) == Some(kvs[i].1),
    decreases count,
{
    let bindings = expected_bindings(kvs).take(count);
    assert(bindings.last() == (name_of((count - 1) as nat), kvs[count - 1].1));
    if i < count - 1 {
        lemma_names_differ(i as nat, (count - 1) as nat);
        lemma_bound(kvs, count - 1, i);
        assert(bindings.drop_last() =~= expected_bindings(kvs).take(count - 1));
    }
}

/// The word for a truth value.
pub open spec fn word(on: bool) -> Seq<char> {
    if on {
        "true"@
    } else {
        "false"@
    }
}

/// What stands in front of the bindings of a call: its audience, whether the feature of each audience
/// is on, and its message.
pub open spec fn code_head(
    audience: Option<Seq<char>>,
    msg: Seq<char>,
    features: Features,
) -> Seq<char> {
    "{ let __aud = "@ + (match audience {
        Some(expr) => expr,
        None => "::eden_logger::LogAudience::Internal"@,
    }) + "; let __enabled: bool = match __aud { ::eden_logger::LogAudience::Client => "@ + word(
        features.log_client,
    ) + ", ::eden_logger::LogAudience::Internal => "@ + word(features.log_internal)
        + ", ::eden_logger::LogAudience::Both => "@ + word(features.log_both)
        + ", }; if __enabled { let __msg = "@ + msg + "; "@
}

/// The start of the call of the logger: the level, the message, the context and the audience.
pub open spec fn code_call(level: Seq<char>, ctx: Seq<char>) -> Seq<char> {
    "::eden_logger::emit_direct(::eden_logger::LogLevel::"@ + level + ", &__msg, &"@ + ctx
        + ", __aud, &["@
}

/// The end of the call of the logger: the source location, where its feature is on.
pub open spec fn code_tail(features: Features) -> Seq<char> {
    if features.source_location {
        "], ::core::option::Option::Some(file!()), ::core::option::Option::Some(line!())); } }"@
    } else {
        "], ::core::option::Option::None, ::core::option::Option::None); } }"@
    }
}

/// Whether entries, with what is bound to their names, are exactly some pairs, in order, and no two of
/// them share a name.
pub open spec fn are_pairs(
    entries: Seq<(Seq<char>, Seq<char>)>,
    bindings: Seq<(Seq<char>, Seq<char>)>,
    kvs: Seq<(Seq<char>, Seq<char>)>,
) -> bool {
    &&& entries.len() == kvs.len()
    &&& bindings.len() == kvs.len()
    &&& forall|i: int|
        0 <= i < kvs.len() ==> (#[trigger] pairs_of(entries, bindings)[i]) == (
            kvs[i].0,
            Some(kvs[i].1),
        )
    &&& forall|i: int, j: int|
        0 <= i < j < kvs.len() ==> (#[trigger] entries[i]).1 != (#[trigger] entries[j]).1
}

/// Whether a code is read back as some pairs, between what is to stand in front of its bindings,
/// between those and its entries, and behind these.
pub open spec fn reads_back(
    code: Seq<char>,
    head: Seq<char>,
    call: Seq<char>,
    tail: Seq<char>,
    kvs: Seq<(Seq<char>, Seq<char>)>,
) -> bool {
    let (bindings, behind) = read_bindings(code.skip(head.len() as int));
    let (entries, end) = read_entries(behind.skip(call.len() as int));
    &&& code.len() >= head.len() && code.take(head.len() as int) == head
    &&& behind.len() >= call.len() && behind.take(call.len() as int) == call
    &&& end == tail
    &&& are_pairs(entries, bindings, kvs)
}

/// The code of a call, read back. In front stand the audience and whether its feature is on, and the
/// message. Then each value is bound, and the logger is called with the level, the message, the
/// context, the audience and entries for the pairs. The entries, with what is bound to their names,
/// are exactly the pairs of the call, in order, however many they are, and no two of them share a
/// binding. At the end stands the source location, where its feature is on.
///
/// A reader takes a key to end at the first bracket and comma behind it, and an expression at the
/// first cast behind it.
pub proof fn law_the_code_of_a_call_reads_back(
    level: Seq<char>,
    ctx: Seq<char>,
    msg: Seq<char>,
    audience: Option<Seq<char>>,
    kvs: Seq<(Seq<char>, Seq<char>)>,
    features: Features,
)
    requires
        forall|i: int| 0 <= i < kvs.len() ==> ends_at((#[trigger] kvs[i]).0, "), "@),
        forall|i: int| 0 <= i < kvs.len() ==> ends_at((#[trigger] kvs[i]).1, expression_end()),
    ensures
        reads_back(
            macros::body_text(level, ctx, msg, audience, kvs, features),
            code_head(audience, msg, features),
            code_call(level, ctx),
            code_tail(features),
            kvs,
        ),
{
    let code = macros::body_text(level, ctx, msg, audience, kvs, features);
    let head = code_head(audience, msg, features);
    let call = code_call(level, ctx);
    let tail = code_tail(features);
    let inner = call + (macros::entries_text(kvs) + tail);
    assert(code =~= head + (macros::bindings_text(kvs) + inner));
    assert(code.take(head.len() as int) =~= head);
    assert(code.skip(head.len() as int) =~= macros::bindings_text(kvs) + inner);
    reveal_strlit("::eden_logger::emit_direct(::eden_logger::LogLevel::");
    reveal_strlit("let ");
    reveal_strlit("(stringify!(");
    reveal_strlit("], ::core::option::Option::Some(file!()), ::core::option::Option::Some(line!())); } }");
    reveal_strlit("], ::core::option::Option::None, ::core::option::Option::None); } }");
    assert(inner.take(4)[0] == ':');
    assert("let "@[0] == 'l');
    assert(tail.take(12)[0] == ']');
    assert("(stringify!("@[0] == '(');
    lemma_read_bindings_append(kvs, inner);
    lemma_read_entries_append(kvs, tail);
    assert(read_bindings(inner) == (Seq::<(Seq<char>, Seq<char>)>::empty(), inner));
    assert(read_entries(tail) == (Seq::<(Seq<char>, Seq<char>)>::empty(), tail));
    let bindings = expected_bindings(kvs);
    let entries = expected_entries(kvs);
    assert(bindings + Seq::<(Seq<char>, Seq<char>)>::empty() =~= bindings);
    assert(entries + Seq::<(Seq<char>, Seq<char>)>::empty() =~= entries);
    assert(inner.take(call.len() as int) =~= call);
    assert(inner.skip(call.len() as int) =~= macros::entries_text(kvs) + tail);
    assert forall|i: int| 0 <= i < kvs.len() implies (#[trigger] pairs_of(entries, bindings)[i])
        == (kvs[i].0, Some(kvs[i].1)) by {
        lemma_bound(kvs, kvs.len() as int, i);
        assert(bindings.take(kvs.len() as int) =~= bindings);
    }
    assert forall|i: int, j: int| 0 <= i < j < kvs.len() implies (#[trigger] entries[i]).1 != (
    #[trigger] entries[j]).1 by {
        lemma_names_differ(i as nat, j as nat);
    }
}

/// The number of pairs among items.
pub open spec fn pair_count(rest: Seq<RestItem>) -> nat
    decreases rest.len(),
{
    if rest.len() == 0 {
        0
    } else {
        pair_count(rest.drop_last()) + if rest.last() is Pair {
            1nat
        } else {
            0
        }
    }
}

/// Each pair of a call is among its pairs, in the place that the pairs before it leave it, and there
/// are no others; the audience is the last one that is given, and there is none where none is given.
pub proof fn law_the_arguments_of_a_call_keep_their_order(rest: Seq<RestItem>, i: int)
    ensures
        macros::pairs_in(rest).len() == pair_count(rest),
        0 <= i < rest.len() ==> match rest[i] {
            RestItem::Pair { kv } => pair_count(rest.take(i)) < macros::pairs_in(rest).len()
                && macros::pairs_in(rest)[pair_count(rest.take(i)) as int] == (kv.key@, kv.val@),
            RestItem::Audience { expr } => (forall|j: int|
                i < j < rest.len() ==> (#[trigger] rest[j]) is Pair) ==> macros::audience_in(rest)
                == Some(expr@),
        },
        (forall|j: int| 0 <= j < rest.len() ==> (#[trigger] rest[j]) is Pair)
            ==> macros::audience_in(rest) is None,
    decreases rest.len(),
{
    if rest.len() > 0 {
        let front = rest.drop_last();
        assert(rest[rest.len() - 1] == rest.last());
        assert(forall|j: int| 0 <= j < front.len() ==> #[trigger] front[j] == rest[j]);
        law_the_arguments_of_a_call_keep_their_order(front, i);
        if 0 <= i < front.len() {
            assert(front.take(i) =~= rest.take(i));
        } else if i == front.len() {
            assert(rest.take(i) =~= front);
        }
    }
}

}
