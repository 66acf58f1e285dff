//! The code that log macros expand to, as text.
//!
//! A log call has the form `log_info!(ctx, msg, audience = expr, key = expr, ..)`, with an optional
//! comma at the end. It expands to nothing where the feature of its level or that of the audience that
//! it names is off; else to a block that emits the line. An audience that is known only when it is
//! evaluated is tested in that block.

use quote::ToTokens;
use syn::parse::Parser;
use vstd::prelude::*;

use crate::context::LogAudience;
use crate::schema::LogLevel;
use crate::text;

verus! {

/// The features that a build has.
#[derive(Debug, Clone, Copy, PartialEq, Eq, Structural)]
pub struct Features {
    pub log_trace: bool,
    pub log_debug: bool,
    pub log_info: bool,
    pub log_warn: bool,
    pub log_error: bool,
    pub log_internal: bool,
    pub log_client: bool,
    pub log_both: bool,
    pub source_location: bool,
    pub function_name: bool,
}

impl Features {
    /// Whether calls of a level are compiled.
    pub open spec fn has_level(self, level: LogLevel) -> bool {
        match level {
            LogLevel::Trace => self.log_trace,
            LogLevel::Debug => self.log_debug,
            LogLevel::Info => self.log_info,
            LogLevel::Warn => self.log_warn,
            LogLevel::Error => self.log_error,
        }
    }

    /// Whether calls for an audience are compiled.
    pub open spec fn has_audience(self, audience: LogAudience) -> bool {
        match audience {
            LogAudience::Internal => self.log_internal,
            LogAudience::Client => self.log_client,
            LogAudience::Both => self.log_both,
        }
    }

    /// Whether calls for an audience are compiled.
    fn compiles(&self, audience: LogAudience) -> (compiled: bool)
        ensures
            compiled == self.has_audience(audience),
    {
        match audience {
            LogAudience::Internal => self.log_internal,
            LogAudience::Client => self.log_client,
            LogAudience::Both => self.log_both,
        }
    }
}

/// A pair `key = value` of a call: the key, and the text of the value's expression.
#[derive(Debug)]
pub struct Kv {
    pub key: String,
    pub val: String,
}

/// What follows the message of a call.
#[derive(Debug)]
pub enum RestItem {
    /// `audience = expr`.
    Audience { expr: String },
    /// `key = expr`.
    Pair { kv: Kv },
}

/// The arguments of a call: the texts of the context and of the message, and what follows them.
#[derive(Debug)]
pub struct LogArgs {
    pub ctx: String,
    pub msg: String,
    pub rest: Vec<RestItem>,
}

/// Why arguments are not those of a log call.
#[derive(Debug, Clone, Copy, PartialEq, Eq, Structural)]
pub enum ParseError {
    /// The arguments are not expressions with commas between them.
    NotExpressions,
    /// The context or the message is missing.
    MissingArgument,
    /// Something other than `key = expr` follows the message.
    NotAPair,
}

/// One of the arguments of a call: its text, and the two sides where it has the form `key = expr`.
#[derive(Debug)]
pub struct CallPart {
    pub text: String,
    pub pair: Option<(String, String)>,
}

/// The texts of an expression, and of its two sides where it is an assignment.
pub type ExprTexts = (Seq<char>, Option<(Seq<char>, Seq<char>)>);

/// What an argument of a call holds.
pub open spec fn part_texts(part: CallPart) -> ExprTexts {
    (
        part.text@,
        match part.pair {
            Some((key, expr)) => Some((key@, expr@)),
            None => None,
        },
    )
}

/// What the arguments of a call hold.
pub open spec fn all_part_texts(parts: Seq<CallPart>) -> Seq<ExprTexts> {
    parts.map_values(|part: CallPart| part_texts(part))
}

/// The expressions of a text of Rust with commas between them, and perhaps one at the end.
pub uninterp spec fn expression_list(
    code: Seq<char>,
) -> Option<Seq<(Seq<char>, Option<(Seq<char>, Seq<char>)>)>>;

/// Whether a text is an identifier of Rust.
pub uninterp spec fn is_identifier(code: Seq<char>) -> bool;

/// `syn::punctuated::Punctuated::parse_terminated` parses expressions with commas between them, and
/// perhaps one at the end; it gives nothing for any other text. An expression that is an assignment
/// is handed out with both of its sides. The texts are those that `quote` and `proc_macro2` print,
/// here always with the printer of `proc_macro2` itself. They are functions of the text.
#[verifier::external_body]
fn parse_expressions(code: &str) -> (parts: Option<Vec<CallPart>>)
    ensures
        match parts {
            Some(parts) => expression_list(code@) == Some(all_part_texts(parts@)),
            None => expression_list(code@) is None,
        },
{
    proc_macro2::fallback::force();
    let parser = syn::punctuated::Punctuated::<syn::Expr, syn::token::Comma>::parse_terminated;
    let parts = parser.parse_str(code).ok().map(|list| list.iter().map(|expr| CallPart {
        text: expr.to_token_stream().to_string(),
        pair: match expr {
            syn::Expr::Assign(e) => Some((e.left.to_token_stream().to_string(), e.right.to_token_stream().to_string())),
            _ => None,
        },
    }).collect());
    proc_macro2::fallback::unforce();
    parts
}

/// `syn::parse_str` parses an identifier: any name but a keyword or an underscore alone. Here the
/// text is always read by the lexer of `proc_macro2` itself, never by that of the compiler. Whether
/// it succeeds is a function of the text.
#[verifier::external_body]
fn parses_as_identifier(code: &str) -> (parses: bool)
    ensures
        parses == is_identifier(code@),
{
    proc_macro2::fallback::force();
    let parses = syn::parse_str::<syn::Ident>(code).is_ok();
    proc_macro2::fallback::unforce();
    parses
}

/// An expression as an argument: an assignment counts as a pair where its left side is a name.
pub open spec fn as_argument(expr: ExprTexts) -> ExprTexts {
    (
        expr.0,
        match expr.1 {
            Some((left, right)) => if is_identifier(left) {
                Some((left, right))
            } else {
                None
            },
            None => None,
        },
    )
}

/// Whether a result is what the arguments of a call give: the context, the message, and a pair for
/// each argument behind them.
pub open spec fn is_parsed(parts: Seq<ExprTexts>, result: Result<LogArgs, ParseError>) -> bool {
    if parts.len() < 2 {
        result == Err::<LogArgs, ParseError>(ParseError::MissingArgument)
    } else if exists|i: int| 2 <= i < parts.len() && (#[trigger] parts[i]).1 is None {
        result == Err::<LogArgs, ParseError>(ParseError::NotAPair)
    } else {
        &&& result matches Ok(args)
        &&& args.ctx@ == parts[0].0
        &&& args.msg@ == parts[1].0
        &&& args.rest@.len() == parts.len() - 2
        &&& forall|i: int|
            0 <= i < args.rest@.len() ==> item_of(
                #[trigger] args.rest@[i],
                parts[i + 2].1.unwrap().0,
                parts[i + 2].1.unwrap().1,
            )
    }
}

/// Whether an item is what a pair `name = expr` stands for.
pub open spec fn item_of(item: RestItem, name: Seq<char>, expr: Seq<char>) -> bool {
    if name == "audience"@ {
        item matches RestItem::Audience { expr: e } && e@ == expr
    } else {
        item matches RestItem::Pair { kv } && kv.key@ == name && kv.val@ == expr
    }
}

impl LogArgs {
    /// Parses the arguments of a call: `ctx, msg, audience = expr, key = expr, ..`, where all but the
    /// first two may be left out, and one more comma may stand at the end.
    pub fn parse(code: &str) -> (result: Result<LogArgs, ParseError>)
        ensures
            match expression_list(code@) {
                None => result == Err::<LogArgs, ParseError>(ParseError::NotExpressions),
                Some(list) => is_parsed(
                    list.map_values(|expr: ExprTexts| as_argument(expr)),
                    result,
                ),
            },
    {
        let expressions = match parse_expressions(code) {
            Some(expressions) => expressions,
            None => {
                return Err(ParseError::NotExpressions);
            },
        };
        let ghost list = all_part_texts(expressions@);
        let mut parts: Vec<CallPart> = Vec::new();
        for part in it: expressions
            invariant
                it.seq() == expressions@,
                list == all_part_texts(expressions@),
                parts@.len() == it.index(),
                forall|i: int|
                    0 <= i < parts@.len() ==> part_texts(#[trigger] parts@[i]) == as_argument(
                        list[i],
                    ),
        {
            assert(part_texts(part) == list[it.index() as int]);
            let pair = match part.pair {
                Some((key, expr)) => if parses_as_identifier(key.as_str()) {
                    Some((key, expr))
                } else {
                    None
                },
                None => None,
            };
            parts.push(CallPart { text: part.text, pair });
        }
        assert(all_part_texts(parts@) =~= list.map_values(|expr: ExprTexts| as_argument(expr)));
        LogArgs::from_parts(&parts)
    }

    /// The arguments of a call that is taken apart already.
    pub fn from_parts(parts: &Vec<CallPart>) -> (result: Result<LogArgs, ParseError>)
        ensures
            is_parsed(all_part_texts(parts@), result),
    {
        let ghost texts = all_part_texts(parts@);
        if parts.len() < 2 {
            return Err(ParseError::MissingArgument);
        }
        let mut rest: Vec<RestItem> = Vec::new();
        let mut i: usize = 2;
        while i < parts.len()
            invariant
                2 <= i <= parts@.len(),
                texts == all_part_texts(parts@),
                rest@.len() == i - 2,
                forall|j: int| 2 <= j < i ==> (#[trigger] texts[j]).1 is Some,
                forall|j: int|
                    0 <= j < rest@.len() ==> item_of(
                        #[trigger] rest@[j],
                        texts[j + 2].1.unwrap().0,
                        texts[j + 2].1.unwrap().1,
                    ),
            decreases parts@.len() - i,
        {
            assert(texts[i as int] == part_texts(parts@[i as int]));
            match &parts[i].pair {
                Some((key, expr)) => if text::same_text(key.as_str(), "audience") {
                    rest.push(RestItem::Audience { expr: expr.clone() });
                } else {
                    rest.push(RestItem::Pair { kv: Kv { key: key.clone(), val: expr.clone() } });
                },
                None => {
                    assert(texts[i as int].1 is None);
                    return Err(ParseError::NotAPair);
                },
            }
            i = i + 1;
        }
        Ok(LogArgs { ctx: parts[0].text.clone(), msg: parts[1].text.clone(), rest })
    }
}

/// The last audience among items.
pub open spec fn audience_in(rest: Seq<RestItem>) -> Option<Seq<char>>
    decreases rest.len(),
{
    if rest.len() == 0 {
        None
    } else {
        match rest.last() {
            RestItem::Audience { expr } => Some(expr@),
            RestItem::Pair { kv } => audience_in(rest.drop_last()),
        }
    }
}

/// The pairs among items, in order.
pub open spec fn pairs_in(rest: Seq<RestItem>) -> Seq<(Seq<char>, Seq<char>)>
    decreases rest.len(),
{
    if rest.len() == 0 {
        Seq::empty()
    } else {
        match rest.last() {
            RestItem::Audience { expr } => pairs_in(rest.drop_last()),
            RestItem::Pair { kv } => pairs_in(rest.drop_last()).push((kv.key@, kv.val@)),
        }
    }
}

/// The keys and values of pairs.
pub open spec fn kv_texts(kvs: Seq<Kv>) -> Seq<(Seq<char>, Seq<char>)> {
    kvs.map_values(|kv: Kv| (kv.key@, kv.val@))
}

/// Parts the arguments of a call: its context, its message, its audience (the last one that is
/// given) and its pairs.
pub fn split_args(args: &LogArgs) -> (parts: (String, String, Option<String>, Vec<Kv>))
    ensures
        parts.0 == args.ctx,
        parts.1 == args.msg,
        crate::context::text_of(parts.2) == audience_in(args.rest@),
        kv_texts(parts.3@) == pairs_in(args.rest@),
{
    let mut audience: Option<String> = None;
    let mut kvs: Vec<Kv> = Vec::new();
    let mut i: usize = 0;
    assert(args.rest@.take(0) =~= Seq::<RestItem>::empty());
    assert(kv_texts(kvs@) =~= Seq::<(Seq<char>, Seq<char>)>::empty());
    while i < args.rest.len()
        invariant
            i <= args.rest@.len(),
            crate::context::text_of(audience) == audience_in(args.rest@.take(i as int)),
            kv_texts(kvs@) == pairs_in(args.rest@.take(i as int)),
        decreases args.rest@.len() - i,
    {
        assert(args.rest@.take(i + 1).drop_last() =~= args.rest@.take(i as int));
        let ghost before = kv_texts(kvs@);
        match &args.rest[i] {
            RestItem::Audience { expr } => {
                audience = Some(expr.clone());
            },
            RestItem::Pair { kv } => {
                kvs.push(Kv { key: kv.key.clone(), val: kv.val.clone() });
                assert(kv_texts(kvs@) =~= before.push((kv.key@, kv.val@)));
            },
        }
        i = i + 1;
    }
    assert(args.rest@.take(i as int) =~= args.rest@);
    (args.ctx.clone(), args.msg.clone(), audience, kvs)
}

/// The text of a boolean literal.
pub open spec fn bool_text(value: bool) -> Seq<char> {
    if value {
        "true"@
    } else {
        "false"@
    }
}

/// The bindings of the values of pairs, in order: `__kv0`, `__kv1` and so on.
pub open spec fn bindings_text(kvs: Seq<(Seq<char>, Seq<char>)>) -> Seq<char>
    decreases kvs.len(),
{
    if kvs.len() == 0 {
        Seq::empty()
    } else {
        let n = (kvs.len() - 1) as nat;
        bindings_text(kvs.drop_last()) + "let __kv"@ + text::decimal_nat(n) + " = &("@
            + kvs.last().1 + ") as &dyn ::core::fmt::Display; "@
    }
}

/// The entries of pairs, in order: each key as a string, with the binding of its value.
pub open spec fn entries_text(kvs: Seq<(Seq<char>, Seq<char>)>) -> Seq<char>
    decreases kvs.len(),
{
    if kvs.len() == 0 {
        Seq::empty()
    } else {
        let n = (kvs.len() - 1) as nat;
        entries_text(kvs.drop_last()) + "(stringify!("@ + kvs.last().0 + "), __kv"@
            + text::decimal_nat(n) + "),"@
    }
}

/// The start of a body: the audience, and whether its feature is on.
pub open spec fn audience_text(audience: Option<Seq<char>>, features: Features) -> Seq<char> {
    "{ let __aud = "@ + (match audience {
        Some(expr) => expr,
        None => "::eden_logger::LogAudience::Internal"@,
    }) + "; let __enabled: bool = match __aud { ::eden_logger::LogAudience::Client => "@
        + bool_text(features.log_client) + ", ::eden_logger::LogAudience::Internal => "@
        + bool_text(features.log_internal) + ", ::eden_logger::LogAudience::Both => "@ + bool_text(
        features.log_both,
    ) + ", }; if __enabled { let __msg = "@
}

/// The end of a body: the source location, where its feature is on.
pub open spec fn location_args_text(features: Features) -> Seq<char> {
    if features.source_location {
        "], ::core::option::Option::Some(file!()), ::core::option::Option::Some(line!())); } }"@
    } else {
        "], ::core::option::Option::None, ::core::option::Option::None); } }"@
    }
}

/// The code of a log call whose level is compiled.
pub open spec fn body_text(
    level: Seq<char>,
    ctx: Seq<char>,
    msg: Seq<char>,
    audience: Option<Seq<char>>,
    kvs: Seq<(Seq<char>, Seq<char>)>,
    features: Features,
) -> Seq<char> {
    audience_text(audience, features) + msg + "; "@ + bindings_text(kvs)
        + "::eden_logger::emit_direct(::eden_logger::LogLevel::"@ + level + ", &__msg, &"@ + ctx
        + ", __aud, &["@ + entries_text(kvs) + location_args_text(features)
}

fn append_bool(out: &mut String, value: bool)
    ensures
        final(out)@ == old(out)@ + bool_text(value),
{
    if value {
        out.append("true");
    } else {
        out.append("false");
    }
}

fn append_audience(out: &mut String, audience: &Option<String>, features: &Features)
    ensures
        final(out)@ == old(out)@ + audience_text(crate::context::text_of(*audience), *features),
{
    let ghost start = out@;
    out.append("{ let __aud = ");
    match audience {
        Some(expr) => {
            out.append(expr.as_str());
        },
        None => {
            out.append("::eden_logger::LogAudience::Internal");
        },
    }
    out.append("; let __enabled: bool = match __aud { ::eden_logger::LogAudience::Client => ");
    append_bool(out, features.log_client);
    out.append(", ::eden_logger::LogAudience::Internal => ");
    append_bool(out, features.log_internal);
    out.append(", ::eden_logger::LogAudience::Both => ");
    append_bool(out, features.log_both);
    out.append(", }; if __enabled { let __msg = ");
    assert(out@ =~= start + audience_text(crate::context::text_of(*audience), *features));
}

fn append_bindings(out: &mut String, kvs: &Vec<Kv>)
    ensures
        final(out)@ == old(out)@ + bindings_text(kv_texts(kvs@)),
{
    let ghost start = out@;
    let ghost all = kv_texts(kvs@);
    let mut i: usize = 0;
    assert(out@ =~= start + bindings_text(all.take(0)));
    while i < kvs.len()
        invariant
            i <= kvs@.len(),
            all == kv_texts(kvs@),
            out@ == start + bindings_text(all.take(i as int)),
        decreases kvs@.len() - i,
    {
        out.append("let __kv");
        let number = text::format_integer(i as i128);
        out.append(number.as_str());
        out.append(" = &(");
        out.append(kvs[i].val.as_str());
        out.append(") as &dyn ::core::fmt::Display; ");
        i = i + 1;
        assert(all.take(i as int).drop_last() =~= all.take(i - 1));
        assert(out@ =~= start + bindings_text(all.take(i as int)));
    }
    assert(all.take(i as int) =~= all);
}

fn append_entries(out: &mut String, kvs: &Vec<Kv>)
    ensures
        final(out)@ == old(out)@ + entries_text(kv_texts(kvs@)),
{
    let ghost start = out@;
    let ghost all = kv_texts(kvs@);
    let mut i: usize = 0;
    assert(out@ =~= start + entries_text(all.take(0)));
    while i < kvs.len()
        invariant
            i <= kvs@.len(),
            all == kv_texts(kvs@),
            out@ == start + entries_text(all.take(i as int)),
        decreases kvs@.len() - i,
    {
        out.append("(stringify!(");
        out.append(kvs[i].key.as_str());
        out.append("), __kv");
        let number = text::format_integer(i as i128);
        out.append(number.as_str());
        out.append("),");
        i = i + 1;
        assert(all.take(i as int).drop_last() =~= all.take(i - 1));
        assert(out@ =~= start + entries_text(all.take(i as int)));
    }
    assert(all.take(i as int) =~= all);
}

/// The code of a log call whose level is compiled.
pub fn gen_body(
    level_ident: &str,
    ctx: &str,
    msg: &str,
    audience: &Option<String>,
    kvs: &Vec<Kv>,
    features: &Features,
) -> (body: String)
    ensures
        body@ == body_text(
            level_ident@,
            ctx@,
            msg@,
            crate::context::text_of(*audience),
            kv_texts(kvs@),
            *features,
        ),
{
    let mut out = String::new();
    append_audience(&mut out, audience, features);
    out.append(msg);
    out.append("; ");
    append_bindings(&mut out, kvs);
    out.append("::eden_logger::emit_direct(::eden_logger::LogLevel::");
    out.append(level_ident);
    out.append(", &__msg, &");
    out.append(ctx);
    out.append(", __aud, &[");
    append_entries(&mut out, kvs);
    if features.source_location {
        out.append(
            "], ::core::option::Option::Some(file!()), ::core::option::Option::Some(line!())); } }",
        );
    } else {
        out.append("], ::core::option::Option::None, ::core::option::Option::None); } }");
    }
    assert(out@ =~= body_text(
        level_ident@,
        ctx@,
        msg@,
        crate::context::text_of(*audience),
        kv_texts(kvs@),
        *features,
    ));
    out
}

/// The name of an audience in its enum.
pub open spec fn audience_name(audience: LogAudience) -> Seq<char> {
    match audience {
        LogAudience::Internal => "Internal"@,
        LogAudience::Client => "Client"@,
        LogAudience::Both => "Both"@,
    }
}

/// Whether a name can stand in a path: an identifier, or a keyword that stands for a module or a
/// type.
pub open spec fn is_segment(name: Seq<char>) -> bool {
    is_identifier(name) || name == "crate"@ || name == "self"@ || name == "super"@ || name
        == "Self"@
}

/// What stands between the colons of a text, without the white space around it.
pub open spec fn between_colons(code: Seq<char>) -> Seq<Seq<char>> {
    text::split(code, ':').map_values(|part: Seq<char>| text::trimmed(part))
}

/// Whether a text is a path of names with `::` between them, and perhaps in front of them, that ends
/// in an enum and a variant.
pub open spec fn is_path_to(code: Seq<char>, name: Seq<char>, variant: Seq<char>) -> bool {
    let raw = text::split(code, ':');
    let parts = between_colons(code);
    let n = parts.len() as int;
    &&& n >= 3
    &&& n % 2 == 1
    &&& parts[n - 1] == variant
    &&& parts[n - 3] == name
    &&& forall|i: int| 0 <= i < n && i % 2 == 1 ==> (#[trigger] raw[i]).len() == 0
    &&& forall|i: int|
        0 <= i < n - 3 && i % 2 == 0 ==> is_segment(#[trigger] parts[i]) || (i == 0
            && parts[i].len() == 0)
}

/// The audience that an expression names: `LogAudience::Client`, for one, or a longer path to it. The
/// audience of any other expression is known only when it is evaluated.
pub open spec fn named_audience(expr: Seq<char>) -> Option<LogAudience> {
    if is_path_to(expr, "LogAudience"@, audience_name(LogAudience::Internal)) {
        Some(LogAudience::Internal)
    } else if is_path_to(expr, "LogAudience"@, audience_name(LogAudience::Client)) {
        Some(LogAudience::Client)
    } else if is_path_to(expr, "LogAudience"@, audience_name(LogAudience::Both)) {
        Some(LogAudience::Both)
    } else {
        None
    }
}

/// The audience of a call, where it is known before the call is evaluated: internal where none is
/// given.
pub open spec fn known_audience(audience: Option<Seq<char>>) -> Option<LogAudience> {
    match audience {
        Some(expr) => named_audience(expr),
        None => Some(LogAudience::Internal),
    }
}

fn can_be_segment(name: &str) -> (can: bool)
    ensures
        can == is_segment(name@),
{
    parses_as_identifier(name) || text::same_text(name, "crate") || text::same_text(name, "self")
        || text::same_text(name, "super") || text::same_text(name, "Self")
}

fn is_named(code: &str, name: &str, variant: &str) -> (named: bool)
    ensures
        named == is_path_to(code@, name@, variant@),
{
    let chars = text::to_chars(code);
    let raw = text::split_at_each(&chars, ':');
    let ghost split = text::split(code@, ':');
    let ghost parts = between_colons(code@);
    let n: usize = raw.len();
    proof {
        assert(text::part_texts(raw@).len() == raw@.len());
        assert(parts.len() == n);
    }
    if n < 3 || n % 2 != 1 {
        return false;
    }
    let mut i: usize = 0;
    while i < n
        invariant
            i <= n,
            n >= 3,
            n % 2 == 1,
            n == raw@.len(),
            parts == between_colons(code@),
            split == text::split(code@, ':'),
            parts.len() == n,
            split.len() == n,
            text::part_texts(raw@) == split,
            forall|j: int| 0 <= j < i && j % 2 == 1 ==> (#[trigger] split[j]).len() == 0,
            forall|j: int|
                0 <= j < i && j < n - 3 && j % 2 == 0 ==> is_segment(#[trigger] parts[j]) || (j
                    == 0 && parts[j].len() == 0),
            i > n - 3 ==> parts[n - 3] == name@,
            i == n ==> parts[n - 1] == variant@,
        decreases n - i,
    {
        assert(text::part_texts(raw@)[i as int] == raw@[i as int]@);
        assert(split[i as int] == raw@[i as int]@);
        if i % 2 == 1 {
            if raw[i].len() > 0 {
                assert(split[i as int].len() != 0);
                return false;
            }
        } else {
            let inner = text::trim(&raw[i]);
            let part = text::to_text(&inner);
            assert(part@ == parts[i as int]);
            let fits = if i == n - 1 {
                text::same_text(part.as_str(), variant)
            } else if i == n - 3 {
                text::same_text(part.as_str(), name)
            } else {
                can_be_segment(part.as_str()) || (i == 0 && inner.len() == 0)
            };
            if !fits {
                return false;
            }
        }
        i = i + 1;
    }
    true
}

fn find_audience(audience: &Option<String>) -> (known: Option<LogAudience>)
    ensures
        known == known_audience(crate::context::text_of(*audience)),
{
    match audience {
        Some(expr) => {
            if is_named(expr.as_str(), "LogAudience", "Internal") {
                Some(LogAudience::Internal)
            } else if is_named(expr.as_str(), "LogAudience", "Client") {
                Some(LogAudience::Client)
            } else if is_named(expr.as_str(), "LogAudience", "Both") {
                Some(LogAudience::Both)
            } else {
                None
            }
        },
        None => Some(LogAudience::Internal),
    }
}

/// Whether a call is compiled: the feature of its level is on, and so is that of its audience, unless
/// its audience is known only when it is evaluated.
pub open spec fn is_compiled(level: LogLevel, args: LogArgs, features: Features) -> bool {
    &&& features.has_level(level)
    &&& known_audience(audience_in(args.rest@)) matches Some(audience) ==> features.has_audience(
        audience,
    )
}

/// The code of a log call: nothing where the call is not compiled.
pub open spec fn call_text(
    level: LogLevel,
    ident: Seq<char>,
    args: LogArgs,
    features: Features,
) -> Seq<char> {
    if is_compiled(level, args, features) {
        body_text(
            ident,
            args.ctx@,
            args.msg@,
            audience_in(args.rest@),
            pairs_in(args.rest@),
            features,
        )
    } else {
        "{}"@
    }
}

/// A call is compiled away where the feature of its level or the feature of the audience that it
/// names is off, whatever its other arguments are.
pub proof fn law_a_call_needs_both_features(
    level: LogLevel,
    audience: LogAudience,
    ident: Seq<char>,
    args: LogArgs,
    features: Features,
)
    requires
        known_audience(audience_in(args.rest@)) == Some(audience),
    ensures
        call_text(level, ident, args, features) == "{}"@ <==> !(features.has_level(level)
            && features.has_audience(audience)),
{
    if is_compiled(level, args, features) {
        let body = call_text(level, ident, args, features);
        let start = audience_text(audience_in(args.rest@), features);
        reveal_strlit("{ let __aud = ");
        reveal_strlit("{}");
        assert(start[1] == ' ');
        assert(body[1] == ' ');
        assert("{}"@[1] == '}');
    }
}

fn expand(compiled: bool, ident: &str, args: &LogArgs, features: &Features) -> (code: String)
    ensures
        code@ == if compiled && (known_audience(audience_in(args.rest@)) matches Some(audience)
            ==> features.has_audience(audience)) {
            body_text(
                ident@,
                args.ctx@,
                args.msg@,
                audience_in(args.rest@),
                pairs_in(args.rest@),
                *features,
            )
        } else {
            "{}"@
        },
{
    if !compiled {
        return "{}".to_owned();
    }
    let (ctx, msg, audience, kvs) = split_args(args);
    match find_audience(&audience) {
        Some(known) => {
            if !features.compiles(known) {
                return "{}".to_owned();
            }
        },
        None => {},
    }
    gen_body(ident, ctx.as_str(), msg.as_str(), &audience, &kvs, features)
}

/// The code of `log_trace!`.
pub fn log_trace(args: &LogArgs, features: &Features) -> (code: String)
    ensures
        code@ == call_text(LogLevel::Trace, "Trace"@, *args, *features),
{
    expand(features.log_trace, "Trace", args, features)
}

/// The code of `log_debug!`.
pub fn log_debug(args: &LogArgs, features: &Features) -> (code: String)
    ensures
        code@ == call_text(LogLevel::Debug, "Debug"@, *args, *features),
{
    expand(features.log_debug, "Debug", args, features)
}

/// The code of `log_info!`.
pub fn log_info(args: &LogArgs, features: &Features) -> (code: String)
    ensures
        code@ == call_text(LogLevel::Info, "Info"@, *args, *features),
{
    expand(features.log_info, "Info", args, features)
}

/// The code of `log_warn!`.
pub fn log_warn(args: &LogArgs, features: &Features) -> (code: String)
    ensures
        code@ == call_text(LogLevel::Warn, "Warn"@, *args, *features),
{
    expand(features.log_warn, "Warn", args, features)
}

/// The code of `log_error!`.
pub fn log_error(args: &LogArgs, features: &Features) -> (code: String)
    ensures
        code@ == call_text(LogLevel::Error, "Error"@, *args, *features),
{
    expand(features.log_error, "Error", args, features)
}

/// The code of `ctx_with_trace!`: a context with the IDs of the current span, and with the name of
/// the enclosing function where that feature is on. Without a type the context has no request
/// fields.
pub fn ctx_with_trace(ty: &str, features: &Features) -> (code: String)
    ensures
        code@ == "::eden_logger::trace_context::<"@ + (if ty@.len() == 0 {
            "()"@
        } else {
            ty@
        }) + (if features.function_name {
            ">().with_function(function_name!())"@
        } else {
            ">()"@
        }),
{
    let chars = text::to_chars(ty);
    let mut out = String::new();
    out.append("::eden_logger::trace_context::<");
    if chars.len() == 0 {
        out.append("()");
    } else {
        out.append(ty);
    }
    if features.function_name {
        out.append(">().with_function(function_name!())");
    } else {
        out.append(">()");
    }
    assert(out@ =~= "::eden_logger::trace_context::<"@ + (if ty@.len() == 0 {
        "()"@
    } else {
        ty@
    }) + (if features.function_name {
        ">().with_function(function_name!())"@
    } else {
        ">()"@
    }));
    out
}

/// Each level and each audience has a feature of its own: a call of the level and for the audience
/// that it names is compiled exactly where both are on, whatever the other features are.
pub proof fn law_each_call_goes_by_its_own_features(
    level: LogLevel,
    audience: LogAudience,
    ident: Seq<char>,
    args: LogArgs,
    features: Features,
)
    requires
        known_audience(audience_in(args.rest@)) == Some(audience),
    ensures
        ({
            let level_on = (level == LogLevel::Trace && features.log_trace) || (level
                == LogLevel::Debug && features.log_debug) || (level == LogLevel::Info
                && features.log_info) || (level == LogLevel::Warn && features.log_warn) || (level
                == LogLevel::Error && features.log_error);
            let audience_on = (audience == LogAudience::Internal && features.log_internal) || (
            audience == LogAudience::Client && features.log_client) || (audience
                == LogAudience::Both && features.log_both);
            call_text(level, ident, args, features) != "{}"@ <==> level_on && audience_on
        }),
{
    law_a_call_needs_both_features(level, audience, ident, args, features);
}

proof fn lemma_path_parts(rest: Seq<char>, last: Seq<char>)
    requires
        !last.contains(':'),
    ensures
        text::split(rest + "::"@ + last, ':') == text::split(rest, ':') + seq![
            Seq::<char>::empty(),
            last,
        ],
{
    reveal_strlit("::");
    let none = Seq::<char>::empty();
    text::lemma_split_whole(last, ':');
    text::lemma_split_whole(none, ':');
    text::law_split_at_a_separator(none, last, ':');
    text::law_split_at_a_separator(rest, none + seq![':'] + last, ':');
    assert(rest + "::"@ + last =~= rest + seq![':'] + (none + seq![':'] + last));
    assert(seq![none] + seq![last] =~= seq![none, last]);
    assert(text::split(rest + "::"@ + last, ':') =~= text::split(rest, ':') + seq![none, last]);
}

proof fn lemma_is_bare(name: Seq<char>)
    requires
        name.len() > 0,
        forall|i: int| 0 <= i < name.len() ==> 'A' <= #[trigger] name[i] <= 'z',
    ensures
        text::trimmed(name) == name,
{
    assert(!text::is_white_space(name[0]));
    assert(!text::is_white_space(name.last()));
    assert(text::trim_start(name) == name);
}

proof fn lemma_audience_names(audience: LogAudience)
    ensures
        audience_name(audience).len() > 0,
        forall|i: int|
            0 <= i < audience_name(audience).len() ==> 'A' <= #[trigger] audience_name(audience)[i]
                <= 'z',
        !audience_name(audience).contains(':'),
        forall|other: LogAudience|
            other != audience ==> #[trigger] audience_name(other) != audience_name(audience),
        "LogAudience"@.len() > 0,
        forall|i: int| 0 <= i < "LogAudience"@.len() ==> 'A' <= #[trigger] "LogAudience"@[i] <= 'z',
        !"LogAudience"@.contains(':'),
{
    reveal_strlit("Internal");
    reveal_strlit("Client");
    reveal_strlit("Both");
    reveal_strlit("LogAudience");
    assert("Internal"@.len() == 8);
    assert("Client"@.len() == 6);
    assert("Both"@.len() == 4);
}

/// An audience is known from the path to its variant, with and without a module in front.
pub proof fn law_an_audience_is_named_by_its_path(audience: LogAudience, module: Seq<char>)
    requires
        is_segment(module),
        text::trimmed(module) == module,
        !module.contains(':'),
    ensures
        named_audience("LogAudience"@ + "::"@ + audience_name(audience)) == Some(audience),
        named_audience(module + "::"@ + "LogAudience"@ + "::"@ + audience_name(audience)) == Some(
            audience,
        ),
{
    let name = audience_name(audience);
    let ty = "LogAudience"@;
    let none = Seq::<char>::empty();
    lemma_audience_names(audience);
    lemma_is_bare(name);
    lemma_is_bare(ty);
    assert(text::trimmed(none) =~= none);
    text::lemma_split_whole(ty, ':');
    text::lemma_split_whole(module, ':');
    let short = ty + "::"@ + name;
    lemma_path_parts(ty, name);
    assert(text::split(short, ':') =~= seq![ty, none, name]);
    assert(between_colons(short) =~= seq![ty, none, name]);
    assert(is_path_to(short, ty, name));
    let long = module + "::"@ + ty + "::"@ + name;
    lemma_path_parts(module, ty);
    lemma_path_parts(module + "::"@ + ty, name);
    assert(text::split(long, ':') =~= seq![module, none, ty, none, name]);
    assert(between_colons(long) =~= seq![module, none, ty, none, name]);
    assert(is_path_to(long, ty, name));
}

}
