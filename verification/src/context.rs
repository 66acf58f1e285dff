//! The context of log records: metadata that accumulates through a builder.

use vstd::prelude::*;

use crate::fields;
use crate::fields::{FieldMap, RequestFields};

verus! {

/// Who a log record is for.
#[derive(Debug, Clone, Copy, PartialEq, Eq, Structural)]
pub enum LogAudience {
    /// Internal logs, which are not sent to clients.
    Internal,
    /// Client-facing logs, which are sent in API responses.
    Client,
    /// Logs for both operators and clients.
    Both,
}

impl LogAudience {
    /// The name of the audience.
    pub open spec fn name(self) -> Seq<char> {
        match self {
            LogAudience::Internal => "INTERNAL"@,
            LogAudience::Client => "CLIENT"@,
            LogAudience::Both => "BOTH"@,
        }
    }

    /// The name of the audience.
    pub fn as_str(&self) -> (name: &'static str)
        ensures
            name@ == self.name(),
    {
        match self {
            LogAudience::Internal => "INTERNAL",
            LogAudience::Client => "CLIENT",
            LogAudience::Both => "BOTH",
        }
    }

    /// The name of the audience, as a string of its own.
    pub fn to_string(&self) -> (name: String)
        ensures
            name@ == self.name(),
    {
        self.as_str().to_owned()
    }
}

/// The text of an optional string.
pub open spec fn text_of(value: Option<String>) -> Option<Seq<char>> {
    match value {
        Some(s) => Some(s@),
        None => None,
    }
}

/// The first value, unless there is a second one.
pub open spec fn overridden<T>(value: Option<T>, by: Option<T>) -> Option<T> {
    if by is Some {
        by
    } else {
        value
    }
}

/// Contextual metadata for log records.
///
/// The request fields of the application live in `R`; `()` has none.
pub struct LogContext<R: RequestFields = ()> {
    pub trace_id: Option<String>,
    pub span_id: Option<String>,
    pub feature: Option<String>,
    pub function: Option<String>,
    pub error_code: Option<String>,
    pub error_category: Option<String>,
    pub request: R,
    pub additional: Option<FieldMap>,
}

impl LogContext<()> {
    /// An empty context without request fields.
    pub fn empty() -> (context: Self)
        ensures
            context.is_blank(),
    {
        LogContext::<()>::new()
    }
}

impl<R: RequestFields> LogContext<R> {
    /// The keys and values of the additional metadata, in order.
    pub open spec fn additional_pairs(&self) -> Seq<(Seq<char>, Seq<char>)> {
        match self.additional {
            Some(map) => map.pairs(),
            None => Seq::empty(),
        }
    }

    /// Whether nothing is set outside the request fields.
    pub open spec fn is_blank(&self) -> bool {
        &&& self.trace_id is None
        &&& self.span_id is None
        &&& self.feature is None
        &&& self.function is None
        &&& self.error_code is None
        &&& self.error_category is None
        &&& self.additional is None
    }

    /// Whether `self` is `base`, overridden by what `by` has.
    pub open spec fn is_merge(&self, base: &Self, by: &Self) -> bool {
        &&& self.trace_id == overridden(base.trace_id, by.trace_id)
        &&& self.span_id == overridden(base.span_id, by.span_id)
        &&& self.feature == overridden(base.feature, by.feature)
        &&& self.function == overridden(base.function, by.function)
        &&& self.error_code == overridden(base.error_code, by.error_code)
        &&& self.error_category == overridden(base.error_category, by.error_category)
        &&& self.request == base.request.merged(by.request)
        &&& self.additional is Some <==> base.additional is Some || by.additional is Some
        &&& self.additional_pairs() == fields::pairs_put_all(
            base.additional_pairs(),
            by.additional_pairs(),
        )
        &&& fields::pairs_map(self.additional_pairs()) == fields::pairs_map(
            base.additional_pairs(),
        ).union_prefer_right(fields::pairs_map(by.additional_pairs()))
    }

    /// An empty context, with the request fields that are the default of `R`.
    pub fn new() -> (context: Self)
        ensures
            context.is_blank(),
            call_ensures(R::default, (), context.request),
    {
        LogContext {
            trace_id: None,
            span_id: None,
            feature: None,
            function: None,
            error_code: None,
            error_category: None,
            request: R::default(),
            additional: None,
        }
    }

    /// Sets the trace ID.
    pub fn with_trace_id(self, trace_id: &str) -> (context: Self)
        ensures
            context == (LogContext { trace_id: context.trace_id, ..self }),
            text_of(context.trace_id) == Some(trace_id@),
    {
        let mut context = self;
        context.trace_id = Some(trace_id.to_owned());
        context
    }

    /// Sets the span ID.
    pub fn with_span_id(self, span_id: &str) -> (context: Self)
        ensures
            context == (LogContext { span_id: context.span_id, ..self }),
            text_of(context.span_id) == Some(span_id@),
    {
        let mut context = self;
        context.span_id = Some(span_id.to_owned());
        context
    }

    /// Sets the feature name, such as "auth" or "database".
    pub fn with_feature(self, feature: &str) -> (context: Self)
        ensures
            context == (LogContext { feature: context.feature, ..self }),
            text_of(context.feature) == Some(feature@),
    {
        let mut context = self;
        context.feature = Some(feature.to_owned());
        context
    }

    /// Sets the function name.
    pub fn with_function(self, function: &str) -> (context: Self)
        ensures
            context == (LogContext { function: context.function, ..self }),
            text_of(context.function) == Some(function@),
    {
        let mut context = self;
        context.function = Some(function.to_owned());
        context
    }

    /// Sets the error code.
    pub fn with_error_code(self, code: &str) -> (context: Self)
        ensures
            context == (LogContext { error_code: context.error_code, ..self }),
            text_of(context.error_code) == Some(code@),
    {
        let mut context = self;
        context.error_code = Some(code.to_owned());
        context
    }

    /// Sets the error category.
    pub fn with_error_category(self, category: &str) -> (context: Self)
        ensures
            context == (LogContext { error_category: context.error_category, ..self }),
            text_of(context.error_category) == Some(category@),
    {
        let mut context = self;
        context.error_category = Some(category.to_owned());
        context
    }

    /// Replaces the request fields.
    pub fn with_request(self, request: R) -> (context: Self)
        ensures
            context == (LogContext { request, ..self }),
    {
        let mut context = self;
        context.request = request;
        context
    }

    /// Replaces the request fields by what a function makes of them.
    pub fn map_request<F: FnOnce(R) -> R>(self, f: F) -> (context: Self)
        requires
            call_requires(f, (self.request,)),
        ensures
            context == (LogContext { request: context.request, ..self }),
            call_ensures(f, (self.request,), context.request),
    {
        LogContext {
            trace_id: self.trace_id,
            span_id: self.span_id,
            feature: self.feature,
            function: self.function,
            error_code: self.error_code,
            error_category: self.error_category,
            request: f(self.request),
            additional: self.additional,
        }
    }

    /// Sets an additional key to a value.
    pub fn with_additional(self, key: &str, value: &str) -> (context: Self)
        ensures
            context == (LogContext { additional: context.additional, ..self }),
            context.additional is Some,
            context.additional_pairs() == fields::pairs_put(self.additional_pairs(), key@, value@),
    {
        let mut context = self;
        let mut map = match context.additional.take() {
            Some(map) => map,
            None => FieldMap::new(),
        };
        map.insert(key, value);
        context.additional = Some(map);
        context
    }

    /// Clears the span ID, and keeps the trace ID: what follows is a sibling under the same trace.
    pub fn with_fresh_span(self) -> (context: Self)
        ensures
            context == (LogContext { span_id: None, ..self }),
    {
        let mut context = self;
        context.span_id = None;
        context
    }

    /// Overrides this context by what another one has.
    pub fn merge(self, other: LogContext<R>) -> (context: Self)
        ensures
            context.is_merge(&self, &other),
    {
        let mut context = self;
        let other = other;
        if other.trace_id.is_some() {
            context.trace_id = other.trace_id;
        }
        if other.span_id.is_some() {
            context.span_id = other.span_id;
        }
        if other.feature.is_some() {
            context.feature = other.feature;
        }
        if other.function.is_some() {
            context.function = other.function;
        }
        if other.error_code.is_some() {
            context.error_code = other.error_code;
        }
        if other.error_category.is_some() {
            context.error_category = other.error_category;
        }
        context.request.merge(other.request);
        let base = context.additional.take();
        context.additional = merge_additional(base, other.additional);
        context
    }
}

fn merge_additional(base: Option<FieldMap>, by: Option<FieldMap>) -> (merged: Option<FieldMap>)
    ensures
        merged is Some <==> base is Some || by is Some,
        additional_of(merged) == fields::pairs_put_all(additional_of(base), additional_of(by)),
        fields::pairs_map(additional_of(merged)) == fields::pairs_map(
            additional_of(base),
        ).union_prefer_right(fields::pairs_map(additional_of(by))),
{
    match by {
        Some(other) => {
            let mut map = match base {
                Some(map) => map,
                None => FieldMap::new(),
            };
            map.extend(&other);
            Some(map)
        },
        None => {
            assert(fields::pairs_map(additional_of(base)) =~= fields::pairs_map(
                additional_of(base),
            ).union_prefer_right(fields::pairs_map(Seq::empty())));
            base
        },
    }
}

spec fn additional_of(map: Option<FieldMap>) -> Seq<(Seq<char>, Seq<char>)> {
    match map {
        Some(map) => map.pairs(),
        None => Seq::empty(),
    }
}

impl<R: RequestFields> Default for LogContext<R> {
    fn default() -> (context: Self)
        ensures
            context.is_blank(),
            call_ensures(R::default, (), context.request),
    {
        LogContext::new()
    }
}

impl<R: RequestFields> Clone for LogContext<R> {
    fn clone(&self) -> (copy: Self)
        ensures
            copy == (LogContext { additional: copy.additional, ..*self }),
            copy.additional is Some <==> self.additional is Some,
            copy.additional_pairs() == self.additional_pairs(),
    {
        LogContext {
            trace_id: self.trace_id.clone(),
            span_id: self.span_id.clone(),
            feature: self.feature.clone(),
            function: self.function.clone(),
            error_code: self.error_code.clone(),
            error_category: self.error_category.clone(),
            request: self.request.duplicate(),
            additional: match &self.additional {
                Some(map) => Some(map.clone()),
                None => None,
            },
        }
    }
}

/// Merging is associative, where merging the request fields is.
pub proof fn law_merge_is_associative<R: RequestFields>(
    a: LogContext<R>,
    b: LogContext<R>,
    c: LogContext<R>,
    ab: LogContext<R>,
    bc: LogContext<R>,
    ab_c: LogContext<R>,
    a_bc: LogContext<R>,
)
    requires
        ab.is_merge(&a, &b),
        ab_c.is_merge(&ab, &c),
        bc.is_merge(&b, &c),
        a_bc.is_merge(&a, &bc),
        a.request.merged(b.request).merged(c.request) == a.request.merged(
            b.request.merged(c.request),
        ),
    ensures
        ab_c.trace_id == a_bc.trace_id,
        ab_c.span_id == a_bc.span_id,
        ab_c.feature == a_bc.feature,
        ab_c.function == a_bc.function,
        ab_c.error_code == a_bc.error_code,
        ab_c.error_category == a_bc.error_category,
        ab_c.request == a_bc.request,
        ab_c.additional is Some <==> a_bc.additional is Some,
        fields::pairs_map(ab_c.additional_pairs()) == fields::pairs_map(a_bc.additional_pairs()),
{
    assert(fields::pairs_map(ab_c.additional_pairs()) =~= fields::pairs_map(
        a_bc.additional_pairs(),
    ));
}

/// Merging a blank context over another one changes nothing outside the request fields.
pub proof fn law_merging_a_blank_context_changes_nothing<R: RequestFields>(
    base: LogContext<R>,
    blank: LogContext<R>,
    merged: LogContext<R>,
)
    requires
        blank.is_blank(),
        merged.is_merge(&base, &blank),
    ensures
        merged == (LogContext {
            request: base.request.merged(blank.request),
            additional: merged.additional,
            ..base
        }),
        merged.additional is Some <==> base.additional is Some,
        merged.additional_pairs() == base.additional_pairs(),
{
}

/// A merged context has each field of the later context that is set, and else that field of the
/// earlier one; it lacks a field only where both lack it. Of additional pairs with one key, the later
/// one stays.
pub proof fn law_the_later_context_wins<R: RequestFields>(
    base: LogContext<R>,
    by: LogContext<R>,
    merged: LogContext<R>,
)
    requires
        merged.is_merge(&base, &by),
    ensures
        by.trace_id is Some ==> merged.trace_id == by.trace_id,
        by.trace_id is None ==> merged.trace_id == base.trace_id,
        by.span_id is Some ==> merged.span_id == by.span_id,
        by.span_id is None ==> merged.span_id == base.span_id,
        by.feature is Some ==> merged.feature == by.feature,
        by.feature is None ==> merged.feature == base.feature,
        by.function is Some ==> merged.function == by.function,
        by.function is None ==> merged.function == base.function,
        by.error_code is Some ==> merged.error_code == by.error_code,
        by.error_code is None ==> merged.error_code == base.error_code,
        by.error_category is Some ==> merged.error_category == by.error_category,
        by.error_category is None ==> merged.error_category == base.error_category,
        merged.request == base.request.merged(by.request),
        forall|key: Seq<char>|
            fields::has_key(by.additional_pairs(), key) ==> #[trigger] fields::pairs_map(
                merged.additional_pairs(),
            )[key] == fields::pairs_map(by.additional_pairs())[key],
        forall|key: Seq<char>|
            fields::has_key(base.additional_pairs(), key) && !fields::has_key(
                by.additional_pairs(),
                key,
            ) ==> #[trigger] fields::pairs_map(merged.additional_pairs())[key]
                == fields::pairs_map(base.additional_pairs())[key],
{
}

}
