use eden_logger::context::{LogAudience, LogContext};
use eden_logger::fields::{FieldWriter, RequestFields};

#[derive(Default)]
struct AppRequest {
    tenant_id: Option<String>,
    user_id: Option<String>,
}

impl RequestFields for AppRequest {
    fn write_display<W: FieldWriter>(&self, w: &mut W) {
        if let Some(v) = &self.tenant_id {
            w.write_str("tenant", v);
        }
        if let Some(v) = &self.user_id {
            w.write_str("user", v);
        }
    }

    fn write_json<W: FieldWriter>(&self, w: &mut W) {
        if let Some(v) = &self.tenant_id {
            w.write_str("tenant_id", v);
        }
        if let Some(v) = &self.user_id {
            w.write_str("user_id", v);
        }
    }

    fn duplicate(&self) -> Self {
        AppRequest { tenant_id: self.tenant_id.clone(), user_id: self.user_id.clone() }
    }

    fn merge(&mut self, other: Self) {
        if other.tenant_id.is_some() {
            self.tenant_id = other.tenant_id;
        }
        if other.user_id.is_some() {
            self.user_id = other.user_id;
        }
    }
}

fn pairs(context: &LogContext<()>) -> Vec<(String, String)> {
    let mut found = Vec::new();
    if let Some(map) = &context.additional {
        for i in 0..map.len() {
            found.push((map.key_at(i).to_string(), map.value_at(i).to_string()));
        }
    }
    found
}

#[test]
fn test_context_builder() {
    let ctx = LogContext::<()>::new().with_feature("test").with_additional("key", "value");

    assert_eq!(ctx.feature.as_deref(), Some("test"));
    assert_eq!(ctx.additional.as_ref().and_then(|m| m.get("key")).map(|s| s.as_str()), Some("value"));
}

#[test]
fn test_context_merge() {
    let ctx1 = LogContext::<()>::new().with_feature("feature1");
    let ctx2 = LogContext::<()>::new().with_error_code("E001");

    let merged = ctx1.merge(ctx2);

    assert_eq!(merged.feature.as_deref(), Some("feature1"));
    assert_eq!(merged.error_code.as_deref(), Some("E001"));
}

#[test]
fn test_context_merge_override() {
    let ctx1 = LogContext::<()>::new().with_feature("feature1");
    let ctx2 = LogContext::<()>::new().with_feature("feature2");

    let merged = ctx1.merge(ctx2);

    assert_eq!(merged.feature.as_deref(), Some("feature2"));
}

#[test]
fn test_audience_display() {
    assert_eq!(LogAudience::Internal.to_string(), "INTERNAL");
    assert_eq!(LogAudience::Client.to_string(), "CLIENT");
    assert_eq!(LogAudience::Both.to_string(), "BOTH");
}

#[test]
fn test_with_fresh_span() {
    let ctx = LogContext::<()>::new().with_trace_id("trace-123").with_span_id("span-456").with_feature("test");

    let fresh = ctx.with_fresh_span();

    assert_eq!(fresh.trace_id.as_deref(), Some("trace-123"));
    assert!(fresh.span_id.is_none());
    assert_eq!(fresh.feature.as_deref(), Some("test"));
}

#[test]
fn every_builder_sets_its_own_field() {
    let ctx = LogContext::empty()
        .with_trace_id("t")
        .with_span_id("s")
        .with_feature("f")
        .with_function("fn")
        .with_error_code("E1")
        .with_error_category("io");
    assert_eq!(ctx.trace_id.as_deref(), Some("t"));
    assert_eq!(ctx.span_id.as_deref(), Some("s"));
    assert_eq!(ctx.feature.as_deref(), Some("f"));
    assert_eq!(ctx.function.as_deref(), Some("fn"));
    assert_eq!(ctx.error_code.as_deref(), Some("E1"));
    assert_eq!(ctx.error_category.as_deref(), Some("io"));
    assert!(ctx.additional.is_none());

    let blank = LogContext::<()>::default();
    assert!(blank.trace_id.is_none() && blank.function.is_none() && blank.additional.is_none());
}

#[test]
fn an_additional_key_is_kept_once() {
    let ctx = LogContext::empty()
        .with_additional("a", "1")
        .with_additional("b", "2")
        .with_additional("a", "3");
    let expected = vec![("a".to_string(), "3".to_string()), ("b".to_string(), "2".to_string())];
    assert_eq!(pairs(&ctx), expected);
}

#[test]
fn merging_prefers_the_other_context_and_unites_the_metadata() {
    let base = LogContext::empty()
        .with_trace_id("base")
        .with_feature("kept")
        .with_additional("a", "1")
        .with_additional("b", "2");
    let other = LogContext::empty().with_trace_id("other").with_additional("b", "3").with_additional("c", "4");
    let merged = base.merge(other);
    assert_eq!(merged.trace_id.as_deref(), Some("other"));
    assert_eq!(merged.feature.as_deref(), Some("kept"));
    let map = merged.additional.as_ref().unwrap();
    assert_eq!(map.len(), 3);
    assert_eq!(map.get("a").map(|s| s.as_str()), Some("1"));
    assert_eq!(map.get("b").map(|s| s.as_str()), Some("3"));
    assert_eq!(map.get("c").map(|s| s.as_str()), Some("4"));
}

#[test]
fn merging_is_associative_and_a_blank_context_is_neutral() {
    let a = || LogContext::empty().with_feature("a").with_additional("k", "a");
    let b = || LogContext::empty().with_function("b").with_additional("k", "b").with_additional("l", "b");
    let c = || LogContext::empty().with_feature("c").with_additional("l", "c");

    let left = a().merge(b()).merge(c());
    let right = a().merge(b().merge(c()));
    assert_eq!(left.feature, right.feature);
    assert_eq!(left.function, right.function);
    assert_eq!(pairs(&left), pairs(&right));

    let same = a().merge(LogContext::empty());
    assert_eq!(same.feature.as_deref(), Some("a"));
    assert_eq!(pairs(&same), pairs(&a()));
}

#[test]
fn request_fields_are_set_mapped_and_merged() {
    let ctx = LogContext::<AppRequest>::new()
        .with_request(AppRequest { tenant_id: Some("tenant-123".to_string()), user_id: None })
        .map_request(|request| AppRequest { user_id: Some("user-456".to_string()), ..request });
    assert_eq!(ctx.request.tenant_id.as_deref(), Some("tenant-123"));
    assert_eq!(ctx.request.user_id.as_deref(), Some("user-456"));

    let other = LogContext::<AppRequest>::new()
        .with_request(AppRequest { tenant_id: Some("other".to_string()), user_id: None });
    let merged = ctx.merge(other);
    assert_eq!(merged.request.tenant_id.as_deref(), Some("other"));
    assert_eq!(merged.request.user_id.as_deref(), Some("user-456"));

    let copy = merged.clone();
    assert_eq!(copy.request.tenant_id.as_deref(), Some("other"));
}
