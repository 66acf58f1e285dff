use eden_logger::macros::{
    ctx_with_trace, gen_body, log_debug, log_error, log_info, log_trace, log_warn, split_args, CallPart, Features,
    Kv, LogArgs, ParseError, RestItem,
};

fn all() -> Features {
    Features {
        log_trace: true,
        log_debug: true,
        log_info: true,
        log_warn: true,
        log_error: true,
        log_internal: true,
        log_client: false,
        log_both: true,
        source_location: false,
        function_name: false,
    }
}

fn tokens(code: &str) -> String {
    let stream: proc_macro2::TokenStream = code.parse().expect("tokens");
    stream.to_string()
}

fn parsed(code: &str) -> LogArgs {
    LogArgs::parse(code).expect("arguments")
}

#[test]
fn arguments_are_a_context_a_message_and_pairs() {
    let args = parsed("ctx.clone(), \"hi, there\", audience = LogAudience::Both, id = a + f(1, 2)");
    assert_eq!(args.ctx, tokens("ctx.clone()"));
    assert_eq!(args.msg, "\"hi, there\"");
    assert_eq!(args.rest.len(), 2);
    assert!(matches!(&args.rest[0], RestItem::Audience { expr } if *expr == tokens("LogAudience::Both")));
    assert!(matches!(&args.rest[1], RestItem::Pair { kv } if kv.key == "id" && kv.val == tokens("a + f(1, 2)")));
}

#[test]
fn expressions_end_where_the_language_says() {
    let args = parsed("ctx, format!(\"{}\", x), list = Vec::<(u8, u8)>::new(), f = |a, b| a + b, z = x = y");
    assert_eq!(args.rest.len(), 3);
    assert!(matches!(&args.rest[1], RestItem::Pair { kv } if kv.val == tokens("|a, b| a + b")));
    assert!(matches!(&args.rest[2], RestItem::Pair { kv } if kv.key == "z" && kv.val == tokens("x = y")));
}

#[test]
fn a_comma_may_stand_at_the_end() {
    assert_eq!(parsed("ctx, \"m\",").rest.len(), 0);
    assert_eq!(parsed("ctx, \"m\", k = 1,").rest.len(), 1);
}

#[test]
fn other_arguments_are_refused() {
    assert_eq!(LogArgs::parse("").unwrap_err(), ParseError::MissingArgument);
    assert_eq!(LogArgs::parse("ctx").unwrap_err(), ParseError::MissingArgument);
    assert_eq!(LogArgs::parse("ctx, \"m\", 1").unwrap_err(), ParseError::NotAPair);
    assert_eq!(LogArgs::parse("ctx, \"m\", a.b = 1").unwrap_err(), ParseError::NotAPair);
    assert_eq!(LogArgs::parse("ctx, \"m\", self = 1").unwrap_err(), ParseError::NotAPair);
    assert_eq!(LogArgs::parse("ctx \"m\"").unwrap_err(), ParseError::NotExpressions);
    assert_eq!(LogArgs::parse("ctx, \"m\",, k = 1").unwrap_err(), ParseError::NotExpressions);
    assert_eq!(LogArgs::parse("ctx, (").unwrap_err(), ParseError::NotExpressions);
}

#[test]
fn the_last_audience_counts() {
    let part = |text: &str, pair: Option<(&str, &str)>| CallPart {
        text: text.to_string(),
        pair: pair.map(|(key, expr)| (key.to_string(), expr.to_string())),
    };
    let args = LogArgs::from_parts(&vec![
        part("c", None),
        part("m", None),
        part("", Some(("audience", "A"))),
        part("", Some(("k", "v"))),
        part("", Some(("audience", "B"))),
    ])
    .unwrap();
    let (ctx, msg, audience, kvs) = split_args(&args);
    assert_eq!((ctx.as_str(), msg.as_str()), ("c", "m"));
    assert_eq!(audience.as_deref(), Some("B"));
    assert_eq!(kvs.len(), 1);
    assert_eq!((kvs[0].key.as_str(), kvs[0].val.as_str()), ("k", "v"));
    assert_eq!(LogArgs::from_parts(&vec![part("c", None)]).unwrap_err(), ParseError::MissingArgument);
}

#[test]
fn a_body_tests_the_audience_and_emits_the_line() {
    let kvs = vec![Kv { key: "id".to_string(), val: "7".to_string() }];
    let body = gen_body("Info", "ctx", "\"hi\"", &None, &kvs, &all());
    assert_eq!(
        tokens(&body),
        tokens(
            "{ let __aud = ::eden_logger::LogAudience::Internal;
               let __enabled: bool = match __aud {
                   ::eden_logger::LogAudience::Client => false,
                   ::eden_logger::LogAudience::Internal => true,
                   ::eden_logger::LogAudience::Both => true,
               };
               if __enabled {
                   let __msg = \"hi\";
                   let __kv0 = &(7) as &dyn ::core::fmt::Display;
                   ::eden_logger::emit_direct(::eden_logger::LogLevel::Info, &__msg, &ctx, __aud,
                       &[(stringify!(id), __kv0),], ::core::option::Option::None, ::core::option::Option::None);
               } }"
        )
    );
    let located = gen_body("Warn", "c", "m", &Some("a".to_string()), &Vec::new(), &Features { source_location: true, ..all() });
    assert!(located.contains("::core::option::Option::Some(file!())"));
    assert!(located.contains("let __aud = a;"));
}

#[test]
fn a_level_that_is_off_expands_to_nothing() {
    let args = parsed("ctx, \"m\"");
    let off = Features { log_trace: false, log_debug: false, log_info: false, log_warn: false, log_error: false, ..all() };
    for (code, on, level) in [
        (log_trace(&args, &off), log_trace(&args, &all()), "Trace"),
        (log_debug(&args, &off), log_debug(&args, &all()), "Debug"),
        (log_info(&args, &off), log_info(&args, &all()), "Info"),
        (log_warn(&args, &off), log_warn(&args, &all()), "Warn"),
        (log_error(&args, &off), log_error(&args, &all()), "Error"),
    ] {
        assert_eq!(code, "{}");
        assert!(on.contains(&format!("::eden_logger::LogLevel::{level}, ")));
    }
}

#[test]
fn an_audience_that_is_off_expands_to_nothing() {
    for code in [
        "ctx, \"m\", audience = LogAudience::Client",
        "ctx, \"m\", audience = eden_logger::LogAudience::Client, k = 1",
        "ctx, \"m\", audience = ::eden_logger::context::LogAudience::Client",
    ] {
        assert_eq!(log_info(&parsed(code), &all()), "{}", "{code}");
        let on = Features { log_client: true, ..all() };
        assert!(log_info(&parsed(code), &on).contains("::eden_logger::emit_direct("));
    }
    let default = parsed("ctx, \"m\"");
    assert_eq!(log_info(&default, &Features { log_internal: false, ..all() }), "{}");
    let both = parsed("ctx, \"m\", audience = LogAudience::Both");
    assert_eq!(log_warn(&both, &Features { log_both: false, ..all() }), "{}");

    let evaluated = log_info(&parsed("ctx, \"m\", audience = audience_of(user)"), &all());
    assert!(evaluated.contains("::eden_logger::LogAudience::Client => false"));
    assert!(log_info(&parsed("ctx, \"m\", audience = MyLogAudience::Client"), &all()).len() > 2);
    for code in [
        "ctx, \"m\", audience = return crate::LogAudience::Client",
        "ctx, \"m\", audience = return ::eden_logger::LogAudience::Client",
        "ctx, \"m\", audience = break LogAudience::Client",
        "ctx, \"m\", audience = <T as Audiences>::LogAudience::Client",
        "ctx, \"m\", audience = of::<u8>::LogAudience::Client",
        "ctx, \"m\", audience = !a::LogAudience::Client",
        "ctx, \"m\", audience = LogAudience::Client.or(LogAudience::Client)",
    ] {
        let off = Features { log_client: false, ..all() };
        let expanded = log_info(&parsed(code), &off);
        assert!(expanded.contains("::eden_logger::emit_direct("), "{code}");
    }
    for code in [
        "ctx, \"m\", audience = crate::LogAudience::Client",
        "ctx, \"m\", audience = self::super::LogAudience::Client",
        "ctx, \"m\", audience = r#type::LogAudience::Client",
    ] {
        let off = Features { log_client: false, ..all() };
        assert_eq!(log_info(&parsed(code), &off), "{}", "{code}");
    }
}

#[test]
fn a_traced_context_has_a_type_and_perhaps_the_function() {
    assert_eq!(ctx_with_trace("", &all()), "::eden_logger::trace_context::<()>()");
    assert_eq!(
        ctx_with_trace("App", &Features { function_name: true, ..all() }),
        "::eden_logger::trace_context::<App>().with_function(function_name!())"
    );
}
