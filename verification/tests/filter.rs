use eden_logger::filter::{
    clear_filter, disable_levels, enable_levels, ensure_filter_initialized, init_from_env, init_from_value,
    should_log, LevelFilter, DISABLED_ALL,
};
use eden_logger::schema::LogLevel;

const LEVELS: [LogLevel; 5] = [LogLevel::Trace, LogLevel::Debug, LogLevel::Info, LogLevel::Warn, LogLevel::Error];

fn cleared() -> LevelFilter {
    let mut filter = LevelFilter::new();
    clear_filter(&mut filter);
    filter
}

fn emitted(filter: &LevelFilter) -> Vec<LogLevel> {
    LEVELS.iter().copied().filter(|level| should_log(filter, *level)).collect()
}

#[test]
fn test_default_allows_all() {
    let filter = cleared();
    assert!(should_log(&filter, LogLevel::Trace));
    assert!(should_log(&filter, LogLevel::Debug));
    assert!(should_log(&filter, LogLevel::Info));
    assert!(should_log(&filter, LogLevel::Warn));
    assert!(should_log(&filter, LogLevel::Error));
}

#[test]
fn test_enable_specific_levels() {
    let mut filter = cleared();
    enable_levels(&mut filter, &[LogLevel::Info, LogLevel::Warn]);

    assert!(!should_log(&filter, LogLevel::Trace));
    assert!(!should_log(&filter, LogLevel::Debug));
    assert!(should_log(&filter, LogLevel::Info));
    assert!(should_log(&filter, LogLevel::Warn));
    assert!(!should_log(&filter, LogLevel::Error));
}

#[test]
fn test_enable_then_disable() {
    let mut filter = cleared();
    enable_levels(&mut filter, &[LogLevel::Info, LogLevel::Warn, LogLevel::Error]);
    disable_levels(&mut filter, &[LogLevel::Warn]);

    assert!(!should_log(&filter, LogLevel::Trace));
    assert!(!should_log(&filter, LogLevel::Debug));
    assert!(should_log(&filter, LogLevel::Info));
    assert!(!should_log(&filter, LogLevel::Warn));
    assert!(should_log(&filter, LogLevel::Error));
}

#[test]
fn test_error_only() {
    let mut filter = cleared();
    enable_levels(&mut filter, &[LogLevel::Error]);

    assert!(!should_log(&filter, LogLevel::Trace));
    assert!(!should_log(&filter, LogLevel::Debug));
    assert!(!should_log(&filter, LogLevel::Info));
    assert!(!should_log(&filter, LogLevel::Warn));
    assert!(should_log(&filter, LogLevel::Error));
}

#[test]
fn test_explicit_disable_all() {
    let mut filter = cleared();
    filter.enabled = 0x80;

    assert!(!should_log(&filter, LogLevel::Trace));
    assert!(!should_log(&filter, LogLevel::Debug));
    assert!(!should_log(&filter, LogLevel::Info));
    assert!(!should_log(&filter, LogLevel::Warn));
    assert!(!should_log(&filter, LogLevel::Error));
    assert_eq!(filter.enabled, DISABLED_ALL);
}

#[test]
fn a_value_lists_the_levels_that_are_emitted() {
    let mut filter = LevelFilter::new();
    init_from_value(&mut filter, "info;warn");
    assert_eq!(emitted(&filter), vec![LogLevel::Info, LogLevel::Warn]);

    let mut filter = LevelFilter::new();
    init_from_value(&mut filter, " ERROR ; Trace;unknown;;");
    assert_eq!(emitted(&filter), vec![LogLevel::Trace, LogLevel::Error]);
}

#[test]
fn an_empty_value_or_none_emits_nothing() {
    for value in ["", "   ", "none", "NONE", " None "] {
        let mut filter = LevelFilter::new();
        init_from_value(&mut filter, value);
        assert_eq!(emitted(&filter), Vec::<LogLevel>::new(), "{value:?}");
    }
}

#[test]
fn a_value_of_unknown_names_alone_emits_nothing() {
    for value in ["bogus", "verbose", ";", "bogus; verbose"] {
        let mut filter = LevelFilter::new();
        init_from_value(&mut filter, value);
        assert_eq!(emitted(&filter), Vec::<LogLevel>::new(), "{value:?}");
    }
}

#[test]
fn the_environment_is_read_once() {
    let mut filter = LevelFilter::new();
    ensure_filter_initialized(&mut filter, Some("warn"));
    assert_eq!(emitted(&filter), vec![LogLevel::Warn]);
    ensure_filter_initialized(&mut filter, Some("error"));
    assert_eq!(emitted(&filter), vec![LogLevel::Warn]);

    let mut unset = LevelFilter::new();
    init_from_env(&mut unset, None);
    assert_eq!(emitted(&unset).len(), 5);
}

#[test]
fn a_disabled_level_is_not_emitted_whatever_the_filter_was() {
    let mut unfiltered = cleared();
    disable_levels(&mut unfiltered, &[LogLevel::Debug]);
    assert_eq!(emitted(&unfiltered), vec![LogLevel::Trace, LogLevel::Info, LogLevel::Warn, LogLevel::Error]);

    let mut single = cleared();
    enable_levels(&mut single, &[LogLevel::Error]);
    disable_levels(&mut single, &[LogLevel::Error]);
    assert_eq!(emitted(&single), Vec::<LogLevel>::new());

    enable_levels(&mut single, &[LogLevel::Info]);
    assert!(should_log(&single, LogLevel::Info));
    clear_filter(&mut single);
    assert_eq!(emitted(&single).len(), 5);
}
