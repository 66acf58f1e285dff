//! The runtime level filter: which levels are emitted.
//!
//! A filter is set from a list of level names, as the environment variable `EDEN_LOG_LEVEL` holds
//! it: `info;warn` emits these two levels, and `none`, `off` or an empty list emits none. Without a
//! filter every level is emitted.

use vstd::prelude::*;

use crate::schema::LogLevel;
use crate::text;

verus! {

/// The bit of a level in a mask of enabled levels.
pub open spec fn level_bit(level: LogLevel) -> u8 {
    match level {
        LogLevel::Trace => 1,
        LogLevel::Debug => 2,
        LogLevel::Info => 4,
        LogLevel::Warn => 8,
        LogLevel::Error => 16,
    }
}

fn bit_of(level: LogLevel) -> (bit: u8)
    ensures
        bit == level_bit(level),
{
    match level {
        LogLevel::Trace => 1,
        LogLevel::Debug => 2,
        LogLevel::Info => 4,
        LogLevel::Warn => 8,
        LogLevel::Error => 16,
    }
}

/// The mask of a filter that emits nothing: a bit that belongs to no level.
pub const DISABLED_ALL: u8 = 0x80;

/// Which levels are emitted.
#[derive(Debug, Clone, Copy, PartialEq, Eq, Structural)]
pub struct LevelFilter {
    /// The bits of the levels that are emitted. Zero stands for no filter.
    pub enabled: u8,
    /// Whether the filter was set, or loaded from the environment.
    pub initialized: bool,
}

impl LevelFilter {
    /// Whether there is a filter at all.
    pub open spec fn is_set(self) -> bool {
        self.enabled != 0
    }

    /// Whether a level is emitted.
    pub open spec fn allows(self, level: LogLevel) -> bool {
        !self.is_set() || self.enabled & level_bit(level) != 0
    }

    /// No filter, and nothing loaded from the environment yet.
    pub fn new() -> (filter: LevelFilter)
        ensures
            !filter.is_set(),
            !filter.initialized,
            forall|l: LogLevel| #[trigger] filter.allows(l),
    {
        LevelFilter { enabled: 0, initialized: false }
    }
}

proof fn lemma_level_bits(a: LogLevel, b: LogLevel)
    ensures
        level_bit(a) & level_bit(b) != 0 <==> a == b,
        DISABLED_ALL & level_bit(a) == 0,
        0x1fu8 & level_bit(a) != 0,
        0u8 & level_bit(a) == 0,
{
    let x = level_bit(a);
    let y = level_bit(b);
    assert(x & y != 0 <==> x == y) by (bit_vector)
        requires
            x == 1 || x == 2 || x == 4 || x == 8 || x == 16,
            y == 1 || y == 2 || y == 4 || y == 8 || y == 16,
    ;
    assert(0x80u8 & x == 0 && 0x1fu8 & x != 0 && 0u8 & x == 0) by (bit_vector)
        requires
            x == 1 || x == 2 || x == 4 || x == 8 || x == 16,
    ;
}

proof fn lemma_set_bit(mask: u8, bit: u8, probe: u8)
    ensures
        (mask | bit) & probe != 0 <==> mask & probe != 0 || bit & probe != 0,
{
    assert((mask | bit) & probe != 0 <==> mask & probe != 0 || bit & probe != 0) by (bit_vector);
}

proof fn lemma_clear_bit(mask: u8, bit: u8, probe: u8)
    requires
        bit & probe != 0 <==> bit == probe,
    ensures
        (mask & !bit) & probe != 0 <==> mask & probe != 0 && bit != probe,
{
    assert((mask & !bit) & probe != 0 <==> mask & probe != 0 && bit != probe) by (bit_vector)
        requires
            bit & probe != 0 <==> bit == probe,
    ;
}

/// The level that a name stands for, in letters of either case.
pub open spec fn named_level(name: Seq<char>) -> Option<LogLevel> {
    if text::same_ignoring_case(name, "trace"@) {
        Some(LogLevel::Trace)
    } else if text::same_ignoring_case(name, "debug"@) {
        Some(LogLevel::Debug)
    } else if text::same_ignoring_case(name, "info"@) {
        Some(LogLevel::Info)
    } else if text::same_ignoring_case(name, "warn"@) {
        Some(LogLevel::Warn)
    } else if text::same_ignoring_case(name, "error"@) {
        Some(LogLevel::Error)
    } else {
        None
    }
}

/// The names in a list that is separated by semicolons, without the white space around them.
pub open spec fn listed_names(value: Seq<char>) -> Seq<Seq<char>> {
    text::split(value, ';').map_values(|part: Seq<char>| text::trimmed(part))
}

/// Whether a list names a level.
pub open spec fn lists(value: Seq<char>, level: LogLevel) -> bool {
    exists|i: int|
        0 <= i < listed_names(value).len() && named_level(#[trigger] listed_names(value)[i])
            == Some(level)
}

/// Whether a value stands for no level at all.
pub open spec fn disables_all(value: Seq<char>) -> bool {
    let name = text::trimmed(value);
    name.len() == 0 || text::same_ignoring_case(name, "none"@) || text::same_ignoring_case(
        name,
        "off"@,
    )
}

fn level_of(name: &Vec<char>) -> (level: Option<LogLevel>)
    ensures
        level == named_level(name@),
{
    if text::eq_ignore_case(name, "trace") {
        Some(LogLevel::Trace)
    } else if text::eq_ignore_case(name, "debug") {
        Some(LogLevel::Debug)
    } else if text::eq_ignore_case(name, "info") {
        Some(LogLevel::Info)
    } else if text::eq_ignore_case(name, "warn") {
        Some(LogLevel::Warn)
    } else if text::eq_ignore_case(name, "error") {
        Some(LogLevel::Error)
    } else {
        None
    }
}

/// Loads the filter from the value of the environment variable, where it is set.
pub fn init_from_env(filter: &mut LevelFilter, env_value: Option<&str>)
    ensures
        final(filter).initialized,
        env_value is None ==> final(filter).enabled == old(filter).enabled,
        env_value matches Some(value) ==> loaded_from(*final(filter), value@),
{
    match env_value {
        Some(value) => {
            init_from_value(filter, value);
        },
        None => {},
    }
    filter.initialized = true;
}

/// Whether a filter is what a list of level names sets: the listed levels are emitted, and no others.
pub open spec fn loaded_from(filter: LevelFilter, value: Seq<char>) -> bool {
    &&& filter.is_set()
    &&& forall|l: LogLevel| #[trigger]
        filter.allows(l) <==> !disables_all(value) && lists(value, l)
}

/// Loads the filter from a list of level names.
///
/// Names that stand for no level are passed over; a list of nothing else lets nothing through.
pub fn init_from_value(filter: &mut LevelFilter, value: &str)
    ensures
        final(filter).initialized,
        loaded_from(*final(filter), value@),
{
    let chars = text::to_chars(value);
    let name = text::trim(&chars);
    if name.len() == 0 || text::eq_ignore_case(&name, "none") || text::eq_ignore_case(&name, "off")
    {
        filter.enabled = DISABLED_ALL;
        proof {
            assert forall|l: LogLevel| DISABLED_ALL & #[trigger] level_bit(l) == 0 by {
                lemma_level_bits(l, l);
            }
        }
    } else {
        let parts = text::split_at_each(&chars, ';');
        let ghost names = listed_names(value@);
        assert(names.len() == parts@.len()) by {
            assert(text::part_texts(parts@).len() == parts@.len());
        }
        let mut mask: u8 = 0;
        let mut i: usize = 0;
        proof {
            assert forall|l: LogLevel| 0u8 & #[trigger] level_bit(l) == 0 by {
                lemma_level_bits(l, l);
            }
        }
        while i < parts.len()
            invariant
                i <= parts@.len(),
                names == listed_names(value@),
                names.len() == parts@.len(),
                text::part_texts(parts@) == text::split(value@, ';'),
                forall|l: LogLevel|
                    mask & #[trigger] level_bit(l) != 0 <==> exists|j: int|
                        0 <= j < i && named_level(#[trigger] names[j]) == Some(l),
            decreases parts@.len() - i,
        {
            let part = text::trim(&parts[i]);
            assert(text::part_texts(parts@)[i as int] == parts@[i as int]@);
            assert(part@ == names[i as int]);
            let ghost before = mask;
            match level_of(&part) {
                Some(level) => {
                    mask = mask | bit_of(level);
                    proof {
                        assert forall|l: LogLevel|
                            mask & #[trigger] level_bit(l) != 0 <==> exists|j: int|
                                0 <= j < i + 1 && named_level(#[trigger] names[j]) == Some(l) by {
                            lemma_set_bit(before, level_bit(level), level_bit(l));
                            lemma_level_bits(level, l);
                            if l == level {
                                assert(named_level(names[i as int]) == Some(l));
                            }
                        }
                    }
                },
                None => {},
            }
            i = i + 1;
        }
        filter.enabled = if mask == 0 {
            DISABLED_ALL
        } else {
            mask
        };
        proof {
            assert forall|l: LogLevel| mask & #[trigger] level_bit(l) != 0 <==> lists(value@, l) by {
                if mask & level_bit(l) != 0 {
                    let j = choose|j: int|
                        0 <= j < i && named_level(#[trigger] names[j]) == Some(l);
                    assert(named_level(listed_names(value@)[j]) == Some(l));
                }
            }
            assert forall|l: LogLevel| DISABLED_ALL & #[trigger] level_bit(l) == 0
                && 0u8 & level_bit(l) == 0 by {
                lemma_level_bits(l, l);
            }
        }
    }
    filter.initialized = true;
}

/// Emits further levels. The first levels that are enabled set the filter: from then on only
/// enabled levels are emitted.
pub fn enable_levels(filter: &mut LevelFilter, levels: &[LogLevel])
    ensures
        final(filter).initialized,
        levels@.len() == 0 ==> final(filter).enabled == old(filter).enabled,
        levels@.len() > 0 ==> forall|l: LogLevel| #[trigger]
            final(filter).allows(l) <==> levels@.contains(l) || (old(filter).is_set()
                && old(filter).allows(l)),
{
    let ghost start = filter.enabled;
    let mut mask: u8 = filter.enabled;
    let mut i: usize = 0;
    while i < levels.len()
        invariant
            i <= levels@.len(),
            i == 0 ==> mask == start,
            i > 0 ==> mask != 0,
            forall|l: LogLevel|
                mask & #[trigger] level_bit(l) != 0 <==> start & level_bit(l) != 0
                    || levels@.take(i as int).contains(l),
        decreases levels@.len() - i,
    {
        let level = levels[i];
        let ghost before = mask;
        mask = mask | bit_of(level);
        proof {
            let taken = levels@.take(i as int);
            assert(levels@.take(i + 1) =~= taken.push(level));
            assert forall|l: LogLevel|
                mask & #[trigger] level_bit(l) != 0 <==> start & level_bit(l) != 0
                    || levels@.take(i + 1).contains(l) by {
                lemma_set_bit(before, level_bit(level), level_bit(l));
                lemma_level_bits(level, l);
                if taken.contains(l) {
                    let j = choose|j: int| 0 <= j < taken.len() && taken[j] == l;
                    assert(taken.push(level)[j] == l);
                }
                if l == level {
                    assert(taken.push(level)[i as int] == l);
                }
            }
            lemma_level_bits(level, level);
            lemma_set_bit(before, level_bit(level), level_bit(level));
        }
        i = i + 1;
    }
    assert(levels@.take(i as int) =~= levels@);
    filter.enabled = mask;
    filter.initialized = true;
    proof {
        assert forall|l: LogLevel| 0u8 & #[trigger] level_bit(l) == 0 by {
            lemma_level_bits(l, l);
        }
    }
}

/// Stops emitting levels. The other levels are emitted as before.
pub fn disable_levels(filter: &mut LevelFilter, levels: &[LogLevel])
    ensures
        final(filter).initialized,
        forall|l: LogLevel| #[trigger]
            final(filter).allows(l) <==> old(filter).allows(l) && !levels@.contains(l),
        levels@.len() == 0 ==> final(filter).enabled == old(filter).enabled,
{
    filter.initialized = true;
    if levels.len() == 0 {
        return ;
    }
    let ghost start = *filter;
    let mut mask: u8 = if filter.enabled == 0 {
        0x1f
    } else {
        filter.enabled
    };
    let mut i: usize = 0;
    proof {
        assert forall|l: LogLevel| mask & #[trigger] level_bit(l) != 0 <==> start.allows(l) by {
            lemma_level_bits(l, l);
        }
    }
    while i < levels.len()
        invariant
            i <= levels@.len(),
            forall|l: LogLevel|
                mask & #[trigger] level_bit(l) != 0 <==> start.allows(l) && !levels@.take(
                    i as int,
                ).contains(l),
        decreases levels@.len() - i,
    {
        let level = levels[i];
        let ghost before = mask;
        mask = mask & !bit_of(level);
        proof {
            let taken = levels@.take(i as int);
            assert(levels@.take(i + 1) =~= taken.push(level));
            assert forall|l: LogLevel|
                mask & #[trigger] level_bit(l) != 0 <==> start.allows(l) && !levels@.take(
                    i + 1,
                ).contains(l) by {
                lemma_level_bits(level, l);
                lemma_clear_bit(before, level_bit(level), level_bit(l));
                if taken.contains(l) {
                    let j = choose|j: int| 0 <= j < taken.len() && taken[j] == l;
                    assert(taken.push(level)[j] == l);
                }
                if l == level {
                    assert(taken.push(level)[i as int] == l);
                }
            }
        }
        i = i + 1;
    }
    assert(levels@.take(i as int) =~= levels@);
    proof {
        assert forall|l: LogLevel| 0u8 & #[trigger] level_bit(l) == 0 by {
            lemma_level_bits(l, l);
        }
        assert forall|l: LogLevel| DISABLED_ALL & #[trigger] level_bit(l) == 0 by {
            lemma_level_bits(l, l);
        }
    }
    filter.enabled = if mask == 0 {
        DISABLED_ALL
    } else {
        mask
    };
}

/// Removes the filter: every level is emitted.
pub fn clear_filter(filter: &mut LevelFilter)
    ensures
        final(filter).initialized,
        !final(filter).is_set(),
        forall|l: LogLevel| #[trigger] final(filter).allows(l),
{
    filter.enabled = 0;
    filter.initialized = true;
}

/// Loads the filter from the environment, unless that was done or the filter was set before.
pub fn ensure_filter_initialized(filter: &mut LevelFilter, env_value: Option<&str>)
    ensures
        final(filter).initialized,
        old(filter).initialized ==> *final(filter) == *old(filter),
        !old(filter).initialized ==> match env_value {
            Some(value) => loaded_from(*final(filter), value@),
            None => final(filter).enabled == old(filter).enabled,
        },
{
    if !filter.initialized {
        init_from_env(filter, env_value);
    }
}

/// Whether a level is emitted.
pub fn should_log(filter: &LevelFilter, level: LogLevel) -> (log: bool)
    ensures
        log == filter.allows(level),
{
    if filter.enabled == DISABLED_ALL {
        proof {
            lemma_level_bits(level, level);
        }
        return false;
    }
    if filter.enabled == 0 {
        return true;
    }
    (filter.enabled & bit_of(level)) != 0
}

/// Enabling levels, and then disabling others, emits exactly the enabled levels that were not
/// disabled.
pub proof fn law_disable_after_enable(
    base: LevelFilter,
    enabled: LevelFilter,
    disabled: LevelFilter,
    on: Seq<LogLevel>,
    off: Seq<LogLevel>,
)
    requires
        !base.is_set(),
        forall|l: LogLevel| #[trigger]
            enabled.allows(l) <==> on.contains(l) || (base.is_set() && base.allows(l)),
        forall|l: LogLevel| #[trigger]
            disabled.allows(l) <==> enabled.allows(l) && !off.contains(l),
    ensures
        forall|l: LogLevel| #[trigger]
            disabled.allows(l) <==> on.contains(l) && !off.contains(l),
{
}

/// A list that is made of two lists names what either of them names, and nothing else.
pub proof fn law_a_list_names_what_its_parts_name(
    a: Seq<char>,
    b: Seq<char>,
    level: LogLevel,
)
    ensures
        lists(a + seq![';'] + b, level) <==> lists(a, level) || lists(b, level),
{
    text::law_split_at_a_separator(a, b, ';');
    let both = listed_names(a + seq![';'] + b);
    let first = listed_names(a);
    let second = listed_names(b);
    assert(both =~= first + second);
    if lists(a, level) {
        let i = choose|i: int|
            0 <= i < first.len() && named_level(#[trigger] first[i]) == Some(level);
        assert(named_level(both[i]) == Some(level));
    }
    if lists(b, level) {
        let i = choose|i: int|
            0 <= i < second.len() && named_level(#[trigger] second[i]) == Some(level);
        assert(named_level(both[first.len() + i]) == Some(level));
    }
    if lists(a + seq![';'] + b, level) {
        let i = choose|i: int|
            0 <= i < both.len() && named_level(#[trigger] both[i]) == Some(level);
        if i < first.len() {
            assert(named_level(first[i]) == Some(level));
        } else {
            assert(named_level(second[i - first.len()]) == Some(level));
        }
    }
}

proof fn lemma_level_names(level: LogLevel)
    ensures
        level.name().len() > 0,
        forall|i: int| 0 <= i < level.name().len() ==> 'A' <= #[trigger] level.name()[i] <= 'Z',
        named_level(level.name()) == Some(level),
{
    reveal_strlit("TRACE");
    reveal_strlit("DEBUG");
    reveal_strlit("INFO");
    reveal_strlit("WARN");
    reveal_strlit("ERROR");
    reveal_strlit("trace");
    reveal_strlit("debug");
    reveal_strlit("info");
    reveal_strlit("warn");
    reveal_strlit("error");
    let name = level.name();
    assert(level == LogLevel::Debug ==> text::ascii_lower(name[0]) != text::ascii_lower(
        "trace"@[0],
    ));
    assert(level == LogLevel::Error ==> text::ascii_lower(name[0]) != text::ascii_lower(
        "trace"@[0],
    ) && text::ascii_lower(name[0]) != text::ascii_lower("debug"@[0]));
    assert(level == LogLevel::Warn ==> text::ascii_lower(name[0]) != text::ascii_lower(
        "info"@[0],
    ));
}

/// The name under which records of a level are shown is the name under which a list names that
/// level: a filter that is loaded from it lets that level through, and no other.
pub proof fn law_a_level_is_listed_under_its_name(level: LogLevel, filter: LevelFilter)
    requires
        loaded_from(filter, level.name()),
    ensures
        forall|l: LogLevel| #[trigger] filter.allows(l) <==> l == level,
{
    reveal_strlit("none");
    reveal_strlit("off");
    let name = level.name();
    lemma_level_names(level);
    assert(!name.contains(';'));
    text::lemma_split_whole(name, ';');
    assert(text::trim_start(name) == name);
    assert(text::trimmed(name) == name);
    assert(listed_names(name) =~= seq![name]);
    assert(named_level(listed_names(name)[0]) == Some(level));
    assert(lists(name, level));
    assert(!disables_all(name)) by {
        reveal_strlit("TRACE");
        reveal_strlit("DEBUG");
        reveal_strlit("INFO");
        reveal_strlit("WARN");
        reveal_strlit("ERROR");
        assert(text::ascii_lower(name[0]) != text::ascii_lower("none"@[0]));
        assert(name.len() != 3);
    }
}

}
