//! Structured sinks: at most one for each type of request fields.
//!
//! The type of the request fields is stood for by a number, its key. A sink that was installed is
//! never replaced or removed, so a slot that a thread has looked up stays right.

use vstd::prelude::*;

verus! {

/// The sinks that are installed: the slot of a sink is its place in the order of installation.
pub struct SinkRegistry {
    keys: Vec<u64>,
}

/// The slots that a thread has looked up.
pub struct SinkCache {
    entries: Vec<(u64, usize)>,
}

/// The slot of a key in an order of installation.
pub open spec fn slot_of(keys: Seq<u64>, key: u64) -> Option<int> {
    if keys.contains(key) {
        Some(keys.index_of(key))
    } else {
        None
    }
}

impl SinkRegistry {
    /// The keys of the sinks, in the order of installation.
    pub closed spec fn installed(&self) -> Seq<u64> {
        self.keys@
    }

    /// At most one sink for each key.
    pub closed spec fn wf(&self) -> bool {
        self.keys@.no_duplicates()
    }

    /// No sinks.
    pub fn new() -> (registry: SinkRegistry)
        ensures
            registry.wf(),
            registry.installed() == Seq::<u64>::empty(),
    {
        SinkRegistry { keys: Vec::new() }
    }

    /// Whether any sink is installed.
    pub fn any_installed(&self) -> (any: bool)
        ensures
            any == (self.installed().len() > 0),
    {
        self.keys.len() > 0
    }

    /// The slot of the sink for a key.
    pub fn find(&self, key: u64) -> (slot: Option<usize>)
        requires
            self.wf(),
        ensures
            slot is Some <==> self.installed().contains(key),
            slot matches Some(i) ==> slot_of(self.installed(), key) == Some(i as int) && i
                < self.installed().len(),
    {
        let mut i: usize = 0;
        while i < self.keys.len()
            invariant
                i <= self.keys@.len(),
                self.keys@.no_duplicates(),
                forall|j: int| 0 <= j < i ==> #[trigger] self.keys@[j] != key,
            decreases self.keys@.len() - i,
        {
            if self.keys[i] == key {
                assert(self.keys@[i as int] == key);
                assert(self.keys@.contains(key));
                assert(self.keys@.index_of(key) == i);
                return Some(i);
            }
            i = i + 1;
        }
        None
    }
}

/// Installs a sink for a key: gives its slot, or the reason why there is none.
pub fn install_sink(registry: &mut SinkRegistry, key: u64) -> (result: Result<usize, &'static str>)
    requires
        old(registry).wf(),
    ensures
        final(registry).wf(),
        result is Err <==> old(registry).installed().contains(key),
        result matches Err(reason) ==> reason@ == "eden_logger sink already installed"@
            && *final(registry) == *old(registry),
        result matches Ok(slot) ==> slot == old(registry).installed().len()
            && final(registry).installed() == old(registry).installed().push(key),
{
    if registry.find(key).is_some() {
        return Err("eden_logger sink already installed");
    }
    let slot: usize = registry.keys.len();
    registry.keys.push(key);
    Ok(slot)
}

impl SinkCache {
    /// Whether the cache holds slots of a registry, each key once.
    pub closed spec fn fits(&self, registry: &SinkRegistry) -> bool {
        &&& forall|i: int|
            0 <= i < self.entries@.len() ==> slot_of(
                registry.installed(),
                (#[trigger] self.entries@[i]).0,
            ) == Some(self.entries@[i].1 as int)
        &&& forall|i: int, j: int|
            0 <= i < j < self.entries@.len() ==> (#[trigger] self.entries@[i]).0 != (
            #[trigger] self.entries@[j]).0
    }

    /// Whether the cache holds a key.
    pub closed spec fn holds(&self, key: u64) -> bool {
        exists|i: int| 0 <= i < self.entries@.len() && (#[trigger] self.entries@[i]).0 == key
    }

    /// No slots.
    pub fn new() -> (cache: SinkCache)
        ensures
            forall|registry: SinkRegistry| #[trigger] cache.fits(&registry),
            forall|key: u64| !(#[trigger] cache.holds(key)),
    {
        SinkCache { entries: Vec::new() }
    }

    /// The number of slots that were looked up.
    pub fn len(&self) -> (len: usize)
        ensures
            len == self.size(),
    {
        self.entries.len()
    }

    /// The number of slots that were looked up.
    pub closed spec fn size(&self) -> nat {
        self.entries@.len()
    }
}

/// The slot of the sink for a key, from the cache where it holds the key. A slot that was found
/// stays in the cache.
pub fn cached_sink(cache: &mut SinkCache, registry: &SinkRegistry, key: u64) -> (slot: Option<
    usize,
>)
    requires
        registry.wf(),
        old(cache).fits(registry),
    ensures
        final(cache).fits(registry),
        slot is Some <==> registry.installed().contains(key),
        slot matches Some(i) ==> slot_of(registry.installed(), key) == Some(i as int) && i
            < registry.installed().len(),
        slot is Some ==> final(cache).holds(key),
        old(cache).holds(key) || slot is None ==> final(cache).size() == old(cache).size(),
        !old(cache).holds(key) && slot is Some ==> final(cache).size() == old(cache).size() + 1,
{
    let mut i: usize = 0;
    while i < cache.entries.len()
        invariant
            i <= cache.entries@.len(),
            cache.fits(registry),
            *cache == *old(cache),
            forall|j: int| 0 <= j < i ==> (#[trigger] cache.entries@[j]).0 != key,
        decreases cache.entries@.len() - i,
    {
        if cache.entries[i].0 == key {
            let slot: usize = cache.entries[i].1;
            assert(cache.entries@[i as int].0 == key);
            return Some(slot);
        }
        i = i + 1;
    }
    assert(!old(cache).holds(key));
    match registry.find(key) {
        Some(slot) => {
            let ghost before = cache.entries@;
            cache.entries.push((key, slot));
            assert(cache.entries@[before.len() as int].0 == key);
            Some(slot)
        },
        None => None,
    }
}

/// The slot of the sink that a record for a key goes to, if there is one.
pub fn dispatch(cache: &mut SinkCache, registry: &SinkRegistry, key: u64) -> (slot: Option<usize>)
    requires
        registry.wf(),
        old(cache).fits(registry),
    ensures
        final(cache).fits(registry),
        slot is Some <==> registry.installed().contains(key),
        slot matches Some(i) ==> slot_of(registry.installed(), key) == Some(i as int) && i
            < registry.installed().len(),
{
    if !registry.any_installed() {
        return None;
    }
    cached_sink(cache, registry, key)
}

/// Installing a further sink keeps the slots that were looked up before.
pub proof fn law_slots_are_stable(before: Seq<u64>, added: u64, key: u64)
    requires
        before.contains(key),
        before.push(added).no_duplicates(),
    ensures
        slot_of(before.push(added), key) == slot_of(before, key),
{
    let i = before.index_of(key);
    let after = before.push(added);
    assert(after[i] == key);
    assert(after.contains(key));
    let j = after.index_of(key);
    assert(after[j] == key);
}

/// Whether a cache fits a registry depends on the sinks that are installed, and on nothing else.
pub proof fn law_fitting_goes_by_what_is_installed(
    cache: SinkCache,
    registry: SinkRegistry,
    other: SinkRegistry,
)
    requires
        registry.installed() == other.installed(),
    ensures
        cache.fits(&registry) <==> cache.fits(&other),
        registry.wf() <==> other.wf(),
{
}

/// A cache that fits a registry still fits once a further sink is installed.
pub proof fn law_cache_survives_installation(
    cache: SinkCache,
    before: SinkRegistry,
    after: SinkRegistry,
    added: u64,
)
    requires
        cache.fits(&before),
        after.wf(),
        after.installed() == before.installed().push(added),
    ensures
        cache.fits(&after),
{
    assert forall|i: int| 0 <= i < cache.entries@.len() implies slot_of(
        after.installed(),
        (#[trigger] cache.entries@[i]).0,
    ) == Some(cache.entries@[i].1 as int) by {
        law_slots_are_stable(before.installed(), added, cache.entries@[i].0);
    }
}

}
