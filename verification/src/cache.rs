//! The preview hit list's **cache**, keyed on exactly what the list was derived from: the
//! view, its render generation, the query, and the match options.
//!
//! Building the list is document-proportional, and it only changes when the query (or an
//! option) changes or the preview is re-rendered — so those are the key and the entire
//! invalidation rule. The scope is applied to the cached list, never part of its key.

use vstd::prelude::*;
use crate::options::FindOptions;
use crate::matcher::PatternError;

verus! {

broadcast use vstd::string::group_string_axioms;

/// What a cached hit list is valid for. The options are part of the query: ticking one
/// changes which occurrences exist without changing a character the reader typed.
#[derive(PartialEq, Eq, Debug, Clone)]
pub struct HitsKey {
    pub view_serial: u64,
    pub generation: u64,
    pub query: String,
    pub options: FindOptions,
}

/// The key as plain values.
pub open spec fn key_view(k: HitsKey) -> (u64, u64, Seq<char>, FindOptions) {
    (k.view_serial, k.generation, k.query@, k.options)
}

impl HitsKey {
    /// The key for `query` under `options` on render `generation` of view `view_serial`.
    pub fn new(view_serial: u64, generation: u64, query: &str, options: FindOptions) -> (k: Self)
        ensures
            key_view(k) == (view_serial, generation, query@, options),
    {
        HitsKey { view_serial, generation, query: String::from_str(query), options }
    }

    /// Whether two keys name the same list: every part equal.
    pub fn same_as(&self, other: &HitsKey) -> (r: bool)
        ensures
            r == (key_view(*self) == key_view(*other)),
    {
        self.view_serial == other.view_serial && self.generation == other.generation
            && self.query == other.query && self.options == other.options
    }
}

/// The hit list cache of one tab: at most one list, with the key it answers for, and how
/// many lists have been built.
pub struct PreviewFindCache<T> {
    slot: Option<(HitsKey, T)>,
    builds: u64,
}

impl<T> PreviewFindCache<T> {
    /// The cached list and its key, if any.
    pub closed spec fn entry(&self) -> Option<((u64, u64, Seq<char>, FindOptions), T)> {
        match self.slot {
            Some((k, v)) => Some((key_view(k), v)),
            None => None,
        }
    }

    /// How many lists have been built.
    pub closed spec fn builds_spec(&self) -> u64 {
        self.builds
    }

    /// An empty cache that has built nothing.
    pub fn new() -> (c: Self)
        ensures
            c.entry() is None,
            c.builds_spec() == 0,
    {
        PreviewFindCache { slot: None, builds: 0 }
    }

    /// Take the cached list out if it answers for `key`. The slot is empty afterwards either
    /// way — the list is handed over while it is used, and a stale one is dropped.
    fn take(&mut self, key: &HitsKey) -> (r: Option<T>)
        ensures
            final(self).entry() is None,
            final(self).builds_spec() == old(self).builds_spec(),
            r == match old(self).entry() {
                Some((k, v)) => if k == key_view(*key) { Some(v) } else { None },
                None => None,
            },
    {
        match self.slot.take() {
            Some((k, v)) => if k.same_as(key) { Some(v) } else { None },
            None => None,
        }
    }

    /// Put a list back, or install a new one, for `key`.
    fn put(&mut self, key: HitsKey, hits: T)
        ensures
            final(self).entry() == Some((key_view(key), hits)),
            final(self).builds_spec() == old(self).builds_spec(),
    {
        self.slot = Some((key, hits));
    }

    /// Count one build of the list.
    fn note_built(&mut self)
        requires
            old(self).builds_spec() < u64::MAX,
        ensures
            final(self).entry() == old(self).entry(),
            final(self).builds_spec() == old(self).builds_spec() + 1,
    {
        self.builds = self.builds + 1;
    }

    /// Whether the cached list answers for `key`.
    pub open spec fn answers_for(&self, key: HitsKey) -> bool {
        self.entry() matches Some((k, _)) && k == key_view(key)
    }

    /// Hand `apply` the hit list for `key`, building it first with `build` when the cache
    /// is empty or holds a list for another key. The only way to obtain a list, so none can
    /// skip the invalidation rule. A query that does not compile is an `Err` — never an
    /// empty list — and leaves the cache empty rather than holding the last list that
    /// happened to compile. The list is taken out of the slot while `apply` runs, so a
    /// re-entrant caller sees an empty cache and rebuilds instead of finding it borrowed.
    /// The build count cannot pass `u64::MAX`: counting one more build there would overflow.
    pub fn with_hits<B, F, R>(&mut self, key: HitsKey, build: B, apply: F) -> (r: Result<R, PatternError>)
        where
            B: FnOnce() -> Result<T, PatternError>,
            F: FnOnce(&T) -> R,
        requires
            build.requires(()),
            forall|t: &T| apply.requires((t,)),
            old(self).builds_spec() < u64::MAX,
        ensures
            r is Ok ==> final(self).answers_for(key),
            r matches Ok(out) ==> exists|hits: T| old(self).serves(key, build, hits) && apply.ensures((&hits,), out),
            old(self).answers_for(key) ==> {
                &&& final(self).entry() == old(self).entry()
                &&& final(self).builds_spec() == old(self).builds_spec()
                &&& r matches Ok(out) && apply.ensures((&old(self).entry()->Some_0.1,), out)
            },
            !old(self).answers_for(key) ==> exists|b: Result<T, PatternError>| {
                &&& build.ensures((), b)
                &&& match b {
                    Err(e) => {
                        &&& r == Err::<R, PatternError>(e)
                        &&& final(self).entry() is None
                        &&& final(self).builds_spec() == old(self).builds_spec()
                    },
                    Ok(t) => {
                        &&& final(self).entry() == Some((key_view(key), t))
                        &&& final(self).builds_spec() == old(self).builds_spec() + 1
                        &&& r matches Ok(out) && apply.ensures((&t,), out)
                    },
                }
            },
    {
        let cached = self.take(&key);
        let hits = match cached {
            Some(h) => h,
            None => {
                let b = build();
                match b {
                    Err(e) => return Err(e),
                    Ok(t) => {
                        self.note_built();
                        t
                    },
                }
            },
        };
        let ghost h = hits;
        let out = apply(&hits);
        proof {
            assert(old(self).serves(key, build, h));
            assert(apply.ensures((&h,), out));
        }
        self.put(key, hits);
        Ok(out)
    }

    /// Drop the cached list. Not needed for correctness — a stale entry is rejected on its
    /// next access — but it releases what the list holds.
    pub fn invalidate(&mut self)
        ensures
            final(self).entry() is None,
            final(self).builds_spec() == old(self).builds_spec(),
    {
        self.slot = None;
    }

    /// How many lists have been built.
    pub fn builds(&self) -> (n: u64)
        ensures
            n == self.builds_spec(),
    {
        self.builds
    }
}

impl<T> PreviewFindCache<T> {
    /// Whether [`PreviewFindCache::with_hits`] on this cache, asked for `key` with the
    /// builder `build`, can hand its consumer the list `hits`: the cached list when the
    /// cache answers for the key, otherwise a list `build` can return.
    pub open spec fn serves<B: FnOnce() -> Result<T, PatternError>>(&self, key: HitsKey, build: B, hits: T) -> bool {
        if self.answers_for(key) {
            self.entry()->Some_0.1 == hits
        } else {
            build.ensures((), Ok::<T, PatternError>(hits))
        }
    }
}

/// **Invalidation changes cost, never a result.** When the cached list for `key` is what
/// the builder builds for it, and the builder builds only one list for a key, then a cache
/// emptied by invalidation serves exactly the list the full cache would have served — it
/// only has to build it again.
pub proof fn lemma_invalidation_changes_cost_not_result<T, B: FnOnce() -> Result<T, PatternError>>(
    full: PreviewFindCache<T>,
    emptied: PreviewFindCache<T>,
    key: HitsKey,
    build: B,
    cached: T,
)
    requires
        full.entry() == Some((key_view(key), cached)),
        build.ensures((), Ok::<T, PatternError>(cached)),
        forall|a: Result<T, PatternError>, b: Result<T, PatternError>|
            build.ensures((), a) && build.ensures((), b) ==> a == b,
        emptied.entry() is None,
    ensures
        full.serves(key, build, cached),
        emptied.serves(key, build, cached),
        forall|hits: T| emptied.serves(key, build, hits) ==> hits == cached,
        forall|hits: T| full.serves(key, build, hits) ==> hits == cached,
{
    assert forall|hits: T| emptied.serves(key, build, hits) implies hits == cached by {
        assert(build.ensures((), Ok::<T, PatternError>(hits)));
        assert(Ok::<T, PatternError>(hits) == Ok::<T, PatternError>(cached));
    }
}

/// The invalidation rule: a cached list answers for one key only, so a list built for one
/// view, render, query or option set is never handed out for another.
pub proof fn lemma_cache_answers_only_its_own_key<T>(cache: PreviewFindCache<T>, a: HitsKey, b: HitsKey)
    requires
        cache.answers_for(a),
        key_view(a) != key_view(b),
    ensures
        !cache.answers_for(b),
{
}

} // verus!
