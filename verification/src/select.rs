//! The selection orchestrator: deciding whether to reuse a cached runner or
//! consume a fresh selection, and feeding the result back into the cache.
//!
//! The interactive selector itself is an external collaborator: it is handed
//! the candidate list and hands back either an abort signal or exactly one
//! selected name. The functions here take that outcome as a plain value.

use vstd::prelude::*;
use crate::cache::CacheEntry;
use crate::cache::RunnerCache;
use crate::cache::entries_map;
use crate::config::views_of;
use crate::runner::Runner;
use crate::runner::RunnerView;

verus! {

/// Availability of the cache for this run. A cache file that existed but
/// could not be parsed leaves the run in `LoadFailed`: lookups miss and
/// nothing is persisted, so the on-disk file is never clobbered.
#[derive(Debug)]
pub enum CacheState {
    Usable(RunnerCache),
    LoadFailed,
}

impl CacheState {
    /// Well-formed: a usable cache has at most one entry per directory.
    pub open spec fn wf(&self) -> bool {
        match self {
            CacheState::Usable(c) => c.wf(),
            CacheState::LoadFailed => true,
        }
    }
}

/// What reading the cache file yielded, as plain values: no file at all,
/// a parsed list of entries, or a file that would not parse.
#[derive(Debug)]
pub enum CacheFileRead {
    Missing,
    Parsed(Vec<CacheEntry>),
    Unparsable,
}

impl RunnerCache {
    /// Turns the outcome of reading the cache file into this run's cache
    /// state: a missing file is an empty cache (not an error), a parsed file
    /// is the cache it holds, and an unparsable file leaves the cache in the
    /// distinguishable `LoadFailed` state.
    pub fn load(read: CacheFileRead) -> (r: CacheState)
        ensures
            r.wf(),
            match read {
                CacheFileRead::Missing => r matches CacheState::Usable(c) && c@ == Map::<
                    Seq<char>,
                    RunnerView,
                >::empty(),
                CacheFileRead::Parsed(es) => r matches CacheState::Usable(c) && c@ == entries_map(
                    es@,
                ),
                CacheFileRead::Unparsable => r is LoadFailed,
            },
    {
        match read {
            CacheFileRead::Missing => CacheState::Usable(RunnerCache::new()),
            CacheFileRead::Parsed(es) => CacheState::Usable(RunnerCache::from_entries(&es)),
            CacheFileRead::Unparsable => CacheState::LoadFailed,
        }
    }
}

/// The first runner in `s` named `n`, if any: the match is exact and, should
/// duplicate names occur, the earliest match wins.
pub open spec fn find_named(s: Seq<RunnerView>, n: Seq<char>) -> Option<RunnerView>
    decreases s.len(),
{
    if s.len() == 0 {
        None
    } else if s[0].name == n {
        Some(s[0])
    } else {
        find_named(s.drop_first(), n)
    }
}

/// Resolves the name the selector returned back to its runner in the
/// candidate list: exact match on `name`, first match wins if duplicate
/// names occur.
pub fn resolve_selection(runners: &Vec<Runner>, key: &String) -> (r: Option<Runner>)
    ensures
        match r {
            Some(rn) => find_named(views_of(runners@), key@) == Some(rn@),
            None => find_named(views_of(runners@), key@) is None,
        },
{
    let ghost all = views_of(runners@);
    proof {
        assert(all.skip(0) =~= all);
    }
    let mut i: usize = 0;
    while i < runners.len()
        invariant
            0 <= i <= runners@.len(),
            all == views_of(runners@),
            find_named(all, key@) == find_named(all.skip(i as int), key@),
        decreases runners@.len() - i,
    {
        if runners[i].name == *key {
            proof {
                assert(all.skip(i as int)[0] == all[i as int]);
            }
            return Some(runners[i].clone());
        }
        proof {
            assert(all.skip(i as int)[0] == all[i as int]);
            assert(all.skip(i as int).drop_first() =~= all.skip(i + 1 as int));
        }
        i = i + 1;
    }
    proof {
        assert(all.skip(i as int).len() == 0);
    }
    None
}

/// The first step of a selection: reuse the cached runner exactly when a new
/// choice is not forced, the cache is usable, and the current working
/// directory has an entry. In every other case a fresh selection is needed.
pub fn cached_choice(cache: &CacheState, force_choose_new: bool, cwd: &String) -> (r: Option<
    Runner,
>)
    requires
        cache.wf(),
    ensures
        match r {
            Some(rn) => !force_choose_new && (cache matches CacheState::Usable(c)
                && c@.contains_key(cwd@) && rn@ == c@[cwd@]),
            None => force_choose_new || match cache {
                CacheState::Usable(c) => !c@.contains_key(cwd@),
                CacheState::LoadFailed => true,
            },
        },
{
    if force_choose_new {
        return None;
    }
    match cache {
        CacheState::Usable(c) => c.try_get_runner(cwd),
        CacheState::LoadFailed => None,
    }
}

/// The second step of a selection: consume what the selector handed back.
///
/// `key` is `None` when the selector aborted or failed: nothing is chosen
/// and the cache is untouched. Otherwise the key is resolved in the
/// candidate list; a resolved runner is recorded in the cache for `cwd`
/// unless the cache is in `LoadFailed`, which stays read-only so that the
/// unparsable on-disk file is preserved. The returned flag says whether the
/// cache changed and should be persisted.
pub fn complete_selection(
    cache: &mut CacheState,
    cwd: &String,
    candidates: &Vec<Runner>,
    key: Option<String>,
) -> (r: (Option<Runner>, bool))
    requires
        old(cache).wf(),
    ensures
        final(cache).wf(),
        ({
            let (chosen, persist) = r;
            let sel = match key {
                Some(k) => find_named(views_of(candidates@), k@),
                None => None,
            };
            &&& match sel {
                Some(rv) => chosen matches Some(rn) && rn@ == rv,
                None => chosen is None,
            }
            &&& match (sel, *old(cache)) {
                (Some(rv), CacheState::Usable(c0)) => persist && ((*final(cache)) matches
                    CacheState::Usable(c1) && c1@ == c0@.insert(cwd@, rv)),
                _ => !persist && *final(cache) == *old(cache),
            }
        }),
{
    match key {
        None => (None, false),
        Some(k) => {
            match resolve_selection(candidates, &k) {
                None => (None, false),
                Some(rn) => {
                    match cache {
                        CacheState::Usable(c) => {
                            c.add_runner(cwd, &rn);
                            (Some(rn), true)
                        },
                        CacheState::LoadFailed => (Some(rn), false),
                    }
                },
            }
        },
    }
}

} // verus!
