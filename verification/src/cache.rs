//! The runner cache: a mapping from working-directory path to the runner
//! previously chosen there. At most one runner is associated with a given
//! directory at any time: insertion replaces, never appends.

use vstd::prelude::*;
use crate::runner::Runner;
use crate::runner::RunnerView;

verus! {

/// One cache line: a working directory and the runner chosen there.
#[derive(Debug)]
pub struct CacheEntry {
    pub dir: String,
    pub runner: Runner,
}

impl Clone for CacheEntry {
    fn clone(&self) -> (r: Self)
        ensures
            r == *self,
    {
        CacheEntry { dir: self.dir.clone(), runner: self.runner.clone() }
    }
}

/// Whether some entry in `s` is keyed by directory `d`.
pub open spec fn contains_dir(s: Seq<CacheEntry>, d: Seq<char>) -> bool {
    exists|i: int| 0 <= i < s.len() && s[i].dir@ == d
}

/// No two entries share a directory.
pub open spec fn cache_wf(s: Seq<CacheEntry>) -> bool {
    forall|i: int, j: int| 0 <= i < j < s.len() ==> s[i].dir@ != s[j].dir@
}

/// The mapping a sequence of cache entries denotes; if a directory occurs
/// twice, the later entry wins.
pub open spec fn entries_map(s: Seq<CacheEntry>) -> Map<Seq<char>, RunnerView>
    decreases s.len(),
{
    if s.len() == 0 {
        Map::empty()
    } else {
        entries_map(s.drop_last()).insert(s.last().dir@, s.last().runner@)
    }
}

/// A directory is in the denoted mapping exactly when some entry carries it.
proof fn lemma_entries_map_dom(s: Seq<CacheEntry>)
    ensures
        forall|d: Seq<char>| entries_map(s).contains_key(d) == contains_dir(s, d),
    decreases s.len(),
{
    if s.len() == 0 {
        assert forall|d: Seq<char>| entries_map(s).contains_key(d) == contains_dir(s, d) by {
            assert(!entries_map(s).contains_key(d));
            assert(!contains_dir(s, d));
        }
    } else {
        let pre = s.drop_last();
        lemma_entries_map_dom(pre);
        assert forall|d: Seq<char>| entries_map(s).contains_key(d) == contains_dir(s, d) by {
            if entries_map(s).contains_key(d) {
                if d == s.last().dir@ {
                    assert(s[s.len() - 1].dir@ == d);
                } else {
                    assert(contains_dir(pre, d));
                    let i = choose|i: int| 0 <= i < pre.len() && pre[i].dir@ == d;
                    assert(s[i].dir@ == d);
                }
            }
            if contains_dir(s, d) {
                let i = choose|i: int| 0 <= i < s.len() && s[i].dir@ == d;
                if i == s.len() - 1 {
                    assert(entries_map(s).contains_key(d));
                } else {
                    assert(pre[i].dir@ == d);
                    assert(contains_dir(pre, d));
                }
            }
        }
    }
}

/// The denoted mapping takes the entry for a directory that no later entry
/// repeats.
proof fn lemma_entries_map_get(s: Seq<CacheEntry>, i: int)
    requires
        0 <= i < s.len(),
        forall|j: int| i < j < s.len() ==> s[j].dir@ != s[i].dir@,
    ensures
        entries_map(s).contains_key(s[i].dir@),
        entries_map(s)[s[i].dir@] == s[i].runner@,
    decreases s.len(),
{
    if i == s.len() - 1 {
    } else {
        let pre = s.drop_last();
        lemma_entries_map_get(pre, i);
        assert(s.last().dir@ != s[i].dir@);
    }
}

/// Removing the one entry for a directory removes that directory from the
/// denoted mapping and changes nothing else.
proof fn lemma_entries_map_remove(s: Seq<CacheEntry>, i: int)
    requires
        0 <= i < s.len(),
        forall|j: int| 0 <= j < s.len() && j != i ==> s[j].dir@ != s[i].dir@,
    ensures
        entries_map(s.remove(i)) == entries_map(s).remove(s[i].dir@),
    decreases s.len(),
{
    let d = s[i].dir@;
    if i == s.len() - 1 {
        let pre = s.drop_last();
        assert(s.remove(i) =~= pre);
        lemma_entries_map_dom(pre);
        assert(!contains_dir(pre, d));
        assert(entries_map(pre) =~= entries_map(pre).insert(d, s[i].runner@).remove(d));
    } else {
        let pre = s.drop_last();
        assert(s.remove(i).drop_last() =~= pre.remove(i));
        assert(s.remove(i).last() == s.last());
        lemma_entries_map_remove(pre, i);
        assert(entries_map(s.remove(i)) == entries_map(pre.remove(i)).insert(
            s.last().dir@,
            s.last().runner@,
        ));
        assert(s.last().dir@ != d);
        assert(entries_map(pre).remove(d).insert(s.last().dir@, s.last().runner@)
            =~= entries_map(pre).insert(s.last().dir@, s.last().runner@).remove(d));
    }
}

/// The persisted mapping from working directory to chosen runner.
#[derive(Debug)]
pub struct RunnerCache {
    pub entries: Vec<CacheEntry>,
}

impl View for RunnerCache {
    type V = Map<Seq<char>, RunnerView>;

    open spec fn view(&self) -> Map<Seq<char>, RunnerView> {
        entries_map(self.entries@)
    }
}

impl RunnerCache {
    /// Well-formed: no two entries share a directory, so a directory has at
    /// most one runner at any time.
    pub open spec fn wf(&self) -> bool {
        cache_wf(self.entries@)
    }

    /// An empty cache: what loading yields when no cache file exists yet.
    pub fn new() -> (r: RunnerCache)
        ensures
            r.wf(),
            r@ == Map::<Seq<char>, RunnerView>::empty(),
            r.entries@.len() == 0,
    {
        RunnerCache { entries: Vec::new() }
    }

    /// The index of the entry for `cwd`, if one exists.
    fn find_dir(&self, cwd: &String) -> (r: Option<usize>)
        ensures
            match r {
                Some(i) => i < self.entries@.len() && self.entries@[i as int].dir@ == cwd@,
                None => !contains_dir(self.entries@, cwd@),
            },
    {
        let mut i: usize = 0;
        while i < self.entries.len()
            invariant
                0 <= i <= self.entries@.len(),
                forall|j: int| 0 <= j < i ==> self.entries@[j].dir@ != cwd@,
            decreases self.entries@.len() - i,
        {
            if self.entries[i].dir == *cwd {
                return Some(i);
            }
            i = i + 1;
        }
        None
    }

    /// Exact-match lookup of the runner chosen for the given working
    /// directory; no prefix or ancestor matching.
    pub fn try_get_runner(&self, cwd: &String) -> (r: Option<Runner>)
        requires
            self.wf(),
        ensures
            match r {
                Some(rn) => self@.contains_key(cwd@) && rn@ == self@[cwd@],
                None => !self@.contains_key(cwd@),
            },
    {
        proof {
            lemma_entries_map_dom(self.entries@);
        }
        match self.find_dir(cwd) {
            Some(i) => {
                proof {
                    lemma_entries_map_get(self.entries@, i as int);
                }
                Some(self.entries[i].runner.clone())
            },
            None => None,
        }
    }

    /// Inserts or replaces the entry for the given working directory:
    /// afterwards the cache maps `cwd` to `runner` and every other directory
    /// to what it mapped to before, with still at most one entry per
    /// directory.
    pub fn add_runner(&mut self, cwd: &String, runner: &Runner)
        requires
            old(self).wf(),
        ensures
            final(self).wf(),
            final(self)@ == old(self)@.insert(cwd@, runner@),
    {
        let ghost s0 = self.entries@;
        let entry = CacheEntry { dir: cwd.clone(), runner: runner.clone() };
        match self.find_dir(cwd) {
            Some(i) => {
                proof {
                    lemma_entries_map_remove(s0, i as int);
                    s0.remove_ensures(i as int);
                }
                self.entries.remove(i);
                let ghost s1 = self.entries@;
                self.entries.push(entry);
                proof {
                    assert(self.entries@.drop_last() =~= s1);
                    assert(entries_map(self.entries@) =~= entries_map(s0).remove(
                        s0[i as int].dir@,
                    ).insert(cwd@, runner@));
                    assert(entries_map(s0).remove(s0[i as int].dir@).insert(cwd@, runner@)
                        =~= entries_map(s0).insert(cwd@, runner@));
                    assert forall|a: int, b: int|
                        0 <= a < b < self.entries@.len() implies self.entries@[a].dir@
                        != self.entries@[b].dir@ by {
                        if b == self.entries@.len() - 1 {
                            assert(s1[a] == if a < i as int {
                                s0[a]
                            } else {
                                s0[a + 1]
                            });
                        }
                    }
                }
            },
            None => {
                self.entries.push(entry);
                proof {
                    assert(self.entries@.drop_last() =~= s0);
                    assert forall|a: int, b: int|
                        0 <= a < b < self.entries@.len() implies self.entries@[a].dir@
                        != self.entries@[b].dir@ by {
                        if b == self.entries@.len() - 1 {
                            assert(s0[a].dir@ != cwd@);
                        }
                    }
                }
            },
        }
    }

    /// Builds an in-memory cache from the entries read out of the cache
    /// file; if a directory occurs twice among them, the later entry wins.
    pub fn from_entries(entries: &Vec<CacheEntry>) -> (r: RunnerCache)
        ensures
            r.wf(),
            r@ == entries_map(entries@),
    {
        let mut cache = RunnerCache::new();
        let mut i: usize = 0;
        while i < entries.len()
            invariant
                0 <= i <= entries@.len(),
                cache.wf(),
                cache@ == entries_map(entries@.take(i as int)),
            decreases entries@.len() - i,
        {
            cache.add_runner(&entries[i].dir, &entries[i].runner);
            proof {
                assert(entries@.take(i + 1 as int).drop_last() =~= entries@.take(i as int));
                assert(entries@.take(i + 1 as int).last() == entries@[i as int]);
            }
            i = i + 1;
        }
        proof {
            assert(entries@.take(entries@.len() as int) =~= entries@);
        }
        cache
    }
}

/// Law: a well-formed cache has at most one entry for a given directory —
/// two entries sharing a directory are the same entry. Together with
/// `add_runner`'s postconditions this says an add leaves exactly one entry
/// for the directory added.
pub proof fn lemma_at_most_one_entry(s: Seq<CacheEntry>, d: Seq<char>, i: int, j: int)
    requires
        cache_wf(s),
        0 <= i < s.len(),
        0 <= j < s.len(),
        s[i].dir@ == d,
        s[j].dir@ == d,
    ensures
        i == j,
{
}

/// Law: adding a runner for a directory and then looking that directory up
/// yields exactly that runner, whatever the cache held before for other
/// directories.
pub proof fn lemma_cache_add_then_get(
    m: Map<Seq<char>, RunnerView>,
    dir: Seq<char>,
    r: RunnerView,
)
    ensures
        m.insert(dir, r).contains_key(dir),
        m.insert(dir, r)[dir] == r,
{
}

/// Law: two successive adds for one directory leave the cache exactly as if
/// only the second had happened; the directory maps to the second runner.
pub proof fn lemma_cache_overwrite(
    m: Map<Seq<char>, RunnerView>,
    dir: Seq<char>,
    r1: RunnerView,
    r2: RunnerView,
)
    ensures
        m.insert(dir, r1).insert(dir, r2) == m.insert(dir, r2),
        m.insert(dir, r1).insert(dir, r2)[dir] == r2,
{
    assert(m.insert(dir, r1).insert(dir, r2) =~= m.insert(dir, r2));
}

} // verus!
