//! The config loader: resolving partial entries from the two layered
//! configuration sources and merging them, deduplicated by name with user
//! entries taking precedence.

use vstd::prelude::*;
use crate::runner::Runner;
use crate::runner::RunnerConfigEntry;
use crate::runner::RunnerView;
use crate::runner::resolved;

verus! {

/// One parsed configuration source: a document holding zero or more partial
/// runner entries.
#[derive(Debug)]
pub struct Config {
    pub runners: Option<Vec<RunnerConfigEntry>>,
}

/// The abstract values of the runners a sequence of exec runners holds.
pub open spec fn views_of(s: Seq<Runner>) -> Seq<RunnerView> {
    s.map_values(|r: Runner| r@)
}

/// The partial entries a parsed source document contributes: none when the
/// source is absent or has no runner table.
pub open spec fn config_entry_views(conf: Option<Config>) -> Seq<crate::runner::RunnerConfigEntryView> {
    match conf {
        Some(c) => match c.runners {
            Some(rs) => rs@.map_values(|e: RunnerConfigEntry| e@),
            None => Seq::empty(),
        },
        None => Seq::empty(),
    }
}

/// The runners a parsed source document resolves to, in declaration order.
pub open spec fn resolved_runners(conf: Option<Config>) -> Seq<RunnerView> {
    config_entry_views(conf).map_values(|e: crate::runner::RunnerConfigEntryView| resolved(e))
}

/// Whether some runner in `s` is named `n` (case-sensitive exact match).
pub open spec fn contains_name(s: Seq<RunnerView>, n: Seq<char>) -> bool {
    exists|i: int| 0 <= i < s.len() && s[i].name == n
}

/// How many runners in `s` are named `n`.
pub open spec fn count_named(s: Seq<RunnerView>, n: Seq<char>) -> nat
    decreases s.len(),
{
    if s.len() == 0 {
        0
    } else {
        count_named(s.drop_last(), n) + (if s.last().name == n {
            1nat
        } else {
            0nat
        })
    }
}

/// One pass of the merge: defaults are taken from the back, and each is
/// appended to the accumulated list only if no runner already there shares
/// its name.
pub open spec fn merge_step(acc: Seq<RunnerView>, defaults: Seq<RunnerView>) -> Seq<RunnerView>
    decreases defaults.len(),
{
    if defaults.len() == 0 {
        acc
    } else {
        let d = defaults.last();
        let acc2 = if contains_name(acc, d.name) {
            acc
        } else {
            acc.push(d)
        };
        merge_step(acc2, defaults.drop_last())
    }
}

/// The merged candidate list: user runners first in declared order, then the
/// non-overridden defaults in reverse declaration order.
pub open spec fn merged(user: Seq<RunnerView>, defaults: Seq<RunnerView>) -> Seq<RunnerView> {
    merge_step(user, defaults)
}

/// Resolves every partial entry of one parsed source into a full runner,
/// in declaration order. An absent source contributes no runners.
pub fn get_runners_from_config(conf: &Option<Config>) -> (r: Vec<Runner>)
    ensures
        views_of(r@) == resolved_runners(*conf),
{
    let mut runners: Vec<Runner> = Vec::new();

    if let Some(c) = conf {
        if let Some(rs) = &c.runners {
            let ghost resolved_seq = resolved_runners(*conf);
            let mut i: usize = 0;
            while i < rs.len()
                invariant
                    0 <= i <= rs.len(),
                    *conf == Some(*c),
                    c.runners == Some(*rs),
                    resolved_seq == resolved_runners(*conf),
                    resolved_seq.len() == rs@.len(),
                    views_of(runners@) =~= resolved_seq.take(i as int),
                decreases rs.len() - i,
            {
                let ghost pre = runners@;
                let rn = Runner::new_from_config(&rs[i]);
                proof {
                    assert(*conf == Some(*c));
                    assert(c.runners == Some(*rs));
                    assert(config_entry_views(*conf) == rs@.map_values(
                        |e: RunnerConfigEntry| e@,
                    ));
                    assert(config_entry_views(*conf)[i as int] == rs@[i as int]@);
                    assert(resolved_seq[i as int] == resolved(
                        config_entry_views(*conf)[i as int],
                    ));
                    assert(rn@ == resolved_seq[i as int]);
                }
                runners.push(rn);
                proof {
                    assert(views_of(runners@) =~= views_of(pre).push(rn@));
                    assert(resolved_seq.take(i + 1 as int) =~= resolved_seq.take(i as int).push(
                        resolved_seq[i as int],
                    ));
                }
                i = i + 1;
            }
            assert(views_of(runners@) =~= resolved_runners(*conf));
        }
    }
    assert(views_of(runners@) =~= resolved_runners(*conf));
    runners
}

/// Whether some runner in the list carries the given name (case-sensitive
/// exact match).
pub fn contains_runner_named(runners: &Vec<Runner>, name: &String) -> (b: bool)
    ensures
        b == contains_name(views_of(runners@), name@),
{
    let mut i: usize = 0;
    while i < runners.len()
        invariant
            0 <= i <= runners.len(),
            forall|j: int| 0 <= j < i ==> views_of(runners@)[j].name != name@,
        decreases runners.len() - i,
    {
        if runners[i].name == *name {
            assert(views_of(runners@)[i as int].name == name@);
            return true;
        }
        i = i + 1;
    }
    false
}

/// The built-in baseline configuration: what the defaults source is seeded
/// with when it does not exist yet. Three fully specified runners.
pub fn baseline_config() -> (c: Config)
    ensures
        ({
            let entries = config_entry_views(Some(c));
            &&& entries.len() == 3
            &&& entries[0] == (crate::runner::RunnerConfigEntryView {
                name: Some("rust"@),
                cmd: Some("cargo run"@),
                quit_fast: Some(false),
            })
            &&& entries[1] == (crate::runner::RunnerConfigEntryView {
                name: Some("rust test"@),
                cmd: Some("cargo test"@),
                quit_fast: Some(false),
            })
            &&& entries[2] == (crate::runner::RunnerConfigEntryView {
                name: Some("haskell"@),
                cmd: Some("runghc Main.hs"@),
                quit_fast: Some(false),
            })
        }),
{
    let mut rs: Vec<RunnerConfigEntry> = Vec::new();
    rs.push(
        RunnerConfigEntry {
            name: Some("rust".to_string()),
            cmd: Some("cargo run".to_string()),
            quit_fast: Some(false),
        },
    );
    rs.push(
        RunnerConfigEntry {
            name: Some("rust test".to_string()),
            cmd: Some("cargo test".to_string()),
            quit_fast: Some(false),
        },
    );
    rs.push(
        RunnerConfigEntry {
            name: Some("haskell".to_string()),
            cmd: Some("runghc Main.hs".to_string()),
            quit_fast: Some(false),
        },
    );
    Config { runners: Some(rs) }
}

/// Merges the resolved runners of the defaults source and the user source
/// into one candidate list, deduplicated by name with user entries taking
/// precedence: user runners first in declared order, then each default whose
/// name is not already in the list, taken from the last declared backwards.
pub fn load_runners(defaults_conf: &Option<Config>, user_conf: &Option<Config>) -> (r: Vec<Runner>)
    ensures
        views_of(r@) == merged(resolved_runners(*user_conf), resolved_runners(*defaults_conf)),
{
    let mut runners = get_runners_from_config(user_conf);
    let mut default_runners = get_runners_from_config(defaults_conf);

    let ghost user_views = resolved_runners(*user_conf);
    let ghost defaults_views = resolved_runners(*defaults_conf);

    while default_runners.len() > 0
        invariant
            merge_step(views_of(runners@), views_of(default_runners@)) == merged(
                user_views,
                defaults_views,
            ),
        decreases default_runners.len(),
    {
        let ghost pre_acc = views_of(runners@);
        let ghost pre_defaults = views_of(default_runners@);
        let dr = default_runners.pop().unwrap();
        assert(views_of(default_runners@) =~= pre_defaults.drop_last());
        assert(dr@ == pre_defaults.last());

        let already_exists = contains_runner_named(&runners, &dr.name);

        if !already_exists {
            runners.push(dr);
            assert(views_of(runners@) =~= pre_acc.push(pre_defaults.last()));
        }
    }
    assert(views_of(default_runners@).len() == 0);
    assert(merge_step(views_of(runners@), views_of(default_runners@)) == views_of(runners@));
    runners
}

/// A name occurs in a pushed list exactly when it occurs in the list or is
/// the pushed runner's name.
proof fn lemma_contains_name_push(s: Seq<RunnerView>, d: RunnerView, n: Seq<char>)
    ensures
        contains_name(s.push(d), n) == (contains_name(s, n) || d.name == n),
{
    if contains_name(s, n) {
        let i = choose|i: int| 0 <= i < s.len() && s[i].name == n;
        assert(s.push(d)[i].name == n);
    }
    if d.name == n {
        assert(s.push(d)[s.len() as int].name == n);
    }
    if contains_name(s.push(d), n) && d.name != n {
        let i = choose|i: int| 0 <= i < s.push(d).len() && s.push(d)[i].name == n;
        assert(i < s.len());
        assert(s[i].name == n);
    }
}

/// Pushing a runner raises the count of its name by one and leaves every
/// other count unchanged.
proof fn lemma_count_named_push(s: Seq<RunnerView>, d: RunnerView, n: Seq<char>)
    ensures
        count_named(s.push(d), n) == count_named(s, n) + (if d.name == n {
            1nat
        } else {
            0nat
        }),
{
    assert(s.push(d).drop_last() =~= s);
    assert(s.push(d).last() == d);
}

/// A name occurs in a list exactly when its count there is positive.
proof fn lemma_count_named_pos(s: Seq<RunnerView>, n: Seq<char>)
    ensures
        (count_named(s, n) > 0) == contains_name(s, n),
    decreases s.len(),
{
    if s.len() == 0 {
        assert(!contains_name(s, n));
    } else {
        let pre = s.drop_last();
        lemma_count_named_pos(pre, n);
        if s.last().name == n {
            assert(s[s.len() - 1].name == n);
        } else {
            if contains_name(s, n) {
                let i = choose|i: int| 0 <= i < s.len() && s[i].name == n;
                assert(pre[i].name == n);
            }
            if contains_name(pre, n) {
                let i = choose|i: int| 0 <= i < pre.len() && pre[i].name == n;
                assert(s[i].name == n);
            }
        }
    }
}

/// An index carrying the name contributes to its count.
proof fn lemma_count_named_at_least(s: Seq<RunnerView>, n: Seq<char>, i: int)
    requires
        0 <= i < s.len(),
        s[i].name == n,
    ensures
        count_named(s, n) >= 1,
    decreases s.len(),
{
    if i < s.len() - 1 {
        lemma_count_named_at_least(s.drop_last(), n, i);
    }
}

/// Two distinct indices carrying the name give a count of at least two.
proof fn lemma_count_named_two(s: Seq<RunnerView>, n: Seq<char>, i: int, j: int)
    requires
        0 <= i < j < s.len(),
        s[i].name == n,
        s[j].name == n,
    ensures
        count_named(s, n) >= 2,
    decreases s.len(),
{
    if j == s.len() - 1 {
        lemma_count_named_at_least(s.drop_last(), n, i);
    } else {
        lemma_count_named_two(s.drop_last(), n, i, j);
    }
}

/// When a name is already in the accumulated list, merging defaults in
/// never changes that name's count: every default carrying it is skipped.
proof fn lemma_merge_step_count(acc: Seq<RunnerView>, defaults: Seq<RunnerView>, n: Seq<char>)
    requires
        contains_name(acc, n),
    ensures
        count_named(merge_step(acc, defaults), n) == count_named(acc, n),
    decreases defaults.len(),
{
    if defaults.len() > 0 {
        let d = defaults.last();
        if contains_name(acc, d.name) {
            lemma_merge_step_count(acc, defaults.drop_last(), n);
        } else {
            let acc2 = acc.push(d);
            lemma_contains_name_push(acc, d, n);
            assert(d.name != n);
            lemma_count_named_push(acc, d, n);
            lemma_merge_step_count(acc2, defaults.drop_last(), n);
        }
    }
}

/// Merging only appends: the accumulated list stays an unchanged prefix of
/// the result, and everything appended carries a name that was not in it.
proof fn lemma_merge_step_frame(acc: Seq<RunnerView>, defaults: Seq<RunnerView>)
    ensures
        merge_step(acc, defaults).len() >= acc.len(),
        forall|i: int| 0 <= i < acc.len() ==> merge_step(acc, defaults)[i] == acc[i],
        forall|i: int|
            acc.len() <= i < merge_step(acc, defaults).len() ==> !contains_name(
                acc,
                merge_step(acc, defaults)[i].name,
            ),
    decreases defaults.len(),
{
    if defaults.len() > 0 {
        let d = defaults.last();
        if contains_name(acc, d.name) {
            lemma_merge_step_frame(acc, defaults.drop_last());
        } else {
            let acc2 = acc.push(d);
            lemma_merge_step_frame(acc2, defaults.drop_last());
            let m = merge_step(acc, defaults);
            assert(m == merge_step(acc2, defaults.drop_last()));
            assert forall|i: int| 0 <= i < acc.len() implies m[i] == acc[i] by {
                assert(m[i] == acc2[i]);
                assert(acc2[i] == acc[i]);
            }
            assert forall|i: int| acc.len() <= i < m.len() implies !contains_name(
                acc,
                m[i].name,
            ) by {
                if i == acc.len() {
                    assert(m[i] == acc2[i]);
                    assert(m[i] == d);
                } else {
                    assert(acc2.len() <= i < m.len());
                    assert(!contains_name(acc2, m[i].name));
                    lemma_contains_name_push(acc, d, m[i].name);
                }
            }
        }
    }
}

/// Law (merge dedup): when the user list carries exactly one runner of a
/// given name, the merged list also carries exactly one runner of that name,
/// and it is the user's runner — every default sharing the name was dropped,
/// so in particular the user's `cmd` wins.
pub proof fn lemma_merge_dedup(user: Seq<RunnerView>, defaults: Seq<RunnerView>, n: Seq<char>)
    requires
        count_named(user, n) == 1,
    ensures
        count_named(merged(user, defaults), n) == 1,
        forall|i: int, j: int|
            0 <= i < user.len() && user[i].name == n && 0 <= j < merged(user, defaults).len()
                && merged(user, defaults)[j].name == n ==> merged(user, defaults)[j] == user[i],
{
    lemma_count_named_pos(user, n);
    lemma_merge_step_count(user, defaults, n);
    lemma_merge_step_frame(user, defaults);
    let m = merged(user, defaults);
    assert forall|i: int, j: int|
        0 <= i < user.len() && user[i].name == n && 0 <= j < m.len() && m[j].name
            == n implies m[j] == user[i] by {
        if j < user.len() {
            assert(m[j] == user[j]);
            if i < j {
                lemma_count_named_two(user, n, i, j);
            } else if j < i {
                lemma_count_named_two(user, n, j, i);
            }
        } else {
            assert(!contains_name(user, m[j].name));
            assert(user[i].name == n);
            assert(contains_name(user, n));
        }
    }
}

} // verus!
