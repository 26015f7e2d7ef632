use runfast::CacheEntry;
use runfast::CacheFileRead;
use runfast::CacheState;
use runfast::Config;
use runfast::Runner;
use runfast::RunnerCache;
use runfast::RunnerConfigEntry;
use runfast::baseline_config;
use runfast::cached_choice;
use runfast::complete_selection;
use runfast::get_runners_from_config;
use runfast::load_runners;
use runfast::resolve_selection;

fn runner(name: &str, cmd: &str, quit_fast: bool) -> Runner {
    Runner { name: name.to_string(), cmd: cmd.to_string(), quit_fast }
}

fn entry(name: Option<&str>, cmd: Option<&str>, quit_fast: Option<bool>) -> RunnerConfigEntry {
    RunnerConfigEntry {
        name: name.map(|s| s.to_string()),
        cmd: cmd.map(|s| s.to_string()),
        quit_fast,
    }
}

fn config(entries: Vec<RunnerConfigEntry>) -> Config {
    Config { runners: Some(entries) }
}

#[test]
fn resolve_all_fields_absent_gives_defaults() {
    let r = Runner::new_from_config(&entry(None, None, None));
    assert_eq!(r, runner("Default Runner Name", "echo 'command not set'", false));
}

#[test]
fn resolve_preserves_present_fields() {
    let r = Runner::new_from_config(&entry(Some("rust"), Some("cargo run"), Some(true)));
    assert_eq!(r, runner("rust", "cargo run", true));
}

#[test]
fn resolve_partial_entry_mixes_defaults_and_given() {
    let r = Runner::new_from_config(&entry(Some("rust"), None, None));
    assert_eq!(r.name, "rust");
    assert_eq!(r.cmd, "echo 'command not set'");
    assert!(!r.quit_fast);
}

#[test]
fn merge_dedup_user_cmd_wins() {
    let user = config(vec![entry(Some("x"), Some("user-cmd"), None)]);
    let defaults = config(vec![entry(Some("x"), Some("default-cmd"), None)]);
    let merged = load_runners(&Some(defaults), &Some(user));
    let named_x: Vec<&Runner> = merged.iter().filter(|r| r.name == "x").collect();
    assert_eq!(named_x.len(), 1);
    assert_eq!(named_x[0].cmd, "user-cmd");
}

#[test]
fn merge_keeps_user_order_then_defaults_reversed() {
    let user = config(vec![entry(Some("u1"), None, None), entry(Some("u2"), None, None)]);
    let defaults = config(vec![
        entry(Some("d1"), None, None),
        entry(Some("d2"), None, None),
        entry(Some("d3"), None, None),
    ]);
    let merged = load_runners(&Some(defaults), &Some(user));
    let names: Vec<&str> = merged.iter().map(|r| r.name.as_str()).collect();
    assert_eq!(names, vec!["u1", "u2", "d3", "d2", "d1"]);
}

#[test]
fn merge_dedups_among_defaults_last_declared_wins() {
    let defaults = config(vec![
        entry(Some("x"), Some("first"), None),
        entry(Some("x"), Some("second"), None),
    ]);
    let merged = load_runners(&Some(defaults), &None);
    assert_eq!(merged.len(), 1);
    assert_eq!(merged[0].cmd, "second");
}

#[test]
fn absent_sources_give_no_runners() {
    assert!(get_runners_from_config(&None).is_empty());
    assert!(get_runners_from_config(&Some(Config { runners: None })).is_empty());
    assert!(load_runners(&None, &None).is_empty());
}

#[test]
fn cache_add_then_get_returns_added_runner() {
    let mut cache = RunnerCache::new();
    cache.add_runner(&"/other".to_string(), &runner("haskell", "runghc Main.hs", false));
    let r = runner("rust", "cargo run", false);
    cache.add_runner(&"/proj".to_string(), &r);
    assert_eq!(cache.try_get_runner(&"/proj".to_string()), Some(r));
}

#[test]
fn cache_overwrite_leaves_one_entry_with_second_runner() {
    let mut cache = RunnerCache::new();
    let r1 = runner("rust", "cargo run", false);
    let r2 = runner("haskell", "runghc Main.hs", true);
    cache.add_runner(&"/proj".to_string(), &r1);
    cache.add_runner(&"/proj".to_string(), &r2);
    let entries_for_dir = cache.entries.iter().filter(|e| e.dir == "/proj").count();
    assert_eq!(entries_for_dir, 1);
    assert_eq!(cache.try_get_runner(&"/proj".to_string()), Some(r2));
}

#[test]
fn cache_lookup_is_exact_match_only() {
    let mut cache = RunnerCache::new();
    cache.add_runner(&"/proj".to_string(), &runner("rust", "cargo run", false));
    assert_eq!(cache.try_get_runner(&"/proj/sub".to_string()), None);
    assert_eq!(cache.try_get_runner(&"/pro".to_string()), None);
}

#[test]
fn load_missing_file_is_empty_usable_cache() {
    match RunnerCache::load(CacheFileRead::Missing) {
        CacheState::Usable(c) => {
            assert!(c.entries.is_empty());
            assert_eq!(c.try_get_runner(&"/proj".to_string()), None);
        },
        CacheState::LoadFailed => panic!("missing file must give an empty cache"),
    }
}

#[test]
fn load_parsed_file_holds_its_entries() {
    let entries = vec![
        CacheEntry { dir: "/proj".to_string(), runner: runner("rust", "cargo run", false) },
        CacheEntry { dir: "/other".to_string(), runner: runner("haskell", "runghc Main.hs", true) },
    ];
    match RunnerCache::load(CacheFileRead::Parsed(entries)) {
        CacheState::Usable(c) => {
            assert_eq!(c.try_get_runner(&"/proj".to_string()), Some(runner("rust", "cargo run", false)));
            assert_eq!(
                c.try_get_runner(&"/other".to_string()),
                Some(runner("haskell", "runghc Main.hs", true))
            );
        },
        CacheState::LoadFailed => panic!("parsed file must give a usable cache"),
    }
}

#[test]
fn load_unparsable_file_is_distinguishable_failed_state() {
    let state = RunnerCache::load(CacheFileRead::Unparsable);
    assert!(matches!(state, CacheState::LoadFailed));
}

#[test]
fn failed_cache_never_persists_a_selection() {
    let mut state = RunnerCache::load(CacheFileRead::Unparsable);
    let candidates = vec![runner("rust", "cargo run", false)];
    let (chosen, persist) =
        complete_selection(&mut state, &"/proj".to_string(), &candidates, Some("rust".to_string()));
    assert_eq!(chosen, Some(runner("rust", "cargo run", false)));
    assert!(!persist);
    assert!(matches!(state, CacheState::LoadFailed));
}

#[test]
fn resolve_selection_first_match_wins() {
    let candidates = vec![
        runner("x", "first", false),
        runner("x", "second", false),
        runner("y", "other", false),
    ];
    let chosen = resolve_selection(&candidates, &"x".to_string());
    assert_eq!(chosen, Some(runner("x", "first", false)));
}

#[test]
fn resolve_selection_unknown_key_gives_none() {
    let candidates = vec![runner("rust", "cargo run", false)];
    assert_eq!(resolve_selection(&candidates, &"haskell".to_string()), None);
}

#[test]
fn unknown_selected_key_chooses_nothing_and_keeps_cache() {
    let cwd = "/proj".to_string();
    let mut cache = RunnerCache::new();
    cache.add_runner(&cwd, &runner("haskell", "runghc Main.hs", false));
    let mut state = CacheState::Usable(cache);
    let candidates = vec![runner("rust", "cargo run", false)];
    let (chosen, persist) =
        complete_selection(&mut state, &cwd, &candidates, Some("python".to_string()));
    assert_eq!(chosen, None);
    assert!(!persist);
    match state {
        CacheState::Usable(c) => {
            assert_eq!(c.try_get_runner(&cwd), Some(runner("haskell", "runghc Main.hs", false)));
        },
        CacheState::LoadFailed => panic!("cache must stay usable"),
    }
}

#[test]
fn failed_cache_lookup_is_a_miss() {
    let state = CacheState::LoadFailed;
    assert_eq!(cached_choice(&state, false, &"/proj".to_string()), None);
}

#[test]
fn scenario_a_empty_cache_user_selects_rust() {
    let mut state = RunnerCache::load(CacheFileRead::Missing);
    let cwd = "/proj".to_string();
    let candidates = load_runners(&Some(baseline_config()), &None);
    let names: Vec<&str> = candidates.iter().map(|r| r.name.as_str()).collect();
    assert!(names.contains(&"rust"));
    assert!(names.contains(&"rust test"));
    assert!(names.contains(&"haskell"));

    assert_eq!(cached_choice(&state, false, &cwd), None);
    let (chosen, persist) =
        complete_selection(&mut state, &cwd, &candidates, Some("rust".to_string()));
    let expected = runner("rust", "cargo run", false);
    assert_eq!(chosen, Some(expected.clone()));
    assert!(persist);
    match state {
        CacheState::Usable(c) => {
            assert_eq!(c.try_get_runner(&cwd), Some(expected));
        },
        CacheState::LoadFailed => panic!("cache must stay usable"),
    }
}

#[test]
fn scenario_b_cache_hit_skips_selector() {
    let cached = runner("haskell", "runghc Main.hs", false);
    let mut cache = RunnerCache::new();
    cache.add_runner(&"/proj".to_string(), &cached);
    let state = CacheState::Usable(cache);
    let chosen = cached_choice(&state, false, &"/proj".to_string());
    assert_eq!(chosen, Some(cached));
}

#[test]
fn scenario_c_force_choose_replaces_cache_entry() {
    let cwd = "/proj".to_string();
    let mut cache = RunnerCache::new();
    cache.add_runner(&cwd, &runner("haskell", "runghc Main.hs", false));
    let mut state = CacheState::Usable(cache);

    assert_eq!(cached_choice(&state, true, &cwd), None);
    let candidates = load_runners(&Some(baseline_config()), &None);
    let (chosen, persist) =
        complete_selection(&mut state, &cwd, &candidates, Some("rust".to_string()));
    let expected = runner("rust", "cargo run", false);
    assert_eq!(chosen, Some(expected.clone()));
    assert!(persist);
    match state {
        CacheState::Usable(c) => assert_eq!(c.try_get_runner(&cwd), Some(expected)),
        CacheState::LoadFailed => panic!("cache must stay usable"),
    }
}

#[test]
fn scenario_d_abort_selects_nothing_and_keeps_cache() {
    let cwd = "/proj".to_string();
    let before = runner("haskell", "runghc Main.hs", false);
    let mut cache = RunnerCache::new();
    cache.add_runner(&cwd, &before);
    let mut state = CacheState::Usable(cache);

    let candidates = load_runners(&Some(baseline_config()), &None);
    let (chosen, persist) = complete_selection(&mut state, &cwd, &candidates, None);
    assert_eq!(chosen, None);
    assert!(!persist);
    match state {
        CacheState::Usable(c) => {
            assert_eq!(c.entries.len(), 1);
            assert_eq!(c.try_get_runner(&cwd), Some(before));
        },
        CacheState::LoadFailed => panic!("cache must stay usable"),
    }
}

#[test]
fn preview_lists_all_fields() {
    let r = runner("rust", "cargo run", false);
    assert_eq!(r.preview(), "[PARAMS]\nname=rust\ncmd=cargo run\nquit_fast=false\n");
    let q = runner("rust test", "cargo test", true);
    assert_eq!(q.preview(), "[PARAMS]\nname=rust test\ncmd=cargo test\nquit_fast=true\n");
}

#[test]
fn text_is_the_runner_name() {
    let r = runner("rust", "cargo run", false);
    assert_eq!(r.text(), "rust");
}

#[test]
fn baseline_config_holds_three_full_entries() {
    let c = baseline_config();
    let runners = get_runners_from_config(&Some(c));
    assert_eq!(runners.len(), 3);
    assert_eq!(runners[0], runner("rust", "cargo run", false));
    assert_eq!(runners[1], runner("rust test", "cargo test", false));
    assert_eq!(runners[2], runner("haskell", "runghc Main.hs", false));
}
