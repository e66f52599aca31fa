use coverage_config::config::BaseDir;
use coverage_config::config::Config;
use coverage_config::config::RunType;
use coverage_config::path::path_relative_from;
use coverage_config::path::FilePath;
use coverage_config::profiles::load_profiles;
use coverage_config::profiles::resolve_profiles;
use coverage_config::profiles::ConfigError;

fn abs_path(segs: &[&str]) -> FilePath {
    let mut p = FilePath::root();
    for s in segs {
        p.push_normal((*s).to_string());
    }
    p
}

fn rel_path(segs: &[&str]) -> FilePath {
    let mut p = FilePath::new();
    for s in segs {
        p.push_normal((*s).to_string());
    }
    p
}

fn cur_path(segs: &[&str]) -> FilePath {
    let mut p = FilePath::new();
    p.push_cur();
    for s in segs {
        p.push_normal((*s).to_string());
    }
    p
}

fn config_with_patterns(patterns: &[&str]) -> Config {
    let mut conf = Config::default();
    for p in patterns {
        assert!(conf.exclusions.add_pattern((*p).to_string()));
    }
    conf
}

#[test]
fn relative_path_test() {
    let path_a = abs_path(&["this", "should", "form", "a", "rel", "path"]);
    let path_b = abs_path(&["this", "should", "form", "b", "rel", "path"]);

    let rel_path = path_relative_from(&path_b, &path_a);
    assert!(rel_path.is_some());
    assert_eq!(
        rel_path.unwrap().to_string(),
        "../../../b/rel/path",
        "Wrong relative path"
    );

    let path_a = abs_path(&["this", "should", "not", "form", "a", "rel", "path"]);
    let path_b = cur_path(&["this", "should", "not", "form", "a", "rel", "path"]);

    let rel_path = path_relative_from(&path_b, &path_a);
    assert!(rel_path.is_none(), "Did not expect relative path");

    let path_a = cur_path(&["this", "should", "form", "a", "rel", "path"]);
    let path_b = cur_path(&["this", "should", "form", "b", "rel", "path"]);

    let rel_path = path_relative_from(&path_b, &path_a);
    assert!(rel_path.is_some());
    assert_eq!(
        rel_path.unwrap().to_string(),
        "../../../b/rel/path",
        "Wrong relative path"
    );
}

#[test]
fn exclude_paths() {
    let mut conf = config_with_patterns(&["*module*"]);
    let base = FilePath::root();
    assert!(conf.exclude_path(&rel_path(&["src", "module", "file.rs"]), &base));
    assert!(!conf.exclude_path(&rel_path(&["src", "mod.rs"]), &base));
    assert!(!conf.exclude_path(&rel_path(&["unrelated.rs"]), &base));
    assert!(conf.exclude_path(&rel_path(&["module.rs"]), &base));
}

#[test]
fn no_exclusions() {
    let mut conf = Config::default();
    let base = FilePath::root();
    assert!(!conf.exclude_path(&rel_path(&["src", "module", "file.rs"]), &base));
    assert!(!conf.exclude_path(&rel_path(&["src", "mod.rs"]), &base));
    assert!(!conf.exclude_path(&rel_path(&["unrelated.rs"]), &base));
    assert!(!conf.exclude_path(&rel_path(&["module.rs"]), &base));
}

#[test]
fn exclude_exact_file() {
    let mut conf = config_with_patterns(&["*/lib.rs"]);
    let base = FilePath::root();
    assert!(conf.exclude_path(&rel_path(&["src", "lib.rs"]), &base));
    assert!(!conf.exclude_path(&rel_path(&["src", "mod.rs"]), &base));
    assert!(!conf.exclude_path(&rel_path(&["src", "notlib.rs"]), &base));
    assert!(!conf.exclude_path(&rel_path(&["lib.rs"]), &base));
}

#[test]
fn literal_pattern_is_anchored() {
    let mut conf = config_with_patterns(&["src/lib.rs"]);
    let base = FilePath::root();
    assert!(conf.exclude_path(&rel_path(&["src", "lib.rs"]), &base));
    // anchored: neither a prefix nor a superstring of the pattern matches
    assert!(!conf.exclude_path(&rel_path(&["src"]), &base));
    assert!(!conf.exclude_path(&rel_path(&["xsrc", "lib.rs"]), &base));
    assert!(!conf.exclude_path(&rel_path(&["src", "lib.rs", "extra"]), &base));
}

#[test]
fn metacharacters_stay_literal() {
    let mut conf = config_with_patterns(&["src/mod.rs"]);
    let base = FilePath::root();
    assert!(conf.exclude_path(&rel_path(&["src", "mod.rs"]), &base));
    // the dot in the pattern is escaped, so it does not match any character
    assert!(!conf.exclude_path(&rel_path(&["src", "modxrs"]), &base));
}

#[test]
fn empty_pattern_matches_empty_path() {
    let mut conf = config_with_patterns(&[""]);
    let base = FilePath::root();
    assert!(conf.exclude_path(&FilePath::new(), &base));
    assert!(!conf.exclude_path(&rel_path(&["a"]), &base));
}

#[test]
fn growing_patterns_keeps_earlier_answers() {
    let mut conf = config_with_patterns(&["*module*"]);
    let base = FilePath::root();
    assert!(conf.exclude_path(&rel_path(&["module.rs"]), &base));
    assert!(!conf.exclude_path(&rel_path(&["src", "lib.rs"]), &base));
    // grow the raw list after the first queries compiled the cache
    assert!(conf.exclusions.add_pattern("*/lib.rs".to_string()));
    assert!(conf.exclude_path(&rel_path(&["module.rs"]), &base));
    assert!(conf.exclude_path(&rel_path(&["src", "lib.rs"]), &base));
}

#[test]
fn absolute_candidate_is_stripped_to_base() {
    let mut conf = config_with_patterns(&["src/main.rs"]);
    let base = abs_path(&["work", "project"]);
    assert!(conf.exclude_path(&abs_path(&["work", "project", "src", "main.rs"]), &base));
    assert!(!conf.exclude_path(&abs_path(&["elsewhere", "src", "main.rs"]), &base));
}

#[test]
fn strip_base_dir_falls_back_on_failure() {
    let conf = Config::default();
    let base = abs_path(&["work"]);
    let stripped = conf.strip_base_dir(&abs_path(&["work", "src", "a.rs"]), &base);
    assert_eq!(stripped.to_string(), "src/a.rs");
    // a relative candidate against an absolute base has no relative path
    let kept = conf.strip_base_dir(&rel_path(&["src", "a.rs"]), &base);
    assert_eq!(kept.to_string(), "src/a.rs");
}

#[test]
fn get_base_dir_cases() {
    let cwd = abs_path(&["home", "user"]);

    let conf = Config::default();
    match conf.get_base_dir(&cwd) {
        BaseDir::Ready(p) => assert_eq!(p.to_string(), "/home/user"),
        BaseDir::Canonicalize(_) => panic!("no root set: expected the working directory"),
    }

    let mut with_abs = Config::default();
    with_abs.root = Some(abs_path(&["srv", "build"]));
    match with_abs.get_base_dir(&cwd) {
        BaseDir::Ready(p) => assert_eq!(p.to_string(), "/srv/build"),
        BaseDir::Canonicalize(_) => panic!("absolute root: expected it verbatim"),
    }

    let mut with_rel = Config::default();
    with_rel.root = Some(rel_path(&["sub", "dir"]));
    match with_rel.get_base_dir(&cwd) {
        BaseDir::Ready(_) => panic!("relative root: expected a canonicalization request"),
        BaseDir::Canonicalize(p) => assert_eq!(p.to_string(), "/home/user/sub/dir"),
    }
}

#[test]
fn default_profile_values() {
    let conf = Config::default();
    assert_eq!(conf.name, "");
    assert_eq!(conf.manifest.to_string(), "Cargo.toml");
    assert!(conf.config.is_none());
    assert!(conf.root.is_none());
    assert!(conf.line_coverage);
    assert!(!conf.branch_coverage);
    assert_eq!(conf.test_timeout_secs, 60);
    assert_eq!(conf.run_types, vec![RunType::Tests]);
    assert!(conf.packages.is_empty());
    assert_eq!(conf.exclusions.pattern_count(), 0);
    assert!(!conf.is_coveralls());
}

#[test]
fn linked_flags_couple() {
    let mut conf = Config::default();
    conf.set_linked_flags(false, true, false, true);
    assert!(conf.verbose, "debug implies verbose");
    assert!(conf.debug);
    assert!(conf.all, "workspace implies all");
    conf.set_linked_flags(false, false, false, false);
    assert!(!conf.verbose);
    assert!(!conf.debug);
    assert!(!conf.all);
}

#[test]
fn coveralls_key_detection() {
    let mut conf = Config::default();
    assert!(!conf.is_coveralls());
    conf.coveralls = Some("abcdef".to_string());
    assert!(conf.is_coveralls());
}

#[test]
fn default_output_dir_tracks_cwd() {
    let mut conf = Config::default();
    let cwd = abs_path(&["home", "user"]);
    assert!(!conf.is_default_output_dir(&cwd));
    conf.output_directory = abs_path(&["home", "user"]);
    assert!(conf.is_default_output_dir(&cwd));
    conf.output_directory = abs_path(&["home", "other"]);
    assert!(!conf.is_default_output_dir(&cwd));
}

#[test]
fn empty_config_file_is_refused() {
    let path = abs_path(&["etc", "profiles.toml"]);
    let loaded = load_profiles(Vec::new(), &path);
    assert!(matches!(loaded, Err(ConfigError::EmptyConfig)));
}

#[test]
fn single_table_yields_named_profile() {
    let path = abs_path(&["etc", "profiles.toml"]);
    let entries = vec![("ci".to_string(), Config::default())];
    let loaded = load_profiles(entries, &path).unwrap();
    assert_eq!(loaded.len(), 1);
    assert_eq!(loaded[0].name, "ci");
    assert_eq!(
        loaded[0].config.as_ref().unwrap().to_string(),
        "/etc/profiles.toml"
    );
}

#[test]
fn resolver_falls_back_to_baseline_on_load_failure() {
    let mut baseline = Config::default();
    baseline.verbose = true;
    baseline.packages.push("core".to_string());
    let resolved = resolve_profiles(baseline, Err(ConfigError::IoError));
    assert_eq!(resolved.name, "");
    assert!(resolved.verbose);
    assert_eq!(resolved.packages, vec!["core".to_string()]);
    assert_eq!(resolved.test_timeout_secs, 60);
}

#[test]
fn resolver_takes_first_loaded_profile() {
    let path = abs_path(&["etc", "profiles.toml"]);
    let mut first = Config::default();
    first.name = "one".to_string();
    first.release = true;
    let mut second = Config::default();
    second.name = "two".to_string();
    let entries = vec![
        ("one".to_string(), first),
        ("two".to_string(), second),
    ];
    let loaded = load_profiles(entries, &path);
    let resolved = resolve_profiles(Config::default(), loaded);
    assert_eq!(resolved.name, "one");
    assert!(resolved.release);
}

#[test]
fn resolver_keeps_baseline_on_empty_load() {
    let resolved = resolve_profiles(Config::default(), Ok(Vec::new()));
    assert_eq!(resolved.name, "");
    assert!(resolved.line_coverage);
}

#[test]
fn path_rendering() {
    assert_eq!(FilePath::new().to_string(), "");
    assert_eq!(FilePath::root().to_string(), "/");
    assert_eq!(abs_path(&["a", "b"]).to_string(), "/a/b");
    assert_eq!(rel_path(&["a", "b"]).to_string(), "a/b");
    assert_eq!(cur_path(&["a"]).to_string(), "./a");
    let mut up = FilePath::new();
    up.push_parent();
    up.push_normal("x".to_string());
    assert_eq!(up.to_string(), "../x");
}

#[test]
fn join_and_absoluteness() {
    let cwd = abs_path(&["home"]);
    let joined = cwd.join(&rel_path(&["sub"]));
    assert_eq!(joined.to_string(), "/home/sub");
    let replaced = cwd.join(&abs_path(&["other"]));
    assert_eq!(replaced.to_string(), "/other");
    assert!(cwd.is_absolute());
    assert!(!rel_path(&["sub"]).is_absolute());
}

#[test]
fn parent_in_base_blocks_relative_path() {
    let mut base = FilePath::new();
    base.push_normal("a".to_string());
    base.push_parent();
    base.push_normal("b".to_string());
    let target = rel_path(&["a", "c"]);
    assert!(path_relative_from(&target, &base).is_none());
}

#[test]
fn replacing_patterns_resets_cache() {
    let mut conf = Config::default();
    assert!(conf
        .exclusions
        .set_patterns(vec!["*a*".to_string(), "b".to_string()]));
    let base = FilePath::root();
    assert!(conf.exclude_path(&rel_path(&["xax"]), &base));
    assert!(conf.exclude_path(&rel_path(&["b"]), &base));
    assert!(!conf.exclude_path(&rel_path(&["c"]), &base));
    // a wholesale replacement with an overlong pattern is refused entirely
    assert!(!conf.exclusions.set_patterns(vec!["y".repeat(5000)]));
    assert!(conf.exclude_path(&rel_path(&["b"]), &base));
}

#[test]
fn overlong_pattern_is_refused() {
    let mut conf = Config::default();
    let long = "x".repeat(5000);
    assert!(!conf.exclusions.add_pattern(long));
    assert_eq!(conf.exclusions.pattern_count(), 0);
}
