use duplit::config::{Config, Configs, Duplit, GenConfig, Options};
use duplit::copy::{is_excluded, plan_directory, plan_file, resolve_rules, TreeEntry};
use duplit::progress::{ProgressEvent, ProgressStream};
use duplit::resolve::Environment;
use duplit::snapshot::{
    assemble_manifest, prepare_destination, root_action, CopyOutcome, PathKind, RootAction, RootErrorKind,
    SnapshotError,
};
use duplit::text::{base_name, mirrored, within};

fn home_env() -> Environment {
    let mut env = Environment::new();
    env.set("HOME".to_string(), "/home/u".to_string());
    env
}

fn duplit_with(sources: &[&str], exclude: &[&str]) -> Duplit {
    Duplit::new(Config {
        options: Options { repository: "r".to_string() },
        configs: Configs {
            sources: sources.iter().map(|s| s.to_string()).collect(),
            exclude: exclude.iter().map(|s| s.to_string()).collect(),
        },
    })
}

fn entry(path: &str, is_dir: bool) -> TreeEntry {
    TreeEntry { path: path.to_string(), is_dir }
}

#[test]
fn scenario_single_file_root() {
    let d = duplit_with(&["~/.bashrc"], &[]);
    let plan = match d.plan_snapshot(&home_env()) {
        Ok(p) => p,
        Err(_) => panic!("plan failed"),
    };
    assert_eq!(plan.roots.len(), 1);
    assert!(plan.errors.is_empty());
    assert_eq!(plan.roots[0].path, "/home/u/.bashrc");
    assert_eq!(plan.roots[0].name, ".bashrc");

    let step = plan_file(&plan.roots[0].path, "/home/u/.duplit/configs");
    assert_eq!(step.source, "/home/u/.bashrc");
    assert_eq!(step.destination, "/home/u/.duplit/configs/.bashrc");
    assert!(!step.is_dir);

    let mut stream = ProgressStream::start(step.source.clone(), 500);
    assert!(stream.observe(500));
    stream.finish();
    assert_eq!(stream.events.len(), 1);
    assert_eq!(stream.events[0].bytes_copied, 500);
    assert_eq!(stream.events[0].percent, 100);

    let (manifest, errors) =
        assemble_manifest(plan, &vec![CopyOutcome::Copied], Duplit::get_pkgs(vec![], vec![]));
    assert!(errors.is_empty());
    assert_eq!(manifest.configs.len(), 1);
    assert_eq!(manifest.configs[0].name, ".bashrc");
    assert_eq!(manifest.configs[0].out, "/home/u/.bashrc");
}

#[test]
fn scenario_directory_with_excluded_subdirectory() {
    let env = home_env();
    let d = duplit_with(&["~/.config"], &["~/.config/app2"]);
    let plan = match d.plan_snapshot(&env) {
        Ok(p) => p,
        Err(_) => panic!("plan failed"),
    };
    assert_eq!(plan.rules, vec!["/home/u/.config/app2".to_string()]);
    let entries = vec![
        entry("/home/u/.config/app1", true),
        entry("/home/u/.config/app1/a.conf", false),
        entry("/home/u/.config/app2", true),
        entry("/home/u/.config/app2/settings.ini", false),
    ];
    let steps = plan_directory("/home/u/.config", "/dest", &entries, &plan.rules);
    let got: Vec<(String, String, bool)> =
        steps.iter().map(|s| (s.source.clone(), s.destination.clone(), s.is_dir)).collect();
    assert_eq!(
        got,
        vec![
            ("/home/u/.config".to_string(), "/dest/.config".to_string(), true),
            ("/home/u/.config/app1".to_string(), "/dest/.config/app1".to_string(), true),
            (
                "/home/u/.config/app1/a.conf".to_string(),
                "/dest/.config/app1/a.conf".to_string(),
                false
            ),
        ]
    );
    assert!(steps.iter().all(|s| !s.destination.contains("app2")));
}

#[test]
fn scenario_missing_root_is_recorded() {
    let d = duplit_with(&["/nowhere/x"], &[]);
    let plan = match d.plan_snapshot(&home_env()) {
        Ok(p) => p,
        Err(_) => panic!("plan failed"),
    };
    let (manifest, errors) =
        assemble_manifest(plan, &vec![CopyOutcome::NotFound], Duplit::get_pkgs(vec![], vec![]));
    assert!(manifest.configs.is_empty());
    assert_eq!(errors.len(), 1);
    assert!(errors[0].kind == RootErrorKind::NotFound);
    assert_eq!(errors[0].index, 0);
    assert_eq!(errors[0].detail, "/nowhere/x");
}

#[test]
fn scenario_unresolvable_variable_keeps_going() {
    let d = duplit_with(&["$MISSING/foo", "~/.bashrc"], &[]);
    let plan = match d.plan_snapshot(&home_env()) {
        Ok(p) => p,
        Err(_) => panic!("plan failed"),
    };
    assert_eq!(plan.errors.len(), 1);
    assert!(plan.errors[0].kind == RootErrorKind::PathResolution);
    assert_eq!(plan.errors[0].index, 0);
    assert_eq!(plan.errors[0].detail, "MISSING");
    assert_eq!(plan.roots.len(), 1);
    assert_eq!(plan.roots[0].index, 1);
    assert_eq!(plan.roots[0].path, "/home/u/.bashrc");
}

#[test]
fn scenario_same_name_twice_aborts() {
    let d = duplit_with(&["~/a/shared", "/tmp/shared"], &[]);
    match d.plan_snapshot(&home_env()) {
        Err(SnapshotError::Collision { name }) => assert_eq!(name, "shared"),
        _ => panic!("expected a collision"),
    }
}

#[test]
fn unnamed_root_is_an_error() {
    let d = duplit_with(&["/", "//"], &[]);
    let plan = match d.plan_snapshot(&home_env()) {
        Ok(p) => p,
        Err(_) => panic!("plan failed"),
    };
    assert!(plan.roots.is_empty());
    assert_eq!(plan.errors.len(), 2);
    assert!(plan.errors[0].kind == RootErrorKind::Unnamed);
    assert_eq!(plan.errors[0].detail, "/");
    assert_eq!(plan.errors[1].detail, "//");
}

#[test]
fn trailing_separator_is_the_same_path() {
    let d = duplit_with(&["/tmp/", "~/.config//"], &["~/.config/app2/"]);
    let plan = match d.plan_snapshot(&home_env()) {
        Ok(p) => p,
        Err(_) => panic!("plan failed"),
    };
    assert!(plan.errors.is_empty());
    assert_eq!(plan.roots[0].origin, "/tmp/");
    assert_eq!(plan.roots[0].path, "/tmp");
    assert_eq!(plan.roots[0].name, "tmp");
    assert_eq!(plan.roots[1].origin, "/home/u/.config//");
    assert_eq!(plan.roots[1].path, "/home/u/.config");
    assert_eq!(plan.roots[1].name, ".config");
    assert_eq!(plan.rules, vec!["/home/u/.config/app2/".to_string()]);
    assert!(is_excluded("/home/u/.config/app2/settings.ini", "/home/u/.config", &plan.rules));
    assert!(is_excluded("/home/u/.config/app2", "/home/u/.config/", &plan.rules));
    assert!(!is_excluded("/home/u/.config/app1", "/home/u/.config", &plan.rules));
    let steps = plan_directory(
        &plan.roots[1].path,
        "/d",
        &vec![entry("/home/u/.config/app2/x", false), entry("/home/u/.config/app1", true)],
        &plan.rules,
    );
    let sources: Vec<&str> = steps.iter().map(|s| s.source.as_str()).collect();
    assert_eq!(sources, vec!["/home/u/.config", "/home/u/.config/app1"]);
    let (manifest, errors) = assemble_manifest(
        plan,
        &vec![CopyOutcome::Copied, CopyOutcome::Copied],
        Duplit::get_pkgs(vec![], vec![]),
    );
    assert!(errors.is_empty());
    assert_eq!(manifest.configs[0].name, "tmp");
    assert_eq!(manifest.configs[0].out, "/tmp/");
    assert_eq!(manifest.configs[1].out, "/home/u/.config//");
}

#[test]
fn root_actions_follow_the_path_kind() {
    assert!(root_action(PathKind::Missing) == RootAction::ReportNotFound);
    assert!(root_action(PathKind::Other) == RootAction::Skip);
    assert!(root_action(PathKind::File) == RootAction::CopyFile);
    assert!(root_action(PathKind::Directory) == RootAction::MirrorDirectory);
}

#[test]
fn copy_failure_is_recorded_and_manifest_counts_successes() {
    let d = duplit_with(&["/a/one", "/b/two", "/c/three", "/d/four"], &[]);
    let plan = match d.plan_snapshot(&home_env()) {
        Ok(p) => p,
        Err(_) => panic!("plan failed"),
    };
    let outcomes = vec![
        CopyOutcome::Copied,
        CopyOutcome::Failed { message: "disk full".to_string() },
        CopyOutcome::Skipped,
        CopyOutcome::Copied,
    ];
    let (manifest, errors) =
        assemble_manifest(plan, &outcomes, Duplit::get_pkgs(vec!["vim".to_string()], vec![]));
    assert_eq!(manifest.configs.len(), 2);
    assert_eq!(manifest.configs[0].name, "one");
    assert_eq!(manifest.configs[1].name, "four");
    assert_eq!(manifest.configs[1].out, "/d/four");
    assert_eq!(manifest.packages.pacman, vec!["vim".to_string()]);
    assert_eq!(errors.len(), 1);
    assert!(errors[0].kind == RootErrorKind::CopyIo);
    assert_eq!(errors[0].index, 1);
    assert_eq!(errors[0].detail, "disk full");
}

#[test]
fn destination_must_be_a_directory() {
    assert!(matches!(prepare_destination(PathKind::Missing), Ok(true)));
    assert!(matches!(prepare_destination(PathKind::Directory), Ok(false)));
    assert!(matches!(prepare_destination(PathKind::File), Err(SnapshotError::Destination)));
    assert!(matches!(prepare_destination(PathKind::Other), Err(SnapshotError::Destination)));
}

#[test]
fn resolve_forms() {
    let mut env = home_env();
    env.set("XDG".to_string(), "/x".to_string());
    let ok = |s: &str| match Duplit::expand_path(s, &env) {
        Ok(p) => p,
        Err(e) => panic!("unexpected error for {}", e.variable),
    };
    assert_eq!(ok("~"), "/home/u");
    assert_eq!(ok("~/.vimrc"), "/home/u/.vimrc");
    assert_eq!(ok("/a/~b"), "/a/~b");
    assert_eq!(ok("$HOME/.config"), "/home/u/.config");
    assert_eq!(ok("${XDG}/app"), "/x/app");
    assert_eq!(ok("$XDG$HOME"), "/x/home/u");
    assert_eq!(ok("/a/$/b"), "/a/$/b");
    assert_eq!(ok("/plain/path"), "/plain/path");
    assert_eq!(ok("/plain/path/"), "/plain/path/");
    assert_eq!(ok("/"), "/");
    assert_eq!(ok("~/"), "/home/u/");
    assert_eq!(ok("~/a/"), "/home/u/a/");
    assert_eq!(ok("$XDG/"), "/x/");
    assert_eq!(ok("~/$HOME"), "/home/u/$HOME");
}

#[test]
fn resolve_errors_name_the_variable() {
    let empty = Environment::new();
    match Duplit::expand_path("~/.bashrc", &empty) {
        Err(e) => assert_eq!(e.variable, "HOME"),
        Ok(_) => panic!("expected an error"),
    }
    match Duplit::expand_path("${NOPE}/x", &home_env()) {
        Err(e) => assert_eq!(e.variable, "NOPE"),
        Ok(_) => panic!("expected an error"),
    }
}

#[test]
fn later_definition_wins() {
    let mut env = home_env();
    env.set("HOME".to_string(), "/root".to_string());
    assert_eq!(env.get("HOME"), Some("/root".to_string()));
    assert_eq!(env.get("OTHER"), None);
}

#[test]
fn exclusion_is_by_whole_segments() {
    let rules = vec!["/r/a".to_string(), "/elsewhere".to_string()];
    assert!(is_excluded("/r/a", "/r", &rules));
    assert!(is_excluded("/r/a/b/c", "/r", &rules));
    assert!(!is_excluded("/r/ab", "/r", &rules));
    assert!(!is_excluded("/r/A", "/r", &rules));
    assert!(!is_excluded("/elsewhere/x", "/r", &rules));
    assert!(!is_excluded("/r/b", "/r", &vec!["/".to_string()]));
}

#[test]
fn rules_that_do_not_resolve_are_dropped() {
    let rules = vec!["$NOPE/x".to_string(), "~/y".to_string()];
    assert_eq!(resolve_rules(&rules, &home_env()), vec!["/home/u/y".to_string()]);
}

#[test]
fn excluded_rule_leaves_nothing_below_it() {
    let entries = vec![
        entry("/r/keep", false),
        entry("/r/skip", true),
        entry("/r/skip/deep", true),
        entry("/r/skip/deep/f", false),
        entry("/r/skipped", false),
        entry("/other/f", false),
    ];
    let steps = plan_directory("/r", "/d", &entries, &vec!["/r/skip".to_string()]);
    let sources: Vec<&str> = steps.iter().map(|s| s.source.as_str()).collect();
    assert_eq!(sources, vec!["/r", "/r/keep", "/r/skipped"]);
}

#[test]
fn excluding_the_root_plans_nothing() {
    let steps = plan_directory("/r", "/d", &vec![entry("/r/f", false)], &vec!["/r".to_string()]);
    assert!(steps.is_empty());
}

#[test]
fn replanning_gives_the_same_steps() {
    let entries = vec![entry("/r/a", false), entry("/r/b", true), entry("/r/b/c", false)];
    let rules = vec!["/r/b/c".to_string()];
    let first: Vec<String> =
        plan_directory("/r", "/d", &entries, &rules).iter().map(|s| s.destination.clone()).collect();
    let second: Vec<String> =
        plan_directory("/r", "/d", &entries, &rules).iter().map(|s| s.destination.clone()).collect();
    assert_eq!(first, second);
    assert_eq!(first, vec!["/d/r", "/d/r/a", "/d/r/b"]);
}

#[test]
fn path_helpers() {
    assert!(within("/a/b", "/a"));
    assert!(within("/a", "/a"));
    assert!(!within("/ab", "/a"));
    assert!(!within("/a", "/a/b"));
    assert_eq!(base_name("/home/u/.config"), ".config");
    assert_eq!(base_name("plain"), "plain");
    assert_eq!(base_name("/a/"), "");
    assert_eq!(mirrored("/r/x/y", "/r", "/d"), "/d/r/x/y");
}

#[test]
fn percent_is_rounded_down() {
    let e = ProgressEvent::new("f".to_string(), 1, 3);
    assert_eq!(e.percent, 33);
    let e = ProgressEvent::new("f".to_string(), 2, 3);
    assert_eq!(e.percent, 66);
    let e = ProgressEvent::new("f".to_string(), u64::MAX - 1, u64::MAX);
    assert_eq!(e.percent, 99);
    let e = ProgressEvent::new("f".to_string(), 0, 0);
    assert_eq!(e.percent, 100);
}

#[test]
fn every_stream_ends_complete() {
    let mut empty = ProgressStream::start("e".to_string(), 0);
    empty.finish();
    assert_eq!(empty.events.len(), 1);
    assert_eq!(empty.events[0].bytes_copied, 0);
    assert_eq!(empty.events[0].percent, 100);

    let mut s = ProgressStream::start("f".to_string(), 1000);
    assert!(s.observe(250));
    assert!(!s.observe(250));
    assert!(!s.observe(100));
    assert!(s.observe(5000));
    assert!(!s.observe(1000));
    s.finish();
    let copied: Vec<u64> = s.events.iter().map(|e| e.bytes_copied).collect();
    assert_eq!(copied, vec![250, 1000]);
    assert_eq!(s.events[0].percent, 25);
    assert_eq!(s.events[1].percent, 100);

    let mut partial = ProgressStream::start("g".to_string(), 10);
    partial.observe(4);
    partial.finish();
    let last = partial.events.last().unwrap();
    assert_eq!((last.bytes_copied, last.bytes_total, last.percent), (10, 10, 100));
    assert_eq!(last.subject_path, "g");
}

#[test]
fn defaults() {
    let c = Config::default();
    assert_eq!(c.options.repository, "https://github.com/<YOUR REPOSITORY URL>");
    assert_eq!(c.configs.sources, vec!["$HOME/.config".to_string()]);
    assert_eq!(c.configs.exclude, vec!["$HOME/.config/pavucontrol.ini".to_string()]);
    let g = GenConfig::new();
    assert!(g.configs.is_empty());
    assert!(g.packages.pacman.is_empty() && g.packages.aur.is_empty());
    let d = Duplit::new(c);
    assert_eq!(d.config.configs.sources.len(), 1);
}
