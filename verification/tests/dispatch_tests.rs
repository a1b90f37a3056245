use cmake_forge::dispatch::{
    find_build_by_name, next_step, plan_build, plan_configure, plan_run, DispatchError, NextAction,
};
use cmake_forge::doc::{BuildJson, CacheJson, ConfigureJson, RunJson};

fn doc_for_run_scenario() -> CacheJson {
    CacheJson {
        workspace: String::from("/ws"),
        build_targets: vec![String::from("t1")],
        current_build_target: String::from("t1"),
        builds: vec![BuildJson {
            name: String::from("t1"),
            command: String::from("cmake"),
            args: vec![String::from("--build"), String::from(".")],
        }],
        runs: vec![RunJson {
            name: String::from("t1"),
            command: String::from("./app"),
            args: vec![],
            pre_build: true,
        }],
        configurations: vec![],
    }
}

#[test]
fn run_with_pre_build_plans_build_first() {
    let d = doc_for_run_scenario();
    let steps = plan_run(&d, "/ws").unwrap();
    assert_eq!(steps.len(), 2);
    assert_eq!(steps[0].command, "cmake");
    assert_eq!(steps[0].args, vec!["--build".to_string(), ".".to_string()]);
    assert_eq!(steps[0].workspace, "/ws");
    assert_eq!(steps[1].command, "./app");
    assert!(steps[1].args.is_empty());
    assert_eq!(steps[1].workspace, "/ws");
    // the dispatch loop hands the steps out in order...
    assert_eq!(next_step(&steps, 0, false), NextAction::RunStep(0));
    assert_eq!(next_step(&steps, 1, false), NextAction::RunStep(1));
    assert_eq!(next_step(&steps, 2, false), NextAction::Done);
    // ...and a failed build step aborts: the run command is never handed out
    assert_eq!(next_step(&steps, 1, true), NextAction::Abort);
}

#[test]
fn run_without_pre_build_plans_one_step() {
    let mut d = doc_for_run_scenario();
    d.runs[0].pre_build = false;
    let steps = plan_run(&d, "/ws").unwrap();
    assert_eq!(steps.len(), 1);
    assert_eq!(steps[0].command, "./app");
}

#[test]
fn run_with_pre_build_but_no_build_entry_fails() {
    let mut d = doc_for_run_scenario();
    d.builds.clear();
    let e = plan_run(&d, "/ws").unwrap_err();
    assert!(matches!(e, DispatchError::BuildTargetNotFound { .. }));
    assert_eq!(e.message(), "Build target not found: t1");
}

#[test]
fn run_target_missing_fails() {
    let mut d = doc_for_run_scenario();
    d.runs.clear();
    let e = plan_run(&d, "/ws").unwrap_err();
    assert!(matches!(e, DispatchError::RunTargetNotFound { .. }));
    assert_eq!(e.message(), "Run target not found: t1");
}

#[test]
fn configure_missing_entry_fails_without_invocation() {
    let d = doc_for_run_scenario();
    let e = plan_configure(&d, "/ws").unwrap_err();
    match &e {
        DispatchError::ConfigureTargetNotFound { name } => assert_eq!(name, "t1"),
        other => panic!("unexpected error: {:?}", other),
    }
    assert_eq!(e.message(), "Configure target not found: t1");
}

#[test]
fn configure_uses_matching_entry() {
    let mut d = doc_for_run_scenario();
    d.configurations.push(ConfigureJson {
        name: String::from("t1"),
        command: String::from("cmake"),
        args: vec![String::from("-G"), String::from("Ninja")],
    });
    let inv = plan_configure(&d, "/ws").unwrap();
    assert_eq!(inv.command, "cmake");
    assert_eq!(inv.args, vec!["-G".to_string(), "Ninja".to_string()]);
    assert_eq!(inv.workspace, "/ws");
}

#[test]
fn build_uses_matching_entry() {
    let d = doc_for_run_scenario();
    let inv = plan_build(&d, "/ws").unwrap();
    assert_eq!(inv.command, "cmake");
}

#[test]
fn build_missing_entry_fails() {
    let mut d = doc_for_run_scenario();
    d.current_build_target = String::from("other");
    let e = plan_build(&d, "/ws").unwrap_err();
    assert!(matches!(e, DispatchError::BuildTargetNotFound { .. }));
    assert_eq!(e.message(), "Build target not found: other");
}

#[test]
fn lookup_returns_first_match_on_duplicates() {
    let builds = vec![
        BuildJson {
            name: String::from("dup"),
            command: String::from("first"),
            args: vec![],
        },
        BuildJson {
            name: String::from("dup"),
            command: String::from("second"),
            args: vec![],
        },
    ];
    let i = find_build_by_name(&builds, &String::from("dup")).unwrap();
    assert_eq!(i, 0);
    let d = CacheJson {
        workspace: String::from("/ws"),
        build_targets: vec![],
        current_build_target: String::from("dup"),
        builds,
        runs: vec![],
        configurations: vec![],
    };
    let inv = plan_build(&d, "/ws").unwrap();
    assert_eq!(inv.command, "first");
}

#[test]
fn lookup_misses_without_match() {
    let builds = vec![BuildJson {
        name: String::from("a"),
        command: String::from("c"),
        args: vec![],
    }];
    assert!(find_build_by_name(&builds, &String::from("b")).is_none());
}

#[test]
fn entry_invocation_builders_copy_their_fields() {
    let b = BuildJson {
        name: String::from("n"),
        command: String::from("make"),
        args: vec![String::from("-j4")],
    };
    let inv = b.build("/here");
    assert_eq!(inv.workspace, "/here");
    assert_eq!(inv.command, "make");
    assert_eq!(inv.args, vec!["-j4".to_string()]);
    let r = RunJson {
        name: String::from("n"),
        command: String::from("./bin"),
        args: vec![String::from("x")],
        pre_build: false,
    };
    let inv2 = r.run("/there");
    assert_eq!(inv2.command, "./bin");
    assert_eq!(inv2.args, vec!["x".to_string()]);
    let c = ConfigureJson {
        name: String::from("n"),
        command: String::from("cfg"),
        args: vec![],
    };
    let inv3 = c.configure("/w");
    assert_eq!(inv3.command, "cfg");
    assert_eq!(inv3.workspace, "/w");
}
