use relay_compiler::compiler::{Compiler, WatchAction, WatchEvent};
use relay_compiler::errors::{BuildProjectError, Error, Location, ValidationError};
use relay_compiler::project::{Config, ProjectConfig};
use relay_compiler::report::{render, RenderedLocation};
use relay_compiler::scheduler::{conclude, plan_commits, work_set, BuiltProject};
use relay_compiler::sources::{apply_change, FileChange, SourceFile};
use relay_compiler::state::CompilerState;
use std::collections::HashSet;

const SET_A: u64 = 10;
const SET_B: u64 = 20;

fn two_projects(only: Option<u64>) -> Config {
    Config {
        projects: vec![
            ProjectConfig { name: 1, source_sets: vec![SET_A] },
            ProjectConfig { name: 2, source_sets: vec![SET_B] },
        ],
        only_project: only,
    }
}

fn put(set: u64, path: u64, text: &str) -> FileChange {
    FileChange { source_set: set, path, text: Some(text.as_bytes().to_vec()) }
}

fn built(project: u64, artifacts: Vec<u64>) -> BuiltProject {
    BuiltProject { project, artifacts }
}

fn initial() -> Vec<FileChange> {
    vec![put(SET_A, 1, "query A { a }"), put(SET_B, 2, "query B { b }")]
}

fn first_build(c: &Compiler) -> CompilerState {
    let (mut st, w) = c.compile(&initial()).ok().unwrap();
    assert_eq!(w, vec![1, 2]);
    let r = c.build_projects(&mut st, vec![Ok(built(1, vec![100])), Ok(built(2, vec![200]))]);
    assert!(r.is_ok());
    st
}

#[test]
fn first_build_then_change_rebuilds_only_its_project() {
    let c = Compiler::new(two_projects(None));
    let mut st = first_build(&c);
    assert_eq!(st.artifacts.get(&1), Some(&vec![100]));
    assert_eq!(st.artifacts.get(&2), Some(&vec![200]));
    assert!(st.pending.is_empty());

    let ev = WatchEvent::Changes { changes: vec![put(SET_A, 1, "query A { a b }")] };
    let projects = match c.watch(&mut st, ev) {
        Ok(WatchAction::Rebuild { projects }) => projects,
        _ => panic!("expected a rebuild"),
    };
    assert_eq!(projects, vec![1]);
    assert!(st.project_has_pending_changes(1));
    assert!(!st.project_has_pending_changes(2));
    assert!(c.build_projects(&mut st, vec![Ok(built(1, vec![101]))]).is_ok());
    assert_eq!(st.artifacts.get(&1), Some(&vec![101]));
    assert_eq!(st.artifacts.get(&2), Some(&vec![200]));
    assert!(st.pending.is_empty());
}

#[test]
fn change_in_one_set_marks_only_its_consumers() {
    let config = Config {
        projects: vec![
            ProjectConfig { name: 1, source_sets: vec![SET_A] },
            ProjectConfig { name: 2, source_sets: vec![SET_B] },
            ProjectConfig { name: 3, source_sets: vec![SET_B, SET_A] },
        ],
        only_project: None,
    };
    let mut st = CompilerState::new();
    let changed = st.merge_file_source_changes(&config, &vec![put(SET_A, 5, "x"), put(SET_A, 6, "y")]);
    assert!(changed);
    assert!(st.pending.contains(&1));
    assert!(!st.pending.contains(&2));
    assert!(st.pending.contains(&3));
}

#[test]
fn redelivered_batch_changes_nothing() {
    let c = Compiler::new(two_projects(None));
    let mut st = first_build(&c);
    let batch = vec![put(SET_A, 1, "query A { a c }"), put(SET_A, 3, "fragment F on T { f }")];
    let first = c.watch(&mut st, WatchEvent::Changes { changes: batch });
    assert!(matches!(first, Ok(WatchAction::Rebuild { .. })));
    st.pending.clear();
    let again = vec![put(SET_A, 1, "query A { a c }"), put(SET_A, 3, "fragment F on T { f }")];
    assert!(matches!(c.watch(&mut st, WatchEvent::Changes { changes: again }), Ok(WatchAction::Idle)));
    assert!(st.pending.is_empty());
    assert_eq!(st.files.len(), 3);
}

#[test]
fn analysis_failure_is_reported_and_nothing_committed() {
    let err = BuildProjectError::Generation { project: 1 };
    let r = plan_commits(vec![Err(err), Ok(built(2, vec![7]))]);
    match r {
        Err(Error::BuildProjectsErrors { errors }) => {
            assert_eq!(errors.len(), 1);
            assert!(matches!(errors[0], BuildProjectError::Generation { project: 1 }));
        }
        _ => panic!("expected the aggregate failure"),
    }
    let ok = plan_commits(vec![Ok(built(1, vec![5])), Ok(built(2, vec![7]))]).ok().unwrap();
    assert_eq!(ok.len(), 2);
    assert_eq!(ok[0].project, 1);
    assert_eq!(ok[1].artifacts, vec![7]);
}

#[test]
fn failed_commit_leaves_manifest_untouched() {
    let c = Compiler::new(two_projects(None));
    let mut st = first_build(&c);
    st.pending.insert(1);
    st.pending.insert(2);
    let r = c.build_projects(
        &mut st,
        vec![Ok(built(1, vec![111])), Err(BuildProjectError::Commit { project: 2 })],
    );
    match r {
        Err(Error::BuildProjectsErrors { errors }) => {
            assert_eq!(errors.len(), 1);
            assert!(matches!(errors[0], BuildProjectError::Commit { project: 2 }));
        }
        _ => panic!("expected the aggregate failure"),
    }
    assert_eq!(st.artifacts.get(&1), Some(&vec![100]));
    assert_eq!(st.artifacts.get(&2), Some(&vec![200]));
    assert!(st.pending.contains(&1) && st.pending.contains(&2));
}

#[test]
fn manifest_does_not_depend_on_commit_order() {
    let a = conclude(vec![Ok(built(1, vec![1, 2])), Ok(built(2, vec![3])), Ok(built(3, vec![]))]).ok().unwrap();
    let b = conclude(vec![Ok(built(3, vec![])), Ok(built(1, vec![1, 2])), Ok(built(2, vec![3]))]).ok().unwrap();
    assert_eq!(a, b);
    assert_eq!(a.len(), 3);
    assert_eq!(a.get(&1), Some(&vec![1, 2]));
}

#[test]
fn commit_failures_keep_their_order() {
    let r = conclude(vec![
        Err(BuildProjectError::Commit { project: 4 }),
        Ok(built(1, vec![1])),
        Err(BuildProjectError::SchemaBuild { project: 2 }),
    ]);
    match r {
        Err(Error::BuildProjectsErrors { errors }) => {
            assert_eq!(errors.len(), 2);
            assert!(matches!(errors[0], BuildProjectError::Commit { project: 4 }));
            assert!(matches!(errors[1], BuildProjectError::SchemaBuild { project: 2 }));
        }
        _ => panic!("expected the aggregate failure"),
    }
}

#[test]
fn override_selects_one_project() {
    let config = two_projects(Some(2));
    let mut pending = HashSet::new();
    pending.insert(1);
    assert_eq!(work_set(&config, &pending).ok().unwrap(), vec![2]);
    let unknown = two_projects(Some(9));
    assert!(matches!(work_set(&unknown, &pending), Err(Error::UnknownProject { project: 9 })));
    let c = Compiler::new(two_projects(Some(9)));
    assert!(matches!(c.compile(&initial()), Err(Error::UnknownProject { project: 9 })));
}

#[test]
fn pending_projects_in_registry_order() {
    let config = two_projects(None);
    let mut pending = HashSet::new();
    pending.insert(2);
    pending.insert(1);
    assert_eq!(work_set(&config, &pending).ok().unwrap(), vec![1, 2]);
    pending.remove(&1);
    assert_eq!(work_set(&config, &pending).ok().unwrap(), vec![2]);
    assert_eq!(work_set(&config, &HashSet::new()).ok().unwrap(), Vec::<u64>::new());
}

#[test]
fn check_mode_reports_error_then_clears_for_other_project() {
    let c = Compiler::new(two_projects(None));
    let (mut st, w) = c.compile(&initial()).ok().unwrap();
    assert!(c.check_projects(&mut st, vec![Ok(()), Ok(())]).is_ok());
    assert!(st.pending.is_empty());

    let bad = "query A { a ";
    let ev = WatchEvent::Changes { changes: vec![put(SET_A, 1, bad)] };
    let projects = match c.watch_with_callback(&mut st, ev) {
        Ok(WatchAction::Recheck { projects }) => projects,
        _ => panic!("expected a re-check"),
    };
    assert_eq!(projects, vec![1]);
    let loc = Location { source_set: SET_A, path: 1, start: 6, end: 7 };
    let err = BuildProjectError::ValidationErrors {
        errors: vec![ValidationError { message: "Expected a selection".to_string(), locations: vec![loc] }],
    };
    let r = c.check_projects(&mut st, vec![Err(err)]);
    let errors = match r {
        Err(Error::BuildProjectsErrors { errors }) => errors,
        _ => panic!("expected the check failure"),
    };
    assert_eq!(errors.len(), 1);
    let blocks = render(&errors[0], &st.files);
    assert_eq!(blocks.len(), 1);
    assert_eq!(blocks[0].message, "Expected a selection");
    match &blocks[0].locations[0] {
        RenderedLocation::Excerpt { location, text } => {
            assert_eq!(*location, loc);
            assert_eq!(text.as_slice(), b"A");
        }
        _ => panic!("expected an excerpt"),
    }

    let ev = WatchEvent::Changes { changes: vec![put(SET_B, 2, "query B { b c }")] };
    let projects = match c.watch_with_callback(&mut st, ev) {
        Ok(WatchAction::Recheck { projects }) => projects,
        _ => panic!("expected a re-check"),
    };
    assert_eq!(projects, vec![2]);
    assert!(c.check_projects(&mut st, vec![Ok(())]).is_ok());
    assert!(st.pending.is_empty());
}

#[test]
fn render_falls_back_to_raw_locations() {
    let files = vec![SourceFile { source_set: SET_A, path: 1, text: b"query Q { x }".to_vec() }];
    let gone = Location { source_set: SET_A, path: 2, start: 0, end: 1 };
    let past_end = Location { source_set: SET_A, path: 1, start: 10, end: 40 };
    let inside = Location { source_set: SET_A, path: 1, start: 0, end: 5 };
    let err = BuildProjectError::ValidationErrors {
        errors: vec![
            ValidationError { message: "first".to_string(), locations: vec![gone, past_end] },
            ValidationError { message: "second".to_string(), locations: vec![inside] },
        ],
    };
    let blocks = render(&err, &files);
    assert_eq!(blocks.len(), 2);
    assert_eq!(blocks[0].message, "first");
    assert!(matches!(blocks[0].locations[0], RenderedLocation::Raw { location } if location == gone));
    assert!(matches!(blocks[0].locations[1], RenderedLocation::Raw { location } if location == past_end));
    match &blocks[1].locations[0] {
        RenderedLocation::Excerpt { text, .. } => assert_eq!(text.as_slice(), b"query"),
        _ => panic!("expected an excerpt"),
    }
    assert!(render(&BuildProjectError::Commit { project: 1 }, &files).is_empty());
}

#[test]
fn subscription_end_and_failure() {
    let c = Compiler::new(two_projects(None));
    let mut st = CompilerState::new();
    assert!(matches!(c.watch(&mut st, WatchEvent::Closed), Ok(WatchAction::Stop)));
    assert!(matches!(c.watch_with_callback(&mut st, WatchEvent::Failed), Err(Error::Subscription)));
}

#[test]
fn single_changes_apply_to_the_snapshot() {
    let mut files: Vec<SourceFile> = Vec::new();
    assert!(apply_change(&mut files, &put(SET_A, 1, "a")));
    assert!(!apply_change(&mut files, &put(SET_A, 1, "a")));
    assert!(apply_change(&mut files, &put(SET_A, 1, "b")));
    assert_eq!(files.len(), 1);
    assert_eq!(files[0].text, b"b".to_vec());
    let remove = FileChange { source_set: SET_A, path: 1, text: None };
    assert!(apply_change(&mut files, &remove));
    assert!(!apply_change(&mut files, &remove));
    assert!(files.is_empty());
}

#[test]
fn removal_marks_consumers() {
    let c = Compiler::new(two_projects(None));
    let mut st = first_build(&c);
    let ev = WatchEvent::Changes { changes: vec![FileChange { source_set: SET_B, path: 2, text: None }] };
    assert!(matches!(c.watch(&mut st, ev), Ok(WatchAction::Rebuild { ref projects }) if *projects == vec![2]));
    assert_eq!(c.build_schemas(), vec![1, 2]);
    assert_eq!(c.config.project_index(2), Some(1));
    assert_eq!(c.config.project_index(7), None);
}

#[test]
fn commit_of_unknown_project_is_a_contract_violation() {
    let c = Compiler::new(two_projects(None));
    let mut st = first_build(&c);
    st.pending.insert(1);
    let r = c.build_projects(&mut st, vec![Ok(built(1, vec![5])), Ok(built(8, vec![6]))]);
    assert!(matches!(r, Err(Error::UnknownProject { project: 8 })));
    assert_eq!(st.artifacts.get(&1), Some(&vec![100]));
    assert!(st.pending.contains(&1));
}

#[test]
fn redelivered_batch_writing_a_file_twice_changes_nothing() {
    let config = Config { projects: vec![ProjectConfig { name: 1, source_sets: vec![7] }], only_project: None };
    let c = Compiler::new(config);
    let mut st = CompilerState::new();
    let batch = || vec![
        FileChange { source_set: 7, path: 0, text: Some(vec![1]) },
        FileChange { source_set: 7, path: 0, text: Some(vec![2]) },
    ];
    assert!(matches!(c.watch(&mut st, WatchEvent::Changes { changes: batch() }), Ok(WatchAction::Rebuild { .. })));
    st.pending.clear();
    assert!(matches!(c.watch(&mut st, WatchEvent::Changes { changes: batch() }), Ok(WatchAction::Idle)));
    assert!(matches!(c.watch_with_callback(&mut st, WatchEvent::Changes { changes: batch() }), Ok(WatchAction::Idle)));
    assert!(st.pending.is_empty());
    assert_eq!(st.files.len(), 1);
    assert_eq!(st.files[0].text, vec![2]);
}

#[test]
fn batch_with_no_net_effect_marks_nothing() {
    let c = Compiler::new(two_projects(None));
    let mut st = first_build(&c);
    let changes = vec![put(SET_A, 1, "query A { z }"), put(SET_A, 1, "query A { a }")];
    assert!(matches!(c.watch(&mut st, WatchEvent::Changes { changes }), Ok(WatchAction::Idle)));
    let add_then_remove = vec![put(SET_B, 9, "x"), FileChange { source_set: SET_B, path: 9, text: None }];
    assert!(!st.merge_file_source_changes(&c.config, &add_then_remove));
    assert!(st.pending.is_empty());
}

#[test]
fn only_committed_projects_stop_pending() {
    let c = Compiler::new(two_projects(None));
    let mut st = first_build(&c);
    st.pending.insert(1);
    st.pending.insert(2);
    assert!(c.build_projects(&mut st, vec![Ok(built(1, vec![9]))]).is_ok());
    assert!(!st.pending.contains(&1));
    assert!(st.pending.contains(&2));
    assert_eq!(st.artifacts.get(&1), Some(&vec![9]));
    assert_eq!(st.artifacts.get(&2), Some(&vec![200]));
}

#[test]
fn commit_outside_the_cycle_is_a_contract_violation() {
    let c = Compiler::new(two_projects(None));
    let mut st = first_build(&c);
    st.pending.insert(1);
    let r = c.build_projects(&mut st, vec![Ok(built(1, vec![5])), Ok(built(2, vec![6]))]);
    assert!(matches!(r, Err(Error::OutsideCycle { project: 2 })));
    assert_eq!(st.artifacts.get(&1), Some(&vec![100]));
    assert_eq!(st.artifacts.get(&2), Some(&vec![200]));
    assert!(st.pending.contains(&1));
}

#[test]
fn override_rebuilds_only_its_project() {
    let c = Compiler::new(two_projects(Some(2)));
    let (mut st, w) = c.compile(&initial()).ok().unwrap();
    assert_eq!(w, vec![2]);
    assert!(c.build_projects(&mut st, vec![Ok(built(2, vec![20]))]).is_ok());
    assert!(st.pending.contains(&1));
    let ev = WatchEvent::Changes { changes: vec![put(SET_A, 1, "query A { q }")] };
    assert!(matches!(c.watch(&mut st, ev), Ok(WatchAction::Rebuild { ref projects }) if *projects == vec![2]));
    assert_eq!(st.artifacts.get(&1), None);
}

#[test]
fn cycle_end_with_unknown_override_is_a_contract_violation() {
    let good = Compiler::new(two_projects(None));
    let mut st = first_build(&good);
    st.pending.insert(1);
    let c = Compiler::new(two_projects(Some(9)));
    assert!(matches!(c.build_projects(&mut st, vec![]), Err(Error::UnknownProject { project: 9 })));
    assert!(matches!(c.check_projects(&mut st, vec![]), Err(Error::UnknownProject { project: 9 })));
    assert!(st.pending.contains(&1));
    assert_eq!(st.artifacts.get(&1), Some(&vec![100]));
}

#[test]
fn cycle_end_keeps_to_the_override() {
    let c = Compiler::new(two_projects(Some(2)));
    let (mut st, _) = c.compile(&initial()).ok().unwrap();
    let r = c.build_projects(&mut st, vec![Ok(built(1, vec![10]))]);
    assert!(matches!(r, Err(Error::OutsideCycle { project: 1 })));
    assert!(st.pending.contains(&1) && st.pending.contains(&2));
    assert!(st.artifacts.is_empty());
    assert!(c.check_projects(&mut st, vec![Ok(())]).is_ok());
    assert!(st.pending.contains(&1));
    assert!(!st.pending.contains(&2));
}

#[test]
fn cycle_end_builds_only_pending_projects() {
    let c = Compiler::new(two_projects(None));
    let mut st = first_build(&c);
    st.pending.insert(1);
    let r = c.build_projects(&mut st, vec![Ok(built(1, vec![1])), Ok(built(2, vec![2]))]);
    assert!(matches!(r, Err(Error::OutsideCycle { project: 2 })));
    assert_eq!(st.artifacts.get(&2), Some(&vec![200]));
}

#[test]
fn only_contract_violations_end_a_watch() {
    assert!(!Error::BuildProjectsErrors { errors: vec![] }.ends_watch());
    assert!(Error::UnknownProject { project: 1 }.ends_watch());
    assert!(Error::OutsideCycle { project: 1 }.ends_watch());
    assert!(Error::Subscription.ends_watch());
}

#[test]
fn registry_names_must_be_unique() {
    assert!(two_projects(None).has_unique_names());
    let dup = Config {
        projects: vec![
            ProjectConfig { name: 1, source_sets: vec![SET_A] },
            ProjectConfig { name: 2, source_sets: vec![SET_B] },
            ProjectConfig { name: 1, source_sets: vec![SET_B] },
        ],
        only_project: None,
    };
    assert!(!dup.has_unique_names());
}

#[test]
fn failures_do_not_depend_on_outcome_order() {
    let first = plan_commits(vec![
        Err(BuildProjectError::Generation { project: 1 }),
        Ok(built(2, vec![2])),
        Err(BuildProjectError::SchemaBuild { project: 3 }),
    ]);
    let second = plan_commits(vec![
        Err(BuildProjectError::SchemaBuild { project: 3 }),
        Err(BuildProjectError::Generation { project: 1 }),
        Ok(built(2, vec![2])),
    ]);
    let names = |r: Result<Vec<BuiltProject>, Error>| -> Vec<(u8, u64)> {
        let mut v: Vec<(u8, u64)> = match r {
            Err(Error::BuildProjectsErrors { errors }) => errors
                .iter()
                .map(|e| match e {
                    BuildProjectError::Generation { project } => (1, *project),
                    BuildProjectError::SchemaBuild { project } => (2, *project),
                    _ => (0, 0),
                })
                .collect(),
            _ => panic!("expected the aggregate failure"),
        };
        v.sort();
        v
    };
    assert_eq!(names(first), vec![(1, 1), (2, 3)]);
    assert_eq!(names(second), vec![(1, 1), (2, 3)]);
}
