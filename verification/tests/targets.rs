use patmat::target::status::{StatusIcon, TargetStatus};
use patmat::target::{DependencyStep, RunStep, TargetRun};
use patmat::task::Status;
use patmat::ui::target_tree::default_index;
use patmat::utils::{display_target_path, path_below, TargetWalk};

#[test]
fn a_successful_run_is_kept() {
    let mut run: TargetRun<u32> = TargetRun::new();
    assert_eq!(*run.status(), TargetStatus::Unsatisfied);
    assert_eq!(run.start(), RunStep::RunDependencies);
    assert_eq!(*run.status(), TargetStatus::RunningDependencies);
    run.expect_dependencies(2);
    assert_eq!(run.dependency_ran(Ok(())), DependencyStep::Continue);
    assert_eq!(run.dependency_ran(Ok(())), DependencyStep::Continue);
    run.dependencies_done();
    assert_eq!(*run.status(), TargetStatus::Running);
    assert_eq!(run.finish(Ok((42, Status::Built))), Ok(Status::Built));
    assert_eq!(*run.status(), TargetStatus::Satisfied(Status::Built));
    assert_eq!(run.output(), Some(&42));
    assert_eq!(run.start(), RunStep::Cached);
    assert_eq!(*run.status(), TargetStatus::Satisfied(Status::Built));
}

#[test]
fn a_failed_run_shows_its_message_and_runs_again() {
    let mut run: TargetRun<()> = TargetRun::new();
    assert_eq!(run.start(), RunStep::RunDependencies);
    run.expect_dependencies(0);
    run.dependencies_done();
    assert_eq!(run.finish(Err("boom".to_string())), Err("boom".to_string()));
    assert_eq!(*run.status(), TargetStatus::Error("boom".to_string()));
    assert_eq!(run.output(), None);
    assert_eq!(run.start(), RunStep::RunDependencies);
}

#[test]
fn a_failed_dependency_stops_the_run_before_the_task() {
    let mut run: TargetRun<u32> = TargetRun::new();
    assert_eq!(run.start(), RunStep::RunDependencies);
    run.expect_dependencies(2);
    assert_eq!(run.dependency_ran(Ok(())), DependencyStep::Continue);
    assert_eq!(run.dependency_ran(Err("dependency failed".to_string())), DependencyStep::Stop("dependency failed".to_string()));
    assert_eq!(*run.status(), TargetStatus::RunningDependencies);
    assert_eq!(run.output(), None);
    assert_eq!(run.start(), RunStep::RunDependencies);
    run.expect_dependencies(1);
    assert_eq!(run.dependency_ran(Ok(())), DependencyStep::Continue);
    run.dependencies_done();
    assert_eq!(run.finish(Ok((5, Status::AlreadyBuilt))), Ok(Status::AlreadyBuilt));
    assert_eq!(run.output(), Some(&5));
}

#[test]
fn statuses_have_labels_and_icons() {
    let cases = [
        (TargetStatus::Unsatisfied, "Unsatisfied", StatusIcon::CircleDashed, false),
        (TargetStatus::RunningDependencies, "Running dependencies", StatusIcon::CircleEllipsis, false),
        (TargetStatus::Running, "Running", StatusIcon::Loader, false),
        (TargetStatus::Satisfied(Status::Built), "Built", StatusIcon::Hammer, true),
        (TargetStatus::Satisfied(Status::AlreadyBuilt), "Already built", StatusIcon::CheckCircle, true),
        (TargetStatus::Error("x".to_string()), "Error", StatusIcon::CircleX, false),
    ];
    for (status, label, icon, satisfied) in cases {
        assert_eq!(status.label(), label);
        assert_eq!(status.get_icon(), icon);
        assert_eq!(status.satisfied(), satisfied);
    }
}

// A dependency graph: a -> [b, c], b -> [d], c -> [d, a], d -> [], e -> [d]; ids are the letters.
fn dependencies(target: char) -> Vec<char> {
    match target {
        'a' => vec!['b', 'c'],
        'b' => vec!['d'],
        'c' => vec!['d', 'a'],
        'e' => vec!['d'],
        _ => vec![],
    }
}

fn walk(roots: Vec<char>) -> Vec<char> {
    let mut walk = TargetWalk::new(roots);
    while let Some(target) = walk.next() {
        walk.visit(target, target as u64, dependencies(target));
    }
    walk.into_targets()
}

#[test]
fn targets_are_listed_depth_first_once_each() {
    assert_eq!(walk(vec!['a']), vec!['a', 'b', 'd', 'c']);
    assert_eq!(walk(vec!['e', 'a']), vec!['e', 'd', 'a', 'b', 'c']);
    assert_eq!(walk(vec![]), Vec::<char>::new());
    assert_eq!(walk(vec!['d', 'd']), vec!['d']);
}

#[test]
fn visit_answers_whether_the_target_was_listed() {
    let mut walk = TargetWalk::new(vec![1u8, 2u8]);
    let first = walk.next().unwrap();
    assert_eq!(first, 1);
    assert!(walk.visit(first, 10, vec![3]));
    assert_eq!(walk.next(), Some(3));
    assert!(!walk.visit(3, 10, vec![4]));
    assert_eq!(walk.next(), Some(2));
    assert!(walk.visit(2, 20, vec![]));
    assert_eq!(walk.next(), None);
    assert_eq!(walk.into_targets(), vec![1, 2]);
}

#[test]
fn paths_are_shown_relative_to_the_working_directory() {
    assert_eq!(display_target_path("/work/repo/src", "/work"), "repo/src");
    assert_eq!(display_target_path("/work", "/work"), ".");
    assert_eq!(display_target_path("/elsewhere/file", "/work"), "/elsewhere/file");
    assert_eq!(display_target_path("/workshop", "/work"), "/workshop");
}

#[test]
fn the_part_below_the_working_directory_is_taken() {
    assert_eq!(path_below("/work/repo/src", "/work"), Some("repo/src".to_string()));
    assert_eq!(path_below("/work", "/work"), None);
    assert_eq!(path_below("/work/", "/work"), None);
    assert_eq!(path_below("/elsewhere/file", "/work"), Some("/elsewhere/file".to_string()));
}

#[test]
fn target_menu_opens_on_a_valid_entry() {
    assert_eq!(default_index(0, 0), None);
    assert_eq!(default_index(5, 0), None);
    assert_eq!(default_index(1, 3), Some(1));
    assert_eq!(default_index(7, 3), Some(2));
}

#[test]
fn window_title_names_the_working_directory() {
    assert_eq!(patmat::builder::title("~/projects/app"), "Patmat ~/projects/app");
}
