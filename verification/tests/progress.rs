use gix::progress::{Count, Progress};
use patmat::task::tasks::clone::progress::{
    single_line, CloneProgress, ProgressLine, ProgressSnapshot, TaskSnapshot, MAX_NAME_CHARACTERS,
};
use patmat::task::tasks::clone::{finish, refresh, start};
use patmat::task::Status;
use patmat::text::decimal;

fn rows_of(progress: CloneProgress) -> Vec<patmat::task::tasks::clone::progress::ProgressRow> {
    match progress {
        CloneProgress::Running(rows) => rows,
        _ => panic!("a snapshot should produce running progress"),
    }
}

fn task(name: &str, step: usize, done_at: Option<usize>) -> TaskSnapshot {
    TaskSnapshot {
        name: name.to_string(),
        progress: Some(ProgressSnapshot { step, done_at, unit_text: None }),
    }
}

#[test]
fn snapshots_bounded_gix_progress() {
    let tree = gix::progress::tree::Root::new();
    let mut item = tree.add_child("receiving objects");
    item.init(Some(20), gix::progress::count("objects"));
    item.set(5);

    let CloneProgress::Running(rows) = CloneProgress::from_tree(&tree) else {
        panic!("a live gix task should produce running progress");
    };
    assert_eq!(rows.len(), 1);
    assert_eq!(rows[0].name, "receiving objects");
    let fraction = rows[0].fraction.map(|(done, of)| done as f64 / of as f64);
    assert_eq!(fraction, Some(0.25));
}

#[test]
fn remote_progress_names_are_kept_to_one_bounded_line() {
    let name = format!("{}\nignored", "x".repeat(MAX_NAME_CHARACTERS + 10));
    let name = single_line(&name);

    assert_eq!(name.chars().count(), MAX_NAME_CHARACTERS + 1);
    assert!(name.ends_with('…'));
    assert!(!name.contains('\n'));
}

#[test]
fn short_names_only_lose_their_line_breaks() {
    assert_eq!(single_line("fetch\r\nobjects"), "fetch  objects");
    assert_eq!(single_line(""), "");
    let exact = "y".repeat(MAX_NAME_CHARACTERS);
    assert_eq!(single_line(&exact), exact);
    let one_more = "z".repeat(MAX_NAME_CHARACTERS + 1);
    assert_eq!(single_line(&one_more), format!("{}…", "z".repeat(MAX_NAME_CHARACTERS)));
}

#[test]
fn decimal_matches_to_string() {
    for n in [0usize, 7, 10, 99, 100, 1234567890, usize::MAX] {
        assert_eq!(decimal(n), n.to_string());
    }
}

#[test]
fn snapshot_keeps_last_three_rows_of_tasks_with_progress() {
    let tasks = vec![
        TaskSnapshot { name: "group".to_string(), progress: None },
        task("one", 1, Some(4)),
        task("two", 7, None),
        task("three", 30, Some(20)),
        task("four", 3, Some(0)),
    ];
    let rows = rows_of(CloneProgress::from_snapshot(tasks));
    assert_eq!(rows.len(), 3);
    assert_eq!(rows[0].name, "two");
    assert_eq!(rows[0].value, "7");
    assert_eq!(rows[0].fraction, None);
    assert_eq!(rows[1].name, "three");
    assert_eq!(rows[1].value, "30/20");
    assert_eq!(rows[1].fraction, Some((20, 20)));
    assert_eq!(rows[2].name, "four");
    assert_eq!(rows[2].value, "3/0");
    assert_eq!(rows[2].fraction, None);
}

#[test]
fn snapshot_uses_the_unit_text_when_there_is_one() {
    let tasks = vec![TaskSnapshot {
        name: "receiving\nobjects".to_string(),
        progress: Some(ProgressSnapshot { step: 5, done_at: Some(20), unit_text: Some("5/20 objects".to_string()) }),
    }];
    let rows = rows_of(CloneProgress::from_snapshot(tasks));
    assert_eq!(rows.len(), 1);
    assert_eq!(rows[0].name, "receiving objects");
    assert_eq!(rows[0].value, "5/20 objects");
    assert_eq!(rows[0].fraction, Some((5, 20)));
}

fn texts(lines: &[ProgressLine]) -> Vec<String> {
    lines
        .iter()
        .map(|line| match line {
            ProgressLine::Text(text) => text.clone(),
            ProgressLine::Bar(done, of) => format!("bar {done}/{of}"),
        })
        .collect()
}

#[test]
fn panel_lines_for_each_state() {
    assert_eq!(texts(&CloneProgress::Starting.lines()), vec!["0%", "bar 0/1"]);
    assert_eq!(texts(&CloneProgress::Running(vec![]).lines()), vec!["0%", "bar 0/1"]);
    assert_eq!(texts(&CloneProgress::Complete.lines()), vec!["bar 1/1", "Clone complete"]);
    assert_eq!(
        texts(&CloneProgress::Failed("no\nroute".to_string()).lines()),
        vec!["Clone failed: no route"]
    );
    let running = CloneProgress::from_snapshot(vec![task("objects", 5, Some(20)), task("deltas", 2, None)]);
    assert_eq!(texts(&running.lines()), vec!["objects: 5/20", "bar 5/20", "deltas: 2"]);
}

#[test]
fn refresh_only_replaces_a_changed_progress() {
    let current = CloneProgress::from_snapshot(vec![task("objects", 5, Some(20))]);
    let same = CloneProgress::from_snapshot(vec![task("objects", 5, Some(20))]);
    assert!(refresh(&current, same).is_none());
    let moved = CloneProgress::from_snapshot(vec![task("objects", 6, Some(20))]);
    assert!(refresh(&current, moved).is_some());
    assert!(refresh(&CloneProgress::Starting, CloneProgress::Complete).is_some());
}

#[test]
fn clone_start_and_finish() {
    let (progress, status) = start(true);
    assert!(matches!(progress, CloneProgress::Complete));
    assert_eq!(status, Some(Status::AlreadyBuilt));
    let (progress, status) = start(false);
    assert!(matches!(progress, CloneProgress::Starting));
    assert_eq!(status, None);

    let (progress, answer) = finish(Ok(()));
    assert!(matches!(progress, CloneProgress::Complete));
    assert_eq!(answer, Ok(Status::Built));
    let (progress, answer) = finish(Err("fetch failed".to_string()));
    assert!(matches!(progress, CloneProgress::Failed(ref m) if m == "fetch failed"));
    assert_eq!(answer, Err("fetch failed".to_string()));
}
