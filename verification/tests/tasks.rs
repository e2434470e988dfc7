use patmat::text::{trim, white_space};
use patmat::task::tasks::checkout::{self, CheckoutStep};
use patmat::task::tasks::filesystem::{self, DirectoryRole, FsAction, FsPlan};
use patmat::task::tasks::{clone, pull, require, terminal};
use patmat::task::Status;

fn actions(plan: FsPlan) -> Vec<String> {
    match plan {
        FsPlan::AlreadyBuilt => vec!["already built".to_string()],
        FsPlan::Run(actions) => actions
            .into_iter()
            .map(|action| match action {
                FsAction::CopyFile { source, destination } => format!("copy {source} {destination}"),
                FsAction::CopyDirAll { source, destination } => format!("copy-dir {source} {destination}"),
                FsAction::CreateDirAll { path, role } => format!("mkdir {path} {role:?}"),
                FsAction::Write { path, content } => format!("write {path} {content}"),
            })
            .collect(),
    }
}

#[test]
fn checkout_decides_on_the_current_branch() {
    let task = checkout::new("/repo".to_string(), "main".to_string());
    assert_eq!(task.init_path(), "/repo");
    assert!(matches!(task.decide::<()>(true, "main\n", ""), CheckoutStep::AlreadyOnBranch));
    match task.decide::<()>(true, "  dev \n", "") {
        CheckoutStep::Checkout(run) => {
            assert_eq!(run.command, "git checkout main");
            assert_eq!(run.working_dir, Some("/repo".to_string()));
            assert!(run.terminal.is_none());
        }
        _ => panic!("another branch should be checked out"),
    }
    match task.decide::<()>(false, "", "not a repository") {
        CheckoutStep::Failed(message) => assert_eq!(message, "Git branch command failed: not a repository"),
        _ => panic!("a failed git command should fail the task"),
    }
}

#[test]
fn pull_runs_git_pull_in_the_repository() {
    let task = pull::new::<()>("/repo".to_string());
    assert_eq!(task.command, "git pull");
    assert_eq!(task.working_dir, Some("/repo".to_string()));
    assert_eq!(task.init_path(), Some("/repo".to_string()));
}

#[test]
fn terminal_tasks_keep_what_they_were_given() {
    let plain = terminal::new::<u8>("ls".to_string());
    assert_eq!(plain.command, "ls");
    assert_eq!(plain.init_path(), None);
    assert_eq!(plain.widget(), None);
    let framed = terminal::with_terminal_in_dir(7u8, "make".to_string(), "/src".to_string());
    assert_eq!(framed.widget(), Some(&7));
    assert_eq!(framed.init_path(), Some("/src".to_string()));
    let in_dir = terminal::new_in_dir::<u8>("make".to_string(), "/b".to_string());
    assert_eq!(in_dir.working_dir, Some("/b".to_string()));
    let given = terminal::with_terminal(3u8, "top".to_string());
    assert_eq!(given.terminal, Some(3));
    assert_eq!(given.working_dir, None);
}

#[test]
fn checkout_ignores_white_space_around_the_branch_name() {
    let task = checkout::new("/repo".to_string(), "main".to_string());
    assert!(matches!(task.decide::<()>(true, "\t\u{a0}main\u{3000}\r\n", ""), CheckoutStep::AlreadyOnBranch));
    assert!(matches!(task.decide::<()>(true, "ma in", ""), CheckoutStep::Checkout(_)));
}

#[test]
fn require_is_built_at_once() {
    assert_eq!(require::new().run(), Status::Built);
}

#[test]
fn clone_looks_for_the_git_directory() {
    let task = clone::new("/repos/app".to_string(), "https://example.org/app.git".to_string());
    assert_eq!(task.git_directory(), "/repos/app/.git");
    assert_eq!(task.remote_path, "https://example.org/app.git");
}

#[test]
fn filesystem_tasks_plan_their_work() {
    let copy = filesystem::copy_file("a.txt".to_string(), "out/a.txt".to_string());
    assert_eq!(copy.init_path(), "out/a.txt");
    assert_eq!(actions(copy.plan()), vec!["copy a.txt out/a.txt"]);

    let dir = filesystem::copy_dir("assets".to_string(), "out/assets".to_string());
    assert_eq!(actions(dir.plan(true)), vec!["already built"]);
    assert_eq!(actions(dir.plan(false)), vec!["copy-dir assets out/assets"]);

    let create = filesystem::create_dir("out".to_string());
    assert_eq!(actions(create.plan(true)), vec!["already built"]);
    assert_eq!(actions(create.plan(false)), vec!["mkdir out Directory"]);

    let write = filesystem::write_file("out/notes.txt".to_string(), "hello".to_string());
    assert_eq!(actions(write.plan(Some("hello"))), vec!["already built"]);
    assert_eq!(actions(write.plan(Some("old"))), vec!["mkdir out ParentDirectory", "write out/notes.txt hello"]);
    assert_eq!(actions(write.plan(None)), vec!["mkdir out ParentDirectory", "write out/notes.txt hello"]);
    let bare = filesystem::write_file("notes.txt".to_string(), "x".to_string());
    assert_eq!(actions(bare.plan(None)), vec!["mkdir  ParentDirectory", "write notes.txt x"]);

    let tree = filesystem::create_directory("build".to_string(), vec!["bin".to_string(), "lib/x".to_string()]);
    assert_eq!(tree.output(), "build");
    assert_eq!(actions(tree.plan(true)), vec!["already built"]);
    assert_eq!(
        actions(tree.plan(false)),
        vec!["mkdir build Directory", "mkdir build/bin Subdirectory", "mkdir build/lib/x Subdirectory"]
    );
    assert_eq!(FsPlan::AlreadyBuilt.status(), Status::AlreadyBuilt);
    assert_eq!(tree.plan(false).status(), Status::Built);
    let _ = DirectoryRole::Directory;
}

#[test]
fn trim_takes_white_space_off_both_ends_only() {
    assert_eq!(trim("  a b\t\n"), "a b");
    assert_eq!(trim("\u{2003}\u{205f}x\u{85}"), "x");
    assert_eq!(trim(" \r\n\t "), "");
    assert_eq!(trim(""), "");
    assert_eq!(trim("\u{200b}x"), "\u{200b}x");
    assert!(white_space('\u{3000}'));
    assert!(!white_space('a'));
}
