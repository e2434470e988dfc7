//! Tasks that copy, create and write files and directories.
//!
//! Each task decides, from what it finds on disk, whether its work is done
//! already or which file-system actions to take, in order.
use vstd::prelude::*;

use crate::paths::{join, parent, spec_join, spec_parent};
use crate::task::Status;

verus! {

/// Why a directory is created: it is the task's own directory, the directory a
/// file is written into, or one of the subdirectories asked for.
#[derive(Clone, Copy, Debug, PartialEq, Eq, Structural)]
pub enum DirectoryRole {
    Directory,
    ParentDirectory,
    Subdirectory,
}

/// One file-system action.
pub enum FsAction {
    /// Copy the file `source` to `destination`.
    CopyFile { source: String, destination: String },
    /// Copy the directory `source`, with everything in it, to `destination`.
    CopyDirAll { source: String, destination: String },
    /// Create the directory `path` and every missing directory above it.
    CreateDirAll { path: String, role: DirectoryRole },
    /// Write `content` to the file `path`.
    Write { path: String, content: String },
}

/// What a file-system action does.
pub enum FsActionView {
    CopyFile { source: Seq<char>, destination: Seq<char> },
    CopyDirAll { source: Seq<char>, destination: Seq<char> },
    CreateDirAll { path: Seq<char>, role: DirectoryRole },
    Write { path: Seq<char>, content: Seq<char> },
}

impl View for FsAction {
    type V = FsActionView;

    open spec fn view(&self) -> FsActionView {
        match self {
            FsAction::CopyFile { source, destination } => FsActionView::CopyFile { source: source@, destination: destination@ },
            FsAction::CopyDirAll { source, destination } => FsActionView::CopyDirAll { source: source@, destination: destination@ },
            FsAction::CreateDirAll { path, role } => FsActionView::CreateDirAll { path: path@, role: *role },
            FsAction::Write { path, content } => FsActionView::Write { path: path@, content: content@ },
        }
    }
}

/// The views of a list of actions.
pub open spec fn actions_view(actions: Seq<FsAction>) -> Seq<FsActionView> {
    actions.map_values(|a: FsAction| a@)
}

/// What a task does: nothing, as its work is done already, or these actions in
/// order, after which it is built.
pub enum FsPlan {
    AlreadyBuilt,
    Run(Vec<FsAction>),
}

impl FsPlan {
    /// The actions of the plan; none when the work is done already.
    pub open spec fn steps(self) -> Seq<FsActionView> {
        match self {
            FsPlan::AlreadyBuilt => Seq::empty(),
            FsPlan::Run(actions) => actions_view(actions@),
        }
    }

    /// The status of the task once every action of the plan has succeeded.
    pub fn status(&self) -> (status: Status)
        ensures
            status == (if *self is AlreadyBuilt { Status::AlreadyBuilt } else { Status::Built }),
    {
        match self {
            FsPlan::AlreadyBuilt => Status::AlreadyBuilt,
            FsPlan::Run(_) => Status::Built,
        }
    }
}

/// Copies the file `source` to `destination`.
pub struct CopyFileTask {
    pub source: String,
    pub destination: String,
}

/// Copies the directory `source` to `destination`, unless `destination` has
/// something in it already.
pub struct CopyDirTask {
    pub source: String,
    pub destination: String,
}

/// Creates the directory `path`, unless it exists.
pub struct CreateDirTask {
    pub path: String,
}

/// Writes `content` to the file `path`, unless it holds that already.
pub struct WriteFileTask {
    pub path: String,
    pub content: String,
}

/// Creates the directory `path` and its `subdirs`, unless `path` exists; its
/// output is `path`.
pub struct CreateDirectoryTask {
    pub path: String,
    pub subdirs: Vec<String>,
}

/// Copies the file `source` to `destination`.
pub fn copy_file(source: String, destination: String) -> (task: CopyFileTask)
    ensures
        task.source == source,
        task.destination == destination,
{
    CopyFileTask { source, destination }
}

/// Copies the directory `source` to `destination`.
pub fn copy_dir(source: String, destination: String) -> (task: CopyDirTask)
    ensures
        task.source == source,
        task.destination == destination,
{
    CopyDirTask { source, destination }
}

/// Creates the directory `path`.
pub fn create_dir(path: String) -> (task: CreateDirTask)
    ensures
        task.path == path,
{
    CreateDirTask { path }
}

/// Writes `content` to the file `path`.
pub fn write_file(path: String, content: String) -> (task: WriteFileTask)
    ensures
        task.path == path,
        task.content == content,
{
    WriteFileTask { path, content }
}

/// Creates the directory `path` with its `subdirs`.
pub fn create_directory(path: String, subdirs: Vec<String>) -> (task: CreateDirectoryTask)
    ensures
        task.path == path,
        task.subdirs == subdirs,
{
    CreateDirectoryTask { path, subdirs }
}

impl CopyFileTask {
    /// The target shows the destination.
    pub fn init_path(&self) -> (path: String)
        ensures
            path == self.destination,
    {
        self.destination.clone()
    }

    /// The file is always copied.
    pub fn plan(&self) -> (plan: FsPlan)
        ensures
            plan is Run,
            plan.steps() == seq![FsActionView::CopyFile { source: self.source@, destination: self.destination@ }],
    {
        let mut actions: Vec<FsAction> = Vec::new();
        actions.push(FsAction::CopyFile { source: self.source.clone(), destination: self.destination.clone() });
        proof { assert(actions_view(actions@) =~= seq![FsActionView::CopyFile { source: self.source@, destination: self.destination@ }]); }
        FsPlan::Run(actions)
    }
}

impl CopyDirTask {
    /// The target shows the destination.
    pub fn init_path(&self) -> (path: String)
        ensures
            path == self.destination,
    {
        self.destination.clone()
    }

    /// Decides on whether the destination exists with at least one entry in it.
    pub fn plan(&self, destination_has_entry: bool) -> (plan: FsPlan)
        ensures
            destination_has_entry <==> plan is AlreadyBuilt,
            !destination_has_entry ==> plan.steps() == seq![FsActionView::CopyDirAll { source: self.source@, destination: self.destination@ }],
    {
        if destination_has_entry {
            return FsPlan::AlreadyBuilt;
        }
        let mut actions: Vec<FsAction> = Vec::new();
        actions.push(FsAction::CopyDirAll { source: self.source.clone(), destination: self.destination.clone() });
        proof { assert(actions_view(actions@) =~= seq![FsActionView::CopyDirAll { source: self.source@, destination: self.destination@ }]); }
        FsPlan::Run(actions)
    }
}

impl CreateDirTask {
    /// The target shows the directory.
    pub fn init_path(&self) -> (path: String)
        ensures
            path == self.path,
    {
        self.path.clone()
    }

    /// Decides on whether the path exists.
    pub fn plan(&self, exists: bool) -> (plan: FsPlan)
        ensures
            exists <==> plan is AlreadyBuilt,
            !exists ==> plan.steps() == seq![FsActionView::CreateDirAll { path: self.path@, role: DirectoryRole::Directory }],
    {
        if exists {
            return FsPlan::AlreadyBuilt;
        }
        let mut actions: Vec<FsAction> = Vec::new();
        actions.push(FsAction::CreateDirAll { path: self.path.clone(), role: DirectoryRole::Directory });
        proof { assert(actions_view(actions@) =~= seq![FsActionView::CreateDirAll { path: self.path@, role: DirectoryRole::Directory }]); }
        FsPlan::Run(actions)
    }
}

impl WriteFileTask {
    /// The target shows the file.
    pub fn init_path(&self) -> (path: String)
        ensures
            path == self.path,
    {
        self.path.clone()
    }

    /// Decides on what the file holds now: its content, when it exists and can be
    /// read as text. A file holding the content already is left alone; otherwise
    /// its directory is created, when the path has one, and the content written.
    pub fn plan(&self, existing: Option<&str>) -> (plan: FsPlan)
        ensures
            (plan is AlreadyBuilt) <==> (existing matches Some(text) && text@ == self.content@),
            !(plan is AlreadyBuilt) ==> plan.steps() == match spec_parent(self.path@) {
                Some(dir) => seq![
                    FsActionView::CreateDirAll { path: dir, role: DirectoryRole::ParentDirectory },
                    FsActionView::Write { path: self.path@, content: self.content@ },
                ],
                None => seq![FsActionView::Write { path: self.path@, content: self.content@ }],
            },
    {
        match existing {
            Some(text) => {
                if text.to_owned() == self.content {
                    return FsPlan::AlreadyBuilt;
                }
            },
            None => {},
        }
        let mut actions: Vec<FsAction> = Vec::new();
        match parent(self.path.as_str()) {
            Some(dir) => {
                actions.push(FsAction::CreateDirAll { path: dir, role: DirectoryRole::ParentDirectory });
            },
            None => {},
        }
        actions.push(FsAction::Write { path: self.path.clone(), content: self.content.clone() });
        proof {
            assert(actions_view(actions@) =~= match spec_parent(self.path@) {
                Some(dir) => seq![
                    FsActionView::CreateDirAll { path: dir, role: DirectoryRole::ParentDirectory },
                    FsActionView::Write { path: self.path@, content: self.content@ },
                ],
                None => seq![FsActionView::Write { path: self.path@, content: self.content@ }],
            });
        }
        FsPlan::Run(actions)
    }
}

/// The directories that creating `path` with `subdirs` makes, in order: `path`,
/// then each subdirectory joined onto it.
pub open spec fn spec_directories(path: Seq<char>, subdirs: Seq<String>) -> Seq<FsActionView> {
    seq![FsActionView::CreateDirAll { path, role: DirectoryRole::Directory }]
        + subdirs.map_values(|s: String| FsActionView::CreateDirAll { path: spec_join(path, s@), role: DirectoryRole::Subdirectory })
}

impl CreateDirectoryTask {
    /// The target shows the directory.
    pub fn init_path(&self) -> (path: String)
        ensures
            path == self.path,
    {
        self.path.clone()
    }

    /// The task's output: the directory's path.
    pub fn output(&self) -> (path: String)
        ensures
            path == self.path,
    {
        self.path.clone()
    }

    /// Decides on whether the path exists.
    pub fn plan(&self, exists: bool) -> (plan: FsPlan)
        ensures
            exists <==> plan is AlreadyBuilt,
            !exists ==> plan.steps() == spec_directories(self.path@, self.subdirs@),
    {
        if exists {
            return FsPlan::AlreadyBuilt;
        }
        let mut actions: Vec<FsAction> = Vec::new();
        actions.push(FsAction::CreateDirAll { path: self.path.clone(), role: DirectoryRole::Directory });
        let ghost f = |s: String| FsActionView::CreateDirAll { path: spec_join(self.path@, s@), role: DirectoryRole::Subdirectory };
        let n = self.subdirs.len();
        let mut i: usize = 0;
        while i < n
            invariant
                n == self.subdirs@.len(),
                i <= n,
                f == (|s: String| FsActionView::CreateDirAll { path: spec_join(self.path@, s@), role: DirectoryRole::Subdirectory }),
                actions_view(actions@) == seq![FsActionView::CreateDirAll { path: self.path@, role: DirectoryRole::Directory }]
                    + self.subdirs@.take(i as int).map_values(f),
            decreases n - i,
        {
            let dir = join(self.path.as_str(), self.subdirs[i].as_str());
            let ghost before = actions_view(actions@);
            actions.push(FsAction::CreateDirAll { path: dir, role: DirectoryRole::Subdirectory });
            proof {
                assert(self.subdirs@.take(i + 1).map_values(f) =~= self.subdirs@.take(i as int).map_values(f).push(f(self.subdirs@[i as int])));
                assert(actions_view(actions@) =~= before.push(f(self.subdirs@[i as int])));
            }
            i = i + 1;
        }
        proof { assert(self.subdirs@.take(n as int) =~= self.subdirs@); }
        FsPlan::Run(actions)
    }
}

} // verus!
