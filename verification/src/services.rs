//! Workspace resolution as a service: the workspace value and the pure part
//! of resolving one. Walking the filesystem upward in search of a project
//! marker stays with the program around the library, which hands each
//! finding in as a plain value.

use vstd::prelude::*;

verus! {

/// Why no workspace was found.
#[derive(Debug, Clone)]
pub enum WorkspaceResolutionError {
    /// No directory containing a workspace marker was found.
    WorkspaceNotFound(String),
}

impl WorkspaceResolutionError {
    /// A human-readable description of the error.
    pub fn message(&self) -> (r: String)
        ensures
            self matches WorkspaceResolutionError::WorkspaceNotFound(p) ==> r@
                == "unable to resolve workspace directory from path "@ + p@,
    {
        match self {
            WorkspaceResolutionError::WorkspaceNotFound(p) => {
                let mut s = String::from_str("unable to resolve workspace directory from path ");
                s.append(p.as_str());
                s
            },
        }
    }
}

/// The directory a workspace lives in, as plain path text.
#[derive(Debug, Clone)]
pub struct WorkspaceDir(String);

impl View for WorkspaceDir {
    type V = Seq<char>;

    closed spec fn view(&self) -> Seq<char> {
        self.0@
    }
}

impl WorkspaceDir {
    /// Wrap a path as a workspace directory, unchanged.
    pub fn new(path: String) -> (r: WorkspaceDir)
        ensures
            r@ == path@,
    {
        WorkspaceDir(path)
    }

    /// The directory for a path: the path itself when it is a directory,
    /// else its parent when it has one; the findings about the filesystem
    /// are handed in as plain values.
    pub fn from_path(path: &str, path_is_dir: bool, parent: Option<&str>) -> (r: Option<
        WorkspaceDir,
    >)
        ensures
            path_is_dir ==> (r matches Some(w) && w@ == path@),
            !path_is_dir && parent is Some ==> (r matches Some(w) && w@ == parent->Some_0@),
            !path_is_dir && parent is None ==> r is None,
    {
        if path_is_dir {
            Some(WorkspaceDir(String::from_str(path)))
        } else {
            match parent {
                Some(d) => Some(WorkspaceDir(String::from_str(d))),
                None => None,
            }
        }
    }

    /// Give the path text up, keeping its value.
    pub fn into_string(self) -> (r: String)
        ensures
            r@ == self@,
    {
        self.0
    }

    /// The directory as plain path text.
    pub fn as_path(&self) -> (r: &str)
        ensures
            r@ == self@,
    {
        self.0.as_str()
    }
}

/// A workspace: the root directory a compilation run works under.
#[derive(Debug, Clone)]
pub struct Workspace {
    workspace_root: String,
}

impl View for Workspace {
    type V = Seq<char>;

    closed spec fn view(&self) -> Seq<char> {
        self.workspace_root@
    }
}

impl Workspace {
    /// A workspace rooted at the given directory.
    pub fn new(root: String) -> (r: Workspace)
        ensures
            r@ == root@,
    {
        Workspace { workspace_root: root }
    }

    /// The root directory.
    pub fn root(&self) -> (r: &str)
        ensures
            r@ == self@,
    {
        self.workspace_root.as_str()
    }
}

/// Something that can find the workspace root a path belongs to; programs
/// implement it around their own storage.
pub trait WorkspaceLocator {
    /// The workspace root for the given path.
    fn locate_workspace_root(&self, path: &str) -> Result<WorkspaceDir, WorkspaceResolutionError>;
}

} // verus!
