//! Workspace directories, modelled as plain path text. Deciding what a
//! given path resolves to is pure logic; reading the filesystem (whether a
//! path is a directory, what its parent is) is the surrounding program's
//! work, and its findings are handed in as plain values.

use vstd::prelude::*;

verus! {

/// Why a workspace directory could not be resolved.
#[derive(Debug, Clone)]
pub enum WorkspaceResolutionError {
    /// No directory can be derived from the given path.
    WorkspaceUnresolvable(String),
    /// The derived directory does not exist.
    WorkspaceDirNotFound(String),
}

impl WorkspaceResolutionError {
    /// A human-readable description of the error.
    pub fn message(&self) -> (r: String)
        ensures
            self matches WorkspaceResolutionError::WorkspaceUnresolvable(p) ==> r@
                == "unable to resolve workspace directory given path "@ + p@,
            self matches WorkspaceResolutionError::WorkspaceDirNotFound(p) ==> r@
                == "unable to find workspace directory at path "@ + p@,
    {
        match self {
            WorkspaceResolutionError::WorkspaceUnresolvable(p) => {
                let mut s = String::from_str("unable to resolve workspace directory given path ");
                s.append(p.as_str());
                s
            },
            WorkspaceResolutionError::WorkspaceDirNotFound(p) => {
                let mut s = String::from_str("unable to find workspace directory at path ");
                s.append(p.as_str());
                s
            },
        }
    }
}

/// The directory a workspace lives in, as plain path text.
#[derive(Debug, Clone)]
pub struct WorkspaceDir(String);

impl View for WorkspaceDir {
    type V = Seq<char>;

    closed spec fn view(&self) -> Seq<char> {
        self.0@
    }
}

impl WorkspaceDir {
    /// Wrap a path as a workspace directory, unchanged.
    pub fn new(path: String) -> (r: WorkspaceDir)
        ensures
            r@ == path@,
    {
        WorkspaceDir(path)
    }

    /// The directory for a path: the path itself when it is a directory,
    /// else its parent when it has one. Whether the path is a directory,
    /// and its parent, are the caller's findings about the filesystem.
    pub fn from_path(path: &str, path_is_dir: bool, parent: Option<&str>) -> (r: Option<
        WorkspaceDir,
    >)
        ensures
            path_is_dir ==> (r matches Some(w) && w@ == path@),
            !path_is_dir && parent is Some ==> (r matches Some(w) && w@ == parent->Some_0@),
            !path_is_dir && parent is None ==> r is None,
    {
        if path_is_dir {
            Some(WorkspaceDir(String::from_str(path)))
        } else {
            match parent {
                Some(d) => Some(WorkspaceDir(String::from_str(d))),
                None => None,
            }
        }
    }

    /// The directory for a path spelling, as `from_path`, but an
    /// unresolvable path is an error naming that path.
    pub fn from_str(input: &str, path_is_dir: bool, parent: Option<&str>) -> (r: Result<
        WorkspaceDir,
        WorkspaceResolutionError,
    >)
        ensures
            path_is_dir ==> (r matches Ok(w) && w@ == input@),
            !path_is_dir && parent is Some ==> (r matches Ok(w) && w@ == parent->Some_0@),
            !path_is_dir && parent is None ==> (r matches Err(e) && e matches
                WorkspaceResolutionError::WorkspaceUnresolvable(p) && p@ == input@),
    {
        if path_is_dir {
            Ok(WorkspaceDir(String::from_str(input)))
        } else {
            match parent {
                Some(d) => Ok(WorkspaceDir(String::from_str(d))),
                None => Err(
                    WorkspaceResolutionError::WorkspaceUnresolvable(String::from_str(input)),
                ),
            }
        }
    }

    /// The directory as plain path text.
    pub fn as_path(&self) -> (r: &str)
        ensures
            r@ == self@,
    {
        self.0.as_str()
    }
}

/// Something that can find the workspace root a path belongs to. The work
/// needs the filesystem, so the library only fixes the shape; programs
/// implement it around their own storage.
pub trait WorkspaceLocator {
    /// The workspace root for the given path.
    fn locate_workspace_root(&self, path: &str) -> Result<WorkspaceDir, WorkspaceResolutionError>;
}

/// The state of a builder before a workspace directory was chosen.
#[derive(Debug, Clone)]
pub struct NoWorkspaceDir;

/// A builder for workspaces, typed by how far it has come: the root it
/// holds is `NoWorkspaceDir` until one is given.
#[derive(Debug, Clone)]
pub struct WorkspaceBuilder<WsDir> {
    root: WsDir,
}

impl<WsDir> WorkspaceBuilder<WsDir> {
    /// The root the builder holds so far.
    pub closed spec fn spec_root(self) -> WsDir {
        self.root
    }
}

impl WorkspaceBuilder<NoWorkspaceDir> {
    /// A builder with no root chosen yet.
    pub fn new() -> (r: WorkspaceBuilder<NoWorkspaceDir>) {
        WorkspaceBuilder { root: NoWorkspaceDir }
    }

    /// Fix the builder's root.
    pub fn root(self, root: WorkspaceDir) -> (r: WorkspaceBuilder<WorkspaceDir>)
        ensures
            r.spec_root() == root,
    {
        WorkspaceBuilder { root }
    }
}

} // verus!
