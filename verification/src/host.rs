//! Host identities: the named host a workspace is resolved for, and the
//! name of the folder that marks its workspace roots.

use vstd::prelude::*;

verus! {

/// A named identifier for a host.
#[derive(Debug, Clone, PartialEq, Eq, PartialOrd, Ord, Hash)]
pub struct HostId(String);

impl View for HostId {
    type V = Seq<char>;

    closed spec fn view(&self) -> Seq<char> {
        self.0@
    }
}

impl HostId {
    /// Wrap a spelling as a host identifier, unchanged.
    pub fn new(id: &str) -> (r: HostId)
        ensures
            r@ == id@,
    {
        HostId(String::from_str(id))
    }

    /// The identifier as a string slice.
    pub fn id(&self) -> (r: &str)
        ensures
            r@ == self@,
    {
        self.0.as_str()
    }

    /// The identifier of the default host.
    pub fn morphir() -> (r: HostId)
        ensures
            r@ == "morphir"@,
    {
        HostId::new("morphir")
    }
}

/// A host: the program on whose behalf workspaces are resolved.
#[derive(Debug, Clone)]
pub struct Host {
    pub id: HostId,
}

impl Host {
    /// A host with the given identifier.
    pub fn new(id: HostId) -> (r: Host)
        ensures
            r.id == id,
    {
        Host { id }
    }

    /// The name of the folder that stores host-specific data and marks a
    /// workspace root: a dot, then the host's identifier.
    pub fn host_folder_name(&self) -> (r: String)
        ensures
            r@ == seq!['.'] + self.id@,
    {
        let mut s = String::from_str(".");
        s.append(self.id.id());
        proof {
            reveal_strlit(".");
            assert("."@ =~= seq!['.']);
        }
        s
    }
}

} // verus!
