//! Tool identities: the name of the tool a workspace or host belongs to.

use vstd::prelude::*;

verus! {

/// The name of a tool.
#[derive(Debug, Clone, PartialEq, Eq, PartialOrd, Ord, Hash)]
pub struct ToolName(String);

impl View for ToolName {
    type V = Seq<char>;

    closed spec fn view(&self) -> Seq<char> {
        self.0@
    }
}

impl ToolName {
    /// Wrap a spelling as a tool name, unchanged.
    pub fn new(name: &str) -> (r: ToolName)
        ensures
            r@ == name@,
    {
        ToolName(String::from_str(name))
    }

    /// The name as a string slice.
    pub fn as_str(&self) -> (r: &str)
        ensures
            r@ == self@,
    {
        self.0.as_str()
    }

    /// Returns `true` iff the name of the tool is equal to the provided
    /// name.
    pub fn is(&self, name: &str) -> (r: bool)
        ensures
            r == (self@ == name@),
    {
        let other = String::from_str(name);
        self.0 == other
    }

    /// The name of the default tool.
    pub fn morphir() -> (r: ToolName)
        ensures
            r@ == "morphir"@,
    {
        ToolName::new("morphir")
    }
}

impl Default for ToolName {
    /// The default tool name is `morphir`.
    fn default() -> (r: ToolName)
        ensures
            r@ == "morphir"@,
    {
        ToolName::morphir()
    }
}

/// Something that runs under a tool's identity.
pub trait Tool {
    /// The spelling of the tool's name.
    spec fn spec_name(&self) -> Seq<char>;

    /// The name of the tool.
    fn name(&self) -> (r: ToolName)
        ensures
            r@ == self.spec_name(),
    ;
}

/// The name of any tool, taken through the trait.
pub fn tool_name<T: Tool>(tool: &T) -> (r: ToolName)
    ensures
        r@ == tool.spec_name(),
{
    tool.name()
}

/// The name of the default tool, without a tool value at hand.
pub fn morphir() -> (r: ToolName)
    ensures
        r@ == "morphir"@,
{
    ToolName::new("morphir")
}

/// The default tool.
#[derive(Debug)]
pub struct Morphir;

impl Tool for Morphir {
    open spec fn spec_name(&self) -> Seq<char> {
        "morphir"@
    }

    fn name(&self) -> (r: ToolName) {
        ToolName::morphir()
    }
}

} // verus!
