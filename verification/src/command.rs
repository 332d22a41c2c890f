//! Commands queued for execution after rendering.

use vstd::prelude::*;

verus! {

/// A command to execute: the program name followed by its arguments.
///
/// The arguments are handed to the program as a vector, never through a
/// shell.
#[derive(Debug, Clone, PartialEq, Eq)]
pub struct ExecuteCommand(pub Vec<String>);

impl View for ExecuteCommand {
    type V = Seq<Seq<char>>;

    open spec fn view(&self) -> Seq<Seq<char>> {
        self.0@.map_values(|word: String| word@)
    }
}

impl ExecuteCommand {
    /// A command names its program, so it holds at least one word.
    pub open spec fn wf(&self) -> bool {
        self@.len() > 0
    }

    /// The program to run.
    pub fn program(&self) -> (name: &String)
        requires
            self.wf(),
        ensures
            name@ == self@[0],
    {
        &self.0[0]
    }
}

} // verus!
