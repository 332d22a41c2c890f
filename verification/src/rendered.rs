//! The accumulator that rendering fills.

use crate::command::ExecuteCommand;
use crate::staging::StagedDir;
use vstd::prelude::*;

verus! {

/// The rendered output: commands to execute later, in queue order, and the
/// staged tree of filesystem artifacts.
#[derive(Debug)]
pub struct Rendered {
    /// Queued commands; the order of insertion is the order of execution.
    pub commands: Vec<ExecuteCommand>,
    /// The tree staged below the target root.
    pub filesystem: StagedDir,
}

impl Rendered {
    /// The queued commands, each as its sequence of words.
    pub open spec fn queue(&self) -> Seq<Seq<Seq<char>>> {
        self.commands@.map_values(|command: ExecuteCommand| command@)
    }

    /// Whether every queued command names its program.
    pub open spec fn wf(&self) -> bool {
        forall|i: int| 0 <= i < self.commands@.len() ==> (#[trigger] self.commands@[i]).wf()
    }

    /// Whether nothing was rendered: no command queued, nothing staged.
    pub open spec fn is_vacant(&self) -> bool {
        self.commands@.len() == 0 && self.filesystem.is_vacant()
    }

    /// An accumulator with no command queued and nothing staged.
    pub fn new() -> (rendered: Rendered)
        ensures
            rendered.is_vacant(),
            rendered.wf(),
    {
        Rendered { commands: Vec::new(), filesystem: StagedDir::new() }
    }
}

} // verus!
