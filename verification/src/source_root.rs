//! What rendering reads from the filesystem that is being configured.

use vstd::prelude::*;
use vstd::string::*;

verus! {

/// The state of the source root, as far as rendering depends on it.
///
/// The home directory of `root` may be local state reached through a
/// symbolic link (`/root -> var/roothome`).  The link is resolved when the
/// blueprint is rendered, because what is rendered is consumed later against
/// the real layout.
#[derive(Debug, Clone, PartialEq, Eq)]
pub struct SourceRoot {
    /// The target of `root` below the source root, where `root` is a
    /// symbolic link; `None` where it is anything else or does not exist.
    pub root_link: Option<String>,
}

/// The mathematical content of a [`SourceRoot`].
pub struct SourceRootView {
    pub root_link: Option<Seq<char>>,
}

impl View for SourceRoot {
    type V = SourceRootView;

    open spec fn view(&self) -> SourceRootView {
        SourceRootView {
            root_link: match self.root_link {
                Some(target) => Some(target@),
                None => None,
            },
        }
    }
}

/// The path of root's home directory, relative to the source root: the
/// link's target where `root` is a link, the literal `root` otherwise.
pub open spec fn root_home(root: SourceRootView) -> Seq<char> {
    match root.root_link {
        Some(target) => target,
        None => "root"@,
    }
}

impl SourceRoot {
    /// A source root in which `root` is no symbolic link.
    pub fn plain() -> (root: SourceRoot)
        ensures
            root@.root_link is None,
    {
        SourceRoot { root_link: None }
    }

    /// A source root in which `root` is a symbolic link to `target`.
    pub fn with_root_link(target: String) -> (root: SourceRoot)
        ensures
            root@.root_link == Some(target@),
    {
        SourceRoot { root_link: Some(target) }
    }

    /// The resolved path of root's home directory.
    pub fn home(&self) -> (path: String)
        ensures
            path@ == root_home(self@),
    {
        match &self.root_link {
            Some(target) => target.clone(),
            None => "root".to_owned(),
        }
    }
}

} // verus!
