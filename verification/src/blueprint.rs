//! The blueprint document: the packages to install and the customizations
//! to apply.
//!
//! The document is plain data.  It is parsed once and not changed after.

use vstd::prelude::*;

verus! {

/// A request to install one package, pinned to a version where one is given.
#[derive(Debug, Clone, PartialEq, Eq)]
pub struct Package {
    pub name: String,
    pub version: Option<String>,
}

/// The mathematical content of a [`Package`].
pub struct PackageView {
    pub name: Seq<char>,
    pub version: Option<Seq<char>>,
}

impl View for Package {
    type V = PackageView;

    open spec fn view(&self) -> PackageView {
        PackageView {
            name: self.name@,
            version: match self.version {
                Some(version) => Some(version@),
                None => None,
            },
        }
    }
}

/// The package list, in the order in which the document gives it.
/// Duplicates are kept as they are.
#[derive(Debug, Clone, PartialEq, Eq)]
pub struct Packages(pub Vec<Package>);

impl View for Packages {
    type V = Seq<PackageView>;

    open spec fn view(&self) -> Seq<PackageView> {
        self.0@.map_values(|package: Package| package@)
    }
}

/// An SSH public key to provision for a user.
#[derive(Debug, Clone, PartialEq, Eq)]
pub struct Sshkey {
    pub user: String,
    pub pubkey: String,
}

/// The mathematical content of an [`Sshkey`].
pub struct SshkeyView {
    pub user: Seq<char>,
    pub pubkey: Seq<char>,
}

impl View for Sshkey {
    type V = SshkeyView;

    open spec fn view(&self) -> SshkeyView {
        SshkeyView { user: self.user@, pubkey: self.pubkey@ }
    }
}

/// The customizations of a blueprint.
#[derive(Debug, Clone, PartialEq, Eq)]
pub struct Customizations {
    pub sshkey: Option<Vec<Sshkey>>,
}

/// The root document.
#[derive(Debug, Clone, PartialEq, Eq)]
pub struct Blueprint {
    pub packages: Option<Packages>,
    pub customizations: Option<Customizations>,
}

/// The views of `keys`, in order.
pub open spec fn key_views(keys: Seq<Sshkey>) -> Seq<SshkeyView> {
    keys.map_values(|key: Sshkey| key@)
}

impl Customizations {
    /// The SSH keys to provision, in document order; none where the list is
    /// absent.
    pub open spec fn keys(&self) -> Seq<SshkeyView> {
        match self.sshkey {
            Some(keys) => key_views(keys@),
            None => Seq::empty(),
        }
    }
}

impl Blueprint {
    /// The SSH keys to provision, in document order.
    pub open spec fn keys(&self) -> Seq<SshkeyView> {
        match self.customizations {
            Some(customizations) => customizations.keys(),
            None => Seq::empty(),
        }
    }

    /// The packages to install, in document order.
    pub open spec fn package_list(&self) -> Seq<PackageView> {
        match self.packages {
            Some(packages) => packages@,
            None => Seq::empty(),
        }
    }

    /// Whether the blueprint asks for nothing: no key and no package.
    pub open spec fn is_vacant(&self) -> bool {
        self.keys().len() == 0 && self.package_list().len() == 0
    }
}

} // verus!
