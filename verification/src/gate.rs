//! The environment gate: the checks that decide, before anything is
//! changed, whether a run may go on and whether it may clean up after
//! itself.
//!
//! Every check is a function of explicit inputs.  The caller observes the
//! process and the filesystem once and hands in what it saw.

use crate::osrelease::{is_supported, os_id, verify_osrelease, UnsupportedOs};
use crate::text::{chars_of, contains, range_contains};
use vstd::prelude::*;

verus! {

/// Why an entry check refused a run.
#[derive(Debug, Clone, PartialEq, Eq)]
pub enum GateError {
    /// The dry-run target directory already has entries.
    NonEmptyTarget,
    /// A run that applies changes was started without superuser privilege.
    NotRoot,
    /// The system is not of the supported family.
    UnsupportedOs(UnsupportedOs),
}

/// The mathematical content of a [`GateError`].
pub enum GateErrorView {
    NonEmptyTarget,
    NotRoot,
    UnsupportedOs(Option<Seq<char>>),
}

impl View for GateError {
    type V = GateErrorView;

    open spec fn view(&self) -> GateErrorView {
        match self {
            GateError::NonEmptyTarget => GateErrorView::NonEmptyTarget,
            GateError::NotRoot => GateErrorView::NotRoot,
            GateError::UnsupportedOs(refusal) => GateErrorView::UnsupportedOs(refusal.id_view()),
        }
    }
}

/// Whether the path of the running executable looks like the output of a
/// local development build.
pub open spec fn is_development_build(self_path: Seq<char>) -> bool {
    contains(self_path, "/target/"@)
}

/// Whether a run may delete its input and its own executable after it
/// succeeded: the executable is no development build, the process runs
/// inside a container, and it runs as superuser.
///
/// A path that is not valid text cannot look like a development build.
pub open spec fn self_consume(
    self_path: Option<Seq<char>>,
    in_container: bool,
    is_root: bool,
) -> bool {
    &&& !(self_path matches Some(path) && is_development_build(path))
    &&& in_container
    &&& is_root
}

/// Decides whether the run may consume itself.
///
/// `self_path` is the path of the running executable where it is valid
/// text, `in_container` says whether the container signal is present in the
/// environment, and `is_root` whether the process has superuser privilege.
pub fn should_consume(self_path: Option<&str>, in_container: bool, is_root: bool) -> (consume:
    bool)
    ensures
        consume == self_consume(
            match self_path {
                Some(path) => Some(path@),
                None => None,
            },
            in_container,
            is_root,
        ),
{
    if let Some(path) = self_path {
        let chars = chars_of(path);
        let marker = chars_of("/target/");
        assert(chars@.subrange(0, chars@.len() as int) == chars@);
        if range_contains(&chars, 0, chars.len(), &marker) {
            return false;
        }
    }
    if !in_container {
        return false;
    }
    if !is_root {
        return false;
    }
    true
}

/// Checks that a dry-run target directory is safe to write into: it must
/// not hold anything yet.
pub fn check_dry_run_target(target_is_empty: bool) -> (r: Result<(), GateError>)
    ensures
        target_is_empty ==> r is Ok,
        !target_is_empty ==> (r matches Err(e) && e@ == GateErrorView::NonEmptyTarget),
{
    if target_is_empty {
        Ok(())
    } else {
        Err(GateError::NonEmptyTarget)
    }
}

/// Checks that a run that applies changes has superuser privilege.
pub fn check_privilege(is_root: bool) -> (r: Result<(), GateError>)
    ensures
        is_root ==> r is Ok,
        !is_root ==> (r matches Err(e) && e@ == GateErrorView::NotRoot),
{
    if is_root {
        Ok(())
    } else {
        Err(GateError::NotRoot)
    }
}

/// Checks that the platform identity file describes a supported system.
pub fn check_os_family(os_release: &str) -> (r: Result<(), GateError>)
    ensures
        is_supported(os_release@) ==> r is Ok,
        !is_supported(os_release@) ==> (r matches Err(e) && e@ == GateErrorView::UnsupportedOs(
            os_id(os_release@),
        )),
{
    match verify_osrelease(os_release) {
        Ok(()) => Ok(()),
        Err(refusal) => Err(GateError::UnsupportedOs(refusal)),
    }
}

} // verus!
