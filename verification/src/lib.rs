//! Rendering of a declarative blueprint of an operating system's
//! configuration into deferred effects.
//!
//! A blueprint names packages to install and SSH keys to provision.
//! Rendering it changes nothing on the system.  It fills an accumulator
//! with a staged tree of filesystem artifacts and a queue of commands,
//! which the caller then applies.
//!
//! - [`blueprint`] holds the document model.
//! - [`render`] holds the renderers, one per entity of the document.
//! - [`rendered`], [`staging`] and [`command`] hold the accumulator and its
//!   two parts.
//! - [`source_root`] holds what rendering reads from the system that is
//!   being configured.
//! - [`gate`] and [`osrelease`] hold the checks that a run must pass before
//!   it may change anything.
//! - [`driver`] holds the course of a whole run, as a state machine that
//!   the caller drives.
//! - [`encoding`] and [`text`] hold the primitives underneath.

pub mod blueprint;
pub mod command;
pub mod driver;
pub mod encoding;
pub mod gate;
pub mod osrelease;
pub mod render;
pub mod rendered;
pub mod source_root;
pub mod staging;
pub mod text;
