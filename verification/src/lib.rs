//! Utilities to implement loadable builtins for a command interpreter.
//!
//! The interpreter (the host) loads an extension, invokes it with a word
//! list, and unloads it again. This crate models that bridge as verified
//! logic on plain values:
//!
//! * [`lifecycle`] owns the single extension instance behind a guarded
//!   store and isolates the host from internal faults.
//! * [`options`] compiles a declarative option schema into the host's
//!   single-character option protocol and decodes scanner events.
//! * [`convert`] decodes raw byte strings into typed values.
//! * [`args`] wraps the host's word list as an argument cursor.
//! * [`variables`], [`arrays`], [`assoc`] and [`dynvars`] give typed
//!   access to host-owned scalar, indexed-array, associative-array and
//!   dynamically-computed variables.
//!
//! Work that only the host can perform (displaying usage text, resetting
//! the option scanner, notifying a missing argument) is returned to the
//! caller as [`errors::HostAction`] values instead of being performed
//! here; the unverified host glue drains and performs them.

use vstd::prelude::*;

pub mod args;
pub mod arrays;
pub mod assoc;
pub mod convert;
pub mod dynvars;
pub mod errors;
pub mod lifecycle;
pub mod options;
pub mod variables;

pub use args::Args;
pub use errors::Error;

verus! {

/// The `Builtin` trait contains the implementation for a builtin.
///
/// The method is invoked when the builtin is typed in the prompt.
/// `Ok(())` maps to exit code `0`; see [`errors::Error`] for the mapping
/// of the error variants. Implementors are written by users of this
/// crate and are not verified; the lifecycle manager treats a call into
/// them as an outside event.
pub trait Builtin: Send {
    /// Method invoked when the builtin is typed in the prompt, with the
    /// command-line arguments read from the [`Args`] instance.
    fn call(&mut self, args: &mut Args) -> Result<(), Error>;
}

} // verus!

