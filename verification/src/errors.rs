//! Error values and actions handed back to the host.

use vstd::prelude::*;

verus! {

/// Exit code of a builtin invocation that succeeded.
pub const EXECUTION_SUCCESS: i32 = 0;

/// Exit code of a builtin invocation that failed.
pub const EXECUTION_FAILURE: i32 = 1;

/// Exit code reserved by the host for a syntax error in usage.
pub const EX_USAGE: i32 = 258;

/// Exit code reserved for a call whose abnormal termination was
/// intercepted by the guarded execution boundary. It is outside the
/// host's ordinary exit-code ranges.
pub const FAULT_SENTINEL: i32 = 101;

/// The error type for [`crate::Builtin::call`].
#[derive(Debug)]
pub enum Error {
    /// Syntax error in usage. Surfaced only through the host's usage or
    /// help display, never printed as an error message.
    Usage,
    /// Exit with a specific code, without printing anything.
    ExitCode(i32),
    /// Any other propagated failure; its message is printed once to the
    /// host's error stream and the builtin exits with code 1.
    GenericError(Vec<u8>),
}

impl Error {
    /// True if this error should be printed to the host's error stream
    /// when it is the result of [`crate::Builtin::call`].
    pub fn print_on_return(&self) -> (r: bool)
        ensures
            r == self is GenericError,
    {
        match self {
            Error::Usage => false,
            Error::ExitCode(_) => false,
            Error::GenericError(_) => true,
        }
    }

    /// Numeric exit code for the builtin invocation.
    pub fn exit_code(&self) -> (r: i32)
        ensures
            r == self.exit_code_spec(),
    {
        match self {
            Error::Usage => EX_USAGE,
            Error::ExitCode(s) => *s,
            Error::GenericError(_) => EXECUTION_FAILURE,
        }
    }

    /// The exit code each error variant maps to.
    pub open spec fn exit_code_spec(self) -> i32 {
        match self {
            Error::Usage => EX_USAGE,
            Error::ExitCode(s) => s,
            Error::GenericError(_) => EXECUTION_FAILURE,
        }
    }
}

/// An action that only the host can perform, recorded by the library and
/// handed to the unverified glue to execute in order.
#[derive(Debug, PartialEq, Eq, Structural)]
pub enum HostAction {
    /// Reset the host's global option-scan position.
    ResetScanner,
    /// Display the usage text for this builtin.
    DisplayUsage,
    /// Display the help text for this builtin.
    DisplayHelp,
    /// Notify, through the host facility, that the option with this flag
    /// character is missing its required argument.
    MissingArgument(u8),
    /// Report that the payload of the option with this flag character
    /// could not be converted to its declared type.
    ConversionError(u8),
    /// Report that free arguments were passed to a builtin that takes
    /// none.
    TooManyArguments,
}

} // verus!
