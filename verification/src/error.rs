//! Why running a script failed before it could be interpreted.

use vstd::prelude::*;

verus! {

/// The script could not be read, or its bytes are not UTF-8 text.
#[derive(Debug, Clone, Copy, PartialEq, Eq, Structural)]
pub enum CliError {
    ScriptNotFound,
    InvalidEncoding,
}

/// The outcome of running a script.
pub type Result<T> = core::result::Result<T, CliError>;

} // verus!
