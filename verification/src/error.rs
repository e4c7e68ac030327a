//! The one way in which a command can fail.

use vstd::prelude::*;

verus! {

/// Why a command was not carried out.
#[derive(Clone, Copy, Debug, PartialEq, Eq, Structural)]
pub enum StoreError {
    /// The command named an identifier that its store does not hold.
    NotFound,
}

} // verus!
