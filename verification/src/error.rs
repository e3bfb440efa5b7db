//! The ways in which a pool operation fails.

use vstd::prelude::*;

verus! {

/// Why a pool refused an operation.
#[derive(Clone, Copy, Debug, PartialEq, Eq, Structural)]
pub enum PoolError {
    /// An allocation was asked for while every slot was live.
    PoolExhausted,
    /// A handle that names no slot of the pool was released.
    InvalidReference,
    /// A slot that is not live was released.
    DoubleRelease,
}

impl PoolError {
    /// The message that goes with the error.
    pub fn message(&self) -> (text: &'static str)
        ensures
            text@ == self.message_spec()@,
    {
        match self {
            PoolError::PoolExhausted => "Pool empty!",
            PoolError::InvalidReference => "Invalid item!",
            PoolError::DoubleRelease => "Item already freed!",
        }
    }

    /// The text of [`PoolError::message`].
    pub open spec fn message_spec(&self) -> &'static str {
        match self {
            PoolError::PoolExhausted => "Pool empty!",
            PoolError::InvalidReference => "Invalid item!",
            PoolError::DoubleRelease => "Item already freed!",
        }
    }
}

} // verus!
