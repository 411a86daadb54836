//! Keeps the source traits closed to other crates.

use vstd::prelude::*;

verus! {

/// Marks the types that this crate accepts as a parsed response. Only this
/// crate can name it, so only this crate can add one.
pub trait ResponseSealed {

}

} // verus!
