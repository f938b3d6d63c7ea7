//! The answer of an operation that may have to wait.

use vstd::prelude::*;

verus! {

/// Either a value, or the news that there is none yet.
#[derive(Debug)]
pub enum Poll<T> {
    Ready(T),
    Pending,
}

} // verus!
