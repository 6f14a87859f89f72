//! The synchronous decisions of the asynchronous batch executors.
//!
//! Running deferred computations needs a runtime the verified library does
//! not contain, but what the batched executor accepts is a plain decision
//! and is pinned down here.

use vstd::prelude::*;

use crate::utils::error::LodashError;

verus! {

/// Whether a concurrency limit is acceptable for batched execution: zero is
/// rejected with exactly the invalid-input error, anything else is accepted.
pub fn validate_concurrency(concurrency: usize) -> (r: Result<(), LodashError>)
    ensures
        r is Err <==> concurrency == 0,
        r matches Err(e) ==> (e matches LodashError::InvalidInput { message } && message@
            == "Concurrency must be greater than 0"@),
{
    if concurrency == 0 {
        Err(LodashError::invalid_input("Concurrency must be greater than 0"))
    } else {
        Ok(())
    }
}

} // verus!
