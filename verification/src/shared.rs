//! Sharing values behind `Arc`.
use std::sync::Arc;
use vstd::prelude::*;

verus! {

/// Calls `Arc::clone`, which the standard library documents as making another
/// pointer to the same allocation: the clone holds the same value.
#[verifier::external_body]
pub(crate) fn share_arc<T>(value: &Arc<T>) -> (r: Arc<T>)
    ensures
        r == *value,
{
    value.clone()
}

} // verus!
