//! Structural validation of batch requests, performed before any storage
//! access. Pure functions of their input.
//!
//! Policy: an empty create batch is rejected as `InvalidRequest`; an empty
//! query batch is allowed and simply yields an empty result mapping.

use vstd::prelude::*;
use crate::entity::{BatchCreateCollabParams, QueryCollabParams, StoreError};

verus! {

/// Reject a batch create whose item list is empty; accept any other.
pub fn validate_batch_create(params: &BatchCreateCollabParams) -> (r: Result<(), StoreError>)
    ensures
        match r {
            Ok(()) => params.params_list@.len() > 0,
            Err(e) => e matches StoreError::InvalidRequest && params.params_list@.len() == 0,
        },
{
    if params.params_list.len() == 0 {
        Err(StoreError::InvalidRequest)
    } else {
        Ok(())
    }
}

/// Accept every batch query, the empty batch included: an empty query list
/// is answered with an empty mapping rather than an error.
pub fn validate_batch_query(_params: &QueryCollabParams) -> (r: Result<(), StoreError>)
    ensures
        r matches Ok(()),
{
    Ok(())
}

} // verus!
