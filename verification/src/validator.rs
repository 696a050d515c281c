//! Checks on a push before it is applied.

use vstd::prelude::*;
use crate::api::PushRequest;
use crate::error::{result_view, SyncError, SyncErrorView};
use crate::ids::uuid_is_nil;

verus! {

/// Checks pushes.
pub struct Validator;

impl Validator {
    /// A push must name its device: the nil device id is refused.
    pub fn validate_push(request: &PushRequest) -> (r: Result<(), SyncError>)
        ensures
            result_view(r) == if request.device_id == 0 {
                Err(SyncErrorView::InvalidDeviceId)
            } else {
                Ok::<(), SyncErrorView>(())
            },
    {
        if uuid_is_nil(request.device_id) {
            return Err(SyncError::InvalidDeviceId);
        }
        Ok(())
    }
}

} // verus!
