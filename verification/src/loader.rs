//! Where the loader puts each application.
use vstd::prelude::*;
use crate::config::{APP_BASE_ADDRESS, APP_SIZE_LIMIT};

verus! {

/// The address where application `app_id` is loaded: the applications lie one
/// after another, each with the same room.
pub fn get_base_i(app_id: usize) -> (r: usize)
    requires
        APP_BASE_ADDRESS + app_id * APP_SIZE_LIMIT <= usize::MAX,
    ensures
        r == APP_BASE_ADDRESS + app_id * APP_SIZE_LIMIT,
{
    APP_BASE_ADDRESS + app_id * APP_SIZE_LIMIT
}

} // verus!
