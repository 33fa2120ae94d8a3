//! Choice of the route to another device.

use vstd::prelude::*;

use crate::sync::transport::Route;

verus! {

/// The local network if it is ready, else the hub if it is ready.
pub fn select_route(lan_ready: bool, hub_ready: bool) -> (r: Option<Route>)
    ensures
        r == (if lan_ready {
            Some(Route::LanDirect)
        } else if hub_ready {
            Some(Route::HubRelay)
        } else {
            None
        }),
{
    if lan_ready {
        Some(Route::LanDirect)
    } else if hub_ready {
        Some(Route::HubRelay)
    } else {
        None
    }
}

} // verus!
