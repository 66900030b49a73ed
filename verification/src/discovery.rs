//! How this device announces itself on the local network.

use crate::text::join2;
use vstd::prelude::*;

verus! {

/// The DNS-SD service type under which devices announce themselves.
pub const SERVICE_TYPE: &'static str = "_pombocorreio._tcp.local.";

/// The host name announced for a device: its id under `.local.`.
pub fn service_host_name(device_id: &str) -> (r: String)
    ensures
        r@ == device_id@ + ".local."@,
{
    join2(device_id, ".local.")
}

} // verus!
