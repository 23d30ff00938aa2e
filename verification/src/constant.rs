//! The names under which the service is known.

use vstd::prelude::*;

verus! {

/// Unique service ID.
pub const BLOCKCHAIN_SERVICE_ID: u32 = 128;

/// Name of the service.
pub const BLOCKCHAIN_SERVICE_NAME: &'static str = "cryptoelection_blockchain_service";

/// Time oracle instance name.
pub const TIME_SERVICE_NAME: &'static str = "time-oracle";

} // verus!
