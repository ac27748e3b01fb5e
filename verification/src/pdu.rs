//! The status data of a power distribution unit and what is made of it.
pub mod client;
pub mod handler;
pub mod metrics;

use vstd::prelude::*;

verus! {

/// Number of fields in the `/status.cgi` answer of a unit.
pub const RAW_DATA_LENGTH: usize = 2016;

/// Number of fields that describe one address (one outlet bank) of a unit.
pub const METRIC_STEP: usize = 63;

/// Offset, inside the fields of one address, of the first sensor channel.
pub const TEMP_INDEX_OFFSET: usize = 15;

/// Number of addresses described by one status answer.
pub const ADDRESS_COUNT: usize = 32;

/// Number of sensor channels of one address.
pub const SENSOR_CHANNELS: usize = 16;

} // verus!
