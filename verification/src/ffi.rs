//! The checks the C interface makes before it hands a call to the engine.

use vstd::prelude::*;

verus! {

/// ABI version of the C interface.
pub const VEHICLE_AUDIO_ABI_VERSION: u32 = 3;

/// Opaque handle type of the C interface.
pub struct AudioHandle;

/// A telemetry packet is accepted when it carries this interface's ABI
/// version and declares the size of the packet layout (`expected_size`).
pub fn telemetry_header_accepted(schema_version: u32, struct_size: u32, expected_size: usize) -> (r: bool)
    ensures
        r == (schema_version == VEHICLE_AUDIO_ABI_VERSION && struct_size as int == expected_size as int),
{
    schema_version == VEHICLE_AUDIO_ABI_VERSION && struct_size as usize == expected_size
}

} // verus!
