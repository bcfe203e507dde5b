//! Parsers and identity rules of the hardware collectors.
pub mod bluetooth;
pub mod util;
pub mod memory;
pub mod network;
pub mod ids;
pub mod usb;
pub mod pci;
pub mod perf_event;
pub mod cpulist;
pub mod energy;
pub mod cpu;
pub mod dmi;
pub mod effective_clock;
pub mod ownership;
pub mod block;
pub mod hwmon;
pub mod storage_health;
pub mod reconcile;
pub mod gpu;
pub mod frequency;
pub mod memory_telemetry;
pub mod namespaces;

use vstd::prelude::*;

verus! {

/// How much a collection pass gathers.
#[derive(Debug, Clone, Copy, PartialEq, Eq, Structural)]
pub enum CollectionProfile {
    /// Inventory, telemetry, labels, and optional read-only helper tools.
    Full,
    /// Dynamic values suitable for overlaying onto a previous full snapshot.
    Fast,
}

/// What a collection pass may do.
#[derive(Debug, Clone, Copy, PartialEq, Eq, Structural)]
pub struct CollectOptions {
    pub profile: CollectionProfile,
    /// Permit read-only helper commands such as sensors, nvidia-smi, and ethtool.
    pub allow_helper_commands: bool,
    /// Include potentially identifying values such as serial numbers and MAC addresses.
    pub include_sensitive: bool,
    /// Run slower health tools such as smartctl and nvme-cli.
    pub include_storage_health: bool,
}

impl Default for CollectOptions {
    /// A full pass with helpers, without identifying values or health tools.
    fn default() -> (r: Self)
        ensures
            r.profile == CollectionProfile::Full,
            r.allow_helper_commands,
            !r.include_sensitive,
            !r.include_storage_health,
    {
        CollectOptions {
            profile: CollectionProfile::Full,
            allow_helper_commands: true,
            include_sensitive: false,
            include_storage_health: false,
        }
    }
}

/// Whether storage health can be read for a device.
pub fn supports_storage_health(device: &storage_health::StorageDeviceFacts) -> (r: bool)
    ensures
        r == storage_health::wants_health(*device),
{
    storage_health::target_from_device(device).is_some()
}

} // verus!
