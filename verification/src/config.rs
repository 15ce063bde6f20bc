//! Switches of the emulated machine.
use vstd::prelude::*;

verus! {

/// Page faults are logged.
pub const LOG_PAGE_FAULTS: bool = false;

/// The machine shows itself as a virtual one.
pub const VMWARE_HYPERVISOR_PORT: bool = false;

} // verus!
