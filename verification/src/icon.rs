//! The colour of the tray icon.

use vstd::prelude::*;

use crate::vpn::VpnStatus;

verus! {

/// The icon colour for a status, as red, green, blue: green when connected,
/// red when disconnected, amber while connecting.
pub open spec fn spec_status_color(status: VpnStatus) -> (u8, u8, u8) {
    match status {
        VpnStatus::Connected(_) => (0x2e, 0xcc, 0x71),
        VpnStatus::Disconnected => (0xe7, 0x4c, 0x3c),
        VpnStatus::Connecting(_) => (0xf3, 0x9c, 0x12),
    }
}

/// The icon colour for a status.
pub fn status_color(status: &VpnStatus) -> (c: (u8, u8, u8))
    ensures
        c == spec_status_color(*status),
{
    match status {
        VpnStatus::Connected(_) => (0x2e, 0xcc, 0x71),
        VpnStatus::Disconnected => (0xe7, 0x4c, 0x3c),
        VpnStatus::Connecting(_) => (0xf3, 0x9c, 0x12),
    }
}

} // verus!
