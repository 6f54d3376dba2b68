//! The network interface and the pages read through it.
pub mod e1000;
pub mod web;

use vstd::prelude::*;

use crate::net::e1000::E1000;

verus! {

/// Length of the adapter's registers in memory.
pub const REGISTERS: u64 = 0x2_0000;

/// Decide where the adapter's registers are: `bar` is what the adapter says, if
/// there is one. Without an adapter there is nothing to do.
pub fn init(bar: Option<Option<u64>>) -> (registers: Result<Option<u64>, &'static str>)
    ensures
        match bar {
            None => registers matches Ok(None),
            Some(Some(address)) => if address != 0 {
                registers == Ok::<Option<u64>, &'static str>(Some(address))
            } else {
                registers matches Err(message) && message@ == "e1000 BAR0 is missing"@
            },
            Some(None) => registers matches Err(message) && message@ == "e1000 BAR0 is missing"@,
        },
{
    match bar {
        None => Ok(None),
        Some(Some(address)) => if address != 0 {
            Ok(Some(address))
        } else {
            Err("e1000 BAR0 is missing")
        },
        Some(None) => Err("e1000 BAR0 is missing"),
    }
}

/// The hardware address and the state of the link, if there is an adapter;
/// `register` is its status register.
pub fn status(device: Option<&E1000>, register: u32) -> (status: Option<([u8; 6], bool)>)
    ensures
        match device {
            Some(device) => status matches Some((mac, up)) && mac == device.mac && up == (register
                & 2 != 0),
            None => status is None,
        },
{
    match device {
        Some(device) => Some((device.mac(), device.link_up(register))),
        None => None,
    }
}

} // verus!
