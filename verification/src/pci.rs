//! Finding a device on the PCI bus.
use vstd::prelude::*;

verus! {

/// Vendor and device number of the Intel I225-V, as register 0 gives them.
pub const I225_V: u32 = 0x15f3_8086;
/// Those of the e1000 that QEMU emulates.
pub const QEMU_E1000: u32 = 0x100e_8086;

#[derive(Clone, Copy, Debug, PartialEq, Eq, Structural)]
pub struct Address {
    pub bus: u8,
    pub device: u8,
    pub function: u8,
}

/// The word that selects a register of a function in configuration space.
pub open spec fn selector_of(address: Address, register: u8) -> u32 {
    0x8000_0000u32 | ((address.bus as u32) << 16u32) | ((address.device as u32) << 11u32) | ((
    address.function as u32) << 8u32) | ((register & 0xfcu8) as u32)
}

impl Address {
    pub open spec fn valid(self) -> bool {
        self.device < 32 && self.function < 8
    }

    /// Place in the order in which the bus is searched.
    pub open spec fn rank(self) -> int {
        (self.bus * 32 + self.device) * 8 + self.function
    }

    pub fn selector(self, register: u8) -> (word: u32)
        ensures
            word == selector_of(self, register),
    {
        0x8000_0000u32 | ((self.bus as u32) << 16u32) | ((self.device as u32) << 11u32) | ((
        self.function as u32) << 8u32) | ((register & 0xfcu8) as u32)
    }
}

/// Each register of each function has a selector of its own.
pub proof fn lemma_selector_layout(address: Address, register: u8)
    requires
        address.valid(),
    ensures
        selector_of(address, register) == 0x8000_0000 + address.bus * 0x1_0000 + address.device
            * 0x800 + address.function * 0x100 + register / 4 * 4,
{
    let b = address.bus;
    let d = address.device;
    let f = address.function;
    let r = register;
    assert(0x8000_0000u32 | ((b as u32) << 16u32) | ((d as u32) << 11u32) | ((f as u32) << 8u32)
        | ((r & 0xfcu8) as u32) == 0x8000_0000u32 + (b as u32) * 0x1_0000u32 + (d as u32) * 0x800u32
        + (f as u32) * 0x100u32 + (r as u32) / 4u32 * 4u32) by (bit_vector)
        requires
            d < 32u8,
            f < 8u8,
    ;
}

/// Where the search for a function stands. Each state but the last two asks for
/// one register.
#[derive(Clone, Copy, Debug, PartialEq, Eq, Structural)]
pub enum Scan {
    /// Is there a device?
    Device { bus: u8, device: u8 },
    /// Has it more than one function?
    Header { bus: u8, device: u8 },
    /// Is this function, the one at `address` of `count`, the wanted one?
    Function { address: Address, count: u8 },
    Found(Address),
    Missing,
}

pub open spec fn scan_behind(bus: u8, device: u8) -> Scan {
    if device < 31 {
        Scan::Device { bus, device: (device + 1) as u8 }
    } else if bus < 255 {
        Scan::Device { bus: (bus + 1) as u8, device: 0 }
    } else {
        Scan::Missing
    }
}

impl Scan {
    pub open spec fn wf(self) -> bool {
        match self {
            Scan::Device { bus, device } => device < 32,
            Scan::Header { bus, device } => device < 32,
            Scan::Function { address, count } => address.device < 32 && address.function < count
                <= 8,
            Scan::Found(address) => address.valid(),
            Scan::Missing => true,
        }
    }

    /// The register that the search wants to read next.
    pub open spec fn asks(self) -> Option<(Address, u8)> {
        match self {
            Scan::Device { bus, device } => Some((Address { bus, device, function: 0 }, 0)),
            Scan::Header { bus, device } => Some((Address { bus, device, function: 0 }, 0x0c)),
            Scan::Function { address, count } => Some((address, 0)),
            _ => None,
        }
    }

    /// The state after the value of that register came in, in a search for `id`.
    pub open spec fn step(self, value: u32, id: u32) -> Scan {
        match self {
            Scan::Device { bus, device } => if is_absent(value) {
                scan_behind(bus, device)
            } else {
                Scan::Header { bus, device }
            },
            Scan::Header { bus, device } => Scan::Function {
                address: Address { bus, device, function: 0 },
                count: function_count(value),
            },
            Scan::Function { address, count } => if value == id {
                Scan::Found(address)
            } else if address.function + 1 < count {
                Scan::Function {
                    address: Address { function: (address.function + 1) as u8, ..address },
                    count,
                }
            } else {
                scan_behind(address.bus, address.device)
            },
            _ => self,
        }
    }

    pub fn new() -> (scan: Scan)
        ensures
            scan == (Scan::Device { bus: 0, device: 0 }),
            scan.wf(),
    {
        Scan::Device { bus: 0, device: 0 }
    }

    pub fn wanted(&self) -> (read: Option<(Address, u8)>)
        ensures
            read == self.asks(),
    {
        match *self {
            Scan::Device { bus, device } => Some((Address { bus, device, function: 0 }, 0)),
            Scan::Header { bus, device } => Some((Address { bus, device, function: 0 }, 0x0c)),
            Scan::Function { address, count: _ } => Some((address, 0)),
            _ => None,
        }
    }
}

/// Whether register 0 says that no device answers.
pub open spec fn is_absent(value: u32) -> bool {
    value & 0xffff == 0xffff
}

/// The number of functions to look at, from bit 23 of register 12.
pub open spec fn function_count(value: u32) -> u8 {
    if value & 0x0080_0000 != 0 {
        8
    } else {
        1
    }
}

fn behind(bus: u8, device: u8) -> (scan: Scan)
    requires
        device < 32,
    ensures
        scan == scan_behind(bus, device),
        scan.wf(),
{
    if device < 31 {
        Scan::Device { bus, device: device + 1 }
    } else if bus < 255 {
        Scan::Device { bus: bus + 1, device: 0 }
    } else {
        Scan::Missing
    }
}

/// Carry on a search for an I225-V with the value of the register that it asked
/// for.
pub fn find_i225_v(scan: Scan, value: u32) -> (next: Scan)
    requires
        scan.wf(),
    ensures
        next == scan.step(value, I225_V),
        next.wf(),
{
    search(scan, value, I225_V)
}

/// Carry on a search for QEMU's e1000.
pub fn find_qemu_e1000(scan: Scan, value: u32) -> (next: Scan)
    requires
        scan.wf(),
    ensures
        next == scan.step(value, QEMU_E1000),
        next.wf(),
{
    search(scan, value, QEMU_E1000)
}

fn search(scan: Scan, value: u32, id: u32) -> (next: Scan)
    requires
        scan.wf(),
    ensures
        next == scan.step(value, id),
        next.wf(),
{
    match scan {
        Scan::Device { bus, device } => if value & 0xffff == 0xffff {
            behind(bus, device)
        } else {
            Scan::Header { bus, device }
        },
        Scan::Header { bus, device } => Scan::Function {
            address: Address { bus, device, function: 0 },
            count: if value & 0x0080_0000 != 0 {
                8
            } else {
                1
            },
        },
        Scan::Function { address, count } => if value == id {
            Scan::Found(address)
        } else if address.function + 1 < count {
            Scan::Function {
                address: Address {
                    bus: address.bus,
                    device: address.device,
                    function: address.function + 1,
                },
                count,
            }
        } else {
            behind(address.bus, address.device)
        },
        _ => scan,
    }
}

/// What a search for `id` finds from a state on, where the registers hold
/// `read`.
pub open spec fn outcome(scan: Scan, read: spec_fn(Address, u8) -> u32, id: u32) -> Option<Address>
    decreases devices_left(scan), reads_left(scan),
{
    if !scan.wf() {
        None
    } else {
        match scan {
            Scan::Found(address) => Some(address),
            Scan::Missing => None,
            _ => {
                let (address, register) = scan.asks()->0;
                outcome(scan.step(read(address, register), id), read, id)
            },
        }
    }
}

pub open spec fn devices_left(scan: Scan) -> int {
    match scan {
        Scan::Device { bus, device } => 8193 - (bus * 32 + device),
        Scan::Header { bus, device } => 8193 - (bus * 32 + device),
        Scan::Function { address, count } => 8193 - (address.bus * 32 + address.device),
        _ => 0,
    }
}

pub open spec fn reads_left(scan: Scan) -> int {
    match scan {
        Scan::Device { bus, device } => 10,
        Scan::Header { bus, device } => 9,
        Scan::Function { address, count } => 8 - address.function,
        _ => 0,
    }
}

/// Whether a function with the number `id` answers at an address.
pub open spec fn answers(address: Address, read: spec_fn(Address, u8) -> u32, id: u32) -> bool {
    let first = Address { function: 0, ..address };
    &&& address.valid()
    &&& !is_absent(read(first, 0))
    &&& address.function < function_count(read(first, 0x0c))
    &&& read(address, 0) == id
}

/// Whether `found` is the first such function from place `from` on.
pub open spec fn is_first(
    found: Option<Address>,
    from: int,
    read: spec_fn(Address, u8) -> u32,
    id: u32,
) -> bool {
    match found {
        Some(address) => {
            &&& answers(address, read, id)
            &&& from <= address.rank()
            &&& forall|other: Address|
                from <= other.rank() < address.rank() ==> !#[trigger] answers(other, read, id)
        },
        None => forall|other: Address|
            from <= other.rank() ==> !#[trigger] answers(other, read, id),
    }
}

proof fn lemma_rank(a: Address, b: Address)
    requires
        a.valid(),
        b.valid(),
    ensures
        a.rank() == b.rank() ==> a == b,
        a.bus == b.bus && a.device == b.device <==> a.rank() / 8 == b.rank() / 8,
{
    assert(a.rank() / 8 == a.bus * 32 + a.device);
    assert(b.rank() / 8 == b.bus * 32 + b.device);
}

/// The search from a device on finds the first of what is left.
proof fn lemma_scan_device(bus: u8, device: u8, read: spec_fn(Address, u8) -> u32, id: u32)
    requires
        device < 32,
    ensures
        is_first(outcome(Scan::Device { bus, device }, read, id), (bus * 32 + device) * 8, read, id),
    decreases 8193 - (bus * 32 + device), 9int,
{
    let scan = Scan::Device { bus, device };
    let first = Address { bus, device, function: 0 };
    let from = (bus * 32 + device) * 8;
    if is_absent(read(first, 0)) {
        lemma_scan_behind(bus, device, read, id);
        let found = outcome(scan, read, id);
        assert(found == outcome(scan_behind(bus, device), read, id));
        assert forall|other: Address|
            from <= other.rank() < from + 8 implies !#[trigger] answers(other, read, id) by {
            if other.valid() {
                lemma_rank(other, first);
                assert(Address { function: 0, ..other } == first);
            }
        }
    } else {
        reveal_with_fuel(outcome, 3);
        let count = function_count(read(first, 0x0c));
        let inner = Scan::Function { address: first, count };
        assert(outcome(scan, read, id) == outcome(inner, read, id));
        lemma_scan_function(first, count, read, id);
    }
}

proof fn lemma_scan_behind(bus: u8, device: u8, read: spec_fn(Address, u8) -> u32, id: u32)
    requires
        device < 32,
    ensures
        is_first(outcome(scan_behind(bus, device), read, id), (bus * 32 + device + 1) * 8, read, id),
    decreases 8193 - (bus * 32 + device), 0int,
{
    if device < 31 {
        lemma_scan_device(bus, (device + 1) as u8, read, id);
    } else if bus < 255 {
        lemma_scan_device((bus + 1) as u8, 0, read, id);
    } else {
        assert forall|other: Address| 8192 * 8 <= other.rank() implies !#[trigger] answers(
            other,
            read,
            id,
        ) by {}
    }
}

proof fn lemma_scan_function(address: Address, count: u8, read: spec_fn(Address, u8) -> u32, id: u32)
    requires
        address.device < 32,
        address.function < count <= 8,
        !is_absent(read(Address { function: 0, ..address }, 0)),
        count == function_count(read(Address { function: 0, ..address }, 0x0c)),
    ensures
        is_first(outcome(Scan::Function { address, count }, read, id), address.rank(), read, id),
    decreases 8193 - (address.bus * 32 + address.device), 8 - address.function,
{
    let scan = Scan::Function { address, count };
    if read(address, 0) == id {
        reveal_with_fuel(outcome, 2);
        assert(outcome(scan, read, id) == Some(address));
    } else {
        assert forall|other: Address| other.rank() == address.rank() implies !#[trigger] answers(
            other,
            read,
            id,
        ) by {
            if other.valid() {
                lemma_rank(other, address);
            }
        }
        if address.function + 1 < count {
            let next = Address { function: (address.function + 1) as u8, ..address };
            assert(outcome(scan, read, id) == outcome(Scan::Function { address: next, count }, read, id));
            lemma_scan_function(next, count, read, id);
        } else {
            assert(outcome(scan, read, id) == outcome(scan_behind(address.bus, address.device), read, id));
            lemma_scan_behind(address.bus, address.device, read, id);
            let from = address.rank();
            let end = (address.bus * 32 + address.device + 1) * 8;
            assert forall|other: Address| from < other.rank() < end implies !#[trigger] answers(
                other,
                read,
                id,
            ) by {
                if other.valid() {
                    lemma_rank(other, address);
                    assert(Address { function: 0, ..other } == Address { function: 0, ..address });
                }
            }
        }
    }
}

/// Whatever the registers hold, a search ends with the first function wanted in
/// the order of buses, devices and functions, and with none only if there is none.
pub proof fn lemma_search_finds_first(read: spec_fn(Address, u8) -> u32, id: u32)
    ensures
        is_first(outcome(Scan::Device { bus: 0, device: 0 }, read, id), 0, read, id),
{
    lemma_scan_device(0, 0, read, id);
}

/// The address of a function's registers in memory, from its first two base
/// address registers: of 64 bits where bits 1 and 2 of the first say so, and
/// none if the registers are in port space.
pub open spec fn bar0(low: u32, high: u32) -> Option<u64> {
    if low % 2 == 1 {
        None
    } else if low / 2 % 4 == 2 {
        Some((high * 0x1_0000_0000 + low / 16 * 16) as u64)
    } else {
        Some((low / 16 * 16) as u64)
    }
}

pub fn memory_bar0(low: u32, high: u32) -> (address: Option<u64>)
    ensures
        address == bar0(low, high),
{
    if low % 2 == 1 {
        None
    } else if low / 2 % 4 == 2 {
        Some(high as u64 * 0x1_0000_0000 + (low / 16 * 16) as u64)
    } else {
        Some((low / 16 * 16) as u64)
    }
}

/// The command register that lets a function be read in memory and write there
/// itself.
pub open spec fn with_bus_master(command: u32) -> u32 {
    command | 6
}

pub fn enable_bus_master(command: u32) -> (enabled: u32)
    ensures
        enabled == command | 6,
        enabled == with_bus_master(command),
{
    command | 6
}

} // verus!
