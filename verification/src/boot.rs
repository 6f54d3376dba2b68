//! What the firmware tells at boot: memory regions, the framebuffer and the
//! ACPI tables.
use vstd::prelude::*;

use crate::framebuffer::{FramebufferInfo, PixelOrder};

verus! {

#[derive(Clone, Copy, Debug, PartialEq, Eq, Structural)]
pub enum MemoryKind {
    /// Free after boot services exit and never referenced by the kernel.
    Usable,
    /// Firmware boot-services memory. Still holds the firmware page tables and
    /// stack during handoff; reclaimable once nothing refers to it.
    BootServices,
    /// The kernel image and loader allocations such as the memory map.
    Loader,
    AcpiReclaimable,
    AcpiNvs,
    Mmio,
    Reserved,
}

#[derive(Clone, Copy, Debug)]
pub struct MemoryRegion {
    pub start: u64,
    pub pages: u64,
    pub kind: MemoryKind,
}

impl MemoryRegion {
    /// The address behind the region's last byte.
    pub open spec fn limit(self) -> int {
        self.start + self.pages * 4096
    }

    pub fn end(&self) -> (end: u64)
        requires
            self.limit() <= u64::MAX,
        ensures
            end == self.limit(),
    {
        self.start + self.pages * 4096
    }
}

/// The kind of memory that a UEFI memory type stands for.
pub open spec fn kind_of(ty: u32) -> MemoryKind {
    if ty == 7 {
        MemoryKind::Usable
    } else if ty == 3 || ty == 4 {
        MemoryKind::BootServices
    } else if ty == 1 || ty == 2 {
        MemoryKind::Loader
    } else if ty == 9 {
        MemoryKind::AcpiReclaimable
    } else if ty == 10 {
        MemoryKind::AcpiNvs
    } else if ty == 11 || ty == 12 {
        MemoryKind::Mmio
    } else {
        MemoryKind::Reserved
    }
}

/// Tell the kinds of memory apart by the numbers that UEFI gives to memory
/// types.
pub fn kind(ty: u32) -> (kind: MemoryKind)
    ensures
        kind == kind_of(ty),
{
    match ty {
        // conventional memory
        7 => MemoryKind::Usable,
        // boot-services code and data
        3 | 4 => MemoryKind::BootServices,
        // loader code and data
        1 | 2 => MemoryKind::Loader,
        9 => MemoryKind::AcpiReclaimable,
        10 => MemoryKind::AcpiNvs,
        // memory-mapped I/O and its port space
        11 | 12 => MemoryKind::Mmio,
        _ => MemoryKind::Reserved,
    }
}

pub const MAX_REGIONS: usize = 1024;

/// The memory map as the kernel keeps it.
pub struct RegionTable {
    pub regions: [MemoryRegion; 1024],
    pub count: usize,
}

impl View for RegionTable {
    type V = Seq<MemoryRegion>;

    open spec fn view(&self) -> Seq<MemoryRegion> {
        self.regions@.subrange(0, self.count as int)
    }
}

impl RegionTable {
    pub open spec fn wf(&self) -> bool {
        self.count <= 1024
    }

    pub fn new() -> (table: RegionTable)
        ensures
            table.wf(),
            table@ == Seq::<MemoryRegion>::empty(),
    {
        let empty = MemoryRegion { start: 0, pages: 0, kind: MemoryKind::Reserved };
        let table = RegionTable { regions: [empty; 1024], count: 0 };
        assert(table@ =~= Seq::<MemoryRegion>::empty());
        table
    }

    /// Copy one entry of the firmware's memory map.
    pub fn add(&mut self, phys_start: u64, page_count: u64, ty: u32)
        requires
            old(self).wf(),
            old(self)@.len() < 1024,
        ensures
            final(self).wf(),
            final(self)@ == old(self)@.push(
                (MemoryRegion { start: phys_start, pages: page_count, kind: kind_of(ty) }),
            ),
    {
        let region = MemoryRegion { start: phys_start, pages: page_count, kind: kind(ty) };
        self.regions[self.count] = region;
        self.count += 1;
        assert(self@ =~= old(self)@.push(region));
    }
}

/// An entry of the UEFI configuration table.
#[derive(Clone, Copy, Debug)]
pub struct ConfigEntry {
    pub guid: [u8; 16],
    pub address: u64,
}

pub open spec fn acpi2_guid() -> Seq<u8> {
    seq![
        0x71,
        0xe8,
        0x68,
        0x88,
        0xf1,
        0xe4,
        0xd3,
        0x11,
        0xbc,
        0x22,
        0x00,
        0x80,
        0xc7,
        0x3c,
        0x88,
        0x81,
    ]
}

pub open spec fn acpi_guid() -> Seq<u8> {
    seq![
        0x30,
        0x2d,
        0x9d,
        0xeb,
        0x88,
        0x2d,
        0xd3,
        0x11,
        0x9a,
        0x16,
        0x00,
        0x90,
        0x27,
        0x3f,
        0xc1,
        0x4d,
    ]
}

/// Whether the entry at `index` is the first with a GUID.
pub open spec fn is_first_entry(entries: Seq<ConfigEntry>, guid: Seq<u8>, index: int) -> bool {
    &&& 0 <= index < entries.len()
    &&& entries[index].guid@ == guid
    &&& forall|j: int| 0 <= j < index ==> (#[trigger] entries[j]).guid@ != guid
}

/// The address in the first entry with a GUID.
pub open spec fn entry_address(entries: Seq<ConfigEntry>, guid: Seq<u8>) -> Option<u64>
    decreases entries.len(),
{
    if entries.len() == 0 {
        None
    } else if entries[0].guid@ == guid {
        Some(entries[0].address)
    } else {
        entry_address(entries.skip(1), guid)
    }
}

/// The address of the ACPI tables among the entries.
pub open spec fn rsdp_in(entries: Seq<ConfigEntry>) -> Option<u64> {
    match entry_address(entries, acpi2_guid()) {
        Some(address) => Some(address),
        None => entry_address(entries, acpi_guid()),
    }
}

proof fn lemma_entry_address(entries: Seq<ConfigEntry>, guid: Seq<u8>, index: int)
    requires
        0 <= index <= entries.len(),
        forall|j: int| 0 <= j < index ==> (#[trigger] entries[j]).guid@ != guid,
        index < entries.len() ==> entries[index].guid@ == guid,
    ensures
        entry_address(entries, guid) == if index < entries.len() {
            Some(entries[index].address)
        } else {
            None
        },
    decreases entries.len(),
{
    if index > 0 {
        assert(entries[0].guid@ != guid);
        let rest = entries.skip(1);
        assert forall|j: int| 0 <= j < index - 1 implies (#[trigger] rest[j]).guid@ != guid by {
            assert(entries[j + 1].guid@ != guid);
        }
        lemma_entry_address(rest, guid, index - 1);
    }
}

pub open spec fn has_entry(entries: Seq<ConfigEntry>, guid: Seq<u8>) -> bool {
    exists|i: int| 0 <= i < entries.len() && (#[trigger] entries[i]).guid@ == guid
}

fn same_guid(a: &[u8; 16], b: &[u8; 16]) -> (equal: bool)
    ensures
        equal == (a@ == b@),
{
    let mut i: usize = 0;
    while i < 16
        invariant
            i <= 16,
            forall|k: int| 0 <= k < i ==> a@[k] == b@[k],
        decreases 16 - i,
    {
        if a[i] != b[i] {
            return false;
        }
        i += 1;
    }
    assert(a@ =~= b@);
    true
}

fn find_entry(entries: &[ConfigEntry], guid: &[u8; 16]) -> (found: Option<usize>)
    ensures
        found matches Some(index) ==> is_first_entry(entries@, guid@, index as int),
        found is None ==> !has_entry(entries@, guid@),
        match found {
            Some(index) => entry_address(entries@, guid@) == Some(
                entries@[index as int].address,
            ),
            None => entry_address(entries@, guid@) is None,
        },
{
    let mut i: usize = 0;
    while i < entries.len()
        invariant
            i <= entries@.len(),
            forall|j: int| 0 <= j < i ==> (#[trigger] entries@[j]).guid@ != guid@,
        decreases entries@.len() - i,
    {
        if same_guid(&entries[i].guid, guid) {
            proof {
                lemma_entry_address(entries@, guid@, i as int);
            }
            return Some(i);
        }
        i += 1;
    }
    proof {
        lemma_entry_address(entries@, guid@, i as int);
    }
    None
}

/// Physical address of the ACPI RSDP, preferring the ACPI 2.0+ table.
pub fn find_rsdp(entries: &[ConfigEntry]) -> (rsdp: Option<u64>)
    ensures
        has_entry(entries@, acpi2_guid()) ==> exists|i: int|
            is_first_entry(entries@, acpi2_guid(), i) && rsdp == Some(
                (#[trigger] entries@[i]).address,
            ),
        !has_entry(entries@, acpi2_guid()) && has_entry(entries@, acpi_guid()) ==> exists|i: int|
            is_first_entry(entries@, acpi_guid(), i) && rsdp == Some(
                (#[trigger] entries@[i]).address,
            ),
        !has_entry(entries@, acpi2_guid()) && !has_entry(entries@, acpi_guid()) ==> rsdp is None,
        rsdp == rsdp_in(entries@),
{
    let newer: [u8; 16] = [
        0x71,
        0xe8,
        0x68,
        0x88,
        0xf1,
        0xe4,
        0xd3,
        0x11,
        0xbc,
        0x22,
        0x00,
        0x80,
        0xc7,
        0x3c,
        0x88,
        0x81,
    ];
    let older: [u8; 16] = [
        0x30,
        0x2d,
        0x9d,
        0xeb,
        0x88,
        0x2d,
        0xd3,
        0x11,
        0x9a,
        0x16,
        0x00,
        0x90,
        0x27,
        0x3f,
        0xc1,
        0x4d,
    ];
    assert(newer@ =~= acpi2_guid());
    assert(older@ =~= acpi_guid());
    match find_entry(entries, &newer) {
        Some(index) => Some(entries[index].address),
        None => match find_entry(entries, &older) {
            Some(index) => Some(entries[index].address),
            None => None,
        },
    }
}

/// How the firmware's graphics mode stores pixels.
#[derive(Clone, Copy, Debug, PartialEq, Eq, Structural)]
pub enum PixelFormat {
    Rgb,
    Bgr,
    Bitmask,
    BltOnly,
}

/// The framebuffer in a graphics mode, if its pixels can be drawn.
pub open spec fn usable_mode(
    format: PixelFormat,
    address: u64,
    size: usize,
    width: usize,
    height: usize,
    stride: usize,
) -> Option<FramebufferInfo> {
    let order = if format == PixelFormat::Rgb {
        PixelOrder::Rgb
    } else {
        PixelOrder::Bgr
    };
    let info = FramebufferInfo { address, size, width, height, stride, order };
    if (format == PixelFormat::Rgb || format == PixelFormat::Bgr) && info.is_valid() {
        Some(info)
    } else {
        None
    }
}

/// The framebuffer to use, given the current graphics mode and its memory.
/// Bitmask and BLT-only modes are unsupported: BLT is a boot service.
pub fn discover_framebuffer(
    format: PixelFormat,
    address: u64,
    size: usize,
    width: usize,
    height: usize,
    stride: usize,
) -> (found: Option<FramebufferInfo>)
    ensures
        found == ({
            let order = if format == PixelFormat::Rgb {
                PixelOrder::Rgb
            } else {
                PixelOrder::Bgr
            };
            let info = FramebufferInfo { address, size, width, height, stride, order };
            if (format == PixelFormat::Rgb || format == PixelFormat::Bgr) && info.is_valid() {
                Some(info)
            } else {
                None
            }
        }),
        found == usable_mode(format, address, size, width, height, stride),
{
    let order: PixelOrder = match format {
        PixelFormat::Rgb => PixelOrder::Rgb,
        PixelFormat::Bgr => PixelOrder::Bgr,
        _ => {
            return None;
        },
    };
    let info = FramebufferInfo { address, size, width, height, stride, order };
    if info.valid() {
        Some(info)
    } else {
        None
    }
}

} // verus!
