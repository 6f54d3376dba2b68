//! Which memory is handed out, and which is mapped.
use vstd::prelude::*;

use crate::boot::{
    acpi2_guid, acpi_guid, entry_address, kind_of, rsdp_in, ConfigEntry, MemoryKind, MemoryRegion,
};
use crate::framebuffer::FramebufferInfo;
use crate::memory::{
    identity, is_ram, lemma_identity_map_covers, mapped_end, ram_end_of, region_frames,
    registers_map, usable_frames, IdentityMap, MMIO_START, VIRTUAL_END,
};

verus! {

/// Every page of usable memory above 1 MiB is handed out.
pub proof fn lemma_all_usable_memory_is_handed_out(
    regions: Seq<MemoryRegion>,
    r: int,
    address: int,
)
    requires
        0 <= r < regions.len(),
        regions[r].kind == MemoryKind::Usable,
        regions[r].start % 4096 == 0,
        regions[r].limit() <= 0x10_0000_0000_0000,
        address % 4096 == 0,
        address >= 0x10_0000,
        regions[r].start <= address,
        address + 4096 <= regions[r].start + 4096 * regions[r].pages,
    ensures
        usable_frames(regions).contains(address as u64),
    decreases regions.len(),
{
    let frames = usable_frames(regions);
    let before = usable_frames(regions.drop_last());
    if r < regions.len() - 1 {
        lemma_all_usable_memory_is_handed_out(regions.drop_last(), r, address);
        let k = choose|k: int| 0 <= k < before.len() && before[k] == address as u64;
        assert(frames[k] == address as u64);
    } else {
        let region = regions[r];
        let low: int = if region.start > 0x10_0000 {
            region.start as int
        } else {
            0x10_0000
        };
        let i = (address - low) / 4096;
        assert(low % 4096 == 0);
        assert(low + 4096 * i == address);
        assert(region_frames(region)[i] == address as u64);
        assert(frames[before.len() + i] == address as u64);
    }
}

/// Frames of one region are handed out from its start up, and those of a region
/// before those of the regions behind it.
pub proof fn lemma_frames_in_order(regions: Seq<MemoryRegion>, region: MemoryRegion, i: int)
    requires
        region.limit() <= 0x10_0000_0000_0000,
        0 <= i < region_frames(region).len(),
    ensures
        usable_frames(regions.push(region)) == usable_frames(regions) + region_frames(region),
        i > 0 && region.start % 4096 == 0 ==> region_frames(region)[i] == region_frames(region)[i
            - 1] + 4096,
        i == 0 && region.start >= 0x10_0000 && region.start % 4096 == 0 ==> region_frames(region)[i]
            == region.start,
        region.kind == MemoryKind::Usable,
{
    assert(regions.push(region).drop_last() =~= regions);
}

/// Memory ends where the highest region of RAM ends, whatever the order of the
/// regions.
pub proof fn lemma_ram_end_is_highest(regions: Seq<MemoryRegion>)
    ensures
        forall|i: int|
            0 <= i < regions.len() && is_ram(#[trigger] regions[i]) ==> regions[i].limit()
                <= ram_end_of(regions),
        ram_end_of(regions) == 0 || exists|i: int|
            0 <= i < regions.len() && is_ram(#[trigger] regions[i]) && regions[i].limit()
                == ram_end_of(regions),
        ram_end_of(regions) >= 0,
    decreases regions.len(),
{
    if regions.len() > 0 {
        let shorter = regions.drop_last();
        lemma_ram_end_is_highest(shorter);
        let last = regions.len() - 1;
        assert forall|i: int| 0 <= i < regions.len() && is_ram(#[trigger] regions[i]) implies regions[i].limit()
            <= ram_end_of(regions) by {
            if i < last {
                assert(shorter[i] == regions[i]);
            }
        }
        if ram_end_of(regions) == ram_end_of(shorter) {
            if ram_end_of(shorter) != 0 {
                let i = choose|i: int|
                    0 <= i < shorter.len() && is_ram(#[trigger] shorter[i]) && shorter[i].limit()
                        == ram_end_of(shorter);
                assert(regions[i] == shorter[i]);
            }
        } else {
            assert(is_ram(regions[last]));
        }
    }
}

/// Everything but device memory and reserved memory is RAM.
pub proof fn lemma_ram_kinds(region: MemoryRegion)
    ensures
        is_ram(region) == (region.kind == MemoryKind::Usable || region.kind
            == MemoryKind::BootServices || region.kind == MemoryKind::Loader || region.kind
            == MemoryKind::AcpiReclaimable || region.kind == MemoryKind::AcpiNvs),
{
}

/// An entry for ACPI 2.0 or later is preferred wherever it stands, and else one
/// for ACPI 1.0; of several alike the first counts, and other entries do not.
pub proof fn lemma_tables_are_found(entries: Seq<ConfigEntry>, first: ConfigEntry)
    ensures
        ({
            let all = seq![first] + entries;
            let newer = first.guid@ == seq![
                0x71u8,
                0xe8,
                0x68,
                0x88,
                0xf1,
                0xe4,
                0xd3,
                0x11,
                0xbc,
                0x22,
                0x00,
                0x80,
                0xc7,
                0x3c,
                0x88,
                0x81,
            ];
            let older = first.guid@ == seq![
                0x30u8,
                0x2d,
                0x9d,
                0xeb,
                0x88,
                0x2d,
                0xd3,
                0x11,
                0x9a,
                0x16,
                0x00,
                0x90,
                0x27,
                0x3f,
                0xc1,
                0x4d,
            ];
            &&& newer ==> rsdp_in(all) == Some(first.address)
            &&& !newer && !older ==> rsdp_in(all) == rsdp_in(entries)
            &&& older && (forall|i: int|
                0 <= i < entries.len() ==> (#[trigger] entries[i]).guid@ != acpi2_guid())
                ==> rsdp_in(all) == Some(first.address)
            &&& older && (exists|i: int|
                0 <= i < entries.len() && (#[trigger] entries[i]).guid@ == acpi2_guid())
                ==> rsdp_in(all) == rsdp_in(entries)
            &&& rsdp_in(Seq::empty()) is None
        }),
{
    let all = seq![first] + entries;
    assert(all.skip(1) =~= entries);
    assert(all[0] == first);
    assert(acpi2_guid()[0] == 0x71 && acpi_guid()[0] == 0x30);
    lemma_entry_found(entries, acpi2_guid());
}

proof fn lemma_entry_found(entries: Seq<ConfigEntry>, guid: Seq<u8>)
    ensures
        entry_address(entries, guid) is Some == (exists|i: int|
            0 <= i < entries.len() && (#[trigger] entries[i]).guid@ == guid),
    decreases entries.len(),
{
    if entries.len() > 0 {
        let rest = entries.skip(1);
        lemma_entry_found(rest, guid);
        if exists|i: int| 0 <= i < entries.len() && (#[trigger] entries[i]).guid@ == guid {
            let i = choose|i: int|
                0 <= i < entries.len() && (#[trigger] entries[i]).guid@ == guid;
            if i > 0 {
                assert(rest[i - 1].guid@ == guid);
            }
        }
        if exists|i: int| 0 <= i < rest.len() && (#[trigger] rest[i]).guid@ == guid {
            let i = choose|i: int| 0 <= i < rest.len() && (#[trigger] rest[i]).guid@ == guid;
            assert(entries[i + 1].guid@ == guid);
        }
    }
}

/// UEFI's conventional memory alone is usable at once; the memory of boot
/// services and of the loader, and the tables of ACPI, are told apart, and what is
/// unknown is reserved.
pub proof fn lemma_memory_kinds(ty: u32)
    ensures
        (kind_of(ty) == MemoryKind::Usable) == (ty == 7),
        (kind_of(ty) == MemoryKind::BootServices) == (ty == 3 || ty == 4),
        (kind_of(ty) == MemoryKind::Loader) == (ty == 1 || ty == 2),
        (kind_of(ty) == MemoryKind::AcpiReclaimable) == (ty == 9),
        (kind_of(ty) == MemoryKind::AcpiNvs) == (ty == 10),
        (kind_of(ty) == MemoryKind::Mmio) == (ty == 11 || ty == 12),
        ty == 0 || ty == 5 || ty == 6 || ty == 8 || ty > 12 ==> kind_of(ty)
            == MemoryKind::Reserved,
{
}

/// Whether one of the pages to map holds an address.
pub open spec fn maps_address(map: IdentityMap, address: int) -> bool {
    exists|i: int|
        0 <= i < map.pages().len() && #[trigger] map.pages()[i] <= address < map.pages()[i]
            + map.step
}

/// All addresses from a start to an end are mapped, by pages of a gibibyte or of
/// two mebibytes that begin at multiples of their size.
pub proof fn lemma_range_is_mapped(start: int, end: int, gib_pages: bool, address: int)
    requires
        0 <= start <= address < end <= VIRTUAL_END,
    ensures
        maps_address(identity(start, end, gib_pages), address),
        gib_pages ==> identity(start, end, gib_pages).step == 1024 * 1024 * 1024,
        !gib_pages ==> identity(start, end, gib_pages).step == 2 * 1024 * 1024,
        identity(start, end, gib_pages).address as int % identity(
            start,
            end,
            gib_pages,
        ).step as int == 0,
{
    let map = identity(start, end, gib_pages);
    let step = map.step as int;
    assert(0 <= start % step <= start) by (nonlinear_arith)
        requires
            step > 0,
            start >= 0,
    ;
    assert((start - start % step) % step == 0) by {
        if gib_pages {
            assert(step == 0x4000_0000);
        } else {
            assert(step == 0x20_0000);
        }
    }
    lemma_identity_map_covers(map, address);
}

/// The kernel reaches all RAM, the low 4 GiB and the whole framebuffer.
pub proof fn lemma_kernel_reaches(
    regions: Seq<MemoryRegion>,
    info: FramebufferInfo,
    gib_pages: bool,
    address: int,
)
    requires
        mapped_end(regions) <= VIRTUAL_END,
        info.address + info.size <= VIRTUAL_END,
    ensures
        0 <= address < 4 * 1024 * 1024 * 1024 ==> maps_address(
            identity(0, mapped_end(regions), gib_pages),
            address,
        ),
        (exists|i: int|
            0 <= i < regions.len() && is_ram(#[trigger] regions[i]) && regions[i].start <= address
                < regions[i].limit()) ==> maps_address(
            identity(0, mapped_end(regions), gib_pages),
            address,
        ),
        info.address <= address < info.address + info.size ==> maps_address(
            identity(info.address as int, info.address + info.size, gib_pages),
            address,
        ),
{
    lemma_ram_end_is_highest(regions);
    if 0 <= address < mapped_end(regions) {
        lemma_range_is_mapped(0, mapped_end(regions), gib_pages, address);
    }
    if info.address <= address < info.address + info.size {
        lemma_range_is_mapped(info.address as int, info.address + info.size, gib_pages, address);
    }
    if exists|i: int|
        0 <= i < regions.len() && is_ram(#[trigger] regions[i]) && regions[i].start <= address
            < regions[i].limit() {
        let i = choose|i: int|
            0 <= i < regions.len() && is_ram(#[trigger] regions[i]) && regions[i].start <= address
                < regions[i].limit();
        assert(regions[i].limit() <= ram_end_of(regions));
    }
}

/// Every byte of a device's registers is in one of the pages mapped for it, as
/// far behind the virtual start as it is behind the physical one.
pub proof fn lemma_registers_are_mapped(physical_start: int, length: int, byte: int)
    requires
        0 <= physical_start,
        0 <= byte < length,
        physical_start + length <= 0x10_0000_0000_0000,
        MMIO_START + physical_start % 4096 + length <= VIRTUAL_END,
    ensures
        ({
            let map = registers_map(physical_start, length);
            let distance = map.virtual_start + byte - MMIO_START;
            let page = distance / 4096;
            &&& 0 <= page < map.page_count
            &&& map.physical_page + 4096 * page + distance % 4096 == physical_start + byte
            &&& map.physical_page % 4096 == 0
            &&& 4096 * (map.page_count - 1) < physical_start % 4096 + length
        }),
{
}

} // verus!
