use crab_os::boot::{
    discover_framebuffer, find_rsdp, kind, ConfigEntry, MemoryKind, MemoryRegion, PixelFormat,
    RegionTable,
};
use crab_os::framebuffer::{
    available, draw_cell, glyph, init, Framebuffer, FramebufferInfo, PixelOrder,
};
use crab_os::interrupts::{
    init_mouse, init_timer, uptime_seconds, InterruptIndex, PortAction,
};
use crab_os::memory::{
    identity_map, map_mmio, ram_end, stack_page, stack_top, supports_gib_pages,
    BootInfoFrameAllocator, EmptyFrameAllocator,
};
use crab_os::pci::{
    enable_bus_master, find_i225_v, find_qemu_e1000, memory_bar0, Address, Scan, I225_V,
};
use crab_os::system::{Cpuid, CpuidLeaf, SystemInfo};
use uefi::mem::memory_map::MemoryType;
use uefi::table::cfg::ConfigTableEntry;

fn region(start: u64, pages: u64, kind: MemoryKind) -> MemoryRegion {
    MemoryRegion { start, pages, kind }
}

#[test]
fn cpu_detection_and_empty_memory_map() {
    let empty = CpuidLeaf { eax: 0, ebx: 0, ecx: 0, edx: 0 };
    let cpu = Cpuid { base: empty, features: empty, extended: empty, brand: [empty; 3] };
    let info = SystemInfo::new(&[], &cpu);
    assert!(!info.cpu_name().is_empty());
    assert_eq!(info.usable_memory, 0);
}

#[test]
fn brand_vendor_and_fallback_name_the_processor() {
    let empty = CpuidLeaf { eax: 0, ebx: 0, ecx: 0, edx: 0 };
    let base = CpuidLeaf { eax: 1, ebx: 0x756e_6547, ecx: 0x6c65_746e, edx: 0x4965_6e69 };
    let features = CpuidLeaf { ecx: 1 << 31, ..empty };
    let brand = CpuidLeaf { eax: 0x4351_2020, ebx: 0x2050_5520, ..empty };
    let extended = CpuidLeaf { eax: 0x8000_0004, ..empty };
    let mut cpu = Cpuid { base, features, extended, brand: [brand, empty, empty] };
    let info = SystemInfo::new(&[], &cpu);
    assert_eq!(info.cpu_name(), "QC UP");
    assert!(info.virtualized);
    cpu.extended.eax = 0x8000_0003;
    assert_eq!(SystemInfo::new(&[], &cpu).cpu_name(), "GenuineIntel");
    cpu.base.ebx = 0xffff_ffff;
    assert_eq!(SystemInfo::new(&[], &cpu).cpu_name(), "Unknown x86_64 CPU");
    cpu.base.eax = 0;
    assert!(!SystemInfo::new(&[], &cpu).virtualized);
}

#[test]
fn usable_memory_is_summed() {
    let empty = CpuidLeaf { eax: 0, ebx: 0, ecx: 0, edx: 0 };
    let cpu = Cpuid { base: empty, features: empty, extended: empty, brand: [empty; 3] };
    let regions = [
        region(0, 2, MemoryKind::Usable),
        region(0x2000, 5, MemoryKind::Loader),
        region(0x10_0000, 3, MemoryKind::Usable),
    ];
    assert_eq!(SystemInfo::new(&regions, &cpu).usable_memory, 5 * 4096);
}

#[test]
fn memory_types_are_told_apart() {
    assert_eq!(kind(MemoryType::CONVENTIONAL.0), MemoryKind::Usable);
    assert_eq!(kind(MemoryType::BOOT_SERVICES_CODE.0), MemoryKind::BootServices);
    assert_eq!(kind(MemoryType::BOOT_SERVICES_DATA.0), MemoryKind::BootServices);
    assert_eq!(kind(MemoryType::LOADER_CODE.0), MemoryKind::Loader);
    assert_eq!(kind(MemoryType::LOADER_DATA.0), MemoryKind::Loader);
    assert_eq!(kind(MemoryType::ACPI_RECLAIM.0), MemoryKind::AcpiReclaimable);
    assert_eq!(kind(MemoryType::ACPI_NON_VOLATILE.0), MemoryKind::AcpiNvs);
    assert_eq!(kind(MemoryType::MMIO.0), MemoryKind::Mmio);
    assert_eq!(kind(MemoryType::MMIO_PORT_SPACE.0), MemoryKind::Mmio);
    assert_eq!(kind(MemoryType::RESERVED.0), MemoryKind::Reserved);
    assert_eq!(kind(MemoryType::UNUSABLE.0), MemoryKind::Reserved);
    assert_eq!(kind(u32::MAX), MemoryKind::Reserved);
}

#[test]
fn regions_are_copied_in_order() {
    let mut table = RegionTable::new();
    table.add(0x1000, 2, 7);
    table.add(0x3000, 1, 0);
    assert_eq!(table.count, 2);
    assert_eq!(table.regions[0].end(), 0x3000);
    assert_eq!(table.regions[1].kind, MemoryKind::Reserved);
}

#[test]
fn the_newer_acpi_table_is_preferred() {
    let older = ConfigEntry { guid: ConfigTableEntry::ACPI_GUID.to_bytes(), address: 0x1000 };
    let newer = ConfigEntry { guid: ConfigTableEntry::ACPI2_GUID.to_bytes(), address: 0x2000 };
    let other = ConfigEntry { guid: [0; 16], address: 0x3000 };
    let later = ConfigEntry { guid: newer.guid, address: 0x4000 };
    assert_eq!(find_rsdp(&[other, older, newer, later]), Some(0x2000));
    assert_eq!(find_rsdp(&[other, older]), Some(0x1000));
    assert_eq!(find_rsdp(&[other]), None);
}

#[test]
fn only_plain_pixel_formats_are_used() {
    let found = |format, address, size| discover_framebuffer(format, address, size, 4, 2, 5);
    let info = found(PixelFormat::Rgb, 0x1000, 40).unwrap();
    assert_eq!(info.order, PixelOrder::Rgb);
    assert_eq!(found(PixelFormat::Bgr, 0x1000, 40).unwrap().order, PixelOrder::Bgr);
    assert!(found(PixelFormat::Bitmask, 0x1000, 40).is_none());
    assert!(found(PixelFormat::BltOnly, 0x1000, 40).is_none());
    assert!(found(PixelFormat::Rgb, 0x1000, 39).is_none());
    assert!(found(PixelFormat::Rgb, 0x1002, 40).is_none());
    assert!(found(PixelFormat::Rgb, 0, 40).is_none());
}

fn screen(width: usize, height: usize) -> (Framebuffer, Vec<u32>) {
    let info = FramebufferInfo {
        address: 0x1000,
        size: width * height * 4,
        width,
        height,
        stride: width,
        order: PixelOrder::Bgr,
    };
    let mut pixels = vec![9; width * height];
    let framebuffer = init(info, &mut pixels);
    (framebuffer, pixels)
}

#[test]
fn cells_are_enlarged_and_centered() {
    let (framebuffer, pixels) = screen(1300, 900);
    assert_eq!(framebuffer.scale, 2);
    assert_eq!(framebuffer.origin_x, 10);
    assert_eq!(framebuffer.origin_y, 50);
    assert!(pixels.iter().all(|pixel| *pixel == 0));
    assert!(available(&Some(framebuffer)));
    assert!(!available(&None));
    assert_eq!(screen(100, 100).0.scale, 1);
}

#[test]
fn glyphs_come_from_the_font() {
    assert_eq!(glyph(b'A'), font8x8::legacy::BASIC_LEGACY[65]);
    assert_ne!(glyph(b'A'), [0; 8]);
    assert_eq!(glyph(b' '), [0; 8]);
    assert_eq!(glyph(0xfe), [0, 0, 0x3c, 0x3c, 0x3c, 0x3c, 0, 0]);
    assert_eq!(glyph(0xfa), [0, 0, 0, 0x18, 0x18, 0, 0, 0]);
    assert_eq!(glyph(0x7f), [0; 8]);
}

#[test]
fn a_cell_shows_both_colors() {
    let (framebuffer, mut pixels) = screen(640, 400);
    let framebuffer = Some(framebuffer);
    draw_cell(&framebuffer, &mut pixels, 1, 1, 0xfe, 0x4e);
    assert_eq!(pixels[16 * 640 + 8], 0xaa0000);
    assert_eq!(pixels[20 * 640 + 10], 0xffff55);
    assert_eq!(pixels[27 * 640 + 13], 0xffff55);
    assert_eq!(pixels[28 * 640 + 10], 0xaa0000);
    assert_eq!(pixels[16 * 640 + 16], 0);
    let before = pixels.clone();
    draw_cell(&framebuffer, &mut pixels, 80, 0, b'A', 0x0f);
    draw_cell(&None, &mut pixels, 0, 0, b'A', 0x0f);
    assert_eq!(pixels, before);
}

#[test]
fn frames_come_from_usable_memory_above_one_megabyte() {
    let regions = [
        region(0, 0x101, MemoryKind::Usable),
        region(0x20_0000, 8, MemoryKind::BootServices),
        region(0x30_0000, 2, MemoryKind::Usable),
    ];
    let mut allocator = BootInfoFrameAllocator::init(&regions);
    assert_eq!(allocator.allocate_frame(), Some(0x10_0000));
    assert_eq!(allocator.allocate_frame(), Some(0x30_0000));
    assert_eq!(allocator.allocate_frame(), Some(0x30_1000));
    assert_eq!(allocator.allocate_frame(), None);
    assert_eq!(EmptyFrameAllocator.allocate_frame(), None);
}

#[test]
fn ram_ends_behind_its_highest_region() {
    let regions = [
        region(0x10_0000, 2, MemoryKind::Usable),
        region(0x50_0000, 1, MemoryKind::Loader),
        region(0xf000_0000, 1, MemoryKind::Mmio),
    ];
    assert_eq!(ram_end(&regions), 0x50_1000);
    assert_eq!(ram_end(&[]), 0);
}

#[test]
fn identity_maps_cover_their_range() {
    let mut map = identity_map(0x4000_1000, 0x8000_0001, true);
    assert_eq!(map.next_page(), Some(0x4000_0000));
    assert_eq!(map.next_page(), Some(0x8000_0000));
    assert_eq!(map.next_page(), None);
    let mut map = identity_map(0, 0x20_0000, false);
    assert_eq!(map.next_page(), Some(0));
    assert_eq!(map.next_page(), None);
    let (mut ram, framebuffer) = crab_os::memory::init(&[], None, true);
    assert!(framebuffer.is_none());
    let pages: Vec<u64> = core::iter::from_fn(|| ram.next_page()).collect();
    assert_eq!(pages, [0, 1 << 30, 2 << 30, 3 << 30]);
    assert!(supports_gib_pages(0x8000_0001, 1 << 26));
    assert!(!supports_gib_pages(0x8000_0000, 1 << 26));
    assert!(!supports_gib_pages(0x8000_0008, 0));
}

#[test]
fn the_stack_lies_above_its_guard_page() {
    assert_eq!(stack_page(0), 0x7777_0000_1000);
    assert_eq!(stack_page(127) + 4096, stack_top());
}

#[test]
fn registers_keep_their_offset_in_the_page() {
    let map = map_mmio(0xfebc_0ff0, 0x20);
    assert_eq!(map.physical_page, 0xfebc_0000);
    assert_eq!(map.page_count, 2);
    assert_eq!(map.virtual_start, 0x5555_0000_0ff0);
    assert_eq!(map.page(1), (0x5555_0000_1000, 0xfebc_1000));
}

#[test]
fn ticks_become_seconds() {
    assert_eq!(uptime_seconds(0), 0);
    assert_eq!(uptime_seconds(99), 0);
    assert_eq!(uptime_seconds(100), 1);
    assert_eq!(uptime_seconds(1_193_182), 11_932);
    assert_eq!(uptime_seconds(u64::MAX) as u128, u64::MAX as u128 * 11_932 / 1_193_182);
}

#[test]
fn interrupts_have_their_vectors() {
    assert_eq!(InterruptIndex::Timer.as_u8(), 32);
    assert_eq!(InterruptIndex::Keyboard.as_u8(), 33);
    assert_eq!(InterruptIndex::Mouse.as_u8(), 44);
    assert_eq!(init_timer(), [(0x43, 0x36), (0x40, 0x9c), (0x40, 0x2e)]);
}

#[test]
fn the_mouse_is_enabled_step_by_step() {
    let mut setup = init_mouse();
    let mut writes = Vec::new();
    let mut polls = 0;
    loop {
        match setup.action() {
            PortAction::Write(port, value) => {
                writes.push((port, value));
                setup = setup.advance(0);
            }
            PortAction::Read(0x64) => {
                polls += 1;
                let before = setup.step;
                setup = setup.advance(if polls % 2 == 1 { 2 } else { 1 });
                assert_eq!(setup.step == before, polls % 2 == 1);
            }
            PortAction::Read(_) => setup = setup.advance(0x61),
            PortAction::Masks(first, second) => {
                assert_eq!((first, second), (0b1111_1000, 0b1110_1111));
                setup = setup.advance(0);
            }
            PortAction::Nothing => break,
        }
    }
    assert_eq!(
        writes,
        [
            (0x64, 0xa8),
            (0x64, 0x20),
            (0x64, 0x60),
            (0x60, 0x43),
            (0x64, 0xd4),
            (0x60, 0xf6),
            (0x64, 0xd4),
            (0x60, 0xf4),
        ]
    );
}

/// Search a bus on which the given functions answer.
fn search(devices: &[(Address, u32)], multi: bool) -> Scan {
    let mut scan = Scan::new();
    while let Some((address, register)) = scan.wanted() {
        let found = devices.iter().find(|(place, _)| *place == address);
        let value = match (found, register) {
            (Some((_, id)), 0) => *id,
            (Some(_), 0x0c) if multi => 0x0080_0000,
            (Some(_), _) => 0,
            (None, _) => u32::MAX,
        };
        scan = find_i225_v(scan, value);
    }
    scan
}

#[test]
fn the_first_controller_on_the_bus_is_found() {
    let at = |bus, device, function| Address { bus, device, function };
    let bridge = (at(0, 3, 0), 0x1234_8086);
    assert_eq!(search(&[], false), Scan::Missing);
    assert_eq!(search(&[bridge, (at(2, 31, 0), I225_V)], false), Scan::Found(at(2, 31, 0)));
    let second = (at(0, 3, 5), I225_V);
    assert_eq!(search(&[bridge, second], true), Scan::Found(at(0, 3, 5)));
    assert_eq!(search(&[bridge, second], false), Scan::Missing);
    let both = [(at(9, 0, 0), I225_V), (at(4, 0, 0), I225_V)];
    assert_eq!(search(&both, false), Scan::Found(at(4, 0, 0)));
    assert_eq!(search(&[(at(255, 31, 0), I225_V)], false), Scan::Found(at(255, 31, 0)));
}

#[test]
fn selectors_place_the_address_bits() {
    let address = Address { bus: 0x12, device: 0x1f, function: 7 };
    assert_eq!(address.selector(0x0d), 0x8012_ff0c);
}

#[test]
fn the_emulated_adapter_is_told_apart() {
    let scan = Scan::Function { address: Address { bus: 0, device: 2, function: 0 }, count: 1 };
    assert_eq!(find_i225_v(scan, 0x100e_8086), Scan::Device { bus: 0, device: 3 });
    assert_eq!(
        find_qemu_e1000(scan, 0x100e_8086),
        Scan::Found(Address { bus: 0, device: 2, function: 0 })
    );
    assert_eq!(memory_bar0(0xfebc_0000, 7), Some(0xfebc_0000));
    assert_eq!(memory_bar0(0xfebc_000c, 7), Some(0x7_febc_0000));
    assert_eq!(memory_bar0(0xc001, 0), None);
    assert_eq!(enable_bus_master(0x10_0001), 0x10_0007);
}
