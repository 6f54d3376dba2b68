//! Physical frames, and which addresses the page tables are to map.
use vstd::prelude::*;

use crate::boot::{MemoryKind, MemoryRegion};
use crate::framebuffer::FramebufferInfo;

verus! {

pub const GIB: u64 = 0x4000_0000;

/// Frames below 1 MiB stay free: page 0 would alias null, and low memory is
/// needed later for the application-processor startup trampoline.
pub const LOW_MEMORY_END: u64 = 0x10_0000;

pub const KERNEL_STACK_START: u64 = 0x7777_0000_0000;
/// The kernel stack is 512 KiB.
pub const KERNEL_STACK_PAGES: u64 = 128;

/// Where device registers are mapped.
pub const MMIO_START: u64 = 0x5555_0000_0000;

pub open spec fn page_down(address: int) -> int {
    address - address % 4096
}

/// The first address of a region that frames are taken from.
pub open spec fn first_usable(region: MemoryRegion) -> int {
    if region.start > 0x10_0000 {
        region.start as int
    } else {
        0x10_0000
    }
}

/// The number of frames that a region offers.
pub open spec fn frame_count(region: MemoryRegion) -> nat {
    if region.kind != MemoryKind::Usable || region.limit() <= first_usable(region) {
        0
    } else {
        ((region.limit() - first_usable(region) + 4095) / 4096) as nat
    }
}

/// The frames that a region offers, by their start address.
pub open spec fn region_frames(region: MemoryRegion) -> Seq<u64> {
    Seq::new(
        frame_count(region),
        |i: int| page_down(first_usable(region) + 4096 * i) as u64,
    )
}

/// The frames of all regions in the order in which they are handed out.
pub open spec fn usable_frames(regions: Seq<MemoryRegion>) -> Seq<u64>
    decreases regions.len(),
{
    if regions.len() == 0 {
        Seq::empty()
    } else {
        usable_frames(regions.drop_last()) + region_frames(regions.last())
    }
}

/// Physical addresses have 52 bits; usable memory ends before.
pub open spec fn addressable(regions: Seq<MemoryRegion>) -> bool {
    forall|i: int|
        0 <= i < regions.len() && (#[trigger] regions[i]).kind == MemoryKind::Usable
            ==> regions[i].limit() <= 0x10_0000_0000_0000
}

pub struct BootInfoFrameAllocator<'a> {
    pub regions: &'a [MemoryRegion],
    pub next: usize,
}

impl<'a> BootInfoFrameAllocator<'a> {
    pub fn init(regions: &'a [MemoryRegion]) -> (allocator: BootInfoFrameAllocator<'a>)
        ensures
            allocator.regions == regions,
            allocator.next == 0,
    {
        BootInfoFrameAllocator { regions, next: 0 }
    }

    /// Hand out the next frame, by its start address.
    pub fn allocate_frame(&mut self) -> (frame: Option<u64>)
        requires
            addressable(old(self).regions@),
            old(self).next < usize::MAX,
        ensures
            final(self).regions == old(self).regions,
            final(self).next == old(self).next + 1,
            frame == if old(self).next < usable_frames(old(self).regions@).len() {
                Some(usable_frames(old(self).regions@)[old(self).next as int])
            } else {
                None
            },
    {
        let mut skip: u64 = self.next as u64;
        self.next += 1;
        let mut i: usize = 0;
        proof {
            assert(self.regions@.take(0) =~= Seq::<MemoryRegion>::empty());
        }
        while i < self.regions.len()
            invariant
                i <= self.regions@.len(),
                self.regions == old(self).regions,
                self.next == old(self).next + 1,
                addressable(self.regions@),
                old(self).next == usable_frames(self.regions@.take(i as int)).len() + skip,
            decreases self.regions@.len() - i,
        {
            let region: MemoryRegion = self.regions[i];
            proof {
                let more = self.regions@.take(i + 1);
                assert(more.drop_last() =~= self.regions@.take(i as int));
                assert(more.last() == region);
                lemma_frames_prefix(self.regions@, (i + 1) as int);
            }
            if region.kind == MemoryKind::Usable {
                let low: u64 = if region.start > LOW_MEMORY_END {
                    region.start
                } else {
                    LOW_MEMORY_END
                };
                let end: u64 = region.end();
                let count: u64 = if end > low {
                    (end - low + 4095) / 4096
                } else {
                    0
                };
                if skip < count {
                    let address: u64 = low + 4096 * skip;
                    return Some(address - address % 4096);
                }
                skip -= count;
            }
            i += 1;
        }
        assert(self.regions@.take(i as int) =~= self.regions@);
        None
    }
}

pub struct EmptyFrameAllocator;

impl EmptyFrameAllocator {
    pub fn allocate_frame(&mut self) -> (frame: Option<u64>)
        ensures
            frame is None,
    {
        None
    }
}

/// Whether a region counts as memory that has to be reachable.
pub open spec fn is_ram(region: MemoryRegion) -> bool {
    region.kind != MemoryKind::Mmio && region.kind != MemoryKind::Reserved
}

/// The end of the highest region of RAM, zero without any.
pub open spec fn ram_end_of(regions: Seq<MemoryRegion>) -> int
    decreases regions.len(),
{
    if regions.len() == 0 {
        0
    } else {
        let before = ram_end_of(regions.drop_last());
        let region = regions.last();
        if is_ram(region) && region.limit() > before {
            region.limit()
        } else {
            before
        }
    }
}

pub fn ram_end(regions: &[MemoryRegion]) -> (end: u64)
    requires
        forall|i: int|
            0 <= i < regions@.len() && is_ram(#[trigger] regions@[i]) ==> regions@[i].limit()
                <= u64::MAX,
    ensures
        end == ram_end_of(regions@),
{
    let mut end: u64 = 0;
    let mut i: usize = 0;
    assert(regions@.take(0) =~= Seq::<MemoryRegion>::empty());
    while i < regions.len()
        invariant
            i <= regions@.len(),
            forall|i: int|
                0 <= i < regions@.len() && is_ram(#[trigger] regions@[i]) ==> regions@[i].limit()
                    <= u64::MAX,
            end == ram_end_of(regions@.take(i as int)),
        decreases regions@.len() - i,
    {
        let region: MemoryRegion = regions[i];
        assert(regions@.take(i + 1).drop_last() =~= regions@.take(i as int));
        if region.kind != MemoryKind::Mmio && region.kind != MemoryKind::Reserved {
            assert(is_ram(regions@[i as int]));
            let limit: u64 = region.end();
            if limit > end {
                end = limit;
            }
        }
        i += 1;
    }
    assert(regions@.take(i as int) =~= regions@);
    end
}

/// Pages still to be mapped onto themselves: from `address` in steps up to
/// `end`.
#[derive(Clone, Copy, Debug)]
pub struct IdentityMap {
    pub address: u64,
    pub end: u64,
    pub step: u64,
}

/// End of the lower half of the virtual address space.
pub const VIRTUAL_END: u64 = 0x8000_0000_0000;

impl IdentityMap {
    pub open spec fn wf(&self) -> bool {
        &&& self.step == 0x4000_0000 || self.step == 0x20_0000
        &&& self.address as int % self.step as int == 0
        &&& self.end <= 0x8000_0000_0000
    }

    /// How many pages are still to come.
    pub open spec fn remaining(&self) -> nat {
        if self.address < self.end {
            ((self.end - self.address + self.step - 1) / self.step as int) as nat
        } else {
            0
        }
    }

    /// The addresses of the pages still to come.
    pub open spec fn pages(&self) -> Seq<u64> {
        Seq::new(self.remaining(), |i: int| (self.address + i * self.step) as u64)
    }

    /// The next page to map, of `step` bytes.
    pub fn next_page(&mut self) -> (page: Option<u64>)
        requires
            old(self).wf(),
        ensures
            final(self).wf(),
            final(self).end == old(self).end,
            final(self).step == old(self).step,
            old(self).pages().len() == 0 ==> page is None && final(self).address == old(
                self,
            ).address,
            old(self).pages().len() > 0 ==> page == Some(old(self).pages()[0])
                && final(self).pages() == old(self).pages().skip(1),
    {
        if self.address >= self.end {
            return None;
        }
        let page: u64 = self.address;
        let ghost before = *self;
        proof {
            lemma_step(page as int, self.step as int, self.end as int);
        }
        self.address += self.step;
        proof {
            assert(self.pages() =~= before.pages().skip(1)) by {
                let step = self.step as int;
                assert forall|i: int| 0 <= i < self.pages().len() implies self.pages()[i]
                    == before.pages().skip(1)[i] by {
                    assert(self.address + i * step == before.address + (i + 1) * step)
                        by (nonlinear_arith)
                        requires
                            self.address == before.address + step,
                    ;
                }
            }
        }
        Some(page)
    }
}

/// Whether the processor has pages of 1 GiB, from the highest extended CPUID
/// leaf and the features in leaf 0x8000_0001.
pub open spec fn has_gib_pages(highest: u32, features: u32) -> bool {
    highest >= 0x8000_0001 && features & (1u32 << 26) != 0
}

pub fn supports_gib_pages(highest: u32, features: u32) -> (supported: bool)
    ensures
        supported == (highest >= 0x8000_0001 && features & (1u32 << 26) != 0),
        supported == has_gib_pages(highest, features),
{
    highest >= 0x8000_0001 && features & (1u32 << 26) != 0
}

/// The pages of a step that hold the addresses from `start` to `end`.
pub open spec fn identity(start: int, end: int, gib_pages: bool) -> IdentityMap {
    let step: int = if gib_pages {
        0x4000_0000
    } else {
        0x20_0000
    };
    IdentityMap { address: (start - start % step) as u64, end: end as u64, step: step as u64 }
}

/// The end of what is mapped onto itself from the start of memory on.
pub open spec fn mapped_end(regions: Seq<MemoryRegion>) -> int {
    if ram_end_of(regions) > 0x1_0000_0000 {
        ram_end_of(regions)
    } else {
        0x1_0000_0000
    }
}

/// Start mapping the addresses from `start` to `end` onto themselves, with
/// pages of 1 GiB where the processor has them and of 2 MiB where not.
pub fn identity_map(start: u64, end: u64, gib_pages: bool) -> (map: IdentityMap)
    requires
        end <= VIRTUAL_END,
    ensures
        map.wf(),
        map.end == end,
        map.step == if gib_pages {
            GIB
        } else {
            0x20_0000
        },
        map.address == start - start % map.step,
        map == identity(start as int, end as int, gib_pages),
{
    let step: u64 = if gib_pages {
        GIB
    } else {
        0x20_0000
    };
    let address: u64 = start - start % step;
    IdentityMap { address, end, step }
}

/// What the kernel's page tables map onto itself: all RAM and the low 4 GiB
/// (local APIC, IO-APIC, PCI), and the framebuffer.
pub fn init(
    regions: &[MemoryRegion],
    framebuffer: Option<FramebufferInfo>,
    gib_pages: bool,
) -> (maps: (IdentityMap, Option<IdentityMap>))
    requires
        forall|i: int|
            0 <= i < regions@.len() && is_ram(#[trigger] regions@[i]) ==> regions@[i].limit()
                <= VIRTUAL_END,
        framebuffer matches Some(info) ==> info.address + info.size <= VIRTUAL_END,
    ensures
        maps.0.wf(),
        maps.0.address == 0,
        maps.0.end == if ram_end_of(regions@) > 0x1_0000_0000 {
            ram_end_of(regions@)
        } else {
            0x1_0000_0000
        },
        maps.0.step == if gib_pages {
            GIB
        } else {
            0x20_0000
        },
        maps.1 is Some == framebuffer is Some,
        maps.1 matches Some(map) ==> {
            let info = framebuffer->Some_0;
            &&& map.wf()
            &&& map.step == maps.0.step
            &&& map.address == info.address - info.address % map.step
            &&& map.end == info.address + info.size
        },
        maps.0 == identity(0, mapped_end(regions@), gib_pages),
        framebuffer matches Some(info) ==> maps.1 == Some(
            identity(info.address as int, info.address + info.size, gib_pages),
        ),
{
    let ram: u64 = ram_end(regions);
    proof {
        lemma_ram_end_bound(regions@, VIRTUAL_END as int);
    }
    let low: u64 = 4 * GIB;
    let end: u64 = if ram > low {
        ram
    } else {
        low
    };
    let memory = identity_map(0, end, gib_pages);
    let screen: Option<IdentityMap> = match framebuffer {
        Some(info) => Some(
            identity_map(info.address, info.address + info.size as u64, gib_pages),
        ),
        None => None,
    };
    (memory, screen)
}

/// The address of a page of the kernel stack, above the guard page.
pub fn stack_page(index: u64) -> (page: u64)
    requires
        index < KERNEL_STACK_PAGES,
    ensures
        page == KERNEL_STACK_START + 4096 * (index + 1),
{
    KERNEL_STACK_START + 4096 + index * 4096
}

/// The top of the kernel stack, where it starts growing downward.
pub fn stack_top() -> (top: u64)
    ensures
        top == KERNEL_STACK_START + 4096 + 512 * 1024,
{
    KERNEL_STACK_START + 4096 + KERNEL_STACK_PAGES * 4096
}

/// Which pages make device registers reachable.
#[derive(Clone, Copy, Debug)]
pub struct MmioMap {
    pub physical_page: u64,
    pub page_count: u64,
    pub virtual_start: u64,
}

impl MmioMap {
    pub open spec fn wf(&self) -> bool {
        &&& self.physical_page % 4096 == 0
        &&& self.physical_page + 4096 * self.page_count <= 0x10_0000_0000_0000
        &&& MMIO_START + 4096 * self.page_count <= VIRTUAL_END
    }

    /// The virtual and the physical address of a page.
    pub fn page(&self, index: u64) -> (page: (u64, u64))
        requires
            self.wf(),
            index < self.page_count,
        ensures
            page.0 == MMIO_START + 4096 * index,
            page.1 == self.physical_page + 4096 * index,
    {
        (MMIO_START + index * 4096, self.physical_page + index * 4096)
    }
}

/// The pages that make registers at a physical address reachable.
pub open spec fn registers_map(physical_start: int, length: int) -> MmioMap {
    MmioMap {
        physical_page: page_down(physical_start) as u64,
        page_count: ((physical_start % 4096 + length + 4095) / 4096) as u64,
        virtual_start: (MMIO_START + physical_start % 4096) as u64,
    }
}

/// Plan the mapping of `length` bytes of registers at a physical address.
pub fn map_mmio(physical_start: u64, length: u64) -> (map: MmioMap)
    requires
        physical_start + length <= 0x10_0000_0000_0000,
        MMIO_START + physical_start % 4096 + length <= VIRTUAL_END,
    ensures
        map.wf(),
        map.physical_page == page_down(physical_start as int),
        map.page_count == (physical_start % 4096 + length + 4095) / 4096,
        map.virtual_start == MMIO_START + physical_start % 4096,
        map == registers_map(physical_start as int, length as int),
{
    let offset: u64 = physical_start % 4096;
    MmioMap {
        physical_page: physical_start - offset,
        page_count: (offset + length + 4095) / 4096,
        virtual_start: MMIO_START + offset,
    }
}

proof fn lemma_ram_end_bound(regions: Seq<MemoryRegion>, bound: int)
    requires
        bound >= 0,
        forall|i: int|
            0 <= i < regions.len() && is_ram(#[trigger] regions[i]) ==> regions[i].limit()
                <= bound,
    ensures
        0 <= ram_end_of(regions) <= bound,
    decreases regions.len(),
{
    if regions.len() > 0 {
        let shorter = regions.drop_last();
        assert forall|i: int| 0 <= i < shorter.len() && is_ram(#[trigger] shorter[i]) implies shorter[i].limit()
            <= bound by {
            assert(shorter[i] == regions[i]);
        }
        lemma_ram_end_bound(shorter, bound);
        assert(regions.last() == regions[regions.len() - 1]);
    }
}

proof fn lemma_step(address: int, step: int, end: int)
    requires
        step == 0x4000_0000 || step == 0x20_0000,
        0 <= address < end,
        end <= 0x8000_0000_0000,
        address % step == 0,
    ensures
        (address + step) % step == 0,
        address + step <= 0x8000_0000_0000,
        (end - address + step - 1) / step == 1 + if address + step < end {
            (end - (address + step) + step - 1) / step
        } else {
            0
        },
{
}

proof fn lemma_frames_prefix(regions: Seq<MemoryRegion>, n: int)
    requires
        0 <= n <= regions.len(),
    ensures
        usable_frames(regions.take(n)).len() <= usable_frames(regions).len(),
        forall|k: int|
            0 <= k < usable_frames(regions.take(n)).len() ==> #[trigger] usable_frames(
                regions,
            )[k] == usable_frames(regions.take(n))[k],
    decreases regions.len(),
{
    if n == regions.len() {
        assert(regions.take(n) =~= regions);
    } else {
        lemma_frames_prefix(regions.drop_last(), n);
        assert(regions.drop_last().take(n) =~= regions.take(n));
    }
}

/// Every frame handed out is page-aligned memory above 1 MiB from a usable
/// region.
pub proof fn lemma_frames_are_usable(regions: Seq<MemoryRegion>, k: int)
    requires
        addressable(regions),
        0 <= k < usable_frames(regions).len(),
    ensures
        usable_frames(regions)[k] % 4096 == 0,
        usable_frames(regions)[k] >= LOW_MEMORY_END,
        exists|r: int|
            {
                &&& 0 <= r < regions.len()
                &&& (#[trigger] regions[r]).kind == MemoryKind::Usable
                &&& page_down(regions[r].start as int) <= usable_frames(regions)[k]
                    < regions[r].limit()
            },
    decreases regions.len(),
{
    let shorter = regions.drop_last();
    let before = usable_frames(shorter);
    assert(addressable(shorter)) by {
        assert forall|i: int| 0 <= i < shorter.len() && (#[trigger] shorter[i]).kind
            == MemoryKind::Usable implies shorter[i].limit() <= 0x10_0000_0000_0000 by {
            assert(shorter[i] == regions[i]);
        }
    }
    if k < before.len() {
        lemma_frames_are_usable(shorter, k);
        let r = choose|r: int|
            {
                &&& 0 <= r < shorter.len()
                &&& (#[trigger] shorter[r]).kind == MemoryKind::Usable
                &&& page_down(shorter[r].start as int) <= before[k] < shorter[r].limit()
            };
        assert(regions[r] == shorter[r]);
    } else {
        let region = regions[regions.len() - 1];
        let i = k - before.len();
        assert(usable_frames(regions)[k] == region_frames(region)[i]);
        assert(region.kind == MemoryKind::Usable);
    }
}

/// Whether no two usable regions share a page.
pub open spec fn regions_apart(regions: Seq<MemoryRegion>) -> bool {
    &&& forall|i: int|
        0 <= i < regions.len() && (#[trigger] regions[i]).kind == MemoryKind::Usable
            ==> regions[i].start % 4096 == 0
    &&& forall|i: int, j: int|
        0 <= i < j < regions.len() && (#[trigger] regions[i]).kind == MemoryKind::Usable && (
        #[trigger] regions[j]).kind == MemoryKind::Usable ==> regions[i].limit()
            <= regions[j].start || regions[j].limit() <= regions[i].start
}

/// No frame is handed out twice, if the regions do not overlap.
pub proof fn lemma_frames_distinct(regions: Seq<MemoryRegion>, j: int, k: int)
    requires
        addressable(regions),
        regions_apart(regions),
        0 <= j < k < usable_frames(regions).len(),
    ensures
        usable_frames(regions)[j] != usable_frames(regions)[k],
    decreases regions.len(),
{
    let shorter = regions.drop_last();
    let before = usable_frames(shorter);
    let last = regions.len() - 1;
    assert forall|i: int| 0 <= i < shorter.len() implies #[trigger] shorter[i] == regions[i] by {}
    assert(addressable(shorter) && regions_apart(shorter));
    if k < before.len() {
        lemma_frames_distinct(shorter, j, k);
    } else {
        let region = regions[last];
        assert(usable_frames(regions)[k] == region_frames(region)[k - before.len()]);
        assert(region.kind == MemoryKind::Usable);
        if j < before.len() {
            lemma_frames_are_usable(shorter, j);
            let r = choose|r: int|
                {
                    &&& 0 <= r < shorter.len()
                    &&& (#[trigger] shorter[r]).kind == MemoryKind::Usable
                    &&& page_down(shorter[r].start as int) <= before[j] < shorter[r].limit()
                };
            assert(regions[r] == shorter[r]);
        } else {
            assert(usable_frames(regions)[j] == region_frames(region)[j - before.len()]);
        }
    }
}

/// Every address in the range to be mapped is in one of the pages.
pub proof fn lemma_identity_map_covers(map: IdentityMap, address: int)
    requires
        map.wf(),
        map.address <= address < map.end,
    ensures
        exists|i: int|
            0 <= i < map.pages().len() && #[trigger] map.pages()[i] <= address < map.pages()[i]
                + map.step,
{
    let step = map.step as int;
    let i = (address - map.address) / step;
    assert(0 <= i && i * step <= address - map.address < i * step + step && i < map.remaining()
        && map.address + i * step <= address) by (nonlinear_arith)
        requires
            step > 0,
            map.address <= address < map.end,
            i == (address - map.address) / step,
            map.remaining() == (map.end - map.address + step - 1) / step,
    ;
    assert(map.pages()[i] == map.address + i * step);
}

/// The page below the stack's lowest page is none of its pages: overflowing the
/// stack faults instead of silently corrupting memory.
pub proof fn lemma_stack_has_guard_page(index: int)
    requires
        0 <= index < KERNEL_STACK_PAGES,
    ensures
        KERNEL_STACK_START + 4096 * (index + 1) >= KERNEL_STACK_START + 4096,
        KERNEL_STACK_START + 4096 * (index + 1) + 4096 <= KERNEL_STACK_START + 4096 + 512 * 1024,
{
}

/// Every byte of the registers is reachable at the same distance from the
/// virtual start as it has from the physical one.
pub proof fn lemma_mmio_reachable(physical_start: int, length: int, byte: int)
    requires
        0 <= physical_start,
        0 <= byte < length,
    ensures
        ({
            let offset = physical_start % 4096;
            let page = (offset + byte) / 4096;
            let within = (offset + byte) % 4096;
            &&& 0 <= page < (offset + length + 4095) / 4096
            &&& MMIO_START + offset + byte == MMIO_START + 4096 * page + within
            &&& physical_start + byte == page_down(physical_start) + 4096 * page + within
        }),
{
}

} // verus!
