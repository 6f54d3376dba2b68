//! What processor, bus and devices say.
use vstd::prelude::*;
use vstd::utf8::{decode_utf8, encode_utf8_decode_utf8, valid_utf8};

use crate::boot::{usable_mode, MemoryKind, MemoryRegion, PixelFormat};
use crate::framebuffer::{font_rows, glyph_rows, PixelOrder};
use crate::interrupts::{seconds_in, InterruptIndex, MouseSetup, PortAction};
use crate::memory::has_gib_pages;
use crate::net::e1000::{
    is_linked, is_received, is_resetting, mac_of, program, put, taken, Action, Bringup,
    RxDescriptor, TxDescriptor,
};
use crate::pci::{bar0, function_count, is_absent, with_bus_master, Address, Scan};
use crate::system::{
    brand_bytes, is_padding, is_virtual, label, leaf_word, padding_after, padding_before, trimmed,
    usable_bytes, vendor_bytes, word_byte, Cpuid, CpuidLeaf, Facts, SystemInfo,
};
use crate::text::{chars, decimal};
use crate::vga_buffer::{lemma_print_concat, Screen};

verus! {

/// Four bytes that make up a word, the lowest first.
pub open spec fn make_up(bytes: Seq<u8>, start: int, word: u32) -> bool {
    word == bytes[start] + 256 * bytes[start + 1] + 65536 * bytes[start + 2] + 16777216
        * bytes[start + 3]
}

/// The vendor of a processor is spelled by its second, fourth and third
/// register.
pub proof fn lemma_vendor_spelled(base: CpuidLeaf)
    ensures
        vendor_bytes(base).len() == 12,
        make_up(vendor_bytes(base), 0, base.ebx),
        make_up(vendor_bytes(base), 4, base.edx),
        make_up(vendor_bytes(base), 8, base.ecx),
{
}

/// The brand is spelled by the four registers of three leaves in their order, if
/// the processor has those leaves; else it is empty.
pub proof fn lemma_brand_spelled(cpu: Cpuid, leaf: int)
    requires
        0 <= leaf < 3,
    ensures
        brand_bytes(cpu).len() == 48,
        cpu.extended.eax >= 0x8000_0004 ==> {
            &&& make_up(brand_bytes(cpu), 16 * leaf, cpu.brand@[leaf].eax)
            &&& make_up(brand_bytes(cpu), 16 * leaf + 4, cpu.brand@[leaf].ebx)
            &&& make_up(brand_bytes(cpu), 16 * leaf + 8, cpu.brand@[leaf].ecx)
            &&& make_up(brand_bytes(cpu), 16 * leaf + 12, cpu.brand@[leaf].edx)
        },
        cpu.extended.eax < 0x8000_0004 ==> forall|i: int|
            0 <= i < 48 ==> #[trigger] brand_bytes(cpu)[i] == 0,
{
    if cpu.extended.eax >= 0x8000_0004 {
        lemma_brand_word(cpu, leaf, 0);
        lemma_brand_word(cpu, leaf, 1);
        lemma_brand_word(cpu, leaf, 2);
        lemma_brand_word(cpu, leaf, 3);
    }
}

proof fn lemma_word(bytes: Seq<u8>, start: int, word: u32)
    requires
        bytes[start] == word_byte(word, 0),
        bytes[start + 1] == word_byte(word, 1),
        bytes[start + 2] == word_byte(word, 2),
        bytes[start + 3] == word_byte(word, 3),
    ensures
        make_up(bytes, start, word),
{
}

proof fn lemma_brand_word(cpu: Cpuid, leaf: int, which: int)
    requires
        0 <= leaf < 3,
        0 <= which < 4,
        cpu.extended.eax >= 0x8000_0004,
    ensures
        make_up(brand_bytes(cpu), 16 * leaf + 4 * which, leaf_word(cpu.brand@[leaf], which)),
{
    let start = 16 * leaf + 4 * which;
    let word = leaf_word(cpu.brand@[leaf], which);
    assert forall|k: int| 0 <= k < 4 implies #[trigger] brand_bytes(cpu)[start + k] == word_byte(
        word,
        k,
    ) by {
        assert((start + k) / 16 == leaf);
        assert((start + k) / 4 % 4 == which);
        assert((start + k) % 4 == k);
    }
    assert(brand_bytes(cpu)[start + 0] == word_byte(word, 0));
    lemma_word(brand_bytes(cpu), start, word);
}

/// A machine is virtual if its features are told and the highest bit of the
/// third register is set.
pub proof fn lemma_virtual_machines(cpu: Cpuid)
    ensures
        is_virtual(cpu) == (cpu.base.eax > 0 && cpu.features.ecx as int / 0x8000_0000 == 1),
{
}

/// Only usable regions count as usable memory, each with all its pages of 4096
/// bytes.
pub proof fn lemma_usable_memory(regions: Seq<MemoryRegion>, region: MemoryRegion)
    ensures
        usable_bytes(Seq::empty()) == 0,
        region.kind == MemoryKind::Usable ==> usable_bytes(regions.push(region)) == usable_bytes(
            regions,
        ) + 4096 * region.pages,
        region.kind != MemoryKind::Usable ==> usable_bytes(regions.push(region)) == usable_bytes(
            regions,
        ),
{
    assert(regions.push(region).drop_last() =~= regions);
}

proof fn lemma_padding_before(text: Seq<char>, nul: bool)
    ensures
        ({
            let n = padding_before(text, nul) as int;
            &&& n <= text.len()
            &&& forall|i: int| 0 <= i < n ==> is_padding(#[trigger] text[i], nul)
            &&& n < text.len() ==> !is_padding(text[n], nul)
        }),
    decreases text.len(),
{
    if text.len() > 0 && is_padding(text[0], nul) {
        let rest = text.skip(1);
        lemma_padding_before(rest, nul);
        let n = padding_before(text, nul) as int;
        assert forall|i: int| 0 <= i < n implies is_padding(#[trigger] text[i], nul) by {
            if i > 0 {
                assert(text[i] == rest[i - 1]);
            }
        }
        if n < text.len() {
            assert(text[n] == rest[n - 1]);
        }
    }
}

proof fn lemma_padding_after(text: Seq<char>, nul: bool)
    ensures
        ({
            let n = padding_after(text, nul) as int;
            &&& n <= text.len()
            &&& forall|i: int|
                text.len() - n <= i < text.len() ==> is_padding(#[trigger] text[i], nul)
            &&& n < text.len() ==> !is_padding(text[text.len() - n - 1], nul)
        }),
    decreases text.len(),
{
    if text.len() > 0 && is_padding(text.last(), nul) {
        let rest = text.drop_last();
        lemma_padding_after(rest, nul);
        let n = padding_after(text, nul) as int;
        assert forall|i: int| text.len() - n <= i < text.len() implies is_padding(
            #[trigger] text[i],
            nul,
        ) by {
            if i < text.len() - 1 {
                assert(text[i] == rest[i]);
            }
        }
        if n < text.len() {
            assert(text[text.len() - n - 1] == rest[rest.len() - (n - 1) - 1]);
        }
    }
}

/// Trimming takes padding off both ends and nothing else: what is left neither
/// begins nor ends with padding. Padding is the NUL character, or white space.
pub proof fn lemma_trimmed(text: Seq<char>, nul: bool)
    ensures
        ({
            let rest = trimmed(text, nul);
            let n = padding_before(text, nul) as int;
            &&& n + rest.len() <= text.len()
            &&& rest == text.subrange(n, n + rest.len())
            &&& forall|i: int|
                0 <= i < n || n + rest.len() <= i < text.len() ==> is_padding(
                    #[trigger] text[i],
                    nul,
                )
            &&& rest.len() > 0 ==> !is_padding(rest[0], nul) && !is_padding(rest.last(), nul)
        }),
        is_padding('\0', true),
        !is_padding(' ', true),
        is_padding(' ', false),
        is_padding('\t', false),
        is_padding('\n', false),
        !is_padding('\0', false),
{
    let n = padding_before(text, nul) as int;
    lemma_padding_before(text, nul);
    let rest = text.skip(n);
    lemma_padding_after(rest, nul);
    let m = padding_after(rest, nul) as int;
    let shown = trimmed(text, nul);
    assert(shown =~= text.subrange(n, n + shown.len()));
    assert forall|i: int| 0 <= i < n || n + shown.len() <= i < text.len() implies is_padding(
        #[trigger] text[i],
        nul,
    ) by {
        if i >= n {
            assert(text[i] == rest[i - n]);
        }
    }
    if shown.len() > 0 {
        assert(shown[0] == text[n]);
        assert(shown.last() == rest[rest.len() - m - 1]);
    }
}

proof fn lemma_trimmed_is(
    text: Seq<char>,
    before: Seq<char>,
    core: Seq<char>,
    after: Seq<char>,
    nul: bool,
)
    requires
        text == before + core + after,
        forall|i: int| 0 <= i < before.len() ==> is_padding(#[trigger] before[i], nul),
        forall|i: int| 0 <= i < after.len() ==> is_padding(#[trigger] after[i], nul),
        core.len() > 0,
        !is_padding(core[0], nul),
        !is_padding(core.last(), nul),
    ensures
        trimmed(text, nul) == core,
{
    lemma_trimmed(text, nul);
    let rest = trimmed(text, nul);
    let n = padding_before(text, nul) as int;
    let a = before.len() as int;
    let b = a + core.len();
    assert(text[a] == core[0]);
    assert(text[b - 1] == core.last());
    assert(n <= a && n + rest.len() >= b);
    if n < a {
        assert(rest[0] == text[n]);
        assert(text[n] == before[n]);
    }
    if n + rest.len() > b {
        assert(rest.last() == text[n + rest.len() - 1]);
        assert(text[n + rest.len() - 1] == after[n + rest.len() - 1 - b]);
    }
    assert(rest =~= core);
}

/// A processor goes by its brand without the spaces around it and the NULs that
/// fill it up, or, where the brand is all NULs, by its vendor.
pub proof fn lemma_processor_name(
    info: SystemInfo,
    before: Seq<u8>,
    core: Seq<u8>,
    after: Seq<u8>,
    fill: Seq<u8>,
)
    requires
        info.brand@ == before + core + after + fill,
        forall|i: int| 0 <= i < before.len() ==> #[trigger] before[i] == 0x20,
        forall|i: int| 0 <= i < after.len() ==> #[trigger] after[i] == 0x20,
        forall|i: int| 0 <= i < fill.len() ==> #[trigger] fill[i] == 0,
        forall|i: int| 0 <= i < core.len() ==> 0x20 <= #[trigger] core[i] <= 0x7e,
        core.len() > 0 ==> core[0] != 0x20 && core.last() != 0x20,
        core.len() == 0 ==> before.len() == 0 && after.len() == 0,
        forall|i: int| 0 <= i < 12 ==> #[trigger] info.vendor@[i] < 128,
    ensures
        core.len() > 0 ==> info.name() == chars(core),
        core.len() == 0 ==> info.name() == chars(info.vendor@),
{
    let bytes = info.brand@;
    assert forall|i: int| 0 <= i < bytes.len() implies #[trigger] bytes[i] < 128 by {
        let a = before.len() as int;
        let b = a + core.len();
        let c = b + after.len();
        if i < a {
            assert(bytes[i] == before[i]);
        } else if i < b {
            assert(bytes[i] == core[i - a]);
        } else if i < c {
            assert(bytes[i] == after[i - b]);
        } else {
            assert(bytes[i] == fill[i - c]);
        }
    }
    lemma_decoded(bytes);
    let text = chars(bytes);
    if core.len() > 0 {
        let inner = before + core + after;
        assert(text =~= Seq::<char>::empty() + chars(inner) + chars(fill));
        assert(chars(inner)[0] != '\0') by {
            if before.len() > 0 {
                assert(inner[0] == before[0]);
            } else {
                assert(inner[0] == core[0]);
            }
        }
        assert(chars(inner).last() != '\0') by {
            if after.len() > 0 {
                assert(inner.last() == after[after.len() - 1]);
            } else {
                assert(inner.last() == core[core.len() - 1]);
            }
        }
        lemma_trimmed_is(text, Seq::empty(), chars(inner), chars(fill), true);
        assert(chars(inner) =~= chars(before) + chars(core) + chars(after));
        assert(core[core.len() - 1] == core.last());
        lemma_trimmed_is(chars(inner), chars(before), chars(core), chars(after), false);
    } else {
        assert(bytes =~= fill);
        lemma_trimmed(text, true);
        let rest = trimmed(text, true);
        if rest.len() > 0 {
            let n = padding_before(text, true) as int;
            assert(rest[0] == text[n]);
            assert(fill[n] == 0);
        }
        lemma_trimmed(rest, false);
        assert(trimmed(rest, false).len() == 0);
        assert forall|i: int| 0 <= i < info.vendor@.len() implies #[trigger] info.vendor@[i]
            < 128 by {}
        lemma_decoded(info.vendor@);
    }
}

proof fn lemma_decoded(bytes: Seq<u8>)
    requires
        forall|i: int| 0 <= i < bytes.len() ==> #[trigger] bytes[i] < 128,
    ensures
        valid_utf8(bytes),
        decode_utf8(bytes) == chars(bytes),
{
    crate::text::lemma_ascii_bytes(bytes);
    encode_utf8_decode_utf8(chars(bytes));
}

/// The display of the system tells memory in whole units of 1024 times 1024
/// bytes, what is allocated in bytes and the heap in units of 1024 bytes, each on
/// its line.
pub proof fn lemma_memory_displayed(
    info: SystemInfo,
    s: Screen,
    facts: Facts,
    mebibytes: nat,
    kibibytes: nat,
)
    requires
        1048576 * mebibytes <= info.usable_memory < 1048576 * mebibytes + 1048576,
        1024 * kibibytes <= facts.heap_size < 1024 * kibibytes + 1024,
    ensures
        label(7) == "RAM (boot usable)"@,
        info.print_value(s, 7, facts) == s.print(decimal(mebibytes) + " MiB"@),
        label(8) == "Heap (payload)"@,
        info.print_value(s, 8, facts) == s.print(
            decimal(facts.requested_bytes as nat) + " B / "@ + decimal(kibibytes) + " KiB"@,
        ),
{
    assert(info.usable_memory / 1024 / 1024 == mebibytes);
    assert(facts.heap_size / 1024 == kibibytes);
    lemma_print_concat(s, decimal(mebibytes), " MiB"@);
    let a = decimal(facts.requested_bytes as nat);
    lemma_print_concat(s, a, " B / "@);
    lemma_print_concat(s, a + " B / "@, decimal(kibibytes));
    lemma_print_concat(s, a + " B / "@ + decimal(kibibytes), " KiB"@);
}

/// It tells the processor by the first 48 characters of its name, the platform
/// by whether the machine is virtual, and the time since the start.
pub proof fn lemma_machine_displayed(
    info: SystemInfo,
    s: Screen,
    facts: Facts,
    hours: nat,
    minutes: nat,
    seconds: nat,
)
    requires
        facts.uptime_seconds == 3600 * hours + 60 * minutes + seconds,
        minutes < 60,
        seconds < 60,
    ensures
        label(4) == "CPU"@,
        info.name().len() <= 48 ==> info.print_value(s, 4, facts) == s.print(info.name()),
        info.name().len() > 48 ==> info.print_value(s, 4, facts) == s.print(info.name().take(48)),
        label(5) == "Platform"@,
        info.virtualized ==> info.print_value(s, 5, facts) == s.print("Virtual machine"@),
        !info.virtualized ==> info.print_value(s, 5, facts) == s.print("PC"@),
        label(6) == "Uptime"@,
        info.print_value(s, 6, facts) == s.print(
            decimal(hours) + "h "@ + decimal(minutes) + "m "@ + decimal(seconds) + "s"@,
        ),
        label(2) == "OS"@,
        info.print_value(s, 2, facts) == s.print("CrabOS 0.1.0 x86_64"@),
{
    assert(info.name().take(info.name().len() as int) =~= info.name());
    crate::laws::output::lemma_durations_add_up(s, hours, minutes, seconds, facts.uptime_seconds);
    reveal_strlit("CrabOS ");
    reveal_strlit("0.1.0");
    reveal_strlit(" x86_64");
    reveal_strlit("CrabOS 0.1.0 x86_64");
    lemma_print_concat(s, "CrabOS "@, "0.1.0"@);
    lemma_print_concat(s, "CrabOS "@ + "0.1.0"@, " x86_64"@);
    assert("CrabOS "@ + "0.1.0"@ + " x86_64"@ =~= "CrabOS 0.1.0 x86_64"@);
}

/// Ticks of 11 932 periods of a clock of 1 193 182 hertz make up whole seconds,
/// and less than one more.
pub proof fn lemma_seconds(ticks: int, later: int)
    requires
        0 <= ticks <= later,
    ensures
        1_193_182 * seconds_in(ticks) <= 11_932 * ticks,
        11_932 * ticks < 1_193_182 * (seconds_in(ticks) + 1),
        seconds_in(ticks) <= seconds_in(later),
        seconds_in(ticks + 1_193_182) == seconds_in(ticks) + 11_932,
{
}

/// A function is absent if the low half of its register has all bits set.
/// A device has eight functions if bit 23 of its header word is set, else one.
pub proof fn lemma_bus_words(value: u32)
    ensures
        is_absent(value) == (value as int % 65536 == 65535),
        value as int / 8_388_608 % 2 == 1 ==> function_count(value) == 8,
        value as int / 8_388_608 % 2 == 0 ==> function_count(value) == 1,
{
    assert((value & 0xffff == 0xffff) == (value % 65536 == 65535)) by (bit_vector);
    assert((value & 0x0080_0000 != 0) == (value / 8_388_608 % 2 == 1)) by (bit_vector);
}

/// Registers in memory begin at a multiple of sixteen; the low four bits of the
/// first word say only what they are: an odd word that they are elsewhere, and a
/// four in it that the second word holds the high half.
pub proof fn lemma_base_addresses(low: u32, high: u32)
    ensures
        low % 2 == 1 ==> bar0(low, high) is None,
        low % 2 == 0 && low % 8 == 4 ==> bar0(low, high) == Some(
            (0x1_0000_0000 * high + (low - low % 16)) as u64,
        ),
        low % 2 == 0 && low % 8 != 4 ==> bar0(low, high) == Some((low - low % 16) as u64),
{
    assert((low / 2 % 4 == 2) == (low % 8 == 4 || low % 8 == 5));
    assert(low / 16 * 16 == low - low % 16);
}

/// Enabling a function sets the second and third bit of its command and no
/// other.
pub proof fn lemma_bus_master(command: u32)
    ensures
        with_bus_master(command) as int / 2 % 4 == 3,
        with_bus_master(command) as int % 2 == command as int % 2,
        with_bus_master(command) as int / 8 == command as int / 8,
{
    assert((command | 6) / 2 % 4 == 3) by (bit_vector);
    assert((command | 6) % 2 == command % 2) by (bit_vector);
    assert((command | 6) / 8 == command / 8) by (bit_vector);
}

/// A search goes through a device's functions one by one and then to the next
/// device: it reads the number of a function, and its header where it asks how
/// many there are.
pub proof fn lemma_search_order(bus: u8, device: u8, value: u32, id: u32)
    requires
        device < 32,
    ensures
        ({
            let scan = Scan::Device { bus, device };
            &&& scan.asks() == Some((Address { bus, device, function: 0 }, 0u8))
            &&& value as int % 65536 == 65535 && device < 31 ==> scan.step(value, id).asks()
                == Some((Address { bus, device: (device + 1) as u8, function: 0 }, 0u8))
            &&& value as int % 65536 == 65535 && device == 31 && bus < 255 ==> scan.step(
                value,
                id,
            ).asks() == Some((Address { bus: (bus + 1) as u8, device: 0, function: 0 }, 0u8))
            &&& value as int % 65536 == 65535 && device == 31 && bus == 255 ==> scan.step(
                value,
                id,
            ) == Scan::Missing
            &&& value as int % 65536 != 65535 ==> scan.step(value, id).asks() == Some(
                (Address { bus, device, function: 0 }, 12u8),
            )
        }),
        ({
            let header = Scan::Header { bus, device };
            let several = value as int / 8_388_608 % 2 == 1;
            let count: u8 = if several {
                8
            } else {
                1
            };
            header.step(value, id) == (Scan::Function {
                address: Address { bus, device, function: 0 },
                count,
            })
        }),
{
    lemma_bus_words(value);
}

/// At each function a search reads its number: it ends where that is the one
/// wanted, and else goes on with the next function, as long as there is one.
pub proof fn lemma_functions_compared(address: Address, count: u8, value: u32, id: u32)
    requires
        address.valid(),
        address.function < count <= 8,
    ensures
        ({
            let scan = Scan::Function { address, count };
            let next = Address { function: (address.function + 1) as u8, ..address };
            &&& scan.asks() == Some((address, 0u8))
            &&& value == id ==> scan.step(value, id) == Scan::Found(address)
            &&& value != id && address.function + 1 < count ==> scan.step(value, id)
                == (Scan::Function { address: next, count })
            &&& value != id && address.function + 1 == count && address.device < 31 ==> scan.step(
                value,
                id,
            ) == (Scan::Device { bus: address.bus, device: (address.device + 1) as u8 })
        }),
{
}

/// The interrupts are lines 0, 1 and 12 of controllers whose vectors begin at 32.
pub proof fn lemma_interrupt_vectors()
    ensures
        InterruptIndex::Timer.number() == 32 + 0,
        InterruptIndex::Keyboard.number() == 32 + 1,
        InterruptIndex::Mouse.number() == 32 + 12,
{
}

/// A hardware address is six bytes that make up a word and the low half of
/// another, the lowest first.
pub proof fn lemma_hardware_address(low: u32, high: u32)
    ensures
        mac_of(low, high).len() == 6,
        make_up(mac_of(low, high), 0, low),
        high as int % 65536 == mac_of(low, high)[4] + 256 * mac_of(low, high)[5],
{
}

/// The link is up by the second bit of the status; a reset goes on while bit 26
/// of the control word is set; a packet came in whole by the second bit of its
/// status, with no error and within its buffer.
pub proof fn lemma_adapter_bits(word: u32, descriptor: RxDescriptor)
    ensures
        is_linked(word) == (word as int / 2 % 2 == 1),
        is_resetting(word) == (word as int / 67_108_864 % 2 == 1),
        is_received(descriptor) == (descriptor.status as int / 2 % 2 == 1 && descriptor.errors == 0
            && descriptor.length <= 2048),
{
    assert((word & 2 != 0) == (word / 2 % 2 == 1)) by (bit_vector);
    assert((word & (1u32 << 26) != 0) == (word / 67_108_864 % 2 == 1)) by (bit_vector);
    let status = descriptor.status;
    assert((status & 2 != 0) == (status / 2 % 2 == 1)) by (bit_vector);
}

/// A reset is started by setting bit 26 of the control word, and the link by
/// setting bit 6, each with the other bits as they were read.
pub proof fn lemma_control_bits(mac: [u8; 6], control: u32)
    ensures
        (Bringup::StartReset { control }).asks() matches Action::Write(register, word) && register
            == 0 && word as int == control + 67_108_864 * (1 - control as int / 67_108_864 % 2),
        (Bringup::SetLink { mac, control }).asks() matches Action::Write(register, word) && register
            == 0 && word as int == control + 64 * (1 - control as int / 64 % 2),
{
    assert((control | (1u32 << 26)) == control + 67_108_864 * (1 - control / 67_108_864 % 2))
        by (bit_vector);
    assert((control | (1u32 << 6)) == control + 64 * (1 - control / 64 % 2)) by (bit_vector);
}

/// A reset is awaited for a hundred thousand looks at most, and has failed if it
/// goes on even then.
pub proof fn lemma_reset_is_awaited(polls: u32, value: u32, next: Bringup)
    requires
        polls < 100_000,
    ensures
        ({
            let resets = value as int / 67_108_864 % 2 == 1;
            let waiting = Bringup::AwaitReset { polls };
            &&& waiting.follows(value, next) ==> {
                &&& resets && polls < 99_999 ==> next == (Bringup::AwaitReset {
                    polls: (polls + 1) as u32,
                })
                &&& !resets || polls == 99_999 ==> next == Bringup::CheckReset
            }
            &&& Bringup::CheckReset.follows(value, next) ==> (next is Failed == resets)
            &&& Bringup::CheckReset.follows(value, next) && !resets ==> next == Bringup::MaskAfter
        }),
{
    assert((value & (1u32 << 26) != 0) == (value / 67_108_864 % 2 == 1)) by (bit_vector);
}

/// A hardware address counts only if the highest bit of its second word is set.
pub proof fn lemma_address_is_checked(low: u32, value: u32, next: Bringup)
    requires
        (Bringup::ReadHigh { low }).follows(value, next),
    ensures
        value < 0x8000_0000 ==> next is Failed,
        value >= 0x8000_0000 ==> (next matches Bringup::ReadLink { mac } && mac@ == mac_of(
            low,
            value,
        )),
{
    assert((value & (1u32 << 31) == 0) == (value < 0x8000_0000)) by (bit_vector);
}

/// Setting up the mouse waits at its third, eleventh and sixteenth step until
/// the lowest bit of the controller's status says that a byte is there, and at
/// its sixth, ninth and fourteenth until the next bit says that one can be sent;
/// every other step is done at once. The mouse is enabled, told to take its
/// defaults and to report, and only the interrupts in use are let through.
pub proof fn lemma_mouse_steps(setup: MouseSetup, value: u8)
    requires
        setup.step < 18,
    ensures
        ({
            let after = setup.after(value);
            let step = setup.step;
            let reads = step == 2 || step == 10 || step == 15;
            let sends = step == 5 || step == 8 || step == 13;
            let held = reads && value as int % 2 == 0 || sends && value as int / 2 % 2 == 1;
            &&& held ==> after == setup
            &&& !held ==> after.step == step + 1
            &&& step != 3 ==> after.config == setup.config
            &&& step == 3 ==> {
                &&& after.config as int / 2 % 2 == 1
                &&& after.config as int / 32 % 2 == 0
                &&& after.config as int % 2 == value as int % 2
                &&& after.config as int / 4 % 8 == value as int / 4 % 8
                &&& after.config as int / 64 == value as int / 64
            }
            &&& reads || sends ==> setup.asks() == PortAction::Read(0x64)
            &&& step == 0 ==> setup.asks() == PortAction::Write(0x64, 0xa8)
            &&& step == 1 ==> setup.asks() == PortAction::Write(0x64, 0x20)
            &&& step == 3 || step == 11 || step == 16 ==> setup.asks() == PortAction::Read(0x60)
            &&& step == 4 ==> setup.asks() == PortAction::Write(0x64, 0x60)
            &&& step == 6 ==> setup.asks() == PortAction::Write(0x60, setup.config)
            &&& step == 7 || step == 12 ==> setup.asks() == PortAction::Write(0x64, 0xd4)
            &&& step == 9 ==> setup.asks() == PortAction::Write(0x60, 0xf6)
            &&& step == 14 ==> setup.asks() == PortAction::Write(0x60, 0xf4)
            &&& step == 17 ==> setup.asks() == PortAction::Masks(0xf8, 0xef)
        }),
{
    assert((value & 1 == 0) == (value % 2 == 0)) by (bit_vector);
    assert((value & 2 != 0) == (value / 2 % 2 == 1)) by (bit_vector);
    assert(((value | 2u8) & 0xdfu8) / 2 % 2 == 1 && ((value | 2u8) & 0xdfu8) / 32 % 2 == 0 && ((
    value | 2u8) & 0xdfu8) % 2 == value % 2 && ((value | 2u8) & 0xdfu8) / 4 % 8 == value / 4 % 8
        && ((value | 2u8) & 0xdfu8) / 64 == value / 64) by (bit_vector);
}

/// Pages of a gibibyte are told by bit 26 of a leaf that the processor has.
pub proof fn lemma_large_pages(highest: u32, features: u32)
    ensures
        has_gib_pages(highest, features) == (highest > 0x8000_0000 && features as int / 67_108_864
            % 2 == 1),
{
    assert((features & (1u32 << 26) != 0) == (features / 67_108_864 % 2 == 1)) by (bit_vector);
}

/// The rings are told to the adapter by both halves of their places, each of
/// eight descriptors of sixteen bytes; all receive slots but one are free, and no
/// send slot is in use.
pub proof fn lemma_rings_programmed(rx: u64, tx: u64)
    ensures
        ({
            let words = program(rx, tx);
            &&& words[0].0 == 0x2800 && words[1].0 == 0x2804 && rx == words[0].1 + 0x1_0000_0000
                * words[1].1
            &&& words[5].0 == 0x3800 && words[6].0 == 0x3804 && tx == words[5].1 + 0x1_0000_0000
                * words[6].1
            &&& words[2].0 == 0x2808 && words[2].1 == 8 * 16
            &&& words[7].0 == 0x3808 && words[7].1 == 8 * 16
            &&& words[3] == (0x2810u32, 0u32) && words[4] == (0x2818u32, 7u32)
            &&& words[8] == (0x3810u32, 0u32) && words[9] == (0x3818u32, 0u32)
            &&& words[10] == (0x0410u32, 0u32)
            &&& words[11].0 == 0x0400 && words[11].1 == 2 + 8 + 16 * 15 + 4096 * 64
            &&& words[12].0 == 0x0100 && words[12].1 == 2 + 32_768 + 67_108_864
            &&& words.len() == 13
        }),
{
    assert(2u32 | (1u32 << 3u32) | (15u32 << 4u32) | (64u32 << 12u32) == 2 + 8 + 16 * 15 + 4096
        * 64) by (bit_vector);
    assert(2u32 | (1u32 << 15u32) | (1u32 << 26u32) == 2 + 32_768 + 67_108_864) by (bit_vector);
}

/// The adapter's registers, by what is done with them: all interrupts are masked
/// before and after the reset, the control word is the first register, and the
/// hardware address is in two registers of its own.
pub proof fn lemma_adapter_registers(low: u32, polls: u32, mac: [u8; 6])
    ensures
        Bringup::MaskBefore.asks() == Action::Write(0xd8, 0xffff_ffff),
        Bringup::MaskAfter.asks() == Bringup::MaskBefore.asks(),
        Bringup::ReadControl.asks() == Action::Read(0),
        (Bringup::AwaitReset { polls }).asks() == Action::Read(0),
        Bringup::CheckReset.asks() == Action::Read(0),
        (Bringup::ReadLink { mac }).asks() == Action::Read(0),
        Bringup::ReadLow.asks() == Action::Read(0x5400),
        (Bringup::ReadHigh { low }).asks() == Action::Read(0x5404),
        (Bringup::Locate { mac }).asks() == Action::Locate,
        (Bringup::Ready { mac }).asks() == Action::Nothing,
{
}

/// An adapter is brought up step by step: nothing is skipped, what was read is
/// what is written back with its bit, and all words of the rings are written in
/// their order before the adapter is ready.
pub proof fn lemma_adapter_steps(
    value: u32,
    next: Bringup,
    control: u32,
    mac: [u8; 6],
    rx: u64,
    tx: u64,
    index: usize,
)
    requires
        index < 13,
    ensures
        Bringup::MaskBefore.follows(value, next) ==> next == Bringup::ReadControl,
        Bringup::ReadControl.follows(value, next) ==> next == (Bringup::StartReset {
            control: value,
        }),
        (Bringup::StartReset { control }).follows(value, next) ==> next == (Bringup::AwaitReset {
            polls: 0,
        }),
        Bringup::MaskAfter.follows(value, next) ==> next == Bringup::ReadLow,
        Bringup::ReadLow.follows(value, next) ==> next == (Bringup::ReadHigh { low: value }),
        (Bringup::ReadLink { mac }).follows(value, next) ==> next == (Bringup::SetLink {
            mac,
            control: value,
        }),
        (Bringup::SetLink { mac, control }).follows(value, next) ==> next == (Bringup::Locate {
            mac,
        }),
        ({
            let writing = Bringup::Program { mac, rx, tx, index };
            let (register, word) = program(rx, tx)[index as int];
            &&& writing.asks() == Action::Write(register, word)
            &&& writing.follows(value, next) && index < 12 ==> next == (Bringup::Program {
                mac,
                rx,
                tx,
                index: (index + 1) as usize,
            })
            &&& writing.follows(value, next) && index == 12 ==> next == (Bringup::Ready { mac })
        }),
{
}

/// Packets are taken slot after slot: nothing while the next slot is not done,
/// else its bytes, and the slot is free again and is the new tail. No other slot
/// changes.
pub proof fn lemma_packets_taken_in_order(
    next: int,
    ring: Seq<RxDescriptor>,
    packets: Seq<[u8; 2048]>,
)
    requires
        0 <= next < 8,
        ring.len() == 8,
        packets.len() == 8,
    ensures
        ({
            let (then, slots, packet, tail) = taken(next, ring, packets);
            let done = ring[next].status as int % 2 == 1;
            &&& !done ==> then == next && slots == ring && packet is None && tail is None
            &&& done ==> {
                &&& then == next + 1 || next == 7 && then == 0
                &&& tail == Some(next as u32)
                &&& slots.len() == 8 && slots[next].status as int % 2 == 0
                &&& slots[next].address == ring[next].address
                &&& forall|i: int| 0 <= i < 8 && i != next ==> #[trigger] slots[i] == ring[i]
                &&& packet matches Some(bytes) ==> bytes.len() == ring[next].length && forall|
                    k: int,
                |
                    0 <= k < bytes.len() ==> #[trigger] bytes[k] == packets[next]@[k]
                &&& packet is Some == (ring[next].status as int / 2 % 2 == 1 && ring[next].errors
                    == 0 && ring[next].length <= 2048)
            }
        }),
{
    let status = ring[next].status;
    assert((status & 1 == 0) == (status % 2 == 0)) by (bit_vector);
    lemma_adapter_bits(0, ring[next]);
}

/// Packets are put slot after slot: nothing while the next slot is in use or if
/// the packet is longer than a buffer, else the slot holds the packet's length,
/// asks to be sent and reported, and is in use.
pub proof fn lemma_packets_put_in_order(next: int, ring: Seq<TxDescriptor>, packet: Seq<u8>)
    requires
        0 <= next < 8,
        ring.len() == 8,
    ensures
        ({
            let (then, slots, front, tail) = put(next, ring, packet);
            let free = ring[next].status as int % 2 == 1 && packet.len() <= 2048;
            &&& !free ==> then == next && slots == ring && front.len() == 0 && tail is None
            &&& free ==> {
                &&& then == next + 1 || next == 7 && then == 0
                &&& tail == Some(then as u32)
                &&& front == packet
                &&& slots.len() == 8 && slots[next].length == packet.len()
                &&& slots[next].status as int % 2 == 0
                &&& slots[next].command == 1 + 2 + 8
                &&& slots[next].address == ring[next].address
                &&& forall|i: int| 0 <= i < 8 && i != next ==> #[trigger] slots[i] == ring[i]
            }
        }),
{
    let status = ring[next].status;
    assert((status & 1 == 0) == (status % 2 == 0)) by (bit_vector);
}

/// Of the graphics modes, those with whole pixels are used, each with its own
/// order of colors.
pub proof fn lemma_graphics_modes(
    format: PixelFormat,
    address: u64,
    size: usize,
    width: usize,
    height: usize,
    stride: usize,
)
    ensures
        ({
            let found = usable_mode(format, address, size, width, height, stride);
            &&& format == PixelFormat::Bitmask || format == PixelFormat::BltOnly ==> found is None
            &&& found matches Some(info) ==> {
                &&& info.is_valid()
                &&& format == PixelFormat::Rgb ==> info.order == PixelOrder::Rgb
                &&& format == PixelFormat::Bgr ==> info.order == PixelOrder::Bgr
                &&& info.address == address && info.size == size && info.width == width
                &&& info.height == height && info.stride == stride
            }
            &&& (format == PixelFormat::Rgb || format == PixelFormat::Bgr) && address > 0 && address
                % 4 == 0 && 0 < width <= stride && height > 0 && stride * height * 4 <= size
                ==> found is Some
        }),
{
}

/// Visible characters have the shapes of the font and control characters show
/// nothing; the block for unknown characters is the same
/// read from either side and from above or below.
pub proof fn lemma_special_glyphs(character: u8, row: int)
    requires
        0 <= row < 8,
    ensures
        0x20 <= character <= 0x7e ==> glyph_rows(character) == font_rows(character),
        character < 0x20 || character == 0x7f ==> glyph_rows(character)[row] == 0,
        character > 0x7f && character != 0xfa && character != 0xfe ==> glyph_rows(character)[row]
            == 0,
        glyph_rows(0xfe)[row] == glyph_rows(0xfe)[7 - row],
        glyph_rows(0xfe)[row] == 0 || glyph_rows(0xfe)[row] == 4 + 8 + 16 + 32,
        glyph_rows(0xfe)[3] != 0,
        glyph_rows(0xfa)[row] == 0 || glyph_rows(0xfa)[row] == 8 + 16,
        (glyph_rows(0xfa)[row] != 0) == (row == 3 || row == 4),
{
}

} // verus!
