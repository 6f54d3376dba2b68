//! Facts collected from the firmware and processor, with no guessed hardware.
use vstd::prelude::*;
use vstd::utf8::{
    decode_utf8, decode_utf8_encode_utf8, encode_utf8_decode_utf8, valid_utf8,
};

use crate::boot::{MemoryKind, MemoryRegion};
use crate::text::decimal;
use crate::vga_buffer::{advances, Color, Screen, Writer};

verus! {

pub const VERSION: &'static str = "0.1.0";

/// The registers in which the CPUID instruction answers.
#[derive(Clone, Copy, Debug)]
pub struct CpuidLeaf {
    pub eax: u32,
    pub ebx: u32,
    pub ecx: u32,
    pub edx: u32,
}

/// What CPUID answers to the requests that identify a processor.
#[derive(Clone, Copy, Debug)]
pub struct Cpuid {
    /// Leaf 0: the highest basic leaf, and the vendor.
    pub base: CpuidLeaf,
    /// Leaf 1: the feature bits.
    pub features: CpuidLeaf,
    /// Leaf 0x8000_0000: the highest extended leaf.
    pub extended: CpuidLeaf,
    /// Leaves 0x8000_0002 to 0x8000_0004: the brand.
    pub brand: [CpuidLeaf; 3],
}

/// What changes while the system runs.
#[derive(Clone, Copy, Debug)]
pub struct Facts {
    pub uptime_seconds: u64,
    pub heap_size: u64,
    pub requested_bytes: u64,
}

/// Byte `i` of a word, the lowest first.
pub open spec fn word_byte(word: u32, i: int) -> u8 {
    if i == 0 {
        (word % 0x100) as u8
    } else if i == 1 {
        (word / 0x100 % 0x100) as u8
    } else if i == 2 {
        (word / 0x1_0000 % 0x100) as u8
    } else {
        (word / 0x100_0000) as u8
    }
}

pub fn byte_of_word(word: u32, i: usize) -> (byte: u8)
    requires
        i < 4,
    ensures
        byte == word_byte(word, i as int),
{
    if i == 0 {
        (word % 0x100) as u8
    } else if i == 1 {
        (word / 0x100 % 0x100) as u8
    } else if i == 2 {
        (word / 0x1_0000 % 0x100) as u8
    } else {
        (word / 0x100_0000) as u8
    }
}

pub open spec fn leaf_word(leaf: CpuidLeaf, i: int) -> u32 {
    if i == 0 {
        leaf.eax
    } else if i == 1 {
        leaf.ebx
    } else if i == 2 {
        leaf.ecx
    } else {
        leaf.edx
    }
}

/// The vendor spelled by leaf 0.
pub open spec fn vendor_bytes(base: CpuidLeaf) -> Seq<u8> {
    Seq::new(
        12,
        |i: int|
            word_byte(
                if i < 4 {
                    base.ebx
                } else if i < 8 {
                    base.edx
                } else {
                    base.ecx
                },
                i % 4,
            ),
    )
}

/// The brand spelled by the three brand leaves, all zero where the processor
/// has none.
pub open spec fn brand_bytes(cpu: Cpuid) -> Seq<u8> {
    Seq::new(
        48,
        |i: int|
            if cpu.extended.eax >= 0x8000_0004 {
                word_byte(leaf_word(cpu.brand@[i / 16], i / 4 % 4), i % 4)
            } else {
                0
            },
    )
}

/// The bytes in the usable regions.
pub open spec fn usable_bytes(regions: Seq<MemoryRegion>) -> int
    decreases regions.len(),
{
    if regions.len() == 0 {
        0
    } else {
        usable_bytes(regions.drop_last()) + if regions.last().kind == MemoryKind::Usable {
            regions.last().pages * 4096
        } else {
            0
        }
    }
}

/// The characters that Unicode counts as white space.
pub open spec fn is_white_space(c: char) -> bool {
    let n = c as int;
    ||| 0x09 <= n <= 0x0d
    ||| n == 0x20
    ||| n == 0x85
    ||| n == 0xa0
    ||| n == 0x1680
    ||| 0x2000 <= n <= 0x200a
    ||| n == 0x2028
    ||| n == 0x2029
    ||| n == 0x202f
    ||| n == 0x205f
    ||| n == 0x3000
}

/// NUL characters, or white space.
pub open spec fn is_padding(c: char, nul: bool) -> bool {
    if nul {
        c == '\0'
    } else {
        is_white_space(c)
    }
}

/// The number of padding characters at the start of a text.
pub open spec fn padding_before(text: Seq<char>, nul: bool) -> nat
    decreases text.len(),
{
    if text.len() > 0 && is_padding(text[0], nul) {
        1 + padding_before(text.skip(1), nul)
    } else {
        0
    }
}

/// The number of padding characters at the end of a text.
pub open spec fn padding_after(text: Seq<char>, nul: bool) -> nat
    decreases text.len(),
{
    if text.len() > 0 && is_padding(text.last(), nul) {
        1 + padding_after(text.drop_last(), nul)
    } else {
        0
    }
}

/// A text without the padding at its ends.
pub open spec fn trimmed(text: Seq<char>, nul: bool) -> Seq<char> {
    let rest = text.skip(padding_before(text, nul) as int);
    rest.take(rest.len() - padding_after(rest, nul))
}

/// The text that bytes hold, empty where they are not UTF-8.
pub open spec fn text_of(bytes: Seq<u8>) -> Seq<char> {
    if valid_utf8(bytes) {
        decode_utf8(bytes)
    } else {
        Seq::empty()
    }
}

fn is_padding_char(c: char, nul: bool) -> (padding: bool)
    ensures
        padding == is_padding(c, nul),
{
    if nul {
        c == '\0'
    } else {
        let n: u32 = c as u32;
        (n >= 0x09 && n <= 0x0d) || n == 0x20 || n == 0x85 || n == 0xa0 || n == 0x1680 || (n
            >= 0x2000 && n <= 0x200a) || n == 0x2028 || n == 0x2029 || n == 0x202f || n == 0x205f
            || n == 0x3000
    }
}

fn trim(text: &str, nul: bool) -> (rest: &str)
    ensures
        rest@ == trimmed(text@, nul),
{
    let len: usize = text.unicode_len();
    let mut start: usize = 0;
    assert(text@.skip(0) =~= text@);
    while start < len && is_padding_char(text.get_char(start), nul)
        invariant
            start <= len,
            len == text@.len(),
            padding_before(text@, nul) == start + padding_before(text@.skip(start as int), nul),
        decreases len - start,
    {
        assert(text@.skip(start as int).skip(1) =~= text@.skip(start + 1));
        start += 1;
    }
    let ghost rest = text@.skip(start as int);
    let mut end: usize = len;
    assert(rest.take(rest.len() as int) =~= rest);
    while end > start && is_padding_char(text.get_char(end - 1), nul)
        invariant
            start <= end <= len,
            len == text@.len(),
            rest == text@.skip(start as int),
            padding_after(rest, nul) == len - end + padding_after(rest.take(end - start), nul),
        decreases end,
    {
        assert(rest.take(end - start).drop_last() =~= rest.take(end - start - 1));
        end -= 1;
    }
    let shown = text.substring_char(start, end);
    assert(shown@ =~= trimmed(text@, nul));
    shown
}

#[derive(Clone, Copy)]
pub struct SystemInfo {
    pub usable_memory: u64,
    pub vendor: [u8; 12],
    pub brand: [u8; 48],
    pub virtualized: bool,
}

pub open spec fn logo(index: int) -> Seq<char> {
    if index == 0 {
        "                    "@
    } else if index == 1 {
        "     _     _        "@
    } else if index == 2 {
        "    (v)   (v)       "@
    } else if index == 3 {
        "     \\_____ /       "@
    } else if index == 4 {
        "   __/ o o \\__      "@
    } else if index == 5 {
        "  / _\\_____/ _\\     "@
    } else if index == 6 {
        "  \\ \\|     |/ /     "@
    } else if index == 7 {
        "   \\_|_____|_/      "@
    } else if index == 8 {
        "    / /   \\ \\       "@
    } else if index == 9 {
        "   /_/     \\_\\      "@
    } else if index == 10 {
        "                    "@
    } else {
        "      C R A B       "@
    }
}

fn logo_line(index: usize) -> (line: &'static str)
    requires
        index < 12,
    ensures
        line@ == logo(index as int),
        line@.len() == 20,
{
    proof {
        reveal_strlit("                    ");
        reveal_strlit("     _     _        ");
        reveal_strlit("    (v)   (v)       ");
        reveal_strlit("     \\_____ /       ");
        reveal_strlit("   __/ o o \\__      ");
        reveal_strlit("  / _\\_____/ _\\     ");
        reveal_strlit("  \\ \\|     |/ /     ");
        reveal_strlit("   \\_|_____|_/      ");
        reveal_strlit("    / /   \\ \\       ");
        reveal_strlit("   /_/     \\_\\      ");
        reveal_strlit("      C R A B       ");
    }
    match index {
        0 => "                    ",
        1 => "     _     _        ",
        2 => "    (v)   (v)       ",
        3 => "     \\_____ /       ",
        4 => "   __/ o o \\__      ",
        5 => "  / _\\_____/ _\\     ",
        6 => "  \\ \\|     |/ /     ",
        7 => "   \\_|_____|_/      ",
        8 => "    / /   \\ \\       ",
        9 => "   /_/     \\_\\      ",
        10 => "                    ",
        _ => "      C R A B       ",
    }
}

pub open spec fn label(index: int) -> Seq<char> {
    if index == 0 {
        "shaolin@crabos"@
    } else if index == 1 {
        "------------"@
    } else if index == 2 {
        "OS"@
    } else if index == 3 {
        "Kernel"@
    } else if index == 4 {
        "CPU"@
    } else if index == 5 {
        "Platform"@
    } else if index == 6 {
        "Uptime"@
    } else if index == 7 {
        "RAM (boot usable)"@
    } else if index == 8 {
        "Heap (payload)"@
    } else if index == 9 {
        "Shell"@
    } else if index == 10 {
        "Terminal"@
    } else {
        ""@
    }
}

fn label_of(index: usize) -> (text: &'static str)
    requires
        index < 12,
    ensures
        text@ == label(index as int),
        text@.len() <= 20,
{
    proof {
        reveal_strlit("shaolin@crabos");
        reveal_strlit("------------");
        reveal_strlit("OS");
        reveal_strlit("Kernel");
        reveal_strlit("CPU");
        reveal_strlit("Platform");
        reveal_strlit("Uptime");
        reveal_strlit("RAM (boot usable)");
        reveal_strlit("Heap (payload)");
        reveal_strlit("Shell");
        reveal_strlit("Terminal");
        reveal_strlit("");
    }
    match index {
        0 => "shaolin@crabos",
        1 => "------------",
        2 => "OS",
        3 => "Kernel",
        4 => "CPU",
        5 => "Platform",
        6 => "Uptime",
        7 => "RAM (boot usable)",
        8 => "Heap (payload)",
        9 => "Shell",
        10 => "Terminal",
        _ => "",
    }
}

/// Hours, minutes and seconds.
pub open spec fn print_duration(s: Screen, seconds: u64) -> Screen {
    s.print(decimal((seconds / 3600) as nat)).print("h "@).print(
        decimal((seconds / 60 % 60) as nat),
    ).print("m "@).print(decimal((seconds % 60) as nat)).print("s"@)
}

pub fn write_duration(writer: &mut Writer, seconds: u64)
    requires
        old(writer)@.room(260),
    ensures
        final(writer)@ == print_duration(old(writer)@, seconds),
        advances(old(writer)@, final(writer)@, 260),
{
    proof {
        reveal_strlit("h ");
        reveal_strlit("m ");
        reveal_strlit("s");
    }
    writer.write_decimal(seconds / 3600);
    writer.write_str("h ");
    writer.write_decimal(seconds / 60 % 60);
    writer.write_str("m ");
    writer.write_decimal(seconds % 60);
    writer.write_str("s");
}

/// The bars in eight colors at the end of the display.
pub open spec fn bar_color(i: int) -> Color {
    if i == 0 {
        Color::Red
    } else if i == 1 {
        Color::Green
    } else if i == 2 {
        Color::Brown
    } else if i == 3 {
        Color::Blue
    } else if i == 4 {
        Color::Magenta
    } else if i == 5 {
        Color::Cyan
    } else if i == 6 {
        Color::LightGray
    } else {
        Color::White
    }
}

fn color_of_bar(i: usize) -> (color: Color)
    ensures
        color == bar_color(i as int),
{
    match i {
        0 => Color::Red,
        1 => Color::Green,
        2 => Color::Brown,
        3 => Color::Blue,
        4 => Color::Magenta,
        5 => Color::Cyan,
        6 => Color::LightGray,
        _ => Color::White,
    }
}

pub open spec fn print_bars(s: Screen, count: int) -> Screen
    decreases count,
{
    if count <= 0 {
        s
    } else {
        let color = bar_color(count - 1);
        print_bars(s, count - 1).colored(color, color).print("   "@)
    }
}

fn write_bars(writer: &mut Writer)
    requires
        old(writer)@.room(96),
    ensures
        final(writer)@ == print_bars(old(writer)@, 8),
        advances(old(writer)@, final(writer)@, 96),
{
    proof {
        reveal_strlit("   ");
    }
    let mut i: usize = 0;
    while i < 8
        invariant
            i <= 8,
            old(writer)@.room(96),
            "   "@.len() == 3,
            writer@ == print_bars(old(writer)@, i as int),
            advances(old(writer)@, writer@, 12 * i),
        decreases 8 - i,
    {
        let color: Color = color_of_bar(i);
        writer.set_color(color, color);
        writer.write_str("   ");
        i += 1;
    }
}

/// Whether the features say that a hypervisor runs the processor.
pub open spec fn is_virtual(cpu: Cpuid) -> bool {
    cpu.base.eax >= 1 && cpu.features.ecx >= 0x8000_0000
}

impl SystemInfo {
    pub fn new(regions: &[MemoryRegion], cpu: &Cpuid) -> (info: SystemInfo)
        requires
            usable_bytes(regions@) <= u64::MAX,
        ensures
            info.usable_memory == usable_bytes(regions@),
            info.vendor@ == vendor_bytes(cpu.base),
            info.brand@ == brand_bytes(*cpu),
            info.virtualized == (cpu.base.eax >= 1 && cpu.features.ecx >= 0x8000_0000),
            info.virtualized == is_virtual(*cpu),
    {
        let mut usable: u64 = 0;
        let mut i: usize = 0;
        assert(regions@.take(0) =~= Seq::<MemoryRegion>::empty());
        while i < regions.len()
            invariant
                i <= regions@.len(),
                usable_bytes(regions@) <= u64::MAX,
                usable == usable_bytes(regions@.take(i as int)),
            decreases regions@.len() - i,
        {
            let region: MemoryRegion = regions[i];
            proof {
                assert(regions@.take(i + 1).drop_last() =~= regions@.take(i as int));
                lemma_usable_prefix(regions@, (i + 1) as int);
                lemma_usable_prefix(regions@.take(i + 1), i as int);
                lemma_usable_nonnegative(regions@.take(i as int));
            }
            if let MemoryKind::Usable = region.kind {
                usable += region.pages * 4096;
            }
            i += 1;
        }
        assert(regions@.take(i as int) =~= regions@);
        let base: CpuidLeaf = cpu.base;
        let mut vendor: [u8; 12] = [0; 12];
        let mut k: usize = 0;
        while k < 12
            invariant
                k <= 12,
                forall|j: int| 0 <= j < k ==> vendor@[j] == vendor_bytes(base)[j],
            decreases 12 - k,
        {
            let word: u32 = if k < 4 {
                base.ebx
            } else if k < 8 {
                base.edx
            } else {
                base.ecx
            };
            vendor[k] = byte_of_word(word, k % 4);
            k += 1;
        }
        let mut brand: [u8; 48] = [0; 48];
        if cpu.extended.eax >= 0x8000_0004 {
            let mut n: usize = 0;
            while n < 48
                invariant
                    n <= 48,
                    cpu.extended.eax >= 0x8000_0004,
                    forall|j: int| 0 <= j < n ==> brand@[j] == brand_bytes(*cpu)[j],
                decreases 48 - n,
            {
                let leaf: CpuidLeaf = cpu.brand[n / 16];
                let which: usize = n / 4 % 4;
                let word: u32 = if which == 0 {
                    leaf.eax
                } else if which == 1 {
                    leaf.ebx
                } else if which == 2 {
                    leaf.ecx
                } else {
                    leaf.edx
                };
                brand[n] = byte_of_word(word, n % 4);
                n += 1;
            }
        }
        assert(vendor@ =~= vendor_bytes(base));
        assert(brand@ =~= brand_bytes(*cpu));
        SystemInfo {
            usable_memory: usable,
            vendor,
            brand,
            virtualized: cpu.base.eax >= 1 && cpu.features.ecx >= 0x8000_0000,
        }
    }

    /// The processor's name: its brand, or else its vendor.
    pub open spec fn name(&self) -> Seq<char> {
        let brand = trimmed(trimmed(text_of(self.brand@), true), false);
        if brand.len() > 0 {
            brand
        } else if valid_utf8(self.vendor@) {
            decode_utf8(self.vendor@)
        } else {
            "Unknown x86_64 CPU"@
        }
    }

    pub fn cpu_name(&self) -> (name: &str)
        ensures
            name@ == self.name(),
            name@.len() > 0,
    {
        proof {
            lemma_name_not_empty(*self);
        }
        let brand: &str = match core::str::from_utf8(self.brand.as_slice()) {
            Ok(text) => {
                proof {
                    encode_utf8_decode_utf8(text@);
                }
                text
            },
            Err(_) => {
                proof {
                    reveal_strlit("");
                    assert(""@ =~= Seq::<char>::empty());
                }
                ""
            },
        };
        let name: &str = trim(trim(brand, true), false);
        if name.unicode_len() > 0 {
            return name;
        }
        match core::str::from_utf8(self.vendor.as_slice()) {
            Ok(text) => {
                proof {
                    encode_utf8_decode_utf8(text@);
                }
                text
            },
            Err(_) => "Unknown x86_64 CPU",
        }
    }

    /// The value shown on a line of the display.
    pub open spec fn print_value(&self, s: Screen, index: int, facts: Facts) -> Screen {
        if index == 2 {
            s.print("CrabOS "@).print(VERSION@).print(" x86_64"@)
        } else if index == 3 {
            s.print("CrabOS-kern"@)
        } else if index == 4 {
            s.print(
                self.name().take(
                    if self.name().len() < 48 {
                        self.name().len() as int
                    } else {
                        48
                    },
                ),
            )
        } else if index == 5 {
            s.print(
                if self.virtualized {
                    "Virtual machine"@
                } else {
                    "PC"@
                },
            )
        } else if index == 6 {
            print_duration(s, facts.uptime_seconds)
        } else if index == 7 {
            s.print(decimal((self.usable_memory / 1024 / 1024) as nat)).print(" MiB"@)
        } else if index == 8 {
            s.print(decimal(facts.requested_bytes as nat)).print(" B / "@).print(
                decimal((facts.heap_size / 1024) as nat),
            ).print(" KiB"@)
        } else if index == 9 {
            s.print("crabsh (built-in)"@)
        } else if index == 10 {
            s.print("VGA 80x25 / PS/2"@)
        } else if index == 11 {
            print_bars(s, 8)
        } else {
            s
        }
    }

    pub open spec fn print_line(&self, s: Screen, index: int, facts: Facts) -> Screen {
        let titled = s.colored(Color::LightRed, Color::Black).print(logo(index)).print(
            "  "@,
        ).colored(Color::LightCyan, Color::Black).print(label(index));
        let open = if 2 <= index <= 10 {
            titled.colored(Color::LightGray, Color::Black).print(": "@)
        } else {
            titled
        };
        self.print_value(open, index, facts).colored(Color::LightGray, Color::Black).print("\n"@)
    }

    pub open spec fn print_lines(&self, s: Screen, count: int, facts: Facts) -> Screen
        decreases count,
    {
        if count <= 0 {
            s
        } else {
            self.print_line(self.print_lines(s, count - 1, facts), count - 1, facts)
        }
    }

    /// The whole display: twelve lines and an empty one.
    pub open spec fn print_fastfetch(&self, s: Screen, facts: Facts) -> Screen {
        self.print_lines(s, 12, facts).print("\n"@)
    }

    fn write_value(&self, writer: &mut Writer, index: usize, facts: &Facts)
        requires
            index < 12,
            old(writer)@.room(300),
        ensures
            final(writer)@ == self.print_value(old(writer)@, index as int, *facts),
            advances(old(writer)@, final(writer)@, 300),
    {
        proof {
            reveal_strlit("CrabOS ");
            reveal_strlit("0.1.0");
            reveal_strlit(" x86_64");
            reveal_strlit("CrabOS-kern");
            reveal_strlit("Virtual machine");
            reveal_strlit("PC");
            reveal_strlit(" MiB");
            reveal_strlit(" B / ");
            reveal_strlit(" KiB");
            reveal_strlit("crabsh (built-in)");
            reveal_strlit("VGA 80x25 / PS/2");
        }
        if index == 2 {
            writer.write_str("CrabOS ");
            writer.write_str(VERSION);
            writer.write_str(" x86_64");
        } else if index == 3 {
            writer.write_str("CrabOS-kern");
        } else if index == 4 {
            let name: &str = self.cpu_name();
            let len: usize = name.unicode_len();
            let shown: usize = if len < 48 {
                len
            } else {
                48
            };
            let text = name.substring_char(0, shown);
            assert(text@ =~= self.name().take(shown as int));
            writer.write_str(text);
        } else if index == 5 {
            if self.virtualized {
                writer.write_str("Virtual machine");
            } else {
                writer.write_str("PC");
            }
        } else if index == 6 {
            write_duration(writer, facts.uptime_seconds);
        } else if index == 7 {
            writer.write_decimal(self.usable_memory / 1024 / 1024);
            writer.write_str(" MiB");
        } else if index == 8 {
            writer.write_decimal(facts.requested_bytes);
            writer.write_str(" B / ");
            writer.write_decimal(facts.heap_size / 1024);
            writer.write_str(" KiB");
        } else if index == 9 {
            writer.write_str("crabsh (built-in)");
        } else if index == 10 {
            writer.write_str("VGA 80x25 / PS/2");
        } else if index == 11 {
            write_bars(writer);
        }
    }

    fn write_line(&self, writer: &mut Writer, index: usize, facts: &Facts)
        requires
            index < 12,
            old(writer)@.room(500),
        ensures
            final(writer)@ == self.print_line(old(writer)@, index as int, *facts),
            advances(old(writer)@, final(writer)@, 500),
    {
        proof {
            reveal_strlit("  ");
            reveal_strlit(": ");
            reveal_strlit("\n");
        }
        writer.set_color(Color::LightRed, Color::Black);
        writer.write_str(logo_line(index));
        writer.write_str("  ");
        writer.set_color(Color::LightCyan, Color::Black);
        writer.write_str(label_of(index));
        if index >= 2 && index <= 10 {
            writer.set_color(Color::LightGray, Color::Black);
            writer.write_str(": ");
        }
        self.write_value(writer, index, facts);
        writer.set_color(Color::LightGray, Color::Black);
        writer.write_str("\n");
    }

    /// Show the logo with what is known of the system.
    pub fn fastfetch(&self, facts: &Facts, writer: &mut Writer)
        requires
            old(writer)@.room(6100),
        ensures
            final(writer)@ == self.print_fastfetch(old(writer)@, *facts),
            advances(old(writer)@, final(writer)@, 6100),
    {
        proof {
            reveal_strlit("\n");
        }
        let mut index: usize = 0;
        while index < 12
            invariant
                index <= 12,
                old(writer)@.room(6100),
                writer@ == self.print_lines(old(writer)@, index as int, *facts),
                advances(old(writer)@, writer@, 500 * index),
            decreases 12 - index,
        {
            self.write_line(writer, index, facts);
            index += 1;
        }
        writer.write_str("\n");
    }
}

/// A processor always has a name to show.
pub proof fn lemma_name_not_empty(info: SystemInfo)
    ensures
        info.name().len() > 0,
{
    reveal_strlit("Unknown x86_64 CPU");
    if valid_utf8(info.vendor@) {
        decode_utf8_encode_utf8(info.vendor@);
    }
}

proof fn lemma_usable_nonnegative(regions: Seq<MemoryRegion>)
    ensures
        usable_bytes(regions) >= 0,
    decreases regions.len(),
{
    if regions.len() > 0 {
        lemma_usable_nonnegative(regions.drop_last());
    }
}

proof fn lemma_usable_prefix(regions: Seq<MemoryRegion>, n: int)
    requires
        0 <= n <= regions.len(),
    ensures
        usable_bytes(regions.take(n)) <= usable_bytes(regions),
    decreases regions.len(),
{
    if n == regions.len() {
        assert(regions.take(n) =~= regions);
    } else {
        lemma_usable_prefix(regions.drop_last(), n);
        assert(regions.drop_last().take(n) =~= regions.take(n));
    }
}

} // verus!
