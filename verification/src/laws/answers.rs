//! What is printed of devices, networks and pages.
use vstd::prelude::*;

use crate::net::web::{page, PageFault};
use crate::pci::Address;
use crate::shell::answers::{print_devices, print_mac, print_network, print_page};
use crate::text::{decimal, hex_byte};
use crate::vga_buffer::{lemma_print_concat, Screen};

verus! {

/// A device is named by bus and device in hexadecimal and its function.
pub proof fn lemma_device_printed(s: Screen, address: Address)
    ensures
        print_devices(s, Some(address)) == s.print(
            hex_byte(address.bus) + seq![':'] + hex_byte(address.device) + seq!['.'] + decimal(
                address.function as nat,
            ) + " Intel I225-V Ethernet [8086:15f3]\n"@,
        ),
        print_devices(s, None) == s.print("Intel I225-V Ethernet [8086:15f3] not found\n"@),
{
    reveal_strlit(":");
    reveal_strlit(".");
    assert(":"@ =~= seq![':'] && "."@ =~= seq!['.']);
    let a = hex_byte(address.bus);
    let b = a + seq![':'];
    let c = b + hex_byte(address.device);
    let d = c + seq!['.'];
    let e = d + decimal(address.function as nat);
    lemma_print_concat(s, a, seq![':']);
    lemma_print_concat(s, b, hex_byte(address.device));
    lemma_print_concat(s, c, seq!['.']);
    lemma_print_concat(s, d, decimal(address.function as nat));
    lemma_print_concat(s, e, " Intel I225-V Ethernet [8086:15f3]\n"@);
}

/// A hardware address: its six bytes in order, with colons between them.
pub open spec fn mac_text(mac: Seq<u8>) -> Seq<char> {
    hex_byte(mac[0]) + seq![':'] + hex_byte(mac[1]) + seq![':'] + hex_byte(mac[2]) + seq![':']
        + hex_byte(mac[3]) + seq![':'] + hex_byte(mac[4]) + seq![':'] + hex_byte(mac[5])
}

/// The network is told by its hardware address and its link.
pub proof fn lemma_network_printed(s: Screen, mac: [u8; 6])
    ensures
        print_network(s, Some((mac, true))) == s.print(
            "QEMU e1000 "@ + mac_text(mac@) + " link up\n"@,
        ),
        print_network(s, Some((mac, false))) == s.print(
            "QEMU e1000 "@ + mac_text(mac@) + " link down\n"@,
        ),
        print_network(s, None) == s.print("No initialized Ethernet controller\n"@),
{
    reveal_strlit(":");
    assert(":"@ =~= seq![':']);
    let start = s.print("QEMU e1000 "@);
    reveal_with_fuel(print_mac, 7);
    let t0 = hex_byte(mac@[0]);
    let t1 = t0 + seq![':'] + hex_byte(mac@[1]);
    let t2 = t1 + seq![':'] + hex_byte(mac@[2]);
    let t3 = t2 + seq![':'] + hex_byte(mac@[3]);
    let t4 = t3 + seq![':'] + hex_byte(mac@[4]);
    let t5 = t4 + seq![':'] + hex_byte(mac@[5]);
    lemma_next(start, t0, hex_byte(mac@[1]));
    lemma_next(start, t1, hex_byte(mac@[2]));
    lemma_next(start, t2, hex_byte(mac@[3]));
    lemma_next(start, t3, hex_byte(mac@[4]));
    lemma_next(start, t4, hex_byte(mac@[5]));
    assert(print_mac(start, mac, 6) == start.print(t5));
    assert(t5 == mac_text(mac@));
    lemma_print_concat(s, "QEMU e1000 "@, t5);
    lemma_print_concat(s, "QEMU e1000 "@ + t5, " link up\n"@);
    lemma_print_concat(s, "QEMU e1000 "@ + t5, " link down\n"@);
}

proof fn lemma_next(s: Screen, before: Seq<char>, digits: Seq<char>)
    ensures
        s.print(before).print(seq![':']).print(digits) == s.print(before + seq![':'] + digits),
{
    lemma_print_concat(s, before, seq![':']);
    lemma_print_concat(s, before + seq![':'], digits);
}

/// A page is printed with a line feed behind it; a failure is told.
pub proof fn lemma_page_printed(s: Screen, bytes: Vec<u8>, message: &'static str)
    ensures
        page(bytes@) matches Ok(text) ==> print_page(s, Ok(bytes)) == s.print(text.push('\n')),
        page(bytes@) == Err::<Seq<char>, PageFault>(PageFault::Response) ==> print_page(
            s,
            Ok(bytes),
        ) == s.print("browse: "@ + PageFault::Response.message() + "\n"@),
        print_page(s, Err(message)) == s.print("browse: "@ + message@ + "\n"@),
{
    reveal_strlit("\n");
    assert("\n"@ =~= seq!['\n']);
    if let Ok(text) = page(bytes@) {
        lemma_print_concat(s, text, "\n"@);
        assert(text + seq!['\n'] =~= text.push('\n'));
    }
    let told = PageFault::Response.message();
    lemma_print_concat(s, "browse: "@, told);
    lemma_print_concat(s, "browse: "@ + told, "\n"@);
    lemma_print_concat(s, "browse: "@, message@);
    lemma_print_concat(s, "browse: "@ + message@, "\n"@);
}

} // verus!
