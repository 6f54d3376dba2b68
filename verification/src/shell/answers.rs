//! What the shell prints once its requests were answered.
use vstd::prelude::*;

use crate::net::web::{
    at_tag, byte_index, entity, find_from, html, lemma_entity, page, plain, printable_chars, render,
    with_byte, with_line_break,
};
use crate::pci::Address;
use crate::text::{decimal, hex_byte};
use crate::vga_buffer::{advances, Screen, Writer};

verus! {

/// The answer to a request of the shell.
pub enum Answer {
    /// Where the PCI search found a controller.
    Devices(Option<Address>),
    /// The hardware address of the network interface, and whether its link is up.
    Network(Option<([u8; 6], bool)>),
    /// The response of a server, or why there is none.
    Page(Result<Vec<u8>, &'static str>),
}

pub open spec fn print_devices(s: Screen, found: Option<Address>) -> Screen {
    match found {
        Some(address) => s.print(hex_byte(address.bus)).print(":"@).print(
            hex_byte(address.device),
        ).print("."@).print(decimal(address.function as nat)).print(
            " Intel I225-V Ethernet [8086:15f3]\n"@,
        ),
        None => s.print("Intel I225-V Ethernet [8086:15f3] not found\n"@),
    }
}

pub open spec fn print_network(s: Screen, status: Option<([u8; 6], bool)>) -> Screen {
    match status {
        Some((mac, link)) => print_mac(s.print("QEMU e1000 "@), mac, 6).print(
            if link {
                " link up\n"@
            } else {
                " link down\n"@
            },
        ),
        None => s.print("No initialized Ethernet controller\n"@),
    }
}

/// After `n` bytes of a hardware address, with colons between them.
pub open spec fn print_mac(s: Screen, mac: [u8; 6], n: int) -> Screen
    decreases n,
{
    if n <= 0 {
        s
    } else {
        let before = print_mac(s, mac, n - 1);
        let start = if n > 1 {
            before.print(":"@)
        } else {
            before
        };
        start.print(hex_byte(mac@[n - 1]))
    }
}

pub open spec fn print_page(s: Screen, response: Result<Vec<u8>, &'static str>) -> Screen {
    match response {
        Ok(bytes) => match page(bytes@) {
            Ok(text) => s.print(text).print("\n"@),
            Err(fault) => s.print("browse: "@).print(fault.message()).print("\n"@),
        },
        Err(message) => s.print("browse: "@).print(message@).print("\n"@),
    }
}

pub open spec fn print_answer(s: Screen, answer: Answer) -> Screen {
    match answer {
        Answer::Devices(found) => print_devices(s, found),
        Answer::Network(status) => print_network(s, status),
        Answer::Page(response) => print_page(s, response),
    }
}

/// Lines that are enough to print an answer in.
pub open spec fn answer_lines(answer: Answer) -> int {
    match answer {
        Answer::Page(Ok(bytes)) => 4 * bytes@.len() as int + 300,
        Answer::Page(Err(message)) => 4 * message@.len() as int + 300,
        _ => 300,
    }
}

proof fn lemma_html_len(body: Seq<u8>, hidden: bool, text: Seq<char>)
    ensures
        html(body, hidden, text).len() <= text.len() + body.len(),
    decreases body.len(),
{
    if body.len() > 0 {
        if at_tag(body) {
            let rest = body.skip(byte_index(body, 0x3e) as int + 1);
            lemma_html_len(rest, true, text);
            lemma_html_len(rest, false, text);
            lemma_html_len(rest, hidden, with_line_break(text));
        } else if hidden {
            lemma_html_len(body.skip(1), hidden, text);
        } else {
            lemma_entity(body);
            match entity(body) {
                Some((c, len)) => {
                    lemma_html_len(body.skip(len), hidden, text.push(c));
                },
                None => {
                    lemma_html_len(
                        body.skip(1),
                        hidden,
                        with_byte(text, body[0]),
                    );
                },
            }
        }
    }
}

proof fn lemma_plain_len(bytes: Seq<u8>)
    ensures
        plain(bytes).len() <= bytes.len(),
        printable_chars(bytes).len() <= bytes.len(),
    decreases bytes.len(),
{
    if bytes.len() > 0 {
        lemma_plain_len(bytes.drop_last());
    }
}

proof fn lemma_find_from(bytes: Seq<u8>, word: Seq<char>, i: int)
    requires
        0 <= i,
    ensures
        find_from(bytes, word, i) matches Some(k) ==> 0 <= k && k + word.len()
            <= bytes.len(),
    decreases bytes.len() + 1 - i,
{
    if i <= bytes.len() {
        lemma_find_from(bytes, word, i + 1);
    }
}

/// A page is no longer than the response that brought it.
pub proof fn lemma_page_len(response: Seq<u8>)
    ensures
        page(response) matches Ok(text) ==> text.len() <= response.len(),
{
    reveal_strlit("\r\n\r\n");
    lemma_find_from(response, "\r\n\r\n"@, 0);
    if let Some(header_end) = find_from(response, "\r\n\r\n"@, 0) {
        let header = response.take(header_end);
        let body = response.skip(header_end + 4);
        lemma_find_from(header, "\r\n"@, 0);
        let status = match find_from(header, "\r\n"@, 0) {
            Some(end) => header.take(end),
            None => header,
        };
        lemma_plain_len(status);
        lemma_plain_len(body);
        lemma_html_len(body, false, printable_chars(status).push('\n'));
    }
}

fn write_devices(found: &Option<Address>, writer: &mut Writer)
    requires
        old(writer)@.room(300),
    ensures
        final(writer)@ == print_devices(old(writer)@, *found),
        advances(old(writer)@, final(writer)@, 300),
{
    proof {
        reveal_strlit(":");
        reveal_strlit(".");
        reveal_strlit(" Intel I225-V Ethernet [8086:15f3]\n");
        reveal_strlit("Intel I225-V Ethernet [8086:15f3] not found\n");
    }
    match found {
        Some(address) => {
            writer.write_hex_byte(address.bus);
            writer.write_str(":");
            writer.write_hex_byte(address.device);
            writer.write_str(".");
            writer.write_decimal(address.function as u64);
            writer.write_str(" Intel I225-V Ethernet [8086:15f3]\n");
        },
        None => writer.write_str("Intel I225-V Ethernet [8086:15f3] not found\n"),
    }
}

fn write_network(status: &Option<([u8; 6], bool)>, writer: &mut Writer)
    requires
        old(writer)@.room(300),
    ensures
        final(writer)@ == print_network(old(writer)@, *status),
        advances(old(writer)@, final(writer)@, 300),
{
    proof {
        reveal_strlit("QEMU e1000 ");
        reveal_strlit(" link up\n");
        reveal_strlit(" link down\n");
        reveal_strlit("No initialized Ethernet controller\n");
    }
    match status {
        Some((mac, link)) => {
            writer.write_str("QEMU e1000 ");
            write_mac(mac, writer);
            if *link {
                writer.write_str(" link up\n");
            } else {
                writer.write_str(" link down\n");
            }
        },
        None => writer.write_str("No initialized Ethernet controller\n"),
    }
}

fn write_mac(mac: &[u8; 6], writer: &mut Writer)
    requires
        old(writer)@.room(72),
    ensures
        final(writer)@ == print_mac(old(writer)@, *mac, 6),
        advances(old(writer)@, final(writer)@, 72),
{
    proof {
        reveal_strlit(":");
    }
    let mut i: usize = 0;
    while i < 6
        invariant
            i <= 6,
            ":"@.len() == 1,
            old(writer)@.room(72),
            writer@ == print_mac(old(writer)@, *mac, i as int),
            advances(old(writer)@, writer@, 12 * i),
        decreases 6 - i,
    {
        if i > 0 {
            writer.write_str(":");
        }
        writer.write_hex_byte(mac[i]);
        i += 1;
    }
}

fn write_refusal(message: &str, writer: &mut Writer)
    requires
        old(writer)@.room(4 * message@.len() as int + 100),
    ensures
        final(writer)@ == old(writer)@.print("browse: "@).print(message@).print("\n"@),
        advances(old(writer)@, final(writer)@, 4 * message@.len() as int + 100),
{
    proof {
        reveal_strlit("browse: ");
        reveal_strlit("\n");
    }
    writer.write_str("browse: ");
    writer.write_str(message);
    writer.write_str("\n");
}

/// Print the answer to a request.
pub fn write_answer(answer: &Answer, writer: &mut Writer)
    requires
        old(writer)@.room(answer_lines(*answer)),
    ensures
        final(writer)@ == print_answer(old(writer)@, *answer),
        advances(old(writer)@, final(writer)@, answer_lines(*answer)),
{
    match answer {
        Answer::Devices(found) => write_devices(found, writer),
        Answer::Network(status) => write_network(status, writer),
        Answer::Page(Ok(bytes)) => {
            proof {
                lemma_page_len(bytes@);
                reveal_strlit("\n");
                reveal_strlit("invalid HTTP response");
                reveal_strlit("invalid HTTP status");
            }
            match render(bytes.as_slice()) {
                Ok(text) => {
                    writer.write_str(text.as_str());
                    writer.write_str("\n");
                },
                Err(message) => write_refusal(message, writer),
            }
        },
        Answer::Page(Err(message)) => write_refusal(message, writer),
    }
}

} // verus!
