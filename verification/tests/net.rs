use crab_os::net::e1000::{
    fill_rings, Action, Bringup, RxDescriptor, TxDescriptor, E1000, PACKET_SIZE, RESET_POLLS,
};
use crab_os::net::web::{render, render_html, request, Url};
use crab_os::net::{init, status};

#[test]
fn parses_http_url_and_renders_html() {
    let url = Url::parse("http://example.com:8080/a").ok().unwrap();
    assert_eq!(url.host, "example.com");
    assert_eq!(url.port, 8080);
    assert_eq!(url.path, "/a");
    assert!(Url::parse("https://example.com").is_err());
    let rendered = render(b"HTTP/1.0 200 OK\r\nContent-Type: text/html\r\n\r\n<h1>Hello &amp; world</h1><script>ignore</script><p>CrabOS</p>").unwrap();
    assert!(rendered.contains("Hello & world"));
    assert!(rendered.contains("CrabOS"));
    assert!(!rendered.contains("ignore"));
}

#[test]
fn urls_have_defaults() {
    let url = Url::parse("http://crab.example").ok().unwrap();
    assert_eq!((url.host, url.port, url.path), ("crab.example", 80, "/"));
    let url = Url::parse("http://a-b.c:+0081/x?y=1").ok().unwrap();
    assert_eq!((url.host, url.port, url.path), ("a-b.c", 81, "/x?y=1"));
}

#[test]
fn bad_urls_name_their_fault() {
    let fault = |input| Url::parse(input).err().unwrap();
    assert_eq!(fault("ftp://a/"), "use an http:// URL");
    assert_eq!(fault("http:/"), "use an http:// URL");
    assert_eq!(fault("http://a:/"), "invalid HTTP port");
    assert_eq!(fault("http://a:65536/"), "invalid HTTP port");
    assert_eq!(fault("http://a:-1/"), "invalid HTTP port");
    assert_eq!(fault("http://a:+/"), "invalid HTTP port");
    assert_eq!(fault("http://a:0/"), "invalid HTTP URL");
    assert_eq!(fault("http:///x"), "invalid HTTP URL");
    assert_eq!(fault("http://a_b/"), "invalid HTTP URL");
    assert_eq!(fault("http://a/x#y"), "invalid HTTP URL");
    assert_eq!(fault("http://a/x y"), "invalid HTTP URL");
    assert_eq!(fault("http://a:1:2x/"), "invalid HTTP port");
    assert_eq!(fault("http://a:1:2/"), "invalid HTTP URL");
}

#[test]
fn requests_name_the_host() {
    let url = Url::parse("http://example.com/a").ok().unwrap();
    assert_eq!(
        request(&url),
        "GET /a HTTP/1.0\r\nHost: example.com\r\nConnection: close\r\n\r\n"
    );
}

#[test]
fn responses_without_header_or_status_are_refused() {
    assert_eq!(render(b"HTTP/1.0 200 OK\r\n").unwrap_err(), "invalid HTTP response");
    assert_eq!(render(b"ICY 200 OK\r\n\r\n").unwrap_err(), "invalid HTTP status");
}

#[test]
fn plain_bodies_keep_printable_bytes() {
    let shown = render(b"HTTP/1.1 404 Not\x07 Found\r\nServer: x\r\n\r\na\tb\r\n\x00c\xff").unwrap();
    assert_eq!(shown, "HTTP/1.1 404 Not Found\na\tb\nc");
}

#[test]
fn html_is_declared_in_any_case() {
    let shown = render(b"HTTP/1.0 200 OK\r\nCONTENT-Type: TEXT/html; x\r\n\r\na  b\n c").unwrap();
    assert_eq!(shown, "HTTP/1.0 200 OK\na b c");
}

#[test]
fn html_tags_and_entities() {
    let body = "<title>T</title>\n<BR><div class=x>1 &lt; 2 &gt; 0 &quot;q&quot;&nbsp;&copy;</DIV>a<b";
    let response = format!("HTTP/1.0 200 OK\r\ncontent-type: text/html\r\n\r\n{body}");
    let shown = render(response.as_bytes()).unwrap();
    assert_eq!(shown, "HTTP/1.0 200 OK\nT\n1 < 2 > 0 \"q\" &copy;\na<b");
}

#[test]
fn scripts_and_styles_are_not_shown() {
    let body = "a<STYLE type=x>p { }</style>b<script>if x </script>c<style>rest &amp;";
    let response = format!("HTTP/1.0 200 OK\r\ncontent-type: text/html\r\n\r\n{body}");
    assert_eq!(render(response.as_bytes()).unwrap(), "HTTP/1.0 200 OK\nabc");
}

#[test]
fn adapter_registers_are_found_by_its_base_address() {
    assert_eq!(init(None), Ok(None));
    assert_eq!(init(Some(Some(0xfebc_0000))), Ok(Some(0xfebc_0000)));
    assert_eq!(init(Some(Some(0))), Err("e1000 BAR0 is missing"));
    assert_eq!(init(Some(None)), Err("e1000 BAR0 is missing"));
}

/// Run a bring-up against registers that `read` gives; collect the writes.
fn bring_up(
    read: impl Fn(u32, usize) -> u32,
    rings: Option<(u64, u64)>,
) -> (Result<E1000, &'static str>, Vec<(u32, u32)>) {
    let mut state = Bringup::new();
    let mut writes = Vec::new();
    let mut reads = 0;
    loop {
        match state.action() {
            Action::Read(register) => {
                state = state.step(read(register, reads));
                reads += 1;
            }
            Action::Write(register, value) => {
                writes.push((register, value));
                state = state.step(0);
            }
            Action::Locate => state = state.located(rings),
            Action::Nothing => return (E1000::new(state), writes),
        }
    }
}

fn healthy(register: u32, reads: usize) -> u32 {
    match register {
        0x0000 => {
            if (1..4).contains(&reads) {
                1 << 26
            } else {
                0x0100
            }
        }
        0x5400 => 0x1200_5452,
        0x5404 => 0x8000_5634,
        _ => 0,
    }
}

#[test]
fn adapter_comes_up_with_its_address() {
    let (device, writes) = bring_up(healthy, Some((0x1_2345_6000, 0x7000)));
    let device = device.ok().unwrap();
    assert_eq!(device.mac(), [0x52, 0x54, 0x00, 0x12, 0x34, 0x56]);
    assert_eq!(
        writes,
        [
            (0xd8, u32::MAX),
            (0x0000, 0x0100 | 1 << 26),
            (0xd8, u32::MAX),
            (0x0000, 0x0100 | 1 << 6),
            (0x2800, 0x2345_6000),
            (0x2804, 1),
            (0x2808, 128),
            (0x2810, 0),
            (0x2818, 7),
            (0x3800, 0x7000),
            (0x3804, 0),
            (0x3808, 128),
            (0x3810, 0),
            (0x3818, 0),
            (0x0410, 0),
            (0x0400, 2 | (1 << 3) | (15 << 4) | (64 << 12)),
            (0x0100, 2 | (1 << 15) | (1 << 26)),
        ]
    );
    assert_eq!(status(Some(&device), 2), Some(([0x52, 0x54, 0x00, 0x12, 0x34, 0x56], true)));
    assert_eq!(status(None, 2), None);
}

#[test]
fn adapter_failures_are_named() {
    assert_eq!(bring_up(|_, _| 1 << 26, None).0.err(), Some("e1000 reset timed out"));
    let no_address = |register, reads| {
        if register == 0x5404 {
            0x5634
        } else {
            healthy(register, reads)
        }
    };
    assert_eq!(bring_up(no_address, None).0.err(), Some("e1000 MAC address is invalid"));
    assert_eq!(bring_up(healthy, None).0.err(), Some("DMA address is not mapped"));
    assert_eq!(E1000::new(Bringup::new()).err(), Some("e1000 is not up yet"));
}

#[test]
fn a_reset_is_polled_to_its_limit() {
    let polls = RESET_POLLS as usize;
    let slow = |register, reads| {
        if register == 0 && reads >= 1 && reads <= polls {
            1 << 26
        } else {
            healthy(register, 100)
        }
    };
    assert!(bring_up(slow, Some((0, 0))).0.is_ok());
}

fn adapter() -> E1000 {
    E1000 { rx_next: 0, tx_next: 0, mac: [0; 6] }
}

#[test]
fn received_packets_leave_the_ring_in_order() {
    let mut device = adapter();
    let mut packets = [[0u8; 2048]; 8];
    packets[0][..3].copy_from_slice(&[1, 2, 3]);
    let mut ring = [RxDescriptor::new(0x1000); 8];
    assert_eq!(device.receive_packet(&mut ring, &packets), (None, None));
    ring[0].status = 3;
    ring[0].length = 3;
    assert_eq!(device.receive_packet(&mut ring, &packets), (Some(vec![1, 2, 3]), Some(0)));
    assert_eq!(ring[0].status, 0);
    assert_eq!(device.rx_next, 1);
    ring[1].status = 3;
    ring[1].errors = 1;
    assert_eq!(device.receive_packet(&mut ring, &packets), (None, Some(1)));
    ring[2].status = 1;
    assert_eq!(device.receive_packet(&mut ring, &packets), (None, Some(2)));
    device.rx_next = 7;
    ring[7].status = 3;
    ring[7].length = 2049;
    assert_eq!(device.receive_packet(&mut ring, &packets), (None, Some(7)));
    assert_eq!(device.rx_next, 0);
}

#[test]
fn sent_packets_fill_the_ring() {
    let mut device = adapter();
    let mut packets = [[0xeeu8; 2048]; 8];
    let mut ring = [TxDescriptor::new(0x1000); 8];
    assert_eq!(device.send_packet(&mut ring, &mut packets, &[7, 8]), Some(1));
    assert_eq!(&packets[0][..3], &[7, 8, 0xee]);
    assert_eq!((ring[0].length, ring[0].command, ring[0].status), (2, 11, 0));
    assert_eq!(device.send_packet(&mut ring, &mut packets, &[0; PACKET_SIZE + 1]), None);
    device.tx_next = 7;
    assert_eq!(device.send_packet(&mut ring, &mut packets, &[]), Some(0));
    assert_eq!(device.send_packet(&mut ring, &mut packets, &[1]), None);
    assert_eq!(device.tx_next, 0);
}

#[test]
fn rings_need_every_address() {
    let addresses = [Some(0x2000u64); 8];
    let (rx, tx) = fill_rings(&addresses, &addresses).unwrap();
    assert_eq!(rx[7], RxDescriptor::new(0x2000));
    assert_eq!(tx[0].status, 1);
    let mut missing = addresses;
    missing[5] = None;
    assert!(fill_rings(&addresses, &missing).is_none());
    assert!(fill_rings(&missing, &addresses).is_none());
}

#[test]
fn html_starts_from_any_output() {
    let mut output = String::new();
    render_html(b"<p>a &amp;lt; b</p>c < d", &mut output);
    assert_eq!(output, "\na &lt; b\nc < d");
    let mut output = String::new();
    render_html(b"  x", &mut output);
    assert_eq!(output, " x");
    let mut output = String::from("end ");
    render_html(b" y", &mut output);
    assert_eq!(output, "end y");
}
