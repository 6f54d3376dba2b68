//! How the addresses of pages are read.
use vstd::prelude::*;

use crate::laws::numbers::{digit_worth, worth};
use crate::net::web::{
    first_index, is_digit, is_host, is_path, last_index, number, port_in, port_of, request_text,
    url_of, UrlFault, UrlText,
};

verus! {

/// A host: letters, digits, dots and hyphens, and at least one of them.
pub open spec fn is_host_name(text: Seq<char>) -> bool {
    text.len() > 0 && forall|i: int|
        0 <= i < text.len() ==> {
            let c = #[trigger] text[i];
            ||| 'a' <= c && c <= 'z'
            ||| 'A' <= c && c <= 'Z'
            ||| '0' <= c && c <= '9'
            ||| c == '.'
            ||| c == '-'
        }
}

/// A path of visible ASCII characters, none of which begins a fragment.
pub open spec fn is_plain_path(text: Seq<char>) -> bool {
    forall|i: int|
        0 <= i < text.len() ==> '!' <= #[trigger] text[i] && text[i] <= '~' && text[i] != '#'
}

/// Digits, at least one.
pub open spec fn are_digits(text: Seq<char>) -> bool {
    text.len() > 0 && forall|i: int|
        0 <= i < text.len() ==> '0' <= #[trigger] text[i] && text[i] <= '9'
}

pub open spec fn lacks(text: Seq<char>, c: char) -> bool {
    forall|i: int| 0 <= i < text.len() ==> #[trigger] text[i] != c
}

/// An address, put together: the scheme, a host, a colon and a port if there is
/// one, and a path.
pub open spec fn address(host: Seq<char>, port: Option<Seq<char>>, path: Seq<char>) -> Seq<char> {
    match port {
        Some(digits) => "http://"@ + host + seq![':'] + digits + path,
        None => "http://"@ + host + path,
    }
}

proof fn lemma_first_of_parts(a: Seq<char>, b: Seq<char>, c: char)
    requires
        lacks(a, c),
        b.len() == 0 || b[0] == c,
    ensures
        first_index(a + b, c) == a.len(),
    decreases a.len(),
{
    if a.len() > 0 {
        assert(a[0] != c);
        let shorter = a.skip(1);
        assert forall|i: int| 0 <= i < shorter.len() implies #[trigger] shorter[i] != c by {
            assert(a[i + 1] != c);
        }
        lemma_first_of_parts(shorter, b, c);
        assert((a + b).skip(1) =~= shorter + b);
        assert((a + b)[0] == a[0]);
    } else {
        assert(a + b =~= b);
    }
}

proof fn lemma_last_absent(a: Seq<char>, c: char)
    requires
        lacks(a, c),
    ensures
        last_index(a, c) == -1,
    decreases a.len(),
{
    if a.len() > 0 {
        assert(a[a.len() - 1] != c);
        let shorter = a.drop_last();
        assert forall|i: int| 0 <= i < shorter.len() implies #[trigger] shorter[i] != c by {
            assert(a[i] != c);
        }
        lemma_last_absent(shorter, c);
    }
}

proof fn lemma_last_of_parts(a: Seq<char>, b: Seq<char>, c: char)
    requires
        lacks(b, c),
    ensures
        last_index(a + seq![c] + b, c) == a.len(),
    decreases b.len(),
{
    let whole = a + seq![c] + b;
    if b.len() > 0 {
        assert(b[b.len() - 1] != c);
        let shorter = b.drop_last();
        assert forall|i: int| 0 <= i < shorter.len() implies #[trigger] shorter[i] != c by {
            assert(b[i] != c);
        }
        lemma_last_of_parts(a, shorter, c);
        assert(whole.drop_last() =~= a + seq![c] + shorter);
        assert(whole.last() == b.last());
    } else {
        assert(whole =~= a + seq![c]);
        assert(whole.last() == c);
    }
}

proof fn lemma_number(digits: Seq<char>)
    requires
        forall|i: int| 0 <= i < digits.len() ==> '0' <= #[trigger] digits[i] && digits[i] <= '9',
    ensures
        number(digits) == worth(digits, 10),
        number(digits) >= 0,
    decreases digits.len(),
{
    if digits.len() > 0 {
        let shorter = digits.drop_last();
        assert forall|i: int| 0 <= i < shorter.len() implies '0' <= #[trigger] shorter[i]
            && shorter[i] <= '9' by {
            assert(digits[i] == shorter[i]);
        }
        lemma_number(shorter);
        let last = digits[digits.len() - 1];
        assert('0' <= last && last <= '9');
        assert(digit_worth(last) == last as int - 0x30);
    }
}

proof fn lemma_classes(text: Seq<char>)
    ensures
        is_host(text) == is_host_name(text),
        is_path(text) == is_plain_path(text),
{
    if is_host_name(text) {
        assert forall|i: int| 0 <= i < text.len() implies crate::net::web::is_host_char(
            #[trigger] text[i],
        ) by {
            let c = text[i];
        }
    }
    if is_host(text) {
        assert forall|i: int| 0 <= i < text.len() implies {
            let c = #[trigger] text[i];
            ||| 'a' <= c && c <= 'z'
            ||| 'A' <= c && c <= 'Z'
            ||| '0' <= c && c <= '9'
            ||| c == '.'
            ||| c == '-'
        } by {
            assert(crate::net::web::is_host_char(text[i]));
        }
    }
    if is_path(text) {
        assert forall|i: int| 0 <= i < text.len() implies '!' <= #[trigger] text[i] && text[i]
            <= '~' && text[i] != '#' by {
            assert(crate::net::web::is_path_char(text[i]));
        }
    }
    if is_plain_path(text) {
        assert forall|i: int| 0 <= i < text.len() implies crate::net::web::is_path_char(
            #[trigger] text[i],
        ) by {
            assert('!' <= text[i]);
        }
    }
}

proof fn lemma_port(digits: Seq<char>)
    ensures
        are_digits(digits) && worth(digits, 10) <= 65535 ==> port_in(digits) == Some(
            worth(digits, 10) as u16,
        ) && worth(digits, 10) >= 0,
        !are_digits(digits) || worth(digits, 10) > 65535 ==> port_in(digits) is None,
        are_digits(digits) ==> digits[0] != '+',
{
    if are_digits(digits) {
        lemma_number(digits);
        assert forall|i: int| 0 <= i < digits.len() implies is_digit(#[trigger] digits[i]) by {
            assert('0' <= digits[i]);
        }
        assert('0' <= digits[0]);
    } else if digits.len() > 0 {
        let i = choose|i: int|
            0 <= i < digits.len() && !('0' <= #[trigger] digits[i] && digits[i] <= '9');
        assert(!is_digit(digits[i]));
    }
}

/// An address is read into the parts that it was put together from: host, port
/// and path. Without a port, it is 80; without a path, it is a slash. A port that
/// is no number of 16 bits is refused as such; an address with port zero, no
/// host, or a character that host or path cannot have is refused.
pub proof fn lemma_addresses_are_read(host: Seq<char>, port: Option<Seq<char>>, path: Seq<char>)
    requires
        lacks(host, '/'),
        port matches Some(digits) ==> lacks(digits, '/') && lacks(digits, ':') && (digits.len()
            == 0 || digits[0] != '+'),
        port is None ==> lacks(host, ':'),
        path.len() == 0 || path[0] == '/',
    ensures
        ({
            let url = url_of(address(host, port, path));
            let shown_path = if path.len() == 0 {
                seq!['/']
            } else {
                path
            };
            let fine = is_host_name(host) && is_plain_path(path);
            match port {
                None => if fine {
                    url == Ok::<UrlText, UrlFault>(UrlText { host, port: 80, path: shown_path })
                } else {
                    url == Err::<UrlText, UrlFault>(UrlFault::Form)
                },
                Some(digits) => if !are_digits(digits) || worth(digits, 10) > 65535 {
                    url == Err::<UrlText, UrlFault>(UrlFault::Port)
                } else if fine && worth(digits, 10) > 0 {
                    &&& url matches Ok(read) && read.host == host && read.port == worth(digits, 10)
                        && read.path == shown_path
                } else {
                    url == Err::<UrlText, UrlFault>(UrlFault::Form)
                },
            }
        }),
{
    reveal_strlit("http://");
    reveal_strlit("/");
    let scheme = "http://"@;
    let input = address(host, port, path);
    let authority = match port {
        Some(digits) => host + seq![':'] + digits,
        None => host,
    };
    assert(input =~= scheme + (authority + path));
    assert(input.take(scheme.len() as int) =~= scheme);
    let rest = input.skip(scheme.len() as int);
    assert(rest =~= authority + path);
    assert forall|i: int| 0 <= i < authority.len() implies #[trigger] authority[i] != '/' by {
        if i < host.len() {
            assert(authority[i] == host[i]);
        } else if i > host.len() {
            assert(authority[i] == port->0[i - host.len() - 1]);
        }
    }
    lemma_first_of_parts(authority, path, '/');
    assert(rest.take(authority.len() as int) =~= authority);
    assert(rest.skip(authority.len() as int) =~= path);
    assert("/"@ =~= seq!['/']);
    assert(is_plain_path(seq!['/']));
    lemma_classes(host);
    lemma_classes(path);
    lemma_classes(seq!['/']);
    match port {
        Some(digits) => {
            lemma_last_of_parts(host, digits, ':');
            assert(authority.take(host.len() as int) =~= host);
            assert(authority.skip(host.len() as int + 1) =~= digits);
            lemma_port(digits);
        },
        None => {
            lemma_last_absent(host, ':');
        },
    }
}

/// A plus sign before the digits of a port makes no difference.
pub proof fn lemma_plus_before_port(host: Seq<char>, digits: Seq<char>, path: Seq<char>)
    requires
        lacks(host, '/'),
        lacks(digits, '/'),
        lacks(digits, ':'),
        digits.len() > 0 && digits[0] != '+',
        path.len() == 0 || path[0] == '/',
    ensures
        url_of(address(host, Some(seq!['+'] + digits), path)) == url_of(
            address(host, Some(digits), path),
        ),
{
    let signed = seq!['+'] + digits;
    lemma_parts(host, digits, path);
    assert forall|i: int| 0 <= i < signed.len() implies #[trigger] signed[i] != '/' && signed[i]
        != ':' by {
        if i > 0 {
            assert(signed[i] == digits[i - 1]);
        }
    }
    lemma_parts(host, signed, path);
    assert(signed.skip(1) =~= digits);
    assert(port_of(signed) == port_of(digits));
}

proof fn lemma_parts(host: Seq<char>, digits: Seq<char>, path: Seq<char>)
    requires
        lacks(host, '/'),
        lacks(digits, '/'),
        lacks(digits, ':'),
        path.len() == 0 || path[0] == '/',
    ensures
        url_of(address(host, Some(digits), path)) == (match port_of(digits) {
            None => Err(UrlFault::Port),
            Some(port) => {
                let shown_path = if path.len() == 0 {
                    "/"@
                } else {
                    path
                };
                if !is_host(host) || port == 0 || !is_path(shown_path) {
                    Err(UrlFault::Form)
                } else {
                    Ok(UrlText { host, port, path: shown_path })
                }
            },
        }),
{
    reveal_strlit("http://");
    let scheme = "http://"@;
    let input = address(host, Some(digits), path);
    let authority = host + seq![':'] + digits;
    assert(input =~= scheme + (authority + path));
    assert(input.take(scheme.len() as int) =~= scheme);
    let rest = input.skip(scheme.len() as int);
    assert(rest =~= authority + path);
    assert forall|i: int| 0 <= i < authority.len() implies #[trigger] authority[i] != '/' by {
        if i < host.len() {
            assert(authority[i] == host[i]);
        } else if i > host.len() {
            assert(authority[i] == digits[i - host.len() - 1]);
        }
    }
    lemma_first_of_parts(authority, path, '/');
    assert(rest.take(authority.len() as int) =~= authority);
    assert(rest.skip(authority.len() as int) =~= path);
    lemma_last_of_parts(host, digits, ':');
    assert(authority.take(host.len() as int) =~= host);
    assert(authority.skip(host.len() as int + 1) =~= digits);
}

/// Only addresses that begin with `http://` are taken.
pub proof fn lemma_other_schemes_refused(input: Seq<char>)
    requires
        input.len() < 7 || input.take(7) != seq!['h', 't', 't', 'p', ':', '/', '/'],
    ensures
        url_of(input) == Err::<UrlText, UrlFault>(UrlFault::Scheme),
{
    reveal_strlit("http://");
    assert("http://"@ =~= seq!['h', 't', 't', 'p', ':', '/', '/']);
}

/// A request is a line with the path, a line with the host and one that closes,
/// each ended by carriage return and line feed, and an empty line.
pub proof fn lemma_request_lines(url: UrlText)
    ensures
        request_text(url) == "GET "@ + url.path + " HTTP/1.0"@ + seq!['\r', '\n'] + "Host: "@
            + url.host + seq!['\r', '\n'] + "Connection: close"@ + seq!['\r', '\n', '\r', '\n'],
{
    reveal_strlit("GET ");
    reveal_strlit(" HTTP/1.0\r\nHost: ");
    reveal_strlit(" HTTP/1.0");
    reveal_strlit("Host: ");
    reveal_strlit("\r\nConnection: close\r\n\r\n");
    reveal_strlit("Connection: close");
    assert(" HTTP/1.0\r\nHost: "@ =~= " HTTP/1.0"@ + seq!['\r', '\n'] + "Host: "@);
    assert("\r\nConnection: close\r\n\r\n"@ =~= seq!['\r', '\n'] + "Connection: close"@ + seq![
        '\r',
        '\n',
        '\r',
        '\n',
    ]);
    assert(request_text(url) =~= "GET "@ + url.path + " HTTP/1.0"@ + seq!['\r', '\n'] + "Host: "@
        + url.host + seq!['\r', '\n'] + "Connection: close"@ + seq!['\r', '\n', '\r', '\n']);
}

} // verus!
