//! HTTP URLs, and the text of the pages behind them.
use vstd::prelude::*;
use vstd::slice::slice_subrange;

use crate::text::{has_prefix, is_blank, is_graphic, is_printable, starts_with};

verus! {

/// The parts of a URL.
pub struct UrlText {
    pub host: Seq<char>,
    pub port: u16,
    pub path: Seq<char>,
}

/// Why a text is no URL to fetch.
pub enum UrlFault {
    Scheme,
    Port,
    Form,
}

impl UrlFault {
    pub open spec fn message(self) -> Seq<char> {
        match self {
            UrlFault::Scheme => "use an http:// URL"@,
            UrlFault::Port => "invalid HTTP port"@,
            UrlFault::Form => "invalid HTTP URL"@,
        }
    }
}

/// Place of the first `c` in a text, or its length if there is none.
pub open spec fn first_index(text: Seq<char>, c: char) -> int
    decreases text.len(),
{
    if text.len() == 0 || text[0] == c {
        0
    } else {
        1 + first_index(text.skip(1), c)
    }
}

/// Place of the last `c` in a text, or -1 if there is none.
pub open spec fn last_index(text: Seq<char>, c: char) -> int
    decreases text.len(),
{
    if text.len() == 0 {
        -1
    } else if text.last() == c {
        text.len() - 1
    } else {
        last_index(text.drop_last(), c)
    }
}

pub open spec fn is_digit(c: char) -> bool {
    0x30 <= c as int <= 0x39
}

/// The number that decimal digits spell.
pub open spec fn number(digits: Seq<char>) -> int
    decreases digits.len(),
{
    if digits.len() == 0 {
        0
    } else {
        number(digits.drop_last()) * 10 + (digits.last() as int - 0x30)
    }
}

/// The port that a text names: decimal digits, after an optional plus sign,
/// for a 16-bit number.
pub open spec fn port_of(text: Seq<char>) -> Option<u16> {
    port_in(
        if text.len() > 0 && text[0] == '+' {
            text.skip(1)
        } else {
            text
        },
    )
}

pub open spec fn port_in(digits: Seq<char>) -> Option<u16> {
    if digits.len() > 0 && (forall|i: int| 0 <= i < digits.len() ==> is_digit(#[trigger] digits[i]))
        && number(digits) <= 0xffff {
        Some(number(digits) as u16)
    } else {
        None
    }
}

pub open spec fn is_host_char(c: char) -> bool {
    let n = c as int;
    ||| is_digit(c)
    ||| 0x41 <= n <= 0x5a
    ||| 0x61 <= n <= 0x7a
    ||| c == '.'
    ||| c == '-'
}

pub open spec fn is_host(text: Seq<char>) -> bool {
    text.len() > 0 && forall|i: int| 0 <= i < text.len() ==> is_host_char(#[trigger] text[i])
}

pub open spec fn is_path_char(c: char) -> bool {
    0x21 <= c as int <= 0x7e && c != '#'
}

pub open spec fn is_path(text: Seq<char>) -> bool {
    forall|i: int| 0 <= i < text.len() ==> is_path_char(#[trigger] text[i])
}

/// What a URL names. The path is the rest from the first slash on, or one
/// slash; a port behind the last colon before it stands for 80 if missing.
pub open spec fn url_of(input: Seq<char>) -> Result<UrlText, UrlFault> {
    if !starts_with(input, "http://"@) {
        Err(UrlFault::Scheme)
    } else {
        let rest = input.skip("http://"@.len() as int);
        let slash = first_index(rest, '/');
        let authority = rest.take(slash);
        let path = if slash < rest.len() {
            rest.skip(slash)
        } else {
            "/"@
        };
        let colon = last_index(authority, ':');
        let host = if colon >= 0 {
            authority.take(colon)
        } else {
            authority
        };
        let port = if colon >= 0 {
            port_of(authority.skip(colon + 1))
        } else {
            Some(80u16)
        };
        match port {
            None => Err(UrlFault::Port),
            Some(port) => if !is_host(host) || port == 0 || !is_path(path) {
                Err(UrlFault::Form)
            } else {
                Ok(UrlText { host, port, path })
            },
        }
    }
}

pub struct Url<'a> {
    pub host: &'a str,
    pub port: u16,
    pub path: &'a str,
}

impl<'a> View for Url<'a> {
    type V = UrlText;

    open spec fn view(&self) -> UrlText {
        UrlText { host: self.host@, port: self.port, path: self.path@ }
    }
}

fn find_first(text: &str, c: char) -> (index: usize)
    ensures
        index == first_index(text@, c),
        index <= text@.len(),
{
    let len: usize = text.unicode_len();
    let mut i: usize = 0;
    assert(text@.skip(0) =~= text@);
    while i < len && text.get_char(i) != c
        invariant
            i <= len,
            len == text@.len(),
            first_index(text@, c) == i + first_index(text@.skip(i as int), c),
        decreases len - i,
    {
        assert(text@.skip(i as int).skip(1) =~= text@.skip(i + 1));
        i += 1;
    }
    i
}

fn find_last(text: &str, c: char) -> (index: Option<usize>)
    ensures
        index matches Some(i) ==> i == last_index(text@, c) && i < text@.len(),
        index is None ==> last_index(text@, c) == -1,
{
    let mut i: usize = text.unicode_len();
    assert(text@.take(i as int) =~= text@);
    while i > 0
        invariant
            i <= text@.len(),
            last_index(text@, c) == last_index(text@.take(i as int), c),
        decreases i,
    {
        if text.get_char(i - 1) == c {
            return Some(i - 1);
        }
        assert(text@.take(i as int).drop_last() =~= text@.take(i - 1));
        i -= 1;
    }
    None
}

proof fn lemma_number_prefix(digits: Seq<char>, n: int)
    requires
        0 <= n <= digits.len(),
        forall|i: int| 0 <= i < digits.len() ==> is_digit(#[trigger] digits[i]),
    ensures
        0 <= number(digits.take(n)) <= number(digits),
    decreases digits.len(),
{
    if n == digits.len() {
        assert(digits.take(n) =~= digits);
        if n > 0 {
            lemma_number_prefix(digits.drop_last(), n - 1);
            assert(is_digit(digits.last()));
        }
    } else {
        lemma_number_prefix(digits.drop_last(), n);
        assert(digits.drop_last().take(n) =~= digits.take(n));
        assert(is_digit(digits.last()));
    }
}

fn parse_port(text: &str) -> (port: Option<u16>)
    ensures
        port == port_of(text@),
{
    let len: usize = text.unicode_len();
    let start: usize = if len > 0 && text.get_char(0) == '+' {
        1
    } else {
        0
    };
    let ghost digits = text@.skip(start as int);
    assert(text@.skip(0) =~= text@);
    if start == len {
        return None;
    }
    let mut value: u32 = 0;
    let mut i: usize = start;
    while i < len
        invariant
            start <= i <= len,
            start < len,
            len == text@.len(),
            digits == text@.skip(start as int),
            port_of(text@) == port_in(digits),
            forall|k: int| 0 <= k < i - start ==> is_digit(#[trigger] digits[k]),
            value == number(digits.take(i - start)),
            value <= 0xffff,
        decreases len - i,
    {
        let c: char = text.get_char(i);
        assert(digits[i - start] == c);
        let code: u32 = c as u32;
        if code < 0x30 || code > 0x39 {
            assert(!is_digit(digits[i - start]));
            return None;
        }
        value = value * 10 + (code - 0x30);
        i += 1;
        proof {
            assert(digits.take(i - start).drop_last() =~= digits.take(i - start - 1));
            assert(forall|k: int| 0 <= k < i - start ==> is_digit(#[trigger] digits[k]));
            if forall|k: int| 0 <= k < digits.len() ==> is_digit(#[trigger] digits[k]) {
                lemma_number_prefix(digits, i - start);
            }
        }
        if value > 0xffff {
            return None;
        }
    }
    assert(digits.take(i - start) =~= digits);
    Some(value as u16)
}

fn all_host_chars(text: &str) -> (all: bool)
    ensures
        all == is_host(text@),
{
    let len: usize = text.unicode_len();
    let mut i: usize = 0;
    while i < len
        invariant
            i <= len,
            len == text@.len(),
            forall|k: int| 0 <= k < i ==> is_host_char(#[trigger] text@[k]),
        decreases len - i,
    {
        let c: char = text.get_char(i);
        let n: u32 = c as u32;
        if !((n >= 0x30 && n <= 0x39) || (n >= 0x41 && n <= 0x5a) || (n >= 0x61 && n <= 0x7a) || c
            == '.' || c == '-') {
            assert(!is_host_char(text@[i as int]));
            return false;
        }
        i += 1;
    }
    len > 0
}

fn all_path_chars(text: &str) -> (all: bool)
    ensures
        all == is_path(text@),
{
    let len: usize = text.unicode_len();
    let mut i: usize = 0;
    while i < len
        invariant
            i <= len,
            len == text@.len(),
            forall|k: int| 0 <= k < i ==> is_path_char(#[trigger] text@[k]),
        decreases len - i,
    {
        let c: char = text.get_char(i);
        let n: u32 = c as u32;
        if n < 0x21 || n > 0x7e || c == '#' {
            assert(!is_path_char(text@[i as int]));
            return false;
        }
        i += 1;
    }
    true
}

impl<'a> Url<'a> {
    pub fn parse(input: &'a str) -> (url: Result<Url<'a>, &'static str>)
        ensures
            match url_of(input@) {
                Ok(parts) => url matches Ok(url) && url@ == parts,
                Err(fault) => url matches Err(message) && message@ == fault.message(),
            },
    {
        let scheme: &str = "http://";
        if !has_prefix(input, scheme) {
            return Err("use an http:// URL");
        }
        let len: usize = input.unicode_len();
        let skipped: usize = scheme.unicode_len();
        let rest: &'a str = input.substring_char(skipped, len);
        assert(rest@ =~= input@.skip(skipped as int));
        let rest_len: usize = rest.unicode_len();
        let slash: usize = find_first(rest, '/');
        let authority: &'a str = rest.substring_char(0, slash);
        assert(authority@ =~= rest@.take(slash as int));
        let path: &'a str = if slash < rest_len {
            let path: &'a str = rest.substring_char(slash, rest_len);
            assert(path@ =~= rest@.skip(slash as int));
            path
        } else {
            "/"
        };
        let authority_len: usize = authority.unicode_len();
        let (host, port): (&'a str, u16) = match find_last(authority, ':') {
            Some(colon) => {
                let host: &'a str = authority.substring_char(0, colon);
                assert(host@ =~= authority@.take(colon as int));
                let digits: &'a str = authority.substring_char(colon + 1, authority_len);
                assert(digits@ =~= authority@.skip(colon + 1));
                match parse_port(digits) {
                    Some(port) => (host, port),
                    None => {
                        return Err("invalid HTTP port");
                    },
                }
            },
            None => (authority, 80),
        };
        if !all_host_chars(host) || port == 0 || !all_path_chars(path) {
            return Err("invalid HTTP URL");
        }
        Ok(Url { host, port, path })
    }
}

/// The request that fetches a page.
pub open spec fn request_text(url: UrlText) -> Seq<char> {
    "GET "@ + url.path + " HTTP/1.0\r\nHost: "@ + url.host + "\r\nConnection: close\r\n\r\n"@
}

fn append(output: &mut String, text: &str)
    ensures
        final(output)@ == old(output)@ + text@,
{
    let len: usize = text.unicode_len();
    let mut i: usize = 0;
    assert(output@ =~= output@ + text@.take(0));
    while i < len
        invariant
            i <= len,
            len == text@.len(),
            output@ =~= old(output)@ + text@.take(i as int),
        decreases len - i,
    {
        output.push(text.get_char(i));
        i += 1;
    }
    assert(text@.take(len as int) =~= text@);
}

/// The text to send to the server of a URL.
pub fn request(url: &Url) -> (text: String)
    ensures
        text@ == request_text(url@),
{
    let mut text: String = String::new();
    append(&mut text, "GET ");
    append(&mut text, url.path);
    append(&mut text, " HTTP/1.0\r\nHost: ");
    append(&mut text, url.host);
    append(&mut text, "\r\nConnection: close\r\n\r\n");
    assert(text@ =~= request_text(url@));
    text
}

/// Why a response has no page to show.
pub enum PageFault {
    Response,
    Status,
}

impl PageFault {
    pub open spec fn message(self) -> Seq<char> {
        match self {
            PageFault::Response => "invalid HTTP response"@,
            PageFault::Status => "invalid HTTP status"@,
        }
    }
}

/// Whether bytes begin with a word.
pub open spec fn begins(bytes: Seq<u8>, word: Seq<char>) -> bool {
    &&& bytes.len() >= word.len()
    &&& forall|k: int| 0 <= k < word.len() ==> bytes[k] as char == #[trigger] word[k]
}

pub open spec fn lower(byte: u8) -> u8 {
    if 0x41 <= byte <= 0x5a {
        (byte + 0x20) as u8
    } else {
        byte
    }
}

/// Whether bytes begin with a lower-case word in either case of letters.
pub open spec fn begins_in_any_case(bytes: Seq<u8>, word: Seq<char>) -> bool {
    &&& bytes.len() >= word.len()
    &&& forall|k: int| 0 <= k < word.len() ==> lower(bytes[k]) as char == #[trigger] word[k]
}

/// First place from `i` on at which a word stands.
pub open spec fn find_from(bytes: Seq<u8>, word: Seq<char>, i: int) -> Option<int>
    decreases bytes.len() + 1 - i,
{
    if i > bytes.len() {
        None
    } else if begins(bytes.skip(i), word) {
        Some(i)
    } else {
        find_from(bytes, word, i + 1)
    }
}

/// Whether some line of a header declares the body to be HTML.
pub open spec fn declares_html(header: Seq<u8>) -> bool {
    exists|i: int|
        #![trigger header.skip(i)]
        0 <= i <= header.len() && (i == 0 || header[i - 1] == 0x0a) && begins_in_any_case(
            header.skip(i),
            "content-type: text/html"@,
        )
}

/// The printable ones of some bytes.
pub open spec fn printable_chars(bytes: Seq<u8>) -> Seq<char>
    decreases bytes.len(),
{
    if bytes.len() == 0 {
        Seq::empty()
    } else {
        let before = printable_chars(bytes.drop_last());
        if is_printable(bytes.last()) {
            before.push(bytes.last() as char)
        } else {
            before
        }
    }
}

/// The bytes of a plain page that are shown: printable ones, line feeds and
/// tabs.
pub open spec fn plain(body: Seq<u8>) -> Seq<char>
    decreases body.len(),
{
    if body.len() == 0 {
        Seq::empty()
    } else {
        let before = plain(body.drop_last());
        let byte = body.last();
        if is_printable(byte) || byte == 0x0a || byte == 0x09 {
            before.push(byte as char)
        } else {
            before
        }
    }
}

/// Place of the first `byte`, or the length if there is none.
pub open spec fn byte_index(bytes: Seq<u8>, byte: u8) -> nat
    decreases bytes.len(),
{
    if bytes.len() == 0 || bytes[0] == byte {
        0
    } else {
        1 + byte_index(bytes.skip(1), byte)
    }
}

/// Place of the first blank, or the length if there is none.
pub open spec fn blank_index(bytes: Seq<u8>) -> int
    decreases bytes.len(),
{
    if bytes.len() == 0 || is_blank(bytes[0]) {
        0
    } else {
        1 + blank_index(bytes.skip(1))
    }
}

/// Whether a page goes on with a tag.
pub open spec fn at_tag(body: Seq<u8>) -> bool {
    body.len() > 0 && body[0] == 0x3c && byte_index(body, 0x3e) < body.len()
}

/// The name of the tag with which a page goes on.
pub open spec fn tag_name(body: Seq<u8>) -> Seq<u8> {
    let tag = body.subrange(1, byte_index(body, 0x3e) as int);
    tag.take(blank_index(tag))
}

pub open spec fn is_name(name: Seq<u8>, word: Seq<char>) -> bool {
    name.len() == word.len() && begins_in_any_case(name, word)
}

/// Tags behind which nothing is shown.
pub open spec fn starts_hiding(name: Seq<u8>) -> bool {
    is_name(name, "script"@) || is_name(name, "style"@)
}

pub open spec fn ends_hiding(name: Seq<u8>) -> bool {
    is_name(name, "/script"@) || is_name(name, "/style"@)
}

/// Tags that begin a new line.
pub open spec fn is_block(name: Seq<u8>) -> bool {
    ||| is_name(name, "br"@)
    ||| is_name(name, "p"@)
    ||| is_name(name, "/p"@)
    ||| is_name(name, "div"@)
    ||| is_name(name, "/div"@)
    ||| is_name(name, "li"@)
    ||| is_name(name, "/li"@)
    ||| is_name(name, "h1"@)
    ||| is_name(name, "/h1"@)
    ||| is_name(name, "h2"@)
    ||| is_name(name, "/h2"@)
    ||| is_name(name, "title"@)
    ||| is_name(name, "/title"@)
}

/// The character reference with which a page goes on, and its length.
pub open spec fn entity(body: Seq<u8>) -> Option<(char, int)> {
    if begins(body, "&amp;"@) {
        Some(('&', 5))
    } else if begins(body, "&lt;"@) {
        Some(('<', 4))
    } else if begins(body, "&gt;"@) {
        Some(('>', 4))
    } else if begins(body, "&quot;"@) {
        Some(('"', 6))
    } else if begins(body, "&nbsp;"@) {
        Some((' ', 6))
    } else {
        None
    }
}

pub proof fn lemma_entity(body: Seq<u8>)
    ensures
        entity(body) matches Some((c, len)) ==> 0 < len <= body.len(),
{
    reveal_strlit("&amp;");
    reveal_strlit("&lt;");
    reveal_strlit("&gt;");
    reveal_strlit("&quot;");
    reveal_strlit("&nbsp;");
}

pub open spec fn last_of(text: Seq<char>) -> Option<char> {
    if text.len() > 0 {
        Some(text.last())
    } else {
        None
    }
}

pub open spec fn ends_in(text: Seq<char>, c: char) -> bool {
    last_of(text) == Some(c)
}

/// Text with one more byte shown: runs of blanks become one space.
pub open spec fn with_byte(text: Seq<char>, byte: u8) -> Seq<char> {
    if is_blank(byte) {
        if ends_in(text, ' ') || ends_in(text, '\n') {
            text
        } else {
            text.push(' ')
        }
    } else if is_graphic(byte) {
        text.push(byte as char)
    } else {
        text
    }
}

pub open spec fn with_line_break(text: Seq<char>) -> Seq<char> {
    if ends_in(text, '\n') {
        text
    } else {
        text.push('\n')
    }
}

/// The text shown once the rest of a page was read: `hidden` says whether a
/// script or style sheet is being skipped, and `text` is what was shown before.
pub open spec fn html(body: Seq<u8>, hidden: bool, text: Seq<char>) -> Seq<char>
    decreases body.len(),
{
    if body.len() == 0 {
        text
    } else if at_tag(body) {
        let name = tag_name(body);
        let rest = body.skip(byte_index(body, 0x3e) as int + 1);
        if starts_hiding(name) {
            html(rest, true, text)
        } else if ends_hiding(name) {
            html(rest, false, text)
        } else if !hidden && is_block(name) {
            html(rest, hidden, with_line_break(text))
        } else {
            html(rest, hidden, text)
        }
    } else if hidden {
        html(body.skip(1), hidden, text)
    } else {
        proof {
            lemma_entity(body);
        }
        match entity(body) {
            Some((c, len)) => html(body.skip(len), hidden, text.push(c)),
            None => html(body.skip(1), hidden, with_byte(text, body[0])),
        }
    }
}

/// What is shown of a response: its status line, and the text of its body.
pub open spec fn page(response: Seq<u8>) -> Result<Seq<char>, PageFault> {
    match find_from(response, "\r\n\r\n"@, 0) {
        None => Err(PageFault::Response),
        Some(header_end) => {
            let header = response.take(header_end);
            let body = response.skip(header_end + 4);
            let status = match find_from(header, "\r\n"@, 0) {
                Some(end) => header.take(end),
                None => header,
            };
            if !begins(status, "HTTP/"@) {
                Err(PageFault::Status)
            } else {
                let shown = printable_chars(status).push('\n');
                Ok(
                    if declares_html(header) {
                        html(body, false, shown)
                    } else {
                        shown + plain(body)
                    },
                )
            }
        },
    }
}

fn begins_with(bytes: &[u8], at: usize, word: &str) -> (begins: bool)
    requires
        at <= bytes@.len(),
    ensures
        begins == self::begins(bytes@.skip(at as int), word@),
{
    let len: usize = word.unicode_len();
    let count: usize = bytes.len();
    if count - at < len {
        return false;
    }
    let mut k: usize = 0;
    while k < len
        invariant
            k <= len,
            len == word@.len(),
            at + len <= count,
            count == bytes@.len(),
            forall|j: int| 0 <= j < k ==> bytes@.skip(at as int)[j] as char == #[trigger] word@[j],
        decreases len - k,
    {
        let byte: u8 = bytes[at + k];
        assert(bytes@.skip(at as int)[k as int] == byte);
        if byte as char != word.get_char(k) {
            return false;
        }
        k += 1;
    }
    true
}

fn begins_with_in_any_case(bytes: &[u8], at: usize, word: &str) -> (begins: bool)
    requires
        at <= bytes@.len(),
    ensures
        begins == begins_in_any_case(bytes@.skip(at as int), word@),
{
    let len: usize = word.unicode_len();
    let count: usize = bytes.len();
    if count - at < len {
        return false;
    }
    let mut k: usize = 0;
    while k < len
        invariant
            k <= len,
            len == word@.len(),
            at + len <= count,
            count == bytes@.len(),
            forall|j: int|
                0 <= j < k ==> lower(bytes@.skip(at as int)[j]) as char == #[trigger] word@[j],
        decreases len - k,
    {
        let byte: u8 = bytes[at + k];
        assert(bytes@.skip(at as int)[k as int] == byte);
        let small: u8 = if byte >= 0x41 && byte <= 0x5a {
            byte + 0x20
        } else {
            byte
        };
        if small as char != word.get_char(k) {
            return false;
        }
        k += 1;
    }
    true
}

fn find_word(bytes: &[u8], word: &str) -> (place: Option<usize>)
    ensures
        place matches Some(i) ==> find_from(bytes@, word@, 0) == Some(i as int) && i + word@.len()
            <= bytes@.len(),
        place is None ==> find_from(bytes@, word@, 0) is None,
{
    let mut i: usize = 0;
    while !begins_with(bytes, i, word)
        invariant
            i <= bytes@.len(),
            find_from(bytes@, word@, 0) == find_from(bytes@, word@, i as int),
        decreases bytes@.len() - i,
    {
        if i == bytes.len() {
            assert(find_from(bytes@, word@, i + 1) is None);
            return None;
        }
        i += 1;
    }
    Some(i)
}

fn is_html(header: &[u8]) -> (html: bool)
    ensures
        html == declares_html(header@),
{
    let mut i: usize = 0;
    loop
        invariant
            i <= header@.len(),
            forall|k: int|
                #![trigger header@.skip(k)]
                0 <= k < i && (k == 0 || header@[k - 1] == 0x0a) ==> !begins_in_any_case(
                    header@.skip(k),
                    "content-type: text/html"@,
                ),
        decreases header@.len() - i,
    {
        if (i == 0 || header[i - 1] == 0x0a) && begins_with_in_any_case(
            header,
            i,
            "content-type: text/html",
        ) {
            return true;
        }
        if i == header.len() {
            return false;
        }
        i += 1;
    }
}

fn push_printable(bytes: &[u8], output: &mut String)
    ensures
        final(output)@ == old(output)@ + printable_chars(bytes@),
{
    let mut i: usize = 0;
    assert(bytes@.take(0) =~= Seq::<u8>::empty());
    assert(output@ =~= output@ + printable_chars(bytes@.take(0)));
    while i < bytes.len()
        invariant
            i <= bytes@.len(),
            output@ =~= old(output)@ + printable_chars(bytes@.take(i as int)),
        decreases bytes@.len() - i,
    {
        let byte: u8 = bytes[i];
        assert(bytes@.take(i + 1).drop_last() =~= bytes@.take(i as int));
        if byte >= 0x20 && byte <= 0x7e {
            output.push(byte as char);
        }
        i += 1;
    }
    assert(bytes@.take(i as int) =~= bytes@);
}

fn push_plain(body: &[u8], output: &mut String)
    ensures
        final(output)@ == old(output)@ + plain(body@),
{
    let mut i: usize = 0;
    assert(body@.take(0) =~= Seq::<u8>::empty());
    assert(output@ =~= output@ + plain(body@.take(0)));
    while i < body.len()
        invariant
            i <= body@.len(),
            output@ =~= old(output)@ + plain(body@.take(i as int)),
        decreases body@.len() - i,
    {
        let byte: u8 = body[i];
        assert(body@.take(i + 1).drop_last() =~= body@.take(i as int));
        if (byte >= 0x20 && byte <= 0x7e) || byte == 0x0a || byte == 0x09 {
            output.push(byte as char);
        }
        i += 1;
    }
    assert(body@.take(i as int) =~= body@);
}

fn name_is(name: &[u8], word: &str) -> (same: bool)
    ensures
        same == is_name(name@, word@),
{
    assert(name@.skip(0) =~= name@);
    name.len() == word.unicode_len() && begins_with_in_any_case(name, 0, word)
}

fn matches_block(name: &[u8]) -> (block: bool)
    ensures
        block == is_block(name@),
{
    name_is(name, "br") || name_is(name, "p") || name_is(name, "/p") || name_is(name, "div")
        || name_is(name, "/div") || name_is(name, "li") || name_is(name, "/li") || name_is(
        name,
        "h1",
    ) || name_is(name, "/h1") || name_is(name, "h2") || name_is(name, "/h2") || name_is(
        name,
        "title",
    ) || name_is(name, "/title")
}

/// End of the tag that begins at `start`, if it is a tag.
fn tag_end(body: &[u8], start: usize) -> (end: Option<usize>)
    requires
        start < body@.len(),
    ensures
        end is Some == at_tag(body@.skip(start as int)),
        end matches Some(end) ==> start < end < body@.len() && end == start + byte_index(
            body@.skip(start as int),
            0x3e,
        ),
{
    if body[start] != 0x3c {
        return None;
    }
    let ghost rest = body@.skip(start as int);
    let mut i: usize = start;
    assert(rest.skip(0) =~= rest);
    while i < body.len() && body[i] != 0x3e
        invariant
            start <= i <= body@.len(),
            rest == body@.skip(start as int),
            byte_index(rest, 0x3e) == i - start + byte_index(rest.skip(i - start), 0x3e),
        decreases body@.len() - i,
    {
        assert(rest.skip(i - start).skip(1) =~= rest.skip(i - start + 1));
        i += 1;
    }
    if i < body.len() {
        Some(i)
    } else {
        None
    }
}

/// End of the name in a tag.
fn name_end(tag: &[u8]) -> (end: usize)
    ensures
        end == blank_index(tag@),
        end <= tag@.len(),
{
    let mut i: usize = 0;
    assert(tag@.skip(0) =~= tag@);
    while i < tag.len() && !(tag[i] == 0x20 || tag[i] == 0x09 || tag[i] == 0x0a || tag[i] == 0x0c
        || tag[i] == 0x0d)
        invariant
            i <= tag@.len(),
            blank_index(tag@) == i + blank_index(tag@.skip(i as int)),
        decreases tag@.len() - i,
    {
        assert(tag@.skip(i as int).skip(1) =~= tag@.skip(i + 1));
        i += 1;
    }
    i
}

fn entity_at(body: &[u8], at: usize) -> (found: Option<(char, usize)>)
    requires
        at < body@.len(),
    ensures
        match entity(body@.skip(at as int)) {
            Some((c, len)) => found matches Some((shown, count)) && shown == c && count == len
                && at + count <= body@.len(),
            None => found is None,
        },
{
    proof {
        lemma_entity(body@.skip(at as int));
    }
    if begins_with(body, at, "&amp;") {
        Some(('&', 5))
    } else if begins_with(body, at, "&lt;") {
        Some(('<', 4))
    } else if begins_with(body, at, "&gt;") {
        Some(('>', 4))
    } else if begins_with(body, at, "&quot;") {
        Some(('"', 6))
    } else if begins_with(body, at, "&nbsp;") {
        Some((' ', 6))
    } else {
        None
    }
}

/// The last character of a text.
fn last_char(text: &str) -> (last: Option<char>)
    ensures
        last == last_of(text@),
{
    let len: usize = text.unicode_len();
    if len > 0 {
        Some(text.get_char(len - 1))
    } else {
        None
    }
}

fn is_char(found: Option<char>, c: char) -> (same: bool)
    ensures
        same == (found == Some(c)),
{
    match found {
        Some(found) => found == c,
        None => false,
    }
}

/// Append the text of an HTML body.
pub fn render_html(body: &[u8], output: &mut String)
    ensures
        final(output)@ == html(body@, false, old(output)@),
{
    let mut last: Option<char> = last_char(output.as_str());
    let mut index: usize = 0;
    let mut hidden: bool = false;
    assert(body@.skip(0) =~= body@);
    while index < body.len()
        invariant
            index <= body@.len(),
            last == last_of(output@),
            html(body@, false, old(output)@) == html(body@.skip(index as int), hidden, output@),
        decreases body@.len() - index,
    {
        let ghost rest = body@.skip(index as int);
        assert forall|n: int| 0 <= n <= rest.len() implies #[trigger] rest.skip(n) == body@.skip(
            index + n,
        ) by {
            assert(rest.skip(n) =~= body@.skip(index + n));
        }
        if let Some(end) = tag_end(body, index) {
            let tag = slice_subrange(body, index + 1, end);
            assert(tag@ =~= rest.subrange(1, end - index));
            let name = slice_subrange(tag, 0, name_end(tag));
            assert(name@ =~= tag_name(rest));
            if name_is(name, "script") || name_is(name, "style") {
                hidden = true;
            } else if name_is(name, "/script") || name_is(name, "/style") {
                hidden = false;
            } else if !hidden && matches_block(name) && !is_char(last, '\n') {
                output.push('\n');
                last = Some('\n');
            }
            index = end + 1;
        } else if hidden {
            index += 1;
        } else if let Some((c, len)) = entity_at(body, index) {
            output.push(c);
            last = Some(c);
            index += len;
        } else {
            let byte: u8 = body[index];
            if byte == 0x20 || byte == 0x09 || byte == 0x0a || byte == 0x0c || byte == 0x0d {
                if !is_char(last, ' ') && !is_char(last, '\n') {
                    output.push(' ');
                    last = Some(' ');
                }
            } else if byte >= 0x21 && byte <= 0x7e {
                output.push(byte as char);
                last = Some(byte as char);
            }
            index += 1;
        }
    }
}

/// The text to show for an HTTP response.
pub fn render(response: &[u8]) -> (shown: Result<String, &'static str>)
    ensures
        match page(response@) {
            Ok(text) => shown matches Ok(output) && output@ == text,
            Err(fault) => shown matches Err(message) && message@ == fault.message(),
        },
{
    proof {
        reveal_strlit("\r\n\r\n");
    }
    let count: usize = response.len();
    let header_end: usize = match find_word(response, "\r\n\r\n") {
        Some(end) => end,
        None => {
            return Err("invalid HTTP response");
        },
    };
    let header = slice_subrange(response, 0, header_end);
    assert(header@ =~= response@.take(header_end as int));
    let body = slice_subrange(response, header_end + 4, count);
    assert(body@ =~= response@.skip(header_end + 4));
    let status_end: usize = match find_word(header, "\r\n") {
        Some(end) => end,
        None => header.len(),
    };
    let status = slice_subrange(header, 0, status_end);
    assert(header@.take(header@.len() as int) =~= header@);
    assert(status@ =~= header@.take(status_end as int));
    assert(status@.skip(0) =~= status@);
    if !begins_with(status, 0, "HTTP/") {
        return Err("invalid HTTP status");
    }
    let mut output: String = String::new();
    push_printable(status, &mut output);
    assert(output@ =~= printable_chars(status@));
    output.push('\n');
    if is_html(header) {
        render_html(body, &mut output);
    } else {
        push_plain(body, &mut output);
    }
    Ok(output)
}

/// An accepted URL has a host, a port and a path that begins with a slash, all
/// in visible ASCII.
pub proof fn lemma_url_form(input: Seq<char>)
    ensures
        url_of(input) matches Ok(url) ==> {
            &&& is_host(url.host)
            &&& url.port != 0
            &&& url.path.len() > 0
            &&& url.path[0] == '/'
            &&& is_path(url.path)
        },
{
    reveal_strlit("/");
    let rest = input.skip("http://"@.len() as int);
    lemma_first_index(rest, '/');
}

proof fn lemma_first_index(text: Seq<char>, c: char)
    ensures
        0 <= first_index(text, c) <= text.len(),
        first_index(text, c) < text.len() ==> text[first_index(text, c)] == c,
    decreases text.len(),
{
    if text.len() > 0 && text[0] != c {
        lemma_first_index(text.skip(1), c);
    }
}

/// Characters that a page may put on the screen.
pub open spec fn is_shown(c: char) -> bool {
    0x20 <= c as int <= 0x7e || c == '\n' || c == '\t'
}

pub open spec fn all_shown(text: Seq<char>) -> bool {
    forall|i: int| 0 <= i < text.len() ==> is_shown(#[trigger] text[i])
}

proof fn lemma_html_shown(body: Seq<u8>, hidden: bool, text: Seq<char>)
    requires
        all_shown(text),
    ensures
        all_shown(html(body, hidden, text)),
    decreases body.len(),
{
    if body.len() > 0 {
        if at_tag(body) {
            let rest = body.skip(byte_index(body, 0x3e) as int + 1);
            lemma_html_shown(rest, true, text);
            lemma_html_shown(rest, false, text);
            lemma_html_shown(rest, false, with_line_break(text));
        } else if hidden {
            lemma_html_shown(body.skip(1), hidden, text);
        } else {
            lemma_entity(body);
            match entity(body) {
                Some((c, len)) => {
                    lemma_html_shown(body.skip(len), hidden, text.push(c));
                },
                None => {
                    lemma_html_shown(body.skip(1), hidden, with_byte(text, body[0]));
                },
            }
        }
    }
}

proof fn lemma_printable_shown(bytes: Seq<u8>)
    ensures
        all_shown(printable_chars(bytes)),
        all_shown(plain(bytes)),
    decreases bytes.len(),
{
    if bytes.len() > 0 {
        lemma_printable_shown(bytes.drop_last());
    }
}

/// Whatever a server sends, only printable characters, line feeds and tabs of
/// it are shown.
pub proof fn lemma_page_is_text(response: Seq<u8>)
    ensures
        page(response) matches Ok(text) ==> all_shown(text),
{
    if let Some(header_end) = find_from(response, "\r\n\r\n"@, 0) {
        let header = response.take(header_end);
        let body = response.skip(header_end + 4);
        let status = match find_from(header, "\r\n"@, 0) {
            Some(end) => header.take(end),
            None => header,
        };
        lemma_printable_shown(status);
        lemma_printable_shown(body);
        lemma_html_shown(body, false, printable_chars(status).push('\n'));
    }
}

/// A tag with the given inside, and what follows it.
pub open spec fn tagged(inside: Seq<u8>, rest: Seq<u8>) -> Seq<u8> {
    seq![0x3cu8] + inside + seq![0x3eu8] + rest
}

proof fn lemma_byte_index(bytes: Seq<u8>, byte: u8, n: int)
    requires
        0 <= n < bytes.len(),
        bytes[n] == byte,
        forall|i: int| 0 <= i < n ==> #[trigger] bytes[i] != byte,
    ensures
        byte_index(bytes, byte) == n,
    decreases n,
{
    if n > 0 {
        assert(bytes[0] != byte);
        assert forall|i: int| 0 <= i < n - 1 implies #[trigger] bytes.skip(1)[i] != byte by {
            assert(bytes[i + 1] != byte);
        }
        lemma_byte_index(bytes.skip(1), byte, n - 1);
    }
}

pub proof fn lemma_tagged(inside: Seq<u8>, rest: Seq<u8>)
    requires
        forall|i: int| 0 <= i < inside.len() ==> #[trigger] inside[i] != 0x3e,
    ensures
        at_tag(tagged(inside, rest)),
        tag_name(tagged(inside, rest)) == inside.take(blank_index(inside)),
        tagged(inside, rest).skip(byte_index(tagged(inside, rest), 0x3e) as int + 1) == rest,
{
    let body = tagged(inside, rest);
    let n: int = inside.len() as int + 1;
    assert forall|i: int| 0 <= i < n implies #[trigger] body[i] != 0x3e by {
        if i > 0 {
            assert(body[i] == inside[i - 1]);
        }
    }
    lemma_byte_index(body, 0x3e, n);
    assert(body.subrange(1, n) =~= inside);
    assert(body.skip(n + 1) =~= rest);
}

proof fn lemma_hidden_text(code: Seq<u8>, rest: Seq<u8>, text: Seq<char>)
    requires
        forall|i: int| 0 <= i < code.len() ==> #[trigger] code[i] != 0x3c,
    ensures
        html(code + rest, true, text) == html(rest, true, text),
    decreases code.len(),
{
    if code.len() == 0 {
        assert(code + rest =~= rest);
    } else {
        assert((code + rest)[0] == code[0]);
        assert((code + rest).skip(1) =~= code.skip(1) + rest);
        lemma_hidden_text(code.skip(1), rest, text);
    }
}

/// Nothing of a script or style sheet is shown: a page with one reads as if it
/// were not there.
pub proof fn lemma_script_not_shown(
    opening: Seq<u8>,
    code: Seq<u8>,
    closing: Seq<u8>,
    rest: Seq<u8>,
    text: Seq<char>,
)
    requires
        forall|i: int| 0 <= i < opening.len() ==> #[trigger] opening[i] != 0x3e,
        starts_hiding(opening.take(blank_index(opening))),
        forall|i: int| 0 <= i < code.len() ==> #[trigger] code[i] != 0x3c,
        forall|i: int| 0 <= i < closing.len() ==> #[trigger] closing[i] != 0x3e,
        ends_hiding(closing.take(blank_index(closing))),
    ensures
        html(tagged(opening, code + tagged(closing, rest)), false, text) == html(rest, false, text),
{
    lemma_tagged(opening, code + tagged(closing, rest));
    lemma_hidden_text(code, tagged(closing, rest), text);
    lemma_tagged(closing, rest);
    let name = closing.take(blank_index(closing));
    reveal_strlit("script");
    reveal_strlit("style");
    reveal_strlit("/script");
    reveal_strlit("/style");
    assert(!starts_hiding(name)) by {
        assert("/script"@[0] == '/');
        assert("/style"@[0] == '/');
        assert("script"@[0] == 's');
        assert("style"@[0] == 's');
    }
}

} // verus!
