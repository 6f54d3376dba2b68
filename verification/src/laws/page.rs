//! How HTML and plain pages read.
use vstd::prelude::*;

use crate::net::web::{
    at_tag, begins, begins_in_any_case, blank_index, byte_index, declares_html, ends_hiding, entity,
    find_from, html, is_block, is_name, lemma_tagged, lower, page, plain, printable_chars,
    starts_hiding, tag_name, tagged, PageFault,
};

verus! {

/// Space, tab, line feed, form feed or carriage return.
pub open spec fn is_space(byte: u8) -> bool {
    byte == 0x20 || byte == 0x09 || byte == 0x0a || byte == 0x0c || byte == 0x0d
}

/// Whether bytes spell a word of small letters, digits and slashes, each letter
/// small or capital.
pub open spec fn is_spelled(name: Seq<u8>, word: Seq<char>) -> bool {
    &&& name.len() == word.len()
    &&& forall|k: int|
        0 <= k < name.len() ==> {
            ||| (#[trigger] name[k]) as int == word[k] as int
            ||| 0x61 <= word[k] as int <= 0x7a && name[k] + 0x20 == word[k] as int
        }
}

/// Names of the tags that begin a line.
pub open spec fn is_line_tag(word: Seq<char>) -> bool {
    ||| word == "br"@
    ||| word == "p"@
    ||| word == "/p"@
    ||| word == "div"@
    ||| word == "/div"@
    ||| word == "li"@
    ||| word == "/li"@
    ||| word == "h1"@
    ||| word == "/h1"@
    ||| word == "h2"@
    ||| word == "/h2"@
    ||| word == "title"@
    ||| word == "/title"@
}

/// Names of the tags around what is not shown.
pub open spec fn is_opening(word: Seq<char>) -> bool {
    word == "script"@ || word == "style"@
}

pub open spec fn is_closing(word: Seq<char>) -> bool {
    word == "/script"@ || word == "/style"@
}

/// A tag with a name and what follows the name in it.
pub open spec fn is_tag(name: Seq<u8>, attributes: Seq<u8>) -> bool {
    &&& forall|k: int| 0 <= k < name.len() ==> !is_space(#[trigger] name[k]) && name[k] != 0x3e
    &&& attributes.len() == 0 || is_space(attributes[0])
    &&& forall|k: int| 0 <= k < attributes.len() ==> #[trigger] attributes[k] != 0x3e
}

proof fn lemma_blank_index(name: Seq<u8>, attributes: Seq<u8>)
    requires
        is_tag(name, attributes),
    ensures
        blank_index(name + attributes) == name.len(),
        (name + attributes).take(name.len() as int) == name,
    decreases name.len(),
{
    let inside = name + attributes;
    assert(inside.take(name.len() as int) =~= name);
    if name.len() > 0 {
        assert(!is_space(name[0]));
        assert(inside[0] == name[0]);
        let shorter = name.skip(1);
        assert forall|k: int| 0 <= k < shorter.len() implies !is_space(#[trigger] shorter[k])
            && shorter[k] != 0x3e by {
            assert(!is_space(name[k + 1]));
        }
        lemma_blank_index(shorter, attributes);
        assert(inside.skip(1) =~= shorter + attributes);
    } else if attributes.len() > 0 {
        assert(inside[0] == attributes[0]);
    }
}

/// A page that goes on with a tag, taken apart.
proof fn lemma_tag(name: Seq<u8>, attributes: Seq<u8>, rest: Seq<u8>)
    requires
        is_tag(name, attributes),
    ensures
        ({
            let body = tagged(name + attributes, rest);
            &&& at_tag(body)
            &&& tag_name(body) == name
            &&& body.skip(byte_index(body, 0x3e) as int + 1) == rest
        }),
{
    let inside = name + attributes;
    lemma_blank_index(name, attributes);
    assert forall|i: int| 0 <= i < inside.len() implies #[trigger] inside[i] != 0x3e by {
        if i < name.len() {
            assert(inside[i] == name[i]);
        } else {
            assert(inside[i] == attributes[i - name.len()]);
        }
    }
    lemma_tagged(inside, rest);
}

proof fn lemma_spelled(name: Seq<u8>, word: Seq<char>)
    requires
        forall|k: int| 0 <= k < word.len() ==> !(0x41 <= #[trigger] word[k] as int <= 0x5a),
    ensures
        is_spelled(name, word) == is_name(name, word),
{
    if is_name(name, word) {
        assert forall|k: int| 0 <= k < name.len() implies {
            ||| (#[trigger] name[k]) as int == word[k] as int
            ||| 0x61 <= word[k] as int <= 0x7a && name[k] + 0x20 == word[k] as int
        } by {
            assert(lower(name[k]) as char == word[k]);
        }
    }
    if is_spelled(name, word) {
        assert forall|k: int| 0 <= k < word.len() implies lower(name[k]) as char
            == #[trigger] word[k] by {
            assert(name[k] as int == word[k] as int || name[k] + 0x20 == word[k] as int);
        }
    }
}

proof fn lemma_words(name: Seq<u8>)
    ensures
        is_block(name) == (exists|word: Seq<char>|
            is_line_tag(word) && #[trigger] is_spelled(name, word)),
        starts_hiding(name) == (exists|word: Seq<char>|
            is_opening(word) && #[trigger] is_spelled(name, word)),
        ends_hiding(name) == (exists|word: Seq<char>|
            is_closing(word) && #[trigger] is_spelled(name, word)),
        is_block(name) ==> !starts_hiding(name) && !ends_hiding(name),
        starts_hiding(name) ==> !ends_hiding(name),
{
    reveal_strlit("br");
    reveal_strlit("p");
    reveal_strlit("/p");
    reveal_strlit("div");
    reveal_strlit("/div");
    reveal_strlit("li");
    reveal_strlit("/li");
    reveal_strlit("h1");
    reveal_strlit("/h1");
    reveal_strlit("h2");
    reveal_strlit("/h2");
    reveal_strlit("title");
    reveal_strlit("/title");
    reveal_strlit("script");
    reveal_strlit("style");
    reveal_strlit("/script");
    reveal_strlit("/style");
    lemma_spelled(name, "br"@);
    lemma_spelled(name, "p"@);
    lemma_spelled(name, "/p"@);
    lemma_spelled(name, "div"@);
    lemma_spelled(name, "/div"@);
    lemma_spelled(name, "li"@);
    lemma_spelled(name, "/li"@);
    lemma_spelled(name, "h1"@);
    lemma_spelled(name, "/h1"@);
    lemma_spelled(name, "h2"@);
    lemma_spelled(name, "/h2"@);
    lemma_spelled(name, "title"@);
    lemma_spelled(name, "/title"@);
    lemma_spelled(name, "script"@);
    lemma_spelled(name, "style"@);
    lemma_spelled(name, "/script"@);
    lemma_spelled(name, "/style"@);
    if name.len() > 1 {
        assert("script"@[0] == 's' && "style"@[0] == 's' && "title"@[0] == 't');
        assert("/title"@[0] == '/' && "/title"@[1] == 't' && "/style"@[1] == 's');
        assert("/script"@[0] == '/' && "/style"@[0] == '/');
    }
}

/// The tags of lines, list items, headings, paragraphs and the like each begin a
/// line of their own, in capitals or not, with attributes or not: where the text
/// so far does not end in a line feed, one comes.
pub proof fn lemma_line_tags_break_lines(
    word: Seq<char>,
    name: Seq<u8>,
    attributes: Seq<u8>,
    rest: Seq<u8>,
    text: Seq<char>,
)
    requires
        is_line_tag(word),
        is_spelled(name, word),
        is_tag(name, attributes),
    ensures
        text.len() == 0 || text.last() != '\n' ==> html(
            tagged(name + attributes, rest),
            false,
            text,
        ) == html(rest, false, text.push('\n')),
        text.len() > 0 && text.last() == '\n' ==> html(
            tagged(name + attributes, rest),
            false,
            text,
        ) == html(rest, false, text),
        html(tagged(name + attributes, rest), true, text) == html(rest, true, text),
{
    lemma_tag(name, attributes, rest);
    lemma_words(name);
}

/// Any other tag shows nothing.
pub proof fn lemma_other_tags_show_nothing(
    name: Seq<u8>,
    attributes: Seq<u8>,
    rest: Seq<u8>,
    hidden: bool,
    text: Seq<char>,
)
    requires
        is_tag(name, attributes),
        forall|word: Seq<char>|
            is_line_tag(word) || is_opening(word) || is_closing(word) ==> !#[trigger] is_spelled(
                name,
                word,
            ),
    ensures
        html(tagged(name + attributes, rest), hidden, text) == html(rest, hidden, text),
{
    lemma_tag(name, attributes, rest);
    lemma_words(name);
}

/// What is between the tags of scripts and style sheets is hidden, and only
/// that.
pub proof fn lemma_hiding_tags(
    word: Seq<char>,
    name: Seq<u8>,
    attributes: Seq<u8>,
    rest: Seq<u8>,
    hidden: bool,
    text: Seq<char>,
)
    requires
        is_opening(word) || is_closing(word),
        is_spelled(name, word),
        is_tag(name, attributes),
    ensures
        html(tagged(name + attributes, rest), hidden, text) == html(
            rest,
            word == "script"@ || word == "style"@,
            text,
        ),
{
    lemma_tag(name, attributes, rest);
    lemma_words(name);
    reveal_strlit("script");
    reveal_strlit("style");
    reveal_strlit("/script");
    reveal_strlit("/style");
    assert("script"@[0] == 's' && "style"@[0] == 's');
    assert("/script"@[0] == '/' && "/style"@[0] == '/');
}

/// Where nothing is hidden, a visible character that begins neither a tag nor a
/// reference is shown, blanks become one space unless one or a line feed was
/// just shown, and what is left is not shown.
pub proof fn lemma_plain_bytes_of_html(byte: u8, rest: Seq<u8>, text: Seq<char>)
    requires
        byte != 0x3c,
        byte != 0x26,
    ensures
        0x21 <= byte <= 0x7e ==> html(seq![byte] + rest, false, text) == html(
            rest,
            false,
            text.push(byte as char),
        ),
        is_space(byte) && (text.len() == 0 || text.last() != ' ' && text.last() != '\n') ==> html(
            seq![byte] + rest,
            false,
            text,
        ) == html(rest, false, text.push(' ')),
        is_space(byte) && text.len() > 0 && (text.last() == ' ' || text.last() == '\n') ==> html(
            seq![byte] + rest,
            false,
            text,
        ) == html(rest, false, text),
        !(0x21 <= byte <= 0x7e) && !is_space(byte) ==> html(seq![byte] + rest, false, text) == html(
            rest,
            false,
            text,
        ),
        html(seq![byte] + rest, true, text) == html(rest, true, text),
{
    let body = seq![byte] + rest;
    assert(body.skip(1) =~= rest);
    lemma_no_entity(body);
}

proof fn lemma_no_entity(body: Seq<u8>)
    requires
        body.len() > 0,
        body[0] != 0x26,
    ensures
        entity(body) is None,
{
    reveal_strlit("&amp;");
    reveal_strlit("&lt;");
    reveal_strlit("&gt;");
    reveal_strlit("&quot;");
    reveal_strlit("&nbsp;");
    assert("&amp;"@[0] == '&' && "&lt;"@[0] == '&' && "&gt;"@[0] == '&');
    assert("&quot;"@[0] == '&' && "&nbsp;"@[0] == '&');
}

/// The character references, byte by byte, and what each shows.
pub open spec fn is_reference(bytes: Seq<u8>, c: char) -> bool {
    ||| bytes == seq![0x26u8, 0x61, 0x6d, 0x70, 0x3b] && c == '&'
    ||| bytes == seq![0x26u8, 0x6c, 0x74, 0x3b] && c == '<'
    ||| bytes == seq![0x26u8, 0x67, 0x74, 0x3b] && c == '>'
    ||| bytes == seq![0x26u8, 0x71, 0x75, 0x6f, 0x74, 0x3b] && c == '"'
    ||| bytes == seq![0x26u8, 0x6e, 0x62, 0x73, 0x70, 0x3b] && c == ' '
}

/// A reference is shown as its character, which is not looked at again.
pub proof fn lemma_references_decoded(bytes: Seq<u8>, c: char, rest: Seq<u8>, text: Seq<char>)
    requires
        is_reference(bytes, c),
    ensures
        html(bytes + rest, false, text) == html(rest, false, text.push(c)),
{
    let body = bytes + rest;
    reveal_strlit("&amp;");
    reveal_strlit("&lt;");
    reveal_strlit("&gt;");
    reveal_strlit("&quot;");
    reveal_strlit("&nbsp;");
    assert(body.skip(bytes.len() as int) =~= rest);
    assert forall|k: int| 0 <= k < bytes.len() implies body[k] == bytes[k] by {}
    assert(body[0] == 0x26);
    assert(body[1] == bytes[1] && body[2] == bytes[2] && body[3] == bytes[3]);
    if c == '&' {
        assert(begins(body, "&amp;"@));
    } else if c == '<' {
        assert(begins(body, "&lt;"@));
        assert(!begins(body, "&amp;"@)) by {
            assert("&amp;"@[1] == 'a');
        }
    } else if c == '>' {
        assert(begins(body, "&gt;"@));
        assert(!begins(body, "&amp;"@)) by {
            assert("&amp;"@[1] == 'a');
        }
        assert(!begins(body, "&lt;"@)) by {
            assert("&lt;"@[1] == 'l');
        }
    } else {
        assert(!begins(body, "&amp;"@)) by {
            assert("&amp;"@[1] == 'a');
        }
        assert(!begins(body, "&lt;"@)) by {
            assert("&lt;"@[1] == 'l');
        }
        assert(!begins(body, "&gt;"@)) by {
            assert("&gt;"@[1] == 'g');
        }
        if c == '"' {
            assert(begins(body, "&quot;"@));
        } else {
            assert(!begins(body, "&quot;"@)) by {
                assert("&quot;"@[1] == 'q');
            }
            assert(begins(body, "&nbsp;"@));
        }
    }
}

/// An angle bracket that no other one closes is shown as it stands.
pub proof fn lemma_lone_bracket_shown(rest: Seq<u8>, text: Seq<char>)
    requires
        forall|k: int| 0 <= k < rest.len() ==> #[trigger] rest[k] != 0x3e,
    ensures
        html(seq![0x3cu8] + rest, false, text) == html(rest, false, text.push('<')),
{
    let body = seq![0x3cu8] + rest;
    assert(body.skip(1) =~= rest);
    assert forall|k: int| 0 <= k < body.len() implies #[trigger] body[k] != 0x3e by {
        if k > 0 {
            assert(body[k] == rest[k - 1]);
        }
    }
    lemma_absent(body, 0x3e);
    lemma_no_entity(body);
}

proof fn lemma_absent(bytes: Seq<u8>, byte: u8)
    requires
        forall|k: int| 0 <= k < bytes.len() ==> #[trigger] bytes[k] != byte,
    ensures
        byte_index(bytes, byte) == bytes.len(),
    decreases bytes.len(),
{
    if bytes.len() > 0 {
        assert(bytes[0] != byte);
        let rest = bytes.skip(1);
        assert forall|k: int| 0 <= k < rest.len() implies #[trigger] rest[k] != byte by {
            assert(bytes[k + 1] != byte);
        }
        lemma_absent(rest, byte);
    }
}

/// Plain pages are shown byte by byte: what is shown of two parts is what is
/// shown of each, and of one byte it is the byte if it is visible, a space, a
/// line feed or a tab.
pub proof fn lemma_plain_pages(a: Seq<u8>, b: Seq<u8>, byte: u8)
    ensures
        plain(a + b) == plain(a) + plain(b),
        printable_chars(a + b) == printable_chars(a) + printable_chars(b),
        plain(seq![byte]) == (if 0x20 <= byte <= 0x7e || byte == 0x0a || byte == 0x09 {
            seq![byte as char]
        } else {
            Seq::empty()
        }),
        printable_chars(seq![byte]) == (if 0x20 <= byte <= 0x7e {
            seq![byte as char]
        } else {
            Seq::empty()
        }),
    decreases b.len(),
{
    reveal_with_fuel(plain, 2);
    reveal_with_fuel(printable_chars, 2);
    assert(seq![byte].drop_last() =~= Seq::<u8>::empty());
    assert(plain(seq![byte]) =~= (if 0x20 <= byte <= 0x7e || byte == 0x0a || byte == 0x09 {
        seq![byte as char]
    } else {
        Seq::empty()
    }));
    assert(printable_chars(seq![byte]) =~= (if 0x20 <= byte <= 0x7e {
        seq![byte as char]
    } else {
        Seq::empty()
    }));
    if b.len() == 0 {
        assert(a + b =~= a);
        assert(plain(a) + plain(b) =~= plain(a));
        assert(printable_chars(a) + printable_chars(b) =~= printable_chars(a));
    } else {
        lemma_plain_pages(a, b.drop_last(), byte);
        assert((a + b).drop_last() =~= a + b.drop_last());
        assert(plain(a + b) =~= plain(a) + plain(b));
        assert(printable_chars(a + b) =~= printable_chars(a) + printable_chars(b));
    }
}

/// Whether carriage return and line feed stand at a place.
pub open spec fn line_ends_at(bytes: Seq<u8>, i: int) -> bool {
    0 <= i && i + 2 <= bytes.len() && bytes[i] == 0x0d && bytes[i + 1] == 0x0a
}

/// Whether an empty line ends a header at a place.
pub open spec fn header_ends_at(bytes: Seq<u8>, i: int) -> bool {
    line_ends_at(bytes, i) && line_ends_at(bytes, i + 2)
}

proof fn lemma_find(bytes: Seq<u8>, word: Seq<char>, from: int, place: int)
    requires
        0 <= from <= place <= bytes.len(),
        begins(bytes.skip(place), word),
        forall|i: int| from <= i < place ==> !begins(#[trigger] bytes.skip(i), word),
    ensures
        find_from(bytes, word, from) == Some(place),
    decreases place - from,
{
    if from < place {
        assert(!begins(bytes.skip(from), word));
        lemma_find(bytes, word, from + 1, place);
    }
}

proof fn lemma_find_none(bytes: Seq<u8>, word: Seq<char>, from: int)
    requires
        0 <= from,
        forall|i: int| from <= i <= bytes.len() ==> !begins(#[trigger] bytes.skip(i), word),
    ensures
        find_from(bytes, word, from) is None,
    decreases bytes.len() + 1 - from,
{
    if from <= bytes.len() {
        assert(!begins(bytes.skip(from), word));
        lemma_find_none(bytes, word, from + 1);
    }
}

proof fn lemma_line_end(bytes: Seq<u8>, i: int)
    requires
        0 <= i <= bytes.len(),
    ensures
        begins(bytes.skip(i), "\r\n"@) == line_ends_at(bytes, i),
        begins(bytes.skip(i), "\r\n\r\n"@) == header_ends_at(bytes, i),
{
    reveal_strlit("\r\n");
    reveal_strlit("\r\n\r\n");
    let rest = bytes.skip(i);
    assert("\r\n"@[0] == '\r' && "\r\n"@[1] == '\n');
    assert("\r\n\r\n"@[0] == '\r' && "\r\n\r\n"@[1] == '\n' && "\r\n\r\n"@[2] == '\r'
        && "\r\n\r\n"@[3] == '\n');
    if rest.len() >= 2 {
        assert(rest[0] == bytes[i] && rest[1] == bytes[i + 1]);
    }
    if rest.len() >= 4 {
        assert(rest[2] == bytes[i + 2] && rest[3] == bytes[i + 3]);
    }
    if line_ends_at(bytes, i) {
        assert forall|k: int| 0 <= k < 2 implies rest[k] as char == #[trigger] "\r\n"@[k] by {}
    }
    if header_ends_at(bytes, i) {
        assert forall|k: int| 0 <= k < 4 implies rest[k] as char == #[trigger] "\r\n\r\n"@[k] by {}
    }
}

/// Whether a line that begins at a place says that the body is HTML.
pub open spec fn says_html(header: Seq<u8>, i: int) -> bool {
    &&& 0 <= i && i + 23 <= header.len()
    &&& i == 0 || header[i - 1] == 0x0a
    &&& is_spelled(header.subrange(i, i + 12), "content-type"@)
    &&& header[i + 12] == 0x3a && header[i + 13] == 0x20
    &&& is_spelled(header.subrange(i + 14, i + 23), "text/html"@)
}

proof fn lemma_says_html(header: Seq<u8>, i: int)
    requires
        0 <= i <= header.len(),
        i == 0 || header[i - 1] == 0x0a,
    ensures
        begins_in_any_case(header.skip(i), "content-type: text/html"@) == says_html(header, i),
{
    reveal_strlit("content-type: text/html");
    reveal_strlit("content-type");
    reveal_strlit("text/html");
    let whole = "content-type: text/html"@;
    let field = "content-type"@;
    let value = "text/html"@;
    let rest = header.skip(i);
    if i + 23 <= header.len() {
        let a = header.subrange(i, i + 12);
        let b = header.subrange(i + 14, i + 23);
        lemma_spelled(a, field);
        lemma_spelled(b, value);
        assert forall|k: int| 0 <= k < 12 implies a[k] == rest[k] && #[trigger] field[k]
            == whole[k] by {}
        assert forall|k: int| 0 <= k < 9 implies b[k] == rest[k + 14] && #[trigger] value[k]
            == whole[k + 14] by {}
        assert(rest[12] == header[i + 12] && rest[13] == header[i + 13]);
        assert(whole[12] == ':' && whole[13] == ' ');
        if begins_in_any_case(rest, whole) {
            assert forall|k: int| 0 <= k < field.len() implies lower(a[k]) as char
                == #[trigger] field[k] by {
                assert(lower(rest[k]) as char == whole[k]);
            }
            assert forall|k: int| 0 <= k < value.len() implies lower(b[k]) as char
                == #[trigger] value[k] by {
                assert(lower(rest[k + 14]) as char == whole[k + 14]);
            }
            assert(lower(rest[12]) as char == whole[12] && lower(rest[13]) as char == whole[13]);
        }
        if says_html(header, i) {
            assert forall|k: int| 0 <= k < whole.len() implies lower(rest[k]) as char
                == #[trigger] whole[k] by {
                if k < 12 {
                    assert(lower(a[k]) as char == field[k]);
                } else if k >= 14 {
                    assert(lower(b[k - 14]) as char == value[k - 14]);
                }
            }
        }
    }
}

/// A response is shown as the visible part of its status line, a line feed, and
/// its body: as HTML exactly if a line of its header says so. The header ends at
/// the first empty line, and the status line at the first line end before.
pub proof fn lemma_response_shown(response: Seq<u8>, header_end: int, status_end: int)
    requires
        header_ends_at(response, header_end),
        forall|i: int| 0 <= i < header_end ==> !#[trigger] header_ends_at(response, i),
        0 <= status_end <= header_end,
        status_end == header_end || line_ends_at(response, status_end) && status_end + 2
            <= header_end,
        forall|i: int| 0 <= i < status_end && i + 2 <= header_end ==> !#[trigger] line_ends_at(
            response,
            i,
        ),
        status_end >= 5,
        response.take(5) == seq![0x48u8, 0x54, 0x54, 0x50, 0x2f],
    ensures
        ({
            let header = response.take(header_end);
            let body = response.skip(header_end + 4);
            let shown = printable_chars(response.take(status_end)).push('\n');
            &&& (exists|i: int| says_html(header, i)) ==> page(response) == Ok::<
                Seq<char>,
                PageFault,
            >(html(body, false, shown))
            &&& !(exists|i: int| says_html(header, i)) ==> page(response) == Ok::<
                Seq<char>,
                PageFault,
            >(shown + plain(body))
        }),
{
    let header = response.take(header_end);
    assert forall|i: int| 0 <= i < header_end implies !begins(
        #[trigger] response.skip(i),
        "\r\n\r\n"@,
    ) by {
        lemma_line_end(response, i);
        assert(!header_ends_at(response, i));
    }
    lemma_line_end(response, header_end);
    lemma_find(response, "\r\n\r\n"@, 0, header_end);
    assert forall|i: int| 0 <= i < status_end implies !begins(#[trigger] header.skip(i), "\r\n"@) by {
        lemma_line_end(header, i);
        assert(line_ends_at(header, i) ==> line_ends_at(response, i));
    }
    if status_end < header_end {
        lemma_line_end(header, status_end);
        lemma_find(header, "\r\n"@, 0, status_end);
    } else {
        assert forall|i: int| 0 <= i <= header.len() implies !begins(
            #[trigger] header.skip(i),
            "\r\n"@,
        ) by {
            lemma_line_end(header, i);
        }
        lemma_find_none(header, "\r\n"@, 0);
        assert(header.take(status_end) =~= header);
    }
    let status = response.take(status_end);
    assert(header.take(status_end) =~= status);
    reveal_strlit("HTTP/");
    assert(begins(status, "HTTP/"@)) by {
        assert forall|k: int| 0 <= k < 5 implies status[k] as char == #[trigger] "HTTP/"@[k] by {
            assert(status[k] == response.take(5)[k]);
        }
    }
    if exists|i: int| says_html(header, i) {
        let i = choose|i: int| says_html(header, i);
        lemma_says_html(header, i);
        assert(begins_in_any_case(header.skip(i), "content-type: text/html"@));
        assert(declares_html(header));
    }
    if declares_html(header) {
        let i = choose|i: int|
            #![trigger header.skip(i)]
            0 <= i <= header.len() && (i == 0 || header[i - 1] == 0x0a) && begins_in_any_case(
                header.skip(i),
                "content-type: text/html"@,
            );
        lemma_says_html(header, i);
        assert(says_html(header, i));
    }
}

/// A response without an empty line is refused as such, and so is, for its
/// status, one that does not begin as an HTTP status does.
pub proof fn lemma_bad_responses_refused(response: Seq<u8>)
    ensures
        (forall|i: int| 0 <= i <= response.len() ==> !#[trigger] header_ends_at(response, i))
            ==> page(response) == Err::<Seq<char>, PageFault>(PageFault::Response),
        page(response) is Ok ==> response.len() >= 5 && response.take(5) == seq![
            0x48u8,
            0x54,
            0x54,
            0x50,
            0x2f,
        ],
        (exists|i: int| #[trigger] header_ends_at(response, i)) ==> page(response) != Err::<
            Seq<char>,
            PageFault,
        >(PageFault::Response),
{
    if exists|i: int| #[trigger] header_ends_at(response, i) {
        let i = choose|i: int| #[trigger] header_ends_at(response, i);
        lemma_line_end(response, i);
        lemma_finds(response, "\r\n\r\n"@, 0, i);
    }
    if forall|i: int| 0 <= i <= response.len() ==> !#[trigger] header_ends_at(response, i) {
        assert forall|i: int| 0 <= i <= response.len() implies !begins(
            #[trigger] response.skip(i),
            "\r\n\r\n"@,
        ) by {
            lemma_line_end(response, i);
        }
        lemma_find_none(response, "\r\n\r\n"@, 0);
    }
    if page(response) is Ok {
        reveal_strlit("HTTP/");
        reveal_strlit("\r\n\r\n");
        reveal_strlit("\r\n");
        let header_end = find_from(response, "\r\n\r\n"@, 0)->0;
        lemma_found(response, "\r\n\r\n"@, 0);
        let header = response.take(header_end);
        lemma_found(header, "\r\n"@, 0);
        let status = match find_from(header, "\r\n"@, 0) {
            Some(end) => header.take(end),
            None => header,
        };
        assert(begins(status, "HTTP/"@));
        assert("HTTP/"@[0] == 'H' && "HTTP/"@[1] == 'T' && "HTTP/"@[2] == 'T' && "HTTP/"@[3] == 'P'
            && "HTTP/"@[4] == '/');
        assert forall|k: int| 0 <= k < 5 implies status[k] as char == "HTTP/"@[k] && status[k]
            == response[k] by {}
        assert(response.take(5) =~= seq![0x48u8, 0x54, 0x54, 0x50, 0x2f]);
    }
}

proof fn lemma_finds(bytes: Seq<u8>, word: Seq<char>, from: int, place: int)
    requires
        0 <= from <= place <= bytes.len(),
        begins(bytes.skip(place), word),
    ensures
        find_from(bytes, word, from) is Some,
    decreases place - from,
{
    if from < place {
        lemma_finds(bytes, word, from + 1, place);
    }
}

proof fn lemma_found(bytes: Seq<u8>, word: Seq<char>, from: int)
    requires
        0 <= from,
    ensures
        find_from(bytes, word, from) matches Some(k) ==> 0 <= k <= bytes.len(),
    decreases bytes.len() + 1 - from,
{
    if from <= bytes.len() {
        lemma_found(bytes, word, from + 1);
    }
}

} // verus!
