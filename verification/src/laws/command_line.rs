//! How arguments are written on a command line, and read from it.
use vstd::prelude::*;

use crate::shell::arguments::{
    lemma_run_concat, lemma_run_ok_prefix, lemma_run_one, lemma_run_opened, lemma_run_quoted, split,
    Fault, Lexer,
};

verus! {

/// Space, tab, line feed, form feed or carriage return.
pub open spec fn separates(byte: u8) -> bool {
    byte == 0x20 || byte == 0x09 || byte == 0x0a || byte == 0x0c || byte == 0x0d
}

/// The characters `|`, `>`, `<`, `;` and `&`.
pub open spec fn is_shell_operator(byte: u8) -> bool {
    byte == 0x7c || byte == 0x3e || byte == 0x3c || byte == 0x3b || byte == 0x26
}

/// A character that stands for itself outside quotes.
pub open spec fn is_ordinary(byte: u8) -> bool {
    !separates(byte) && !is_shell_operator(byte) && byte != 0x27 && byte != 0x22 && byte != 0x5c
}

/// A part of an argument, as it can be written.
pub enum Piece {
    /// A character as it stands.
    Plain(u8),
    /// A backslash and a character.
    Escaped(u8),
    /// A text between single quotes.
    Single(Seq<u8>),
    /// A text between double quotes, each character with a backslash or without.
    Double(Seq<(bool, u8)>),
}

pub open spec fn is_piece(piece: Piece) -> bool {
    match piece {
        Piece::Plain(byte) => is_ordinary(byte),
        Piece::Escaped(_) => true,
        Piece::Single(text) => !text.contains(0x27),
        Piece::Double(items) => are_items(items),
    }
}

/// A character between double quotes, with a backslash before it or without.
pub open spec fn is_item(item: (bool, u8)) -> bool {
    item.0 || item.1 != 0x22 && item.1 != 0x5c
}

pub open spec fn are_items(items: Seq<(bool, u8)>) -> bool {
    forall|i: int| 0 <= i < items.len() ==> is_item(#[trigger] items[i])
}

/// Characters between double quotes as they are written, and what they mean.
pub open spec fn written_items(items: Seq<(bool, u8)>) -> Seq<u8>
    decreases items.len(),
{
    if items.len() == 0 {
        Seq::empty()
    } else {
        written_items(items.drop_last()) + if items.last().0 {
            seq![0x5cu8, items.last().1]
        } else {
            seq![items.last().1]
        }
    }
}

pub open spec fn meant_items(items: Seq<(bool, u8)>) -> Seq<u8> {
    Seq::new(items.len(), |i: int| items[i].1)
}

pub open spec fn written_piece(piece: Piece) -> Seq<u8> {
    match piece {
        Piece::Plain(byte) => seq![byte],
        Piece::Escaped(byte) => seq![0x5cu8, byte],
        Piece::Single(text) => seq![0x27u8] + text + seq![0x27u8],
        Piece::Double(items) => seq![0x22u8] + written_items(items) + seq![0x22u8],
    }
}

pub open spec fn meant_piece(piece: Piece) -> Seq<u8> {
    match piece {
        Piece::Plain(byte) => seq![byte],
        Piece::Escaped(byte) => seq![byte],
        Piece::Single(text) => text,
        Piece::Double(items) => meant_items(items),
    }
}

/// An argument out of pieces, as it is written and as it is meant.
pub open spec fn written_word(word: Seq<Piece>) -> Seq<u8>
    decreases word.len(),
{
    if word.len() == 0 {
        Seq::empty()
    } else {
        written_word(word.drop_last()) + written_piece(word.last())
    }
}

pub open spec fn meant_word(word: Seq<Piece>) -> Seq<u8>
    decreases word.len(),
{
    if word.len() == 0 {
        Seq::empty()
    } else {
        meant_word(word.drop_last()) + meant_piece(word.last())
    }
}

pub open spec fn is_word(word: Seq<Piece>) -> bool {
    word.len() > 0 && forall|i: int| 0 <= i < word.len() ==> is_piece(#[trigger] word[i])
}

pub open spec fn is_gap(gap: Seq<u8>) -> bool {
    forall|i: int| 0 <= i < gap.len() ==> separates(#[trigger] gap[i])
}

/// A line: a gap, and then arguments with a gap behind each.
pub open spec fn written_line(margin: Seq<u8>, words: Seq<Seq<Piece>>, gaps: Seq<Seq<u8>>) -> Seq<u8>
    decreases words.len(),
{
    if words.len() == 0 {
        margin
    } else {
        written_line(margin, words.drop_last(), gaps.drop_last()) + written_word(words.last())
            + gaps.last()
    }
}

pub open spec fn meant_line(words: Seq<Seq<Piece>>) -> Seq<Seq<u8>> {
    Seq::new(words.len(), |i: int| meant_word(words[i]))
}

/// Only the last gap may be empty.
pub open spec fn is_line(margin: Seq<u8>, words: Seq<Seq<Piece>>, gaps: Seq<Seq<u8>>) -> bool {
    &&& is_gap(margin)
    &&& gaps.len() == words.len()
    &&& forall|i: int| 0 <= i < words.len() ==> is_word(#[trigger] words[i])
    &&& forall|i: int| 0 <= i < gaps.len() ==> is_gap(#[trigger] gaps[i])
    &&& forall|i: int| 0 <= i < gaps.len() - 1 ==> (#[trigger] gaps[i]).len() > 0
}

/// Outside quotes, with no backslash before.
spec fn is_open(lexer: Lexer) -> bool {
    lexer.quote is None && !lexer.escaped
}

proof fn lemma_items(lexer: Lexer, items: Seq<(bool, u8)>)
    requires
        are_items(items),
        lexer.quote == Some(0x22u8),
        !lexer.escaped,
        lexer.word is Some,
    ensures
        lexer.run(written_items(items)) == Ok::<Lexer, Fault>(
            Lexer { word: Some(lexer.begun() + meant_items(items)), ..lexer },
        ),
    decreases items.len(),
{
    if items.len() == 0 {
        assert(lexer.begun() + meant_items(items) =~= lexer.begun());
        assert(written_items(items) == Seq::<u8>::empty());
    } else {
        let shorter = items.drop_last();
        let (escaped, byte) = items.last();
        assert(items[items.len() - 1] == items.last());
        assert(is_item(items[items.len() - 1]));
        assert forall|i: int| 0 <= i < shorter.len() implies is_item(#[trigger] shorter[i]) by {
            assert(is_item(items[i]));
        }
        lemma_items(lexer, shorter);
        let before = lexer.run(written_items(shorter))->Ok_0;
        assert(lexer.begun() + meant_items(items) =~= (lexer.begun() + meant_items(shorter)).push(
            byte,
        ));
        if escaped {
            lemma_run_concat(lexer, written_items(shorter), seq![0x5cu8, byte]);
            lemma_run_one(before, 0x5c);
            lemma_run_concat(before, seq![0x5cu8], seq![byte]);
            assert(seq![0x5cu8] + seq![byte] =~= seq![0x5cu8, byte]);
            lemma_run_one(before.step(0x5c)->Ok_0, byte);
        } else {
            lemma_run_concat(lexer, written_items(shorter), seq![byte]);
            lemma_run_one(before, byte);
        }
    }
}

proof fn lemma_piece(lexer: Lexer, piece: Piece)
    requires
        is_piece(piece),
        is_open(lexer),
    ensures
        lexer.run(written_piece(piece)) == Ok::<Lexer, Fault>(
            Lexer { word: Some(lexer.begun() + meant_piece(piece)), ..lexer },
        ),
{
    match piece {
        Piece::Plain(byte) => {
            lemma_run_one(lexer, byte);
            assert(lexer.begun() + seq![byte] =~= lexer.begun().push(byte));
        },
        Piece::Escaped(byte) => {
            lemma_run_one(lexer, 0x5c);
            lemma_run_concat(lexer, seq![0x5cu8], seq![byte]);
            assert(seq![0x5cu8] + seq![byte] =~= seq![0x5cu8, byte]);
            lemma_run_one(lexer.step(0x5c)->Ok_0, byte);
            assert(lexer.begun() + seq![byte] =~= lexer.begun().push(byte));
        },
        Piece::Single(text) => {
            lemma_run_one(lexer, 0x27);
            let opened = lexer.step(0x27)->Ok_0;
            lemma_run_concat(lexer, seq![0x27u8], text);
            lemma_run_quoted(opened, 0x27, text);
            lemma_run_concat(lexer, seq![0x27u8] + text, seq![0x27u8]);
            lemma_run_one(opened.run(text)->Ok_0, 0x27);
        },
        Piece::Double(items) => {
            lemma_run_one(lexer, 0x22);
            let opened = lexer.step(0x22)->Ok_0;
            let inner = written_items(items);
            lemma_run_concat(lexer, seq![0x22u8], inner);
            lemma_items(opened, items);
            lemma_run_concat(lexer, seq![0x22u8] + inner, seq![0x22u8]);
            lemma_run_one(opened.run(inner)->Ok_0, 0x22);
        },
    }
}

proof fn lemma_word(lexer: Lexer, word: Seq<Piece>)
    requires
        forall|i: int| 0 <= i < word.len() ==> is_piece(#[trigger] word[i]),
        is_open(lexer),
    ensures
        lexer.run(written_word(word)) == Ok::<Lexer, Fault>(
            if word.len() == 0 {
                lexer
            } else {
                Lexer { word: Some(lexer.begun() + meant_word(word)), ..lexer }
            },
        ),
        word.len() == 0 ==> lexer.begun() + meant_word(word) == lexer.begun(),
    decreases word.len(),
{
    if word.len() == 0 {
        assert(lexer.begun() + meant_word(word) =~= lexer.begun());
        assert(written_word(word) == Seq::<u8>::empty());
    } else {
        let shorter = word.drop_last();
        assert forall|i: int| 0 <= i < shorter.len() implies is_piece(#[trigger] shorter[i]) by {
            assert(word[i] == shorter[i]);
        }
        lemma_word(lexer, shorter);
        assert(word[word.len() - 1] == word.last());
        let before = lexer.run(written_word(shorter))->Ok_0;
        lemma_run_concat(lexer, written_word(shorter), written_piece(word.last()));
        lemma_piece(before, word.last());
        assert(lexer.begun() + meant_word(word) =~= (lexer.begun() + meant_word(shorter))
            + meant_piece(word.last()));
    }
}

/// A gap ends the argument that has begun, if there is room for it.
proof fn lemma_gap(lexer: Lexer, gap: Seq<u8>)
    requires
        is_gap(gap),
        is_open(lexer),
    ensures
        gap.len() > 0 ==> lexer.run(gap) == lexer.complete(),
        gap.len() == 0 ==> lexer.run(gap) == Ok::<Lexer, Fault>(lexer),
    decreases gap.len(),
{
    if gap.len() > 0 {
        let shorter = gap.drop_last();
        assert forall|i: int| 0 <= i < shorter.len() implies separates(#[trigger] shorter[i]) by {
            assert(gap[i] == shorter[i]);
        }
        lemma_gap(lexer, shorter);
        assert(separates(gap[gap.len() - 1]));
    }
}

/// Where reading stands at the end of a line.
spec fn state(words: Seq<Seq<Piece>>, gaps: Seq<Seq<u8>>) -> Lexer {
    if words.len() > 0 && gaps.last().len() == 0 {
        Lexer {
            args: meant_line(words.drop_last()),
            word: Some(meant_word(words.last())),
            quote: None,
            escaped: false,
        }
    } else {
        Lexer { args: meant_line(words), word: None, quote: None, escaped: false }
    }
}

/// With one argument more, before its gap.
proof fn lemma_next_word(margin: Seq<u8>, words: Seq<Seq<Piece>>, gaps: Seq<Seq<u8>>)
    requires
        is_line(margin, words, gaps),
        0 < words.len() <= 33,
    ensures
        Lexer::start().run(
            written_line(margin, words.drop_last(), gaps.drop_last()) + written_word(words.last()),
        ) == Ok::<Lexer, Fault>(
            Lexer {
                args: meant_line(words.drop_last()),
                word: Some(meant_word(words.last())),
                quote: None,
                escaped: false,
            },
        ),
    decreases words.len(), 0int,
{
    let fewer = words.drop_last();
    let spaces = gaps.drop_last();
    assert(is_line(margin, fewer, spaces)) by {
        assert forall|i: int| 0 <= i < fewer.len() implies is_word(#[trigger] fewer[i]) by {
            assert(words[i] == fewer[i]);
        }
        assert forall|i: int| 0 <= i < spaces.len() implies is_gap(#[trigger] spaces[i]) && spaces[i].len()
            > 0 by {
            assert(gaps[i] == spaces[i]);
        }
    }
    assert(words[words.len() - 1] == words.last());
    assert(is_word(words.last()));
    lemma_line(margin, fewer, spaces);
    if fewer.len() > 0 {
        assert(gaps[spaces.len() - 1] == spaces.last());
        assert(gaps[spaces.len() - 1].len() > 0);
    }
    let before = written_line(margin, fewer, spaces);
    lemma_run_concat(Lexer::start(), before, written_word(words.last()));
    lemma_word(state(fewer, spaces), words.last());
    assert(Seq::<u8>::empty() + meant_word(words.last()) =~= meant_word(words.last()));
}

proof fn lemma_line(margin: Seq<u8>, words: Seq<Seq<Piece>>, gaps: Seq<Seq<u8>>)
    requires
        is_line(margin, words, gaps),
        words.len() <= 32,
    ensures
        Lexer::start().run(written_line(margin, words, gaps)) == Ok::<Lexer, Fault>(
            state(words, gaps),
        ),
    decreases words.len(), 1int,
{
    if words.len() == 0 {
        lemma_gap(Lexer::start(), margin);
        assert(meant_line(words) =~= Seq::<Seq<u8>>::empty());
        assert(state(words, gaps) =~= Lexer::start());
    } else {
        lemma_next_word(margin, words, gaps);
        let before = written_line(margin, words.drop_last(), gaps.drop_last()) + written_word(
            words.last(),
        );
        let lexer = Lexer::start().run(before)->Ok_0;
        assert(gaps[gaps.len() - 1] == gaps.last());
        lemma_run_concat(Lexer::start(), before, gaps.last());
        lemma_gap(lexer, gaps.last());
        assert(meant_line(words) =~= meant_line(words.drop_last()).push(meant_word(words.last())));
    }
}

/// However arguments are written, with backslashes and quotes as they please and
/// blanks between them, they are read as they are meant, if there are at most
/// thirty-two.
pub proof fn lemma_written_arguments_are_read(
    margin: Seq<u8>,
    words: Seq<Seq<Piece>>,
    gaps: Seq<Seq<u8>>,
)
    requires
        is_line(margin, words, gaps),
    ensures
        words.len() <= 32 ==> split(written_line(margin, words, gaps)) == Ok::<
            Seq<Seq<u8>>,
            Fault,
        >(meant_line(words)),
        words.len() > 32 ==> split(written_line(margin, words, gaps)) == Err::<
            Seq<Seq<u8>>,
            Fault,
        >(Fault::Count),
    decreases words.len(),
{
    let line = written_line(margin, words, gaps);
    if words.len() <= 32 {
        lemma_line(margin, words, gaps);
        if words.len() > 0 && gaps.last().len() == 0 {
            assert(meant_line(words) =~= meant_line(words.drop_last()).push(
                meant_word(words.last()),
            ));
        }
    } else if words.len() == 33 {
        lemma_next_word(margin, words, gaps);
        let before = written_line(margin, words.drop_last(), gaps.drop_last()) + written_word(
            words.last(),
        );
        let lexer = Lexer::start().run(before)->Ok_0;
        assert(gaps[gaps.len() - 1] == gaps.last());
        lemma_run_concat(Lexer::start(), before, gaps.last());
        lemma_gap(lexer, gaps.last());
    } else {
        let fewer = words.drop_last();
        let spaces = gaps.drop_last();
        assert forall|i: int| 0 <= i < fewer.len() implies is_word(#[trigger] fewer[i]) by {
            assert(words[i] == fewer[i]);
        }
        assert forall|i: int| 0 <= i < spaces.len() implies is_gap(#[trigger] spaces[i]) && spaces[i].len()
            > 0 by {
            assert(gaps[i] == spaces[i]);
        }
        lemma_overfull(margin, fewer, spaces);
        let before = written_line(margin, fewer, spaces);
        let rest = written_word(words.last()) + gaps.last();
        assert(line =~= before + rest);
        assert(line.take(before.len() as int) =~= before);
        lemma_run_ok_prefix(Lexer::start(), line, before.len() as int);
    }
}

/// A line of more than thirty-two arguments with a gap behind the last fails
/// before it ends.
proof fn lemma_overfull(margin: Seq<u8>, words: Seq<Seq<Piece>>, gaps: Seq<Seq<u8>>)
    requires
        is_line(margin, words, gaps),
        words.len() > 32,
        gaps.last().len() > 0,
    ensures
        Lexer::start().run(written_line(margin, words, gaps)) == Err::<Lexer, Fault>(Fault::Count),
    decreases words.len(),
{
    let line = written_line(margin, words, gaps);
    if words.len() == 33 {
        lemma_next_word(margin, words, gaps);
        let before = written_line(margin, words.drop_last(), gaps.drop_last()) + written_word(
            words.last(),
        );
        let lexer = Lexer::start().run(before)->Ok_0;
        assert(gaps[gaps.len() - 1] == gaps.last());
        lemma_run_concat(Lexer::start(), before, gaps.last());
        lemma_gap(lexer, gaps.last());
    } else {
        let fewer = words.drop_last();
        let spaces = gaps.drop_last();
        assert forall|i: int| 0 <= i < fewer.len() implies is_word(#[trigger] fewer[i]) by {
            assert(words[i] == fewer[i]);
        }
        assert forall|i: int| 0 <= i < spaces.len() implies is_gap(#[trigger] spaces[i]) && spaces[i].len()
            > 0 by {
            assert(gaps[i] == spaces[i]);
        }
        lemma_overfull(margin, fewer, spaces);
        let before = written_line(margin, fewer, spaces);
        assert(line.take(before.len() as int) =~= before);
        lemma_run_ok_prefix(Lexer::start(), line, before.len() as int);
    }
}

/// Behind any arguments, an operator refuses the line whatever follows, and a
/// backslash or a quote that nothing ends refuses it too.
pub proof fn lemma_unfinished_lines_are_refused(
    margin: Seq<u8>,
    words: Seq<Seq<Piece>>,
    gaps: Seq<Seq<u8>>,
    operator: u8,
    after: Seq<u8>,
    text: Seq<u8>,
    items: Seq<(bool, u8)>,
)
    requires
        is_line(margin, words, gaps),
        words.len() <= 32,
        is_shell_operator(operator),
        is_piece(Piece::Single(text)),
        is_piece(Piece::Double(items)),
    ensures
        ({
            let line = written_line(margin, words, gaps);
            &&& split(line + seq![operator] + after) == Err::<Seq<Seq<u8>>, Fault>(Fault::Operator)
            &&& split(line + seq![0x5cu8]) == Err::<Seq<Seq<u8>>, Fault>(Fault::Escape)
            &&& split(line + (seq![0x27u8] + text)) == Err::<Seq<Seq<u8>>, Fault>(Fault::Quote)
            &&& split(line + (seq![0x22u8] + written_items(items))) == Err::<Seq<Seq<u8>>, Fault>(
                Fault::Quote,
            )
        }),
{
    let line = written_line(margin, words, gaps);
    lemma_line(margin, words, gaps);
    let lexer = Lexer::start().run(line)->Ok_0;
    lemma_run_concat(Lexer::start(), line, seq![operator]);
    lemma_run_one(lexer, operator);
    let refused = line + seq![operator];
    assert((refused + after).take(refused.len() as int) =~= refused);
    lemma_run_ok_prefix(Lexer::start(), refused + after, refused.len() as int);
    lemma_run_concat(Lexer::start(), line, seq![0x5cu8]);
    lemma_run_one(lexer, 0x5c);
    lemma_run_concat(Lexer::start(), line, seq![0x27u8] + text);
    lemma_run_one(lexer, 0x27);
    lemma_run_concat(lexer, seq![0x27u8], text);
    lemma_run_quoted(lexer.step(0x27)->Ok_0, 0x27, text);
    lemma_run_concat(Lexer::start(), line, seq![0x22u8] + written_items(items));
    lemma_run_one(lexer, 0x22);
    lemma_run_concat(lexer, seq![0x22u8], written_items(items));
    lemma_items(lexer.step(0x22)->Ok_0, items);
}

/// Between double quotes a backslash makes any next character an ordinary one.
pub proof fn lemma_backslash_escapes_between_double_quotes(p: Seq<u8>, byte: u8, q: Seq<u8>)
    requires
        forall|i: int| 0 <= i < p.len() ==> #[trigger] p[i] != 0x22 && p[i] != 0x5c,
        forall|i: int| 0 <= i < q.len() ==> #[trigger] q[i] != 0x22 && q[i] != 0x5c,
    ensures
        split(seq![0x22u8] + p + seq![0x5cu8, byte] + q + seq![0x22u8]) == Ok::<
            Seq<Seq<u8>>,
            Fault,
        >(seq![p + seq![byte] + q]),
{
    lemma_run_opened(0x22, p);
    let opened = Lexer::start().run(seq![0x22u8] + p)->Ok_0;
    let a = seq![0x22u8] + p;
    lemma_run_one(opened, 0x5c);
    let escaped = opened.step(0x5c)->Ok_0;
    assert(seq![0x5cu8] + seq![byte] =~= seq![0x5cu8, byte]);
    lemma_run_concat(opened, seq![0x5cu8], seq![byte]);
    lemma_run_one(escaped, byte);
    lemma_run_concat(Lexer::start(), a, seq![0x5cu8, byte]);
    let b = a + seq![0x5cu8, byte];
    let past = Lexer::start().run(b)->Ok_0;
    assert(past.begun() =~= p.push(byte));
    lemma_run_concat(Lexer::start(), b, q);
    lemma_run_quoted(past, 0x22, q);
    let c = b + q;
    lemma_run_concat(Lexer::start(), c, seq![0x22u8]);
    lemma_run_one(Lexer::start().run(c)->Ok_0, 0x22);
    assert(p.push(byte) + q =~= p + seq![byte] + q);
    assert(Seq::<Seq<u8>>::empty().push(p + seq![byte] + q) =~= seq![p + seq![byte] + q]);
}

proof fn lemma_ordinary(lexer: Lexer, text: Seq<u8>)
    requires
        is_open(lexer),
        forall|i: int| 0 <= i < text.len() ==> is_ordinary(#[trigger] text[i]),
    ensures
        lexer.run(text) == Ok::<Lexer, Fault>(
            if text.len() == 0 {
                lexer
            } else {
                Lexer { word: Some(lexer.begun() + text), ..lexer }
            },
        ),
    decreases text.len(),
{
    if text.len() > 0 {
        let shorter = text.drop_last();
        assert forall|i: int| 0 <= i < shorter.len() implies is_ordinary(#[trigger] shorter[i]) by {
            assert(text[i] == shorter[i]);
        }
        lemma_ordinary(lexer, shorter);
        assert(is_ordinary(text[text.len() - 1]));
        assert(lexer.begun() + text =~= (lexer.begun() + shorter).push(text.last()));
        if shorter.len() == 0 {
            assert(lexer.begun() + shorter =~= lexer.begun());
        }
    }
}

/// So it does outside quotes, within a word of ordinary characters; the word is
/// one argument.
pub proof fn lemma_backslash_escapes_within_words(p: Seq<u8>, byte: u8, q: Seq<u8>)
    requires
        forall|i: int| 0 <= i < p.len() ==> is_ordinary(#[trigger] p[i]),
        forall|i: int| 0 <= i < q.len() ==> is_ordinary(#[trigger] q[i]),
    ensures
        split(p + seq![0x5cu8, byte] + q) == Ok::<Seq<Seq<u8>>, Fault>(seq![p + seq![byte] + q]),
{
    lemma_ordinary(Lexer::start(), p);
    let begun = Lexer::start().run(p)->Ok_0;
    assert(begun.begun() =~= p);
    lemma_run_one(begun, 0x5c);
    assert(seq![0x5cu8] + seq![byte] =~= seq![0x5cu8, byte]);
    lemma_run_concat(begun, seq![0x5cu8], seq![byte]);
    lemma_run_one(begun.step(0x5c)->Ok_0, byte);
    lemma_run_concat(Lexer::start(), p, seq![0x5cu8, byte]);
    let a = p + seq![0x5cu8, byte];
    let past = Lexer::start().run(a)->Ok_0;
    lemma_run_concat(Lexer::start(), a, q);
    lemma_ordinary(past, q);
    assert(p.push(byte) + q =~= p + seq![byte] + q);
    assert(p.push(byte) + Seq::<u8>::empty() =~= p.push(byte));
    assert(Seq::<Seq<u8>>::empty().push(p + seq![byte] + q) =~= seq![p + seq![byte] + q]);
}

} // verus!
