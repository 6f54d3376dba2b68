//! Splitting a command line into arguments.
use vstd::prelude::*;
use vstd::slice::slice_subrange;
use vstd::string::{is_ascii_spec_bytes, StringSliceAdditionalSpecFns};

use crate::text::{ascii_str, chars, is_blank};
use crate::vga_buffer::is_ascii_text;

verus! {

pub const MAX_ARGS: usize = 32;

/// Why a command line has no arguments to offer.
pub enum Fault {
    Input,
    Operator,
    Escape,
    Quote,
    Count,
}

impl Fault {
    pub open spec fn message(self) -> Seq<char> {
        match self {
            Fault::Input => "input must be at most 256 ASCII bytes"@,
            Fault::Operator => "pipes, redirection and command chaining are not available"@,
            Fault::Escape => "unfinished backslash escape"@,
            Fault::Quote => "unclosed quote"@,
            Fault::Count => "too many arguments (maximum 32)"@,
        }
    }
}

/// Where splitting stands: the arguments that are complete, the one that has
/// begun, the quote that is open, and whether the next byte is escaped.
#[verifier::ext_equal]
pub struct Lexer {
    pub args: Seq<Seq<u8>>,
    pub word: Option<Seq<u8>>,
    pub quote: Option<u8>,
    pub escaped: bool,
}

pub open spec fn is_operator(byte: u8) -> bool {
    byte == 0x7c || byte == 0x3e || byte == 0x3c || byte == 0x3b || byte == 0x26
}

impl Lexer {
    pub open spec fn start() -> Lexer {
        Lexer { args: Seq::empty(), word: None, quote: None, escaped: false }
    }

    /// The text of the argument that has begun, empty if none has.
    pub open spec fn begun(self) -> Seq<u8> {
        match self.word {
            Some(word) => word,
            None => Seq::empty(),
        }
    }

    pub open spec fn complete(self) -> Result<Lexer, Fault> {
        match self.word {
            Some(word) => if self.args.len() >= 32 {
                Err(Fault::Count)
            } else {
                Ok(Lexer { args: self.args.push(word), word: None, ..self })
            },
            None => Ok(self),
        }
    }

    pub open spec fn step(self, byte: u8) -> Result<Lexer, Fault> {
        if self.escaped {
            Ok(Lexer { word: Some(self.begun().push(byte)), escaped: false, ..self })
        } else if byte == 0x5c && self.quote != Some(0x27u8) {
            Ok(Lexer { word: Some(self.begun()), escaped: true, ..self })
        } else if self.quote == Some(byte) {
            Ok(Lexer { quote: None, ..self })
        } else if self.quote is None && (byte == 0x27 || byte == 0x22) {
            Ok(Lexer { word: Some(self.begun()), quote: Some(byte), ..self })
        } else if self.quote is None && is_blank(byte) {
            self.complete()
        } else if self.quote is None && is_operator(byte) {
            Err(Fault::Operator)
        } else {
            Ok(Lexer { word: Some(self.begun().push(byte)), ..self })
        }
    }

    pub open spec fn run(self, input: Seq<u8>) -> Result<Lexer, Fault>
        decreases input.len(),
    {
        if input.len() == 0 {
            Ok(self)
        } else {
            match self.run(input.drop_last()) {
                Ok(lexer) => lexer.step(input.last()),
                Err(fault) => Err(fault),
            }
        }
    }

    pub open spec fn finish(self) -> Result<Seq<Seq<u8>>, Fault> {
        if self.escaped {
            Err(Fault::Escape)
        } else if self.quote is Some {
            Err(Fault::Quote)
        } else {
            match self.complete() {
                Ok(lexer) => Ok(lexer.args),
                Err(fault) => Err(fault),
            }
        }
    }
}

/// The bytes of an ASCII text.
pub open spec fn bytes_of(text: Seq<char>) -> Seq<u8> {
    Seq::new(text.len(), |i: int| text[i] as u8)
}

/// The arguments on a command line.
pub open spec fn split(input: Seq<u8>) -> Result<Seq<Seq<u8>>, Fault> {
    match Lexer::start().run(input) {
        Ok(lexer) => lexer.finish(),
        Err(fault) => Err(fault),
    }
}

/// The arguments in a text: only ASCII of at most 256 characters is split.
pub open spec fn arguments_of(input: Seq<char>) -> Result<Seq<Seq<u8>>, Fault> {
    if input.len() > 256 || !is_ascii_text(input) {
        Err(Fault::Input)
    } else {
        split(bytes_of(input))
    }
}

/// Quotes and escapes are resolved without passing metacharacters to an
/// external interpreter. Operators such as pipes are deliberately unsupported.
pub struct Arguments {
    pub bytes: [u8; 256],
    pub spans: [(usize, usize); 32],
    pub len: usize,
}

impl View for Arguments {
    type V = Seq<Seq<u8>>;

    open spec fn view(&self) -> Seq<Seq<u8>> {
        Seq::new(
            self.len as nat,
            |i: int| self.bytes@.subrange(self.spans@[i].0 as int, self.spans@[i].1 as int),
        )
    }
}

impl Arguments {
    /// Each argument is a stretch of the first `used` bytes, and all are ASCII.
    pub open spec fn within(&self, used: int) -> bool {
        &&& self.len <= 32
        &&& 0 <= used <= 256
        &&& forall|i: int|
            0 <= i < self.len ==> (#[trigger] self.spans@[i]).0 <= self.spans@[i].1 <= used
        &&& forall|i: int| 0 <= i < 256 ==> #[trigger] self.bytes@[i] < 128
    }

    pub open spec fn wf(&self) -> bool {
        self.within(256)
    }

    /// Where splitting stands, given the start of the argument that has begun.
    spec fn lexer(
        &self,
        used: int,
        start: Option<usize>,
        quote: Option<u8>,
        escaped: bool,
    ) -> Lexer {
        Lexer {
            args: self@,
            word: match start {
                Some(begin) => Some(self.bytes@.subrange(begin as int, used)),
                None => None,
            },
            quote,
            escaped,
        }
    }

    pub fn parse(input: &str) -> (result: Result<Arguments, &'static str>)
        ensures
            match arguments_of(input@) {
                Ok(args) => result matches Ok(arguments) && arguments.wf() && arguments@ == args,
                Err(fault) => result matches Err(message) && message@ == fault.message(),
            },
    {
        proof {
            is_ascii_spec_bytes(input);
            assert(vstd::string::is_ascii(input) == is_ascii_text(input@)) by {
                lemma_ascii_texts(input@);
            }
        }
        if !input.is_ascii() {
            return Err("input must be at most 256 ASCII bytes");
        }
        let bytes: &[u8] = input.as_bytes();
        assert(bytes@ == bytes_of(input@)) by {
            assert(bytes@ =~= bytes_of(input@));
        }
        let count: usize = bytes.len();
        if count > 256 {
            return Err("input must be at most 256 ASCII bytes");
        }
        let mut result = Arguments { bytes: [0; 256], spans: [(0, 0); 32], len: 0 };
        let mut used: usize = 0;
        let mut start: Option<usize> = None;
        let mut quote: Option<u8> = None;
        let mut escaped: bool = false;
        let mut i: usize = 0;
        proof {
            assert(result@ =~= Seq::<Seq<u8>>::empty());
            assert(bytes@.take(0) =~= Seq::<u8>::empty());
        }
        while i < count
            invariant
                i <= count <= 256,
                count == bytes@.len(),
                bytes@ == bytes_of(input@),
                is_ascii_text(input@),
                count == input@.len(),
                used <= i,
                result.within(used as int),
                start matches Some(begin) ==> begin <= used,
                escaped ==> start is Some,
                Lexer::start().run(bytes@.take(i as int)) == Ok::<Lexer, Fault>(
                    result.lexer(used as int, start, quote, escaped),
                ),
            decreases count - i,
        {
            let byte: u8 = bytes[i];
            let ghost before = result.lexer(used as int, start, quote, escaped);
            let ghost old_result = result;
            let ghost prefix = bytes@.take(i as int);
            proof {
                assert(byte < 128) by {
                    assert((input@[i as int] as int) < 128);
                    crate::text::lemma_char(input@[i as int]);
                }
                assert(bytes@.take(i + 1).drop_last() =~= prefix);
                lemma_run_ok_prefix(Lexer::start(), bytes@, (i + 1) as int);
            }
            i += 1;
            if escaped {
                result.append(used, byte);
                used += 1;
                escaped = false;
            } else if byte == 0x5c && !is_single(quote) {
                start = begin_at(start, used);
                escaped = true;
            } else if is_quote(quote, byte) {
                quote = None;
            } else if quote.is_none() && (byte == 0x27 || byte == 0x22) {
                start = begin_at(start, used);
                quote = Some(byte);
            } else if quote.is_none() && (byte == 0x20 || byte == 0x09 || byte == 0x0a || byte
                == 0x0c || byte == 0x0d) {
                if let Some(begin) = start {
                    match result.push(begin, used) {
                        Ok(()) => {},
                        Err(message) => {
                            return Err(message);
                        },
                    }
                    start = None;
                }
            } else if quote.is_none() && (byte == 0x7c || byte == 0x3e || byte == 0x3c || byte
                == 0x3b || byte == 0x26) {
                return Err("pipes, redirection and command chaining are not available");
            } else {
                start = begin_at(start, used);
                result.append(used, byte);
                used += 1;
            }
            proof {
                let after = result.lexer(used as int, start, quote, escaped);
                let next = before.step(byte)->Ok_0;
                assert(after.args =~= next.args);
                assert(after.begun() =~= next.begun());
                assert(after =~= next);
            }
        }
        assert(bytes@.take(count as int) =~= bytes@);
        if escaped {
            return Err("unfinished backslash escape");
        }
        if quote.is_some() {
            return Err("unclosed quote");
        }
        if let Some(begin) = start {
            match result.push(begin, used) {
                Ok(()) => {},
                Err(message) => {
                    return Err(message);
                },
            }
        }
        Ok(result)
    }

    fn append(&mut self, used: usize, byte: u8)
        requires
            old(self).within(used as int),
            used < 256,
            byte < 128,
        ensures
            final(self).within(used + 1),
            final(self)@ == old(self)@,
            final(self).len == old(self).len,
            final(self).bytes@ == old(self).bytes@.update(used as int, byte),
    {
        self.bytes[used] = byte;
        proof {
            assert forall|i: int| 0 <= i < self.len implies self@[i] == old(self)@[i] by {
                assert(self.spans@[i].1 <= used);
                assert(self@[i] =~= old(self)@[i]);
            }
            assert(self@ =~= old(self)@);
        }
    }

    fn push(&mut self, start: usize, end: usize) -> (result: Result<(), &'static str>)
        requires
            old(self).within(end as int),
            start <= end,
        ensures
            final(self).within(end as int),
            final(self).bytes == old(self).bytes,
            old(self).len == 32 ==> {
                &&& result matches Err(message)
                &&& message@ == Fault::Count.message()
                &&& final(self)@ == old(self)@
            },
            old(self).len < 32 ==> {
                &&& result is Ok
                &&& final(self)@ == old(self)@.push(
                    old(self).bytes@.subrange(start as int, end as int),
                )
            },
    {
        if self.len == MAX_ARGS {
            return Err("too many arguments (maximum 32)");
        }
        self.spans[self.len] = (start, end);
        self.len += 1;
        proof {
            let word = old(self).bytes@.subrange(start as int, end as int);
            assert forall|i: int| 0 <= i < self.len implies self@[i] == old(self)@.push(word)[i] by {
                if i < old(self).len {
                    assert(self.spans@[i] == old(self).spans@[i]);
                }
            }
            assert(self@ =~= old(self)@.push(word));
        }
        Ok(())
    }

    pub fn get(&self, index: usize) -> (text: &str)
        requires
            self.wf(),
            index < self.len,
        ensures
            text@ == chars(self@[index as int]),
    {
        let (start, end): (usize, usize) = self.spans[index];
        let bytes = slice_subrange(self.bytes.as_slice(), start, end);
        proof {
            assert forall|i: int| 0 <= i < bytes@.len() implies #[trigger] bytes@[i] < 128 by {
                assert(self.bytes@[start + i] < 128);
            }
        }
        ascii_str(bytes)
    }
}

fn is_quote(quote: Option<u8>, byte: u8) -> (open: bool)
    ensures
        open == (quote == Some(byte)),
{
    match quote {
        Some(mark) => mark == byte,
        None => false,
    }
}

fn is_single(quote: Option<u8>) -> (single: bool)
    ensures
        single == (quote == Some(0x27u8)),
{
    is_quote(quote, 0x27)
}

fn begin_at(start: Option<usize>, used: usize) -> (begin: Option<usize>)
    ensures
        begin == Some(match start {
            Some(begin) => begin,
            None => used,
        }),
{
    match start {
        Some(begin) => Some(begin),
        None => Some(used),
    }
}

proof fn lemma_ascii_texts(text: Seq<char>)
    ensures
        vstd::utf8::is_ascii_chars(text) == is_ascii_text(text),
{
    if is_ascii_text(text) {
        assert forall|i: int| 0 <= i < text.len() implies '\0' <= #[trigger] text[i] <= '\u{7f}' by {
            crate::text::lemma_char(text[i]);
        }
    } else {
        let i = choose|i: int| 0 <= i < text.len() && !((#[trigger] text[i] as int) < 128);
        assert(!('\0' <= text[i] <= '\u{7f}'));
    }
}

pub proof fn lemma_run_ok_prefix(lexer: Lexer, input: Seq<u8>, n: int)
    requires
        0 <= n <= input.len(),
    ensures
        lexer.run(input.take(n)) matches Err(fault) ==> lexer.run(input) == Err::<Lexer, Fault>(
            fault,
        ),
    decreases input.len(),
{
    if n == input.len() {
        assert(input.take(n) =~= input);
    } else {
        lemma_run_ok_prefix(lexer, input.drop_last(), n);
        assert(input.drop_last().take(n) =~= input.take(n));
    }
}

pub proof fn lemma_run_concat(lexer: Lexer, a: Seq<u8>, b: Seq<u8>)
    requires
        lexer.run(a) is Ok,
    ensures
        lexer.run(a + b) == lexer.run(a)->Ok_0.run(b),
    decreases b.len(),
{
    if b.len() == 0 {
        assert(a + b =~= a);
    } else {
        lemma_run_concat(lexer, a, b.drop_last());
        assert((a + b).drop_last() =~= a + b.drop_last());
    }
}

pub proof fn lemma_run_one(lexer: Lexer, byte: u8)
    ensures
        lexer.run(seq![byte]) == lexer.step(byte),
{
    assert(seq![byte].drop_last() =~= Seq::<u8>::empty());
    reveal_with_fuel(Lexer::run, 2);
}

/// Between quotes, text goes into the argument as it stands.
pub proof fn lemma_run_quoted(lexer: Lexer, mark: u8, text: Seq<u8>)
    requires
        lexer.quote == Some(mark),
        !lexer.escaped,
        lexer.word is Some,
        !text.contains(mark),
        mark == 0x27 || !text.contains(0x5c),
    ensures
        lexer.run(text) == Ok::<Lexer, Fault>(
            Lexer { word: Some(lexer.begun() + text), ..lexer },
        ),
    decreases text.len(),
{
    if text.len() == 0 {
        assert(lexer.begun() + text =~= lexer.begun());
    } else {
        let shorter = text.drop_last();
        assert forall|b: u8| shorter.contains(b) implies text.contains(b) by {
            let i = choose|i: int| 0 <= i < shorter.len() && shorter[i] == b;
            assert(text[i] == b);
        }
        lemma_run_quoted(lexer, mark, shorter);
        assert(text.contains(text.last())) by {
            assert(text[text.len() - 1] == text.last());
        }
        assert(lexer.begun() + text =~= (lexer.begun() + shorter).push(text.last()));
    }
}

pub proof fn lemma_run_opened(mark: u8, text: Seq<u8>)
    requires
        mark == 0x27 || mark == 0x22,
        !text.contains(mark),
        mark == 0x27 || !text.contains(0x5c),
    ensures
        Lexer::start().run(seq![mark] + text) == Ok::<Lexer, Fault>(
            Lexer { word: Some(text), quote: Some(mark), ..Lexer::start() },
        ),
{
    lemma_run_one(Lexer::start(), mark);
    lemma_run_concat(Lexer::start(), seq![mark], text);
    let opened = Lexer::start().step(mark)->Ok_0;
    lemma_run_quoted(opened, mark, text);
    assert(opened.begun() + text =~= text);
}

/// Quotes group: a text between two single quotes is one argument, whatever it
/// holds but a single quote; between double quotes the same goes for text
/// without a double quote or a backslash.
pub proof fn lemma_quotes_group(mark: u8, text: Seq<u8>)
    requires
        mark == 0x27 || mark == 0x22,
        !text.contains(mark),
        mark == 0x27 || !text.contains(0x5c),
    ensures
        split(seq![mark] + text + seq![mark]) == Ok::<Seq<Seq<u8>>, Fault>(seq![text]),
{
    lemma_run_opened(mark, text);
    lemma_run_concat(Lexer::start(), seq![mark] + text, seq![mark]);
    let inside = Lexer::start().run(seq![mark] + text)->Ok_0;
    lemma_run_one(inside, mark);
    assert(Seq::<Seq<u8>>::empty().push(text) =~= seq![text]);
}

/// A quote that nothing closes is refused.
pub proof fn lemma_unclosed_quote_refused(mark: u8, text: Seq<u8>)
    requires
        mark == 0x27 || mark == 0x22,
        !text.contains(mark),
        mark == 0x27 || !text.contains(0x5c),
    ensures
        split(seq![mark] + text) == Err::<Seq<Seq<u8>>, Fault>(Fault::Quote),
{
    lemma_run_opened(mark, text);
}

/// A backslash makes any character an ordinary one.
pub proof fn lemma_backslash_escapes(byte: u8)
    ensures
        split(seq![0x5cu8, byte]) == Ok::<Seq<Seq<u8>>, Fault>(seq![seq![byte]]),
        split(seq![0x5cu8]) == Err::<Seq<Seq<u8>>, Fault>(Fault::Escape),
{
    lemma_run_one(Lexer::start(), 0x5c);
    assert(seq![0x5cu8] + seq![byte] =~= seq![0x5cu8, byte]);
    lemma_run_concat(Lexer::start(), seq![0x5cu8], seq![byte]);
    let escaped = Lexer::start().step(0x5c)->Ok_0;
    lemma_run_one(escaped, byte);
    assert(Seq::<u8>::empty().push(byte) =~= seq![byte]);
    assert(Seq::<Seq<u8>>::empty().push(seq![byte]) =~= seq![seq![byte]]);
}

/// Outside quotes and escapes, an operator anywhere refuses the whole line.
pub proof fn lemma_operators_refused(before: Seq<u8>, byte: u8, after: Seq<u8>)
    requires
        is_operator(byte),
        Lexer::start().run(before) matches Ok(lexer) && lexer.quote is None && !lexer.escaped,
    ensures
        split(before + seq![byte] + after) == Err::<Seq<Seq<u8>>, Fault>(Fault::Operator),
{
    lemma_run_concat(Lexer::start(), before, seq![byte]);
    lemma_run_one(Lexer::start().run(before)->Ok_0, byte);
    let whole = before + seq![byte] + after;
    let n = (before.len() + 1) as int;
    assert(whole.take(n) =~= before + seq![byte]);
    lemma_run_ok_prefix(Lexer::start(), whole, n);
}

/// No line is split into more than thirty-two arguments.
pub proof fn lemma_argument_count(input: Seq<u8>)
    ensures
        split(input) matches Ok(args) ==> args.len() <= 32,
        Lexer::start().run(input) matches Ok(lexer) ==> lexer.args.len() <= 32,
    decreases input.len(),
{
    if input.len() > 0 {
        lemma_argument_count(input.drop_last());
    }
}

} // verus!
