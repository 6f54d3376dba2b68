//! The line being edited.
use vstd::prelude::*;
use vstd::slice::slice_subrange;

use crate::text::{ascii_str, chars, is_printable};

verus! {

pub const MAX_INPUT: usize = 256;

/// What an edited line holds: its text, the place of the cursor in it, and
/// whether a character was turned away since the text last got shorter.
#[verifier::ext_equal]
pub struct LineText {
    pub text: Seq<u8>,
    pub cursor: int,
    pub overflow: bool,
}

/// Start of the run of spaces (or of other characters) that ends at `end`.
pub open spec fn run_start(text: Seq<u8>, end: int, of_spaces: bool) -> int
    decreases end,
{
    if end > 0 && (text[end - 1] == 0x20) == of_spaces {
        run_start(text, end - 1, of_spaces)
    } else {
        end
    }
}

impl LineText {
    pub open spec fn wf(self) -> bool {
        &&& self.text.len() <= 256
        &&& 0 <= self.cursor <= self.text.len()
        &&& forall|i: int| 0 <= i < self.text.len() ==> is_printable(#[trigger] self.text[i])
    }

    pub open spec fn empty() -> LineText {
        LineText { text: Seq::empty(), cursor: 0, overflow: false }
    }

    /// With the characters from `start` to `end` gone and the cursor there.
    pub open spec fn without(self, start: int, end: int) -> LineText {
        LineText {
            text: self.text.subrange(0, start) + self.text.subrange(end, self.text.len() as int),
            cursor: start,
            overflow: self.overflow && start == end,
        }
    }

    pub open spec fn inserted(self, byte: u8) -> LineText {
        if !is_printable(byte) {
            self
        } else if self.text.len() == 256 {
            LineText { overflow: true, ..self }
        } else {
            LineText {
                text: self.text.insert(self.cursor, byte),
                cursor: self.cursor + 1,
                overflow: self.overflow,
            }
        }
    }

    pub open spec fn deleted(self) -> LineText {
        if self.cursor < self.text.len() {
            self.without(self.cursor, self.cursor + 1)
        } else {
            self
        }
    }

    pub open spec fn backspaced(self) -> LineText {
        if self.cursor > 0 {
            self.without(self.cursor - 1, self.cursor)
        } else {
            self
        }
    }

    /// Start of the word before the cursor, behind which only spaces follow.
    pub open spec fn word_start(self) -> int {
        run_start(self.text, run_start(self.text, self.cursor, true), false)
    }

    pub open spec fn at(self, cursor: int) -> LineText {
        LineText { cursor, ..self }
    }

    pub open spec fn at_end(self) -> LineText {
        self.at(self.text.len() as int)
    }
}

#[derive(Clone, Copy)]
pub struct Line {
    pub bytes: [u8; 256],
    pub len: usize,
    pub cursor: usize,
    pub overflow: bool,
}

impl View for Line {
    type V = LineText;

    open spec fn view(&self) -> LineText {
        LineText {
            text: self.bytes@.subrange(0, self.len as int),
            cursor: self.cursor as int,
            overflow: self.overflow,
        }
    }
}

impl Line {
    pub open spec fn wf(&self) -> bool {
        self.len <= 256 && self@.wf()
    }

    pub fn new() -> (line: Line)
        ensures
            line.wf(),
            line@ == LineText::empty(),
    {
        let line = Line { bytes: [0; 256], len: 0, cursor: 0, overflow: false };
        assert(line@.text =~= Seq::<u8>::empty());
        line
    }

    pub fn as_str(&self) -> (text: &str)
        requires
            self.wf(),
        ensures
            text@ == chars(self@.text),
    {
        let bytes = slice_subrange(self.bytes.as_slice(), 0, self.len);
        proof {
            assert forall|i: int| 0 <= i < bytes@.len() implies #[trigger] bytes@[i] < 128 by {
                assert(is_printable(self@.text[i]));
            }
        }
        ascii_str(bytes)
    }

    /// Put a character in at the cursor. Only printable ASCII is taken; a full
    /// line takes nothing more and remembers that it overflowed.
    pub fn insert(&mut self, byte: u8) -> (done: bool)
        requires
            old(self).wf(),
        ensures
            final(self).wf(),
            final(self)@ == old(self)@.inserted(byte),
            done == (is_printable(byte) && old(self)@.text.len() < 256),
    {
        if byte < 0x20 || byte > 0x7e {
            return false;
        }
        if self.len == MAX_INPUT {
            self.overflow = true;
            return false;
        }
        let len: usize = self.len;
        let cursor: usize = self.cursor;
        let mut i: usize = len;
        while i > cursor
            invariant
                cursor <= i <= len < 256,
                self.len == len,
                self.cursor == cursor,
                self.overflow == old(self).overflow,
                forall|k: int| 0 <= k <= i && k < len ==> self.bytes@[k] == old(self).bytes@[k],
                forall|k: int| i < k <= len ==> self.bytes@[k] == old(self).bytes@[k - 1],
            decreases i - cursor,
        {
            self.bytes[i] = self.bytes[i - 1];
            i -= 1;
        }
        self.bytes[cursor] = byte;
        self.cursor += 1;
        self.len += 1;
        proof {
            let target = old(self)@.text.insert(cursor as int, byte);
            assert(self@.text =~= target);
            assert forall|k: int| 0 <= k < self@.text.len() implies is_printable(
                #[trigger] self@.text[k],
            ) by {
                if k < cursor {
                    assert(self@.text[k] == old(self)@.text[k]);
                } else if k > cursor {
                    assert(self@.text[k] == old(self)@.text[k - 1]);
                }
            }
        }
        true
    }

    /// Take out the characters from `start` to `end` and put the cursor there.
    pub fn cut(&mut self, start: usize, end: usize)
        requires
            old(self).wf(),
            start <= end <= old(self).len,
        ensures
            final(self).wf(),
            final(self)@ == old(self)@.without(start as int, end as int),
    {
        let len: usize = self.len;
        let gone: usize = end - start;
        let mut i: usize = end;
        while i < len
            invariant
                start <= end <= i <= len <= 256,
                gone == end - start,
                self.len == len,
                self.cursor == old(self).cursor,
                self.overflow == old(self).overflow,
                forall|k: int| 0 <= k < start ==> self.bytes@[k] == old(self).bytes@[k],
                forall|k: int| start <= k < i - gone ==> self.bytes@[k] == old(self).bytes@[k + gone],
                forall|k: int| i <= k < len ==> self.bytes@[k] == old(self).bytes@[k],
            decreases len - i,
        {
            self.bytes[i - gone] = self.bytes[i];
            i += 1;
        }
        self.len = len - gone;
        self.cursor = start;
        if gone > 0 {
            self.overflow = false;
        }
        proof {
            assert(self@.text =~= old(self)@.without(start as int, end as int).text);
            assert forall|k: int| 0 <= k < self@.text.len() implies is_printable(
                #[trigger] self@.text[k],
            ) by {
                if k < start {
                    assert(self@.text[k] == old(self)@.text[k]);
                } else {
                    assert(self@.text[k] == old(self)@.text[k + gone]);
                }
            }
        }
    }

    /// Delete the character at the cursor.
    pub fn delete(&mut self)
        requires
            old(self).wf(),
        ensures
            final(self).wf(),
            final(self)@ == old(self)@.deleted(),
    {
        if self.cursor < self.len {
            let cursor: usize = self.cursor;
            self.cut(cursor, cursor + 1);
        }
    }

    /// Delete the character before the cursor.
    pub fn backspace(&mut self)
        requires
            old(self).wf(),
        ensures
            final(self).wf(),
            final(self)@ == old(self)@.backspaced(),
    {
        if self.cursor > 0 {
            let cursor: usize = self.cursor;
            self.cut(cursor - 1, cursor);
        }
    }

    /// Delete the word before the cursor and the spaces behind it.
    pub fn delete_word(&mut self)
        requires
            old(self).wf(),
        ensures
            final(self).wf(),
            final(self)@ == old(self)@.without(old(self)@.word_start(), old(self)@.cursor),
    {
        let cursor: usize = self.cursor;
        let ghost text = self@.text;
        let mut start: usize = cursor;
        while start > 0 && self.bytes[start - 1] == 0x20
            invariant
                start <= cursor <= self.len <= 256,
                text == self.bytes@.subrange(0, self.len as int),
                run_start(text, cursor as int, true) == run_start(text, start as int, true),
            decreases start,
        {
            start -= 1;
        }
        let ghost spaces = start as int;
        while start > 0 && self.bytes[start - 1] != 0x20
            invariant
                start <= spaces <= cursor <= self.len <= 256,
                text == self.bytes@.subrange(0, self.len as int),
                run_start(text, spaces, false) == run_start(text, start as int, false),
            decreases start,
        {
            start -= 1;
        }
        self.cut(start, cursor);
    }

    /// Erase everything before the cursor.
    pub fn erase_to_start(&mut self)
        requires
            old(self).wf(),
        ensures
            final(self).wf(),
            final(self)@ == old(self)@.without(0, old(self)@.cursor),
    {
        let cursor: usize = self.cursor;
        self.cut(0, cursor);
    }

    /// Erase everything from the cursor on.
    pub fn erase_to_end(&mut self)
        requires
            old(self).wf(),
        ensures
            final(self).wf(),
            final(self)@ == old(self)@.without(old(self)@.cursor, old(self)@.text.len() as int),
    {
        let cursor: usize = self.cursor;
        let len: usize = self.len;
        self.cut(cursor, len);
    }

    pub fn move_to(&mut self, cursor: usize)
        requires
            old(self).wf(),
            cursor <= old(self).len,
        ensures
            final(self).wf(),
            final(self)@ == old(self)@.at(cursor as int),
    {
        self.cursor = cursor;
    }
}

/// What is typed can be taken back: a character put in where the line has room
/// goes away again with one backspace.
pub proof fn lemma_backspace_undoes_insert(line: LineText, byte: u8)
    requires
        line.wf(),
        is_printable(byte),
        line.text.len() < 256,
    ensures
        line.inserted(byte).backspaced().text == line.text,
        line.inserted(byte).backspaced().cursor == line.cursor,
        !line.inserted(byte).backspaced().overflow,
{
    assert(line.inserted(byte).backspaced().text =~= line.text);
}

/// Deleting anything from a line that overflowed makes it usable again.
pub proof fn lemma_shorter_is_usable(line: LineText, start: int, end: int)
    requires
        line.wf(),
        0 <= start < end <= line.text.len(),
    ensures
        !line.without(start, end).overflow,
        line.without(start, end).text.len() < 256,
        line.without(start, end).wf(),
{
    let t = line.without(start, end).text;
    assert forall|k: int| 0 <= k < t.len() implies is_printable(#[trigger] t[k]) by {
        if k < start {
            assert(t[k] == line.text[k]);
        } else {
            assert(t[k] == line.text[k + (end - start)]);
        }
    }
}

} // verus!
