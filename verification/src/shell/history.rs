//! The commands entered last.
use vstd::prelude::*;

use crate::shell::line::{Line, LineText};

verus! {

pub const HISTORY_SIZE: usize = 16;

/// The remembered lines, oldest first; which of them is on display while
/// browsing; and the line that was being typed when browsing began.
#[verifier::ext_equal]
pub struct Recall {
    pub entries: Seq<LineText>,
    pub browsing: Option<int>,
    pub draft: LineText,
}

pub open spec fn is_all_spaces(text: Seq<u8>) -> bool {
    forall|i: int| 0 <= i < text.len() ==> #[trigger] text[i] == 0x20
}

/// The remembered lines after one more was entered: blank lines and repetitions
/// of the latest are left out, and of more than sixteen the oldest is dropped.
pub open spec fn remember(entries: Seq<LineText>, line: LineText) -> Seq<LineText> {
    if is_all_spaces(line.text) || (entries.len() > 0 && entries.last().text == line.text) {
        entries
    } else if entries.len() >= 16 {
        entries.skip(1).push(line)
    } else {
        entries.push(line)
    }
}

impl Recall {
    pub open spec fn wf(self) -> bool {
        &&& self.entries.len() <= 16
        &&& forall|i: int| 0 <= i < self.entries.len() ==> (#[trigger] self.entries[i]).wf()
        &&& self.draft.wf()
        &&& self.browsing matches Some(i) ==> 0 <= i < self.entries.len()
    }

    pub open spec fn recorded(self, line: LineText) -> Recall {
        Recall { entries: remember(self.entries, line), browsing: None, draft: self.draft }
    }

    /// Going back from the line `current`: the state after it and the line shown.
    pub open spec fn back(self, current: LineText) -> (Recall, LineText) {
        if self.entries.len() == 0 {
            (self, current)
        } else {
            let index = match self.browsing {
                Some(i) => if i > 0 {
                    i - 1
                } else {
                    0
                },
                None => self.entries.len() - 1,
            };
            let draft = if self.browsing is None {
                current
            } else {
                self.draft
            };
            (
                Recall { browsing: Some(index), draft, ..self },
                self.entries[index].at_end(),
            )
        }
    }

    /// Going forward from the line `current`: the state after it and the line
    /// shown. Behind the latest entry comes the draft.
    pub open spec fn forward(self, current: LineText) -> (Recall, LineText) {
        match self.browsing {
            Some(i) => if i + 1 < self.entries.len() {
                (
                    Recall { browsing: Some(i + 1), ..self },
                    self.entries[i + 1].at_end(),
                )
            } else {
                (Recall { browsing: None, ..self }, self.draft)
            },
            None => (self, current),
        }
    }
}

pub struct History {
    pub lines: [Line; 16],
    pub start: usize,
    pub len: usize,
    pub browsing: Option<usize>,
    pub draft: Line,
}

impl View for History {
    type V = Recall;

    open spec fn view(&self) -> Recall {
        Recall {
            entries: Seq::new(
                self.len as nat,
                |i: int| self.lines@[(self.start + i) % 16]@,
            ),
            browsing: match self.browsing {
                Some(i) => Some(i as int),
                None => None,
            },
            draft: self.draft@,
        }
    }
}

impl History {
    pub open spec fn wf(&self) -> bool {
        &&& self.start < 16
        &&& self.len <= 16
        &&& forall|i: int| 0 <= i < 16 ==> (#[trigger] self.lines@[i]).wf()
        &&& self.draft.wf()
        &&& self.browsing matches Some(i) ==> i < self.len
    }

    pub fn new() -> (history: History)
        ensures
            history.wf(),
            history@ == (Recall {
                entries: Seq::empty(),
                browsing: None,
                draft: LineText::empty(),
            }),
    {
        let empty: Line = Line::new();
        let history = History {
            lines: [empty; 16],
            start: 0,
            len: 0,
            browsing: None,
            draft: empty,
        };
        assert(history@.entries =~= Seq::<LineText>::empty());
        history
    }

    pub fn get(&self, index: usize) -> (line: Line)
        requires
            self.wf(),
            self.start + index <= usize::MAX,
        ensures
            line.wf(),
            line == self.lines@[(self.start + index) % 16],
            index < self@.entries.len() ==> line@ == self@.entries[index as int],
    {
        self.lines[(self.start + index) % HISTORY_SIZE]
    }

    fn repeats_latest(&self, line: &Line) -> (repeats: bool)
        requires
            self.wf(),
            line.wf(),
        ensures
            repeats == (self@.entries.len() > 0 && self@.entries.last().text == line@.text),
    {
        if self.len == 0 {
            return false;
        }
        let latest: Line = self.get(self.len - 1);
        if latest.len != line.len {
            return false;
        }
        let mut i: usize = 0;
        while i < line.len
            invariant
                i <= line.len,
                line.len <= 256,
                latest.len == line.len,
                self@.entries.len() > 0,
                self@.entries.last() == latest@,
                forall|k: int| 0 <= k < i ==> latest.bytes@[k] == line.bytes@[k],
            decreases line.len - i,
        {
            if latest.bytes[i] != line.bytes[i] {
                assert(latest@.text[i as int] != line@.text[i as int]);
                return false;
            }
            i += 1;
        }
        assert(latest@.text =~= line@.text);
        true
    }

    pub fn record(&mut self, line: Line)
        requires
            old(self).wf(),
            line.wf(),
        ensures
            final(self).wf(),
            final(self)@ == old(self)@.recorded(line@),
    {
        self.browsing = None;
        let mut blank: bool = true;
        let mut i: usize = 0;
        while i < line.len
            invariant
                i <= line.len <= 256,
                blank == (forall|k: int| 0 <= k < i ==> #[trigger] line@.text[k] == 0x20),
            decreases line.len - i,
        {
            assert(line.bytes@[i as int] == line@.text[i as int]);
            if line.bytes[i] != 0x20 {
                blank = false;
            }
            i += 1;
        }
        assert(self@.entries =~= old(self)@.entries);
        if blank || self.repeats_latest(&line) {
            return;
        }
        let ghost entries = self@.entries;
        if self.len == HISTORY_SIZE {
            self.lines[self.start] = line;
            self.start = (self.start + 1) % HISTORY_SIZE;
            assert(self@.entries =~= entries.skip(1).push(line@));
        } else {
            self.lines[(self.start + self.len) % HISTORY_SIZE] = line;
            self.len += 1;
            assert(self@.entries =~= entries.push(line@));
        }
    }

    pub fn previous(&mut self, current: Line) -> (shown: Line)
        requires
            old(self).wf(),
            current.wf(),
        ensures
            final(self).wf(),
            shown.wf(),
            (final(self)@, shown@) == old(self)@.back(current@),
    {
        if self.len == 0 {
            return current;
        }
        let index: usize = match self.browsing {
            Some(index) => if index > 0 {
                index - 1
            } else {
                0
            },
            None => {
                self.draft = current;
                self.len - 1
            },
        };
        self.browsing = Some(index);
        let mut line: Line = self.get(index);
        let end: usize = line.len;
        line.move_to(end);
        assert(self@.entries =~= old(self)@.entries);
        line
    }

    pub fn next(&mut self, current: Line) -> (shown: Line)
        requires
            old(self).wf(),
            current.wf(),
        ensures
            final(self).wf(),
            shown.wf(),
            (final(self)@, shown@) == old(self)@.forward(current@),
    {
        match self.browsing {
            Some(index) => if index + 1 < self.len {
                self.browsing = Some(index + 1);
                let mut line: Line = self.get(index + 1);
                let end: usize = line.len;
                line.move_to(end);
                assert(self@.entries =~= old(self)@.entries);
                line
            } else {
                self.browsing = None;
                assert(self@.entries =~= old(self)@.entries);
                self.draft
            },
            None => current,
        }
    }

    pub fn stop_browsing(&mut self)
        requires
            old(self).wf(),
        ensures
            final(self).wf(),
            final(self)@ == (Recall { browsing: None, ..old(self)@ }),
    {
        self.browsing = None;
        assert(self@.entries =~= old(self)@.entries);
    }
}

/// The lines worth remembering: neither blank nor equal to the one kept before.
pub open spec fn kept(lines: Seq<LineText>) -> Seq<LineText>
    decreases lines.len(),
{
    if lines.len() == 0 {
        Seq::empty()
    } else {
        let before = kept(lines.drop_last());
        let line = lines.last();
        if is_all_spaces(line.text) || (before.len() > 0 && before.last().text == line.text) {
            before
        } else {
            before.push(line)
        }
    }
}

/// The remembered lines after a whole sequence was entered.
pub open spec fn remember_all(lines: Seq<LineText>) -> Seq<LineText>
    decreases lines.len(),
{
    if lines.len() == 0 {
        Seq::empty()
    } else {
        remember(remember_all(lines.drop_last()), lines.last())
    }
}

/// However many lines are entered, the history holds the last sixteen of those
/// worth remembering.
pub proof fn lemma_history_keeps_latest(lines: Seq<LineText>)
    ensures
        kept(lines).len() <= 16 ==> remember_all(lines) == kept(lines),
        kept(lines).len() > 16 ==> remember_all(lines) == kept(lines).skip(kept(lines).len() - 16),
    decreases lines.len(),
{
    if lines.len() > 0 {
        let earlier = lines.drop_last();
        lemma_history_keeps_latest(earlier);
        let before = kept(earlier);
        let entries = remember_all(earlier);
        if before.len() > 0 {
            assert(entries.last() == before.last());
        }
        if before.len() >= 16 {
            assert(before.skip(0) =~= before);
            assert(entries.skip(1).push(lines.last()) =~= before.push(lines.last()).skip(
                before.len() + 1 - 16,
            ));
        }
    }
}

/// State after going back `count` times from the line `current`.
pub open spec fn back_by(recall: Recall, current: LineText, count: nat) -> (Recall, LineText)
    decreases count,
{
    if count == 0 {
        (recall, current)
    } else {
        let (before, shown) = back_by(recall, current, (count - 1) as nat);
        before.back(shown)
    }
}

/// State after going forward `count` times from the line `current`.
pub open spec fn forward_by(recall: Recall, current: LineText, count: nat) -> (Recall, LineText)
    decreases count,
{
    if count == 0 {
        (recall, current)
    } else {
        let (before, shown) = forward_by(recall, current, (count - 1) as nat);
        before.forward(shown)
    }
}

proof fn lemma_back_by(recall: Recall, current: LineText, count: nat)
    requires
        recall.wf(),
        recall.browsing is None,
        1 <= count <= recall.entries.len(),
    ensures
        back_by(recall, current, count).0 == (Recall {
            browsing: Some(recall.entries.len() - count),
            draft: current,
            entries: recall.entries,
        }),
    decreases count,
{
    if count > 1 {
        lemma_back_by(recall, current, (count - 1) as nat);
    } else {
        reveal_with_fuel(back_by, 2);
    }
}

proof fn lemma_forward_by(recall: Recall, shown: LineText, index: int, count: nat)
    requires
        recall.browsing == Some(index),
        count < recall.entries.len() - index,
    ensures
        forward_by(recall, shown, count).0 == (Recall { browsing: Some(index + count), ..recall }),
    decreases count,
{
    if count > 0 {
        lemma_forward_by(recall, shown, index, (count - 1) as nat);
    }
}

/// Going back and then forward by the same number of lines brings the draft
/// back as it was, and ends the browsing.
pub proof fn lemma_forward_restores_draft(recall: Recall, draft: LineText, count: nat)
    requires
        recall.wf(),
        recall.browsing is None,
        1 <= count <= recall.entries.len(),
    ensures
        ({
            let (browsing, shown) = back_by(recall, draft, count);
            let (after, line) = forward_by(browsing, shown, count);
            line == draft && after.browsing is None && after.entries == recall.entries
        }),
{
    lemma_back_by(recall, draft, count);
    let (browsing, shown) = back_by(recall, draft, count);
    lemma_forward_by(browsing, shown, recall.entries.len() - count, (count - 1) as nat);
}

} // verus!
