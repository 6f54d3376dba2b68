//! What the keys do to the line, its display and the lines before it.
use pc_keyboard::{DecodedKey, KeyCode};
use vstd::prelude::*;

use crate::laws::screen::lemma_text_is_read_back;
use crate::shell::commands::command_name;
use crate::shell::completion::{
    common_len, completes, completion, lemma_common_len, lemma_completion_is_common, lemma_matching,
    lemma_unique_completion, matching, print_names,
};
use crate::shell::history::{back_by, Recall};
use crate::shell::keys::action_of_key;
use crate::shell::line::{run_start, LineText};
use crate::shell::{print_prompt, Terminal};
use crate::system::{Facts, SystemInfo};
use crate::text::{chars, spaces, starts_with};
use crate::vga_buffer::{byte_of, lemma_print_concat, Screen};

verus! {

/// A terminal after a key.
pub open spec fn after_key(
    terminal: Terminal,
    key: DecodedKey,
    info: SystemInfo,
    facts: Facts,
) -> Terminal {
    terminal.acted(action_of_key(key), info, facts)
}

/// A key that gives the character of a code.
pub open spec fn gives(key: DecodedKey, code: int) -> bool {
    key matches DecodedKey::Unicode(c) && c as int == code
}

pub open spec fn is_raw(key: DecodedKey, code: KeyCode) -> bool {
    key == DecodedKey::RawKey(code)
}

/// What stands before the cursor of a line, and behind it.
pub open spec fn before_cursor(line: LineText) -> Seq<u8> {
    line.text.take(line.cursor)
}

pub open spec fn behind_cursor(line: LineText) -> Seq<u8> {
    line.text.skip(line.cursor)
}

/// A visible character or a space goes in at the cursor, which moves behind it,
/// unless there are 256 already: then the line is marked as too long and stays.
/// Characters that are neither change nothing.
pub proof fn lemma_typing(terminal: Terminal, c: char, info: SystemInfo, facts: Facts)
    requires
        terminal.line.wf(),
    ensures
        ({
            let line = terminal.line;
            let after = after_key(terminal, DecodedKey::Unicode(c), info, facts).line;
            &&& 0x20 <= c as int <= 0x7e && line.text.len() < 256 ==> {
                &&& after.text == before_cursor(line) + seq![c as u8] + behind_cursor(line)
                &&& after.cursor == line.cursor + 1
                &&& after.overflow == line.overflow
            }
            &&& 0x20 <= c as int <= 0x7e && line.text.len() == 256 ==> {
                &&& after.text == line.text && after.cursor == line.cursor && after.overflow
            }
            &&& c as int > 0x7f ==> after == line
        }),
{
    reveal(Terminal::acted);
    crate::text::lemma_char(c);
    let line = terminal.line;
    if 0x20 <= c as int <= 0x7e && line.text.len() < 256 {
        let after = after_key(terminal, DecodedKey::Unicode(c), info, facts).line;
        assert(after.text =~= before_cursor(line) + seq![c as u8] + behind_cursor(line));
    }
}

/// Backspace takes the character before the cursor; the delete key, Ctrl+D and
/// the delete character take the one at it; Ctrl+U takes all before it and Ctrl+K
/// all from it on. What stands on the other side of the cursor is kept.
pub proof fn lemma_erasing(
    terminal: Terminal,
    key: DecodedKey,
    info: SystemInfo,
    facts: Facts,
)
    requires
        terminal.line.wf(),
    ensures
        ({
            let line = terminal.line;
            let left = before_cursor(line);
            let right = behind_cursor(line);
            let after = after_key(terminal, key, info, facts).line;
            &&& gives(key, 0x08) && left.len() > 0 ==> after.text == left.drop_last() + right
                && after.cursor == line.cursor - 1
            &&& gives(key, 0x08) && left.len() == 0 ==> after == line
            &&& gives(key, 0x7f) || gives(key, 0x04) || is_raw(key, KeyCode::Delete) ==> {
                &&& right.len() > 0 ==> after.text == left + right.skip(1) && after.cursor
                    == line.cursor
                &&& right.len() == 0 ==> after == line
            }
            &&& gives(key, 0x15) ==> after.text == right && after.cursor == 0
            &&& gives(key, 0x0b) ==> after.text == left && after.cursor == line.cursor
        }),
{
    reveal(Terminal::acted);
    let line = terminal.line;
    let left = before_cursor(line);
    let right = behind_cursor(line);
    let after = after_key(terminal, key, info, facts).line;
    if gives(key, 0x08) && left.len() > 0 {
        assert(after.text =~= left.drop_last() + right);
    }
    if gives(key, 0x7f) || gives(key, 0x04) || is_raw(key, KeyCode::Delete) {
        if right.len() > 0 {
            assert(after.text =~= left + right.skip(1));
        }
    }
    if gives(key, 0x15) {
        assert(after.text =~= right);
    }
    if gives(key, 0x0b) {
        assert(after.text =~= left);
    }
}

/// Shortening a line makes it usable again once it was too long.
pub proof fn lemma_shortening_makes_usable(
    terminal: Terminal,
    key: DecodedKey,
    info: SystemInfo,
    facts: Facts,
)
    requires
        terminal.line.wf(),
        gives(key, 0x08) || gives(key, 0x7f) || gives(key, 0x04) || is_raw(key, KeyCode::Delete)
            || gives(key, 0x15) || gives(key, 0x0b) || gives(key, 0x17),
    ensures
        ({
            let after = after_key(terminal, key, info, facts).line;
            &&& after.text.len() < terminal.line.text.len() ==> !after.overflow
            &&& after.text.len() == terminal.line.text.len() ==> after.overflow
                == terminal.line.overflow
        }),
{
    reveal(Terminal::acted);
    let line = terminal.line;
    lemma_run_start(line.text, line.cursor, true);
    lemma_run_start(line.text, run_start(line.text, line.cursor, true), false);
}

/// The cursor keys, and Ctrl+A, E, B and F, move the cursor and nothing else: to
/// the start, to the end, one left and one right as far as the line goes.
pub proof fn lemma_moving(terminal: Terminal, key: DecodedKey, info: SystemInfo, facts: Facts)
    requires
        terminal.line.wf(),
    ensures
        ({
            let line = terminal.line;
            let end = line.text.len();
            let after = after_key(terminal, key, info, facts).line;
            let moves = after.text == line.text && after.overflow == line.overflow;
            &&& is_raw(key, KeyCode::Home) || gives(key, 0x01) ==> moves && after.cursor == 0
            &&& is_raw(key, KeyCode::End) || gives(key, 0x05) ==> moves && after.cursor == end
            &&& is_raw(key, KeyCode::ArrowLeft) || gives(key, 0x02) ==> {
                &&& moves
                &&& line.cursor > 0 ==> after.cursor == line.cursor - 1
                &&& line.cursor == 0 ==> after.cursor == 0
            }
            &&& is_raw(key, KeyCode::ArrowRight) || gives(key, 0x06) ==> {
                &&& moves
                &&& line.cursor < end ==> after.cursor == line.cursor + 1
                &&& line.cursor == end ==> after.cursor == end
            }
        }),
{
    reveal(Terminal::acted);
}

/// Control characters without a meaning leave the line as it is, and so does
/// everything outside ASCII.
pub proof fn lemma_other_characters(
    terminal: Terminal,
    c: char,
    info: SystemInfo,
    facts: Facts,
)
    requires
        (c as int) < 0x20 || c as int > 0x7f,
        c as int != 0x0a && c as int != 0x0d && c as int != 0x03 && c as int != 0x0c && c as int
            != 0x09 && c as int != 0x08 && c as int != 0x04 && c as int != 0x01 && c as int != 0x05
            && c as int != 0x02 && c as int != 0x06 && c as int != 0x10 && c as int != 0x0e,
        c as int != 0x15 && c as int != 0x0b && c as int != 0x17,
    ensures
        after_key(terminal, DecodedKey::Unicode(c), info, facts).line == terminal.line,
        after_key(terminal, DecodedKey::Unicode(c), info, facts).history == terminal.history,
        c as int > 0x7f ==> after_key(terminal, DecodedKey::Unicode(c), info, facts) == terminal,
{
    reveal(Terminal::acted);
    crate::text::lemma_char(c);
    assert('\n' as int == 0x0a && '\r' as int == 0x0d && '\t' as int == 0x09);
}

/// Each cursor key and the control character that goes with it do the same.
pub proof fn lemma_keys_agree(terminal: Terminal, c: char, info: SystemInfo, facts: Facts)
    ensures
        c as int == 0x01 ==> after_key(terminal, DecodedKey::Unicode(c), info, facts) == after_key(
            terminal,
            DecodedKey::RawKey(KeyCode::Home),
            info,
            facts,
        ),
        c as int == 0x05 ==> after_key(terminal, DecodedKey::Unicode(c), info, facts) == after_key(
            terminal,
            DecodedKey::RawKey(KeyCode::End),
            info,
            facts,
        ),
        c as int == 0x02 ==> after_key(terminal, DecodedKey::Unicode(c), info, facts) == after_key(
            terminal,
            DecodedKey::RawKey(KeyCode::ArrowLeft),
            info,
            facts,
        ),
        c as int == 0x06 ==> after_key(terminal, DecodedKey::Unicode(c), info, facts) == after_key(
            terminal,
            DecodedKey::RawKey(KeyCode::ArrowRight),
            info,
            facts,
        ),
        c as int == 0x10 ==> after_key(terminal, DecodedKey::Unicode(c), info, facts) == after_key(
            terminal,
            DecodedKey::RawKey(KeyCode::ArrowUp),
            info,
            facts,
        ),
        c as int == 0x0e ==> after_key(terminal, DecodedKey::Unicode(c), info, facts) == after_key(
            terminal,
            DecodedKey::RawKey(KeyCode::ArrowDown),
            info,
            facts,
        ),
        c as int == 0x04 || c as int == 0x7f ==> after_key(
            terminal,
            DecodedKey::Unicode(c),
            info,
            facts,
        ) == after_key(terminal, DecodedKey::RawKey(KeyCode::Delete), info, facts),
        c as int == 0x0d ==> after_key(terminal, DecodedKey::Unicode(c), info, facts) == after_key(
            terminal,
            DecodedKey::Unicode('\n'),
            info,
            facts,
        ),
{
    assert('\n' as int == 0x0a);
    assert('\r' as int == 0x0d);
    assert('\t' as int == 0x09);
}

proof fn lemma_run_start(text: Seq<u8>, end: int, of_spaces: bool)
    requires
        0 <= end <= text.len(),
    ensures
        ({
            let start = run_start(text, end, of_spaces);
            &&& 0 <= start <= end
            &&& forall|i: int| start <= i < end ==> (#[trigger] text[i] == 0x20) == of_spaces
            &&& start > 0 ==> (text[start - 1] == 0x20) != of_spaces
        }),
    decreases end,
{
    if end > 0 && (text[end - 1] == 0x20) == of_spaces {
        lemma_run_start(text, end - 1, of_spaces);
    }
}

/// Ctrl+W takes the word before the cursor with the spaces behind it: however
/// what stands before the cursor is split into a part that is empty or ends in a
/// space, a word without spaces that is empty only if nothing comes before it,
/// and spaces, only the first part is kept.
pub proof fn lemma_word_erased(
    terminal: Terminal,
    key: DecodedKey,
    info: SystemInfo,
    facts: Facts,
    kept: int,
    word_end: int,
)
    requires
        terminal.line.wf(),
        gives(key, 0x17),
        0 <= kept <= word_end <= terminal.line.cursor,
        forall|i: int|
            word_end <= i < terminal.line.cursor ==> #[trigger] terminal.line.text[i] == 0x20,
        forall|i: int| kept <= i < word_end ==> #[trigger] terminal.line.text[i] != 0x20,
        kept == 0 || terminal.line.text[kept - 1] == 0x20 && kept < word_end,
    ensures
        ({
            let line = terminal.line;
            let after = after_key(terminal, key, info, facts).line;
            &&& after.text == line.text.take(kept) + behind_cursor(line)
            &&& after.cursor == kept
        }),
{
    reveal(Terminal::acted);
    let line = terminal.line;
    let text = line.text;
    lemma_run_start(text, line.cursor, true);
    let blanks = run_start(text, line.cursor, true);
    lemma_run_start(text, blanks, false);
    let start = run_start(text, blanks, false);
    if blanks < word_end {
        assert(text[word_end - 1] == 0x20);
    }
    if blanks > word_end {
        assert(text[blanks - 1] == 0x20);
    }
    if start < kept {
        assert(text[kept - 1] != 0x20);
    }
    if start > kept {
        assert(text[start - 1] != 0x20);
    }
    let after = after_key(terminal, key, info, facts).line;
    assert(after.text =~= text.take(kept) + behind_cursor(line));
}

/// Paging changes what is shown and nothing else; keys without a meaning change
/// nothing at all.
pub proof fn lemma_other_keys(
    terminal: Terminal,
    code: KeyCode,
    info: SystemInfo,
    facts: Facts,
)
    ensures
        ({
            let after = after_key(terminal, DecodedKey::RawKey(code), info, facts);
            &&& code == KeyCode::PageUp || code == KeyCode::PageDown ==> {
                &&& after.line == terminal.line && after.history == terminal.history
                &&& after.screen == (Screen { top: after.screen.top, ..terminal.screen })
            }
            &&& code == KeyCode::PageUp && terminal.screen.wf() ==> after.screen.top
                <= terminal.screen.top
            &&& code == KeyCode::PageDown && terminal.screen.wf() ==> after.screen.top
                >= terminal.screen.top
            &&& code != KeyCode::PageUp && code != KeyCode::PageDown && code != KeyCode::Home && code
                != KeyCode::End && code != KeyCode::ArrowLeft && code != KeyCode::ArrowRight && code
                != KeyCode::ArrowUp && code != KeyCode::ArrowDown && code != KeyCode::Delete
                ==> after == terminal
        }),
{
    reveal(Terminal::acted);
}

/// Going back shows the line entered last, then the one before it, and so on;
/// the oldest stays. The cursor is at the end of the line.
pub proof fn lemma_back_shows_latest_first(recall: Recall, current: LineText, count: nat)
    requires
        recall.wf(),
        recall.browsing is None,
        count >= 1,
        recall.entries.len() > 0,
    ensures
        ({
            let (after, shown) = back_by(recall, current, count);
            let len = recall.entries.len();
            let index = if count <= len {
                len - count
            } else {
                0
            };
            &&& shown.text == recall.entries[index].text
            &&& shown.cursor == shown.text.len()
            &&& after.entries == recall.entries
            &&& after.draft == current
            &&& after.browsing == Some(index)
        }),
    decreases count,
{
    reveal_with_fuel(back_by, 2);
    if count > 1 {
        lemma_back_shows_latest_first(recall, current, (count - 1) as nat);
    }
}

/// The up key goes back from the line being edited and the down key forward
/// again; nothing that is remembered changes. Without anything to go to, the line
/// stays.
pub proof fn lemma_up_and_down(terminal: Terminal, info: SystemInfo, facts: Facts)
    requires
        terminal.history.wf(),
    ensures
        ({
            let up = after_key(terminal, DecodedKey::RawKey(KeyCode::ArrowUp), info, facts);
            let down = after_key(terminal, DecodedKey::RawKey(KeyCode::ArrowDown), info, facts);
            let entries = terminal.history.entries;
            &&& up.history.entries == entries && down.history.entries == entries
            &&& entries.len() == 0 ==> up.line == terminal.line
            &&& entries.len() > 0 && terminal.history.browsing is None ==> up.line.text
                == entries.last().text && up.history.draft == terminal.line
            &&& terminal.history.browsing is None ==> down.line == terminal.line
            &&& terminal.history.browsing matches Some(i) ==> {
                &&& i > 0 ==> up.line.text == entries[i - 1].text
                &&& i == 0 ==> up.line.text == entries[0].text
                &&& i + 1 < entries.len() ==> down.line.text == entries[i + 1].text
                &&& i + 1 == entries.len() ==> down.line == terminal.history.draft
                    && down.history.browsing is None
            }
        }),
{
    reveal(Terminal::acted);
}

proof fn lemma_padding(s: Screen, count: int)
    requires
        0 <= count,
    ensures
        s.padded(count) == s.print(spaces(count)),
    decreases count,
{
    if count > 0 {
        lemma_padding(s, count - 1);
        assert(spaces(count).drop_last() =~= spaces(count - 1));
        assert(byte_of(' ') == 0x20);
    } else {
        assert(spaces(count) =~= Seq::<char>::empty());
    }
}

/// The line is shown as it is where the prompt ends, what it showed before is
/// gone, and the text cursor stands at the line's own, as long as all of it is in
/// one line of the screen.
pub proof fn lemma_line_is_displayed(terminal: Terminal, line: LineText, i: int)
    requires
        terminal.ready(1),
        line.wf(),
        terminal.anchor_line <= terminal.screen.last,
        terminal.anchor_column + line.text.len() <= terminal.screen.columns,
        terminal.anchor_column + terminal.line.text.len() <= terminal.screen.columns,
        terminal.anchor_column < terminal.screen.columns,
        0 <= i < line.text.len() || 0 <= i < terminal.line.text.len(),
    ensures
        ({
            let after = terminal.edited(line);
            let shown = after.screen.row(terminal.anchor_line)[terminal.anchor_column + i];
            &&& after.line == line
            &&& i < line.text.len() ==> shown.ascii_character == line.text[i]
            &&& i >= line.text.len() ==> shown.ascii_character == 0x20
            &&& shown.color_code == terminal.screen.color
            &&& after.screen.line == terminal.anchor_line
            &&& after.screen.column == terminal.anchor_column + line.cursor
        }),
{
    let s = terminal.screen;
    let start = s.at(terminal.anchor_line, terminal.anchor_column);
    let text = chars(line.text);
    let old_len = terminal.line.text.len() as int;
    let rest = if old_len > text.len() {
        old_len - text.len()
    } else {
        0
    };
    let whole = text + spaces(rest);
    assert(start.print(text).padded(old_len - text.len()) == start.print(whole)) by {
        if rest > 0 {
            lemma_padding(start.print(text), rest);
            lemma_print_concat(start, text, spaces(rest));
        } else {
            assert(spaces(0) =~= Seq::<char>::empty());
            assert(whole =~= text);
        }
    }
    assert forall|k: int| 0 <= k < whole.len() implies (#[trigger] whole[k]) != '\n' && whole[k]
        != '\r' && whole[k] != '\t' && byte_of(whole[k]) == (if k < text.len() {
        line.text[k]
    } else {
        0x20
    }) by {
        if k < text.len() {
            assert(0x20 <= line.text[k] <= 0x7e);
            assert(whole[k] as int == line.text[k]);
        } else {
            assert(whole[k] == ' ');
        }
    }
    lemma_text_is_read_back(start, whole, i);
    let width = s.columns;
    let end = terminal.anchor_column + line.cursor;
    if end == width {
        assert(end % width == 0 && end / width == 1) by (nonlinear_arith)
            requires
                end == width,
                width >= 1,
        ;
    } else {
        assert(end % width == end && end / width == 0) by (nonlinear_arith)
            requires
                0 <= end < width,
        ;
    }
    assert(byte_of(whole[i]) == (if i < text.len() {
        line.text[i]
    } else {
        0x20
    }));
}

/// The prompt: who and where in green, a colon, the place in blue, and a sign
/// behind which input begins.
pub proof fn lemma_prompt_is_displayed(s: Screen, i: int)
    requires
        s.wf(),
        s.first <= s.line <= s.last,
        s.line < usize::MAX,
        s.column == 0,
        s.columns >= 18,
        0 <= i < 18,
    ensures
        ({
            let after = print_prompt(s);
            let shown = after.row(s.line)[i];
            &&& shown.ascii_character as int == "shaolin@crabos:~$ "@[i] as int
            &&& i < 14 ==> shown.color_code == 10
            &&& i == 15 ==> shown.color_code == 9
            &&& i == 14 || i >= 16 ==> shown.color_code == 7
            &&& after.line == s.line && after.column == 18 && after.color == 7
        }),
{
    reveal_strlit("shaolin@crabos:~$ ");
    reveal_strlit("shaolin@crabos");
    reveal_strlit(":");
    reveal_strlit("~");
    reveal_strlit("$ ");
    let a = Screen { color: 10, ..s };
    let user = "shaolin@crabos"@;
    let first = if i < 14 {
        i
    } else {
        0
    };
    lemma_text_is_read_back(a, user, first);
    let b = Screen { color: 7, ..a.print(user) };
    lemma_text_is_read_back(b, ":"@, 0);
    let c = Screen { color: 9, ..b.print(":"@) };
    lemma_text_is_read_back(c, "~"@, 0);
    let d = Screen { color: 7, ..c.print("~"@) };
    lemma_text_is_read_back(
        d,
        "$ "@,
        if i == 17 {
            1
        } else {
            0
        },
    );
    assert(print_prompt(s) == d.print("$ "@));
    lemma_kept_by_one(b, ':', i);
    lemma_kept_by_one(c, '~', i);
    lemma_kept_by_one(d, '$', i);
    assert(":"@ =~= seq![':'] && "~"@ =~= seq!['~'] && "$ "@ =~= seq!['$'] + seq![' ']);
    lemma_print_concat(d, seq!['$'], seq![' ']);
    lemma_text_is_read_back(d, seq!['$'], 0);
    lemma_kept_by_one(d.print(seq!['$']), ' ', i);
}

/// One more character leaves the cells before it as they are.
proof fn lemma_kept_by_one(s: Screen, c: char, i: int)
    requires
        s.wf(),
        s.first <= s.line <= s.last,
        s.line < usize::MAX,
        s.column < s.columns,
        0x20 <= c as int <= 0x7e,
    ensures
        0 <= i < s.column ==> s.print(seq![c]).row(s.line)[i] == s.row(s.line)[i],
{
    assert(seq![c].drop_last() =~= Seq::<char>::empty());
    reveal_with_fuel(Screen::print, 2);
    crate::laws::screen::lemma_character_takes_one_cell(s, byte_of(c));
}

/// A text begins with another exactly if it is that text and a rest.
pub proof fn lemma_beginnings(text: Seq<char>, prefix: Seq<char>, rest: Seq<char>)
    ensures
        starts_with(prefix + rest, prefix),
        starts_with(text, prefix) ==> text == prefix + text.skip(prefix.len() as int),
{
    assert((prefix + rest).take(prefix.len() as int) =~= prefix);
    if starts_with(text, prefix) {
        assert(text =~= text.take(prefix.len() as int) + text.skip(prefix.len() as int));
    }
}

/// Matches come in the order of the commands.
proof fn lemma_matches_ordered(prefix: Seq<char>, n: int)
    requires
        0 <= n <= 13,
    ensures
        forall|j: int, k: int|
            0 <= j < k < matching(prefix, n).len() ==> #[trigger] matching(prefix, n)[j]
                < #[trigger] matching(prefix, n)[k],
    decreases n,
{
    if n > 0 {
        lemma_matching(prefix, n - 1);
        lemma_matches_ordered(prefix, n - 1);
    }
}

/// Where the commands that begin with the only word go on differently, the tab
/// key prints their names below the line, in the order of the commands, and
/// shows the prompt and the line again. Nothing is added to the line.
pub proof fn lemma_tab_lists(
    terminal: Terminal,
    one: int,
    other: int,
    info: SystemInfo,
    facts: Facts,
)
    requires
        terminal.line.wf(),
        terminal.line.cursor == terminal.line.text.len(),
        forall|i: int|
            0 <= i < terminal.line.text.len() ==> #[trigger] terminal.line.text[i] != 0x20,
        0 <= one < other < 13,
        starts_with(command_name(one), chars(terminal.line.text)),
        starts_with(command_name(other), chars(terminal.line.text)),
        command_name(one).len() > terminal.line.text.len(),
        command_name(other).len() > terminal.line.text.len(),
        command_name(one)[terminal.line.text.len() as int]
            != command_name(other)[terminal.line.text.len() as int],
    ensures
        ({
            let line = terminal.line;
            let typed = chars(line.text);
            let len = line.text.len() as int;
            let found = matching(typed, 13);
            let after = after_key(terminal, DecodedKey::Unicode('\t'), info, facts);
            let below = terminal.screen.input(
                terminal.anchor_line,
                terminal.anchor_column,
                typed,
                len,
                len,
            ).print(seq!['\n']);
            let fresh = print_prompt(print_names(below, found).print(seq!['\n']));
            &&& after.line == line && after.history == terminal.history
            &&& after.screen == fresh.input(fresh.line, fresh.column, typed, len, len)
            &&& forall|i: int|
                0 <= i < 13 ==> (starts_with(#[trigger] command_name(i), typed) <==> found.contains(
                    i,
                ))
            &&& forall|j: int, k: int|
                0 <= j < k < found.len() ==> #[trigger] found[j] < #[trigger] found[k]
        }),
{
    reveal(Terminal::acted);
    assert('\t' as int == 0x09 && '\n' as int == 0x0a && '\r' as int == 0x0d);
    let line = terminal.line;
    let typed = chars(line.text);
    let len = line.text.len() as int;
    let found = matching(typed, 13);
    lemma_matching(typed, 13);
    lemma_matches_ordered(typed, 13);
    assert(found.contains(one) && found.contains(other));
    let j = choose|j: int| 0 <= j < found.len() && found[j] == one;
    let k = choose|k: int| 0 <= k < found.len() && found[k] == other;
    assert(found.len() > 1);
    lemma_completion_is_common(line);
    let text = chars(completion(line).text);
    assert(starts_with(command_name(one), text) && starts_with(command_name(other), text));
    if text.len() > len {
        assert(command_name(one).take(text.len() as int)[len] == text[len]);
        assert(command_name(other).take(text.len() as int)[len] == text[len]);
    }
    assert(text.len() == len);
    lemma_common_len(typed, found);
    assert(text.len() == common_len(found));
    reveal_strlit("\n");
    assert("\n"@ =~= seq!['\n']);
    assert forall|i: int| 0 <= i < 13 && found.contains(i) implies starts_with(
        #[trigger] command_name(i),
        typed,
    ) by {
        let n = choose|n: int| 0 <= n < found.len() && found[n] == i;
        assert(starts_with(command_name(found[n]), typed));
    }
}

/// Where one command alone begins with the only word, and the cursor is behind
/// it, the tab key makes it that command and a space. Where none does, where the
/// cursor is within the word, or behind a space, it does nothing.
pub proof fn lemma_tab_completes(
    terminal: Terminal,
    index: int,
    info: SystemInfo,
    facts: Facts,
)
    requires
        terminal.line.wf(),
    ensures
        ({
            let line = terminal.line;
            let typed = chars(line.text);
            let after = after_key(terminal, DecodedKey::Unicode('\t'), info, facts);
            let at_word = line.cursor == line.text.len() && forall|i: int|
                0 <= i < line.text.len() ==> #[trigger] line.text[i] != 0x20;
            &&& at_word && 0 <= index < 13 && (forall|i: int|
                0 <= i < 13 ==> (starts_with(#[trigger] command_name(i), typed) <==> i == index))
                ==> chars(after.line.text) == command_name(index).push(' ') && after.line.cursor
                == command_name(index).len() + 1
            &&& !at_word ==> after == terminal
            &&& (forall|i: int|
                0 <= i < 13 ==> !starts_with(#[trigger] command_name(i), typed)) ==> after
                == terminal
            &&& after.history == terminal.history
        }),
{
    reveal(Terminal::acted);
    assert('\t' as int == 0x09);
    let line = terminal.line;
    let typed = chars(line.text);
    let found = matching(typed, 13);
    lemma_matching(typed, 13);
    lemma_matches_ordered(typed, 13);
    let at_word = line.cursor == line.text.len() && forall|i: int|
        0 <= i < line.text.len() ==> #[trigger] line.text[i] != 0x20;
    if forall|i: int| 0 <= i < 13 ==> !starts_with(#[trigger] command_name(i), typed) {
        if found.len() > 0 {
            assert(starts_with(command_name(found[0]), typed));
        }
        assert(!completes(line));
    }
    if at_word && 0 <= index < 13 && (forall|i: int|
        0 <= i < 13 ==> (starts_with(#[trigger] command_name(i), typed) <==> i == index)) {
        assert(starts_with(command_name(index), typed));
        assert(found.contains(index));
        assert(found[0] == index);
        if found.len() > 1 {
            assert(found[0] < found[1]);
            assert(starts_with(command_name(found[1]), typed));
        }
        assert(found =~= seq![index]);
        lemma_unique_completion(line, index);
    }
}

} // verus!
