//! Which terminal keys and windows reach.
use pc_keyboard::{DecodedKey, KeyCode, KeyEvent};
use vstd::prelude::*;

use crate::laws::editing::after_key;
use crate::shell::answers::{print_answer, Answer};
use crate::shell::commands::{Asked, Request};
use crate::shell::line::LineText;
use crate::shell::print_prompt;
use crate::system::{Facts, SystemInfo};
use crate::task::keyboard::{console_event, Keys};
use crate::task::session::{is_asked, Station};

verus! {

/// Every key but Ctrl+Q and Ctrl+C reaches the focused terminal and nothing
/// else: the other terminal and the windows stay as they are.
pub proof fn lemma_keys_reach_focused_terminal(
    station: Station,
    key: DecodedKey,
    info: SystemInfo,
    facts: Facts,
)
    requires
        station.terminals.len() == 2,
        station.desk.wf(),
        key matches DecodedKey::Unicode(c) ==> c as int != 0x11 && c as int != 0x03,
    ensures
        ({
            let after = station.key(key, info, facts);
            let active = station.desk.active;
            &&& after.desk == station.desk
            &&& after.terminals.len() == 2
            &&& after.terminals[active] == after_key(station.terminals[active], key, info, facts)
            &&& after.terminals[1 - active] == station.terminals[1 - active]
        }),
{
}

/// Ctrl+C closes the focused window and no other, and the focus goes to the
/// other one if that is open; Ctrl+Q opens the first closed one, if any is, and
/// focuses it. Neither asks for anything.
pub proof fn lemma_window_keys(station: Station, c: char, info: SystemInfo, facts: Facts)
    requires
        station.terminals.len() == 2,
        station.desk.wf(),
    ensures
        ({
            let before = station.desk;
            let after = station.key(DecodedKey::Unicode(c), info, facts).desk;
            let active = before.active;
            &&& c as int == 0x03 ==> {
                &&& !after.open[active]
                &&& after.open[1 - active] == before.open[1 - active]
                &&& before.open[1 - active] ==> after.active == 1 - active
            }
            &&& c as int == 0x11 && !before.open[0] ==> after.open[0] && after.active == 0
                && after.open[1] == before.open[1]
            &&& c as int == 0x11 && before.open[0] && !before.open[1] ==> after.open[0]
                && after.open[1] && after.active == 1
            &&& c as int == 0x11 && before.open[0] && before.open[1] ==> station.key(
                DecodedKey::Unicode(c),
                info,
                facts,
            ) == station
            &&& c as int == 0x03 || c as int == 0x11 ==> station.key_asks(
                DecodedKey::Unicode(c),
            ) is None
        }),
{
}

/// Whenever a window opens or closes, both terminals keep what they remember
/// and lose the line that was being typed.
pub proof fn lemma_windows_resize_terminals(
    station: Station,
    c: char,
    info: SystemInfo,
    facts: Facts,
    index: int,
)
    requires
        station.terminals.len() == 2,
        station.desk.wf(),
        station.terminals[0].screen.wf(),
        station.terminals[1].screen.wf(),
        0 <= index < 2,
        c as int == 0x03 && station.desk.open[station.desk.active] || c as int == 0x11 && !(
        station.desk.open[0] && station.desk.open[1]),
    ensures
        ({
            let after = station.key(DecodedKey::Unicode(c), info, facts);
            let terminal = after.terminals[index];
            &&& terminal.history == station.terminals[index].history
            &&& terminal.line.text.len() == 0 && terminal.line.cursor == 0
        }),
{
    assert(LineText::empty().text.len() == 0);
    let after = station.key(DecodedKey::Unicode(c), info, facts);
    if c as int == 0x03 {
        assert(after.desk.open[station.desk.active] != station.desk.open[station.desk.active]);
    } else if !station.desk.open[0] {
        assert(after.desk.open[0] != station.desk.open[0]);
    } else {
        assert(after.desk.open[1] != station.desk.open[1]);
    }
}

/// Only entering a line asks for anything, and only the focused terminal does.
pub proof fn lemma_only_enter_asks(station: Station, key: DecodedKey)
    ensures
        key == DecodedKey::Unicode('\n') || key == DecodedKey::Unicode('\r') ==> station.key_asks(
            key,
        ) == station.terminals[station.desk.active].request(),
        key != DecodedKey::Unicode('\n') && key != DecodedKey::Unicode('\r') ==> station.key_asks(
            key,
        ) == None::<Asked>,
{
    assert('\n' as int == 0x0a);
    assert('\r' as int == 0x0d);
    if let DecodedKey::Unicode(c) = key {
        assert(c as int == 0x0a ==> c == '\n');
        assert(c as int == 0x0d ==> c == '\r');
    }
}

/// Of all keys, only the one beside enter on ANSI keyboards is asked for under
/// another code, and pressing and releasing stay what they are.
pub proof fn lemma_backslash_key(event: KeyEvent)
    ensures
        console_event(event).state == event.state,
        event.code == KeyCode::Oem7 ==> console_event(event).code == KeyCode::Oem5,
        event.code != KeyCode::Oem7 ==> console_event(event) == event,
{
}

/// The keys of both codes are told alike, whatever modifiers are on; a byte
/// that ends no event gives no key and leaves the modifiers.
pub proof fn lemma_backslash_keys_agree(keys: Keys, byte: u8, event: KeyEvent)
    ensures
        event.code == KeyCode::Oem7 ==> keys.with_event(byte, Ok(Some(event))) == keys.with_event(
            byte,
            Ok(Some(KeyEvent { code: KeyCode::Oem5, state: event.state })),
        ),
        keys.with_event(byte, Ok(None)).1 is None,
        keys.with_event(byte, Ok(None)).0.held == keys.held,
{
}

/// A byte that gives no key changes nothing but where decoding stands; one that
/// gives a key does what the key does.
pub proof fn lemma_bytes_give_keys(station: Station, byte: u8, info: SystemInfo, facts: Facts)
    ensures
        ({
            let (keys, key) = station.keys.byte(byte);
            let decoded = Station { keys, ..station };
            &&& key is None ==> station.byte(byte, info, facts) == decoded && station.byte_asks(
                byte,
            ) is None
            &&& key matches Some(key) ==> station.byte(byte, info, facts) == decoded.key(
                key,
                info,
                facts,
            ) && station.byte_asks(byte) == station.key_asks(key)
        }),
{
}

/// Losing bytes discards the line of the focused terminal only, and starts
/// decoding anew with no key held and the number lock on.
pub proof fn lemma_loss_reaches_focused_terminal(station: Station)
    requires
        station.terminals.len() == 2,
        station.desk.wf(),
    ensures
        ({
            let after = station.lost();
            let active = station.desk.active;
            &&& after.desk == station.desk
            &&& after.terminals[1 - active] == station.terminals[1 - active]
            &&& after.terminals[active].line.text.len() == 0
            &&& after.keys.pending.len() == 0
            &&& after.keys.held.len() == 8
            &&& forall|i: int| 0 <= i < 8 ==> #[trigger] after.keys.held[i] == (i == 4)
        }),
{
    reveal(crate::shell::Terminal::lost);
}

/// An answer goes to the terminal that it is for, whichever is focused by then,
/// and the other one stays as it is.
pub proof fn lemma_answers_reach_their_terminal(station: Station, index: int, answer: Answer)
    requires
        station.terminals.len() == 2,
        0 <= index < 2,
    ensures
        ({
            let after = station.answered(index, answer);
            &&& after.terminals[index].screen == print_prompt(
                print_answer(station.terminals[index].screen, answer),
            )
            &&& after.terminals[index].line == station.terminals[index].line
            &&& after.terminals[1 - index] == station.terminals[1 - index]
            &&& after.desk == station.desk && after.keys == station.keys
        }),
{
}

/// A request comes with the terminal that asked, and says what it asked for.
pub proof fn lemma_requests_name_their_terminal(
    request: Option<(usize, Request)>,
    index: int,
    expected: Option<Asked>,
)
    requires
        is_asked(request, index, expected),
    ensures
        request is Some == expected is Some,
        request matches Some((terminal, wanted)) ==> {
            &&& terminal == index
            &&& expected == Some(Asked::Devices) ==> wanted is Devices
            &&& expected == Some(Asked::Network) ==> wanted is Network
            &&& expected matches Some(Asked::Page(address)) ==> (wanted matches Request::Page(text)
                && text@ == address)
        },
{
}

} // verus!
