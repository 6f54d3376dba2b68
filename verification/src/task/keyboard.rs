//! Queued keyboard bytes and their decoding.
use crossbeam_queue::ArrayQueue;
use pc_keyboard::layouts::Us104Key;
use pc_keyboard::{
    DecodedKey, Error, HandleControl, KeyCode, KeyEvent, KeyState, Keyboard, ScancodeSet1,
};
use vstd::prelude::*;

verus! {

/// `crossbeam_queue`'s bounded queue.
#[verifier::external_type_specification]
#[verifier::external_body]
#[verifier::reject_recursive_types(T)]
pub struct ExArrayQueue<T>(ArrayQueue<T>);

/// What happened to a key.
#[verifier::external_type_specification]
pub struct ExKeyState(KeyState);

/// A key, and what happened to it.
#[verifier::external_type_specification]
pub struct ExKeyEvent(KeyEvent);

/// Why bytes from a keyboard mean nothing.
#[verifier::external_type_specification]
pub struct ExKeyboardError(Error);

/// The bytes in a queue, the oldest first.
pub uninterp spec fn queue_contents(queue: ArrayQueue<u8>) -> Seq<u8>;

/// The number of bytes that a queue holds at most.
pub uninterp spec fn queue_capacity(queue: ArrayQueue<u8>) -> nat;

/// `ArrayQueue::new` gives an empty queue of the given capacity. It panics on
/// zero, and on a capacity near the largest number.
#[verifier::external_body]
fn new_queue(capacity: usize) -> (queue: ArrayQueue<u8>)
    requires
        0 < capacity <= 4096,
    ensures
        queue_contents(queue) == Seq::<u8>::empty(),
        queue_capacity(queue) == capacity,
{
    ArrayQueue::new(capacity)
}

/// `ArrayQueue::push` appends the byte, or gives it back if the queue is full.
/// This holds without other users of the queue, as the exclusive reference
/// says.
#[verifier::external_body]
fn push(queue: &mut ArrayQueue<u8>, byte: u8) -> (result: Result<(), u8>)
    ensures
        queue_capacity(*final(queue)) == queue_capacity(*old(queue)),
        queue_contents(*old(queue)).len() < queue_capacity(*old(queue)) ==> result is Ok
            && queue_contents(*final(queue)) == queue_contents(*old(queue)).push(byte),
        queue_contents(*old(queue)).len() >= queue_capacity(*old(queue)) ==> (result matches Err(
            back,
        ) && back == byte) && queue_contents(*final(queue)) == queue_contents(*old(queue)),
{
    queue.push(byte)
}

/// `ArrayQueue::pop` takes out the oldest byte, if there is any. This holds
/// without other users of the queue, as the exclusive reference says.
#[verifier::external_body]
fn pop(queue: &mut ArrayQueue<u8>) -> (byte: Option<u8>)
    ensures
        queue_capacity(*final(queue)) == queue_capacity(*old(queue)),
        queue_contents(*old(queue)).len() == 0 ==> byte is None && queue_contents(*final(queue))
            == queue_contents(*old(queue)),
        queue_contents(*old(queue)).len() > 0 ==> byte == Some(queue_contents(*old(queue))[0])
            && queue_contents(*final(queue)) == queue_contents(*old(queue)).skip(1),
{
    queue.pop()
}

/// The bytes that the keyboard sent and nobody has read yet.
pub struct ScancodeStream {
    pub queue: ArrayQueue<u8>,
    /// How many bytes found the queue full, modulo the range of the counter.
    pub dropped: usize,
}

impl View for ScancodeStream {
    type V = Seq<u8>;

    open spec fn view(&self) -> Seq<u8> {
        queue_contents(self.queue)
    }
}

impl ScancodeStream {
    pub open spec fn wf(&self) -> bool {
        queue_capacity(self.queue) == 100 && self@.len() <= 100
    }

    pub fn new() -> (stream: ScancodeStream)
        ensures
            stream.wf(),
            stream@ == Seq::<u8>::empty(),
            stream.dropped == 0,
    {
        ScancodeStream { queue: new_queue(100), dropped: 0 }
    }

    /// The oldest byte, which leaves the queue.
    pub fn next_scancode(&mut self) -> (scancode: Option<u8>)
        requires
            old(self).wf(),
        ensures
            final(self).wf(),
            final(self).dropped == old(self).dropped,
            match scancode {
                Some(byte) => old(self)@.len() > 0 && byte == old(self)@[0] && final(self)@
                    == old(self)@.skip(1),
                None => old(self)@.len() == 0 && final(self)@ == old(self)@,
            },
    {
        pop(&mut self.queue)
    }

    /// Throw away all bytes.
    pub fn drain(&mut self)
        requires
            old(self).wf(),
        ensures
            final(self).wf(),
            final(self)@ == Seq::<u8>::empty(),
            final(self).dropped == old(self).dropped,
    {
        while self.next_scancode().is_some()
            invariant
                self.wf(),
                self.dropped == old(self).dropped,
            ensures
                self@.len() == 0,
            decreases self@.len(),
        {
        }
        assert(self@ =~= Seq::<u8>::empty());
    }
}

/// Queue a byte from the keyboard. Where the queue is full it is dropped and
/// counted.
pub fn add_scancode(stream: &mut ScancodeStream, scancode: u8)
    requires
        old(stream).wf(),
    ensures
        final(stream).wf(),
        old(stream)@.len() < 100 ==> {
            &&& final(stream)@ == old(stream)@.push(scancode)
            &&& final(stream).dropped == old(stream).dropped
        },
        old(stream)@.len() == 100 ==> {
            &&& final(stream)@ == old(stream)@
            &&& final(stream).dropped != old(stream).dropped
            &&& final(stream).dropped == (if old(stream).dropped == usize::MAX {
                0
            } else {
                old(stream).dropped + 1
            })
        },
{
    if push(&mut stream.queue, scancode).is_err() {
        stream.dropped = stream.dropped.wrapping_add(1);
    }
}

pub fn dropped_scancodes(stream: &ScancodeStream) -> (count: usize)
    ensures
        count == stream.dropped,
{
    stream.dropped
}

/// Where decoding stands: the bytes of a code that is not complete, and which
/// modifiers are on: left and right shift, left and right control, the number
/// and capital locks, the right alt key, and the control key that a pause key
/// pretends.
#[verifier::ext_equal]
pub struct Keys {
    pub pending: Seq<u8>,
    pub held: Seq<bool>,
}

impl Keys {
    pub open spec fn start() -> Keys {
        Keys {
            pending: Seq::empty(),
            held: seq![false, false, false, false, true, false, false, false],
        }
    }
}

/// A keyboard of `pc_keyboard` with its United States layout, which reads scan
/// code set 1 and gives control characters for letters under the control key.
#[verifier::external_body]
pub struct Decoder {
    keyboard: Keyboard<Us104Key, ScancodeSet1>,
}

/// The bytes of an incomplete code that a decoder has read.
pub uninterp spec fn pending_bytes(decoder: Decoder) -> Seq<u8>;

/// The modifiers that a decoder takes to be on.
pub uninterp spec fn held_modifiers(decoder: Decoder) -> Seq<bool>;

/// What `Keyboard::add_byte` makes of a byte after the pending ones.
pub uninterp spec fn scanned(pending: Seq<u8>, byte: u8) -> Result<Option<KeyEvent>, Error>;

/// What `Keyboard::process_keyevent` makes of an event under some modifiers:
/// the modifiers after it, and the key.
pub uninterp spec fn processed(held: Seq<bool>, event: KeyEvent) -> (Seq<bool>, Option<DecodedKey>);

/// The bytes pending after one more: only the two prefixes of longer codes are.
pub open spec fn pending_after(pending: Seq<u8>, byte: u8) -> Seq<u8> {
    if pending.len() == 0 && (byte == 0xe0 || byte == 0xe1) {
        seq![byte]
    } else {
        Seq::empty()
    }
}

impl View for Decoder {
    type V = Keys;

    open spec fn view(&self) -> Keys {
        Keys { pending: pending_bytes(*self), held: held_modifiers(*self) }
    }
}

/// `Keyboard::new` starts between two codes, with the number lock on and no
/// other modifier.
#[verifier::external_body]
fn new_keyboard() -> (decoder: Decoder)
    ensures
        pending_bytes(decoder) == Keys::start().pending,
        held_modifiers(decoder) == Keys::start().held,
{
    Decoder {
        keyboard: Keyboard::new(
            ScancodeSet1::new(),
            Us104Key,
            HandleControl::MapLettersToUnicode,
        ),
    }
}

/// `Keyboard::add_byte` finds an event from the pending bytes and this one. It
/// keeps the modifiers, and remembers no more than the prefix of a longer code.
#[verifier::external_body]
fn add_byte(decoder: &mut Decoder, byte: u8) -> (event: Result<Option<KeyEvent>, Error>)
    ensures
        event == scanned(pending_bytes(*old(decoder)), byte),
        pending_bytes(*final(decoder)) == pending_after(pending_bytes(*old(decoder)), byte),
        held_modifiers(*final(decoder)) == held_modifiers(*old(decoder)),
{
    decoder.keyboard.add_byte(byte)
}

/// `Keyboard::process_keyevent` finds the key of an event from the modifiers,
/// and keeps account of them. It leaves the pending bytes.
#[verifier::external_body]
fn process_keyevent(decoder: &mut Decoder, event: KeyEvent) -> (key: Option<DecodedKey>)
    ensures
        (held_modifiers(*final(decoder)), key) == processed(held_modifiers(*old(decoder)), event),
        pending_bytes(*final(decoder)) == pending_bytes(*old(decoder)),
{
    decoder.keyboard.process_keyevent(event)
}

/// The event for which the layout is asked: it knows the backslash key only
/// under the code of the ISO key, and ANSI keyboards have another one.
pub open spec fn console_event(event: KeyEvent) -> KeyEvent {
    match event.code {
        KeyCode::Oem7 => KeyEvent { code: KeyCode::Oem5, state: event.state },
        _ => event,
    }
}

impl Keys {
    /// After one byte: where decoding stands, and the key that was found.
    pub open spec fn byte(self, byte: u8) -> (Keys, Option<DecodedKey>) {
        self.with_event(byte, scanned(self.pending, byte))
    }

    /// After one byte that gave an event.
    pub open spec fn with_event(self, byte: u8, event: Result<Option<KeyEvent>, Error>) -> (
        Keys,
        Option<DecodedKey>,
    ) {
        let pending = pending_after(self.pending, byte);
        match event {
            Ok(Some(event)) => {
                let (held, key) = processed(self.held, console_event(event));
                (Keys { pending, held }, key)
            },
            _ => (Keys { pending, held: self.held }, None),
        }
    }
}

/// The event for which the layout is asked.
pub fn map_event(event: KeyEvent) -> (mapped: KeyEvent)
    ensures
        mapped == console_event(event),
{
    match event.code {
        KeyCode::Oem7 => KeyEvent { code: KeyCode::Oem5, state: event.state },
        _ => event,
    }
}

/// A decoder for the console's keyboard.
pub fn decoder() -> (decoder: Decoder)
    ensures
        decoder@ == Keys::start(),
{
    new_keyboard()
}

impl Decoder {
    /// Decode one byte from the keyboard.
    pub fn decode(&mut self, byte: u8) -> (key: Option<DecodedKey>)
        ensures
            (final(self)@, key) == old(self)@.byte(byte),
    {
        match add_byte(self, byte) {
            Ok(Some(event)) => process_keyevent(self, map_event(event)),
            _ => None,
        }
    }
}

/// The bytes of a stream after a byte came in.
pub open spec fn queued(bytes: Seq<u8>, byte: u8) -> Seq<u8> {
    if bytes.len() < 100 {
        bytes.push(byte)
    } else {
        bytes
    }
}

/// The bytes of a stream after many came in and none was read.
pub open spec fn queued_all(bytes: Seq<u8>, incoming: Seq<u8>) -> Seq<u8>
    decreases incoming.len(),
{
    if incoming.len() == 0 {
        bytes
    } else {
        queued(queued_all(bytes, incoming.drop_last()), incoming.last())
    }
}

/// What waits is always the first of what came in, in its order.
pub proof fn lemma_queue_keeps_first(incoming: Seq<u8>)
    ensures
        queued_all(Seq::empty(), incoming) == incoming.take(
            if incoming.len() < 100 {
                incoming.len() as int
            } else {
                100
            },
        ),
    decreases incoming.len(),
{
    if incoming.len() > 0 {
        let before = incoming.drop_last();
        lemma_queue_keeps_first(before);
        if incoming.len() <= 100 {
            assert(before.take(before.len() as int).push(incoming.last()) =~= incoming.take(
                incoming.len() as int,
            ));
        } else {
            assert(before.take(100) =~= incoming.take(100));
        }
    } else {
        assert(incoming.take(0) =~= incoming);
    }
}

} // verus!
