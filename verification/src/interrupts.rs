//! Interrupt numbers, the uptime clock, and setting up the timer and the mouse.
use vstd::prelude::*;

verus! {

pub const PIC_1_OFFSET: u8 = 32;
pub const PIC_2_OFFSET: u8 = 40;

/// Frequency of the timer's clock, and what it is divided by for an interrupt.
pub const PIT_FREQUENCY: u64 = 1_193_182;
pub const PIT_DIVISOR: u16 = 11_932;

#[derive(Clone, Copy, Debug, PartialEq, Eq, Structural)]
pub enum InterruptIndex {
    Timer,
    Keyboard,
    Mouse,
}

impl InterruptIndex {
    /// The vector of an interrupt: lines 0 and 1 of the first controller, and
    /// line 4 of the second.
    pub open spec fn number(self) -> u8 {
        match self {
            InterruptIndex::Timer => 32,
            InterruptIndex::Keyboard => 33,
            InterruptIndex::Mouse => 44,
        }
    }

    pub fn as_u8(self) -> (number: u8)
        ensures
            number == self.number(),
    {
        match self {
            InterruptIndex::Timer => PIC_1_OFFSET,
            InterruptIndex::Keyboard => PIC_1_OFFSET + 1,
            InterruptIndex::Mouse => PIC_2_OFFSET + 4,
        }
    }
}

/// Whole seconds in a number of timer interrupts.
pub open spec fn seconds_in(ticks: int) -> int {
    ticks * 11_932 / 1_193_182
}

pub fn uptime_seconds(ticks: u64) -> (seconds: u64)
    ensures
        seconds == ticks * 11_932 / 1_193_182,
        seconds == seconds_in(ticks as int),
{
    let whole: u64 = ticks / PIT_FREQUENCY;
    let rest: u64 = ticks % PIT_FREQUENCY;
    let divisor: u64 = PIT_DIVISOR as u64;
    assert(ticks == whole * 1_193_182 + rest);
    assert(ticks * 11_932 == (whole * 11_932) * 1_193_182 + rest * 11_932);
    // Splitting the quotient keeps the intermediate product from overflowing.
    whole * divisor + rest * divisor / PIT_FREQUENCY
}

/// Uptime never goes back, and a second takes about a hundred interrupts.
pub proof fn lemma_uptime_advances(ticks: int, later: int)
    requires
        0 <= ticks <= later,
    ensures
        ticks * 11_932 / 1_193_182 <= later * 11_932 / 1_193_182,
        (ticks + 100) * 11_932 / 1_193_182 >= ticks * 11_932 / 1_193_182 + 1,
        (ticks + 99) * 11_932 / 1_193_182 <= ticks * 11_932 / 1_193_182 + 1,
{
}

/// The bytes that program timer channel 0 for about 100 interrupts per second,
/// each with its port.
pub fn init_timer() -> (writes: [(u16, u8); 3])
    ensures
        writes@ == seq![
            (0x43u16, 0x36u8),
            (0x40u16, (11_932u16 % 256) as u8),
            (0x40u16, (11_932u16 / 256) as u8),
        ],
{
    let writes: [(u16, u8); 3] = [
        (0x43, 0x36),
        (0x40, (PIT_DIVISOR % 256) as u8),
        (0x40, (PIT_DIVISOR / 256) as u8),
    ];
    assert(writes@ =~= seq![
        (0x43u16, 0x36u8),
        (0x40u16, (11_932u16 % 256) as u8),
        (0x40u16, (11_932u16 / 256) as u8),
    ]);
    writes
}

/// What to do next with the keyboard controller.
#[derive(Clone, Copy, Debug, PartialEq, Eq, Structural)]
pub enum PortAction {
    Write(u16, u8),
    Read(u16),
    /// Set the masks of both interrupt controllers.
    Masks(u8, u8),
    Nothing,
}

/// Where enabling the mouse stands: the step, and the configuration byte once
/// it was read.
#[derive(Clone, Copy, Debug, PartialEq, Eq, Structural)]
pub struct MouseSetup {
    pub step: u8,
    pub config: u8,
}

/// The configuration that routes the mouse's interrupts and runs its clock.
pub open spec fn mouse_config(config: u8) -> u8 {
    (config | 2u8) & 0xdfu8
}

/// Whether a step polls the controller until a byte from it is there.
pub open spec fn awaits_output(step: u8) -> bool {
    step == 2 || step == 10 || step == 15
}

/// Whether a step polls the controller until it takes another byte.
pub open spec fn awaits_input(step: u8) -> bool {
    step == 5 || step == 8 || step == 13
}

impl MouseSetup {
    pub open spec fn asks(self) -> PortAction {
        let step = self.step;
        if awaits_output(step) || awaits_input(step) {
            PortAction::Read(0x64)
        } else if step == 0 {
            PortAction::Write(0x64, 0xa8)
        } else if step == 1 {
            PortAction::Write(0x64, 0x20)
        } else if step == 3 || step == 11 || step == 16 {
            PortAction::Read(0x60)
        } else if step == 4 {
            PortAction::Write(0x64, 0x60)
        } else if step == 6 {
            PortAction::Write(0x60, self.config)
        } else if step == 7 || step == 12 {
            PortAction::Write(0x64, 0xd4)
        } else if step == 9 {
            PortAction::Write(0x60, 0xf6)
        } else if step == 14 {
            PortAction::Write(0x60, 0xf4)
        } else if step == 17 {
            PortAction::Masks(0xf8, 0xef)
        } else {
            PortAction::Nothing
        }
    }

    /// The state after what was asked for is done; `value` is what was read.
    pub open spec fn after(self, value: u8) -> MouseSetup {
        if self.step >= 18 || awaits_output(self.step) && value & 1 == 0 || awaits_input(self.step)
            && value & 2 != 0 {
            self
        } else {
            MouseSetup {
                step: (self.step + 1) as u8,
                config: if self.step == 3 {
                    mouse_config(value)
                } else {
                    self.config
                },
            }
        }
    }

    pub fn action(&self) -> (action: PortAction)
        ensures
            action == self.asks(),
    {
        match self.step {
            0 => PortAction::Write(0x64, 0xa8),
            1 => PortAction::Write(0x64, 0x20),
            2 | 5 | 8 | 10 | 13 | 15 => PortAction::Read(0x64),
            3 | 11 | 16 => PortAction::Read(0x60),
            4 => PortAction::Write(0x64, 0x60),
            6 => PortAction::Write(0x60, self.config),
            7 | 12 => PortAction::Write(0x64, 0xd4),
            9 => PortAction::Write(0x60, 0xf6),
            14 => PortAction::Write(0x60, 0xf4),
            17 => PortAction::Masks(0b1111_1000, 0b1110_1111),
            _ => PortAction::Nothing,
        }
    }

    pub fn advance(self, value: u8) -> (next: MouseSetup)
        ensures
            next == self.after(value),
    {
        let waits: bool = match self.step {
            2 | 10 | 15 => value & 1 == 0,
            5 | 8 | 13 => value & 2 != 0,
            _ => self.step >= 18,
        };
        if waits {
            return self;
        }
        MouseSetup {
            step: self.step + 1,
            config: if self.step == 3 {
                (value | 2u8) & 0xdfu8
            } else {
                self.config
            },
        }
    }
}

/// Enabling the mouse starts with its first step.
pub fn init_mouse() -> (setup: MouseSetup)
    ensures
        setup == (MouseSetup { step: 0, config: 0 }),
{
    MouseSetup { step: 0, config: 0 }
}

/// The configuration that is written back differs from the one that was read
/// only in the two bits of the mouse: its interrupt is on, and its clock is not
/// disabled.
pub proof fn lemma_mouse_config(config: u8)
    ensures
        mouse_config(config) & 2 == 2,
        mouse_config(config) & 0x20 == 0,
        mouse_config(config) & 0xddu8 == config & 0xddu8,
{
    assert(((config | 2u8) & 0xdfu8) & 2 == 2) by (bit_vector);
    assert(((config | 2u8) & 0xdfu8) & 0x20 == 0) by (bit_vector);
    assert(((config | 2u8) & 0xdfu8) & 0xddu8 == config & 0xddu8) by (bit_vector);
}

} // verus!
