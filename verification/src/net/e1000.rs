//! The e1000 network adapter: bringing it up, and its packet rings.
use vstd::prelude::*;

verus! {

pub const RING_SIZE: usize = 8;
pub const PACKET_SIZE: usize = 2048;
/// Polls of the control register before a reset counts as failed.
pub const RESET_POLLS: u32 = 100_000;

/// Registers of the adapter.
pub const CONTROL: u32 = 0x0000;
pub const STATUS: u32 = 0x0008;
pub const INTERRUPT_MASK_CLEAR: u32 = 0x00d8;
pub const ADDRESS_LOW: u32 = 0x5400;
pub const ADDRESS_HIGH: u32 = 0x5404;
pub const RX_TAIL: u32 = 0x2818;
pub const TX_TAIL: u32 = 0x3818;

#[derive(Clone, Copy, Debug, PartialEq, Eq, Structural)]
pub struct RxDescriptor {
    pub address: u64,
    pub length: u16,
    pub checksum: u16,
    pub status: u8,
    pub errors: u8,
    pub special: u16,
}

impl RxDescriptor {
    /// A descriptor that gives the adapter a buffer.
    pub fn new(address: u64) -> (descriptor: RxDescriptor)
        ensures
            descriptor == (RxDescriptor {
                address,
                length: 0,
                checksum: 0,
                status: 0,
                errors: 0,
                special: 0,
            }),
    {
        RxDescriptor { address, length: 0, checksum: 0, status: 0, errors: 0, special: 0 }
    }
}

#[derive(Clone, Copy, Debug, PartialEq, Eq, Structural)]
pub struct TxDescriptor {
    pub address: u64,
    pub length: u16,
    pub checksum_offset: u8,
    pub command: u8,
    pub status: u8,
    pub checksum_start: u8,
    pub special: u16,
}

impl TxDescriptor {
    /// A descriptor of a buffer that is free.
    pub fn new(address: u64) -> (descriptor: TxDescriptor)
        ensures
            descriptor == (TxDescriptor {
                address,
                length: 0,
                checksum_offset: 0,
                command: 0,
                status: 1,
                checksum_start: 0,
                special: 0,
            }),
    {
        TxDescriptor {
            address,
            length: 0,
            checksum_offset: 0,
            command: 0,
            status: 1,
            checksum_start: 0,
            special: 0,
        }
    }
}

/// Where bringing up the adapter stands. Each state but the last two has one
/// thing to do next.
#[derive(Clone, Copy, Debug)]
pub enum Bringup {
    MaskBefore,
    ReadControl,
    StartReset { control: u32 },
    AwaitReset { polls: u32 },
    CheckReset,
    MaskAfter,
    ReadLow,
    ReadHigh { low: u32 },
    ReadLink { mac: [u8; 6] },
    SetLink { mac: [u8; 6], control: u32 },
    Locate { mac: [u8; 6] },
    Program { mac: [u8; 6], rx: u64, tx: u64, index: usize },
    Ready { mac: [u8; 6] },
    Failed(&'static str),
}

/// What to do next with the adapter.
#[derive(Clone, Copy, Debug, PartialEq, Eq, Structural)]
pub enum Action {
    Read(u32),
    Write(u32, u32),
    /// Fill the rings, and tell where in physical memory they are.
    Locate,
    Nothing,
}

/// The registers that the rings and the two directions are started with, in
/// their order.
pub open spec fn program(rx: u64, tx: u64) -> Seq<(u32, u32)> {
    seq![
        (0x2800u32, (rx % 0x1_0000_0000) as u32),
        (0x2804u32, (rx / 0x1_0000_0000) as u32),
        (0x2808u32, 128u32),
        (0x2810u32, 0u32),
        (0x2818u32, 7u32),
        (0x3800u32, (tx % 0x1_0000_0000) as u32),
        (0x3804u32, (tx / 0x1_0000_0000) as u32),
        (0x3808u32, 128u32),
        (0x3810u32, 0u32),
        (0x3818u32, 0u32),
        (0x0410u32, 0u32),
        (0x0400u32, 2u32 | (1u32 << 3u32) | (15u32 << 4u32) | (64u32 << 12u32)),
        (0x0100u32, 2u32 | (1u32 << 15u32) | (1u32 << 26u32)),
    ]
}

fn program_word(rx: u64, tx: u64, index: usize) -> (word: (u32, u32))
    requires
        index < 13,
    ensures
        word == program(rx, tx)[index as int],
{
    match index {
        0 => (0x2800, (rx % 0x1_0000_0000) as u32),
        1 => (0x2804, (rx / 0x1_0000_0000) as u32),
        2 => (0x2808, 128),
        3 => (0x2810, 0),
        4 => (0x2818, 7),
        5 => (0x3800, (tx % 0x1_0000_0000) as u32),
        6 => (0x3804, (tx / 0x1_0000_0000) as u32),
        7 => (0x3808, 128),
        8 => (0x3810, 0),
        9 => (0x3818, 0),
        10 => (0x0410, 0),
        11 => (0x0400, 2u32 | (1u32 << 3u32) | (15u32 << 4u32) | (64u32 << 12u32)),
        _ => (0x0100, 2u32 | (1u32 << 15u32) | (1u32 << 26u32)),
    }
}

pub open spec fn is_resetting(control: u32) -> bool {
    control & (1u32 << 26) != 0
}

/// The hardware address in two registers: six bytes, the lowest first.
pub open spec fn mac_of(low: u32, high: u32) -> Seq<u8> {
    seq![
        (low % 0x100) as u8,
        (low / 0x100 % 0x100) as u8,
        (low / 0x1_0000 % 0x100) as u8,
        (low / 0x100_0000) as u8,
        (high % 0x100) as u8,
        (high / 0x100 % 0x100) as u8,
    ]
}

impl Bringup {
    pub open spec fn wf(self) -> bool {
        &&& self matches Bringup::AwaitReset { polls } ==> polls < 100_000
        &&& self matches Bringup::Program { mac, rx, tx, index } ==> index < 13
    }

    pub open spec fn asks(self) -> Action {
        match self {
            Bringup::MaskBefore => Action::Write(0x00d8, 0xffff_ffff),
            Bringup::ReadControl => Action::Read(0x0000),
            Bringup::StartReset { control } => Action::Write(0x0000, control | (1u32 << 26)),
            Bringup::AwaitReset { polls } => Action::Read(0x0000),
            Bringup::CheckReset => Action::Read(0x0000),
            Bringup::MaskAfter => Action::Write(0x00d8, 0xffff_ffff),
            Bringup::ReadLow => Action::Read(0x5400),
            Bringup::ReadHigh { low } => Action::Read(0x5404),
            Bringup::ReadLink { mac } => Action::Read(0x0000),
            Bringup::SetLink { mac, control } => Action::Write(0x0000, control | (1u32 << 6)),
            Bringup::Locate { mac } => Action::Locate,
            Bringup::Program { mac, rx, tx, index } => {
                let (register, value) = program(rx, tx)[index as int];
                Action::Write(register, value)
            },
            Bringup::Ready { mac } => Action::Nothing,
            Bringup::Failed(message) => Action::Nothing,
        }
    }

    /// The state after what was asked for is done; `value` is what was read.
    pub open spec fn follows(self, value: u32, next: Bringup) -> bool {
        match self {
            Bringup::MaskBefore => next == Bringup::ReadControl,
            Bringup::ReadControl => next == (Bringup::StartReset { control: value }),
            Bringup::StartReset { control } => next == (Bringup::AwaitReset { polls: 0 }),
            Bringup::AwaitReset { polls } => next == (if is_resetting(value) && polls + 1
                < 100_000 {
                Bringup::AwaitReset { polls: (polls + 1) as u32 }
            } else {
                Bringup::CheckReset
            }),
            Bringup::CheckReset => if is_resetting(value) {
                next matches Bringup::Failed(message) && message@ == "e1000 reset timed out"@
            } else {
                next == Bringup::MaskAfter
            },
            Bringup::MaskAfter => next == Bringup::ReadLow,
            Bringup::ReadLow => next == (Bringup::ReadHigh { low: value }),
            Bringup::ReadHigh { low } => if value & (1u32 << 31) == 0 {
                next matches Bringup::Failed(message) && message@
                    == "e1000 MAC address is invalid"@
            } else {
                next matches Bringup::ReadLink { mac } && mac@ == mac_of(low, value)
            },
            Bringup::ReadLink { mac } => next == (Bringup::SetLink { mac, control: value }),
            Bringup::SetLink { mac, control } => next == (Bringup::Locate { mac }),
            Bringup::Program { mac, rx, tx, index } => next == (if index + 1 < 13 {
                Bringup::Program { mac, rx, tx, index: (index + 1) as usize }
            } else {
                Bringup::Ready { mac }
            }),
            _ => next == self,
        }
    }

    pub fn new() -> (state: Bringup)
        ensures
            state == Bringup::MaskBefore,
            state.wf(),
    {
        Bringup::MaskBefore
    }

    pub fn action(&self) -> (action: Action)
        requires
            self.wf(),
        ensures
            action == self.asks(),
    {
        match *self {
            Bringup::MaskBefore | Bringup::MaskAfter => Action::Write(
                INTERRUPT_MASK_CLEAR,
                0xffff_ffff,
            ),
            Bringup::StartReset { control } => Action::Write(CONTROL, control | (1u32 << 26)),
            Bringup::ReadControl
            | Bringup::AwaitReset { polls: _ }
            | Bringup::CheckReset
            | Bringup::ReadLink { mac: _ } => Action::Read(CONTROL),
            Bringup::ReadLow => Action::Read(ADDRESS_LOW),
            Bringup::ReadHigh { low: _ } => Action::Read(ADDRESS_HIGH),
            Bringup::SetLink { mac: _, control } => Action::Write(CONTROL, control | (1u32 << 6)),
            Bringup::Locate { mac: _ } => Action::Locate,
            Bringup::Program { mac: _, rx, tx, index } => {
                let (register, value): (u32, u32) = program_word(rx, tx, index);
                Action::Write(register, value)
            },
            Bringup::Ready { mac: _ } => Action::Nothing,
            Bringup::Failed(_) => Action::Nothing,
        }
    }

    /// Go on after a read, which gave `value`, or a write.
    pub fn step(self, value: u32) -> (next: Bringup)
        requires
            self.wf(),
        ensures
            self.follows(value, next),
            next.wf(),
    {
        match self {
            Bringup::MaskBefore => Bringup::ReadControl,
            Bringup::ReadControl => Bringup::StartReset { control: value },
            Bringup::StartReset { control: _ } => Bringup::AwaitReset { polls: 0 },
            Bringup::AwaitReset { polls } => if value & (1u32 << 26) != 0 && polls + 1
                < RESET_POLLS {
                Bringup::AwaitReset { polls: polls + 1 }
            } else {
                Bringup::CheckReset
            },
            Bringup::CheckReset => if value & (1u32 << 26) != 0 {
                Bringup::Failed("e1000 reset timed out")
            } else {
                Bringup::MaskAfter
            },
            Bringup::MaskAfter => Bringup::ReadLow,
            Bringup::ReadLow => Bringup::ReadHigh { low: value },
            Bringup::ReadHigh { low } => if value & (1u32 << 31) == 0 {
                Bringup::Failed("e1000 MAC address is invalid")
            } else {
                let mac: [u8; 6] = [
                    (low % 0x100) as u8,
                    (low / 0x100 % 0x100) as u8,
                    (low / 0x1_0000 % 0x100) as u8,
                    (low / 0x100_0000) as u8,
                    (value % 0x100) as u8,
                    (value / 0x100 % 0x100) as u8,
                ];
                assert(mac@ =~= mac_of(low, value));
                Bringup::ReadLink { mac }
            },
            Bringup::ReadLink { mac } => Bringup::SetLink { mac, control: value },
            Bringup::SetLink { mac, control: _ } => Bringup::Locate { mac },
            Bringup::Program { mac, rx, tx, index } => if index + 1 < 13 {
                Bringup::Program { mac, rx, tx, index: index + 1 }
            } else {
                Bringup::Ready { mac }
            },
            _ => self,
        }
    }

    /// Go on once the rings were located, if they could be.
    pub fn located(self, rings: Option<(u64, u64)>) -> (next: Bringup)
        ensures
            match self {
                Bringup::Locate { mac } => match rings {
                    Some((rx, tx)) => next == (Bringup::Program { mac, rx, tx, index: 0 }),
                    None => next matches Bringup::Failed(message) && message@
                        == "DMA address is not mapped"@,
                },
                _ => next == self,
            },
            self.wf() ==> next.wf(),
    {
        match self {
            Bringup::Locate { mac } => match rings {
                Some((rx, tx)) => Bringup::Program { mac, rx, tx, index: 0 },
                None => Bringup::Failed("DMA address is not mapped"),
            },
            _ => self,
        }
    }
}

/// The adapter in use: the slots of its rings that come next, and its address.
pub struct E1000 {
    pub rx_next: usize,
    pub tx_next: usize,
    pub mac: [u8; 6],
}

/// Whether the status register says that the link is up.
pub open spec fn is_linked(status: u32) -> bool {
    status & 2 != 0
}

/// Taking the next packet out of the receive ring: the slot that is next after
/// it, the ring, the packet, and the new tail of the ring.
pub open spec fn taken(next: int, ring: Seq<RxDescriptor>, packets: Seq<[u8; 2048]>) -> (
    int,
    Seq<RxDescriptor>,
    Option<Seq<u8>>,
    Option<u32>,
) {
    let descriptor = ring[next];
    if descriptor.status & 1 == 0 {
        (next, ring, None, None)
    } else {
        (
            (next + 1) % 8,
            ring.update(next, RxDescriptor { status: 0, ..descriptor }),
            if is_received(descriptor) {
                Some(packets[next]@.take(descriptor.length as int))
            } else {
                None
            },
            Some(next as u32),
        )
    }
}

/// Putting a packet into the send ring: the slot that is next after it, the
/// ring, what the buffer of the slot then begins with, and the new tail.
pub open spec fn put(next: int, ring: Seq<TxDescriptor>, packet: Seq<u8>) -> (
    int,
    Seq<TxDescriptor>,
    Seq<u8>,
    Option<u32>,
) {
    let descriptor = ring[next];
    if packet.len() > 2048 || descriptor.status & 1 == 0 {
        (next, ring, Seq::empty(), None)
    } else {
        (
            (next + 1) % 8,
            ring.update(
                next,
                TxDescriptor {
                    length: packet.len() as u16,
                    command: 11,
                    status: 0,
                    ..descriptor
                },
            ),
            packet,
            Some(((next + 1) % 8) as u32),
        )
    }
}

/// Whether a descriptor holds a packet that came in whole and unharmed.
pub open spec fn is_received(descriptor: RxDescriptor) -> bool {
    descriptor.status & 2 != 0 && descriptor.errors == 0 && descriptor.length <= 2048
}

impl E1000 {
    pub open spec fn wf(&self) -> bool {
        self.rx_next < 8 && self.tx_next < 8
    }

    /// The adapter once it is up, or why it is not.
    pub fn new(state: Bringup) -> (device: Result<E1000, &'static str>)
        ensures
            match state {
                Bringup::Ready { mac } => device == Ok::<E1000, &'static str>(
                    E1000 { rx_next: 0, tx_next: 0, mac },
                ),
                Bringup::Failed(message) => device == Err::<E1000, &'static str>(message),
                _ => device matches Err(message) && message@ == "e1000 is not up yet"@,
            },
            device matches Ok(device) ==> device.wf(),
    {
        match state {
            Bringup::Ready { mac } => Ok(E1000 { rx_next: 0, tx_next: 0, mac }),
            Bringup::Failed(message) => Err(message),
            _ => Err("e1000 is not up yet"),
        }
    }

    pub fn mac(&self) -> (mac: [u8; 6])
        ensures
            mac == self.mac,
    {
        self.mac
    }

    /// Whether the link is up, from the status register.
    pub fn link_up(&self, status: u32) -> (up: bool)
        ensures
            up == (status & 2 != 0),
            up == is_linked(status),
    {
        status & 2 != 0
    }

    /// Take the next packet out of the receive ring. The slot goes back to the
    /// adapter: its number is the new tail of the ring.
    pub fn receive_packet(
        &mut self,
        ring: &mut [RxDescriptor; 8],
        packets: &[[u8; 2048]; 8],
    ) -> (result: (Option<Vec<u8>>, Option<u32>))
        requires
            old(self).wf(),
        ensures
            final(self).wf(),
            final(self).mac == old(self).mac,
            final(self).tx_next == old(self).tx_next,
            ({
                let index = old(self).rx_next as int;
                let descriptor = old(ring)@[index];
                if descriptor.status & 1 == 0 {
                    &&& result.0 is None
                    &&& result.1 is None
                    &&& *final(self) == *old(self)
                    &&& *final(ring) == *old(ring)
                } else {
                    &&& result.1 == Some(index as u32)
                    &&& final(self).rx_next == (index + 1) % 8
                    &&& final(ring)@ == old(ring)@.update(
                        index,
                        RxDescriptor { status: 0, ..descriptor },
                    )
                    &&& is_received(descriptor) ==> result.0 is Some && result.0->0@
                        == packets@[index]@.take(descriptor.length as int)
                    &&& !is_received(descriptor) ==> result.0 is None
                }
            }),
            ({
                let (next, slots, packet, tail) = taken(
                    old(self).rx_next as int,
                    old(ring)@,
                    packets@,
                );
                &&& final(self).rx_next == next
                &&& final(ring)@ == slots
                &&& result.0 is Some == packet is Some
                &&& result.0 matches Some(bytes) ==> packet == Some(bytes@)
                &&& result.1 == tail
            }),
    {
        let index: usize = self.rx_next;
        let descriptor: RxDescriptor = ring[index];
        if descriptor.status & 1 == 0 {
            return (None, None);
        }
        let length: usize = descriptor.length as usize;
        let mut packet: Option<Vec<u8>> = None;
        if descriptor.status & 2 != 0 && descriptor.errors == 0 && length <= PACKET_SIZE {
            packet = Some(copy(&packets[index], length));
        }
        ring[index].status = 0;
        self.rx_next = (index + 1) % RING_SIZE;
        assert(ring@ =~= old(ring)@.update(index as int, RxDescriptor { status: 0, ..descriptor }));
        (packet, Some(index as u32))
    }

    /// Put a packet into the send ring. Returns the new tail of the ring; a
    /// packet that is too long, or that finds its slot taken, is dropped.
    pub fn send_packet(
        &mut self,
        ring: &mut [TxDescriptor; 8],
        packets: &mut [[u8; 2048]; 8],
        packet: &[u8],
    ) -> (tail: Option<u32>)
        requires
            old(self).wf(),
        ensures
            final(self).wf(),
            final(self).mac == old(self).mac,
            final(self).rx_next == old(self).rx_next,
            ({
                let index = old(self).tx_next as int;
                let descriptor = old(ring)@[index];
                if packet@.len() > 2048 || descriptor.status & 1 == 0 {
                    &&& tail is None
                    &&& *final(self) == *old(self)
                    &&& *final(ring) == *old(ring)
                    &&& *final(packets) == *old(packets)
                } else {
                    &&& final(self).tx_next == (index + 1) % 8
                    &&& tail == Some(final(self).tx_next as u32)
                    &&& final(ring)@ == old(ring)@.update(
                        index,
                        TxDescriptor {
                            length: packet@.len() as u16,
                            command: 11,
                            status: 0,
                            ..descriptor
                        },
                    )
                    &&& final(packets)@[index]@ == packet@ + old(packets)@[index]@.skip(
                        packet@.len() as int,
                    )
                    &&& forall|i: int|
                        0 <= i < 8 && i != index ==> #[trigger] final(packets)@[i]
                            == old(packets)@[i]
                }
            }),
            ({
                let index = old(self).tx_next as int;
                let (next, slots, front, new_tail) = put(index, old(ring)@, packet@);
                &&& final(self).tx_next == next
                &&& final(ring)@ == slots
                &&& tail == new_tail
                &&& final(packets)@[index]@ == front + old(packets)@[index]@.skip(
                    front.len() as int,
                )
            }),
    {
        let length: usize = packet.len();
        let index: usize = self.tx_next;
        proof {
            let buffer = old(packets)@[index as int]@;
            assert(Seq::<u8>::empty() + buffer.skip(0) =~= buffer);
        }
        if length > PACKET_SIZE {
            return None;
        }
        if ring[index].status & 1 == 0 {
            return None;
        }
        let mut i: usize = 0;
        while i < length
            invariant
                i <= length,
                length == packet@.len(),
                length <= 2048,
                index < 8,
                forall|k: int|
                    0 <= k < i ==> #[trigger] packets@[index as int]@[k] == packet@[k],
                forall|k: int|
                    i <= k < 2048 ==> #[trigger] packets@[index as int]@[k] == old(
                        packets,
                    )@[index as int]@[k],
                forall|j: int|
                    0 <= j < 8 && j != index ==> #[trigger] packets@[j] == old(packets)@[j],
            decreases length - i,
        {
            packets[index][i] = packet[i];
            i += 1;
        }
        let descriptor: TxDescriptor = ring[index];
        ring[index] = TxDescriptor {
            address: descriptor.address,
            length: length as u16,
            checksum_offset: descriptor.checksum_offset,
            command: 11,
            status: 0,
            checksum_start: descriptor.checksum_start,
            special: descriptor.special,
        };
        self.tx_next = (index + 1) % RING_SIZE;
        assert(packets@[index as int]@ =~= packet@ + old(packets)@[index as int]@.skip(
            length as int,
        ));
        Some(self.tx_next as u32)
    }
}

fn copy(bytes: &[u8; 2048], length: usize) -> (packet: Vec<u8>)
    requires
        length <= 2048,
    ensures
        packet@ == bytes@.take(length as int),
{
    let mut packet: Vec<u8> = Vec::new();
    let mut i: usize = 0;
    while i < length
        invariant
            i <= length <= 2048,
            packet@ =~= bytes@.take(i as int),
        decreases length - i,
    {
        packet.push(bytes[i]);
        i += 1;
    }
    packet
}

/// Fill both rings with free slots for the given buffers. Every address has to
/// be known.
pub fn fill_rings(rx: &[Option<u64>; 8], tx: &[Option<u64>; 8]) -> (rings: Option<
    ([RxDescriptor; 8], [TxDescriptor; 8]),
>)
    ensures
        rings is Some == (forall|i: int|
            0 <= i < 8 ==> #[trigger] rx@[i] is Some && tx@[i] is Some),
        rings matches Some((receive, send)) ==> forall|i: int|
            #![trigger receive@[i]]
            #![trigger send@[i]]
            0 <= i < 8 ==> {
                &&& receive@[i] == (RxDescriptor {
                    address: rx@[i]->0,
                    length: 0,
                    checksum: 0,
                    status: 0,
                    errors: 0,
                    special: 0,
                })
                &&& send@[i] == (TxDescriptor {
                    address: tx@[i]->0,
                    length: 0,
                    checksum_offset: 0,
                    command: 0,
                    status: 1,
                    checksum_start: 0,
                    special: 0,
                })
            },
{
    let mut receive: [RxDescriptor; 8] = [RxDescriptor::new(0); 8];
    let mut send: [TxDescriptor; 8] = [TxDescriptor::new(0); 8];
    let mut i: usize = 0;
    while i < RING_SIZE
        invariant
            i <= 8,
            forall|k: int| 0 <= k < i ==> #[trigger] rx@[k] is Some && tx@[k] is Some,
            forall|k: int|
                #![trigger receive@[k]]
                #![trigger send@[k]]
                0 <= k < i ==> {
                    &&& receive@[k] == (RxDescriptor {
                        address: rx@[k]->0,
                        length: 0,
                        checksum: 0,
                        status: 0,
                        errors: 0,
                        special: 0,
                    })
                    &&& send@[k] == (TxDescriptor {
                        address: tx@[k]->0,
                        length: 0,
                        checksum_offset: 0,
                        command: 0,
                        status: 1,
                        checksum_start: 0,
                        special: 0,
                    })
                },
        decreases 8 - i,
    {
        match (rx[i], tx[i]) {
            (Some(receive_at), Some(send_at)) => {
                receive[i] = RxDescriptor::new(receive_at);
                send[i] = TxDescriptor::new(send_at);
            },
            _ => {
                assert(!(rx@[i as int] is Some && tx@[i as int] is Some));
                return None;
            },
        }
        i += 1;
    }
    Some((receive, send))
}

/// Whether an adapter goes through some states, where each read of a register
/// gives one of the values and the rings are at the given places.
pub open spec fn is_trace(
    states: Seq<Bringup>,
    values: Seq<u32>,
    rings: Option<(u64, u64)>,
) -> bool {
    &&& states.len() == values.len() + 1
    &&& states[0] == Bringup::MaskBefore
    &&& forall|i: int|
        0 <= i < values.len() ==> (match #[trigger] states[i] {
            Bringup::Locate { mac } => match rings {
                Some((rx, tx)) => states[i + 1] == (Bringup::Program { mac, rx, tx, index: 0 }),
                None => states[i + 1] is Failed,
            },
            _ => states[i].follows(values[i], states[i + 1]),
        })
}

/// Whether the reset was seen to end before place `n`.
pub open spec fn reset_ended(states: Seq<Bringup>, values: Seq<u32>, n: int) -> bool {
    exists|i: int| 0 <= i < n && #[trigger] states[i] is CheckReset && !is_resetting(values[i])
}

/// Whether an address was read, and marked as valid, before place `n`.
pub open spec fn address_read(
    states: Seq<Bringup>,
    values: Seq<u32>,
    n: int,
    mac: [u8; 6],
) -> bool {
    exists|i: int|
        0 <= i < n && (#[trigger] states[i] matches Bringup::ReadHigh { low } && mac@ == mac_of(
            low,
            values[i],
        )) && values[i] & (1u32 << 31) != 0
}

pub open spec fn mac_known(state: Bringup) -> Option<[u8; 6]> {
    match state {
        Bringup::ReadLink { mac } => Some(mac),
        Bringup::SetLink { mac, control } => Some(mac),
        Bringup::Locate { mac } => Some(mac),
        Bringup::Program { mac, rx, tx, index } => Some(mac),
        Bringup::Ready { mac } => Some(mac),
        _ => None,
    }
}

proof fn lemma_trace(states: Seq<Bringup>, values: Seq<u32>, rings: Option<(u64, u64)>, n: int)
    requires
        is_trace(states, values, rings),
        0 <= n < states.len(),
    ensures
        states[n] is MaskAfter || states[n] is ReadLow || states[n] is ReadHigh
            ==> reset_ended(states, values, n),
        mac_known(states[n]) matches Some(mac) ==> reset_ended(states, values, n)
            && address_read(states, values, n, mac),
    decreases n,
{
    if n > 0 {
        lemma_trace(states, values, rings, n - 1);
        let before = states[n - 1];
        if reset_ended(states, values, n - 1) {
            let i = choose|i: int|
                0 <= i < n - 1 && #[trigger] states[i] is CheckReset && !is_resetting(values[i]);
            assert(states[i] is CheckReset);
        }
        if let Some(mac) = mac_known(before) {
            let i = choose|i: int|
                0 <= i < n - 1 && (#[trigger] states[i] matches Bringup::ReadHigh { low } && mac@
                    == mac_of(low, values[i])) && values[i] & (1u32 << 31) != 0;
            assert(states[i] is ReadHigh);
        }
    }
}

/// An adapter comes into use only after its reset was seen to end, and with the
/// address that it marked as valid.
pub proof fn lemma_up_after_reset(
    states: Seq<Bringup>,
    values: Seq<u32>,
    rings: Option<(u64, u64)>,
    mac: [u8; 6],
)
    requires
        is_trace(states, values, rings),
        states.last() == (Bringup::Ready { mac }),
    ensures
        reset_ended(states, values, states.len() - 1),
        address_read(states, values, states.len() - 1, mac),
{
    lemma_trace(states, values, rings, states.len() - 1);
}

} // verus!
