//! The notify protocol: a sliding window of sequence numbers with a bit mask
//! of acknowledgements, which tells the layer above whether each packet that it
//! sent arrived, and never retransmits.

use vstd::prelude::*;
use crate::bits::int_bits;
use crate::bitstream::{
    BitStream, StreamView, Truncated, flag_bits, take_bits, take_flag, lemma_write_at_end,
    lemma_write_write,
};

verus! {

/// The kind of a raw packet, two bits of its header.
#[derive(Debug, PartialEq, Eq, Copy, Clone, Structural)]
pub enum NetPacketType {
    DataPacket,
    PingPacket,
    AckPacket,
    InvalidPacketType,
}

impl NetPacketType {
    /// The kind's number on the wire.
    pub open spec fn wire(self) -> u32 {
        match self {
            NetPacketType::DataPacket => 0,
            NetPacketType::PingPacket => 1,
            NetPacketType::AckPacket => 2,
            NetPacketType::InvalidPacketType => 3,
        }
    }

    /// The kind's number on the wire.
    pub fn code(self) -> (c: u32)
        ensures
            c == self.wire(),
    {
        match self {
            NetPacketType::DataPacket => 0,
            NetPacketType::PingPacket => 1,
            NetPacketType::AckPacket => 2,
            NetPacketType::InvalidPacketType => 3,
        }
    }
}

/// Why a raw packet was refused. `BadSequence` and `InvalidHeader` are the two
/// ways in which a header is invalid.
#[derive(Debug, PartialEq, Eq, Copy, Clone, Structural)]
pub enum DNetError {
    /// The packet ends inside its header.
    Truncated,
    /// The header's parity bit is not that of this connection.
    BadSequence,
    /// The header names more than four bytes of acknowledgements, or no kind.
    InvalidHeader,
}

impl DNetError {
    /// The header itself was refused, not its length.
    pub fn is_header_invalid(self) -> (b: bool)
        ensures
            b == (self != DNetError::Truncated),
    {
        match self {
            DNetError::Truncated => false,
            _ => true,
        }
    }
}

/// The state of one logical connection.
pub struct DNet {
    last_seq_recvd_at_send: [u32; 32],
    last_seq_received: u32,
    highest_acked_seq: u32,
    last_send_seq: u32,
    ack_mask: u32,
    connect_sequence: u32,
    last_recv_ack_ack: u32,
    connection_established: bool,
}

/// What processing a raw packet asks of the layer above, in order.
pub enum DNetResult {
    /// Send this packet to the peer.
    SendPacket(BitStream),
    /// The peer is alive.
    KeepAlive,
    /// The peer has acknowledged a packet for the first time.
    HandleConnectionEstablished,
    /// The next packet that was sent arrived, or did not.
    HandleNotify(bool),
    /// A new data packet; the cursor stands behind its header.
    HandlePacket(BitStream),
}

/// A connection's state as its contracts see it.
pub struct DNetView {
    /// Entry `seq % 32`: `last_seq_received` when data packet `seq` was sent.
    pub last_seq_recvd_at_send: Seq<u32>,
    pub last_seq_received: u32,
    pub highest_acked_seq: u32,
    pub last_send_seq: u32,
    pub ack_mask: u32,
    pub connect_sequence: u32,
    pub last_recv_ack_ack: u32,
    pub connection_established: bool,
}

/// A `DNetResult` as its contracts see it.
pub enum DNetEvent {
    SendPacket(StreamView),
    KeepAlive,
    ConnectionEstablished,
    Notify(bool),
    HandlePacket(StreamView),
}

/// The fixed part of a raw packet's header.
pub struct Header {
    pub parity: u32,
    pub send_seq: u32,
    pub highest_ack: u32,
    pub packet_type: u32,
    pub ack_byte_count: u32,
}

/// A raw packet that passed the header checks and lies inside the window, with
/// its sequence numbers extended to 32 bits.
pub struct Admitted {
    pub packet_type: u32,
    pub seq: u32,
    pub highest_ack: u32,
    pub mask: u32,
}

/// Reads the fixed part of a header: a flag that is ignored, the parity bit,
/// nine bits of each sequence number, two of the kind and three of the number
/// of acknowledgement bytes.
pub open spec fn take_header(bits: Seq<bool>) -> Option<(Header, Seq<bool>)> {
    match take_flag(bits) {
        None => None,
        Some((_, rest)) => match take_bits(rest, 1) {
            None => None,
            Some((parity, rest)) => match take_bits(rest, 9) {
                None => None,
                Some((send_seq, rest)) => match take_bits(rest, 9) {
                    None => None,
                    Some((highest_ack, rest)) => match take_bits(rest, 2) {
                        None => None,
                        Some((packet_type, rest)) => match take_bits(rest, 3) {
                            None => None,
                            Some((ack_byte_count, rest)) => Some(
                                (
                                    Header {
                                        parity: parity as u32,
                                        send_seq: send_seq as u32,
                                        highest_ack: highest_ack as u32,
                                        packet_type: packet_type as u32,
                                        ack_byte_count: ack_byte_count as u32,
                                    },
                                    rest,
                                ),
                            ),
                        },
                    },
                },
            },
        },
    }
}

/// A nine-bit sequence number from the wire, extended to 32 bits: the low nine
/// bits of `known` are replaced, and 512 is added where that falls below
/// `known`.
pub open spec fn extend_seq(wire: u32, known: u32) -> int {
    let replaced = known - known % 512 + wire;
    if replaced < known {
        replaced + 512
    } else {
        replaced
    }
}

/// The number of bytes of the acknowledgement mask that a header carries.
pub open spec fn ack_bytes(v: DNetView) -> int {
    (v.last_seq_received - v.last_recv_ack_ack + 7) / 8
}

/// The header of a packet of kind `packet_type`, sent in state `v`.
pub open spec fn header_bits(v: DNetView, packet_type: NetPacketType) -> Seq<bool> {
    flag_bits(true) + int_bits((v.connect_sequence % 2) as nat, 1) + int_bits(
        v.last_send_seq as nat,
        9,
    ) + int_bits(v.last_seq_received as nat, 9) + int_bits(packet_type.wire() as nat, 2)
        + int_bits(ack_bytes(v) as nat, 3) + int_bits(v.ack_mask as nat, (8 * ack_bytes(v)) as nat)
}

/// The outcome of the notifications for the sequence numbers `seq ..=
/// highest_ack`, each acknowledged by its bit of `mask`.
pub struct Notified {
    pub events: Seq<DNetEvent>,
    pub last_recv_ack_ack: u32,
    pub connection_established: bool,
}

impl DNetView {
    /// The state of a new connection.
    pub open spec fn initial(connect_sequence: u32) -> DNetView {
        DNetView {
            last_seq_recvd_at_send: Seq::new(32, |i: int| 0u32),
            last_seq_received: 0,
            highest_acked_seq: 0,
            last_send_seq: 0,
            ack_mask: 0,
            connect_sequence,
            last_recv_ack_ack: 0,
            connection_established: false,
        }
    }

    /// What holds of every state that a connection reaches.
    pub open spec fn wf(self) -> bool {
        &&& self.last_seq_recvd_at_send.len() == 32
        &&& self.highest_acked_seq <= self.last_send_seq
        &&& self.last_send_seq - self.highest_acked_seq <= 32
        &&& self.last_recv_ack_ack <= self.last_seq_received
        &&& self.last_seq_received - self.last_recv_ack_ack <= 32
        &&& forall|i: int| 0 <= i < 32 ==> self.last_seq_recvd_at_send[i] <= self.last_seq_received
    }

    /// The counters are far enough from the largest 32-bit number for one more
    /// packet each way.
    pub open spec fn has_headroom(self) -> bool {
        &&& self.last_seq_received < 0xFFFF_FE00
        &&& self.last_send_seq < 0xFFFF_FE00
    }

    /// No more data packets may be sent before the peer acknowledges some.
    pub open spec fn window_full(self) -> bool {
        self.last_send_seq - self.highest_acked_seq >= 30
    }

    /// The state after a header of kind `packet_type` has been built: a data
    /// packet takes the next sequence number and records what had been
    /// received when it left.
    pub open spec fn after_send(self, packet_type: NetPacketType) -> DNetView {
        if packet_type == NetPacketType::DataPacket {
            let seq = (self.last_send_seq + 1) as u32;
            DNetView {
                last_send_seq: seq,
                last_seq_recvd_at_send: self.last_seq_recvd_at_send.update(
                    (seq % 32) as int,
                    self.last_seq_received,
                ),
                ..self
            }
        } else {
            self
        }
    }

    /// The bits that building a header of kind `packet_type` writes.
    pub open spec fn send_bits(self, packet_type: NetPacketType) -> Seq<bool> {
        header_bits(
            if packet_type == NetPacketType::DataPacket {
                DNetView { last_send_seq: (self.last_send_seq + 1) as u32, ..self }
            } else {
                self
            },
            packet_type,
        )
    }

    /// The notifications for the sequence numbers `seq ..= highest_ack`, in
    /// ascending order. Bit `highest_ack - seq` of `mask` says whether packet
    /// `seq` arrived. An arrival moves `last_recv_ack_ack` to what had been
    /// received when that packet left, and the first one ever establishes the
    /// connection.
    pub open spec fn notify(
        self,
        mask: u32,
        highest_ack: u32,
        seq: int,
        last_recv_ack_ack: u32,
        connection_established: bool,
    ) -> Notified
        decreases highest_ack + 1 - seq,
    {
        if seq > highest_ack || seq < 0 {
            Notified { events: Seq::empty(), last_recv_ack_ack, connection_established }
        } else {
            let arrived = mask & (1u32 << ((highest_ack - seq) as u32)) != 0;
            let rest = self.notify(
                mask,
                highest_ack,
                seq + 1,
                if arrived {
                    self.last_seq_recvd_at_send[seq % 32]
                } else {
                    last_recv_ack_ack
                },
                connection_established || arrived,
            );
            Notified {
                events: seq![DNetEvent::Notify(arrived)] + (if arrived && !connection_established {
                    seq![DNetEvent::ConnectionEstablished]
                } else {
                    Seq::empty()
                }) + rest.events,
                ..rest
            }
        }
    }

    /// The state and the events after a packet of kind `packet_type` with the
    /// extended sequence numbers `seq` and `highest_ack` and the
    /// acknowledgement mask `mask` has been taken in. `payload` is the
    /// packet's stream behind its header.
    pub open spec fn accept(
        self,
        packet_type: u32,
        seq: u32,
        highest_ack: u32,
        mask: u32,
        payload: StreamView,
    ) -> (DNetView, Seq<DNetEvent>) {
        let shifted = self.ack_mask << ((seq - self.last_seq_received) as u32);
        let ack_mask = if packet_type == NetPacketType::DataPacket.wire() {
            shifted | 1
        } else {
            shifted
        };
        let notified = self.notify(
            mask,
            highest_ack,
            self.highest_acked_seq + 1,
            self.last_recv_ack_ack,
            self.connection_established,
        );
        let last_recv_ack_ack = if seq - notified.last_recv_ack_ack > 32 {
            (seq - 32) as u32
        } else {
            notified.last_recv_ack_ack
        };
        let answering = DNetView {
            ack_mask,
            last_recv_ack_ack,
            connection_established: notified.connection_established,
            highest_acked_seq: highest_ack,
            ..self
        };
        let events = notified.events + (if packet_type == NetPacketType::PingPacket.wire() {
            seq![
                DNetEvent::SendPacket(
                    fresh_stream().write(header_bits(answering, NetPacketType::AckPacket)),
                ),
            ]
        } else {
            Seq::empty()
        }) + seq![DNetEvent::KeepAlive] + (if self.last_seq_received != seq && packet_type
            == NetPacketType::DataPacket.wire() {
            seq![DNetEvent::HandlePacket(payload)]
        } else {
            Seq::empty()
        });
        (DNetView { last_seq_received: seq, ..answering }, events)
    }

    /// The checks on a raw packet, in order: its fixed header is there, its
    /// parity bit is this connection's, it names at most four bytes of
    /// acknowledgements and a kind, and the acknowledgement mask is there. A
    /// packet that passes them and lies outside the window gives `None`.
    pub open spec fn screen(self, bits: Seq<bool>) -> Result<
        Option<(Admitted, Seq<bool>)>,
        DNetError,
    > {
        match take_header(bits) {
            None => Err(DNetError::Truncated),
            Some((header, rest)) => if header.parity != self.connect_sequence % 2 {
                Err(DNetError::BadSequence)
            } else if header.ack_byte_count > 4 || header.packet_type >= 3 {
                Err(DNetError::InvalidHeader)
            } else {
                match take_bits(rest, (8 * header.ack_byte_count) as nat) {
                    None => Err(DNetError::Truncated),
                    Some((mask, rest)) => {
                        let seq = extend_seq(header.send_seq, self.last_seq_received);
                        let highest_ack = extend_seq(header.highest_ack, self.highest_acked_seq);
                        if seq > self.last_seq_received + 31 || highest_ack > self.last_send_seq {
                            Ok(None)
                        } else {
                            Ok(
                                Some(
                                    (
                                        Admitted {
                                            packet_type: header.packet_type,
                                            seq: seq as u32,
                                            highest_ack: highest_ack as u32,
                                            mask: mask as u32,
                                        },
                                        rest,
                                    ),
                                ),
                            )
                        }
                    },
                }
            },
        }
    }

    /// What taking in the raw packet `input` does: the new state and the
    /// events, or why the packet was refused. A packet outside the window is
    /// dropped: no event, the state as it was.
    pub open spec fn receive(self, input: StreamView) -> Result<
        (DNetView, Seq<DNetEvent>),
        DNetError,
    > {
        match self.screen(input.remaining()) {
            Err(e) => Err(e),
            Ok(None) => Ok((self, Seq::empty())),
            Ok(Some((packet, rest))) => Ok(
                self.accept(
                    packet.packet_type,
                    packet.seq,
                    packet.highest_ack,
                    packet.mask,
                    input.seek((input.bits.len() - rest.len()) as nat),
                ),
            ),
        }
    }
}

/// A stream as `BitStream::new` makes it.
pub open spec fn fresh_stream() -> StreamView {
    StreamView { bits: crate::bits::zero_bits(8), pos: 0 }
}

impl View for DNetResult {
    type V = DNetEvent;

    open spec fn view(&self) -> DNetEvent {
        match self {
            DNetResult::SendPacket(stream) => DNetEvent::SendPacket(stream@),
            DNetResult::KeepAlive => DNetEvent::KeepAlive,
            DNetResult::HandleConnectionEstablished => DNetEvent::ConnectionEstablished,
            DNetResult::HandleNotify(arrived) => DNetEvent::Notify(*arrived),
            DNetResult::HandlePacket(stream) => DNetEvent::HandlePacket(stream@),
        }
    }
}

/// The events that a list of results stands for.
pub open spec fn events_of(results: Seq<DNetResult>) -> Seq<DNetEvent> {
    Seq::new(results.len(), |i: int| results[i]@)
}

impl View for DNet {
    type V = DNetView;

    closed spec fn view(&self) -> DNetView {
        DNetView {
            last_seq_recvd_at_send: self.last_seq_recvd_at_send@,
            last_seq_received: self.last_seq_received,
            highest_acked_seq: self.highest_acked_seq,
            last_send_seq: self.last_send_seq,
            ack_mask: self.ack_mask,
            connect_sequence: self.connect_sequence,
            last_recv_ack_ack: self.last_recv_ack_ack,
            connection_established: self.connection_established,
        }
    }
}

proof fn lemma_extend(wire: u32, known: u32)
    by (bit_vector)
    requires
        wire < 512,
    ensures
        (wire | (known & 0xFFFF_FE00)) == known - known % 512 + wire,
        known & 1 == known % 2,
{
}

impl DNet {
    #[verifier::type_invariant]
    spec fn inv(self) -> bool {
        self@.wf()
    }

    /// A new connection bound to `connect_sequence`.
    pub fn new(connect_sequence: u32) -> (dnet: Self)
        ensures
            dnet@ == DNetView::initial(connect_sequence),
    {
        let dnet = DNet {
            last_seq_recvd_at_send: [0u32;32],
            last_seq_received: 0,
            highest_acked_seq: 0,
            last_send_seq: 0,
            ack_mask: 0,
            connect_sequence,
            last_recv_ack_ack: 0,
            connection_established: false,
        };
        proof {
            assert(dnet@.last_seq_recvd_at_send =~= Seq::new(32, |i: int| 0u32));
        }
        dnet
    }

    /// Shows what holds of every connection state.
    pub fn check_state(&self)
        ensures
            self@.wf(),
    {
        proof {
            use_type_invariant(self);
        }
    }

    /// Whether the send window is closed: thirty data packets are unacknowledged.
    pub fn window_full(&self) -> (full: bool)
        ensures
            full == self@.window_full(),
    {
        proof {
            use_type_invariant(self);
        }
        self.last_send_seq - self.highest_acked_seq >= 30
    }
}

proof fn lemma_low_bits(x: u32)
    by (bit_vector)
    ensures
        x & 1 == x % 2,
        x & 0x1F == x % 32,
{
}

/// Reads the fixed part of a header.
fn read_header(stream: &mut BitStream) -> (r: Result<Header, Truncated>)
    ensures
        match take_header(old(stream)@.remaining()) {
            Some((header, rest)) => r == Ok::<Header, Truncated>(header) && old(stream)@.reads_to(
                final(stream)@,
                rest,
            ) && header.parity < 2 && header.send_seq < 512 && header.highest_ack < 512
                && header.packet_type < 4 && header.ack_byte_count < 8,
            None => r is Err,
        },
{
    proof {
        vstd::arithmetic::power2::lemma2_to64();
    }
    match stream.read_flag() {
        Ok(_) => {},
        Err(e) => {
            return Err(e);
        },
    }
    let parity = match stream.read_int(1) {
        Ok(v) => v,
        Err(e) => {
            return Err(e);
        },
    };
    let send_seq = match stream.read_int(9) {
        Ok(v) => v,
        Err(e) => {
            return Err(e);
        },
    };
    let highest_ack = match stream.read_int(9) {
        Ok(v) => v,
        Err(e) => {
            return Err(e);
        },
    };
    let packet_type = match stream.read_int(2) {
        Ok(v) => v,
        Err(e) => {
            return Err(e);
        },
    };
    let ack_byte_count = match stream.read_int(3) {
        Ok(v) => v,
        Err(e) => {
            return Err(e);
        },
    };
    Ok(Header { parity, send_seq, highest_ack, packet_type, ack_byte_count })
}

impl DNet {
    /// Whether the counters are far enough from the largest 32-bit number for
    /// one more packet each way.
    pub fn has_headroom(&self) -> (room: bool)
        ensures
            room == self@.has_headroom(),
    {
        self.last_seq_received < 0xFFFF_FE00 && self.last_send_seq < 0xFFFF_FE00
    }

    /// The parity of this connection's sequence, which every header carries.
    pub fn connect_sequence(&self) -> (n: u32)
        ensures
            n == self@.connect_sequence,
    {
        self.connect_sequence
    }

    /// The sequence number of the last data packet sent.
    pub fn last_send_seq(&self) -> (n: u32)
        ensures
            n == self@.last_send_seq,
    {
        self.last_send_seq
    }

    /// The highest sequence number received.
    pub fn last_seq_received(&self) -> (n: u32)
        ensures
            n == self@.last_seq_received,
    {
        self.last_seq_received
    }

    /// The highest sequence number that the peer has acknowledged.
    pub fn highest_acked_seq(&self) -> (n: u32)
        ensures
            n == self@.highest_acked_seq,
    {
        self.highest_acked_seq
    }

    /// The mask of the last thirty-two sequence numbers received: bit `i` for
    /// `last_seq_received - i`.
    pub fn ack_mask(&self) -> (n: u32)
        ensures
            n == self@.ack_mask,
    {
        self.ack_mask
    }

    /// Whether the peer has acknowledged a packet yet.
    pub fn connection_established(&self) -> (b: bool)
        ensures
            b == self@.connection_established,
    {
        self.connection_established
    }

    /// Writes the header of a packet of kind `packet_type` to `stream`. A data
    /// packet takes the next sequence number, and what had been received when
    /// it left is recorded under that number.
    pub fn build_send_packet_header(&mut self, stream: &mut BitStream, packet_type: NetPacketType)
        requires
            old(stream)@.writable(),
            packet_type == NetPacketType::DataPacket ==> old(self)@.last_send_seq - old(
                self,
            )@.highest_acked_seq < 32 && old(self)@.last_send_seq < u32::MAX,
        ensures
            final(self)@ == old(self)@.after_send(packet_type),
            final(self)@.wf(),
            final(stream)@ == old(stream)@.write(old(self)@.send_bits(packet_type)),
            final(stream)@.writable(),
            old(stream)@.at_end() ==> final(stream)@.at_end() && final(stream)@.written() == old(
                stream,
            )@.written() + old(self)@.send_bits(packet_type),
    {
        proof {
            use_type_invariant(&*self);
            lemma_low_bits(self.connect_sequence);
        }
        let ghost before = stream@;
        let ghost state = self@;
        let ack_byte_count: u32 = (self.last_seq_received - self.last_recv_ack_ack + 7) / 8;
        let is_data = match packet_type {
            NetPacketType::DataPacket => true,
            _ => false,
        };
        let send_seq: u32 = if is_data {
            self.last_send_seq + 1
        } else {
            self.last_send_seq
        };
        let ghost mut written = flag_bits(true);
        stream.write_flag(true);
        stream.write_int(self.connect_sequence & 1, 1);
        proof {
            let piece = int_bits((state.connect_sequence % 2) as nat, 1);
            lemma_write_write(before, written, piece);
            written = written + piece;
        }
        stream.write_int(send_seq, 9);
        proof {
            let piece = int_bits(send_seq as nat, 9);
            lemma_write_write(before, written, piece);
            written = written + piece;
        }
        stream.write_int(self.last_seq_received, 9);
        proof {
            let piece = int_bits(state.last_seq_received as nat, 9);
            lemma_write_write(before, written, piece);
            written = written + piece;
        }
        stream.write_int(packet_type.code(), 2);
        proof {
            let piece = int_bits(packet_type.wire() as nat, 2);
            lemma_write_write(before, written, piece);
            written = written + piece;
        }
        stream.write_int(ack_byte_count, 3);
        proof {
            let piece = int_bits(ack_byte_count as nat, 3);
            lemma_write_write(before, written, piece);
            written = written + piece;
        }
        stream.write_int(self.ack_mask, (ack_byte_count * 8) as usize);
        proof {
            let piece = int_bits(state.ack_mask as nat, (8 * ack_byte_count) as nat);
            lemma_write_write(before, written, piece);
            written = written + piece;
            assert(written == state.send_bits(packet_type));
            if before.at_end() {
                lemma_write_at_end(before, written);
            }
        }
        if is_data {
            proof {
                lemma_low_bits(send_seq);
            }
            let mut ring = self.last_seq_recvd_at_send;
            ring[(send_seq & 0x1F) as usize] = self.last_seq_received;
            self.last_send_seq = send_seq;
            self.last_seq_recvd_at_send = ring;
            proof {
                assert(self@.last_seq_recvd_at_send =~= state.after_send(
                    packet_type,
                ).last_seq_recvd_at_send);
            }
        }
        proof {
            use_type_invariant(&*self);
        }
    }

    /// A ping packet: a header of that kind on a stream of its own.
    pub fn make_ping_packet(&mut self) -> (stream: BitStream)
        ensures
            final(self)@ == old(self)@,
            stream@ == fresh_stream().write(header_bits(old(self)@, NetPacketType::PingPacket)),
            stream@.at_end(),
    {
        let mut stream = BitStream::new();
        self.build_send_packet_header(&mut stream, NetPacketType::PingPacket);
        stream
    }

    /// An acknowledgement packet: a header of that kind on a stream of its own.
    pub fn make_ack_packet(&mut self) -> (stream: BitStream)
        ensures
            final(self)@ == old(self)@,
            stream@ == fresh_stream().write(header_bits(old(self)@, NetPacketType::AckPacket)),
            stream@.at_end(),
    {
        let mut stream = BitStream::new();
        self.build_send_packet_header(&mut stream, NetPacketType::AckPacket);
        stream
    }

    /// Runs the checks on a raw packet and extends its sequence numbers.
    fn screen(&self, stream: &mut BitStream) -> (r: Result<Option<Admitted>, DNetError>)
        requires
            self@.has_headroom(),
        ensures
            match self@.screen(old(stream)@.remaining()) {
                Err(e) => r == Err::<Option<Admitted>, DNetError>(e),
                Ok(None) => r == Ok::<Option<Admitted>, DNetError>(None),
                Ok(Some((packet, rest))) => r == Ok::<Option<Admitted>, DNetError>(Some(packet))
                    && old(stream)@.reads_to(final(stream)@, rest) && packet.packet_type < 3
                    && self@.last_seq_received <= packet.seq <= self@.last_seq_received + 31
                    && self@.highest_acked_seq <= packet.highest_ack <= self@.last_send_seq,
            },
    {
        proof {
            use_type_invariant(self);
            lemma_low_bits(self.connect_sequence);
        }
        let header = match read_header(stream) {
            Ok(h) => h,
            Err(_) => {
                return Err(DNetError::Truncated);
            },
        };
        if header.parity != (self.connect_sequence & 1) {
            return Err(DNetError::BadSequence);
        }
        if header.ack_byte_count > 4 {
            return Err(DNetError::InvalidHeader);
        }
        if header.packet_type >= 3 {
            return Err(DNetError::InvalidHeader);
        }
        let mask = match stream.read_int((8 * header.ack_byte_count) as usize) {
            Ok(m) => m,
            Err(_) => {
                return Err(DNetError::Truncated);
            },
        };
        proof {
            lemma_extend(header.send_seq, self.last_seq_received);
            lemma_extend(header.highest_ack, self.highest_acked_seq);
        }
        let mut seq: u32 = header.send_seq | (self.last_seq_received & 0xFFFF_FE00);
        if seq < self.last_seq_received {
            seq = seq + 0x200;
        }
        if seq > self.last_seq_received + 31 {
            return Ok(None);
        }
        let mut highest_ack: u32 = header.highest_ack | (self.highest_acked_seq & 0xFFFF_FE00);
        if highest_ack < self.highest_acked_seq {
            highest_ack = highest_ack + 0x200;
        }
        if highest_ack > self.last_send_seq {
            return Ok(None);
        }
        Ok(Some(Admitted { packet_type: header.packet_type, seq, highest_ack, mask }))
    }

    /// Appends the notifications for the sequence numbers above
    /// `highest_acked_seq` up to `highest_ack` to `results`, and returns what
    /// they make of `last_recv_ack_ack` and `connection_established`.
    fn notify_all(&self, mask: u32, highest_ack: u32, results: &mut Vec<DNetResult>) -> (r: (
        u32,
        bool,
    ))
        requires
            self@.has_headroom(),
            self@.highest_acked_seq <= highest_ack <= self@.last_send_seq,
        ensures
            ({
                let notified = self@.notify(
                    mask,
                    highest_ack,
                    self@.highest_acked_seq + 1,
                    self@.last_recv_ack_ack,
                    self@.connection_established,
                );
                &&& events_of(final(results)@) == events_of(old(results)@) + notified.events
                &&& r.0 == notified.last_recv_ack_ack
                &&& r.1 == notified.connection_established
                &&& r.0 <= self@.last_seq_received
            }),
    {
        proof {
            use_type_invariant(self);
        }
        let ghost state = self@;
        let ghost start = events_of(results@);
        let first: u32 = self.highest_acked_seq + 1;
        let mut seq: u32 = first;
        let mut last_recv_ack_ack: u32 = self.last_recv_ack_ack;
        let mut established = self.connection_established;
        let ghost total = state.notify(
            mask,
            highest_ack,
            first as int,
            state.last_recv_ack_ack,
            state.connection_established,
        );
        proof {
            assert(start + total.events =~= events_of(results@) + total.events);
        }
        while seq <= highest_ack
            invariant
                first <= seq <= highest_ack + 1,
                first == state.highest_acked_seq + 1,
                highest_ack <= state.last_send_seq,
                state.wf(),
                state.has_headroom(),
                self@ == state,
                last_recv_ack_ack <= state.last_seq_received,
                start + total.events == events_of(results@) + state.notify(
                    mask,
                    highest_ack,
                    seq as int,
                    last_recv_ack_ack,
                    established,
                ).events,
                total.last_recv_ack_ack == state.notify(
                    mask,
                    highest_ack,
                    seq as int,
                    last_recv_ack_ack,
                    established,
                ).last_recv_ack_ack,
                total.connection_established == state.notify(
                    mask,
                    highest_ack,
                    seq as int,
                    last_recv_ack_ack,
                    established,
                ).connection_established,
            decreases highest_ack + 1 - seq,
        {
            let ghost current = state.notify(
                mask,
                highest_ack,
                seq as int,
                last_recv_ack_ack,
                established,
            );
            let ghost shown = events_of(results@);
            let arrived = (mask & (1u32 << (highest_ack - seq))) != 0;
            results.push(DNetResult::HandleNotify(arrived));
            proof {
                assert(events_of(results@) =~= shown + seq![DNetEvent::Notify(arrived)]);
            }
            if arrived {
                proof {
                    lemma_low_bits(seq);
                }
                last_recv_ack_ack = self.last_seq_recvd_at_send[(seq & 0x1F) as usize];
                if !established {
                    established = true;
                    let ghost so_far = events_of(results@);
                    results.push(DNetResult::HandleConnectionEstablished);
                    proof {
                        assert(events_of(results@) =~= so_far + seq![
                            DNetEvent::ConnectionEstablished,
                        ]);
                    }
                }
            }
            seq = seq + 1;
            proof {
                let next = state.notify(
                    mask,
                    highest_ack,
                    seq as int,
                    last_recv_ack_ack,
                    established,
                );
                assert(events_of(results@) + next.events =~= shown + current.events);
            }
        }
        proof {
            assert(events_of(results@) + Seq::<DNetEvent>::empty() =~= events_of(results@));
        }
        (last_recv_ack_ack, established)
    }

    /// Takes in one raw packet. A packet that ends early, carries the wrong
    /// parity bit or names no kind is refused and changes nothing; one outside
    /// the window is dropped without an event.
    pub fn process_raw_packet(&mut self, stream: BitStream) -> (r: Result<
        Vec<DNetResult>,
        DNetError,
    >)
        requires
            old(self)@.has_headroom(),
        ensures
            match old(self)@.receive(stream@) {
                Ok((state, events)) => final(self)@ == state && (r matches Ok(results)
                    && events_of(results@) == events),
                Err(e) => final(self)@ == old(self)@ && (r matches Err(x) && x == e),
            },
            final(self)@.wf(),
    {
        proof {
            use_type_invariant(&*self);
        }
        let ghost state = self@;
        let ghost input = stream@;
        let mut stream = stream;
        let mut results: Vec<DNetResult> = Vec::new();
        proof {
            assert(events_of(results@) =~= Seq::<DNetEvent>::empty());
        }
        let packet = match self.screen(&mut stream) {
            Ok(Some(packet)) => packet,
            Ok(None) => {
                return Ok(results);
            },
            Err(e) => {
                return Err(e);
            },
        };
        let ghost payload = stream@;
        let shifted: u32 = self.ack_mask << (packet.seq - self.last_seq_received);
        let is_data = packet.packet_type == 0;
        let ack_mask: u32 = if is_data {
            shifted | 1
        } else {
            shifted
        };
        let (noted, established) = self.notify_all(packet.mask, packet.highest_ack, &mut results);
        let last_recv_ack_ack: u32 = if packet.seq - noted > 32 {
            packet.seq - 32
        } else {
            noted
        };
        self.ack_mask = ack_mask;
        self.last_recv_ack_ack = last_recv_ack_ack;
        self.connection_established = established;
        self.highest_acked_seq = packet.highest_ack;
        if packet.packet_type == 1 {
            let ghost so_far = events_of(results@);
            let answer = self.make_ack_packet();
            results.push(DNetResult::SendPacket(answer));
            proof {
                assert(events_of(results@) =~= so_far + seq![DNetEvent::SendPacket(answer@)]);
            }
        }
        let ghost so_far = events_of(results@);
        results.push(DNetResult::KeepAlive);
        proof {
            assert(events_of(results@) =~= so_far + seq![DNetEvent::KeepAlive]);
        }
        if self.last_seq_received != packet.seq && is_data {
            let ghost so_far = events_of(results@);
            results.push(DNetResult::HandlePacket(stream));
            proof {
                assert(events_of(results@) =~= so_far + seq![DNetEvent::HandlePacket(payload)]);
            }
        }
        self.last_seq_received = packet.seq;
        proof {
            use_type_invariant(&*self);
            let expected = state.accept(
                packet.packet_type,
                packet.seq,
                packet.highest_ack,
                packet.mask,
                payload,
            );
            assert(payload == input.seek((input.bits.len() - payload.remaining().len()) as nat));
            assert(events_of(results@) =~= expected.1);
            assert(self@.last_seq_recvd_at_send =~= expected.0.last_seq_recvd_at_send);
        }
        Ok(results)
    }
}

/// An event that tells of the connection's establishment.
pub open spec fn is_establishment(event: DNetEvent) -> bool {
    event is ConnectionEstablished
}

/// An event that tells whether a packet arrived.
pub open spec fn is_notify(event: DNetEvent) -> bool {
    event is Notify
}

/// The number of events of a list that `kind` picks.
pub open spec fn count_events(events: Seq<DNetEvent>, kind: spec_fn(DNetEvent) -> bool) -> nat
    decreases events.len(),
{
    if events.len() == 0 {
        0
    } else {
        count_events(events.drop_first(), kind) + (if kind(events[0]) { 1nat } else { 0nat })
    }
}

proof fn lemma_count_concat(
    first: Seq<DNetEvent>,
    second: Seq<DNetEvent>,
    kind: spec_fn(DNetEvent) -> bool,
)
    ensures
        count_events(first + second, kind) == count_events(first, kind) + count_events(
            second,
            kind,
        ),
    decreases first.len(),
{
    if first.len() == 0 {
        assert(first + second =~= second);
    } else {
        lemma_count_concat(first.drop_first(), second, kind);
        assert((first + second).drop_first() =~= first.drop_first() + second);
    }
}

/// Every header carries the parity of its connection: its first bit is set,
/// and its second is the low bit of the connection's sequence.
pub proof fn lemma_header_parity(v: DNetView, packet_type: NetPacketType)
    ensures
        header_bits(v, packet_type).len() >= 2,
        header_bits(v, packet_type)[0],
        header_bits(v, packet_type)[1] == (v.connect_sequence % 2 == 1),
{
    crate::bits::lemma_int_bits_len(1, 1);
    crate::bits::lemma_int_bits_len((v.connect_sequence % 2) as nat, 1);
}

proof fn lemma_low_bit_set(mask: u32)
    by (bit_vector)
    ensures
        (mask | 1) & 1 == 1,
{
}

/// A data packet that is taken in is marked in the acknowledgement mask: the
/// mask's low bit stands for the sequence number that was received last.
pub proof fn lemma_data_is_marked(
    v: DNetView,
    seq: u32,
    highest_ack: u32,
    mask: u32,
    payload: StreamView,
)
    ensures
        v.accept(NetPacketType::DataPacket.wire(), seq, highest_ack, mask, payload).0.ack_mask & 1
            == 1,
        v.accept(
            NetPacketType::DataPacket.wire(),
            seq,
            highest_ack,
            mask,
            payload,
        ).0.last_seq_received == seq,
{
    lemma_low_bit_set(v.ack_mask << ((seq - v.last_seq_received) as u32));
}

/// The notifications come one for each sequence number, in ascending order,
/// and the establishment of the connection is told once at most: never where
/// it was established before, and once where a packet arrived for the first
/// time.
pub proof fn lemma_notify_counts(
    v: DNetView,
    mask: u32,
    highest_ack: u32,
    seq: int,
    last_recv_ack_ack: u32,
    connection_established: bool,
)
    requires
        0 <= seq,
    ensures
        ({
            let notified = v.notify(
                mask,
                highest_ack,
                seq,
                last_recv_ack_ack,
                connection_established,
            );
            let told = count_events(notified.events, |e: DNetEvent| is_establishment(e));
            &&& count_events(notified.events, |e: DNetEvent| is_notify(e)) == (if seq
                <= highest_ack {
                highest_ack + 1 - seq
            } else {
                0
            })
            &&& told <= 1
            &&& connection_established ==> told == 0 && notified.connection_established
            &&& told == 1 <==> !connection_established && notified.connection_established
        }),
    decreases highest_ack + 1 - seq,
{
    let notify_kind = |e: DNetEvent| is_notify(e);
    let told_kind = |e: DNetEvent| is_establishment(e);
    if seq <= highest_ack {
        let arrived = mask & (1u32 << ((highest_ack - seq) as u32)) != 0;
        let next_ack = if arrived {
            v.last_seq_recvd_at_send[seq % 32]
        } else {
            last_recv_ack_ack
        };
        let rest = v.notify(
            mask,
            highest_ack,
            seq + 1,
            next_ack,
            connection_established || arrived,
        );
        lemma_notify_counts(
            v,
            mask,
            highest_ack,
            seq + 1,
            next_ack,
            connection_established || arrived,
        );
        let head = seq![DNetEvent::Notify(arrived)] + (if arrived && !connection_established {
            seq![DNetEvent::ConnectionEstablished]
        } else {
            Seq::empty()
        });
        lemma_count_concat(head, rest.events, notify_kind);
        lemma_count_concat(head, rest.events, told_kind);
        reveal_with_fuel(count_events, 3);
        assert(head.drop_first().len() <= 1);
        if arrived && !connection_established {
            assert(head.drop_first() =~= seq![DNetEvent::ConnectionEstablished]);
            assert(head.drop_first().drop_first() =~= Seq::<DNetEvent>::empty());
        } else {
            assert(head.drop_first() =~= Seq::<DNetEvent>::empty());
        }
    }
}

} // verus!
