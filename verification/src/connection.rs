//! The glue between datagrams and the notify protocol: what came in is either
//! a packet for the layer above or a raw packet for the notify layer, and what
//! the notify layer wants sent goes out as datagrams.

use vstd::prelude::*;
use crate::bits::bytes_bits;
use crate::bitstream::{BitStream, StreamView};
use crate::dnet::{
    DNet, DNetError, DNetEvent, DNetResult, DNetView, NetPacketType, events_of, fresh_stream,
};
use crate::huffman::HuffmanProcessor;
use crate::packet::{Packet, PacketSource, PacketView, decode};

verus! {

/// What a datagram turned out to be.
pub enum Incoming {
    /// Nothing that is known: the datagram is dropped.
    Nothing,
    /// A packet for the layer above.
    Packet(Packet),
    /// A raw packet that the notify layer took in, with what it asks for.
    Notified(Vec<DNetResult>),
    /// A raw packet that the notify layer refused.
    Refused(DNetError),
}

/// An `Incoming` as its contracts see it.
pub enum IncomingView {
    Nothing,
    Packet(PacketView),
    Notified(Seq<DNetEvent>),
    Refused(DNetError),
}

impl View for Incoming {
    type V = IncomingView;

    open spec fn view(&self) -> IncomingView {
        match self {
            Incoming::Nothing => IncomingView::Nothing,
            Incoming::Packet(packet) => IncomingView::Packet(packet@),
            Incoming::Notified(results) => IncomingView::Notified(events_of(results@)),
            Incoming::Refused(error) => IncomingView::Refused(*error),
        }
    }
}

/// The datagram belongs to the notify layer: it begins with an odd byte.
pub open spec fn is_raw(bytes: Seq<u8>) -> bool {
    bytes.len() > 0 && bytes[0] % 2 == 1
}

/// What taking in a datagram does to a connection in state `state`: the new
/// state, and what the datagram turned out to be.
pub open spec fn taken_in(state: DNetView, bytes: Seq<u8>, source: PacketSource) -> (
    DNetView,
    IncomingView,
) {
    if is_raw(bytes) {
        match state.receive(StreamView { bits: bytes_bits(bytes), pos: 0 }) {
            Ok((next, events)) => (next, IncomingView::Notified(events)),
            Err(error) => (state, IncomingView::Refused(error)),
        }
    } else {
        match decode(bytes, source) {
            Some(packet) => (state, IncomingView::Packet(packet)),
            None => (state, IncomingView::Nothing),
        }
    }
}

/// The bits of the datagram that a stream goes out as: all of its buffer but
/// the last byte, where the cursor stands on a byte boundary.
pub open spec fn datagram_bits(stream: StreamView) -> Seq<bool> {
    if stream.pos % 8 == 0 && stream.bits.len() >= 8 {
        stream.bits.take(stream.bits.len() - 8)
    } else {
        stream.bits
    }
}

/// The datagrams that a list of events asks to be sent, in order.
pub open spec fn outbound_of(events: Seq<DNetEvent>) -> Seq<Seq<bool>>
    decreases events.len(),
{
    if events.len() == 0 {
        Seq::empty()
    } else {
        let before = outbound_of(events.drop_last());
        match events.last() {
            DNetEvent::SendPacket(stream) => before.push(datagram_bits(stream)),
            _ => before,
        }
    }
}

/// The events of a list that ask for no datagram, in order: those that are
/// left for the layer above.
pub open spec fn retained_of(events: Seq<DNetEvent>) -> Seq<DNetEvent>
    decreases events.len(),
{
    if events.len() == 0 {
        Seq::empty()
    } else {
        let before = retained_of(events.drop_last());
        match events.last() {
            DNetEvent::SendPacket(_) => before,
            other => before.push(other),
        }
    }
}

/// The bits of each of a list of datagrams.
pub open spec fn datagrams_bits(datagrams: Seq<Vec<u8>>) -> Seq<Seq<bool>> {
    Seq::new(datagrams.len(), |i: int| bytes_bits(datagrams[i]@))
}

/// A flag goes out as one bit: the flag itself.
proof fn lemma_flag_bit(value: bool)
    ensures
        crate::bitstream::flag_bits(value) == seq![value],
{
    reveal_with_fuel(crate::bits::int_bits, 2);
    assert(crate::bitstream::flag_bits(value) =~= seq![value]);
}

proof fn lemma_first_byte_odd(first: u8)
    by (bit_vector)
    ensures
        (first & 0x1 == 1) == (first % 2 == 1),
{
}

/// One logical connection: the state of its notify layer.
pub struct Connection {
    dnet: DNet,
}

impl View for Connection {
    type V = DNetView;

    closed spec fn view(&self) -> DNetView {
        self.dnet@
    }
}

impl Connection {
    /// A new connection bound to `connect_sequence`.
    pub fn new(connect_sequence: u32) -> (connection: Self)
        ensures
            connection@ == DNetView::initial(connect_sequence),
    {
        Connection { dnet: DNet::new(connect_sequence) }
    }

    /// The notify layer of the connection.
    pub fn dnet(&self) -> (dnet: &DNet)
        ensures
            dnet@ == self@,
    {
        &self.dnet
    }

    /// Whether the send window is closed.
    pub fn window_full(&self) -> (full: bool)
        ensures
            full == self@.window_full(),
    {
        self.dnet.window_full()
    }

    /// Takes in one datagram: a raw packet goes to the notify layer, anything
    /// else is read as a packet for the layer above.
    pub fn receive(&mut self, bytes: &[u8], source: PacketSource, huffman: &HuffmanProcessor) -> (r:
        Incoming)
        requires
            old(self)@.has_headroom(),
        ensures
            final(self)@ == taken_in(old(self)@, bytes@, source).0,
            r@ == taken_in(old(self)@, bytes@, source).1,
    {
        if bytes.len() > 0 && bytes[0] & 0x1 == 1 {
            proof {
                lemma_first_byte_odd(bytes[0]);
            }
            let stream = BitStream::from_buffer(vstd::slice::slice_to_vec(bytes));
            match self.dnet.process_raw_packet(stream) {
                Ok(results) => Incoming::Notified(results),
                Err(error) => Incoming::Refused(error),
            }
        } else {
            proof {
                if bytes@.len() > 0 {
                    lemma_first_byte_odd(bytes[0]);
                }
            }
            match Packet::try_from_bytes(bytes, source, huffman) {
                Some(packet) => Incoming::Packet(packet),
                None => Incoming::Nothing,
            }
        }
    }

    /// Starts a data packet: a stream that holds its header, for the payload
    /// to be written behind. There is none while the send window is closed.
    pub fn begin_data_packet(&mut self) -> (r: Option<BitStream>)
        ensures
            match r {
                Some(stream) => !old(self)@.window_full() && old(self)@.last_send_seq < u32::MAX
                    && final(self)@ == old(self)@.after_send(NetPacketType::DataPacket) && stream@
                    == fresh_stream().write(old(self)@.send_bits(NetPacketType::DataPacket))
                    && stream@.at_end(),
                None => (old(self)@.window_full() || old(self)@.last_send_seq == u32::MAX)
                    && final(self)@ == old(self)@,
            },
    {
        if self.dnet.window_full() || self.dnet.last_send_seq() == u32::MAX {
            return None;
        }
        self.dnet.check_state();
        let mut stream = BitStream::new();
        self.dnet.build_send_packet_header(&mut stream, NetPacketType::DataPacket);
        Some(stream)
    }

    /// A data packet with the given payload, one bit for each flag, as a
    /// datagram. There is none while the send window is closed.
    pub fn data_packet(&mut self, payload: &[bool]) -> (r: Option<Vec<u8>>)
        ensures
            match r {
                Some(bytes) => !old(self)@.window_full() && old(self)@.last_send_seq < u32::MAX
                    && final(self)@ == old(self)@.after_send(NetPacketType::DataPacket)
                    && bytes_bits(bytes@) == crate::bits::pad_to_byte(
                    old(self)@.send_bits(NetPacketType::DataPacket) + payload@,
                ),
                None => (old(self)@.window_full() || old(self)@.last_send_seq == u32::MAX)
                    && final(self)@ == old(self)@,
            },
    {
        let ghost header = self@.send_bits(NetPacketType::DataPacket);
        let mut stream = match self.begin_data_packet() {
            Some(stream) => stream,
            None => {
                return None;
            },
        };
        proof {
            crate::bitstream::lemma_write_at_end(fresh_stream(), header);
            assert(fresh_stream().written() =~= Seq::<bool>::empty());
            assert(stream@.written() =~= header + payload@.take(0));
        }
        let mut i: usize = 0;
        while i < payload.len()
            invariant
                i <= payload.len(),
                stream@.at_end(),
                stream@.written() == header + payload@.take(i as int),
            decreases payload.len() - i,
        {
            proof {
                crate::bitstream::lemma_write_at_end(
                    stream@,
                    crate::bitstream::flag_bits(payload[i as int]),
                );
                lemma_flag_bit(payload[i as int]);
            }
            stream.write_flag(payload[i]);
            proof {
                assert((header + payload@.take(i as int)) + seq![payload[i as int]] =~= header
                    + payload@.take(i + 1));
            }
            i = i + 1;
        }
        proof {
            assert(payload@.take(i as int) =~= payload@);
        }
        Some(stream.into_bytes())
    }

    /// A ping packet, as a datagram.
    pub fn ping_datagram(&mut self) -> (bytes: Vec<u8>)
        ensures
            final(self)@ == old(self)@,
            bytes_bits(bytes@) == crate::bits::pad_to_byte(
                crate::dnet::header_bits(old(self)@, NetPacketType::PingPacket),
            ),
    {
        let stream = self.dnet.make_ping_packet();
        proof {
            crate::bitstream::lemma_write_at_end(
                fresh_stream(),
                crate::dnet::header_bits(self@, NetPacketType::PingPacket),
            );
            assert(fresh_stream().written() =~= Seq::<bool>::empty());
            assert(stream@.written() =~= crate::dnet::header_bits(
                self@,
                NetPacketType::PingPacket,
            ));
        }
        stream.into_bytes()
    }

    /// The datagrams that the results of the notify layer ask to be sent, in
    /// order, and the results that are left for the layer above.
    pub fn outbound(results: Vec<DNetResult>) -> (r: (Vec<Vec<u8>>, Vec<DNetResult>))
        ensures
            datagrams_bits(r.0@) == outbound_of(events_of(results@)),
            events_of(r.1@) == retained_of(events_of(results@)),
    {
        let ghost all = events_of(results@);
        let mut results = results;
        let mut datagrams: Vec<Vec<u8>> = Vec::new();
        let mut kept: Vec<DNetResult> = Vec::new();
        let ghost mut done: int = 0;
        proof {
            assert(datagrams_bits(datagrams@) =~= Seq::<Seq<bool>>::empty());
            assert(events_of(kept@) =~= Seq::<DNetEvent>::empty());
            assert(all.take(0) =~= Seq::<DNetEvent>::empty());
            assert(all.skip(0) =~= all);
        }
        while results.len() > 0
            invariant
                0 <= done <= all.len(),
                results@.len() == all.len() - done,
                events_of(results@) == all.skip(done),
                datagrams_bits(datagrams@) == outbound_of(all.take(done)),
                events_of(kept@) == retained_of(all.take(done)),
            decreases results.len(),
        {
            let ghost waiting = events_of(results@);
            let ghost shown = datagrams_bits(datagrams@);
            let ghost held = events_of(kept@);
            let ghost prior = results@;
            let result = results.remove(0);
            proof {
                assert(results@ =~= prior.subrange(1, prior.len() as int));
                assert forall|i: int| 0 <= i < results@.len() implies events_of(results@)[i]
                    == waiting[i + 1] by {
                    assert(results@[i] == prior[i + 1]);
                }
                assert(waiting[0] == result@);
                assert(all.skip(done)[0] == all[done]);
                assert(events_of(results@) =~= all.skip(done + 1));
                assert(all.take(done + 1).drop_last() =~= all.take(done));
            }
            match result {
                DNetResult::SendPacket(stream) => {
                    let bytes = stream.into_bytes();
                    datagrams.push(bytes);
                    proof {
                        assert(datagrams_bits(datagrams@) =~= shown.push(bytes_bits(bytes@)));
                    }
                },
                other => {
                    kept.push(other);
                    proof {
                        assert(events_of(kept@) =~= held.push(other@));
                    }
                },
            }
            proof {
                done = done + 1;
            }
        }
        proof {
            assert(all.take(done) =~= all);
        }
        (datagrams, kept)
    }
}

} // verus!
