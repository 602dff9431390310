use dnet::bitstream::BitStream;
use dnet::dnet::{DNet, DNetError, DNetResult, NetPacketType};

struct Peer {
    parity: u32,
    send_seq: u32,
    highest_ack: u32,
    packet_type: u32,
    ack_byte_count: u32,
    ack_mask: u32,
}

fn raw(peer: &Peer, payload: &[u8]) -> BitStream {
    let mut stream = BitStream::new();
    stream.write_flag(true);
    stream.write_int(peer.parity, 1);
    stream.write_int(peer.send_seq, 9);
    stream.write_int(peer.highest_ack, 9);
    stream.write_int(peer.packet_type, 2);
    stream.write_int(peer.ack_byte_count, 3);
    stream.write_int(peer.ack_mask, (8 * peer.ack_byte_count) as usize);
    for byte in payload {
        stream.write_u8(*byte);
    }
    BitStream::from_buffer(stream.into_bytes())
}

fn data(parity: u32, send_seq: u32, highest_ack: u32, ack_byte_count: u32, ack_mask: u32) -> BitStream {
    raw(&Peer { parity, send_seq, highest_ack, packet_type: 0, ack_byte_count, ack_mask }, &[0xAA])
}

fn kinds(results: &[DNetResult]) -> Vec<String> {
    results
        .iter()
        .map(|result| match result {
            DNetResult::SendPacket(_) => "send".to_string(),
            DNetResult::KeepAlive => "alive".to_string(),
            DNetResult::HandleConnectionEstablished => "established".to_string(),
            DNetResult::HandleNotify(arrived) => format!("notify {}", arrived),
            DNetResult::HandlePacket(_) => "packet".to_string(),
        })
        .collect()
}

struct Sent {
    parity: u32,
    send_seq: u32,
    highest_ack: u32,
    packet_type: u32,
    ack_byte_count: u32,
    ack_mask: u32,
    bits: usize,
}

fn parse(stream: BitStream) -> Sent {
    let bits = stream.get_bit_pos();
    let mut reader = BitStream::from_buffer(stream.into_bytes());
    assert_eq!(reader.read_flag(), Ok(true));
    let parity = reader.read_int(1).unwrap();
    let send_seq = reader.read_int(9).unwrap();
    let highest_ack = reader.read_int(9).unwrap();
    let packet_type = reader.read_int(2).unwrap();
    let ack_byte_count = reader.read_int(3).unwrap();
    let ack_mask = reader.read_int((8 * ack_byte_count) as usize).unwrap();
    Sent { parity, send_seq, highest_ack, packet_type, ack_byte_count, ack_mask, bits }
}

fn send_data(dnet: &mut DNet) -> Sent {
    let mut stream = BitStream::new();
    dnet.build_send_packet_header(&mut stream, NetPacketType::DataPacket);
    parse(stream)
}

#[test]
fn new_connection_is_blank() {
    let dnet = DNet::new(7);
    assert_eq!(dnet.connect_sequence(), 7);
    assert_eq!(dnet.last_send_seq(), 0);
    assert_eq!(dnet.last_seq_received(), 0);
    assert_eq!(dnet.highest_acked_seq(), 0);
    assert_eq!(dnet.ack_mask(), 0);
    assert!(!dnet.connection_established());
    assert!(!dnet.window_full());
}

#[test]
fn happy_path_ack() {
    let mut dnet = DNet::new(1);
    let results = dnet.process_raw_packet(data(1, 1, 0, 0, 0)).unwrap();
    assert_eq!(kinds(&results), vec!["alive", "packet"]);
    match &results[1] {
        DNetResult::HandlePacket(stream) => assert_eq!(stream.get_bit_pos(), 25),
        _ => panic!("no packet"),
    }
    assert_eq!(dnet.last_seq_received(), 1);
    assert_eq!(dnet.ack_mask(), 1);
    assert!(!dnet.connection_established());

    let sent = send_data(&mut dnet);
    assert_eq!(sent.parity, 1);
    assert_eq!(sent.send_seq, 1);
    assert_eq!(sent.highest_ack, 1);
    assert_eq!(sent.packet_type, 0);
    assert_eq!(sent.ack_byte_count, 1);
    assert_eq!(sent.ack_mask, 1);
    assert_eq!(sent.bits, 25 + 8);
    assert_eq!(dnet.last_send_seq(), 1);

    let results = dnet.process_raw_packet(data(1, 2, 1, 1, 1)).unwrap();
    assert_eq!(kinds(&results), vec!["notify true", "established", "alive", "packet"]);
    assert!(dnet.connection_established());
    assert_eq!(dnet.highest_acked_seq(), 1);
    assert_eq!(dnet.ack_mask(), 0b11);
}

#[test]
fn parity_mismatch() {
    let mut dnet = DNet::new(2);
    let error = dnet.process_raw_packet(data(1, 1, 0, 0, 0)).err().unwrap();
    assert_eq!(error, DNetError::BadSequence);
    assert!(error.is_header_invalid());
    assert_eq!(dnet.last_seq_received(), 0);
    assert_eq!(dnet.ack_mask(), 0);
    assert_eq!(dnet.highest_acked_seq(), 0);
    assert_eq!(dnet.last_send_seq(), 0);
    assert!(!dnet.connection_established());
}

#[test]
fn invalid_headers() {
    let mut dnet = DNet::new(0);
    let too_many = raw(
        &Peer { parity: 0, send_seq: 1, highest_ack: 0, packet_type: 0, ack_byte_count: 5, ack_mask: 0 },
        &[0; 8],
    );
    assert_eq!(dnet.process_raw_packet(too_many).err(), Some(DNetError::InvalidHeader));
    let no_kind = raw(
        &Peer { parity: 0, send_seq: 1, highest_ack: 0, packet_type: 3, ack_byte_count: 0, ack_mask: 0 },
        &[],
    );
    assert_eq!(dnet.process_raw_packet(no_kind).err(), Some(DNetError::InvalidHeader));
    // parity is looked at first
    let both = raw(
        &Peer { parity: 1, send_seq: 1, highest_ack: 0, packet_type: 3, ack_byte_count: 7, ack_mask: 0 },
        &[0; 8],
    );
    assert_eq!(dnet.process_raw_packet(both).err(), Some(DNetError::BadSequence));
    assert_eq!(dnet.last_seq_received(), 0);
}

#[test]
fn truncated_headers() {
    let mut dnet = DNet::new(0);
    let short = BitStream::from_buffer(vec![0x01, 0x00, 0x00]);
    let error = dnet.process_raw_packet(short).err().unwrap();
    assert_eq!(error, DNetError::Truncated);
    assert!(!error.is_header_invalid());
    // four bytes of mask announced, none there
    let mut stream = BitStream::new();
    stream.write_flag(true);
    stream.write_int(0, 1);
    stream.write_int(1, 9);
    stream.write_int(0, 9);
    stream.write_int(0, 2);
    stream.write_int(4, 3);
    let cut = BitStream::from_buffer(stream.into_bytes());
    assert_eq!(dnet.process_raw_packet(cut).err(), Some(DNetError::Truncated));
    assert_eq!(dnet.last_seq_received(), 0);
}

#[test]
fn out_of_window_drop() {
    let mut dnet = DNet::new(0);
    for seq in 1..=10 {
        dnet.process_raw_packet(data(0, seq, 0, 0, 0)).unwrap();
    }
    assert_eq!(dnet.last_seq_received(), 10);
    let mask = dnet.ack_mask();
    assert_eq!(mask, 0x3FF);
    let results = dnet.process_raw_packet(data(0, 100, 0, 0, 0)).unwrap();
    assert!(results.is_empty());
    assert_eq!(dnet.last_seq_received(), 10);
    assert_eq!(dnet.ack_mask(), mask);
    // an acknowledgement of what was never sent is dropped too
    let results = dnet.process_raw_packet(data(0, 11, 1, 1, 1)).unwrap();
    assert!(results.is_empty());
    assert_eq!(dnet.last_seq_received(), 10);
    // the edge of the window is still inside
    let results = dnet.process_raw_packet(data(0, 41, 0, 0, 0)).unwrap();
    assert_eq!(kinds(&results), vec!["alive", "packet"]);
    assert_eq!(dnet.last_seq_received(), 41);
    assert_eq!(dnet.ack_mask(), 0x8000_0001);
}

#[test]
fn duplicate_is_not_handled_twice() {
    let mut dnet = DNet::new(0);
    let results = dnet.process_raw_packet(data(0, 1, 0, 0, 0)).unwrap();
    assert_eq!(kinds(&results), vec!["alive", "packet"]);
    let results = dnet.process_raw_packet(data(0, 1, 0, 0, 0)).unwrap();
    assert_eq!(kinds(&results), vec!["alive"]);
    assert_eq!(dnet.last_seq_received(), 1);
}

#[test]
fn notify_on_loss() {
    let mut dnet = DNet::new(0);
    for seq in 1..=5 {
        assert_eq!(send_data(&mut dnet).send_seq, seq);
    }
    let ack = raw(
        &Peer { parity: 0, send_seq: 1, highest_ack: 5, packet_type: 2, ack_byte_count: 1, ack_mask: 0b11011 },
        &[],
    );
    let results = dnet.process_raw_packet(ack).unwrap();
    assert_eq!(
        kinds(&results),
        vec!["notify true", "established", "notify true", "notify false", "notify true", "notify true", "alive"]
    );
    assert_eq!(dnet.highest_acked_seq(), 5);
    assert!(dnet.connection_established());
    // an acknowledgement packet is not marked in the mask
    assert_eq!(dnet.ack_mask(), 0);
    assert_eq!(dnet.last_seq_received(), 1);
}

#[test]
fn window_back_pressure() {
    let mut dnet = DNet::new(0);
    let mut sent = 0;
    while !dnet.window_full() {
        send_data(&mut dnet);
        sent += 1;
    }
    assert_eq!(sent, 30);
    assert_eq!(dnet.last_send_seq(), 30);
}

#[test]
fn ping_triggers_ack() {
    let mut dnet = DNet::new(1);
    let ping = raw(
        &Peer { parity: 1, send_seq: 1, highest_ack: 0, packet_type: 1, ack_byte_count: 0, ack_mask: 0 },
        &[],
    );
    let mut results = dnet.process_raw_packet(ping).unwrap();
    assert_eq!(kinds(&results), vec!["send", "alive"]);
    assert_eq!(dnet.last_send_seq(), 0);
    assert_eq!(dnet.last_seq_received(), 1);
    match results.remove(0) {
        DNetResult::SendPacket(stream) => {
            let sent = parse(stream);
            assert_eq!(sent.parity, 1);
            assert_eq!(sent.packet_type, 2);
            assert_eq!(sent.send_seq, 0);
            // the answer is built before the ping's number is taken over
            assert_eq!(sent.highest_ack, 0);
            assert_eq!(sent.ack_byte_count, 0);
            assert_eq!(sent.ack_mask, 0);
        },
        _ => panic!("no answer"),
    }
}

#[test]
fn ping_and_ack_packets_take_no_sequence_number() {
    let mut dnet = DNet::new(3);
    let ping = parse(dnet.make_ping_packet());
    assert_eq!(ping.packet_type, 1);
    assert_eq!(ping.parity, 1);
    let ack = parse(dnet.make_ack_packet());
    assert_eq!(ack.packet_type, 2);
    assert_eq!(dnet.last_send_seq(), 0);
    assert_eq!(NetPacketType::InvalidPacketType.code(), 3);
}

#[test]
fn sequence_numbers_wrap_at_512() {
    let mut dnet = DNet::new(0);
    let mut seq = 0u32;
    while seq < 600 {
        seq += 31;
        dnet.process_raw_packet(data(0, seq % 512, 0, 0, 0)).unwrap();
        assert_eq!(dnet.last_seq_received(), seq);
    }
}

#[test]
fn acknowledgement_bytes_follow_what_is_unacknowledged() {
    let mut dnet = DNet::new(0);
    for seq in 1..=9 {
        dnet.process_raw_packet(data(0, seq, 0, 0, 0)).unwrap();
    }
    let sent = send_data(&mut dnet);
    assert_eq!(sent.highest_ack, 9);
    assert_eq!(sent.ack_byte_count, 2);
    assert_eq!(sent.ack_mask, 0x1FF);
    // the peer acknowledges our packet: it left when 9 had been received
    dnet.process_raw_packet(data(0, 10, 1, 1, 1)).unwrap();
    let sent = send_data(&mut dnet);
    assert_eq!(sent.ack_byte_count, 1);
    assert_eq!(sent.ack_mask, 0xFF);
}
