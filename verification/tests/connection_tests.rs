use dnet::bitstream::BitStream;
use dnet::connection::{Connection, Incoming};
use dnet::dnet::{DNetError, DNetResult};
use dnet::fields::{Endpoint, Ipv4Address};
use dnet::huffman::HuffmanProcessor;
use dnet::master::{IdSource, ServerQuery};
use dnet::packet::{Packet, PacketSource};

fn raw(parity: u32, send_seq: u32, highest_ack: u32, packet_type: u32) -> Vec<u8> {
    let mut stream = BitStream::new();
    stream.write_flag(true);
    stream.write_int(parity, 1);
    stream.write_int(send_seq, 9);
    stream.write_int(highest_ack, 9);
    stream.write_int(packet_type, 2);
    stream.write_int(0, 3);
    stream.write_u8(0x5A);
    stream.into_bytes()
}

#[test]
fn raw_datagrams_go_to_the_notify_layer() {
    let huffman = HuffmanProcessor::new();
    let mut connection = Connection::new(1);
    match connection.receive(&raw(1, 1, 0, 0), PacketSource::GameToGame, &huffman) {
        Incoming::Notified(results) => {
            assert_eq!(results.len(), 2);
            assert!(matches!(results[0], DNetResult::KeepAlive));
            assert!(matches!(results[1], DNetResult::HandlePacket(_)));
        },
        _ => panic!("not taken in"),
    }
    assert_eq!(connection.dnet().last_seq_received(), 1);
    match connection.receive(&raw(0, 2, 0, 0), PacketSource::GameToGame, &huffman) {
        Incoming::Refused(error) => assert_eq!(error, DNetError::BadSequence),
        _ => panic!("not refused"),
    }
    assert_eq!(connection.dnet().last_seq_received(), 1);
}

#[test]
fn other_datagrams_are_packets_or_nothing() {
    let huffman = HuffmanProcessor::new();
    let mut connection = Connection::new(1);
    match connection.receive(&[36, 1, 0, 0, 0, 12, 0, 0, 0], PacketSource::GameToGame, &huffman) {
        Incoming::Packet(packet) => {
            assert_eq!(packet, Packet::ConnectAccept { sequence: 1, protocol_version: 12 })
        },
        _ => panic!("no packet"),
    }
    assert!(matches!(connection.receive(&[44, 1], PacketSource::GameToGame, &huffman), Incoming::Nothing));
    assert!(matches!(connection.receive(&[], PacketSource::GameToGame, &huffman), Incoming::Nothing));
    // the kind without a layout is for the layer above, not for the notify layer
    match connection.receive(&[24, 1, 2], PacketSource::GameToGame, &huffman) {
        Incoming::Packet(packet) => assert_eq!(packet, Packet::Raw(vec![24, 1, 2])),
        _ => panic!("no packet"),
    }
    assert_eq!(connection.dnet().last_seq_received(), 0);
}

#[test]
fn data_packets_stop_at_the_window() {
    let mut connection = Connection::new(0);
    let mut sent = 0;
    while let Some(mut stream) = connection.begin_data_packet() {
        assert_eq!(stream.get_bit_pos(), 25);
        stream.write_u8(0xFF);
        assert_eq!(stream.into_bytes().len(), 5);
        sent += 1;
        assert!(sent <= 30);
    }
    assert_eq!(sent, 30);
    assert!(connection.window_full());
    assert!(connection.begin_data_packet().is_none());
    assert_eq!(connection.dnet().last_send_seq(), 30);
}

#[test]
fn data_packets_carry_their_payload_bit_by_bit() {
    let mut connection = Connection::new(1);
    let payload = [true, false, true, true, false, false, false, true, true];
    let bytes = connection.data_packet(&payload).unwrap();
    let mut reader = BitStream::from_buffer(bytes);
    assert_eq!(reader.read_flag(), Ok(true));
    assert_eq!(reader.read_int(1), Ok(1));
    assert_eq!(reader.read_int(9), Ok(1));
    assert_eq!(reader.read_int(9), Ok(0));
    assert_eq!(reader.read_int(2), Ok(0));
    assert_eq!(reader.read_int(3), Ok(0));
    for bit in payload {
        assert_eq!(reader.read_flag(), Ok(bit));
    }
    assert_eq!(reader.len(), 5);
    assert_eq!(connection.data_packet(&[]).unwrap().len(), 4);
    for _ in 2..30 {
        assert!(connection.data_packet(&[]).is_some());
    }
    assert_eq!(connection.data_packet(&payload), None);
    assert_eq!(connection.dnet().last_send_seq(), 30);
}

#[test]
fn answers_to_pings_go_out_in_order() {
    let huffman = HuffmanProcessor::new();
    let mut connection = Connection::new(1);
    let results = match connection.receive(&raw(1, 1, 0, 1), PacketSource::GameToGame, &huffman) {
        Incoming::Notified(results) => results,
        _ => panic!("not taken in"),
    };
    let (datagrams, kept) = Connection::outbound(results);
    assert_eq!(datagrams.len(), 1);
    assert_eq!(kept.len(), 1);
    assert!(matches!(kept[0], DNetResult::KeepAlive));
    // flag, parity 1, sequence 0, acknowledged 0, kind 2: an acknowledgement
    assert_eq!(datagrams[0], vec![0b0000_0011, 0, 0b0010_0000, 0]);
    assert_eq!(datagrams[0][0] & 1, 1);
    // a ping after that carries what has been received: sequence 1, one byte of mask
    let ping = connection.ping_datagram();
    assert_eq!(ping, vec![0b0000_0011, 0b0000_1000, 0b0101_0000, 0, 0]);
}

#[test]
fn ids_run_from_0x1000_to_0x1fff_and_again() {
    let mut ids = IdSource::new();
    assert_eq!(ids.next(), 0x1000);
    assert_eq!(ids.next(), 0x1001);
    for _ in 2..0x1000 {
        ids.next();
    }
    assert_eq!(ids.next(), 0x1000);
}

fn page(key: u16, session: u16, packet_index: u8, packet_total: u8, servers: Vec<Endpoint>) -> Packet {
    Packet::MasterServerListResponse { flags: 0, key, session, packet_index, packet_total, servers }
}

#[test]
fn server_query_collects_its_pages() {
    let a = Endpoint { address: Ipv4Address(1, 1, 1, 1), port: 1 };
    let b = Endpoint { address: Ipv4Address(2, 2, 2, 2), port: 2 };
    let c = Endpoint { address: Ipv4Address(3, 3, 3, 3), port: 3 };
    let mut query = ServerQuery::new(0x1000, 0x1001);
    assert_eq!(query.key(), 0x1000);
    assert_eq!(query.session(), 0x1001);
    assert!(!query.is_complete());
    // a page of another query, and a packet that is no page
    assert!(!query.absorb(&page(0x1000, 0x1002, 0, 1, vec![c])));
    assert!(!query.absorb(&Packet::Punch {}));
    assert!(!query.absorb(&page(0x1000, 0x1001, 0, 2, vec![a])));
    assert!(query.absorb(&page(0x1000, 0x1001, 1, 2, vec![b])));
    assert!(query.is_complete());
    // nothing is taken in after the last page
    assert!(query.absorb(&page(0x1000, 0x1001, 0, 2, vec![c])));
    assert_eq!(query.into_servers(), vec![a, b]);
    // an empty list is one page of none
    let mut query = ServerQuery::new(1, 2);
    assert!(query.absorb(&page(1, 2, 0, 0, vec![])));
    let mut query = ServerQuery::new(1, 2);
    assert!(query.absorb(&page(1, 2, 255, 255, vec![])));
}

#[test]
fn packets_with_long_texts_do_not_fit() {
    let huffman = HuffmanProcessor::new();
    let long: String = std::iter::repeat('x').take(256).collect();
    let short: String = std::iter::repeat('x').take(255).collect();
    let packet = Packet::Disconnect { sequence: 1, reason: long.clone() };
    assert!(!packet.is_fit());
    assert_eq!(packet.checked_into_bytes(&huffman), None);
    let packet = Packet::Disconnect { sequence: 1, reason: short.clone() };
    assert!(packet.is_fit());
    assert!(packet.checked_into_bytes(&huffman).is_some());
    assert!(Packet::MasterServerJoinInvite { invite_code: short.clone() }.is_fit());
    assert!(!Packet::MasterServerJoinInvite { invite_code: long.clone() }.is_fit());
    let types = Packet::MasterServerGameTypesResponse {
        flags: 0,
        key: 0,
        session: 0,
        game_types: vec![short.clone(), long.clone()],
        mission_types: vec![],
    };
    assert!(!types.is_fit());
    let inside = Packet::MasterServerGamePingResponse {
        flags: 0,
        key: 0,
        session: 0,
        address: Endpoint { address: Ipv4Address(0, 0, 0, 0), port: 0 },
        packet: Box::new(Packet::Disconnect { sequence: 1, reason: long }),
    };
    assert!(!inside.is_fit());
    assert!(Packet::Raw(vec![1; 5000]).is_fit());
}
