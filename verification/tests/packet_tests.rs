use dnet::fields::{Endpoint, Ipv4Address};
use dnet::huffman::HuffmanProcessor;
use dnet::packet::{Packet, PacketSource};
use dnet::tags;

fn endpoint(a: u8, b: u8, c: u8, d: u8, port: u16) -> Endpoint {
    Endpoint { address: Ipv4Address(a, b, c, d), port }
}

fn text(value: &str) -> String {
    value.to_string()
}

fn samples() -> Vec<(Packet, PacketSource)> {
    let here = endpoint(192, 168, 1, 20, 28000);
    let there = endpoint(10, 0, 0, 1, 65535);
    let any = PacketSource::GameToGame;
    vec![
        (Packet::Raw(vec![0x01, 0xFF, 0x00, 0x7F]), any),
        (Packet::Raw(vec![0xFF]), PacketSource::MasterToRelay),
        (Packet::MasterServerGameTypesRequest { flags: 1, key: 0x1234, session: 0x5678 }, any),
        (
            Packet::MasterServerGameTypesResponse {
                flags: 0,
                key: 1,
                session: 2,
                game_types: vec![text("CTF"), text("Deathmatch"), text("")],
                mission_types: vec![text("any")],
            },
            any,
        ),
        (
            Packet::MasterServerListRequest {
                flags: 0,
                key: 0xFFFF,
                session: 0,
                packet_index: 255,
                game_type: text("Test"),
                mission_type: text("any"),
                min_players: 0,
                max_players: 255,
                region_mask: 2,
                version: 0,
                filter_flag: 64,
                max_bots: 0,
                min_cpu: 0,
                buddy_list: vec![1, 0xFFFF_FFFF, 7],
            },
            any,
        ),
        (
            Packet::MasterServerListRequest {
                flags: 0,
                key: 3,
                session: 4,
                packet_index: 1,
                game_type: text(""),
                mission_type: text(""),
                min_players: 1,
                max_players: 8,
                region_mask: 0xFFFF_FFFF,
                version: 1042,
                filter_flag: tags::CURRENT_VERSION | tags::LINUX,
                max_bots: 4,
                min_cpu: 1000,
                buddy_list: vec![],
            },
            any,
        ),
        (
            Packet::MasterServerListResponse {
                flags: 0,
                key: 9,
                session: 8,
                packet_index: 0,
                packet_total: 2,
                servers: vec![here, there],
            },
            any,
        ),
        (Packet::GameMasterInfoRequest { flags: 0, key: 123, session: 0 }, any),
        (
            Packet::GameMasterInfoResponse {
                flags: 0,
                key: 123,
                session: 0,
                game_type: text("Marble"),
                mission_type: text("Custom"),
                max_players: 8,
                region_mask: 2,
                version: 1000,
                filter_flag: 2,
                bot_count: 0,
                cpu_speed: 3200,
                player_count: 3,
                guid_list: vec![11, 22, 33],
            },
            any,
        ),
        (Packet::GamePingRequest { flags: 2, key: 5, session: 6 }, any),
        (
            Packet::GamePingResponse {
                flags: 0,
                key: 5,
                session: 6,
                version_string: text("VER1"),
                current_protocol_version: 12,
                min_required_protocol_version: 9,
                version: 1042,
                name: text("A server of marbles"),
            },
            any,
        ),
        (
            Packet::GamePingResponse {
                flags: tags::NO_STRING_COMPRESS,
                key: 5,
                session: 6,
                version_string: text("VER1"),
                current_protocol_version: 12,
                min_required_protocol_version: 9,
                version: 1042,
                name: text("A server of marbles"),
            },
            any,
        ),
        (Packet::GameInfoRequest { flags: 0, key: 123, session: 0 }, any),
        (
            Packet::GameInfoResponse {
                flags: 0,
                key: 5,
                session: 7,
                game_type: text("CTF"),
                mission_type: text("any"),
                mission_name: text("Map"),
                filter_flag: 1,
                player_count: 3,
                max_players: 8,
                bot_count: 0,
                cpu_speed: 2400,
                server_info: text("hello world"),
                server_info_query: text("q=1"),
            },
            any,
        ),
        (Packet::GameHeartbeat { flags: 0, key: 0, session: 0 }, any),
        (Packet::ConnectChallengeRequest { sequence: 0x0102_0304 }, any),
        (Packet::ConnectChallengeReject { sequence: 1, reason: text("CHR_PROTOCOL") }, any),
        (Packet::ConnectChallengeResponse { sequence: 1, address_digest: [1, 2, 3, 0xFFFF_FFFF] }, any),
        (
            Packet::ConnectRequest {
                sequence: 0xDEAD_BEEF,
                address_digest: [1, 2, 3, 4],
                class_name: text("GameConnection"),
                net_class_group: tags::NET_CLASS_GROUP_GAME,
                class_crc: 0xFFFF_FFFF,
                game_string: text("Test"),
                current_protocol_version: 12,
                min_required_protocol_version: 9,
                join_password: text(""),
                connect_argv: vec![text("a"), text("bc")],
            },
            any,
        ),
        (Packet::ConnectReject { sequence: 2, reason: text("CR_SERVERFULL") }, any),
        (Packet::ConnectAccept { sequence: 2, protocol_version: 12 }, any),
        (Packet::Disconnect { sequence: 7, reason: text("bye") }, any),
        (Packet::Punch {}, any),
        (Packet::ArrangedConnectRequest { sequence: 3, debug_object_sizes: true }, any),
        (Packet::ArrangedConnectRequest { sequence: 3, debug_object_sizes: false }, any),
        (Packet::MasterServerRequestArrangedConnection { address: here }, any),
        (
            Packet::MasterServerClientRequestedArrangedConnection {
                flags: 0,
                key: 1,
                session: 2,
                client_id: 512,
                possible_addresses: vec![here, there, here],
            },
            any,
        ),
        (Packet::MasterServerAcceptArrangedConnection { client_id: 512 }, any),
        (
            Packet::MasterServerArrangedConnectionAccepted {
                flags: 0,
                key: 1,
                session: 2,
                possible_addresses: vec![],
            },
            any,
        ),
        (Packet::MasterServerRejectArrangedConnection { reason: 200 }, any),
        (Packet::MasterServerArrangedConnectionRejected { flags: 0, key: 1, session: 2, reason: 3 }, any),
        (Packet::MasterServerGamePingRequest { address: here, flags: 0, key: 1, session: 2 }, any),
        (
            Packet::MasterServerGamePingResponse {
                flags: 0,
                key: 1,
                session: 2,
                address: here,
                packet: Box::new(Packet::GamePingResponse {
                    flags: 0,
                    key: 1,
                    session: 2,
                    version_string: text("VER1"),
                    current_protocol_version: 12,
                    min_required_protocol_version: 9,
                    version: 1,
                    name: text("inner"),
                }),
            },
            any,
        ),
        (Packet::MasterServerGameInfoRequest { address: there, flags: 0, key: 123, session: 0 }, any),
        (
            Packet::MasterServerGameInfoResponse {
                flags: 0,
                key: 1,
                session: 2,
                address: there,
                packet: Box::new(Packet::MasterServerGamePingResponse {
                    flags: 9,
                    key: 8,
                    session: 7,
                    address: here,
                    packet: Box::new(Packet::ArrangedConnectRequest { sequence: 1, debug_object_sizes: true }),
                }),
            },
            any,
        ),
        (
            Packet::MasterServerGameInfoResponse {
                flags: 0,
                key: 1,
                session: 2,
                address: there,
                packet: Box::new(Packet::Raw(vec![])),
            },
            any,
        ),
        (
            Packet::MasterServerGameInfoResponse {
                flags: 0,
                key: 1,
                session: 2,
                address: there,
                packet: Box::new(Packet::Raw(vec![0x81, 1, 2, 3])),
            },
            any,
        ),
        (Packet::MasterServerRelayRequestToMaster { address: here }, PacketSource::GameToMaster),
        (
            Packet::MasterServerRelayRequestToRelay {
                relay_id: 77,
                server_addr: here,
                client_addr: Ipv4Address(1, 2, 3, 4),
            },
            PacketSource::MasterToRelay,
        ),
        (
            Packet::MasterServerRelayResponseFromRelay { relay_id: 77, relay_port: 40000 },
            PacketSource::MasterToRelay,
        ),
        (
            Packet::MasterServerRelayResponseFromMaster {
                flags: 0,
                key: 1,
                session: 2,
                is_host: true,
                address: there,
            },
            PacketSource::GameToMaster,
        ),
        (Packet::MasterServerRelayDelete {}, any),
        (Packet::MasterServerRelayReady { flags: 0, key: 1, session: 2 }, any),
        (Packet::MasterServerJoinInvite { invite_code: text("ABCDEF") }, any),
        (Packet::MasterServerJoinInviteResponse { flags: 0, key: 1, session: 2, address: Some(here) }, any),
        (Packet::MasterServerJoinInviteResponse { flags: 0, key: 1, session: 2, address: None }, any),
        (Packet::MasterServerRelayHeartbeat {}, any),
    ]
}

#[test]
fn every_kind_round_trips() {
    let huffman = HuffmanProcessor::new();
    for (packet, source) in samples() {
        let bytes = packet.clone().into_bytes(&huffman);
        assert_eq!(Packet::try_from_bytes(&bytes, source, &huffman), Some(packet));
    }
}

#[test]
fn random_payloads_round_trip() {
    let huffman = HuffmanProcessor::new();
    let mut seed = 0x2545_F491u32;
    let mut next = move || {
        seed ^= seed << 13;
        seed ^= seed >> 17;
        seed ^= seed << 5;
        seed
    };
    for _ in 0..200 {
        let length = (next() % 40) as usize;
        let name: String = (0..length).map(|_| char::from((next() % 256) as u8)).collect();
        let reason: String = (0..(next() % 256) as usize).map(|_| char::from(b'a' + (next() % 26) as u8)).collect();
        let servers: Vec<Endpoint> = (0..(next() % 300) as usize)
            .map(|_| endpoint(next() as u8, next() as u8, next() as u8, next() as u8, next() as u16))
            .collect();
        let flags = next() as u8;
        let packets = vec![
            Packet::GamePingResponse {
                flags,
                key: next() as u16,
                session: next() as u16,
                version_string: name.clone(),
                current_protocol_version: next(),
                min_required_protocol_version: next(),
                version: next(),
                name: reason.chars().take(255).collect(),
            },
            Packet::Disconnect { sequence: next(), reason: reason.chars().take(255).collect() },
            Packet::MasterServerListResponse {
                flags,
                key: next() as u16,
                session: next() as u16,
                packet_index: next() as u8,
                packet_total: next() as u8,
                servers,
            },
            Packet::ConnectChallengeResponse { sequence: next(), address_digest: [next(), next(), next(), next()] },
        ];
        for packet in packets {
            let bytes = packet.clone().into_bytes(&huffman);
            assert_eq!(Packet::try_from_bytes(&bytes, PacketSource::GameToGame, &huffman), Some(packet));
        }
    }
}

#[test]
fn layouts_are_bit_exact() {
    let huffman = HuffmanProcessor::new();
    assert_eq!(
        Packet::ConnectChallengeRequest { sequence: 0x0102_0304 }.into_bytes(&huffman),
        vec![26, 4, 3, 2, 1]
    );
    // the key is the low half of the 32-bit number, the session the high half
    assert_eq!(
        Packet::GamePingRequest { flags: 1, key: 0x1234, session: 0x5678 }.into_bytes(&huffman),
        vec![14, 1, 0x34, 0x12, 0x78, 0x56]
    );
    assert_eq!(Packet::Punch {}.into_bytes(&huffman), vec![40]);
    assert_eq!(Packet::MasterServerRelayDelete {}.into_bytes(&huffman), vec![70]);
    assert_eq!(Packet::MasterServerRelayHeartbeat {}.into_bytes(&huffman), vec![78]);
    // four octets in network order, the port low byte first
    assert_eq!(
        Packet::MasterServerRequestArrangedConnection { address: endpoint(192, 168, 1, 20, 0x6D60) }
            .into_bytes(&huffman),
        vec![46, 192, 168, 1, 20, 0x60, 0x6D]
    );
    // the address comes first in the requests through the master server
    assert_eq!(
        Packet::MasterServerGamePingRequest {
            address: endpoint(1, 2, 3, 4, 5),
            flags: 9,
            key: 1,
            session: 2
        }
        .into_bytes(&huffman),
        vec![58, 1, 2, 3, 4, 5, 0, 9, 1, 0, 2, 0]
    );
    // a flag at the end keeps its byte
    assert_eq!(
        Packet::ArrangedConnectRequest { sequence: 1, debug_object_sizes: true }.into_bytes(&huffman),
        vec![42, 1, 0, 0, 0, 1]
    );
    assert_eq!(Packet::Disconnect { sequence: 7, reason: text("bye") }.into_bytes(&huffman), vec![
        38, 7, 0, 0, 0, 7, 118, 149, 7
    ]);
    assert_eq!(Packet::MasterServerRejectArrangedConnection { reason: 9 }.into_bytes(&huffman), vec![54, 9]);
    assert_eq!(
        Packet::MasterServerJoinInviteResponse { flags: 0, key: 1, session: 2, address: None }
            .into_bytes(&huffman),
        vec![76, 0, 1, 0, 2, 0, 0]
    );
    assert_eq!(
        Packet::MasterServerJoinInviteResponse {
            flags: 0,
            key: 1,
            session: 2,
            address: Some(endpoint(9, 8, 7, 6, 0x0102))
        }
        .into_bytes(&huffman),
        vec![76, 0, 1, 0, 2, 0, 1, 9, 8, 7, 6, 2, 1]
    );
}

#[test]
fn queries_are_bit_exact() {
    let huffman = HuffmanProcessor::new();
    let here = endpoint(192, 168, 1, 20, 28000);
    let there = endpoint(10, 0, 0, 1, 65535);
    assert_eq!(
        Packet::MasterServerListRequest {
            flags: 3,
            key: 0x1234,
            session: 0x5678,
            packet_index: 1,
            game_type: text("Test"),
            mission_type: text("any"),
            min_players: 0,
            max_players: 255,
            region_mask: 2,
            version: 1042,
            filter_flag: 128 | 2,
            max_bots: 4,
            min_cpu: 1000,
            buddy_list: vec![7, 0xFFFF_FFFF],
        }
        .into_bytes(&huffman),
        vec![
            6, 3, 52, 18, 120, 86, 1, 4, 84, 101, 115, 116, 3, 97, 110, 121, 0, 255, 2, 0, 0, 0, 18, 4, 0,
            0, 130, 4, 232, 3, 2, 7, 0, 0, 0, 255, 255, 255, 255
        ]
    );
    assert_eq!(
        Packet::GameMasterInfoResponse {
            flags: 0,
            key: 123,
            session: 0,
            game_type: text("Marble"),
            mission_type: text("Custom"),
            max_players: 8,
            region_mask: 2,
            version: 1000,
            filter_flag: 2,
            bot_count: 0,
            cpu_speed: 3200,
            player_count: 3,
            guid_list: vec![11, 22, 33],
        }
        .into_bytes(&huffman),
        vec![
            12, 0, 123, 0, 0, 0, 6, 77, 97, 114, 98, 108, 101, 6, 67, 117, 115, 116, 111, 109, 8, 2, 0, 0,
            0, 232, 3, 0, 0, 2, 0, 128, 12, 0, 0, 3, 11, 0, 0, 0, 22, 0, 0, 0, 33, 0, 0, 0
        ]
    );
    assert_eq!(
        Packet::MasterServerListResponse {
            flags: 0,
            key: 9,
            session: 8,
            packet_index: 0,
            packet_total: 2,
            servers: vec![here, there],
        }
        .into_bytes(&huffman),
        vec![8, 0, 9, 0, 8, 0, 0, 2, 2, 0, 192, 168, 1, 20, 96, 109, 10, 0, 0, 1, 255, 255]
    );
    assert_eq!(
        Packet::GamePingResponse {
            flags: 0,
            key: 5,
            session: 6,
            version_string: text("VER1"),
            current_protocol_version: 12,
            min_required_protocol_version: 9,
            version: 1042,
            name: text("A server of marbles"),
        }
        .into_bytes(&huffman),
        vec![
            16, 0, 5, 0, 6, 0, 8, 172, 138, 164, 98, 24, 0, 0, 0, 18, 0, 0, 0, 36, 8, 0, 0, 78, 116, 94,
            123, 147, 222, 78, 183, 67, 105, 187, 241, 13
        ]
    );
    assert_eq!(
        Packet::MasterServerGameTypesResponse {
            flags: 0,
            key: 1,
            session: 2,
            game_types: vec![text("CTF"), text("")],
            mission_types: vec![text("any")],
        }
        .into_bytes(&huffman),
        vec![4, 0, 1, 0, 2, 0, 2, 3, 67, 84, 70, 0, 1, 3, 97, 110, 121]
    );
    assert_eq!(
        Packet::ConnectChallengeReject { sequence: 1, reason: text("CHR_PROTOCOL") }.into_bytes(&huffman),
        vec![28, 1, 0, 0, 0, 24, 134, 144, 164, 190, 160, 164, 158, 168, 158, 134, 158, 152, 0]
    );
}

#[test]
fn arranged_and_relay_packets_are_bit_exact() {
    let huffman = HuffmanProcessor::new();
    let here = endpoint(192, 168, 1, 20, 28000);
    let there = endpoint(10, 0, 0, 1, 65535);
    assert_eq!(
        Packet::MasterServerClientRequestedArrangedConnection {
            flags: 0,
            key: 1,
            session: 2,
            client_id: 512,
            possible_addresses: vec![here, there],
        }
        .into_bytes(&huffman),
        vec![48, 0, 1, 0, 2, 0, 0, 2, 2, 192, 168, 1, 20, 96, 109, 10, 0, 0, 1, 255, 255]
    );
    assert_eq!(
        Packet::MasterServerRelayResponseFromMaster {
            flags: 1,
            key: 2,
            session: 3,
            is_host: true,
            address: endpoint(1, 2, 3, 4, 5),
        }
        .into_bytes(&huffman),
        vec![68, 1, 2, 0, 3, 0, 3, 4, 6, 8, 10, 0, 0]
    );
    assert_eq!(
        Packet::MasterServerGamePingResponse {
            flags: 0,
            key: 1,
            session: 2,
            address: endpoint(1, 2, 3, 4, 5),
            packet: Box::new(Packet::GamePingRequest { flags: 1, key: 0x1234, session: 0x5678 }),
        }
        .into_bytes(&huffman),
        vec![60, 0, 1, 0, 2, 0, 1, 2, 3, 4, 5, 0, 14, 1, 52, 18, 120, 86]
    );
}

#[test]
fn connect_request_is_bit_exact() {
    let huffman = HuffmanProcessor::new();
    let packet = Packet::ConnectRequest {
        sequence: 0xDEAD_BEEF,
        address_digest: [1, 2, 3, 4],
        class_name: text("GameConnection"),
        net_class_group: 0,
        class_crc: 0xFFFF_FFFF,
        game_string: text("Test"),
        current_protocol_version: 12,
        min_required_protocol_version: 9,
        join_password: text(""),
        connect_argv: vec![text("a"), text("bc")],
    };
    assert_eq!(packet.into_bytes(&huffman), vec![
        32, 239, 190, 173, 222, 1, 0, 0, 0, 2, 0, 0, 0, 3, 0, 0, 0, 4, 0, 0, 0, 29, 98, 19, 253, 106, 74,
        244, 24, 88, 9, 0, 0, 0, 224, 255, 255, 255, 63, 193, 250, 27, 48, 0, 0, 0, 36, 0, 0, 0, 0, 16, 0,
        0, 0, 24, 144, 5, 118, 24
    ]);
}

fn game_info(flags: u8) -> Packet {
    Packet::GameInfoResponse {
        flags,
        key: 5,
        session: 7,
        game_type: text("CTF"),
        mission_type: text("any"),
        mission_name: text("Map"),
        filter_flag: 1,
        player_count: 3,
        max_players: 8,
        bot_count: 0,
        cpu_speed: 2400,
        server_info: text("hello world"),
        server_info_query: text("q=1"),
    }
}

#[test]
fn texts_follow_the_no_string_compress_flag() {
    let huffman = HuffmanProcessor::new();
    assert_eq!(game_info(0).into_bytes(&huffman), vec![
        20, 0, 5, 0, 7, 0, 6, 134, 168, 140, 14, 36, 85, 14, 184, 178, 14, 24, 64, 0, 0, 75, 184, 48, 255,
        24, 122, 133, 218, 8, 3, 0, 113, 61, 49
    ]);
    assert_eq!(game_info(tags::NO_STRING_COMPRESS).into_bytes(&huffman), vec![
        20, 2, 5, 0, 7, 0, 3, 67, 84, 70, 3, 97, 110, 121, 3, 77, 97, 112, 1, 3, 8, 0, 96, 9, 11, 104, 101,
        108, 108, 111, 32, 119, 111, 114, 108, 100, 3, 0, 113, 61, 49
    ]);
}

#[test]
fn odd_first_byte_is_raw() {
    let huffman = HuffmanProcessor::new();
    for first in [1u8, 3, 27, 255] {
        let bytes = vec![first, 10, 20];
        for source in [PacketSource::GameToGame, PacketSource::GameToMaster, PacketSource::MasterToRelay] {
            assert_eq!(Packet::try_from_bytes(&bytes, source, &huffman), Some(Packet::Raw(bytes.clone())));
        }
        assert_eq!(Packet::Raw(bytes.clone()).into_bytes(&huffman), bytes);
    }
}

#[test]
fn the_kind_without_a_layout_passes_through() {
    let huffman = HuffmanProcessor::new();
    let bytes = vec![tags::GGC_PACKET, 1, 2, 3];
    assert_eq!(
        Packet::try_from_bytes(&bytes, PacketSource::GameToGame, &huffman),
        Some(Packet::Raw(bytes.clone()))
    );
    assert_eq!(Packet::GGCPacket {}.into_bytes(&huffman), vec![tags::GGC_PACKET]);
}

#[test]
fn unknown_tags_and_short_datagrams_read_as_nothing() {
    let huffman = HuffmanProcessor::new();
    let any = PacketSource::GameToGame;
    assert_eq!(Packet::try_from_bytes(&[], any, &huffman), None);
    for tag in [0u8, 44, 80, 82, 254] {
        assert_eq!(Packet::try_from_bytes(&[tag, 0, 0, 0, 0, 0, 0, 0, 0], any, &huffman), None);
    }
    assert_eq!(Packet::try_from_bytes(&[26, 1, 2, 3], any, &huffman), None);
    assert_eq!(Packet::try_from_bytes(&[14, 1, 2, 3, 4], any, &huffman), None);
    assert_eq!(Packet::try_from_bytes(&[60, 0, 1, 0, 2, 0, 1, 2, 3, 4], any, &huffman), None);
    for (packet, source) in samples() {
        let bytes = packet.clone().into_bytes(&huffman);
        if bytes.len() > 1 && bytes[0] % 2 == 0 && bytes[0] != 12 {
            let cut = &bytes[..bytes.len() - 1];
            let read = Packet::try_from_bytes(cut, source, &huffman);
            assert_ne!(read, Some(packet));
        }
    }
}

#[test]
fn trailing_bytes_are_ignored() {
    let huffman = HuffmanProcessor::new();
    assert_eq!(
        Packet::try_from_bytes(&[36, 1, 0, 0, 0, 12, 0, 0, 0, 99, 98], PacketSource::GameToGame, &huffman),
        Some(Packet::ConnectAccept { sequence: 1, protocol_version: 12 })
    );
}

#[test]
fn relay_tags_depend_on_the_source() {
    let huffman = HuffmanProcessor::new();
    let request = Packet::MasterServerRelayRequestToRelay {
        relay_id: 77,
        server_addr: endpoint(1, 2, 3, 4, 5),
        client_addr: Ipv4Address(6, 7, 8, 9),
    };
    let bytes = request.clone().into_bytes(&huffman);
    assert_eq!(bytes, vec![66, 77, 0, 0, 0, 1, 2, 3, 4, 5, 0, 6, 7, 8, 9]);
    assert_eq!(Packet::try_from_bytes(&bytes, PacketSource::MasterToRelay, &huffman), Some(request));
    assert_eq!(Packet::try_from_bytes(&bytes, PacketSource::GameToGame, &huffman), None);
    assert_eq!(
        Packet::try_from_bytes(&bytes, PacketSource::GameToMaster, &huffman),
        Some(Packet::MasterServerRelayRequestToMaster { address: endpoint(77, 0, 0, 0, 0x0201) })
    );

    let response = Packet::MasterServerRelayResponseFromMaster {
        flags: 1,
        key: 2,
        session: 3,
        is_host: true,
        address: endpoint(1, 2, 3, 4, 5),
    };
    let bytes = response.clone().into_bytes(&huffman);
    assert_eq!(Packet::try_from_bytes(&bytes, PacketSource::GameToMaster, &huffman), Some(response));
    assert_eq!(Packet::try_from_bytes(&bytes, PacketSource::GameToGame, &huffman), None);
    assert_eq!(
        Packet::try_from_bytes(&bytes, PacketSource::MasterToRelay, &huffman),
        Some(Packet::MasterServerRelayResponseFromRelay { relay_id: 0x0300_0201, relay_port: 0x0300 })
    );
}

#[test]
fn version_goes_out_only_where_the_filter_asks_for_it() {
    let huffman = HuffmanProcessor::new();
    let request = |filter_flag: u8| Packet::MasterServerListRequest {
        flags: 0,
        key: 1,
        session: 2,
        packet_index: 0,
        game_type: text("g"),
        mission_type: text("m"),
        min_players: 0,
        max_players: 8,
        region_mask: 1,
        version: 0x0A0B_0C0D,
        filter_flag,
        max_bots: 0,
        min_cpu: 0,
        buddy_list: vec![],
    };
    let without = request(0).into_bytes(&huffman);
    assert_eq!(&without[17..21], &[0, 0, 0, 0]);
    let with = request(tags::CURRENT_VERSION).into_bytes(&huffman);
    assert_eq!(&with[17..21], &[0x0D, 0x0C, 0x0B, 0x0A]);
    match Packet::try_from_bytes(&without, PacketSource::GameToGame, &huffman) {
        Some(Packet::MasterServerListRequest { version, .. }) => assert_eq!(version, 0),
        other => panic!("read {:?}", other),
    }
}

#[test]
fn missing_player_identifiers_read_as_zero() {
    let huffman = HuffmanProcessor::new();
    let response = |guid_list: Vec<u32>| Packet::GameMasterInfoResponse {
        flags: 0,
        key: 1,
        session: 2,
        game_type: text("g"),
        mission_type: text("m"),
        max_players: 8,
        region_mask: 1,
        version: 2,
        filter_flag: 0,
        bot_count: 0,
        cpu_speed: 3,
        player_count: 3,
        guid_list,
    };
    // the writer fills up with zeros
    let bytes = response(vec![7]).into_bytes(&huffman);
    assert_eq!(bytes.len(), 9 + 1 + 4 + 4 + 1 + 1 + 4 + 1 + 12 + 1);
    assert_eq!(Packet::try_from_bytes(&bytes, PacketSource::GameToGame, &huffman), Some(response(vec![7, 0, 0])));
    // the reader tolerates a datagram that ends before the identifiers do
    let cut = &bytes[..bytes.len() - 6];
    assert_eq!(Packet::try_from_bytes(cut, PacketSource::GameToGame, &huffman), Some(response(vec![7, 0, 0])));
}

#[test]
fn a_packet_inside_that_reads_as_nothing_is_kept_raw() {
    let huffman = HuffmanProcessor::new();
    let mut bytes = Packet::MasterServerGamePingResponse {
        flags: 0,
        key: 1,
        session: 2,
        address: endpoint(1, 2, 3, 4, 5),
        packet: Box::new(Packet::Raw(vec![])),
    }
    .into_bytes(&huffman);
    assert_eq!(bytes, vec![60, 0, 1, 0, 2, 0, 1, 2, 3, 4, 5, 0]);
    bytes.extend_from_slice(&[44, 1, 2]);
    match Packet::try_from_bytes(&bytes, PacketSource::GameToGame, &huffman) {
        Some(Packet::MasterServerGamePingResponse { packet, .. }) => {
            assert_eq!(*packet, Packet::Raw(vec![44, 1, 2]))
        },
        other => panic!("read {:?}", other),
    }
    bytes.truncate(12);
    bytes.extend_from_slice(&[36, 1, 0, 0, 0, 12, 0, 0, 0]);
    match Packet::try_from_bytes(&bytes, PacketSource::GameToGame, &huffman) {
        Some(Packet::MasterServerGamePingResponse { packet, .. }) => {
            assert_eq!(*packet, Packet::ConnectAccept { sequence: 1, protocol_version: 12 })
        },
        other => panic!("read {:?}", other),
    }
}

#[test]
fn long_lists_go_out_behind_the_low_bits_of_their_length() {
    let huffman = HuffmanProcessor::new();
    let bytes = Packet::MasterServerListRequest {
        flags: 0,
        key: 1,
        session: 2,
        packet_index: 0,
        game_type: text(""),
        mission_type: text(""),
        min_players: 0,
        max_players: 0,
        region_mask: 0,
        version: 0,
        filter_flag: 0,
        max_bots: 0,
        min_cpu: 0,
        buddy_list: vec![5; 257],
    }
    .into_bytes(&huffman);
    assert_eq!(bytes[23], 1);
    assert_eq!(bytes.len(), 24 + 4 * 257);
}

#[test]
fn stream_reading_starts_at_the_cursor() {
    let huffman = HuffmanProcessor::new();
    let mut stream = dnet::bitstream::BitStream::from_buffer(vec![0xAA, 36, 1, 0, 0, 0, 12, 0, 0, 0]);
    stream.set_bit_pos(8);
    assert_eq!(
        Packet::try_from_stream(&mut stream, PacketSource::GameToGame, &huffman),
        Ok(Some(Packet::ConnectAccept { sequence: 1, protocol_version: 12 }))
    );
    let mut stream = dnet::bitstream::BitStream::from_buffer(vec![0xAA, 37, 1]);
    stream.set_bit_pos(8);
    assert_eq!(
        Packet::try_from_stream(&mut stream, PacketSource::GameToGame, &huffman),
        Ok(Some(Packet::Raw(vec![0xAA, 37, 1])))
    );
    let mut stream = dnet::bitstream::BitStream::from_buffer(vec![36, 1]);
    assert_eq!(
        Packet::try_from_stream(&mut stream, PacketSource::GameToGame, &huffman),
        Err(dnet::bitstream::Truncated)
    );
    let mut stream = dnet::bitstream::BitStream::from_buffer(vec![44, 1]);
    assert_eq!(Packet::try_from_stream(&mut stream, PacketSource::GameToGame, &huffman), Ok(None));
}
