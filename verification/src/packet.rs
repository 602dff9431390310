//! The packet codec: a datagram is a tag byte and, behind it, the fields of the
//! kind of packet that the tag names. A datagram whose first byte is odd is a
//! raw packet and belongs to the notify protocol.

use vstd::prelude::*;
use vstd::arithmetic::power2::{lemma2_to64, pow2};
use crate::bits::{bytes_bits, int_bits, pad_to_byte};
use crate::bitstream::{BitStream, StreamView, Truncated, flag_bits, take_flag};
use crate::fields::{
    Endpoint, Ipv4Address, address_bits, counted_bits, ctext_bits, ctext_encoder, ctext_taker,
    digest_bits, endpoint_bits, endpoint_encoder, endpoint_taker, fks_bits, found_bits,
    guids_bits, list_bits, long_ctext_bits, maybe_text_bits, read_address,
    read_address_and_port, read_cstring_list, read_digest, read_endpoint_list,
    read_flags_key_session, read_found, read_guids, read_maybe_compressed_string,
    read_string_list, read_u32_list, take_address, take_counted, take_ctext, take_digest,
    take_endpoint, take_fks, take_found, take_guids, take_long_ctext, take_maybe_text,
    take_text, take_u16, take_u32, take_u8, text_bits, text_encoder, text_taker, texts_of,
    u32_bits, u32_taker, write_address, write_address_and_port, write_cstring_list,
    write_digest, write_endpoint_list, write_flags_key_session, write_found, write_guids,
    write_maybe_compressed_string, write_string_list, write_u32_list,
};
use crate::huffman::HuffmanProcessor;
use crate::tags;
use crate::text::{all_shorter, text_len};

verus! {

/// The way that a datagram took, which decides how two of the tags are read.
#[derive(Debug, Copy, Clone, PartialEq, Eq, Structural)]
pub enum PacketSource {
    GameToGame,
    GameToMaster,
    MasterToRelay,
}

/// A datagram.
#[derive(Debug, PartialEq, Eq)]
#[allow(inconsistent_fields)]
pub enum Packet {
    /// A datagram that is handed on as it came: one that begins with an odd
    /// byte, and one of a kind without a known layout.
    Raw(Vec<u8>),
    /// Asks the master server for the game and mission types that it knows.
    MasterServerGameTypesRequest {
        flags: u8,
        key: u16,
        session: u16,
    },
    /// The game and mission types that the master server knows.
    MasterServerGameTypesResponse {
        flags: u8,
        key: u16,
        session: u16,
        game_types: Vec<String>,
        mission_types: Vec<String>,
    },
    /// Asks the master server for the servers that pass a filter.
    MasterServerListRequest {
        flags: u8,
        key: u16,
        session: u16,
        packet_index: u8,
        game_type: String,
        mission_type: String,
        min_players: u8,
        max_players: u8,
        region_mask: u32,
        version: u32,
        filter_flag: u8,
        max_bots: u8,
        min_cpu: u16,
        buddy_list: Vec<u32>,
    },
    /// One page of the list of servers.
    MasterServerListResponse {
        flags: u8,
        key: u16,
        session: u16,
        packet_index: u8,
        packet_total: u8,
        servers: Vec<Endpoint>,
    },
    /// Asks a game server for what it tells the master server.
    GameMasterInfoRequest {
        flags: u8,
        key: u16,
        session: u16,
    },
    /// What a game server tells the master server.
    GameMasterInfoResponse {
        flags: u8,
        key: u16,
        session: u16,
        game_type: String,
        mission_type: String,
        max_players: u8,
        region_mask: u32,
        version: u32,
        filter_flag: u8,
        bot_count: u8,
        cpu_speed: u32,
        player_count: u8,
        guid_list: Vec<u32>,
    },
    /// Pings a game server.
    GamePingRequest {
        flags: u8,
        key: u16,
        session: u16,
    },
    /// The answer to a ping.
    GamePingResponse {
        flags: u8,
        key: u16,
        session: u16,
        version_string: String,
        current_protocol_version: u32,
        min_required_protocol_version: u32,
        version: u32,
        name: String,
    },
    /// Asks a game server about its game.
    GameInfoRequest {
        flags: u8,
        key: u16,
        session: u16,
    },
    /// What a game server says about its game.
    GameInfoResponse {
        flags: u8,
        key: u16,
        session: u16,
        game_type: String,
        mission_type: String,
        mission_name: String,
        filter_flag: u8,
        player_count: u8,
        max_players: u8,
        bot_count: u8,
        cpu_speed: u16,
        server_info: String,
        server_info_query: String,
    },
    /// A game server tells the master server that it is there.
    GameHeartbeat {
        flags: u8,
        key: u16,
        session: u16,
    },
    /// A packet of a kind whose layout is not known.
    GGCPacket {},
    /// Opens a connection: asks for a challenge.
    ConnectChallengeRequest {
        sequence: u32,
    },
    /// Refuses the request for a challenge.
    ConnectChallengeReject {
        sequence: u32,
        reason: String,
    },
    /// The challenge.
    ConnectChallengeResponse {
        sequence: u32,
        address_digest: [u32; 4],
    },
    /// Asks for the connection, with the challenge met.
    ConnectRequest {
        sequence: u32,
        address_digest: [u32; 4],
        class_name: String,
        net_class_group: u32,
        class_crc: u32,
        game_string: String,
        current_protocol_version: u32,
        min_required_protocol_version: u32,
        join_password: String,
        connect_argv: Vec<String>,
    },
    /// Refuses the connection.
    ConnectReject {
        sequence: u32,
        reason: String,
    },
    /// Accepts the connection.
    ConnectAccept {
        sequence: u32,
        protocol_version: u32,
    },
    /// Ends the connection.
    Disconnect {
        sequence: u32,
        reason: String,
    },
    /// Opens a hole in a firewall.
    Punch {},
    /// Asks for a connection that the master server has arranged.
    ArrangedConnectRequest {
        sequence: u32,
        debug_object_sizes: bool,
    },
    /// Asks the master server to arrange a connection to a server.
    MasterServerRequestArrangedConnection {
        address: Endpoint,
    },
    /// Tells a server that a client asks for an arranged connection.
    MasterServerClientRequestedArrangedConnection {
        flags: u8,
        key: u16,
        session: u16,
        client_id: u16,
        possible_addresses: Vec<Endpoint>,
    },
    /// A server accepts an arranged connection.
    MasterServerAcceptArrangedConnection {
        client_id: u16,
    },
    /// Tells a client that the server has accepted.
    MasterServerArrangedConnectionAccepted {
        flags: u8,
        key: u16,
        session: u16,
        possible_addresses: Vec<Endpoint>,
    },
    /// A server refuses an arranged connection; the byte goes through as it is.
    MasterServerRejectArrangedConnection {
        reason: u8,
    },
    /// Tells a client that the server has refused; the byte goes through as it is.
    MasterServerArrangedConnectionRejected {
        flags: u8,
        key: u16,
        session: u16,
        reason: u8,
    },
    /// Asks the master server to ping a game server; the address comes first.
    MasterServerGamePingRequest {
        address: Endpoint,
        flags: u8,
        key: u16,
        session: u16,
    },
    /// The answer of a game server to a ping, passed on by the master server.
    MasterServerGamePingResponse {
        flags: u8,
        key: u16,
        session: u16,
        address: Endpoint,
        packet: Box<Packet>,
    },
    /// Asks the master server to ask a game server about its game; the address comes first.
    MasterServerGameInfoRequest {
        address: Endpoint,
        flags: u8,
        key: u16,
        session: u16,
    },
    /// What a game server says about its game, passed on by the master server.
    MasterServerGameInfoResponse {
        flags: u8,
        key: u16,
        session: u16,
        address: Endpoint,
        packet: Box<Packet>,
    },
    /// A client asks the master server for a relay to a server.
    MasterServerRelayRequestToMaster {
        address: Endpoint,
    },
    /// The master server asks a relay to serve a client and a server.
    MasterServerRelayRequestToRelay {
        relay_id: u32,
        server_addr: Endpoint,
        client_addr: Ipv4Address,
    },
    /// A relay tells the master server the port that it serves on.
    MasterServerRelayResponseFromRelay {
        relay_id: u32,
        relay_port: u16,
    },
    /// The master server tells a client or a server where the relay is.
    MasterServerRelayResponseFromMaster {
        flags: u8,
        key: u16,
        session: u16,
        is_host: bool,
        address: Endpoint,
    },
    /// Ends a relay.
    MasterServerRelayDelete {},
    /// The relay is ready.
    MasterServerRelayReady {
        flags: u8,
        key: u16,
        session: u16,
    },
    /// Asks the master server for the server behind an invite code.
    MasterServerJoinInvite {
        invite_code: String,
    },
    /// The server behind an invite code, where there is one.
    MasterServerJoinInviteResponse {
        flags: u8,
        key: u16,
        session: u16,
        address: Option<Endpoint>,
    },
    /// A relay tells the master server that it is there.
    MasterServerRelayHeartbeat {},
}

/// A datagram as its contracts see it.
#[allow(inconsistent_fields)]
pub enum PacketView {
    Raw(Seq<u8>),
    MasterServerGameTypesRequest {
        flags: u8,
        key: u16,
        session: u16,
    },
    MasterServerGameTypesResponse {
        flags: u8,
        key: u16,
        session: u16,
        game_types: Seq<Seq<char>>,
        mission_types: Seq<Seq<char>>,
    },
    MasterServerListRequest {
        flags: u8,
        key: u16,
        session: u16,
        packet_index: u8,
        game_type: Seq<char>,
        mission_type: Seq<char>,
        min_players: u8,
        max_players: u8,
        region_mask: u32,
        version: u32,
        filter_flag: u8,
        max_bots: u8,
        min_cpu: u16,
        buddy_list: Seq<u32>,
    },
    MasterServerListResponse {
        flags: u8,
        key: u16,
        session: u16,
        packet_index: u8,
        packet_total: u8,
        servers: Seq<Endpoint>,
    },
    GameMasterInfoRequest {
        flags: u8,
        key: u16,
        session: u16,
    },
    GameMasterInfoResponse {
        flags: u8,
        key: u16,
        session: u16,
        game_type: Seq<char>,
        mission_type: Seq<char>,
        max_players: u8,
        region_mask: u32,
        version: u32,
        filter_flag: u8,
        bot_count: u8,
        cpu_speed: u32,
        player_count: u8,
        guid_list: Seq<u32>,
    },
    GamePingRequest {
        flags: u8,
        key: u16,
        session: u16,
    },
    GamePingResponse {
        flags: u8,
        key: u16,
        session: u16,
        version_string: Seq<char>,
        current_protocol_version: u32,
        min_required_protocol_version: u32,
        version: u32,
        name: Seq<char>,
    },
    GameInfoRequest {
        flags: u8,
        key: u16,
        session: u16,
    },
    GameInfoResponse {
        flags: u8,
        key: u16,
        session: u16,
        game_type: Seq<char>,
        mission_type: Seq<char>,
        mission_name: Seq<char>,
        filter_flag: u8,
        player_count: u8,
        max_players: u8,
        bot_count: u8,
        cpu_speed: u16,
        server_info: Seq<char>,
        server_info_query: Seq<char>,
    },
    GameHeartbeat {
        flags: u8,
        key: u16,
        session: u16,
    },
    GGCPacket {},
    ConnectChallengeRequest {
        sequence: u32,
    },
    ConnectChallengeReject {
        sequence: u32,
        reason: Seq<char>,
    },
    ConnectChallengeResponse {
        sequence: u32,
        address_digest: Seq<u32>,
    },
    ConnectRequest {
        sequence: u32,
        address_digest: Seq<u32>,
        class_name: Seq<char>,
        net_class_group: u32,
        class_crc: u32,
        game_string: Seq<char>,
        current_protocol_version: u32,
        min_required_protocol_version: u32,
        join_password: Seq<char>,
        connect_argv: Seq<Seq<char>>,
    },
    ConnectReject {
        sequence: u32,
        reason: Seq<char>,
    },
    ConnectAccept {
        sequence: u32,
        protocol_version: u32,
    },
    Disconnect {
        sequence: u32,
        reason: Seq<char>,
    },
    Punch {},
    ArrangedConnectRequest {
        sequence: u32,
        debug_object_sizes: bool,
    },
    MasterServerRequestArrangedConnection {
        address: Endpoint,
    },
    MasterServerClientRequestedArrangedConnection {
        flags: u8,
        key: u16,
        session: u16,
        client_id: u16,
        possible_addresses: Seq<Endpoint>,
    },
    MasterServerAcceptArrangedConnection {
        client_id: u16,
    },
    MasterServerArrangedConnectionAccepted {
        flags: u8,
        key: u16,
        session: u16,
        possible_addresses: Seq<Endpoint>,
    },
    MasterServerRejectArrangedConnection {
        reason: u8,
    },
    MasterServerArrangedConnectionRejected {
        flags: u8,
        key: u16,
        session: u16,
        reason: u8,
    },
    MasterServerGamePingRequest {
        address: Endpoint,
        flags: u8,
        key: u16,
        session: u16,
    },
    MasterServerGamePingResponse {
        flags: u8,
        key: u16,
        session: u16,
        address: Endpoint,
        packet: Box<PacketView>,
    },
    MasterServerGameInfoRequest {
        address: Endpoint,
        flags: u8,
        key: u16,
        session: u16,
    },
    MasterServerGameInfoResponse {
        flags: u8,
        key: u16,
        session: u16,
        address: Endpoint,
        packet: Box<PacketView>,
    },
    MasterServerRelayRequestToMaster {
        address: Endpoint,
    },
    MasterServerRelayRequestToRelay {
        relay_id: u32,
        server_addr: Endpoint,
        client_addr: Ipv4Address,
    },
    MasterServerRelayResponseFromRelay {
        relay_id: u32,
        relay_port: u16,
    },
    MasterServerRelayResponseFromMaster {
        flags: u8,
        key: u16,
        session: u16,
        is_host: bool,
        address: Endpoint,
    },
    MasterServerRelayDelete {},
    MasterServerRelayReady {
        flags: u8,
        key: u16,
        session: u16,
    },
    MasterServerJoinInvite {
        invite_code: Seq<char>,
    },
    MasterServerJoinInviteResponse {
        flags: u8,
        key: u16,
        session: u16,
        address: Option<Endpoint>,
    },
    MasterServerRelayHeartbeat {},
}

/// The datagram that the contracts see in a packet.
pub open spec fn packet_view(packet: Packet) -> PacketView
    decreases packet,
{
    match packet {
        Packet::Raw(bytes) => PacketView::Raw(bytes@),
        Packet::GGCPacket {  } => PacketView::GGCPacket {  },
        Packet::MasterServerGameTypesRequest { flags, key, session } => {
            PacketView::MasterServerGameTypesRequest {
                flags,
                key,
                session,
            }
        },
        Packet::MasterServerGameTypesResponse {
            flags,
            key,
            session,
            game_types,
            mission_types,
        } => {
            PacketView::MasterServerGameTypesResponse {
                flags,
                key,
                session,
                game_types: texts_of(game_types@),
                mission_types: texts_of(mission_types@),
            }
        },
        Packet::MasterServerListRequest {
            flags,
            key,
            session,
            packet_index,
            game_type,
            mission_type,
            min_players,
            max_players,
            region_mask,
            version,
            filter_flag,
            max_bots,
            min_cpu,
            buddy_list,
        } => {
            PacketView::MasterServerListRequest {
                flags,
                key,
                session,
                packet_index,
                game_type: game_type@,
                mission_type: mission_type@,
                min_players,
                max_players,
                region_mask,
                version,
                filter_flag,
                max_bots,
                min_cpu,
                buddy_list: buddy_list@,
            }
        },
        Packet::MasterServerListResponse {
            flags,
            key,
            session,
            packet_index,
            packet_total,
            servers,
        } => {
            PacketView::MasterServerListResponse {
                flags,
                key,
                session,
                packet_index,
                packet_total,
                servers: servers@,
            }
        },
        Packet::GameMasterInfoRequest { flags, key, session } => {
            PacketView::GameMasterInfoRequest {
                flags,
                key,
                session,
            }
        },
        Packet::GameMasterInfoResponse {
            flags,
            key,
            session,
            game_type,
            mission_type,
            max_players,
            region_mask,
            version,
            filter_flag,
            bot_count,
            cpu_speed,
            player_count,
            guid_list,
        } => {
            PacketView::GameMasterInfoResponse {
                flags,
                key,
                session,
                game_type: game_type@,
                mission_type: mission_type@,
                max_players,
                region_mask,
                version,
                filter_flag,
                bot_count,
                cpu_speed,
                player_count,
                guid_list: guid_list@,
            }
        },
        Packet::GamePingRequest { flags, key, session } => {
            PacketView::GamePingRequest {
                flags,
                key,
                session,
            }
        },
        Packet::GamePingResponse {
            flags,
            key,
            session,
            version_string,
            current_protocol_version,
            min_required_protocol_version,
            version,
            name,
        } => {
            PacketView::GamePingResponse {
                flags,
                key,
                session,
                version_string: version_string@,
                current_protocol_version,
                min_required_protocol_version,
                version,
                name: name@,
            }
        },
        Packet::GameInfoRequest { flags, key, session } => {
            PacketView::GameInfoRequest {
                flags,
                key,
                session,
            }
        },
        Packet::GameInfoResponse {
            flags,
            key,
            session,
            game_type,
            mission_type,
            mission_name,
            filter_flag,
            player_count,
            max_players,
            bot_count,
            cpu_speed,
            server_info,
            server_info_query,
        } => {
            PacketView::GameInfoResponse {
                flags,
                key,
                session,
                game_type: game_type@,
                mission_type: mission_type@,
                mission_name: mission_name@,
                filter_flag,
                player_count,
                max_players,
                bot_count,
                cpu_speed,
                server_info: server_info@,
                server_info_query: server_info_query@,
            }
        },
        Packet::GameHeartbeat { flags, key, session } => {
            PacketView::GameHeartbeat {
                flags,
                key,
                session,
            }
        },
        Packet::ConnectChallengeRequest { sequence } => {
            PacketView::ConnectChallengeRequest {
                sequence,
            }
        },
        Packet::ConnectChallengeReject { sequence, reason } => {
            PacketView::ConnectChallengeReject {
                sequence,
                reason: reason@,
            }
        },
        Packet::ConnectChallengeResponse { sequence, address_digest } => {
            PacketView::ConnectChallengeResponse {
                sequence,
                address_digest: address_digest@,
            }
        },
        Packet::ConnectRequest {
            sequence,
            address_digest,
            class_name,
            net_class_group,
            class_crc,
            game_string,
            current_protocol_version,
            min_required_protocol_version,
            join_password,
            connect_argv,
        } => {
            PacketView::ConnectRequest {
                sequence,
                address_digest: address_digest@,
                class_name: class_name@,
                net_class_group,
                class_crc,
                game_string: game_string@,
                current_protocol_version,
                min_required_protocol_version,
                join_password: join_password@,
                connect_argv: texts_of(connect_argv@),
            }
        },
        Packet::ConnectReject { sequence, reason } => {
            PacketView::ConnectReject {
                sequence,
                reason: reason@,
            }
        },
        Packet::ConnectAccept { sequence, protocol_version } => {
            PacketView::ConnectAccept {
                sequence,
                protocol_version,
            }
        },
        Packet::Disconnect { sequence, reason } => {
            PacketView::Disconnect {
                sequence,
                reason: reason@,
            }
        },
        Packet::Punch {  } => PacketView::Punch {  },
        Packet::ArrangedConnectRequest { sequence, debug_object_sizes } => {
            PacketView::ArrangedConnectRequest {
                sequence,
                debug_object_sizes,
            }
        },
        Packet::MasterServerRequestArrangedConnection { address } => {
            PacketView::MasterServerRequestArrangedConnection {
                address,
            }
        },
        Packet::MasterServerClientRequestedArrangedConnection {
            flags,
            key,
            session,
            client_id,
            possible_addresses,
        } => {
            PacketView::MasterServerClientRequestedArrangedConnection {
                flags,
                key,
                session,
                client_id,
                possible_addresses: possible_addresses@,
            }
        },
        Packet::MasterServerAcceptArrangedConnection { client_id } => {
            PacketView::MasterServerAcceptArrangedConnection {
                client_id,
            }
        },
        Packet::MasterServerArrangedConnectionAccepted {
            flags,
            key,
            session,
            possible_addresses,
        } => {
            PacketView::MasterServerArrangedConnectionAccepted {
                flags,
                key,
                session,
                possible_addresses: possible_addresses@,
            }
        },
        Packet::MasterServerRejectArrangedConnection { reason } => {
            PacketView::MasterServerRejectArrangedConnection {
                reason,
            }
        },
        Packet::MasterServerArrangedConnectionRejected { flags, key, session, reason } => {
            PacketView::MasterServerArrangedConnectionRejected {
                flags,
                key,
                session,
                reason,
            }
        },
        Packet::MasterServerGamePingRequest { address, flags, key, session } => {
            PacketView::MasterServerGamePingRequest {
                address,
                flags,
                key,
                session,
            }
        },
        Packet::MasterServerGamePingResponse { flags, key, session, address, packet } => {
            PacketView::MasterServerGamePingResponse {
                flags,
                key,
                session,
                address,
                packet: Box::new(packet_view(*packet)),
            }
        },
        Packet::MasterServerGameInfoRequest { address, flags, key, session } => {
            PacketView::MasterServerGameInfoRequest {
                address,
                flags,
                key,
                session,
            }
        },
        Packet::MasterServerGameInfoResponse { flags, key, session, address, packet } => {
            PacketView::MasterServerGameInfoResponse {
                flags,
                key,
                session,
                address,
                packet: Box::new(packet_view(*packet)),
            }
        },
        Packet::MasterServerRelayRequestToMaster { address } => {
            PacketView::MasterServerRelayRequestToMaster {
                address,
            }
        },
        Packet::MasterServerRelayRequestToRelay { relay_id, server_addr, client_addr } => {
            PacketView::MasterServerRelayRequestToRelay {
                relay_id,
                server_addr,
                client_addr,
            }
        },
        Packet::MasterServerRelayResponseFromRelay { relay_id, relay_port } => {
            PacketView::MasterServerRelayResponseFromRelay {
                relay_id,
                relay_port,
            }
        },
        Packet::MasterServerRelayResponseFromMaster { flags, key, session, is_host, address } => {
            PacketView::MasterServerRelayResponseFromMaster {
                flags,
                key,
                session,
                is_host,
                address,
            }
        },
        Packet::MasterServerRelayDelete {  } => PacketView::MasterServerRelayDelete {  },
        Packet::MasterServerRelayReady { flags, key, session } => {
            PacketView::MasterServerRelayReady {
                flags,
                key,
                session,
            }
        },
        Packet::MasterServerJoinInvite { invite_code } => {
            PacketView::MasterServerJoinInvite {
                invite_code: invite_code@,
            }
        },
        Packet::MasterServerJoinInviteResponse { flags, key, session, address } => {
            PacketView::MasterServerJoinInviteResponse {
                flags,
                key,
                session,
                address,
            }
        },
        Packet::MasterServerRelayHeartbeat {  } => PacketView::MasterServerRelayHeartbeat {  },
    }
}

impl View for Packet {
    type V = PacketView;

    open spec fn view(&self) -> PacketView {
        packet_view(*self)
    }
}

impl Clone for Packet {
    fn clone(&self) -> (copy: Self)
        ensures
            copy@ == self@,
        decreases self,
    {
        match self {
            Packet::Raw(bytes) => {
                let copy = bytes.clone();
                proof {
                    assert(copy@ =~= bytes@);
                }
                Packet::Raw(copy)
            },
            Packet::GGCPacket {  } => Packet::GGCPacket {  },
            Packet::MasterServerGameTypesRequest { flags, key, session } => {
                Packet::MasterServerGameTypesRequest {
                    flags: *flags,
                    key: *key,
                    session: *session,
                }
            },
            Packet::MasterServerGameTypesResponse {
                flags,
                key,
                session,
                game_types,
                mission_types,
            } => {
                let game_types_copy = game_types.clone();
                let mission_types_copy = mission_types.clone();
                proof {
                    assert(texts_of(game_types_copy@) =~= texts_of(game_types@));
                    assert(texts_of(mission_types_copy@) =~= texts_of(mission_types@));
                }
                Packet::MasterServerGameTypesResponse {
                    flags: *flags,
                    key: *key,
                    session: *session,
                    game_types: game_types_copy,
                    mission_types: mission_types_copy,
                }
            },
            Packet::MasterServerListRequest {
                flags,
                key,
                session,
                packet_index,
                game_type,
                mission_type,
                min_players,
                max_players,
                region_mask,
                version,
                filter_flag,
                max_bots,
                min_cpu,
                buddy_list,
            } => {
                let game_type_copy = game_type.clone();
                let mission_type_copy = mission_type.clone();
                let buddy_list_copy = buddy_list.clone();
                proof {
                    assert(buddy_list_copy@ =~= buddy_list@);
                }
                Packet::MasterServerListRequest {
                    flags: *flags,
                    key: *key,
                    session: *session,
                    packet_index: *packet_index,
                    game_type: game_type_copy,
                    mission_type: mission_type_copy,
                    min_players: *min_players,
                    max_players: *max_players,
                    region_mask: *region_mask,
                    version: *version,
                    filter_flag: *filter_flag,
                    max_bots: *max_bots,
                    min_cpu: *min_cpu,
                    buddy_list: buddy_list_copy,
                }
            },
            Packet::MasterServerListResponse {
                flags,
                key,
                session,
                packet_index,
                packet_total,
                servers,
            } => {
                let servers_copy = servers.clone();
                proof {
                    assert(servers_copy@ =~= servers@);
                }
                Packet::MasterServerListResponse {
                    flags: *flags,
                    key: *key,
                    session: *session,
                    packet_index: *packet_index,
                    packet_total: *packet_total,
                    servers: servers_copy,
                }
            },
            Packet::GameMasterInfoRequest { flags, key, session } => {
                Packet::GameMasterInfoRequest {
                    flags: *flags,
                    key: *key,
                    session: *session,
                }
            },
            Packet::GameMasterInfoResponse {
                flags,
                key,
                session,
                game_type,
                mission_type,
                max_players,
                region_mask,
                version,
                filter_flag,
                bot_count,
                cpu_speed,
                player_count,
                guid_list,
            } => {
                let game_type_copy = game_type.clone();
                let mission_type_copy = mission_type.clone();
                let guid_list_copy = guid_list.clone();
                proof {
                    assert(guid_list_copy@ =~= guid_list@);
                }
                Packet::GameMasterInfoResponse {
                    flags: *flags,
                    key: *key,
                    session: *session,
                    game_type: game_type_copy,
                    mission_type: mission_type_copy,
                    max_players: *max_players,
                    region_mask: *region_mask,
                    version: *version,
                    filter_flag: *filter_flag,
                    bot_count: *bot_count,
                    cpu_speed: *cpu_speed,
                    player_count: *player_count,
                    guid_list: guid_list_copy,
                }
            },
            Packet::GamePingRequest { flags, key, session } => {
                Packet::GamePingRequest {
                    flags: *flags,
                    key: *key,
                    session: *session,
                }
            },
            Packet::GamePingResponse {
                flags,
                key,
                session,
                version_string,
                current_protocol_version,
                min_required_protocol_version,
                version,
                name,
            } => {
                let version_string_copy = version_string.clone();
                let name_copy = name.clone();
                Packet::GamePingResponse {
                    flags: *flags,
                    key: *key,
                    session: *session,
                    version_string: version_string_copy,
                    current_protocol_version: *current_protocol_version,
                    min_required_protocol_version: *min_required_protocol_version,
                    version: *version,
                    name: name_copy,
                }
            },
            Packet::GameInfoRequest { flags, key, session } => {
                Packet::GameInfoRequest {
                    flags: *flags,
                    key: *key,
                    session: *session,
                }
            },
            Packet::GameInfoResponse {
                flags,
                key,
                session,
                game_type,
                mission_type,
                mission_name,
                filter_flag,
                player_count,
                max_players,
                bot_count,
                cpu_speed,
                server_info,
                server_info_query,
            } => {
                let game_type_copy = game_type.clone();
                let mission_type_copy = mission_type.clone();
                let mission_name_copy = mission_name.clone();
                let server_info_copy = server_info.clone();
                let server_info_query_copy = server_info_query.clone();
                Packet::GameInfoResponse {
                    flags: *flags,
                    key: *key,
                    session: *session,
                    game_type: game_type_copy,
                    mission_type: mission_type_copy,
                    mission_name: mission_name_copy,
                    filter_flag: *filter_flag,
                    player_count: *player_count,
                    max_players: *max_players,
                    bot_count: *bot_count,
                    cpu_speed: *cpu_speed,
                    server_info: server_info_copy,
                    server_info_query: server_info_query_copy,
                }
            },
            Packet::GameHeartbeat { flags, key, session } => {
                Packet::GameHeartbeat {
                    flags: *flags,
                    key: *key,
                    session: *session,
                }
            },
            Packet::ConnectChallengeRequest { sequence } => {
                Packet::ConnectChallengeRequest {
                    sequence: *sequence,
                }
            },
            Packet::ConnectChallengeReject { sequence, reason } => {
                let reason_copy = reason.clone();
                Packet::ConnectChallengeReject {
                    sequence: *sequence,
                    reason: reason_copy,
                }
            },
            Packet::ConnectChallengeResponse { sequence, address_digest } => {
                Packet::ConnectChallengeResponse {
                    sequence: *sequence,
                    address_digest: *address_digest,
                }
            },
            Packet::ConnectRequest {
                sequence,
                address_digest,
                class_name,
                net_class_group,
                class_crc,
                game_string,
                current_protocol_version,
                min_required_protocol_version,
                join_password,
                connect_argv,
            } => {
                let class_name_copy = class_name.clone();
                let game_string_copy = game_string.clone();
                let join_password_copy = join_password.clone();
                let connect_argv_copy = connect_argv.clone();
                proof {
                    assert(texts_of(connect_argv_copy@) =~= texts_of(connect_argv@));
                }
                Packet::ConnectRequest {
                    sequence: *sequence,
                    address_digest: *address_digest,
                    class_name: class_name_copy,
                    net_class_group: *net_class_group,
                    class_crc: *class_crc,
                    game_string: game_string_copy,
                    current_protocol_version: *current_protocol_version,
                    min_required_protocol_version: *min_required_protocol_version,
                    join_password: join_password_copy,
                    connect_argv: connect_argv_copy,
                }
            },
            Packet::ConnectReject { sequence, reason } => {
                let reason_copy = reason.clone();
                Packet::ConnectReject {
                    sequence: *sequence,
                    reason: reason_copy,
                }
            },
            Packet::ConnectAccept { sequence, protocol_version } => {
                Packet::ConnectAccept {
                    sequence: *sequence,
                    protocol_version: *protocol_version,
                }
            },
            Packet::Disconnect { sequence, reason } => {
                let reason_copy = reason.clone();
                Packet::Disconnect {
                    sequence: *sequence,
                    reason: reason_copy,
                }
            },
            Packet::Punch {  } => Packet::Punch {  },
            Packet::ArrangedConnectRequest { sequence, debug_object_sizes } => {
                Packet::ArrangedConnectRequest {
                    sequence: *sequence,
                    debug_object_sizes: *debug_object_sizes,
                }
            },
            Packet::MasterServerRequestArrangedConnection { address } => {
                Packet::MasterServerRequestArrangedConnection {
                    address: *address,
                }
            },
            Packet::MasterServerClientRequestedArrangedConnection {
                flags,
                key,
                session,
                client_id,
                possible_addresses,
            } => {
                let possible_addresses_copy = possible_addresses.clone();
                proof {
                    assert(possible_addresses_copy@ =~= possible_addresses@);
                }
                Packet::MasterServerClientRequestedArrangedConnection {
                    flags: *flags,
                    key: *key,
                    session: *session,
                    client_id: *client_id,
                    possible_addresses: possible_addresses_copy,
                }
            },
            Packet::MasterServerAcceptArrangedConnection { client_id } => {
                Packet::MasterServerAcceptArrangedConnection {
                    client_id: *client_id,
                }
            },
            Packet::MasterServerArrangedConnectionAccepted {
                flags,
                key,
                session,
                possible_addresses,
            } => {
                let possible_addresses_copy = possible_addresses.clone();
                proof {
                    assert(possible_addresses_copy@ =~= possible_addresses@);
                }
                Packet::MasterServerArrangedConnectionAccepted {
                    flags: *flags,
                    key: *key,
                    session: *session,
                    possible_addresses: possible_addresses_copy,
                }
            },
            Packet::MasterServerRejectArrangedConnection { reason } => {
                Packet::MasterServerRejectArrangedConnection {
                    reason: *reason,
                }
            },
            Packet::MasterServerArrangedConnectionRejected { flags, key, session, reason } => {
                Packet::MasterServerArrangedConnectionRejected {
                    flags: *flags,
                    key: *key,
                    session: *session,
                    reason: *reason,
                }
            },
            Packet::MasterServerGamePingRequest { address, flags, key, session } => {
                Packet::MasterServerGamePingRequest {
                    address: *address,
                    flags: *flags,
                    key: *key,
                    session: *session,
                }
            },
            Packet::MasterServerGamePingResponse { flags, key, session, address, packet } => {
                let packet_copy = (&**packet).clone();
                Packet::MasterServerGamePingResponse {
                    flags: *flags,
                    key: *key,
                    session: *session,
                    address: *address,
                    packet: Box::new(packet_copy),
                }
            },
            Packet::MasterServerGameInfoRequest { address, flags, key, session } => {
                Packet::MasterServerGameInfoRequest {
                    address: *address,
                    flags: *flags,
                    key: *key,
                    session: *session,
                }
            },
            Packet::MasterServerGameInfoResponse { flags, key, session, address, packet } => {
                let packet_copy = (&**packet).clone();
                Packet::MasterServerGameInfoResponse {
                    flags: *flags,
                    key: *key,
                    session: *session,
                    address: *address,
                    packet: Box::new(packet_copy),
                }
            },
            Packet::MasterServerRelayRequestToMaster { address } => {
                Packet::MasterServerRelayRequestToMaster {
                    address: *address,
                }
            },
            Packet::MasterServerRelayRequestToRelay { relay_id, server_addr, client_addr } => {
                Packet::MasterServerRelayRequestToRelay {
                    relay_id: *relay_id,
                    server_addr: *server_addr,
                    client_addr: *client_addr,
                }
            },
            Packet::MasterServerRelayResponseFromRelay { relay_id, relay_port } => {
                Packet::MasterServerRelayResponseFromRelay {
                    relay_id: *relay_id,
                    relay_port: *relay_port,
                }
            },
            Packet::MasterServerRelayResponseFromMaster {
                flags,
                key,
                session,
                is_host,
                address,
            } => {
                Packet::MasterServerRelayResponseFromMaster {
                    flags: *flags,
                    key: *key,
                    session: *session,
                    is_host: *is_host,
                    address: *address,
                }
            },
            Packet::MasterServerRelayDelete {  } => Packet::MasterServerRelayDelete {  },
            Packet::MasterServerRelayReady { flags, key, session } => {
                Packet::MasterServerRelayReady {
                    flags: *flags,
                    key: *key,
                    session: *session,
                }
            },
            Packet::MasterServerJoinInvite { invite_code } => {
                let invite_code_copy = invite_code.clone();
                Packet::MasterServerJoinInvite {
                    invite_code: invite_code_copy,
                }
            },
            Packet::MasterServerJoinInviteResponse { flags, key, session, address } => {
                Packet::MasterServerJoinInviteResponse {
                    flags: *flags,
                    key: *key,
                    session: *session,
                    address: *address,
                }
            },
            Packet::MasterServerRelayHeartbeat {  } => Packet::MasterServerRelayHeartbeat {  },
        }
    }
}

/// The fields of `MasterServerGameTypesRequest` on the wire.
#[verifier::opaque]
pub open spec fn master_server_game_types_request_bits(
    flags: u8,
    key: u16,
    session: u16,
) -> Seq<bool> {
    fks_bits(flags, key, session)
}

/// Reads the fields of `MasterServerGameTypesRequest`.
#[verifier::opaque]
pub open spec fn take_master_server_game_types_request(bits: Seq<bool>) -> Option<PacketView> {
    match take_fks(bits) {
        None => None,
        Some(((flags, key, session), bits)) =>
            Some(PacketView::MasterServerGameTypesRequest { flags, key, session })
    }
}

/// The fields of `MasterServerGameTypesResponse` on the wire.
#[verifier::opaque]
pub open spec fn master_server_game_types_response_bits(
    flags: u8,
    key: u16,
    session: u16,
    game_types: Seq<Seq<char>>,
    mission_types: Seq<Seq<char>>,
) -> Seq<bool> {
    fks_bits(flags, key, session) + (
        counted_bits(game_types, 8, ctext_encoder()) + (
            counted_bits(mission_types, 8, ctext_encoder())
        )
    )
}

/// Reads the fields of `MasterServerGameTypesResponse`.
#[verifier::opaque]
pub open spec fn take_master_server_game_types_response(bits: Seq<bool>) -> Option<PacketView> {
    match take_fks(bits) {
        None => None,
        Some(((flags, key, session), bits)) =>
            match take_counted(bits, 8, ctext_taker()) {
                None => None,
                Some((game_types, bits)) =>
                    match take_counted(bits, 8, ctext_taker()) {
                        None => None,
                        Some((mission_types, bits)) =>
                            Some(
                                PacketView::MasterServerGameTypesResponse {
                                    flags,
                                    key,
                                    session,
                                    game_types,
                                    mission_types,
                                }
                            )
                    }
            }
    }
}

/// The fields of `MasterServerListRequest` from `filter_flag` on.
#[verifier::opaque]
pub open spec fn master_server_list_request_tail2_bits(
    filter_flag: u8,
    max_bots: u8,
    min_cpu: u16,
    buddy_list: Seq<u32>,
) -> Seq<bool> {
    int_bits(filter_flag as nat, 8) + (
        int_bits(max_bots as nat, 8) + (
            int_bits(min_cpu as nat, 16) + (counted_bits(buddy_list, 8, u32_bits()))
        )
    )
}

/// Reads the fields of `MasterServerListRequest` from `filter_flag` on.
#[verifier::opaque]
pub open spec fn take_master_server_list_request_tail2(
    bits: Seq<bool>,
    flags: u8,
    key: u16,
    session: u16,
    packet_index: u8,
    game_type: Seq<char>,
    mission_type: Seq<char>,
    min_players: u8,
    max_players: u8,
    region_mask: u32,
    version: u32,
) -> Option<PacketView> {
    match take_u8(bits) {
        None => None,
        Some((filter_flag, bits)) =>
            match take_u8(bits) {
                None => None,
                Some((max_bots, bits)) =>
                    match take_u16(bits) {
                        None => None,
                        Some((min_cpu, bits)) =>
                            match take_counted(bits, 8, u32_taker()) {
                                None => None,
                                Some((buddy_list, bits)) =>
                                    Some(
                                        PacketView::MasterServerListRequest {
                                            flags,
                                            key,
                                            session,
                                            packet_index,
                                            game_type,
                                            mission_type,
                                            min_players,
                                            max_players,
                                            region_mask,
                                            version,
                                            filter_flag,
                                            max_bots,
                                            min_cpu,
                                            buddy_list,
                                        }
                                    )
                            }
                    }
            }
    }
}

/// The fields of `MasterServerListRequest` from `min_players` on.
#[verifier::opaque]
pub open spec fn master_server_list_request_tail_bits(
    min_players: u8,
    max_players: u8,
    region_mask: u32,
    version: u32,
    filter_flag: u8,
    max_bots: u8,
    min_cpu: u16,
    buddy_list: Seq<u32>,
) -> Seq<bool> {
    int_bits(min_players as nat, 8) + (
        int_bits(max_players as nat, 8) + (
            int_bits(region_mask as nat, 32) + (
                int_bits((if filter_flag & 128 == 128 { version } else { 0u32 }) as nat, 32) + (
                    master_server_list_request_tail2_bits(
                        filter_flag,
                        max_bots,
                        min_cpu,
                        buddy_list,
                    )
                )
            )
        )
    )
}

/// Reads the fields of `MasterServerListRequest` from `min_players` on.
#[verifier::opaque]
pub open spec fn take_master_server_list_request_tail(
    bits: Seq<bool>,
    flags: u8,
    key: u16,
    session: u16,
    packet_index: u8,
    game_type: Seq<char>,
    mission_type: Seq<char>,
) -> Option<PacketView> {
    match take_u8(bits) {
        None => None,
        Some((min_players, bits)) =>
            match take_u8(bits) {
                None => None,
                Some((max_players, bits)) =>
                    match take_u32(bits) {
                        None => None,
                        Some((region_mask, bits)) =>
                            match take_u32(bits) {
                                None => None,
                                Some((version, bits)) =>
                                    take_master_server_list_request_tail2(
                                        bits,
                                        flags,
                                        key,
                                        session,
                                        packet_index,
                                        game_type,
                                        mission_type,
                                        min_players,
                                        max_players,
                                        region_mask,
                                        version,
                                    )
                            }
                    }
            }
    }
}

/// The fields of `MasterServerListRequest` on the wire.
#[verifier::opaque]
pub open spec fn master_server_list_request_bits(
    flags: u8,
    key: u16,
    session: u16,
    packet_index: u8,
    game_type: Seq<char>,
    mission_type: Seq<char>,
    min_players: u8,
    max_players: u8,
    region_mask: u32,
    version: u32,
    filter_flag: u8,
    max_bots: u8,
    min_cpu: u16,
    buddy_list: Seq<u32>,
) -> Seq<bool> {
    fks_bits(flags, key, session) + (
        int_bits(packet_index as nat, 8) + (
            ctext_bits(game_type) + (
                ctext_bits(mission_type) + (
                    master_server_list_request_tail_bits(
                        min_players,
                        max_players,
                        region_mask,
                        version,
                        filter_flag,
                        max_bots,
                        min_cpu,
                        buddy_list,
                    )
                )
            )
        )
    )
}

/// Reads the fields of `MasterServerListRequest`.
#[verifier::opaque]
pub open spec fn take_master_server_list_request(bits: Seq<bool>) -> Option<PacketView> {
    match take_fks(bits) {
        None => None,
        Some(((flags, key, session), bits)) =>
            match take_u8(bits) {
                None => None,
                Some((packet_index, bits)) =>
                    match take_ctext(bits) {
                        None => None,
                        Some((game_type, bits)) =>
                            match take_ctext(bits) {
                                None => None,
                                Some((mission_type, bits)) =>
                                    take_master_server_list_request_tail(
                                        bits,
                                        flags,
                                        key,
                                        session,
                                        packet_index,
                                        game_type,
                                        mission_type,
                                    )
                            }
                    }
            }
    }
}

/// The fields of `MasterServerListResponse` on the wire.
#[verifier::opaque]
pub open spec fn master_server_list_response_bits(
    flags: u8,
    key: u16,
    session: u16,
    packet_index: u8,
    packet_total: u8,
    servers: Seq<Endpoint>,
) -> Seq<bool> {
    fks_bits(flags, key, session) + (
        int_bits(packet_index as nat, 8) + (
            int_bits(packet_total as nat, 8) + (counted_bits(servers, 16, endpoint_encoder()))
        )
    )
}

/// Reads the fields of `MasterServerListResponse`.
#[verifier::opaque]
pub open spec fn take_master_server_list_response(bits: Seq<bool>) -> Option<PacketView> {
    match take_fks(bits) {
        None => None,
        Some(((flags, key, session), bits)) =>
            match take_u8(bits) {
                None => None,
                Some((packet_index, bits)) =>
                    match take_u8(bits) {
                        None => None,
                        Some((packet_total, bits)) =>
                            match take_counted(bits, 16, endpoint_taker()) {
                                None => None,
                                Some((servers, bits)) =>
                                    Some(
                                        PacketView::MasterServerListResponse {
                                            flags,
                                            key,
                                            session,
                                            packet_index,
                                            packet_total,
                                            servers,
                                        }
                                    )
                            }
                    }
            }
    }
}

/// The fields of `GameMasterInfoRequest` on the wire.
#[verifier::opaque]
pub open spec fn game_master_info_request_bits(flags: u8, key: u16, session: u16) -> Seq<bool> {
    fks_bits(flags, key, session)
}

/// Reads the fields of `GameMasterInfoRequest`.
#[verifier::opaque]
pub open spec fn take_game_master_info_request(bits: Seq<bool>) -> Option<PacketView> {
    match take_fks(bits) {
        None => None,
        Some(((flags, key, session), bits)) =>
            Some(PacketView::GameMasterInfoRequest { flags, key, session })
    }
}

/// The fields of `GameMasterInfoResponse` from `cpu_speed` on.
#[verifier::opaque]
pub open spec fn game_master_info_response_tail2_bits(
    cpu_speed: u32,
    player_count: u8,
    guid_list: Seq<u32>,
) -> Seq<bool> {
    int_bits(cpu_speed as nat, 32) + (
        int_bits(player_count as nat, 8) + (guids_bits(guid_list, player_count))
    )
}

/// Reads the fields of `GameMasterInfoResponse` from `cpu_speed` on.
#[verifier::opaque]
pub open spec fn take_game_master_info_response_tail2(
    bits: Seq<bool>,
    flags: u8,
    key: u16,
    session: u16,
    game_type: Seq<char>,
    mission_type: Seq<char>,
    max_players: u8,
    region_mask: u32,
    version: u32,
    filter_flag: u8,
    bot_count: u8,
) -> Option<PacketView> {
    match take_u32(bits) {
        None => None,
        Some((cpu_speed, bits)) =>
            match take_u8(bits) {
                None => None,
                Some((player_count, bits)) =>
                    {
                        let taken = take_guids(bits, player_count as nat);
                        let guid_list = taken.0;
                        let bits = taken.1;
                        Some(
                            PacketView::GameMasterInfoResponse {
                                flags,
                                key,
                                session,
                                game_type,
                                mission_type,
                                max_players,
                                region_mask,
                                version,
                                filter_flag,
                                bot_count,
                                cpu_speed,
                                player_count,
                                guid_list,
                            }
                        )
                    }
            }
    }
}

/// The fields of `GameMasterInfoResponse` from `region_mask` on.
#[verifier::opaque]
pub open spec fn game_master_info_response_tail_bits(
    region_mask: u32,
    version: u32,
    filter_flag: u8,
    bot_count: u8,
    cpu_speed: u32,
    player_count: u8,
    guid_list: Seq<u32>,
) -> Seq<bool> {
    int_bits(region_mask as nat, 32) + (
        int_bits(version as nat, 32) + (
            int_bits(filter_flag as nat, 8) + (
                int_bits(bot_count as nat, 8) + (
                    game_master_info_response_tail2_bits(cpu_speed, player_count, guid_list)
                )
            )
        )
    )
}

/// Reads the fields of `GameMasterInfoResponse` from `region_mask` on.
#[verifier::opaque]
pub open spec fn take_game_master_info_response_tail(
    bits: Seq<bool>,
    flags: u8,
    key: u16,
    session: u16,
    game_type: Seq<char>,
    mission_type: Seq<char>,
    max_players: u8,
) -> Option<PacketView> {
    match take_u32(bits) {
        None => None,
        Some((region_mask, bits)) =>
            match take_u32(bits) {
                None => None,
                Some((version, bits)) =>
                    match take_u8(bits) {
                        None => None,
                        Some((filter_flag, bits)) =>
                            match take_u8(bits) {
                                None => None,
                                Some((bot_count, bits)) =>
                                    take_game_master_info_response_tail2(
                                        bits,
                                        flags,
                                        key,
                                        session,
                                        game_type,
                                        mission_type,
                                        max_players,
                                        region_mask,
                                        version,
                                        filter_flag,
                                        bot_count,
                                    )
                            }
                    }
            }
    }
}

/// The fields of `GameMasterInfoResponse` on the wire.
#[verifier::opaque]
pub open spec fn game_master_info_response_bits(
    flags: u8,
    key: u16,
    session: u16,
    game_type: Seq<char>,
    mission_type: Seq<char>,
    max_players: u8,
    region_mask: u32,
    version: u32,
    filter_flag: u8,
    bot_count: u8,
    cpu_speed: u32,
    player_count: u8,
    guid_list: Seq<u32>,
) -> Seq<bool> {
    fks_bits(flags, key, session) + (
        ctext_bits(game_type) + (
            ctext_bits(mission_type) + (
                int_bits(max_players as nat, 8) + (
                    game_master_info_response_tail_bits(
                        region_mask,
                        version,
                        filter_flag,
                        bot_count,
                        cpu_speed,
                        player_count,
                        guid_list,
                    )
                )
            )
        )
    )
}

/// Reads the fields of `GameMasterInfoResponse`.
#[verifier::opaque]
pub open spec fn take_game_master_info_response(bits: Seq<bool>) -> Option<PacketView> {
    match take_fks(bits) {
        None => None,
        Some(((flags, key, session), bits)) =>
            match take_ctext(bits) {
                None => None,
                Some((game_type, bits)) =>
                    match take_ctext(bits) {
                        None => None,
                        Some((mission_type, bits)) =>
                            match take_u8(bits) {
                                None => None,
                                Some((max_players, bits)) =>
                                    take_game_master_info_response_tail(
                                        bits,
                                        flags,
                                        key,
                                        session,
                                        game_type,
                                        mission_type,
                                        max_players,
                                    )
                            }
                    }
            }
    }
}

/// The fields of `GamePingRequest` on the wire.
#[verifier::opaque]
pub open spec fn game_ping_request_bits(flags: u8, key: u16, session: u16) -> Seq<bool> {
    fks_bits(flags, key, session)
}

/// Reads the fields of `GamePingRequest`.
#[verifier::opaque]
pub open spec fn take_game_ping_request(bits: Seq<bool>) -> Option<PacketView> {
    match take_fks(bits) {
        None => None,
        Some(((flags, key, session), bits)) =>
            Some(PacketView::GamePingRequest { flags, key, session })
    }
}

/// The fields of `GamePingResponse` from `version` on.
#[verifier::opaque]
pub open spec fn game_ping_response_tail_bits(
    flags: u8,
    version: u32,
    name: Seq<char>,
) -> Seq<bool> {
    int_bits(version as nat, 32) + (maybe_text_bits(flags, name))
}

/// Reads the fields of `GamePingResponse` from `version` on.
#[verifier::opaque]
pub open spec fn take_game_ping_response_tail(
    bits: Seq<bool>,
    flags: u8,
    key: u16,
    session: u16,
    version_string: Seq<char>,
    current_protocol_version: u32,
    min_required_protocol_version: u32,
) -> Option<PacketView> {
    match take_u32(bits) {
        None => None,
        Some((version, bits)) =>
            match take_maybe_text(bits, flags) {
                None => None,
                Some((name, bits)) =>
                    Some(
                        PacketView::GamePingResponse {
                            flags,
                            key,
                            session,
                            version_string,
                            current_protocol_version,
                            min_required_protocol_version,
                            version,
                            name,
                        }
                    )
            }
    }
}

/// The fields of `GamePingResponse` on the wire.
#[verifier::opaque]
pub open spec fn game_ping_response_bits(
    flags: u8,
    key: u16,
    session: u16,
    version_string: Seq<char>,
    current_protocol_version: u32,
    min_required_protocol_version: u32,
    version: u32,
    name: Seq<char>,
) -> Seq<bool> {
    fks_bits(flags, key, session) + (
        maybe_text_bits(flags, version_string) + (
            int_bits(current_protocol_version as nat, 32) + (
                int_bits(min_required_protocol_version as nat, 32) + (
                    game_ping_response_tail_bits(flags, version, name)
                )
            )
        )
    )
}

/// Reads the fields of `GamePingResponse`.
#[verifier::opaque]
pub open spec fn take_game_ping_response(bits: Seq<bool>) -> Option<PacketView> {
    match take_fks(bits) {
        None => None,
        Some(((flags, key, session), bits)) =>
            match take_maybe_text(bits, flags) {
                None => None,
                Some((version_string, bits)) =>
                    match take_u32(bits) {
                        None => None,
                        Some((current_protocol_version, bits)) =>
                            match take_u32(bits) {
                                None => None,
                                Some((min_required_protocol_version, bits)) =>
                                    take_game_ping_response_tail(
                                        bits,
                                        flags,
                                        key,
                                        session,
                                        version_string,
                                        current_protocol_version,
                                        min_required_protocol_version,
                                    )
                            }
                    }
            }
    }
}

/// The fields of `GameInfoRequest` on the wire.
#[verifier::opaque]
pub open spec fn game_info_request_bits(flags: u8, key: u16, session: u16) -> Seq<bool> {
    fks_bits(flags, key, session)
}

/// Reads the fields of `GameInfoRequest`.
#[verifier::opaque]
pub open spec fn take_game_info_request(bits: Seq<bool>) -> Option<PacketView> {
    match take_fks(bits) {
        None => None,
        Some(((flags, key, session), bits)) =>
            Some(PacketView::GameInfoRequest { flags, key, session })
    }
}

/// The fields of `GameInfoResponse` from `cpu_speed` on.
#[verifier::opaque]
pub open spec fn game_info_response_tail2_bits(
    flags: u8,
    cpu_speed: u16,
    server_info: Seq<char>,
    server_info_query: Seq<char>,
) -> Seq<bool> {
    int_bits(cpu_speed as nat, 16) + (
        maybe_text_bits(flags, server_info) + (long_ctext_bits(server_info_query))
    )
}

/// Reads the fields of `GameInfoResponse` from `cpu_speed` on.
#[verifier::opaque]
pub open spec fn take_game_info_response_tail2(
    bits: Seq<bool>,
    flags: u8,
    key: u16,
    session: u16,
    game_type: Seq<char>,
    mission_type: Seq<char>,
    mission_name: Seq<char>,
    filter_flag: u8,
    player_count: u8,
    max_players: u8,
    bot_count: u8,
) -> Option<PacketView> {
    match take_u16(bits) {
        None => None,
        Some((cpu_speed, bits)) =>
            match take_maybe_text(bits, flags) {
                None => None,
                Some((server_info, bits)) =>
                    match take_long_ctext(bits) {
                        None => None,
                        Some((server_info_query, bits)) =>
                            Some(
                                PacketView::GameInfoResponse {
                                    flags,
                                    key,
                                    session,
                                    game_type,
                                    mission_type,
                                    mission_name,
                                    filter_flag,
                                    player_count,
                                    max_players,
                                    bot_count,
                                    cpu_speed,
                                    server_info,
                                    server_info_query,
                                }
                            )
                    }
            }
    }
}

/// The fields of `GameInfoResponse` from `filter_flag` on.
#[verifier::opaque]
pub open spec fn game_info_response_tail_bits(
    flags: u8,
    filter_flag: u8,
    player_count: u8,
    max_players: u8,
    bot_count: u8,
    cpu_speed: u16,
    server_info: Seq<char>,
    server_info_query: Seq<char>,
) -> Seq<bool> {
    int_bits(filter_flag as nat, 8) + (
        int_bits(player_count as nat, 8) + (
            int_bits(max_players as nat, 8) + (
                int_bits(bot_count as nat, 8) + (
                    game_info_response_tail2_bits(flags, cpu_speed, server_info, server_info_query)
                )
            )
        )
    )
}

/// Reads the fields of `GameInfoResponse` from `filter_flag` on.
#[verifier::opaque]
pub open spec fn take_game_info_response_tail(
    bits: Seq<bool>,
    flags: u8,
    key: u16,
    session: u16,
    game_type: Seq<char>,
    mission_type: Seq<char>,
    mission_name: Seq<char>,
) -> Option<PacketView> {
    match take_u8(bits) {
        None => None,
        Some((filter_flag, bits)) =>
            match take_u8(bits) {
                None => None,
                Some((player_count, bits)) =>
                    match take_u8(bits) {
                        None => None,
                        Some((max_players, bits)) =>
                            match take_u8(bits) {
                                None => None,
                                Some((bot_count, bits)) =>
                                    take_game_info_response_tail2(
                                        bits,
                                        flags,
                                        key,
                                        session,
                                        game_type,
                                        mission_type,
                                        mission_name,
                                        filter_flag,
                                        player_count,
                                        max_players,
                                        bot_count,
                                    )
                            }
                    }
            }
    }
}

/// The fields of `GameInfoResponse` on the wire.
#[verifier::opaque]
pub open spec fn game_info_response_bits(
    flags: u8,
    key: u16,
    session: u16,
    game_type: Seq<char>,
    mission_type: Seq<char>,
    mission_name: Seq<char>,
    filter_flag: u8,
    player_count: u8,
    max_players: u8,
    bot_count: u8,
    cpu_speed: u16,
    server_info: Seq<char>,
    server_info_query: Seq<char>,
) -> Seq<bool> {
    fks_bits(flags, key, session) + (
        maybe_text_bits(flags, game_type) + (
            maybe_text_bits(flags, mission_type) + (
                maybe_text_bits(flags, mission_name) + (
                    game_info_response_tail_bits(
                        flags,
                        filter_flag,
                        player_count,
                        max_players,
                        bot_count,
                        cpu_speed,
                        server_info,
                        server_info_query,
                    )
                )
            )
        )
    )
}

/// Reads the fields of `GameInfoResponse`.
#[verifier::opaque]
pub open spec fn take_game_info_response(bits: Seq<bool>) -> Option<PacketView> {
    match take_fks(bits) {
        None => None,
        Some(((flags, key, session), bits)) =>
            match take_maybe_text(bits, flags) {
                None => None,
                Some((game_type, bits)) =>
                    match take_maybe_text(bits, flags) {
                        None => None,
                        Some((mission_type, bits)) =>
                            match take_maybe_text(bits, flags) {
                                None => None,
                                Some((mission_name, bits)) =>
                                    take_game_info_response_tail(
                                        bits,
                                        flags,
                                        key,
                                        session,
                                        game_type,
                                        mission_type,
                                        mission_name,
                                    )
                            }
                    }
            }
    }
}

/// The fields of `GameHeartbeat` on the wire.
#[verifier::opaque]
pub open spec fn game_heartbeat_bits(flags: u8, key: u16, session: u16) -> Seq<bool> {
    fks_bits(flags, key, session)
}

/// Reads the fields of `GameHeartbeat`.
#[verifier::opaque]
pub open spec fn take_game_heartbeat(bits: Seq<bool>) -> Option<PacketView> {
    match take_fks(bits) {
        None => None,
        Some(((flags, key, session), bits)) =>
            Some(PacketView::GameHeartbeat { flags, key, session })
    }
}

/// The fields of `ConnectChallengeRequest` on the wire.
#[verifier::opaque]
pub open spec fn connect_challenge_request_bits(sequence: u32) -> Seq<bool> {
    int_bits(sequence as nat, 32)
}

/// Reads the fields of `ConnectChallengeRequest`.
#[verifier::opaque]
pub open spec fn take_connect_challenge_request(bits: Seq<bool>) -> Option<PacketView> {
    match take_u32(bits) {
        None => None,
        Some((sequence, bits)) =>
            Some(PacketView::ConnectChallengeRequest { sequence })
    }
}

/// The fields of `ConnectChallengeReject` on the wire.
#[verifier::opaque]
pub open spec fn connect_challenge_reject_bits(sequence: u32, reason: Seq<char>) -> Seq<bool> {
    int_bits(sequence as nat, 32) + (text_bits(reason))
}

/// Reads the fields of `ConnectChallengeReject`.
#[verifier::opaque]
pub open spec fn take_connect_challenge_reject(bits: Seq<bool>) -> Option<PacketView> {
    match take_u32(bits) {
        None => None,
        Some((sequence, bits)) =>
            match take_text(bits) {
                None => None,
                Some((reason, bits)) =>
                    Some(PacketView::ConnectChallengeReject { sequence, reason })
            }
    }
}

/// The fields of `ConnectChallengeResponse` on the wire.
#[verifier::opaque]
pub open spec fn connect_challenge_response_bits(
    sequence: u32,
    address_digest: Seq<u32>,
) -> Seq<bool> {
    int_bits(sequence as nat, 32) + (digest_bits(address_digest))
}

/// Reads the fields of `ConnectChallengeResponse`.
#[verifier::opaque]
pub open spec fn take_connect_challenge_response(bits: Seq<bool>) -> Option<PacketView> {
    match take_u32(bits) {
        None => None,
        Some((sequence, bits)) =>
            match take_digest(bits) {
                None => None,
                Some((address_digest, bits)) =>
                    Some(PacketView::ConnectChallengeResponse { sequence, address_digest })
            }
    }
}

/// The fields of `ConnectRequest` from `join_password` on.
#[verifier::opaque]
pub open spec fn connect_request_tail2_bits(
    join_password: Seq<char>,
    connect_argv: Seq<Seq<char>>,
) -> Seq<bool> {
    text_bits(join_password) + (counted_bits(connect_argv, 32, text_encoder()))
}

/// Reads the fields of `ConnectRequest` from `join_password` on.
#[verifier::opaque]
pub open spec fn take_connect_request_tail2(
    bits: Seq<bool>,
    sequence: u32,
    address_digest: Seq<u32>,
    class_name: Seq<char>,
    net_class_group: u32,
    class_crc: u32,
    game_string: Seq<char>,
    current_protocol_version: u32,
    min_required_protocol_version: u32,
) -> Option<PacketView> {
    match take_text(bits) {
        None => None,
        Some((join_password, bits)) =>
            match take_counted(bits, 32, text_taker()) {
                None => None,
                Some((connect_argv, bits)) =>
                    Some(
                        PacketView::ConnectRequest {
                            sequence,
                            address_digest,
                            class_name,
                            net_class_group,
                            class_crc,
                            game_string,
                            current_protocol_version,
                            min_required_protocol_version,
                            join_password,
                            connect_argv,
                        }
                    )
            }
    }
}

/// The fields of `ConnectRequest` from `class_crc` on.
#[verifier::opaque]
pub open spec fn connect_request_tail_bits(
    class_crc: u32,
    game_string: Seq<char>,
    current_protocol_version: u32,
    min_required_protocol_version: u32,
    join_password: Seq<char>,
    connect_argv: Seq<Seq<char>>,
) -> Seq<bool> {
    int_bits(class_crc as nat, 32) + (
        text_bits(game_string) + (
            int_bits(current_protocol_version as nat, 32) + (
                int_bits(min_required_protocol_version as nat, 32) + (
                    connect_request_tail2_bits(join_password, connect_argv)
                )
            )
        )
    )
}

/// Reads the fields of `ConnectRequest` from `class_crc` on.
#[verifier::opaque]
pub open spec fn take_connect_request_tail(
    bits: Seq<bool>,
    sequence: u32,
    address_digest: Seq<u32>,
    class_name: Seq<char>,
    net_class_group: u32,
) -> Option<PacketView> {
    match take_u32(bits) {
        None => None,
        Some((class_crc, bits)) =>
            match take_text(bits) {
                None => None,
                Some((game_string, bits)) =>
                    match take_u32(bits) {
                        None => None,
                        Some((current_protocol_version, bits)) =>
                            match take_u32(bits) {
                                None => None,
                                Some((min_required_protocol_version, bits)) =>
                                    take_connect_request_tail2(
                                        bits,
                                        sequence,
                                        address_digest,
                                        class_name,
                                        net_class_group,
                                        class_crc,
                                        game_string,
                                        current_protocol_version,
                                        min_required_protocol_version,
                                    )
                            }
                    }
            }
    }
}

/// The fields of `ConnectRequest` on the wire.
#[verifier::opaque]
pub open spec fn connect_request_bits(
    sequence: u32,
    address_digest: Seq<u32>,
    class_name: Seq<char>,
    net_class_group: u32,
    class_crc: u32,
    game_string: Seq<char>,
    current_protocol_version: u32,
    min_required_protocol_version: u32,
    join_password: Seq<char>,
    connect_argv: Seq<Seq<char>>,
) -> Seq<bool> {
    int_bits(sequence as nat, 32) + (
        digest_bits(address_digest) + (
            text_bits(class_name) + (
                int_bits(net_class_group as nat, 32) + (
                    connect_request_tail_bits(
                        class_crc,
                        game_string,
                        current_protocol_version,
                        min_required_protocol_version,
                        join_password,
                        connect_argv,
                    )
                )
            )
        )
    )
}

/// Reads the fields of `ConnectRequest`.
#[verifier::opaque]
pub open spec fn take_connect_request(bits: Seq<bool>) -> Option<PacketView> {
    match take_u32(bits) {
        None => None,
        Some((sequence, bits)) =>
            match take_digest(bits) {
                None => None,
                Some((address_digest, bits)) =>
                    match take_text(bits) {
                        None => None,
                        Some((class_name, bits)) =>
                            match take_u32(bits) {
                                None => None,
                                Some((net_class_group, bits)) =>
                                    take_connect_request_tail(
                                        bits,
                                        sequence,
                                        address_digest,
                                        class_name,
                                        net_class_group,
                                    )
                            }
                    }
            }
    }
}

/// The fields of `ConnectReject` on the wire.
#[verifier::opaque]
pub open spec fn connect_reject_bits(sequence: u32, reason: Seq<char>) -> Seq<bool> {
    int_bits(sequence as nat, 32) + (text_bits(reason))
}

/// Reads the fields of `ConnectReject`.
#[verifier::opaque]
pub open spec fn take_connect_reject(bits: Seq<bool>) -> Option<PacketView> {
    match take_u32(bits) {
        None => None,
        Some((sequence, bits)) =>
            match take_text(bits) {
                None => None,
                Some((reason, bits)) =>
                    Some(PacketView::ConnectReject { sequence, reason })
            }
    }
}

/// The fields of `ConnectAccept` on the wire.
#[verifier::opaque]
pub open spec fn connect_accept_bits(sequence: u32, protocol_version: u32) -> Seq<bool> {
    int_bits(sequence as nat, 32) + (int_bits(protocol_version as nat, 32))
}

/// Reads the fields of `ConnectAccept`.
#[verifier::opaque]
pub open spec fn take_connect_accept(bits: Seq<bool>) -> Option<PacketView> {
    match take_u32(bits) {
        None => None,
        Some((sequence, bits)) =>
            match take_u32(bits) {
                None => None,
                Some((protocol_version, bits)) =>
                    Some(PacketView::ConnectAccept { sequence, protocol_version })
            }
    }
}

/// The fields of `Disconnect` on the wire.
#[verifier::opaque]
pub open spec fn disconnect_bits(sequence: u32, reason: Seq<char>) -> Seq<bool> {
    int_bits(sequence as nat, 32) + (text_bits(reason))
}

/// Reads the fields of `Disconnect`.
#[verifier::opaque]
pub open spec fn take_disconnect(bits: Seq<bool>) -> Option<PacketView> {
    match take_u32(bits) {
        None => None,
        Some((sequence, bits)) =>
            match take_text(bits) {
                None => None,
                Some((reason, bits)) =>
                    Some(PacketView::Disconnect { sequence, reason })
            }
    }
}

/// The fields of `ArrangedConnectRequest` on the wire.
#[verifier::opaque]
pub open spec fn arranged_connect_request_bits(
    sequence: u32,
    debug_object_sizes: bool,
) -> Seq<bool> {
    int_bits(sequence as nat, 32) + (flag_bits(debug_object_sizes))
}

/// Reads the fields of `ArrangedConnectRequest`.
#[verifier::opaque]
pub open spec fn take_arranged_connect_request(bits: Seq<bool>) -> Option<PacketView> {
    match take_u32(bits) {
        None => None,
        Some((sequence, bits)) =>
            match take_flag(bits) {
                None => None,
                Some((debug_object_sizes, bits)) =>
                    Some(PacketView::ArrangedConnectRequest { sequence, debug_object_sizes })
            }
    }
}

/// The fields of `MasterServerRequestArrangedConnection` on the wire.
#[verifier::opaque]
pub open spec fn master_server_request_arranged_connection_bits(address: Endpoint) -> Seq<bool> {
    endpoint_bits(address)
}

/// Reads the fields of `MasterServerRequestArrangedConnection`.
#[verifier::opaque]
pub open spec fn take_master_server_request_arranged_connection(
    bits: Seq<bool>
) -> Option<PacketView> {
    match take_endpoint(bits) {
        None => None,
        Some((address, bits)) =>
            Some(PacketView::MasterServerRequestArrangedConnection { address })
    }
}

/// The fields of `MasterServerClientRequestedArrangedConnection` on the wire.
#[verifier::opaque]
pub open spec fn master_server_client_requested_arranged_connection_bits(
    flags: u8,
    key: u16,
    session: u16,
    client_id: u16,
    possible_addresses: Seq<Endpoint>,
) -> Seq<bool> {
    fks_bits(flags, key, session) + (
        int_bits(client_id as nat, 16) + (counted_bits(possible_addresses, 8, endpoint_encoder()))
    )
}

/// Reads the fields of `MasterServerClientRequestedArrangedConnection`.
#[verifier::opaque]
pub open spec fn take_master_server_client_requested_arranged_connection(
    bits: Seq<bool>
) -> Option<PacketView> {
    match take_fks(bits) {
        None => None,
        Some(((flags, key, session), bits)) =>
            match take_u16(bits) {
                None => None,
                Some((client_id, bits)) =>
                    match take_counted(bits, 8, endpoint_taker()) {
                        None => None,
                        Some((possible_addresses, bits)) =>
                            Some(
                                PacketView::MasterServerClientRequestedArrangedConnection {
                                    flags,
                                    key,
                                    session,
                                    client_id,
                                    possible_addresses,
                                }
                            )
                    }
            }
    }
}

/// The fields of `MasterServerAcceptArrangedConnection` on the wire.
#[verifier::opaque]
pub open spec fn master_server_accept_arranged_connection_bits(client_id: u16) -> Seq<bool> {
    int_bits(client_id as nat, 16)
}

/// Reads the fields of `MasterServerAcceptArrangedConnection`.
#[verifier::opaque]
pub open spec fn take_master_server_accept_arranged_connection(
    bits: Seq<bool>
) -> Option<PacketView> {
    match take_u16(bits) {
        None => None,
        Some((client_id, bits)) =>
            Some(PacketView::MasterServerAcceptArrangedConnection { client_id })
    }
}

/// The fields of `MasterServerArrangedConnectionAccepted` on the wire.
#[verifier::opaque]
pub open spec fn master_server_arranged_connection_accepted_bits(
    flags: u8,
    key: u16,
    session: u16,
    possible_addresses: Seq<Endpoint>,
) -> Seq<bool> {
    fks_bits(flags, key, session) + (counted_bits(possible_addresses, 8, endpoint_encoder()))
}

/// Reads the fields of `MasterServerArrangedConnectionAccepted`.
#[verifier::opaque]
pub open spec fn take_master_server_arranged_connection_accepted(
    bits: Seq<bool>
) -> Option<PacketView> {
    match take_fks(bits) {
        None => None,
        Some(((flags, key, session), bits)) =>
            match take_counted(bits, 8, endpoint_taker()) {
                None => None,
                Some((possible_addresses, bits)) =>
                    Some(
                        PacketView::MasterServerArrangedConnectionAccepted {
                            flags,
                            key,
                            session,
                            possible_addresses,
                        }
                    )
            }
    }
}

/// The fields of `MasterServerRejectArrangedConnection` on the wire.
#[verifier::opaque]
pub open spec fn master_server_reject_arranged_connection_bits(reason: u8) -> Seq<bool> {
    int_bits(reason as nat, 8)
}

/// Reads the fields of `MasterServerRejectArrangedConnection`.
#[verifier::opaque]
pub open spec fn take_master_server_reject_arranged_connection(
    bits: Seq<bool>
) -> Option<PacketView> {
    match take_u8(bits) {
        None => None,
        Some((reason, bits)) =>
            Some(PacketView::MasterServerRejectArrangedConnection { reason })
    }
}

/// The fields of `MasterServerArrangedConnectionRejected` on the wire.
#[verifier::opaque]
pub open spec fn master_server_arranged_connection_rejected_bits(
    flags: u8,
    key: u16,
    session: u16,
    reason: u8,
) -> Seq<bool> {
    fks_bits(flags, key, session) + (int_bits(reason as nat, 8))
}

/// Reads the fields of `MasterServerArrangedConnectionRejected`.
#[verifier::opaque]
pub open spec fn take_master_server_arranged_connection_rejected(
    bits: Seq<bool>
) -> Option<PacketView> {
    match take_fks(bits) {
        None => None,
        Some(((flags, key, session), bits)) =>
            match take_u8(bits) {
                None => None,
                Some((reason, bits)) =>
                    Some(
                        PacketView::MasterServerArrangedConnectionRejected {
                            flags,
                            key,
                            session,
                            reason,
                        }
                    )
            }
    }
}

/// The fields of `MasterServerGamePingRequest` on the wire.
#[verifier::opaque]
pub open spec fn master_server_game_ping_request_bits(
    address: Endpoint,
    flags: u8,
    key: u16,
    session: u16,
) -> Seq<bool> {
    endpoint_bits(address) + (fks_bits(flags, key, session))
}

/// Reads the fields of `MasterServerGamePingRequest`.
#[verifier::opaque]
pub open spec fn take_master_server_game_ping_request(bits: Seq<bool>) -> Option<PacketView> {
    match take_endpoint(bits) {
        None => None,
        Some((address, bits)) =>
            match take_fks(bits) {
                None => None,
                Some(((flags, key, session), bits)) =>
                    Some(PacketView::MasterServerGamePingRequest { address, flags, key, session })
            }
    }
}

/// The fields of `MasterServerGameInfoRequest` on the wire.
#[verifier::opaque]
pub open spec fn master_server_game_info_request_bits(
    address: Endpoint,
    flags: u8,
    key: u16,
    session: u16,
) -> Seq<bool> {
    endpoint_bits(address) + (fks_bits(flags, key, session))
}

/// Reads the fields of `MasterServerGameInfoRequest`.
#[verifier::opaque]
pub open spec fn take_master_server_game_info_request(bits: Seq<bool>) -> Option<PacketView> {
    match take_endpoint(bits) {
        None => None,
        Some((address, bits)) =>
            match take_fks(bits) {
                None => None,
                Some(((flags, key, session), bits)) =>
                    Some(PacketView::MasterServerGameInfoRequest { address, flags, key, session })
            }
    }
}

/// The fields of `MasterServerRelayRequestToMaster` on the wire.
#[verifier::opaque]
pub open spec fn master_server_relay_request_to_master_bits(address: Endpoint) -> Seq<bool> {
    endpoint_bits(address)
}

/// Reads the fields of `MasterServerRelayRequestToMaster`.
#[verifier::opaque]
pub open spec fn take_master_server_relay_request_to_master(bits: Seq<bool>) -> Option<PacketView> {
    match take_endpoint(bits) {
        None => None,
        Some((address, bits)) =>
            Some(PacketView::MasterServerRelayRequestToMaster { address })
    }
}

/// The fields of `MasterServerRelayRequestToRelay` on the wire.
#[verifier::opaque]
pub open spec fn master_server_relay_request_to_relay_bits(
    relay_id: u32,
    server_addr: Endpoint,
    client_addr: Ipv4Address,
) -> Seq<bool> {
    int_bits(relay_id as nat, 32) + (endpoint_bits(server_addr) + (address_bits(client_addr)))
}

/// Reads the fields of `MasterServerRelayRequestToRelay`.
#[verifier::opaque]
pub open spec fn take_master_server_relay_request_to_relay(bits: Seq<bool>) -> Option<PacketView> {
    match take_u32(bits) {
        None => None,
        Some((relay_id, bits)) =>
            match take_endpoint(bits) {
                None => None,
                Some((server_addr, bits)) =>
                    match take_address(bits) {
                        None => None,
                        Some((client_addr, bits)) =>
                            Some(
                                PacketView::MasterServerRelayRequestToRelay {
                                    relay_id,
                                    server_addr,
                                    client_addr,
                                }
                            )
                    }
            }
    }
}

/// The fields of `MasterServerRelayResponseFromRelay` on the wire.
#[verifier::opaque]
pub open spec fn master_server_relay_response_from_relay_bits(
    relay_id: u32,
    relay_port: u16,
) -> Seq<bool> {
    int_bits(relay_id as nat, 32) + (int_bits(relay_port as nat, 16))
}

/// Reads the fields of `MasterServerRelayResponseFromRelay`.
#[verifier::opaque]
pub open spec fn take_master_server_relay_response_from_relay(
    bits: Seq<bool>
) -> Option<PacketView> {
    match take_u32(bits) {
        None => None,
        Some((relay_id, bits)) =>
            match take_u16(bits) {
                None => None,
                Some((relay_port, bits)) =>
                    Some(PacketView::MasterServerRelayResponseFromRelay { relay_id, relay_port })
            }
    }
}

/// The fields of `MasterServerRelayResponseFromMaster` on the wire.
#[verifier::opaque]
pub open spec fn master_server_relay_response_from_master_bits(
    flags: u8,
    key: u16,
    session: u16,
    is_host: bool,
    address: Endpoint,
) -> Seq<bool> {
    fks_bits(flags, key, session) + (flag_bits(is_host) + (endpoint_bits(address)))
}

/// Reads the fields of `MasterServerRelayResponseFromMaster`.
#[verifier::opaque]
pub open spec fn take_master_server_relay_response_from_master(
    bits: Seq<bool>
) -> Option<PacketView> {
    match take_fks(bits) {
        None => None,
        Some(((flags, key, session), bits)) =>
            match take_flag(bits) {
                None => None,
                Some((is_host, bits)) =>
                    match take_endpoint(bits) {
                        None => None,
                        Some((address, bits)) =>
                            Some(
                                PacketView::MasterServerRelayResponseFromMaster {
                                    flags,
                                    key,
                                    session,
                                    is_host,
                                    address,
                                }
                            )
                    }
            }
    }
}

/// The fields of `MasterServerRelayReady` on the wire.
#[verifier::opaque]
pub open spec fn master_server_relay_ready_bits(flags: u8, key: u16, session: u16) -> Seq<bool> {
    fks_bits(flags, key, session)
}

/// Reads the fields of `MasterServerRelayReady`.
#[verifier::opaque]
pub open spec fn take_master_server_relay_ready(bits: Seq<bool>) -> Option<PacketView> {
    match take_fks(bits) {
        None => None,
        Some(((flags, key, session), bits)) =>
            Some(PacketView::MasterServerRelayReady { flags, key, session })
    }
}

/// The fields of `MasterServerJoinInvite` on the wire.
#[verifier::opaque]
pub open spec fn master_server_join_invite_bits(invite_code: Seq<char>) -> Seq<bool> {
    ctext_bits(invite_code)
}

/// Reads the fields of `MasterServerJoinInvite`.
#[verifier::opaque]
pub open spec fn take_master_server_join_invite(bits: Seq<bool>) -> Option<PacketView> {
    match take_ctext(bits) {
        None => None,
        Some((invite_code, bits)) =>
            Some(PacketView::MasterServerJoinInvite { invite_code })
    }
}

/// The fields of `MasterServerJoinInviteResponse` on the wire.
#[verifier::opaque]
pub open spec fn master_server_join_invite_response_bits(
    flags: u8,
    key: u16,
    session: u16,
    address: Option<Endpoint>,
) -> Seq<bool> {
    fks_bits(flags, key, session) + (found_bits(address))
}

/// Reads the fields of `MasterServerJoinInviteResponse`.
#[verifier::opaque]
pub open spec fn take_master_server_join_invite_response(bits: Seq<bool>) -> Option<PacketView> {
    match take_fks(bits) {
        None => None,
        Some(((flags, key, session), bits)) =>
            match take_found(bits) {
                None => None,
                Some((address, bits)) =>
                    Some(
                        PacketView::MasterServerJoinInviteResponse { flags, key, session, address }
                    )
            }
    }
}

/// A tag of eight bits, and the fields behind it.
pub open spec fn tagged(tag: u8, fields: Seq<bool>) -> Seq<bool> {
    int_bits(tag as nat, 8) + fields
}

/// The bits of a datagram: a raw packet's bytes as they are, else the tag and
/// the fields. A packet inside another stands at the end, filled up to whole
/// bytes.
pub open spec fn encode_bits(packet: PacketView) -> Seq<bool>
    decreases packet,
{
    match packet {
        PacketView::Raw(bytes) => bytes_bits(bytes),
        PacketView::GGCPacket {  } => tagged(24, Seq::empty()),
        PacketView::MasterServerGameTypesRequest { flags, key, session } => tagged(
            2,
            master_server_game_types_request_bits(flags, key, session),
        ),
        PacketView::MasterServerGameTypesResponse {
            flags,
            key,
            session,
            game_types,
            mission_types,
        } => tagged(4, master_server_game_types_response_bits(
            flags,
            key,
            session,
            game_types,
            mission_types,
        )),
        PacketView::MasterServerListRequest {
            flags,
            key,
            session,
            packet_index,
            game_type,
            mission_type,
            min_players,
            max_players,
            region_mask,
            version,
            filter_flag,
            max_bots,
            min_cpu,
            buddy_list,
        } => tagged(6, master_server_list_request_bits(
            flags,
            key,
            session,
            packet_index,
            game_type,
            mission_type,
            min_players,
            max_players,
            region_mask,
            version,
            filter_flag,
            max_bots,
            min_cpu,
            buddy_list,
        )),
        PacketView::MasterServerListResponse {
            flags,
            key,
            session,
            packet_index,
            packet_total,
            servers,
        } => tagged(8, master_server_list_response_bits(
            flags,
            key,
            session,
            packet_index,
            packet_total,
            servers,
        )),
        PacketView::GameMasterInfoRequest { flags, key, session } => tagged(
            10,
            game_master_info_request_bits(flags, key, session),
        ),
        PacketView::GameMasterInfoResponse {
            flags,
            key,
            session,
            game_type,
            mission_type,
            max_players,
            region_mask,
            version,
            filter_flag,
            bot_count,
            cpu_speed,
            player_count,
            guid_list,
        } => tagged(12, game_master_info_response_bits(
            flags,
            key,
            session,
            game_type,
            mission_type,
            max_players,
            region_mask,
            version,
            filter_flag,
            bot_count,
            cpu_speed,
            player_count,
            guid_list,
        )),
        PacketView::GamePingRequest { flags, key, session } => tagged(
            14,
            game_ping_request_bits(flags, key, session),
        ),
        PacketView::GamePingResponse {
            flags,
            key,
            session,
            version_string,
            current_protocol_version,
            min_required_protocol_version,
            version,
            name,
        } => tagged(16, game_ping_response_bits(
            flags,
            key,
            session,
            version_string,
            current_protocol_version,
            min_required_protocol_version,
            version,
            name,
        )),
        PacketView::GameInfoRequest { flags, key, session } => tagged(
            18,
            game_info_request_bits(flags, key, session),
        ),
        PacketView::GameInfoResponse {
            flags,
            key,
            session,
            game_type,
            mission_type,
            mission_name,
            filter_flag,
            player_count,
            max_players,
            bot_count,
            cpu_speed,
            server_info,
            server_info_query,
        } => tagged(20, game_info_response_bits(
            flags,
            key,
            session,
            game_type,
            mission_type,
            mission_name,
            filter_flag,
            player_count,
            max_players,
            bot_count,
            cpu_speed,
            server_info,
            server_info_query,
        )),
        PacketView::GameHeartbeat { flags, key, session } => tagged(
            22,
            game_heartbeat_bits(flags, key, session),
        ),
        PacketView::ConnectChallengeRequest { sequence } => tagged(
            26,
            connect_challenge_request_bits(sequence),
        ),
        PacketView::ConnectChallengeReject { sequence, reason } => tagged(
            28,
            connect_challenge_reject_bits(sequence, reason),
        ),
        PacketView::ConnectChallengeResponse { sequence, address_digest } => tagged(
            30,
            connect_challenge_response_bits(sequence, address_digest),
        ),
        PacketView::ConnectRequest {
            sequence,
            address_digest,
            class_name,
            net_class_group,
            class_crc,
            game_string,
            current_protocol_version,
            min_required_protocol_version,
            join_password,
            connect_argv,
        } => tagged(32, connect_request_bits(
            sequence,
            address_digest,
            class_name,
            net_class_group,
            class_crc,
            game_string,
            current_protocol_version,
            min_required_protocol_version,
            join_password,
            connect_argv,
        )),
        PacketView::ConnectReject { sequence, reason } => tagged(
            34,
            connect_reject_bits(sequence, reason),
        ),
        PacketView::ConnectAccept { sequence, protocol_version } => tagged(
            36,
            connect_accept_bits(sequence, protocol_version),
        ),
        PacketView::Disconnect { sequence, reason } => tagged(
            38,
            disconnect_bits(sequence, reason),
        ),
        PacketView::Punch {  } => tagged(40, Seq::empty()),
        PacketView::ArrangedConnectRequest { sequence, debug_object_sizes } => tagged(
            42,
            arranged_connect_request_bits(sequence, debug_object_sizes),
        ),
        PacketView::MasterServerRequestArrangedConnection { address } => tagged(
            46,
            master_server_request_arranged_connection_bits(address),
        ),
        PacketView::MasterServerClientRequestedArrangedConnection {
            flags,
            key,
            session,
            client_id,
            possible_addresses,
        } => tagged(48, master_server_client_requested_arranged_connection_bits(
            flags,
            key,
            session,
            client_id,
            possible_addresses,
        )),
        PacketView::MasterServerAcceptArrangedConnection { client_id } => tagged(
            50,
            master_server_accept_arranged_connection_bits(client_id),
        ),
        PacketView::MasterServerArrangedConnectionAccepted {
            flags,
            key,
            session,
            possible_addresses,
        } => tagged(52, master_server_arranged_connection_accepted_bits(
            flags,
            key,
            session,
            possible_addresses,
        )),
        PacketView::MasterServerRejectArrangedConnection { reason } => tagged(
            54,
            master_server_reject_arranged_connection_bits(reason),
        ),
        PacketView::MasterServerArrangedConnectionRejected {
            flags,
            key,
            session,
            reason,
        } => tagged(56, master_server_arranged_connection_rejected_bits(
            flags,
            key,
            session,
            reason,
        )),
        PacketView::MasterServerGamePingRequest { address, flags, key, session } => tagged(
            58,
            master_server_game_ping_request_bits(address, flags, key, session),
        ),
        PacketView::MasterServerGamePingResponse { flags, key, session, address, packet } => tagged(
            60,
            fks_bits(flags, key, session) + (endpoint_bits(address) + pad_to_byte(
                encode_bits(*packet),
            )),
        ),
        PacketView::MasterServerGameInfoRequest { address, flags, key, session } => tagged(
            62,
            master_server_game_info_request_bits(address, flags, key, session),
        ),
        PacketView::MasterServerGameInfoResponse { flags, key, session, address, packet } => tagged(
            64,
            fks_bits(flags, key, session) + (endpoint_bits(address) + pad_to_byte(
                encode_bits(*packet),
            )),
        ),
        PacketView::MasterServerRelayRequestToMaster { address } => tagged(
            66,
            master_server_relay_request_to_master_bits(address),
        ),
        PacketView::MasterServerRelayRequestToRelay {
            relay_id,
            server_addr,
            client_addr,
        } => tagged(66, master_server_relay_request_to_relay_bits(
            relay_id,
            server_addr,
            client_addr,
        )),
        PacketView::MasterServerRelayResponseFromRelay { relay_id, relay_port } => tagged(
            68,
            master_server_relay_response_from_relay_bits(relay_id, relay_port),
        ),
        PacketView::MasterServerRelayResponseFromMaster {
            flags,
            key,
            session,
            is_host,
            address,
        } => tagged(68, master_server_relay_response_from_master_bits(
            flags,
            key,
            session,
            is_host,
            address,
        )),
        PacketView::MasterServerRelayDelete {  } => tagged(70, Seq::empty()),
        PacketView::MasterServerRelayReady { flags, key, session } => tagged(
            72,
            master_server_relay_ready_bits(flags, key, session),
        ),
        PacketView::MasterServerJoinInvite { invite_code } => tagged(
            74,
            master_server_join_invite_bits(invite_code),
        ),
        PacketView::MasterServerJoinInviteResponse { flags, key, session, address } => tagged(
            76,
            master_server_join_invite_response_bits(flags, key, session, address),
        ),
        PacketView::MasterServerRelayHeartbeat {  } => tagged(78, Seq::empty()),
    }
}

/// Reads the front of a packet with another at its end: the header of a query
/// and an address with its port.
#[verifier::opaque]
pub open spec fn take_wrapper(bits: Seq<bool>) -> Option<((u8, u16, u16), Endpoint, Seq<bool>)> {
    match take_fks(bits) {
        None => None,
        Some((header, bits)) => match take_endpoint(bits) {
            None => None,
            Some((address, bits)) => Some((header, address, bits)),
        },
    }
}

/// The packet with the tag `tag` that has `inner` at its end.
pub open spec fn wrap(
    tag: u8,
    header: (u8, u16, u16),
    address: Endpoint,
    inner: PacketView,
) -> PacketView {
    if tag == tags::MASTER_SERVER_GAME_PING_RESPONSE {
        PacketView::MasterServerGamePingResponse {
            flags: header.0,
            key: header.1,
            session: header.2,
            address,
            packet: Box::new(inner),
        }
    } else {
        PacketView::MasterServerGameInfoResponse {
            flags: header.0,
            key: header.1,
            session: header.2,
            address,
            packet: Box::new(inner),
        }
    }
}

/// The tag is one of the two of packets with another at their end.
pub open spec fn wraps(tag: u8) -> bool {
    tag == tags::MASTER_SERVER_GAME_PING_RESPONSE || tag == tags::MASTER_SERVER_GAME_INFO_RESPONSE
}

/// Reads the datagram `bytes` from bit `pos` on: the tag, and the fields that
/// the tag asks for. The result is the packet, or nothing where the tag is not
/// known or not one that `source` sends, or that the datagram ends early. The
/// packet at the end of another is what the bytes behind the other's address
/// read as, and those bytes as a raw packet where they read as nothing.
pub open spec fn parse(bytes: Seq<u8>, pos: nat, source: PacketSource) -> Result<
    Option<PacketView>,
    Truncated,
>
    decreases bytes.len(),
{
    let stream = StreamView { bits: bytes_bits(bytes), pos };
    match take_u8(stream.remaining()) {
        None => Err(Truncated),
        Some((tag, bits)) => if tag % 2 == 1 || tag == tags::GGC_PACKET {
            Ok(Some(PacketView::Raw(bytes)))
        } else if wraps(tag) {
            match take_wrapper(bits) {
                None => Err(Truncated),
                Some((header, address, rest)) => {
                    let offset = (8 * bytes.len() - rest.len()) / 8;
                    if 1 <= offset <= bytes.len() {
                        let inside = bytes.skip(offset);
                        Ok(
                            Some(
                                wrap(
                                    tag,
                                    header,
                                    address,
                                    match parse(inside, 0, source) {
                                        Ok(Some(packet)) => packet,
                                        _ => PacketView::Raw(inside),
                                    },
                                ),
                            ),
                        )
                    } else {
                        Ok(None)
                    }
                },
            }
        } else {
            parse_fields(tag, bits, source)
        },
    }
}

/// The `Ok` of a packet that was read, the error of one that ended early.
pub open spec fn parsed(packet: Option<PacketView>) -> Result<Option<PacketView>, Truncated> {
    match packet {
        Some(packet) => Ok(Some(packet)),
        None => Err(Truncated),
    }
}


/// The queries and their answers: tags 2 to 22.
pub open spec fn parse_queries(tag: u8, bits: Seq<bool>) -> Result<Option<PacketView>, Truncated> {
    if tag == tags::MASTER_SERVER_GAME_TYPES_REQUEST {
        parsed(take_master_server_game_types_request(bits))
    } else if tag == tags::MASTER_SERVER_GAME_TYPES_RESPONSE {
        parsed(take_master_server_game_types_response(bits))
    } else if tag == tags::MASTER_SERVER_LIST_REQUEST {
        parsed(take_master_server_list_request(bits))
    } else if tag == tags::MASTER_SERVER_LIST_RESPONSE {
        parsed(take_master_server_list_response(bits))
    } else if tag == tags::GAME_MASTER_INFO_REQUEST {
        parsed(take_game_master_info_request(bits))
    } else if tag == tags::GAME_MASTER_INFO_RESPONSE {
        parsed(take_game_master_info_response(bits))
    } else if tag == tags::GAME_PING_REQUEST {
        parsed(take_game_ping_request(bits))
    } else if tag == tags::GAME_PING_RESPONSE {
        parsed(take_game_ping_response(bits))
    } else if tag == tags::GAME_INFO_REQUEST {
        parsed(take_game_info_request(bits))
    } else if tag == tags::GAME_INFO_RESPONSE {
        parsed(take_game_info_response(bits))
    } else if tag == tags::GAME_HEARTBEAT {
        parsed(take_game_heartbeat(bits))
    } else {
        Ok(None)
    }
}

/// The packets that open and close a connection: tags 26 to 42.
pub open spec fn parse_handshake(
    tag: u8,
    bits: Seq<bool>,
) -> Result<Option<PacketView>, Truncated> {
    if tag == tags::CONNECT_CHALLENGE_REQUEST {
        parsed(take_connect_challenge_request(bits))
    } else if tag == tags::CONNECT_CHALLENGE_REJECT {
        parsed(take_connect_challenge_reject(bits))
    } else if tag == tags::CONNECT_CHALLENGE_RESPONSE {
        parsed(take_connect_challenge_response(bits))
    } else if tag == tags::CONNECT_REQUEST {
        parsed(take_connect_request(bits))
    } else if tag == tags::CONNECT_REJECT {
        parsed(take_connect_reject(bits))
    } else if tag == tags::CONNECT_ACCEPT {
        parsed(take_connect_accept(bits))
    } else if tag == tags::DISCONNECT {
        parsed(take_disconnect(bits))
    } else if tag == tags::PUNCH {
        Ok(Some(PacketView::Punch {  }))
    } else if tag == tags::ARRANGED_CONNECT_REQUEST {
        parsed(take_arranged_connect_request(bits))
    } else {
        Ok(None)
    }
}

/// The packets of arranged connections and the queries through the master server: tags 46 to 62.
pub open spec fn parse_arranged(tag: u8, bits: Seq<bool>) -> Result<Option<PacketView>, Truncated> {
    if tag == tags::MASTER_SERVER_REQUEST_ARRANGED_CONNECTION {
        parsed(take_master_server_request_arranged_connection(bits))
    } else if tag == tags::MASTER_SERVER_CLIENT_REQUESTED_ARRANGED_CONNECTION {
        parsed(take_master_server_client_requested_arranged_connection(bits))
    } else if tag == tags::MASTER_SERVER_ACCEPT_ARRANGED_CONNECTION {
        parsed(take_master_server_accept_arranged_connection(bits))
    } else if tag == tags::MASTER_SERVER_ARRANGED_CONNECTION_ACCEPTED {
        parsed(take_master_server_arranged_connection_accepted(bits))
    } else if tag == tags::MASTER_SERVER_REJECT_ARRANGED_CONNECTION {
        parsed(take_master_server_reject_arranged_connection(bits))
    } else if tag == tags::MASTER_SERVER_ARRANGED_CONNECTION_REJECTED {
        parsed(take_master_server_arranged_connection_rejected(bits))
    } else if tag == tags::MASTER_SERVER_GAME_PING_REQUEST {
        parsed(take_master_server_game_ping_request(bits))
    } else if tag == tags::MASTER_SERVER_GAME_INFO_REQUEST {
        parsed(take_master_server_game_info_request(bits))
    } else {
        Ok(None)
    }
}

/// The packets of relays and invites: tags 66 to 78.
pub open spec fn parse_relay(tag: u8, bits: Seq<bool>, source: PacketSource) -> Result<
    Option<PacketView>,
    Truncated,
> {
    if tag == tags::MASTER_SERVER_RELAY_REQUEST {
        match source {
            PacketSource::GameToGame => Ok(None),
            PacketSource::GameToMaster => parsed(take_master_server_relay_request_to_master(bits)),
            PacketSource::MasterToRelay => parsed(take_master_server_relay_request_to_relay(bits)),
        }
    } else if tag == tags::MASTER_SERVER_RELAY_RESPONSE {
        match source {
            PacketSource::GameToGame => Ok(None),
            PacketSource::GameToMaster => parsed(
                take_master_server_relay_response_from_master(bits)
            ),
            PacketSource::MasterToRelay => parsed(
                take_master_server_relay_response_from_relay(bits)
            ),
        }
    } else if tag == tags::MASTER_SERVER_RELAY_DELETE {
        Ok(Some(PacketView::MasterServerRelayDelete {  }))
    } else if tag == tags::MASTER_SERVER_RELAY_READY {
        parsed(take_master_server_relay_ready(bits))
    } else if tag == tags::MASTER_SERVER_JOIN_INVITE {
        parsed(take_master_server_join_invite(bits))
    } else if tag == tags::MASTER_SERVER_JOIN_INVITE_RESPONSE {
        parsed(take_master_server_join_invite_response(bits))
    } else if tag == tags::MASTER_SERVER_RELAY_HEARTBEAT {
        Ok(Some(PacketView::MasterServerRelayHeartbeat {  }))
    } else {
        Ok(None)
    }
}

/// Reads the fields that `tag` asks for.
#[verifier::opaque]
pub open spec fn parse_fields(tag: u8, bits: Seq<bool>, source: PacketSource) -> Result<
    Option<PacketView>,
    Truncated,
> {
    if tag <= tags::GAME_HEARTBEAT {
        parse_queries(tag, bits)
    } else if tag <= tags::ARRANGED_CONNECT_REQUEST {
        parse_handshake(tag, bits)
    } else if tag <= tags::MASTER_SERVER_GAME_INFO_RESPONSE {
        parse_arranged(tag, bits)
    } else {
        parse_relay(tag, bits, source)
    }
}

/// What a datagram reads as: the packet, or nothing.
pub open spec fn decode(bytes: Seq<u8>, source: PacketSource) -> Option<PacketView> {
    match parse(bytes, 0, source) {
        Ok(packet) => packet,
        Err(_) => None,
    }
}

impl PacketView {
    /// The texts of the packet are short enough for their lengths to go out:
    /// fewer than 256 characters byte by byte, at most 255 in the Huffman code,
    /// fewer than 65536 behind a length of sixteen bits.
    pub open spec fn fits(self) -> bool
        decreases self,
    {
        match self {
            PacketView::MasterServerGameTypesResponse { game_types, mission_types, .. } => {
                &&& (
                    forall|i: int| 0 <= i < game_types.len() ==> (
                        #[trigger] game_types[i]
                    ).len() < 256
                )
                &&& (
                    forall|i: int| 0 <= i < mission_types.len() ==> (
                        #[trigger] mission_types[i]
                    ).len() < 256
                )
            },
            PacketView::MasterServerListRequest { game_type, mission_type, .. } => {
                &&& game_type.len() < 256
                &&& mission_type.len() < 256
            },
            PacketView::GameMasterInfoResponse { game_type, mission_type, .. } => {
                &&& game_type.len() < 256
                &&& mission_type.len() < 256
            },
            PacketView::GamePingResponse { version_string, name, .. } => {
                &&& version_string.len() <= 255
                &&& name.len() <= 255
            },
            PacketView::GameInfoResponse {
                game_type,
                mission_type,
                mission_name,
                server_info,
                server_info_query,
                ..
            } => {
                &&& game_type.len() <= 255
                &&& mission_type.len() <= 255
                &&& mission_name.len() <= 255
                &&& server_info.len() <= 255
                &&& server_info_query.len() < 0x1_0000
            },
            PacketView::ConnectChallengeReject { reason, .. } => {
                &&& reason.len() <= 255
            },
            PacketView::ConnectRequest {
                class_name,
                game_string,
                join_password,
                connect_argv,
                ..
            } => {
                &&& class_name.len() <= 255
                &&& game_string.len() <= 255
                &&& join_password.len() <= 255
                &&& (
                    forall|i: int| 0 <= i < connect_argv.len() ==> (
                        #[trigger] connect_argv[i]
                    ).len() < 256
                )
            },
            PacketView::ConnectReject { reason, .. } => {
                &&& reason.len() <= 255
            },
            PacketView::Disconnect { reason, .. } => {
                &&& reason.len() <= 255
            },
            PacketView::MasterServerGamePingResponse { packet, .. } => {
                &&& packet.fits()
            },
            PacketView::MasterServerGameInfoResponse { packet, .. } => {
                &&& packet.fits()
            },
            PacketView::MasterServerJoinInvite { invite_code, .. } => {
                &&& invite_code.len() < 256
            },
            _ => true,
        }
    }
}

/// Reads the fields of `MasterServerGameTypesRequest`.
fn read_master_server_game_types_request(stream: &mut BitStream) -> (r: Result<Packet, Truncated>)
    ensures
        final(stream)@.bits == old(stream)@.bits,
        match take_master_server_game_types_request(old(stream)@.remaining()) {
            Some(packet) => r matches Ok(read) && read@ == packet,
            None => r is Err,
        },
{
    proof {
        reveal(take_master_server_game_types_request);
    }
    let (flags, key, session) = match read_flags_key_session(stream) {
        Ok(header) => header,
        Err(e) => {
            return Err(e);
        },
    };
    Ok(Packet::MasterServerGameTypesRequest { flags, key, session })
}

/// Writes the fields of `MasterServerGameTypesRequest`.
fn write_master_server_game_types_request(
    out: &mut BitStream,
    flags: u8,
    key: u16,
    session: u16,
)
    requires
        old(out)@.at_end(),
    ensures
        final(out)@.at_end(),
        final(out)@.written() == old(out)@.written() + tagged(
            2,
            master_server_game_types_request_bits(flags, key, session),
        ),
{
    proof {
        lemma2_to64();
        reveal(master_server_game_types_request_bits);
    }
    let ghost w0 = out@.written();
    out.write_u8(tags::MASTER_SERVER_GAME_TYPES_REQUEST);
    let ghost w1 = out@.written();
    write_flags_key_session(out, flags, key, session);
    let ghost w2 = out@.written();
    proof {
        lemma_concat_assoc(w0, int_bits(2, 8), fks_bits(flags, key, session));
    }
}

/// Reads the fields of `MasterServerGameTypesResponse`.
fn read_master_server_game_types_response(stream: &mut BitStream) -> (r: Result<Packet, Truncated>)
    ensures
        final(stream)@.bits == old(stream)@.bits,
        match take_master_server_game_types_response(old(stream)@.remaining()) {
            Some(packet) => r matches Ok(read) && read@ == packet,
            None => r is Err,
        },
{
    proof {
        reveal(take_master_server_game_types_response);
    }
    let (flags, key, session) = match read_flags_key_session(stream) {
        Ok(header) => header,
        Err(e) => {
            return Err(e);
        },
    };
    let count = match stream.read_u8() {
        Ok(count) => count,
        Err(e) => {
            return Err(e);
        },
    };
    let game_types = match read_cstring_list(stream, count as usize) {
        Ok(game_types) => game_types,
        Err(e) => {
            return Err(e);
        },
    };
    let count = match stream.read_u8() {
        Ok(count) => count,
        Err(e) => {
            return Err(e);
        },
    };
    let mission_types = match read_cstring_list(stream, count as usize) {
        Ok(mission_types) => mission_types,
        Err(e) => {
            return Err(e);
        },
    };
    Ok(Packet::MasterServerGameTypesResponse { flags, key, session, game_types, mission_types })
}

/// Writes the fields of `MasterServerGameTypesResponse`.
fn write_master_server_game_types_response(
    out: &mut BitStream,
    flags: u8,
    key: u16,
    session: u16,
    game_types: &Vec<String>,
    mission_types: &Vec<String>,
)
    requires
        old(out)@.at_end(),
        forall|i: int| 0 <= i < texts_of(game_types@).len() ==> (
            #[trigger] texts_of(game_types@)[i]
        ).len() < 256,
        forall|i: int| 0 <= i < texts_of(mission_types@).len() ==> (
            #[trigger] texts_of(mission_types@)[i]
        ).len() < 256,
    ensures
        final(out)@.at_end(),
        final(out)@.written() == old(out)@.written() + tagged(
            4,
            master_server_game_types_response_bits(
                flags,
                key,
                session,
                texts_of(game_types@),
                texts_of(mission_types@),
            ),
        ),
{
    proof {
        lemma2_to64();
        reveal(master_server_game_types_response_bits);
    }
    let ghost w0 = out@.written();
    out.write_u8(tags::MASTER_SERVER_GAME_TYPES_RESPONSE);
    let ghost w1 = out@.written();
    write_flags_key_session(out, flags, key, session);
    let ghost w2 = out@.written();
    proof {
        assert forall|i: int| 0 <= i < game_types@.len() implies (
            #[trigger] game_types@[i]
        )@.len() < 256 by {
            assert(texts_of(game_types@)[i] == game_types@[i]@);
        }
    }
    out.write_u8((game_types.len() % 256) as u8);
    let ghost counted = out@.written();
    write_cstring_list(out, game_types);
    proof {
        lemma_concat_assoc(
            w2,
            int_bits((texts_of(game_types@).len() % pow2(8)) as nat, 8),
            list_bits(texts_of(game_types@), ctext_encoder()),
        );
    }
    let ghost w3 = out@.written();
    proof {
        assert forall|i: int| 0 <= i < mission_types@.len() implies (
            #[trigger] mission_types@[i]
        )@.len() < 256 by {
            assert(texts_of(mission_types@)[i] == mission_types@[i]@);
        }
    }
    out.write_u8((mission_types.len() % 256) as u8);
    let ghost counted = out@.written();
    write_cstring_list(out, mission_types);
    proof {
        lemma_concat_assoc(
            w3,
            int_bits((texts_of(mission_types@).len() % pow2(8)) as nat, 8),
            list_bits(texts_of(mission_types@), ctext_encoder()),
        );
    }
    let ghost w4 = out@.written();
    proof {
        lemma_concat_assoc(
            w2,
            counted_bits(texts_of(game_types@), 8, ctext_encoder()),
            counted_bits(texts_of(mission_types@), 8, ctext_encoder()),
        );
        lemma_concat_assoc(
            w1,
            fks_bits(flags, key, session),
            counted_bits(texts_of(game_types@), 8, ctext_encoder()) + (
                counted_bits(texts_of(mission_types@), 8, ctext_encoder())
            ),
        );
        lemma_concat_assoc(
            w0,
            int_bits(4, 8),
            fks_bits(flags, key, session) + (
                counted_bits(texts_of(game_types@), 8, ctext_encoder()) + (
                    counted_bits(texts_of(mission_types@), 8, ctext_encoder())
                )
            ),
        );
    }
}

/// Reads the fields of `MasterServerListRequest` from `filter_flag` on.
fn read_master_server_list_request_tail2(
    stream: &mut BitStream,
    flags: u8,
    key: u16,
    session: u16,
    packet_index: u8,
    game_type: String,
    mission_type: String,
    min_players: u8,
    max_players: u8,
    region_mask: u32,
    version: u32,
) -> (r: Result<Packet, Truncated>)
    ensures
        final(stream)@.bits == old(stream)@.bits,
        match take_master_server_list_request_tail2(
            old(stream)@.remaining(),
            flags,
            key,
            session,
            packet_index,
            game_type@,
            mission_type@,
            min_players,
            max_players,
            region_mask,
            version,
        ) {
            Some(packet) => r matches Ok(read) && read@ == packet,
            None => r is Err,
        },
{
    proof {
        reveal(take_master_server_list_request_tail2);
    }
    let filter_flag = match stream.read_u8() {
        Ok(filter_flag) => filter_flag,
        Err(e) => {
            return Err(e);
        },
    };
    let max_bots = match stream.read_u8() {
        Ok(max_bots) => max_bots,
        Err(e) => {
            return Err(e);
        },
    };
    let min_cpu = match stream.read_u16() {
        Ok(min_cpu) => min_cpu,
        Err(e) => {
            return Err(e);
        },
    };
    let count = match stream.read_u8() {
        Ok(count) => count,
        Err(e) => {
            return Err(e);
        },
    };
    let buddy_list = match read_u32_list(stream, count as usize) {
        Ok(buddy_list) => buddy_list,
        Err(e) => {
            return Err(e);
        },
    };
    Ok(
        Packet::MasterServerListRequest {
            flags,
            key,
            session,
            packet_index,
            game_type,
            mission_type,
            min_players,
            max_players,
            region_mask,
            version,
            filter_flag,
            max_bots,
            min_cpu,
            buddy_list,
        }
    )
}

/// Writes the fields of `MasterServerListRequest` from `filter_flag` on.
fn write_master_server_list_request_tail2(
    out: &mut BitStream,
    filter_flag: u8,
    max_bots: u8,
    min_cpu: u16,
    buddy_list: &Vec<u32>,
)
    requires
        old(out)@.at_end(),
    ensures
        final(out)@.at_end(),
        final(out)@.written() == old(out)@.written() + master_server_list_request_tail2_bits(
            filter_flag,
            max_bots,
            min_cpu,
            buddy_list@,
        ),
{
    proof {
        lemma2_to64();
        reveal(master_server_list_request_tail2_bits);
    }
    let ghost w0 = out@.written();
    out.write_u8(filter_flag);
    let ghost w1 = out@.written();
    out.write_u8(max_bots);
    let ghost w2 = out@.written();
    out.write_u16(min_cpu);
    let ghost w3 = out@.written();
    out.write_u8((buddy_list.len() % 256) as u8);
    let ghost counted = out@.written();
    write_u32_list(out, buddy_list);
    proof {
        lemma_concat_assoc(
            w3,
            int_bits((buddy_list@.len() % pow2(8)) as nat, 8),
            list_bits(buddy_list@, u32_bits()),
        );
    }
    let ghost w4 = out@.written();
    proof {
        lemma_concat_assoc(
            w2,
            int_bits(min_cpu as nat, 16),
            counted_bits(buddy_list@, 8, u32_bits()),
        );
        lemma_concat_assoc(
            w1,
            int_bits(max_bots as nat, 8),
            int_bits(min_cpu as nat, 16) + (counted_bits(buddy_list@, 8, u32_bits())),
        );
        lemma_concat_assoc(
            w0,
            int_bits(filter_flag as nat, 8),
            int_bits(max_bots as nat, 8) + (
                int_bits(min_cpu as nat, 16) + (counted_bits(buddy_list@, 8, u32_bits()))
            ),
        );
    }
}

/// Reads the fields of `MasterServerListRequest` from `min_players` on.
fn read_master_server_list_request_tail(
    stream: &mut BitStream,
    flags: u8,
    key: u16,
    session: u16,
    packet_index: u8,
    game_type: String,
    mission_type: String,
) -> (r: Result<Packet, Truncated>)
    ensures
        final(stream)@.bits == old(stream)@.bits,
        match take_master_server_list_request_tail(
            old(stream)@.remaining(),
            flags,
            key,
            session,
            packet_index,
            game_type@,
            mission_type@,
        ) {
            Some(packet) => r matches Ok(read) && read@ == packet,
            None => r is Err,
        },
{
    proof {
        reveal(take_master_server_list_request_tail);
    }
    let min_players = match stream.read_u8() {
        Ok(min_players) => min_players,
        Err(e) => {
            return Err(e);
        },
    };
    let max_players = match stream.read_u8() {
        Ok(max_players) => max_players,
        Err(e) => {
            return Err(e);
        },
    };
    let region_mask = match stream.read_u32() {
        Ok(region_mask) => region_mask,
        Err(e) => {
            return Err(e);
        },
    };
    let version = match stream.read_u32() {
        Ok(version) => version,
        Err(e) => {
            return Err(e);
        },
    };
    read_master_server_list_request_tail2(
        stream,
        flags,
        key,
        session,
        packet_index,
        game_type,
        mission_type,
        min_players,
        max_players,
        region_mask,
        version,
    )
}

/// Writes the fields of `MasterServerListRequest` from `min_players` on.
fn write_master_server_list_request_tail(
    out: &mut BitStream,
    min_players: u8,
    max_players: u8,
    region_mask: u32,
    version: u32,
    filter_flag: u8,
    max_bots: u8,
    min_cpu: u16,
    buddy_list: &Vec<u32>,
)
    requires
        old(out)@.at_end(),
    ensures
        final(out)@.at_end(),
        final(out)@.written() == old(out)@.written() + master_server_list_request_tail_bits(
            min_players,
            max_players,
            region_mask,
            version,
            filter_flag,
            max_bots,
            min_cpu,
            buddy_list@,
        ),
{
    proof {
        lemma2_to64();
        reveal(master_server_list_request_tail_bits);
    }
    let ghost w0 = out@.written();
    out.write_u8(min_players);
    let ghost w1 = out@.written();
    out.write_u8(max_players);
    let ghost w2 = out@.written();
    out.write_u32(region_mask);
    let ghost w3 = out@.written();
    out.write_u32(
        if (filter_flag & tags::CURRENT_VERSION) == tags::CURRENT_VERSION {
            version
        } else {
            0
        },
    );
    let ghost w4 = out@.written();
    write_master_server_list_request_tail2(out, filter_flag, max_bots, min_cpu, buddy_list);
    proof {
        lemma_concat_assoc(
            w3,
            int_bits((if filter_flag & 128 == 128 { version } else { 0u32 }) as nat, 32),
            master_server_list_request_tail2_bits(filter_flag, max_bots, min_cpu, buddy_list@),
        );
        lemma_concat_assoc(
            w2,
            int_bits(region_mask as nat, 32),
            int_bits((if filter_flag & 128 == 128 { version } else { 0u32 }) as nat, 32) + (
                master_server_list_request_tail2_bits(filter_flag, max_bots, min_cpu, buddy_list@)
            ),
        );
        lemma_concat_assoc(
            w1,
            int_bits(max_players as nat, 8),
            int_bits(region_mask as nat, 32) + (
                int_bits((if filter_flag & 128 == 128 { version } else { 0u32 }) as nat, 32) + (
                    master_server_list_request_tail2_bits(
                        filter_flag,
                        max_bots,
                        min_cpu,
                        buddy_list@,
                    )
                )
            ),
        );
        lemma_concat_assoc(
            w0,
            int_bits(min_players as nat, 8),
            int_bits(max_players as nat, 8) + (
                int_bits(region_mask as nat, 32) + (
                    int_bits((if filter_flag & 128 == 128 { version } else { 0u32 }) as nat, 32) + (
                        master_server_list_request_tail2_bits(
                            filter_flag,
                            max_bots,
                            min_cpu,
                            buddy_list@,
                        )
                    )
                )
            ),
        );
    }
}

/// Reads the fields of `MasterServerListRequest`.
fn read_master_server_list_request(stream: &mut BitStream) -> (r: Result<Packet, Truncated>)
    ensures
        final(stream)@.bits == old(stream)@.bits,
        match take_master_server_list_request(old(stream)@.remaining()) {
            Some(packet) => r matches Ok(read) && read@ == packet,
            None => r is Err,
        },
{
    proof {
        reveal(take_master_server_list_request);
    }
    let (flags, key, session) = match read_flags_key_session(stream) {
        Ok(header) => header,
        Err(e) => {
            return Err(e);
        },
    };
    let packet_index = match stream.read_u8() {
        Ok(packet_index) => packet_index,
        Err(e) => {
            return Err(e);
        },
    };
    let game_type = match stream.read_cstring() {
        Ok(game_type) => game_type,
        Err(e) => {
            return Err(e);
        },
    };
    let mission_type = match stream.read_cstring() {
        Ok(mission_type) => mission_type,
        Err(e) => {
            return Err(e);
        },
    };
    read_master_server_list_request_tail(
        stream,
        flags,
        key,
        session,
        packet_index,
        game_type,
        mission_type,
    )
}

/// Writes the fields of `MasterServerListRequest`.
fn write_master_server_list_request(
    out: &mut BitStream,
    flags: u8,
    key: u16,
    session: u16,
    packet_index: u8,
    game_type: &String,
    mission_type: &String,
    min_players: u8,
    max_players: u8,
    region_mask: u32,
    version: u32,
    filter_flag: u8,
    max_bots: u8,
    min_cpu: u16,
    buddy_list: &Vec<u32>,
)
    requires
        old(out)@.at_end(),
        game_type@.len() < 256,
        mission_type@.len() < 256,
    ensures
        final(out)@.at_end(),
        final(out)@.written() == old(out)@.written() + tagged(
            6,
            master_server_list_request_bits(
                flags,
                key,
                session,
                packet_index,
                game_type@,
                mission_type@,
                min_players,
                max_players,
                region_mask,
                version,
                filter_flag,
                max_bots,
                min_cpu,
                buddy_list@,
            ),
        ),
{
    proof {
        lemma2_to64();
        reveal(master_server_list_request_bits);
    }
    let ghost w0 = out@.written();
    out.write_u8(tags::MASTER_SERVER_LIST_REQUEST);
    let ghost w1 = out@.written();
    write_flags_key_session(out, flags, key, session);
    let ghost w2 = out@.written();
    out.write_u8(packet_index);
    let ghost w3 = out@.written();
    out.write_cstring(game_type);
    let ghost w4 = out@.written();
    out.write_cstring(mission_type);
    let ghost w5 = out@.written();
    write_master_server_list_request_tail(
        out,
        min_players,
        max_players,
        region_mask,
        version,
        filter_flag,
        max_bots,
        min_cpu,
        buddy_list,
    );
    proof {
        lemma_concat_assoc(
            w4,
            ctext_bits(mission_type@),
            master_server_list_request_tail_bits(
                min_players,
                max_players,
                region_mask,
                version,
                filter_flag,
                max_bots,
                min_cpu,
                buddy_list@,
            ),
        );
        lemma_concat_assoc(
            w3,
            ctext_bits(game_type@),
            ctext_bits(mission_type@) + (
                master_server_list_request_tail_bits(
                    min_players,
                    max_players,
                    region_mask,
                    version,
                    filter_flag,
                    max_bots,
                    min_cpu,
                    buddy_list@,
                )
            ),
        );
        lemma_concat_assoc(
            w2,
            int_bits(packet_index as nat, 8),
            ctext_bits(game_type@) + (
                ctext_bits(mission_type@) + (
                    master_server_list_request_tail_bits(
                        min_players,
                        max_players,
                        region_mask,
                        version,
                        filter_flag,
                        max_bots,
                        min_cpu,
                        buddy_list@,
                    )
                )
            ),
        );
        lemma_concat_assoc(
            w1,
            fks_bits(flags, key, session),
            int_bits(packet_index as nat, 8) + (
                ctext_bits(game_type@) + (
                    ctext_bits(mission_type@) + (
                        master_server_list_request_tail_bits(
                            min_players,
                            max_players,
                            region_mask,
                            version,
                            filter_flag,
                            max_bots,
                            min_cpu,
                            buddy_list@,
                        )
                    )
                )
            ),
        );
        lemma_concat_assoc(
            w0,
            int_bits(6, 8),
            fks_bits(flags, key, session) + (
                int_bits(packet_index as nat, 8) + (
                    ctext_bits(game_type@) + (
                        ctext_bits(mission_type@) + (
                            master_server_list_request_tail_bits(
                                min_players,
                                max_players,
                                region_mask,
                                version,
                                filter_flag,
                                max_bots,
                                min_cpu,
                                buddy_list@,
                            )
                        )
                    )
                )
            ),
        );
    }
}

/// Reads the fields of `MasterServerListResponse`.
fn read_master_server_list_response(stream: &mut BitStream) -> (r: Result<Packet, Truncated>)
    ensures
        final(stream)@.bits == old(stream)@.bits,
        match take_master_server_list_response(old(stream)@.remaining()) {
            Some(packet) => r matches Ok(read) && read@ == packet,
            None => r is Err,
        },
{
    proof {
        reveal(take_master_server_list_response);
    }
    let (flags, key, session) = match read_flags_key_session(stream) {
        Ok(header) => header,
        Err(e) => {
            return Err(e);
        },
    };
    let packet_index = match stream.read_u8() {
        Ok(packet_index) => packet_index,
        Err(e) => {
            return Err(e);
        },
    };
    let packet_total = match stream.read_u8() {
        Ok(packet_total) => packet_total,
        Err(e) => {
            return Err(e);
        },
    };
    let count = match stream.read_u16() {
        Ok(count) => count,
        Err(e) => {
            return Err(e);
        },
    };
    let servers = match read_endpoint_list(stream, count as usize) {
        Ok(servers) => servers,
        Err(e) => {
            return Err(e);
        },
    };
    Ok(
        Packet::MasterServerListResponse {
            flags,
            key,
            session,
            packet_index,
            packet_total,
            servers,
        }
    )
}

/// Writes the fields of `MasterServerListResponse`.
fn write_master_server_list_response(
    out: &mut BitStream,
    flags: u8,
    key: u16,
    session: u16,
    packet_index: u8,
    packet_total: u8,
    servers: &Vec<Endpoint>,
)
    requires
        old(out)@.at_end(),
    ensures
        final(out)@.at_end(),
        final(out)@.written() == old(out)@.written() + tagged(
            8,
            master_server_list_response_bits(
                flags,
                key,
                session,
                packet_index,
                packet_total,
                servers@,
            ),
        ),
{
    proof {
        lemma2_to64();
        reveal(master_server_list_response_bits);
    }
    let ghost w0 = out@.written();
    out.write_u8(tags::MASTER_SERVER_LIST_RESPONSE);
    let ghost w1 = out@.written();
    write_flags_key_session(out, flags, key, session);
    let ghost w2 = out@.written();
    out.write_u8(packet_index);
    let ghost w3 = out@.written();
    out.write_u8(packet_total);
    let ghost w4 = out@.written();
    out.write_u16((servers.len() % 65536) as u16);
    let ghost counted = out@.written();
    write_endpoint_list(out, servers);
    proof {
        lemma_concat_assoc(
            w4,
            int_bits((servers@.len() % pow2(16)) as nat, 16),
            list_bits(servers@, endpoint_encoder()),
        );
    }
    let ghost w5 = out@.written();
    proof {
        lemma_concat_assoc(
            w3,
            int_bits(packet_total as nat, 8),
            counted_bits(servers@, 16, endpoint_encoder()),
        );
        lemma_concat_assoc(
            w2,
            int_bits(packet_index as nat, 8),
            int_bits(packet_total as nat, 8) + (counted_bits(servers@, 16, endpoint_encoder())),
        );
        lemma_concat_assoc(
            w1,
            fks_bits(flags, key, session),
            int_bits(packet_index as nat, 8) + (
                int_bits(packet_total as nat, 8) + (counted_bits(servers@, 16, endpoint_encoder()))
            ),
        );
        lemma_concat_assoc(
            w0,
            int_bits(8, 8),
            fks_bits(flags, key, session) + (
                int_bits(packet_index as nat, 8) + (
                    int_bits(packet_total as nat, 8) + (
                        counted_bits(servers@, 16, endpoint_encoder())
                    )
                )
            ),
        );
    }
}

/// Reads the fields of `GameMasterInfoRequest`.
fn read_game_master_info_request(stream: &mut BitStream) -> (r: Result<Packet, Truncated>)
    ensures
        final(stream)@.bits == old(stream)@.bits,
        match take_game_master_info_request(old(stream)@.remaining()) {
            Some(packet) => r matches Ok(read) && read@ == packet,
            None => r is Err,
        },
{
    proof {
        reveal(take_game_master_info_request);
    }
    let (flags, key, session) = match read_flags_key_session(stream) {
        Ok(header) => header,
        Err(e) => {
            return Err(e);
        },
    };
    Ok(Packet::GameMasterInfoRequest { flags, key, session })
}

/// Writes the fields of `GameMasterInfoRequest`.
fn write_game_master_info_request(
    out: &mut BitStream,
    flags: u8,
    key: u16,
    session: u16,
)
    requires
        old(out)@.at_end(),
    ensures
        final(out)@.at_end(),
        final(out)@.written() == old(out)@.written() + tagged(
            10,
            game_master_info_request_bits(flags, key, session),
        ),
{
    proof {
        lemma2_to64();
        reveal(game_master_info_request_bits);
    }
    let ghost w0 = out@.written();
    out.write_u8(tags::GAME_MASTER_INFO_REQUEST);
    let ghost w1 = out@.written();
    write_flags_key_session(out, flags, key, session);
    let ghost w2 = out@.written();
    proof {
        lemma_concat_assoc(w0, int_bits(10, 8), fks_bits(flags, key, session));
    }
}

/// Reads the fields of `GameMasterInfoResponse` from `cpu_speed` on.
fn read_game_master_info_response_tail2(
    stream: &mut BitStream,
    flags: u8,
    key: u16,
    session: u16,
    game_type: String,
    mission_type: String,
    max_players: u8,
    region_mask: u32,
    version: u32,
    filter_flag: u8,
    bot_count: u8,
) -> (r: Result<Packet, Truncated>)
    ensures
        final(stream)@.bits == old(stream)@.bits,
        match take_game_master_info_response_tail2(
            old(stream)@.remaining(),
            flags,
            key,
            session,
            game_type@,
            mission_type@,
            max_players,
            region_mask,
            version,
            filter_flag,
            bot_count,
        ) {
            Some(packet) => r matches Ok(read) && read@ == packet,
            None => r is Err,
        },
{
    proof {
        reveal(take_game_master_info_response_tail2);
    }
    let cpu_speed = match stream.read_u32() {
        Ok(cpu_speed) => cpu_speed,
        Err(e) => {
            return Err(e);
        },
    };
    let player_count = match stream.read_u8() {
        Ok(player_count) => player_count,
        Err(e) => {
            return Err(e);
        },
    };
    let guid_list = read_guids(stream, player_count);
    Ok(
        Packet::GameMasterInfoResponse {
            flags,
            key,
            session,
            game_type,
            mission_type,
            max_players,
            region_mask,
            version,
            filter_flag,
            bot_count,
            cpu_speed,
            player_count,
            guid_list,
        }
    )
}

/// Writes the fields of `GameMasterInfoResponse` from `cpu_speed` on.
fn write_game_master_info_response_tail2(
    out: &mut BitStream,
    cpu_speed: u32,
    player_count: u8,
    guid_list: &Vec<u32>,
)
    requires
        old(out)@.at_end(),
    ensures
        final(out)@.at_end(),
        final(out)@.written() == old(out)@.written() + game_master_info_response_tail2_bits(
            cpu_speed,
            player_count,
            guid_list@,
        ),
{
    proof {
        lemma2_to64();
        reveal(game_master_info_response_tail2_bits);
    }
    let ghost w0 = out@.written();
    out.write_u32(cpu_speed);
    let ghost w1 = out@.written();
    out.write_u8(player_count);
    let ghost w2 = out@.written();
    write_guids(out, guid_list, player_count);
    let ghost w3 = out@.written();
    proof {
        lemma_concat_assoc(
            w1,
            int_bits(player_count as nat, 8),
            guids_bits(guid_list@, player_count),
        );
        lemma_concat_assoc(
            w0,
            int_bits(cpu_speed as nat, 32),
            int_bits(player_count as nat, 8) + (guids_bits(guid_list@, player_count)),
        );
    }
}

/// Reads the fields of `GameMasterInfoResponse` from `region_mask` on.
fn read_game_master_info_response_tail(
    stream: &mut BitStream,
    flags: u8,
    key: u16,
    session: u16,
    game_type: String,
    mission_type: String,
    max_players: u8,
) -> (r: Result<Packet, Truncated>)
    ensures
        final(stream)@.bits == old(stream)@.bits,
        match take_game_master_info_response_tail(
            old(stream)@.remaining(),
            flags,
            key,
            session,
            game_type@,
            mission_type@,
            max_players,
        ) {
            Some(packet) => r matches Ok(read) && read@ == packet,
            None => r is Err,
        },
{
    proof {
        reveal(take_game_master_info_response_tail);
    }
    let region_mask = match stream.read_u32() {
        Ok(region_mask) => region_mask,
        Err(e) => {
            return Err(e);
        },
    };
    let version = match stream.read_u32() {
        Ok(version) => version,
        Err(e) => {
            return Err(e);
        },
    };
    let filter_flag = match stream.read_u8() {
        Ok(filter_flag) => filter_flag,
        Err(e) => {
            return Err(e);
        },
    };
    let bot_count = match stream.read_u8() {
        Ok(bot_count) => bot_count,
        Err(e) => {
            return Err(e);
        },
    };
    read_game_master_info_response_tail2(
        stream,
        flags,
        key,
        session,
        game_type,
        mission_type,
        max_players,
        region_mask,
        version,
        filter_flag,
        bot_count,
    )
}

/// Writes the fields of `GameMasterInfoResponse` from `region_mask` on.
fn write_game_master_info_response_tail(
    out: &mut BitStream,
    region_mask: u32,
    version: u32,
    filter_flag: u8,
    bot_count: u8,
    cpu_speed: u32,
    player_count: u8,
    guid_list: &Vec<u32>,
)
    requires
        old(out)@.at_end(),
    ensures
        final(out)@.at_end(),
        final(out)@.written() == old(out)@.written() + game_master_info_response_tail_bits(
            region_mask,
            version,
            filter_flag,
            bot_count,
            cpu_speed,
            player_count,
            guid_list@,
        ),
{
    proof {
        lemma2_to64();
        reveal(game_master_info_response_tail_bits);
    }
    let ghost w0 = out@.written();
    out.write_u32(region_mask);
    let ghost w1 = out@.written();
    out.write_u32(version);
    let ghost w2 = out@.written();
    out.write_u8(filter_flag);
    let ghost w3 = out@.written();
    out.write_u8(bot_count);
    let ghost w4 = out@.written();
    write_game_master_info_response_tail2(out, cpu_speed, player_count, guid_list);
    proof {
        lemma_concat_assoc(
            w3,
            int_bits(bot_count as nat, 8),
            game_master_info_response_tail2_bits(cpu_speed, player_count, guid_list@),
        );
        lemma_concat_assoc(
            w2,
            int_bits(filter_flag as nat, 8),
            int_bits(bot_count as nat, 8) + (
                game_master_info_response_tail2_bits(cpu_speed, player_count, guid_list@)
            ),
        );
        lemma_concat_assoc(
            w1,
            int_bits(version as nat, 32),
            int_bits(filter_flag as nat, 8) + (
                int_bits(bot_count as nat, 8) + (
                    game_master_info_response_tail2_bits(cpu_speed, player_count, guid_list@)
                )
            ),
        );
        lemma_concat_assoc(
            w0,
            int_bits(region_mask as nat, 32),
            int_bits(version as nat, 32) + (
                int_bits(filter_flag as nat, 8) + (
                    int_bits(bot_count as nat, 8) + (
                        game_master_info_response_tail2_bits(cpu_speed, player_count, guid_list@)
                    )
                )
            ),
        );
    }
}

/// Reads the fields of `GameMasterInfoResponse`.
fn read_game_master_info_response(stream: &mut BitStream) -> (r: Result<Packet, Truncated>)
    ensures
        final(stream)@.bits == old(stream)@.bits,
        match take_game_master_info_response(old(stream)@.remaining()) {
            Some(packet) => r matches Ok(read) && read@ == packet,
            None => r is Err,
        },
{
    proof {
        reveal(take_game_master_info_response);
    }
    let (flags, key, session) = match read_flags_key_session(stream) {
        Ok(header) => header,
        Err(e) => {
            return Err(e);
        },
    };
    let game_type = match stream.read_cstring() {
        Ok(game_type) => game_type,
        Err(e) => {
            return Err(e);
        },
    };
    let mission_type = match stream.read_cstring() {
        Ok(mission_type) => mission_type,
        Err(e) => {
            return Err(e);
        },
    };
    let max_players = match stream.read_u8() {
        Ok(max_players) => max_players,
        Err(e) => {
            return Err(e);
        },
    };
    read_game_master_info_response_tail(
        stream,
        flags,
        key,
        session,
        game_type,
        mission_type,
        max_players,
    )
}

/// Writes the fields of `GameMasterInfoResponse`.
fn write_game_master_info_response(
    out: &mut BitStream,
    flags: u8,
    key: u16,
    session: u16,
    game_type: &String,
    mission_type: &String,
    max_players: u8,
    region_mask: u32,
    version: u32,
    filter_flag: u8,
    bot_count: u8,
    cpu_speed: u32,
    player_count: u8,
    guid_list: &Vec<u32>,
)
    requires
        old(out)@.at_end(),
        game_type@.len() < 256,
        mission_type@.len() < 256,
    ensures
        final(out)@.at_end(),
        final(out)@.written() == old(out)@.written() + tagged(
            12,
            game_master_info_response_bits(
                flags,
                key,
                session,
                game_type@,
                mission_type@,
                max_players,
                region_mask,
                version,
                filter_flag,
                bot_count,
                cpu_speed,
                player_count,
                guid_list@,
            ),
        ),
{
    proof {
        lemma2_to64();
        reveal(game_master_info_response_bits);
    }
    let ghost w0 = out@.written();
    out.write_u8(tags::GAME_MASTER_INFO_RESPONSE);
    let ghost w1 = out@.written();
    write_flags_key_session(out, flags, key, session);
    let ghost w2 = out@.written();
    out.write_cstring(game_type);
    let ghost w3 = out@.written();
    out.write_cstring(mission_type);
    let ghost w4 = out@.written();
    out.write_u8(max_players);
    let ghost w5 = out@.written();
    write_game_master_info_response_tail(
        out,
        region_mask,
        version,
        filter_flag,
        bot_count,
        cpu_speed,
        player_count,
        guid_list,
    );
    proof {
        lemma_concat_assoc(
            w4,
            int_bits(max_players as nat, 8),
            game_master_info_response_tail_bits(
                region_mask,
                version,
                filter_flag,
                bot_count,
                cpu_speed,
                player_count,
                guid_list@,
            ),
        );
        lemma_concat_assoc(
            w3,
            ctext_bits(mission_type@),
            int_bits(max_players as nat, 8) + (
                game_master_info_response_tail_bits(
                    region_mask,
                    version,
                    filter_flag,
                    bot_count,
                    cpu_speed,
                    player_count,
                    guid_list@,
                )
            ),
        );
        lemma_concat_assoc(
            w2,
            ctext_bits(game_type@),
            ctext_bits(mission_type@) + (
                int_bits(max_players as nat, 8) + (
                    game_master_info_response_tail_bits(
                        region_mask,
                        version,
                        filter_flag,
                        bot_count,
                        cpu_speed,
                        player_count,
                        guid_list@,
                    )
                )
            ),
        );
        lemma_concat_assoc(
            w1,
            fks_bits(flags, key, session),
            ctext_bits(game_type@) + (
                ctext_bits(mission_type@) + (
                    int_bits(max_players as nat, 8) + (
                        game_master_info_response_tail_bits(
                            region_mask,
                            version,
                            filter_flag,
                            bot_count,
                            cpu_speed,
                            player_count,
                            guid_list@,
                        )
                    )
                )
            ),
        );
        lemma_concat_assoc(
            w0,
            int_bits(12, 8),
            fks_bits(flags, key, session) + (
                ctext_bits(game_type@) + (
                    ctext_bits(mission_type@) + (
                        int_bits(max_players as nat, 8) + (
                            game_master_info_response_tail_bits(
                                region_mask,
                                version,
                                filter_flag,
                                bot_count,
                                cpu_speed,
                                player_count,
                                guid_list@,
                            )
                        )
                    )
                )
            ),
        );
    }
}

/// Reads the fields of `GamePingRequest`.
fn read_game_ping_request(stream: &mut BitStream) -> (r: Result<Packet, Truncated>)
    ensures
        final(stream)@.bits == old(stream)@.bits,
        match take_game_ping_request(old(stream)@.remaining()) {
            Some(packet) => r matches Ok(read) && read@ == packet,
            None => r is Err,
        },
{
    proof {
        reveal(take_game_ping_request);
    }
    let (flags, key, session) = match read_flags_key_session(stream) {
        Ok(header) => header,
        Err(e) => {
            return Err(e);
        },
    };
    Ok(Packet::GamePingRequest { flags, key, session })
}

/// Writes the fields of `GamePingRequest`.
fn write_game_ping_request(
    out: &mut BitStream,
    flags: u8,
    key: u16,
    session: u16,
)
    requires
        old(out)@.at_end(),
    ensures
        final(out)@.at_end(),
        final(out)@.written() == old(out)@.written() + tagged(
            14,
            game_ping_request_bits(flags, key, session),
        ),
{
    proof {
        lemma2_to64();
        reveal(game_ping_request_bits);
    }
    let ghost w0 = out@.written();
    out.write_u8(tags::GAME_PING_REQUEST);
    let ghost w1 = out@.written();
    write_flags_key_session(out, flags, key, session);
    let ghost w2 = out@.written();
    proof {
        lemma_concat_assoc(w0, int_bits(14, 8), fks_bits(flags, key, session));
    }
}

/// Reads the fields of `GamePingResponse` from `version` on.
fn read_game_ping_response_tail(
    stream: &mut BitStream,
    huffman: &HuffmanProcessor,
    flags: u8,
    key: u16,
    session: u16,
    version_string: String,
    current_protocol_version: u32,
    min_required_protocol_version: u32,
) -> (r: Result<Packet, Truncated>)
    ensures
        final(stream)@.bits == old(stream)@.bits,
        match take_game_ping_response_tail(
            old(stream)@.remaining(),
            flags,
            key,
            session,
            version_string@,
            current_protocol_version,
            min_required_protocol_version,
        ) {
            Some(packet) => r matches Ok(read) && read@ == packet,
            None => r is Err,
        },
{
    proof {
        reveal(take_game_ping_response_tail);
    }
    let version = match stream.read_u32() {
        Ok(version) => version,
        Err(e) => {
            return Err(e);
        },
    };
    let name = match read_maybe_compressed_string(stream, huffman, flags) {
        Ok(name) => name,
        Err(e) => {
            return Err(e);
        },
    };
    Ok(
        Packet::GamePingResponse {
            flags,
            key,
            session,
            version_string,
            current_protocol_version,
            min_required_protocol_version,
            version,
            name,
        }
    )
}

/// Writes the fields of `GamePingResponse` from `version` on.
fn write_game_ping_response_tail(
    out: &mut BitStream,
    huffman: &HuffmanProcessor,
    flags: u8,
    version: u32,
    name: &String,
)
    requires
        old(out)@.at_end(),
        name@.len() <= 255,
    ensures
        final(out)@.at_end(),
        final(out)@.written() == old(out)@.written() + game_ping_response_tail_bits(
            flags,
            version,
            name@,
        ),
{
    proof {
        lemma2_to64();
        reveal(game_ping_response_tail_bits);
    }
    let ghost w0 = out@.written();
    out.write_u32(version);
    let ghost w1 = out@.written();
    write_maybe_compressed_string(out, huffman, flags, name);
    let ghost w2 = out@.written();
    proof {
        lemma_concat_assoc(w0, int_bits(version as nat, 32), maybe_text_bits(flags, name@));
    }
}

/// Reads the fields of `GamePingResponse`.
fn read_game_ping_response(
    stream: &mut BitStream,
    huffman: &HuffmanProcessor,
) -> (r: Result<Packet, Truncated>)
    ensures
        final(stream)@.bits == old(stream)@.bits,
        match take_game_ping_response(old(stream)@.remaining()) {
            Some(packet) => r matches Ok(read) && read@ == packet,
            None => r is Err,
        },
{
    proof {
        reveal(take_game_ping_response);
    }
    let (flags, key, session) = match read_flags_key_session(stream) {
        Ok(header) => header,
        Err(e) => {
            return Err(e);
        },
    };
    let version_string = match read_maybe_compressed_string(stream, huffman, flags) {
        Ok(version_string) => version_string,
        Err(e) => {
            return Err(e);
        },
    };
    let current_protocol_version = match stream.read_u32() {
        Ok(current_protocol_version) => current_protocol_version,
        Err(e) => {
            return Err(e);
        },
    };
    let min_required_protocol_version = match stream.read_u32() {
        Ok(min_required_protocol_version) => min_required_protocol_version,
        Err(e) => {
            return Err(e);
        },
    };
    read_game_ping_response_tail(
        stream,
        huffman,
        flags,
        key,
        session,
        version_string,
        current_protocol_version,
        min_required_protocol_version,
    )
}

/// Writes the fields of `GamePingResponse`.
fn write_game_ping_response(
    out: &mut BitStream,
    huffman: &HuffmanProcessor,
    flags: u8,
    key: u16,
    session: u16,
    version_string: &String,
    current_protocol_version: u32,
    min_required_protocol_version: u32,
    version: u32,
    name: &String,
)
    requires
        old(out)@.at_end(),
        version_string@.len() <= 255,
        name@.len() <= 255,
    ensures
        final(out)@.at_end(),
        final(out)@.written() == old(out)@.written() + tagged(
            16,
            game_ping_response_bits(
                flags,
                key,
                session,
                version_string@,
                current_protocol_version,
                min_required_protocol_version,
                version,
                name@,
            ),
        ),
{
    proof {
        lemma2_to64();
        reveal(game_ping_response_bits);
    }
    let ghost w0 = out@.written();
    out.write_u8(tags::GAME_PING_RESPONSE);
    let ghost w1 = out@.written();
    write_flags_key_session(out, flags, key, session);
    let ghost w2 = out@.written();
    write_maybe_compressed_string(out, huffman, flags, version_string);
    let ghost w3 = out@.written();
    out.write_u32(current_protocol_version);
    let ghost w4 = out@.written();
    out.write_u32(min_required_protocol_version);
    let ghost w5 = out@.written();
    write_game_ping_response_tail(out, huffman, flags, version, name);
    proof {
        lemma_concat_assoc(
            w4,
            int_bits(min_required_protocol_version as nat, 32),
            game_ping_response_tail_bits(flags, version, name@),
        );
        lemma_concat_assoc(
            w3,
            int_bits(current_protocol_version as nat, 32),
            int_bits(min_required_protocol_version as nat, 32) + (
                game_ping_response_tail_bits(flags, version, name@)
            ),
        );
        lemma_concat_assoc(
            w2,
            maybe_text_bits(flags, version_string@),
            int_bits(current_protocol_version as nat, 32) + (
                int_bits(min_required_protocol_version as nat, 32) + (
                    game_ping_response_tail_bits(flags, version, name@)
                )
            ),
        );
        lemma_concat_assoc(
            w1,
            fks_bits(flags, key, session),
            maybe_text_bits(flags, version_string@) + (
                int_bits(current_protocol_version as nat, 32) + (
                    int_bits(min_required_protocol_version as nat, 32) + (
                        game_ping_response_tail_bits(flags, version, name@)
                    )
                )
            ),
        );
        lemma_concat_assoc(
            w0,
            int_bits(16, 8),
            fks_bits(flags, key, session) + (
                maybe_text_bits(flags, version_string@) + (
                    int_bits(current_protocol_version as nat, 32) + (
                        int_bits(min_required_protocol_version as nat, 32) + (
                            game_ping_response_tail_bits(flags, version, name@)
                        )
                    )
                )
            ),
        );
    }
}

/// Reads the fields of `GameInfoRequest`.
fn read_game_info_request(stream: &mut BitStream) -> (r: Result<Packet, Truncated>)
    ensures
        final(stream)@.bits == old(stream)@.bits,
        match take_game_info_request(old(stream)@.remaining()) {
            Some(packet) => r matches Ok(read) && read@ == packet,
            None => r is Err,
        },
{
    proof {
        reveal(take_game_info_request);
    }
    let (flags, key, session) = match read_flags_key_session(stream) {
        Ok(header) => header,
        Err(e) => {
            return Err(e);
        },
    };
    Ok(Packet::GameInfoRequest { flags, key, session })
}

/// Writes the fields of `GameInfoRequest`.
fn write_game_info_request(
    out: &mut BitStream,
    flags: u8,
    key: u16,
    session: u16,
)
    requires
        old(out)@.at_end(),
    ensures
        final(out)@.at_end(),
        final(out)@.written() == old(out)@.written() + tagged(
            18,
            game_info_request_bits(flags, key, session),
        ),
{
    proof {
        lemma2_to64();
        reveal(game_info_request_bits);
    }
    let ghost w0 = out@.written();
    out.write_u8(tags::GAME_INFO_REQUEST);
    let ghost w1 = out@.written();
    write_flags_key_session(out, flags, key, session);
    let ghost w2 = out@.written();
    proof {
        lemma_concat_assoc(w0, int_bits(18, 8), fks_bits(flags, key, session));
    }
}

/// Reads the fields of `GameInfoResponse` from `cpu_speed` on.
fn read_game_info_response_tail2(
    stream: &mut BitStream,
    huffman: &HuffmanProcessor,
    flags: u8,
    key: u16,
    session: u16,
    game_type: String,
    mission_type: String,
    mission_name: String,
    filter_flag: u8,
    player_count: u8,
    max_players: u8,
    bot_count: u8,
) -> (r: Result<Packet, Truncated>)
    ensures
        final(stream)@.bits == old(stream)@.bits,
        match take_game_info_response_tail2(
            old(stream)@.remaining(),
            flags,
            key,
            session,
            game_type@,
            mission_type@,
            mission_name@,
            filter_flag,
            player_count,
            max_players,
            bot_count,
        ) {
            Some(packet) => r matches Ok(read) && read@ == packet,
            None => r is Err,
        },
{
    proof {
        reveal(take_game_info_response_tail2);
    }
    let cpu_speed = match stream.read_u16() {
        Ok(cpu_speed) => cpu_speed,
        Err(e) => {
            return Err(e);
        },
    };
    let server_info = match read_maybe_compressed_string(stream, huffman, flags) {
        Ok(server_info) => server_info,
        Err(e) => {
            return Err(e);
        },
    };
    let server_info_query = match stream.read_long_cstring() {
        Ok(server_info_query) => server_info_query,
        Err(e) => {
            return Err(e);
        },
    };
    Ok(
        Packet::GameInfoResponse {
            flags,
            key,
            session,
            game_type,
            mission_type,
            mission_name,
            filter_flag,
            player_count,
            max_players,
            bot_count,
            cpu_speed,
            server_info,
            server_info_query,
        }
    )
}

/// Writes the fields of `GameInfoResponse` from `cpu_speed` on.
fn write_game_info_response_tail2(
    out: &mut BitStream,
    huffman: &HuffmanProcessor,
    flags: u8,
    cpu_speed: u16,
    server_info: &String,
    server_info_query: &String,
)
    requires
        old(out)@.at_end(),
        server_info@.len() <= 255,
        server_info_query@.len() < 0x1_0000,
    ensures
        final(out)@.at_end(),
        final(out)@.written() == old(out)@.written() + game_info_response_tail2_bits(
            flags,
            cpu_speed,
            server_info@,
            server_info_query@,
        ),
{
    proof {
        lemma2_to64();
        reveal(game_info_response_tail2_bits);
    }
    let ghost w0 = out@.written();
    out.write_u16(cpu_speed);
    let ghost w1 = out@.written();
    write_maybe_compressed_string(out, huffman, flags, server_info);
    let ghost w2 = out@.written();
    out.write_long_cstring(server_info_query);
    let ghost w3 = out@.written();
    proof {
        lemma_concat_assoc(
            w1,
            maybe_text_bits(flags, server_info@),
            long_ctext_bits(server_info_query@),
        );
        lemma_concat_assoc(
            w0,
            int_bits(cpu_speed as nat, 16),
            maybe_text_bits(flags, server_info@) + (long_ctext_bits(server_info_query@)),
        );
    }
}

/// Reads the fields of `GameInfoResponse` from `filter_flag` on.
fn read_game_info_response_tail(
    stream: &mut BitStream,
    huffman: &HuffmanProcessor,
    flags: u8,
    key: u16,
    session: u16,
    game_type: String,
    mission_type: String,
    mission_name: String,
) -> (r: Result<Packet, Truncated>)
    ensures
        final(stream)@.bits == old(stream)@.bits,
        match take_game_info_response_tail(
            old(stream)@.remaining(),
            flags,
            key,
            session,
            game_type@,
            mission_type@,
            mission_name@,
        ) {
            Some(packet) => r matches Ok(read) && read@ == packet,
            None => r is Err,
        },
{
    proof {
        reveal(take_game_info_response_tail);
    }
    let filter_flag = match stream.read_u8() {
        Ok(filter_flag) => filter_flag,
        Err(e) => {
            return Err(e);
        },
    };
    let player_count = match stream.read_u8() {
        Ok(player_count) => player_count,
        Err(e) => {
            return Err(e);
        },
    };
    let max_players = match stream.read_u8() {
        Ok(max_players) => max_players,
        Err(e) => {
            return Err(e);
        },
    };
    let bot_count = match stream.read_u8() {
        Ok(bot_count) => bot_count,
        Err(e) => {
            return Err(e);
        },
    };
    read_game_info_response_tail2(
        stream,
        huffman,
        flags,
        key,
        session,
        game_type,
        mission_type,
        mission_name,
        filter_flag,
        player_count,
        max_players,
        bot_count,
    )
}

/// Writes the fields of `GameInfoResponse` from `filter_flag` on.
fn write_game_info_response_tail(
    out: &mut BitStream,
    huffman: &HuffmanProcessor,
    flags: u8,
    filter_flag: u8,
    player_count: u8,
    max_players: u8,
    bot_count: u8,
    cpu_speed: u16,
    server_info: &String,
    server_info_query: &String,
)
    requires
        old(out)@.at_end(),
        server_info@.len() <= 255,
        server_info_query@.len() < 0x1_0000,
    ensures
        final(out)@.at_end(),
        final(out)@.written() == old(out)@.written() + game_info_response_tail_bits(
            flags,
            filter_flag,
            player_count,
            max_players,
            bot_count,
            cpu_speed,
            server_info@,
            server_info_query@,
        ),
{
    proof {
        lemma2_to64();
        reveal(game_info_response_tail_bits);
    }
    let ghost w0 = out@.written();
    out.write_u8(filter_flag);
    let ghost w1 = out@.written();
    out.write_u8(player_count);
    let ghost w2 = out@.written();
    out.write_u8(max_players);
    let ghost w3 = out@.written();
    out.write_u8(bot_count);
    let ghost w4 = out@.written();
    write_game_info_response_tail2(out, huffman, flags, cpu_speed, server_info, server_info_query);
    proof {
        lemma_concat_assoc(
            w3,
            int_bits(bot_count as nat, 8),
            game_info_response_tail2_bits(flags, cpu_speed, server_info@, server_info_query@),
        );
        lemma_concat_assoc(
            w2,
            int_bits(max_players as nat, 8),
            int_bits(bot_count as nat, 8) + (
                game_info_response_tail2_bits(flags, cpu_speed, server_info@, server_info_query@)
            ),
        );
        lemma_concat_assoc(
            w1,
            int_bits(player_count as nat, 8),
            int_bits(max_players as nat, 8) + (
                int_bits(bot_count as nat, 8) + (
                    game_info_response_tail2_bits(
                        flags,
                        cpu_speed,
                        server_info@,
                        server_info_query@,
                    )
                )
            ),
        );
        lemma_concat_assoc(
            w0,
            int_bits(filter_flag as nat, 8),
            int_bits(player_count as nat, 8) + (
                int_bits(max_players as nat, 8) + (
                    int_bits(bot_count as nat, 8) + (
                        game_info_response_tail2_bits(
                            flags,
                            cpu_speed,
                            server_info@,
                            server_info_query@,
                        )
                    )
                )
            ),
        );
    }
}

/// Reads the fields of `GameInfoResponse`.
fn read_game_info_response(
    stream: &mut BitStream,
    huffman: &HuffmanProcessor,
) -> (r: Result<Packet, Truncated>)
    ensures
        final(stream)@.bits == old(stream)@.bits,
        match take_game_info_response(old(stream)@.remaining()) {
            Some(packet) => r matches Ok(read) && read@ == packet,
            None => r is Err,
        },
{
    proof {
        reveal(take_game_info_response);
    }
    let (flags, key, session) = match read_flags_key_session(stream) {
        Ok(header) => header,
        Err(e) => {
            return Err(e);
        },
    };
    let game_type = match read_maybe_compressed_string(stream, huffman, flags) {
        Ok(game_type) => game_type,
        Err(e) => {
            return Err(e);
        },
    };
    let mission_type = match read_maybe_compressed_string(stream, huffman, flags) {
        Ok(mission_type) => mission_type,
        Err(e) => {
            return Err(e);
        },
    };
    let mission_name = match read_maybe_compressed_string(stream, huffman, flags) {
        Ok(mission_name) => mission_name,
        Err(e) => {
            return Err(e);
        },
    };
    read_game_info_response_tail(
        stream,
        huffman,
        flags,
        key,
        session,
        game_type,
        mission_type,
        mission_name,
    )
}

/// Writes the fields of `GameInfoResponse`.
fn write_game_info_response(
    out: &mut BitStream,
    huffman: &HuffmanProcessor,
    flags: u8,
    key: u16,
    session: u16,
    game_type: &String,
    mission_type: &String,
    mission_name: &String,
    filter_flag: u8,
    player_count: u8,
    max_players: u8,
    bot_count: u8,
    cpu_speed: u16,
    server_info: &String,
    server_info_query: &String,
)
    requires
        old(out)@.at_end(),
        game_type@.len() <= 255,
        mission_type@.len() <= 255,
        mission_name@.len() <= 255,
        server_info@.len() <= 255,
        server_info_query@.len() < 0x1_0000,
    ensures
        final(out)@.at_end(),
        final(out)@.written() == old(out)@.written() + tagged(
            20,
            game_info_response_bits(
                flags,
                key,
                session,
                game_type@,
                mission_type@,
                mission_name@,
                filter_flag,
                player_count,
                max_players,
                bot_count,
                cpu_speed,
                server_info@,
                server_info_query@,
            ),
        ),
{
    proof {
        lemma2_to64();
        reveal(game_info_response_bits);
    }
    let ghost w0 = out@.written();
    out.write_u8(tags::GAME_INFO_RESPONSE);
    let ghost w1 = out@.written();
    write_flags_key_session(out, flags, key, session);
    let ghost w2 = out@.written();
    write_maybe_compressed_string(out, huffman, flags, game_type);
    let ghost w3 = out@.written();
    write_maybe_compressed_string(out, huffman, flags, mission_type);
    let ghost w4 = out@.written();
    write_maybe_compressed_string(out, huffman, flags, mission_name);
    let ghost w5 = out@.written();
    write_game_info_response_tail(
        out,
        huffman,
        flags,
        filter_flag,
        player_count,
        max_players,
        bot_count,
        cpu_speed,
        server_info,
        server_info_query,
    );
    proof {
        lemma_concat_assoc(
            w4,
            maybe_text_bits(flags, mission_name@),
            game_info_response_tail_bits(
                flags,
                filter_flag,
                player_count,
                max_players,
                bot_count,
                cpu_speed,
                server_info@,
                server_info_query@,
            ),
        );
        lemma_concat_assoc(
            w3,
            maybe_text_bits(flags, mission_type@),
            maybe_text_bits(flags, mission_name@) + (
                game_info_response_tail_bits(
                    flags,
                    filter_flag,
                    player_count,
                    max_players,
                    bot_count,
                    cpu_speed,
                    server_info@,
                    server_info_query@,
                )
            ),
        );
        lemma_concat_assoc(
            w2,
            maybe_text_bits(flags, game_type@),
            maybe_text_bits(flags, mission_type@) + (
                maybe_text_bits(flags, mission_name@) + (
                    game_info_response_tail_bits(
                        flags,
                        filter_flag,
                        player_count,
                        max_players,
                        bot_count,
                        cpu_speed,
                        server_info@,
                        server_info_query@,
                    )
                )
            ),
        );
        lemma_concat_assoc(
            w1,
            fks_bits(flags, key, session),
            maybe_text_bits(flags, game_type@) + (
                maybe_text_bits(flags, mission_type@) + (
                    maybe_text_bits(flags, mission_name@) + (
                        game_info_response_tail_bits(
                            flags,
                            filter_flag,
                            player_count,
                            max_players,
                            bot_count,
                            cpu_speed,
                            server_info@,
                            server_info_query@,
                        )
                    )
                )
            ),
        );
        lemma_concat_assoc(
            w0,
            int_bits(20, 8),
            fks_bits(flags, key, session) + (
                maybe_text_bits(flags, game_type@) + (
                    maybe_text_bits(flags, mission_type@) + (
                        maybe_text_bits(flags, mission_name@) + (
                            game_info_response_tail_bits(
                                flags,
                                filter_flag,
                                player_count,
                                max_players,
                                bot_count,
                                cpu_speed,
                                server_info@,
                                server_info_query@,
                            )
                        )
                    )
                )
            ),
        );
    }
}

/// Reads the fields of `GameHeartbeat`.
fn read_game_heartbeat(stream: &mut BitStream) -> (r: Result<Packet, Truncated>)
    ensures
        final(stream)@.bits == old(stream)@.bits,
        match take_game_heartbeat(old(stream)@.remaining()) {
            Some(packet) => r matches Ok(read) && read@ == packet,
            None => r is Err,
        },
{
    proof {
        reveal(take_game_heartbeat);
    }
    let (flags, key, session) = match read_flags_key_session(stream) {
        Ok(header) => header,
        Err(e) => {
            return Err(e);
        },
    };
    Ok(Packet::GameHeartbeat { flags, key, session })
}

/// Writes the fields of `GameHeartbeat`.
fn write_game_heartbeat(
    out: &mut BitStream,
    flags: u8,
    key: u16,
    session: u16,
)
    requires
        old(out)@.at_end(),
    ensures
        final(out)@.at_end(),
        final(out)@.written() == old(out)@.written() + tagged(
            22,
            game_heartbeat_bits(flags, key, session),
        ),
{
    proof {
        lemma2_to64();
        reveal(game_heartbeat_bits);
    }
    let ghost w0 = out@.written();
    out.write_u8(tags::GAME_HEARTBEAT);
    let ghost w1 = out@.written();
    write_flags_key_session(out, flags, key, session);
    let ghost w2 = out@.written();
    proof {
        lemma_concat_assoc(w0, int_bits(22, 8), fks_bits(flags, key, session));
    }
}

/// Reads the fields of `ConnectChallengeRequest`.
fn read_connect_challenge_request(stream: &mut BitStream) -> (r: Result<Packet, Truncated>)
    ensures
        final(stream)@.bits == old(stream)@.bits,
        match take_connect_challenge_request(old(stream)@.remaining()) {
            Some(packet) => r matches Ok(read) && read@ == packet,
            None => r is Err,
        },
{
    proof {
        reveal(take_connect_challenge_request);
    }
    let sequence = match stream.read_u32() {
        Ok(sequence) => sequence,
        Err(e) => {
            return Err(e);
        },
    };
    Ok(Packet::ConnectChallengeRequest { sequence })
}

/// Writes the fields of `ConnectChallengeRequest`.
fn write_connect_challenge_request(
    out: &mut BitStream,
    sequence: u32,
)
    requires
        old(out)@.at_end(),
    ensures
        final(out)@.at_end(),
        final(out)@.written() == old(out)@.written() + tagged(
            26,
            connect_challenge_request_bits(sequence),
        ),
{
    proof {
        lemma2_to64();
        reveal(connect_challenge_request_bits);
    }
    let ghost w0 = out@.written();
    out.write_u8(tags::CONNECT_CHALLENGE_REQUEST);
    let ghost w1 = out@.written();
    out.write_u32(sequence);
    let ghost w2 = out@.written();
    proof {
        lemma_concat_assoc(w0, int_bits(26, 8), int_bits(sequence as nat, 32));
    }
}

/// Reads the fields of `ConnectChallengeReject`.
fn read_connect_challenge_reject(
    stream: &mut BitStream,
    huffman: &HuffmanProcessor,
) -> (r: Result<Packet, Truncated>)
    ensures
        final(stream)@.bits == old(stream)@.bits,
        match take_connect_challenge_reject(old(stream)@.remaining()) {
            Some(packet) => r matches Ok(read) && read@ == packet,
            None => r is Err,
        },
{
    proof {
        reveal(take_connect_challenge_reject);
    }
    let sequence = match stream.read_u32() {
        Ok(sequence) => sequence,
        Err(e) => {
            return Err(e);
        },
    };
    let reason = match stream.read_string(huffman) {
        Ok(reason) => reason,
        Err(e) => {
            return Err(e);
        },
    };
    Ok(Packet::ConnectChallengeReject { sequence, reason })
}

/// Writes the fields of `ConnectChallengeReject`.
fn write_connect_challenge_reject(
    out: &mut BitStream,
    huffman: &HuffmanProcessor,
    sequence: u32,
    reason: &String,
)
    requires
        old(out)@.at_end(),
        reason@.len() <= 255,
    ensures
        final(out)@.at_end(),
        final(out)@.written() == old(out)@.written() + tagged(
            28,
            connect_challenge_reject_bits(sequence, reason@),
        ),
{
    proof {
        lemma2_to64();
        reveal(connect_challenge_reject_bits);
    }
    let ghost w0 = out@.written();
    out.write_u8(tags::CONNECT_CHALLENGE_REJECT);
    let ghost w1 = out@.written();
    out.write_u32(sequence);
    let ghost w2 = out@.written();
    out.write_string(huffman, reason);
    let ghost w3 = out@.written();
    proof {
        lemma_concat_assoc(w1, int_bits(sequence as nat, 32), text_bits(reason@));
        lemma_concat_assoc(
            w0,
            int_bits(28, 8),
            int_bits(sequence as nat, 32) + (text_bits(reason@)),
        );
    }
}

/// Reads the fields of `ConnectChallengeResponse`.
fn read_connect_challenge_response(stream: &mut BitStream) -> (r: Result<Packet, Truncated>)
    ensures
        final(stream)@.bits == old(stream)@.bits,
        match take_connect_challenge_response(old(stream)@.remaining()) {
            Some(packet) => r matches Ok(read) && read@ == packet,
            None => r is Err,
        },
{
    proof {
        reveal(take_connect_challenge_response);
    }
    let sequence = match stream.read_u32() {
        Ok(sequence) => sequence,
        Err(e) => {
            return Err(e);
        },
    };
    let address_digest = match read_digest(stream) {
        Ok(address_digest) => address_digest,
        Err(e) => {
            return Err(e);
        },
    };
    Ok(Packet::ConnectChallengeResponse { sequence, address_digest })
}

/// Writes the fields of `ConnectChallengeResponse`.
fn write_connect_challenge_response(
    out: &mut BitStream,
    sequence: u32,
    address_digest: &[u32; 4],
)
    requires
        old(out)@.at_end(),
    ensures
        final(out)@.at_end(),
        final(out)@.written() == old(out)@.written() + tagged(
            30,
            connect_challenge_response_bits(sequence, address_digest@),
        ),
{
    proof {
        lemma2_to64();
        reveal(connect_challenge_response_bits);
    }
    let ghost w0 = out@.written();
    out.write_u8(tags::CONNECT_CHALLENGE_RESPONSE);
    let ghost w1 = out@.written();
    out.write_u32(sequence);
    let ghost w2 = out@.written();
    write_digest(out, address_digest);
    let ghost w3 = out@.written();
    proof {
        lemma_concat_assoc(w1, int_bits(sequence as nat, 32), digest_bits(address_digest@));
        lemma_concat_assoc(
            w0,
            int_bits(30, 8),
            int_bits(sequence as nat, 32) + (digest_bits(address_digest@)),
        );
    }
}

/// Reads the fields of `ConnectRequest` from `join_password` on.
fn read_connect_request_tail2(
    stream: &mut BitStream,
    huffman: &HuffmanProcessor,
    sequence: u32,
    address_digest: [u32; 4],
    class_name: String,
    net_class_group: u32,
    class_crc: u32,
    game_string: String,
    current_protocol_version: u32,
    min_required_protocol_version: u32,
) -> (r: Result<Packet, Truncated>)
    ensures
        final(stream)@.bits == old(stream)@.bits,
        match take_connect_request_tail2(
            old(stream)@.remaining(),
            sequence,
            address_digest@,
            class_name@,
            net_class_group,
            class_crc,
            game_string@,
            current_protocol_version,
            min_required_protocol_version,
        ) {
            Some(packet) => r matches Ok(read) && read@ == packet,
            None => r is Err,
        },
{
    proof {
        reveal(take_connect_request_tail2);
    }
    let join_password = match stream.read_string(huffman) {
        Ok(join_password) => join_password,
        Err(e) => {
            return Err(e);
        },
    };
    let count = match stream.read_u32() {
        Ok(count) => count,
        Err(e) => {
            return Err(e);
        },
    };
    let connect_argv = match read_string_list(stream, count as usize, huffman) {
        Ok(connect_argv) => connect_argv,
        Err(e) => {
            return Err(e);
        },
    };
    Ok(
        Packet::ConnectRequest {
            sequence,
            address_digest,
            class_name,
            net_class_group,
            class_crc,
            game_string,
            current_protocol_version,
            min_required_protocol_version,
            join_password,
            connect_argv,
        }
    )
}

/// Writes the fields of `ConnectRequest` from `join_password` on.
fn write_connect_request_tail2(
    out: &mut BitStream,
    huffman: &HuffmanProcessor,
    join_password: &String,
    connect_argv: &Vec<String>,
)
    requires
        old(out)@.at_end(),
        join_password@.len() <= 255,
        forall|i: int| 0 <= i < texts_of(connect_argv@).len() ==> (
            #[trigger] texts_of(connect_argv@)[i]
        ).len() < 256,
    ensures
        final(out)@.at_end(),
        final(out)@.written() == old(out)@.written() + connect_request_tail2_bits(
            join_password@,
            texts_of(connect_argv@),
        ),
{
    proof {
        lemma2_to64();
        reveal(connect_request_tail2_bits);
    }
    let ghost w0 = out@.written();
    out.write_string(huffman, join_password);
    let ghost w1 = out@.written();
    proof {
        assert forall|i: int| 0 <= i < connect_argv@.len() implies (
            #[trigger] connect_argv@[i]
        )@.len() < 256 by {
            assert(texts_of(connect_argv@)[i] == connect_argv@[i]@);
        }
    }
    out.write_u32((connect_argv.len() as u64 % 0x1_0000_0000u64) as u32);
    let ghost counted = out@.written();
    write_string_list(out, connect_argv, huffman);
    proof {
        lemma_concat_assoc(
            w1,
            int_bits((texts_of(connect_argv@).len() % pow2(32)) as nat, 32),
            list_bits(texts_of(connect_argv@), text_encoder()),
        );
    }
    let ghost w2 = out@.written();
    proof {
        lemma_concat_assoc(
            w0,
            text_bits(join_password@),
            counted_bits(texts_of(connect_argv@), 32, text_encoder()),
        );
    }
}

/// Reads the fields of `ConnectRequest` from `class_crc` on.
fn read_connect_request_tail(
    stream: &mut BitStream,
    huffman: &HuffmanProcessor,
    sequence: u32,
    address_digest: [u32; 4],
    class_name: String,
    net_class_group: u32,
) -> (r: Result<Packet, Truncated>)
    ensures
        final(stream)@.bits == old(stream)@.bits,
        match take_connect_request_tail(
            old(stream)@.remaining(),
            sequence,
            address_digest@,
            class_name@,
            net_class_group,
        ) {
            Some(packet) => r matches Ok(read) && read@ == packet,
            None => r is Err,
        },
{
    proof {
        reveal(take_connect_request_tail);
    }
    let class_crc = match stream.read_u32() {
        Ok(class_crc) => class_crc,
        Err(e) => {
            return Err(e);
        },
    };
    let game_string = match stream.read_string(huffman) {
        Ok(game_string) => game_string,
        Err(e) => {
            return Err(e);
        },
    };
    let current_protocol_version = match stream.read_u32() {
        Ok(current_protocol_version) => current_protocol_version,
        Err(e) => {
            return Err(e);
        },
    };
    let min_required_protocol_version = match stream.read_u32() {
        Ok(min_required_protocol_version) => min_required_protocol_version,
        Err(e) => {
            return Err(e);
        },
    };
    read_connect_request_tail2(
        stream,
        huffman,
        sequence,
        address_digest,
        class_name,
        net_class_group,
        class_crc,
        game_string,
        current_protocol_version,
        min_required_protocol_version,
    )
}

/// Writes the fields of `ConnectRequest` from `class_crc` on.
fn write_connect_request_tail(
    out: &mut BitStream,
    huffman: &HuffmanProcessor,
    class_crc: u32,
    game_string: &String,
    current_protocol_version: u32,
    min_required_protocol_version: u32,
    join_password: &String,
    connect_argv: &Vec<String>,
)
    requires
        old(out)@.at_end(),
        game_string@.len() <= 255,
        join_password@.len() <= 255,
        forall|i: int| 0 <= i < texts_of(connect_argv@).len() ==> (
            #[trigger] texts_of(connect_argv@)[i]
        ).len() < 256,
    ensures
        final(out)@.at_end(),
        final(out)@.written() == old(out)@.written() + connect_request_tail_bits(
            class_crc,
            game_string@,
            current_protocol_version,
            min_required_protocol_version,
            join_password@,
            texts_of(connect_argv@),
        ),
{
    proof {
        lemma2_to64();
        reveal(connect_request_tail_bits);
    }
    let ghost w0 = out@.written();
    out.write_u32(class_crc);
    let ghost w1 = out@.written();
    out.write_string(huffman, game_string);
    let ghost w2 = out@.written();
    out.write_u32(current_protocol_version);
    let ghost w3 = out@.written();
    out.write_u32(min_required_protocol_version);
    let ghost w4 = out@.written();
    write_connect_request_tail2(out, huffman, join_password, connect_argv);
    proof {
        lemma_concat_assoc(
            w3,
            int_bits(min_required_protocol_version as nat, 32),
            connect_request_tail2_bits(join_password@, texts_of(connect_argv@)),
        );
        lemma_concat_assoc(
            w2,
            int_bits(current_protocol_version as nat, 32),
            int_bits(min_required_protocol_version as nat, 32) + (
                connect_request_tail2_bits(join_password@, texts_of(connect_argv@))
            ),
        );
        lemma_concat_assoc(
            w1,
            text_bits(game_string@),
            int_bits(current_protocol_version as nat, 32) + (
                int_bits(min_required_protocol_version as nat, 32) + (
                    connect_request_tail2_bits(join_password@, texts_of(connect_argv@))
                )
            ),
        );
        lemma_concat_assoc(
            w0,
            int_bits(class_crc as nat, 32),
            text_bits(game_string@) + (
                int_bits(current_protocol_version as nat, 32) + (
                    int_bits(min_required_protocol_version as nat, 32) + (
                        connect_request_tail2_bits(join_password@, texts_of(connect_argv@))
                    )
                )
            ),
        );
    }
}

/// Reads the fields of `ConnectRequest`.
fn read_connect_request(
    stream: &mut BitStream,
    huffman: &HuffmanProcessor,
) -> (r: Result<Packet, Truncated>)
    ensures
        final(stream)@.bits == old(stream)@.bits,
        match take_connect_request(old(stream)@.remaining()) {
            Some(packet) => r matches Ok(read) && read@ == packet,
            None => r is Err,
        },
{
    proof {
        reveal(take_connect_request);
    }
    let sequence = match stream.read_u32() {
        Ok(sequence) => sequence,
        Err(e) => {
            return Err(e);
        },
    };
    let address_digest = match read_digest(stream) {
        Ok(address_digest) => address_digest,
        Err(e) => {
            return Err(e);
        },
    };
    let class_name = match stream.read_string(huffman) {
        Ok(class_name) => class_name,
        Err(e) => {
            return Err(e);
        },
    };
    let net_class_group = match stream.read_u32() {
        Ok(net_class_group) => net_class_group,
        Err(e) => {
            return Err(e);
        },
    };
    read_connect_request_tail(
        stream,
        huffman,
        sequence,
        address_digest,
        class_name,
        net_class_group,
    )
}

/// Writes the fields of `ConnectRequest`.
fn write_connect_request(
    out: &mut BitStream,
    huffman: &HuffmanProcessor,
    sequence: u32,
    address_digest: &[u32; 4],
    class_name: &String,
    net_class_group: u32,
    class_crc: u32,
    game_string: &String,
    current_protocol_version: u32,
    min_required_protocol_version: u32,
    join_password: &String,
    connect_argv: &Vec<String>,
)
    requires
        old(out)@.at_end(),
        class_name@.len() <= 255,
        game_string@.len() <= 255,
        join_password@.len() <= 255,
        forall|i: int| 0 <= i < texts_of(connect_argv@).len() ==> (
            #[trigger] texts_of(connect_argv@)[i]
        ).len() < 256,
    ensures
        final(out)@.at_end(),
        final(out)@.written() == old(out)@.written() + tagged(
            32,
            connect_request_bits(
                sequence,
                address_digest@,
                class_name@,
                net_class_group,
                class_crc,
                game_string@,
                current_protocol_version,
                min_required_protocol_version,
                join_password@,
                texts_of(connect_argv@),
            ),
        ),
{
    proof {
        lemma2_to64();
        reveal(connect_request_bits);
    }
    let ghost w0 = out@.written();
    out.write_u8(tags::CONNECT_REQUEST);
    let ghost w1 = out@.written();
    out.write_u32(sequence);
    let ghost w2 = out@.written();
    write_digest(out, address_digest);
    let ghost w3 = out@.written();
    out.write_string(huffman, class_name);
    let ghost w4 = out@.written();
    out.write_u32(net_class_group);
    let ghost w5 = out@.written();
    write_connect_request_tail(
        out,
        huffman,
        class_crc,
        game_string,
        current_protocol_version,
        min_required_protocol_version,
        join_password,
        connect_argv,
    );
    proof {
        lemma_concat_assoc(
            w4,
            int_bits(net_class_group as nat, 32),
            connect_request_tail_bits(
                class_crc,
                game_string@,
                current_protocol_version,
                min_required_protocol_version,
                join_password@,
                texts_of(connect_argv@),
            ),
        );
        lemma_concat_assoc(
            w3,
            text_bits(class_name@),
            int_bits(net_class_group as nat, 32) + (
                connect_request_tail_bits(
                    class_crc,
                    game_string@,
                    current_protocol_version,
                    min_required_protocol_version,
                    join_password@,
                    texts_of(connect_argv@),
                )
            ),
        );
        lemma_concat_assoc(
            w2,
            digest_bits(address_digest@),
            text_bits(class_name@) + (
                int_bits(net_class_group as nat, 32) + (
                    connect_request_tail_bits(
                        class_crc,
                        game_string@,
                        current_protocol_version,
                        min_required_protocol_version,
                        join_password@,
                        texts_of(connect_argv@),
                    )
                )
            ),
        );
        lemma_concat_assoc(
            w1,
            int_bits(sequence as nat, 32),
            digest_bits(address_digest@) + (
                text_bits(class_name@) + (
                    int_bits(net_class_group as nat, 32) + (
                        connect_request_tail_bits(
                            class_crc,
                            game_string@,
                            current_protocol_version,
                            min_required_protocol_version,
                            join_password@,
                            texts_of(connect_argv@),
                        )
                    )
                )
            ),
        );
        lemma_concat_assoc(
            w0,
            int_bits(32, 8),
            int_bits(sequence as nat, 32) + (
                digest_bits(address_digest@) + (
                    text_bits(class_name@) + (
                        int_bits(net_class_group as nat, 32) + (
                            connect_request_tail_bits(
                                class_crc,
                                game_string@,
                                current_protocol_version,
                                min_required_protocol_version,
                                join_password@,
                                texts_of(connect_argv@),
                            )
                        )
                    )
                )
            ),
        );
    }
}

/// Reads the fields of `ConnectReject`.
fn read_connect_reject(
    stream: &mut BitStream,
    huffman: &HuffmanProcessor,
) -> (r: Result<Packet, Truncated>)
    ensures
        final(stream)@.bits == old(stream)@.bits,
        match take_connect_reject(old(stream)@.remaining()) {
            Some(packet) => r matches Ok(read) && read@ == packet,
            None => r is Err,
        },
{
    proof {
        reveal(take_connect_reject);
    }
    let sequence = match stream.read_u32() {
        Ok(sequence) => sequence,
        Err(e) => {
            return Err(e);
        },
    };
    let reason = match stream.read_string(huffman) {
        Ok(reason) => reason,
        Err(e) => {
            return Err(e);
        },
    };
    Ok(Packet::ConnectReject { sequence, reason })
}

/// Writes the fields of `ConnectReject`.
fn write_connect_reject(
    out: &mut BitStream,
    huffman: &HuffmanProcessor,
    sequence: u32,
    reason: &String,
)
    requires
        old(out)@.at_end(),
        reason@.len() <= 255,
    ensures
        final(out)@.at_end(),
        final(out)@.written() == old(out)@.written() + tagged(
            34,
            connect_reject_bits(sequence, reason@),
        ),
{
    proof {
        lemma2_to64();
        reveal(connect_reject_bits);
    }
    let ghost w0 = out@.written();
    out.write_u8(tags::CONNECT_REJECT);
    let ghost w1 = out@.written();
    out.write_u32(sequence);
    let ghost w2 = out@.written();
    out.write_string(huffman, reason);
    let ghost w3 = out@.written();
    proof {
        lemma_concat_assoc(w1, int_bits(sequence as nat, 32), text_bits(reason@));
        lemma_concat_assoc(
            w0,
            int_bits(34, 8),
            int_bits(sequence as nat, 32) + (text_bits(reason@)),
        );
    }
}

/// Reads the fields of `ConnectAccept`.
fn read_connect_accept(stream: &mut BitStream) -> (r: Result<Packet, Truncated>)
    ensures
        final(stream)@.bits == old(stream)@.bits,
        match take_connect_accept(old(stream)@.remaining()) {
            Some(packet) => r matches Ok(read) && read@ == packet,
            None => r is Err,
        },
{
    proof {
        reveal(take_connect_accept);
    }
    let sequence = match stream.read_u32() {
        Ok(sequence) => sequence,
        Err(e) => {
            return Err(e);
        },
    };
    let protocol_version = match stream.read_u32() {
        Ok(protocol_version) => protocol_version,
        Err(e) => {
            return Err(e);
        },
    };
    Ok(Packet::ConnectAccept { sequence, protocol_version })
}

/// Writes the fields of `ConnectAccept`.
fn write_connect_accept(
    out: &mut BitStream,
    sequence: u32,
    protocol_version: u32,
)
    requires
        old(out)@.at_end(),
    ensures
        final(out)@.at_end(),
        final(out)@.written() == old(out)@.written() + tagged(
            36,
            connect_accept_bits(sequence, protocol_version),
        ),
{
    proof {
        lemma2_to64();
        reveal(connect_accept_bits);
    }
    let ghost w0 = out@.written();
    out.write_u8(tags::CONNECT_ACCEPT);
    let ghost w1 = out@.written();
    out.write_u32(sequence);
    let ghost w2 = out@.written();
    out.write_u32(protocol_version);
    let ghost w3 = out@.written();
    proof {
        lemma_concat_assoc(
            w1,
            int_bits(sequence as nat, 32),
            int_bits(protocol_version as nat, 32),
        );
        lemma_concat_assoc(
            w0,
            int_bits(36, 8),
            int_bits(sequence as nat, 32) + (int_bits(protocol_version as nat, 32)),
        );
    }
}

/// Reads the fields of `Disconnect`.
fn read_disconnect(
    stream: &mut BitStream,
    huffman: &HuffmanProcessor,
) -> (r: Result<Packet, Truncated>)
    ensures
        final(stream)@.bits == old(stream)@.bits,
        match take_disconnect(old(stream)@.remaining()) {
            Some(packet) => r matches Ok(read) && read@ == packet,
            None => r is Err,
        },
{
    proof {
        reveal(take_disconnect);
    }
    let sequence = match stream.read_u32() {
        Ok(sequence) => sequence,
        Err(e) => {
            return Err(e);
        },
    };
    let reason = match stream.read_string(huffman) {
        Ok(reason) => reason,
        Err(e) => {
            return Err(e);
        },
    };
    Ok(Packet::Disconnect { sequence, reason })
}

/// Writes the fields of `Disconnect`.
fn write_disconnect(
    out: &mut BitStream,
    huffman: &HuffmanProcessor,
    sequence: u32,
    reason: &String,
)
    requires
        old(out)@.at_end(),
        reason@.len() <= 255,
    ensures
        final(out)@.at_end(),
        final(out)@.written() == old(out)@.written() + tagged(
            38,
            disconnect_bits(sequence, reason@),
        ),
{
    proof {
        lemma2_to64();
        reveal(disconnect_bits);
    }
    let ghost w0 = out@.written();
    out.write_u8(tags::DISCONNECT);
    let ghost w1 = out@.written();
    out.write_u32(sequence);
    let ghost w2 = out@.written();
    out.write_string(huffman, reason);
    let ghost w3 = out@.written();
    proof {
        lemma_concat_assoc(w1, int_bits(sequence as nat, 32), text_bits(reason@));
        lemma_concat_assoc(
            w0,
            int_bits(38, 8),
            int_bits(sequence as nat, 32) + (text_bits(reason@)),
        );
    }
}

/// Reads the fields of `ArrangedConnectRequest`.
fn read_arranged_connect_request(stream: &mut BitStream) -> (r: Result<Packet, Truncated>)
    ensures
        final(stream)@.bits == old(stream)@.bits,
        match take_arranged_connect_request(old(stream)@.remaining()) {
            Some(packet) => r matches Ok(read) && read@ == packet,
            None => r is Err,
        },
{
    proof {
        reveal(take_arranged_connect_request);
    }
    let sequence = match stream.read_u32() {
        Ok(sequence) => sequence,
        Err(e) => {
            return Err(e);
        },
    };
    let debug_object_sizes = match stream.read_flag() {
        Ok(debug_object_sizes) => debug_object_sizes,
        Err(e) => {
            return Err(e);
        },
    };
    Ok(Packet::ArrangedConnectRequest { sequence, debug_object_sizes })
}

/// Writes the fields of `ArrangedConnectRequest`.
fn write_arranged_connect_request(
    out: &mut BitStream,
    sequence: u32,
    debug_object_sizes: bool,
)
    requires
        old(out)@.at_end(),
    ensures
        final(out)@.at_end(),
        final(out)@.written() == old(out)@.written() + tagged(
            42,
            arranged_connect_request_bits(sequence, debug_object_sizes),
        ),
{
    proof {
        lemma2_to64();
        reveal(arranged_connect_request_bits);
    }
    let ghost w0 = out@.written();
    out.write_u8(tags::ARRANGED_CONNECT_REQUEST);
    let ghost w1 = out@.written();
    out.write_u32(sequence);
    let ghost w2 = out@.written();
    out.write_flag(debug_object_sizes);
    let ghost w3 = out@.written();
    proof {
        lemma_concat_assoc(w1, int_bits(sequence as nat, 32), flag_bits(debug_object_sizes));
        lemma_concat_assoc(
            w0,
            int_bits(42, 8),
            int_bits(sequence as nat, 32) + (flag_bits(debug_object_sizes)),
        );
    }
}

/// Reads the fields of `MasterServerRequestArrangedConnection`.
fn read_master_server_request_arranged_connection(stream: &mut BitStream) -> (
    r: Result<Packet, Truncated>
)
    ensures
        final(stream)@.bits == old(stream)@.bits,
        match take_master_server_request_arranged_connection(old(stream)@.remaining()) {
            Some(packet) => r matches Ok(read) && read@ == packet,
            None => r is Err,
        },
{
    proof {
        reveal(take_master_server_request_arranged_connection);
    }
    let address = match read_address_and_port(stream) {
        Ok(address) => address,
        Err(e) => {
            return Err(e);
        },
    };
    Ok(Packet::MasterServerRequestArrangedConnection { address })
}

/// Writes the fields of `MasterServerRequestArrangedConnection`.
fn write_master_server_request_arranged_connection(
    out: &mut BitStream,
    address: Endpoint,
)
    requires
        old(out)@.at_end(),
    ensures
        final(out)@.at_end(),
        final(out)@.written() == old(out)@.written() + tagged(
            46,
            master_server_request_arranged_connection_bits(address),
        ),
{
    proof {
        lemma2_to64();
        reveal(master_server_request_arranged_connection_bits);
    }
    let ghost w0 = out@.written();
    out.write_u8(tags::MASTER_SERVER_REQUEST_ARRANGED_CONNECTION);
    let ghost w1 = out@.written();
    write_address_and_port(out, address);
    let ghost w2 = out@.written();
    proof {
        lemma_concat_assoc(w0, int_bits(46, 8), endpoint_bits(address));
    }
}

/// Reads the fields of `MasterServerClientRequestedArrangedConnection`.
fn read_master_server_client_requested_arranged_connection(stream: &mut BitStream) -> (
    r: Result<Packet, Truncated>
)
    ensures
        final(stream)@.bits == old(stream)@.bits,
        match take_master_server_client_requested_arranged_connection(old(stream)@.remaining()) {
            Some(packet) => r matches Ok(read) && read@ == packet,
            None => r is Err,
        },
{
    proof {
        reveal(take_master_server_client_requested_arranged_connection);
    }
    let (flags, key, session) = match read_flags_key_session(stream) {
        Ok(header) => header,
        Err(e) => {
            return Err(e);
        },
    };
    let client_id = match stream.read_u16() {
        Ok(client_id) => client_id,
        Err(e) => {
            return Err(e);
        },
    };
    let count = match stream.read_u8() {
        Ok(count) => count,
        Err(e) => {
            return Err(e);
        },
    };
    let possible_addresses = match read_endpoint_list(stream, count as usize) {
        Ok(possible_addresses) => possible_addresses,
        Err(e) => {
            return Err(e);
        },
    };
    Ok(
        Packet::MasterServerClientRequestedArrangedConnection {
            flags,
            key,
            session,
            client_id,
            possible_addresses,
        }
    )
}

/// Writes the fields of `MasterServerClientRequestedArrangedConnection`.
fn write_master_server_client_requested_arranged_connection(
    out: &mut BitStream,
    flags: u8,
    key: u16,
    session: u16,
    client_id: u16,
    possible_addresses: &Vec<Endpoint>,
)
    requires
        old(out)@.at_end(),
    ensures
        final(out)@.at_end(),
        final(out)@.written() == old(out)@.written() + tagged(
            48,
            master_server_client_requested_arranged_connection_bits(
                flags,
                key,
                session,
                client_id,
                possible_addresses@,
            ),
        ),
{
    proof {
        lemma2_to64();
        reveal(master_server_client_requested_arranged_connection_bits);
    }
    let ghost w0 = out@.written();
    out.write_u8(tags::MASTER_SERVER_CLIENT_REQUESTED_ARRANGED_CONNECTION);
    let ghost w1 = out@.written();
    write_flags_key_session(out, flags, key, session);
    let ghost w2 = out@.written();
    out.write_u16(client_id);
    let ghost w3 = out@.written();
    out.write_u8((possible_addresses.len() % 256) as u8);
    let ghost counted = out@.written();
    write_endpoint_list(out, possible_addresses);
    proof {
        lemma_concat_assoc(
            w3,
            int_bits((possible_addresses@.len() % pow2(8)) as nat, 8),
            list_bits(possible_addresses@, endpoint_encoder()),
        );
    }
    let ghost w4 = out@.written();
    proof {
        lemma_concat_assoc(
            w2,
            int_bits(client_id as nat, 16),
            counted_bits(possible_addresses@, 8, endpoint_encoder()),
        );
        lemma_concat_assoc(
            w1,
            fks_bits(flags, key, session),
            int_bits(client_id as nat, 16) + (
                counted_bits(possible_addresses@, 8, endpoint_encoder())
            ),
        );
        lemma_concat_assoc(
            w0,
            int_bits(48, 8),
            fks_bits(flags, key, session) + (
                int_bits(client_id as nat, 16) + (
                    counted_bits(possible_addresses@, 8, endpoint_encoder())
                )
            ),
        );
    }
}

/// Reads the fields of `MasterServerAcceptArrangedConnection`.
fn read_master_server_accept_arranged_connection(stream: &mut BitStream) -> (
    r: Result<Packet, Truncated>
)
    ensures
        final(stream)@.bits == old(stream)@.bits,
        match take_master_server_accept_arranged_connection(old(stream)@.remaining()) {
            Some(packet) => r matches Ok(read) && read@ == packet,
            None => r is Err,
        },
{
    proof {
        reveal(take_master_server_accept_arranged_connection);
    }
    let client_id = match stream.read_u16() {
        Ok(client_id) => client_id,
        Err(e) => {
            return Err(e);
        },
    };
    Ok(Packet::MasterServerAcceptArrangedConnection { client_id })
}

/// Writes the fields of `MasterServerAcceptArrangedConnection`.
fn write_master_server_accept_arranged_connection(
    out: &mut BitStream,
    client_id: u16,
)
    requires
        old(out)@.at_end(),
    ensures
        final(out)@.at_end(),
        final(out)@.written() == old(out)@.written() + tagged(
            50,
            master_server_accept_arranged_connection_bits(client_id),
        ),
{
    proof {
        lemma2_to64();
        reveal(master_server_accept_arranged_connection_bits);
    }
    let ghost w0 = out@.written();
    out.write_u8(tags::MASTER_SERVER_ACCEPT_ARRANGED_CONNECTION);
    let ghost w1 = out@.written();
    out.write_u16(client_id);
    let ghost w2 = out@.written();
    proof {
        lemma_concat_assoc(w0, int_bits(50, 8), int_bits(client_id as nat, 16));
    }
}

/// Reads the fields of `MasterServerArrangedConnectionAccepted`.
fn read_master_server_arranged_connection_accepted(stream: &mut BitStream) -> (
    r: Result<Packet, Truncated>
)
    ensures
        final(stream)@.bits == old(stream)@.bits,
        match take_master_server_arranged_connection_accepted(old(stream)@.remaining()) {
            Some(packet) => r matches Ok(read) && read@ == packet,
            None => r is Err,
        },
{
    proof {
        reveal(take_master_server_arranged_connection_accepted);
    }
    let (flags, key, session) = match read_flags_key_session(stream) {
        Ok(header) => header,
        Err(e) => {
            return Err(e);
        },
    };
    let count = match stream.read_u8() {
        Ok(count) => count,
        Err(e) => {
            return Err(e);
        },
    };
    let possible_addresses = match read_endpoint_list(stream, count as usize) {
        Ok(possible_addresses) => possible_addresses,
        Err(e) => {
            return Err(e);
        },
    };
    Ok(Packet::MasterServerArrangedConnectionAccepted { flags, key, session, possible_addresses })
}

/// Writes the fields of `MasterServerArrangedConnectionAccepted`.
fn write_master_server_arranged_connection_accepted(
    out: &mut BitStream,
    flags: u8,
    key: u16,
    session: u16,
    possible_addresses: &Vec<Endpoint>,
)
    requires
        old(out)@.at_end(),
    ensures
        final(out)@.at_end(),
        final(out)@.written() == old(out)@.written() + tagged(
            52,
            master_server_arranged_connection_accepted_bits(
                flags,
                key,
                session,
                possible_addresses@,
            ),
        ),
{
    proof {
        lemma2_to64();
        reveal(master_server_arranged_connection_accepted_bits);
    }
    let ghost w0 = out@.written();
    out.write_u8(tags::MASTER_SERVER_ARRANGED_CONNECTION_ACCEPTED);
    let ghost w1 = out@.written();
    write_flags_key_session(out, flags, key, session);
    let ghost w2 = out@.written();
    out.write_u8((possible_addresses.len() % 256) as u8);
    let ghost counted = out@.written();
    write_endpoint_list(out, possible_addresses);
    proof {
        lemma_concat_assoc(
            w2,
            int_bits((possible_addresses@.len() % pow2(8)) as nat, 8),
            list_bits(possible_addresses@, endpoint_encoder()),
        );
    }
    let ghost w3 = out@.written();
    proof {
        lemma_concat_assoc(
            w1,
            fks_bits(flags, key, session),
            counted_bits(possible_addresses@, 8, endpoint_encoder()),
        );
        lemma_concat_assoc(
            w0,
            int_bits(52, 8),
            fks_bits(flags, key, session) + (
                counted_bits(possible_addresses@, 8, endpoint_encoder())
            ),
        );
    }
}

/// Reads the fields of `MasterServerRejectArrangedConnection`.
fn read_master_server_reject_arranged_connection(stream: &mut BitStream) -> (
    r: Result<Packet, Truncated>
)
    ensures
        final(stream)@.bits == old(stream)@.bits,
        match take_master_server_reject_arranged_connection(old(stream)@.remaining()) {
            Some(packet) => r matches Ok(read) && read@ == packet,
            None => r is Err,
        },
{
    proof {
        reveal(take_master_server_reject_arranged_connection);
    }
    let reason = match stream.read_u8() {
        Ok(reason) => reason,
        Err(e) => {
            return Err(e);
        },
    };
    Ok(Packet::MasterServerRejectArrangedConnection { reason })
}

/// Writes the fields of `MasterServerRejectArrangedConnection`.
fn write_master_server_reject_arranged_connection(
    out: &mut BitStream,
    reason: u8,
)
    requires
        old(out)@.at_end(),
    ensures
        final(out)@.at_end(),
        final(out)@.written() == old(out)@.written() + tagged(
            54,
            master_server_reject_arranged_connection_bits(reason),
        ),
{
    proof {
        lemma2_to64();
        reveal(master_server_reject_arranged_connection_bits);
    }
    let ghost w0 = out@.written();
    out.write_u8(tags::MASTER_SERVER_REJECT_ARRANGED_CONNECTION);
    let ghost w1 = out@.written();
    out.write_u8(reason);
    let ghost w2 = out@.written();
    proof {
        lemma_concat_assoc(w0, int_bits(54, 8), int_bits(reason as nat, 8));
    }
}

/// Reads the fields of `MasterServerArrangedConnectionRejected`.
fn read_master_server_arranged_connection_rejected(stream: &mut BitStream) -> (
    r: Result<Packet, Truncated>
)
    ensures
        final(stream)@.bits == old(stream)@.bits,
        match take_master_server_arranged_connection_rejected(old(stream)@.remaining()) {
            Some(packet) => r matches Ok(read) && read@ == packet,
            None => r is Err,
        },
{
    proof {
        reveal(take_master_server_arranged_connection_rejected);
    }
    let (flags, key, session) = match read_flags_key_session(stream) {
        Ok(header) => header,
        Err(e) => {
            return Err(e);
        },
    };
    let reason = match stream.read_u8() {
        Ok(reason) => reason,
        Err(e) => {
            return Err(e);
        },
    };
    Ok(Packet::MasterServerArrangedConnectionRejected { flags, key, session, reason })
}

/// Writes the fields of `MasterServerArrangedConnectionRejected`.
fn write_master_server_arranged_connection_rejected(
    out: &mut BitStream,
    flags: u8,
    key: u16,
    session: u16,
    reason: u8,
)
    requires
        old(out)@.at_end(),
    ensures
        final(out)@.at_end(),
        final(out)@.written() == old(out)@.written() + tagged(
            56,
            master_server_arranged_connection_rejected_bits(flags, key, session, reason),
        ),
{
    proof {
        lemma2_to64();
        reveal(master_server_arranged_connection_rejected_bits);
    }
    let ghost w0 = out@.written();
    out.write_u8(tags::MASTER_SERVER_ARRANGED_CONNECTION_REJECTED);
    let ghost w1 = out@.written();
    write_flags_key_session(out, flags, key, session);
    let ghost w2 = out@.written();
    out.write_u8(reason);
    let ghost w3 = out@.written();
    proof {
        lemma_concat_assoc(w1, fks_bits(flags, key, session), int_bits(reason as nat, 8));
        lemma_concat_assoc(
            w0,
            int_bits(56, 8),
            fks_bits(flags, key, session) + (int_bits(reason as nat, 8)),
        );
    }
}

/// Reads the fields of `MasterServerGamePingRequest`.
fn read_master_server_game_ping_request(stream: &mut BitStream) -> (r: Result<Packet, Truncated>)
    ensures
        final(stream)@.bits == old(stream)@.bits,
        match take_master_server_game_ping_request(old(stream)@.remaining()) {
            Some(packet) => r matches Ok(read) && read@ == packet,
            None => r is Err,
        },
{
    proof {
        reveal(take_master_server_game_ping_request);
    }
    let address = match read_address_and_port(stream) {
        Ok(address) => address,
        Err(e) => {
            return Err(e);
        },
    };
    let (flags, key, session) = match read_flags_key_session(stream) {
        Ok(header) => header,
        Err(e) => {
            return Err(e);
        },
    };
    Ok(Packet::MasterServerGamePingRequest { address, flags, key, session })
}

/// Writes the fields of `MasterServerGamePingRequest`.
fn write_master_server_game_ping_request(
    out: &mut BitStream,
    address: Endpoint,
    flags: u8,
    key: u16,
    session: u16,
)
    requires
        old(out)@.at_end(),
    ensures
        final(out)@.at_end(),
        final(out)@.written() == old(out)@.written() + tagged(
            58,
            master_server_game_ping_request_bits(address, flags, key, session),
        ),
{
    proof {
        lemma2_to64();
        reveal(master_server_game_ping_request_bits);
    }
    let ghost w0 = out@.written();
    out.write_u8(tags::MASTER_SERVER_GAME_PING_REQUEST);
    let ghost w1 = out@.written();
    write_address_and_port(out, address);
    let ghost w2 = out@.written();
    write_flags_key_session(out, flags, key, session);
    let ghost w3 = out@.written();
    proof {
        lemma_concat_assoc(w1, endpoint_bits(address), fks_bits(flags, key, session));
        lemma_concat_assoc(
            w0,
            int_bits(58, 8),
            endpoint_bits(address) + (fks_bits(flags, key, session)),
        );
    }
}

/// Reads the fields of `MasterServerGameInfoRequest`.
fn read_master_server_game_info_request(stream: &mut BitStream) -> (r: Result<Packet, Truncated>)
    ensures
        final(stream)@.bits == old(stream)@.bits,
        match take_master_server_game_info_request(old(stream)@.remaining()) {
            Some(packet) => r matches Ok(read) && read@ == packet,
            None => r is Err,
        },
{
    proof {
        reveal(take_master_server_game_info_request);
    }
    let address = match read_address_and_port(stream) {
        Ok(address) => address,
        Err(e) => {
            return Err(e);
        },
    };
    let (flags, key, session) = match read_flags_key_session(stream) {
        Ok(header) => header,
        Err(e) => {
            return Err(e);
        },
    };
    Ok(Packet::MasterServerGameInfoRequest { address, flags, key, session })
}

/// Writes the fields of `MasterServerGameInfoRequest`.
fn write_master_server_game_info_request(
    out: &mut BitStream,
    address: Endpoint,
    flags: u8,
    key: u16,
    session: u16,
)
    requires
        old(out)@.at_end(),
    ensures
        final(out)@.at_end(),
        final(out)@.written() == old(out)@.written() + tagged(
            62,
            master_server_game_info_request_bits(address, flags, key, session),
        ),
{
    proof {
        lemma2_to64();
        reveal(master_server_game_info_request_bits);
    }
    let ghost w0 = out@.written();
    out.write_u8(tags::MASTER_SERVER_GAME_INFO_REQUEST);
    let ghost w1 = out@.written();
    write_address_and_port(out, address);
    let ghost w2 = out@.written();
    write_flags_key_session(out, flags, key, session);
    let ghost w3 = out@.written();
    proof {
        lemma_concat_assoc(w1, endpoint_bits(address), fks_bits(flags, key, session));
        lemma_concat_assoc(
            w0,
            int_bits(62, 8),
            endpoint_bits(address) + (fks_bits(flags, key, session)),
        );
    }
}

/// Reads the fields of `MasterServerRelayRequestToMaster`.
fn read_master_server_relay_request_to_master(stream: &mut BitStream) -> (
    r: Result<Packet, Truncated>
)
    ensures
        final(stream)@.bits == old(stream)@.bits,
        match take_master_server_relay_request_to_master(old(stream)@.remaining()) {
            Some(packet) => r matches Ok(read) && read@ == packet,
            None => r is Err,
        },
{
    proof {
        reveal(take_master_server_relay_request_to_master);
    }
    let address = match read_address_and_port(stream) {
        Ok(address) => address,
        Err(e) => {
            return Err(e);
        },
    };
    Ok(Packet::MasterServerRelayRequestToMaster { address })
}

/// Writes the fields of `MasterServerRelayRequestToMaster`.
fn write_master_server_relay_request_to_master(
    out: &mut BitStream,
    address: Endpoint,
)
    requires
        old(out)@.at_end(),
    ensures
        final(out)@.at_end(),
        final(out)@.written() == old(out)@.written() + tagged(
            66,
            master_server_relay_request_to_master_bits(address),
        ),
{
    proof {
        lemma2_to64();
        reveal(master_server_relay_request_to_master_bits);
    }
    let ghost w0 = out@.written();
    out.write_u8(tags::MASTER_SERVER_RELAY_REQUEST);
    let ghost w1 = out@.written();
    write_address_and_port(out, address);
    let ghost w2 = out@.written();
    proof {
        lemma_concat_assoc(w0, int_bits(66, 8), endpoint_bits(address));
    }
}

/// Reads the fields of `MasterServerRelayRequestToRelay`.
fn read_master_server_relay_request_to_relay(stream: &mut BitStream) -> (
    r: Result<Packet, Truncated>
)
    ensures
        final(stream)@.bits == old(stream)@.bits,
        match take_master_server_relay_request_to_relay(old(stream)@.remaining()) {
            Some(packet) => r matches Ok(read) && read@ == packet,
            None => r is Err,
        },
{
    proof {
        reveal(take_master_server_relay_request_to_relay);
    }
    let relay_id = match stream.read_u32() {
        Ok(relay_id) => relay_id,
        Err(e) => {
            return Err(e);
        },
    };
    let server_addr = match read_address_and_port(stream) {
        Ok(server_addr) => server_addr,
        Err(e) => {
            return Err(e);
        },
    };
    let client_addr = match read_address(stream) {
        Ok(client_addr) => client_addr,
        Err(e) => {
            return Err(e);
        },
    };
    Ok(Packet::MasterServerRelayRequestToRelay { relay_id, server_addr, client_addr })
}

/// Writes the fields of `MasterServerRelayRequestToRelay`.
fn write_master_server_relay_request_to_relay(
    out: &mut BitStream,
    relay_id: u32,
    server_addr: Endpoint,
    client_addr: Ipv4Address,
)
    requires
        old(out)@.at_end(),
    ensures
        final(out)@.at_end(),
        final(out)@.written() == old(out)@.written() + tagged(
            66,
            master_server_relay_request_to_relay_bits(relay_id, server_addr, client_addr),
        ),
{
    proof {
        lemma2_to64();
        reveal(master_server_relay_request_to_relay_bits);
    }
    let ghost w0 = out@.written();
    out.write_u8(tags::MASTER_SERVER_RELAY_REQUEST);
    let ghost w1 = out@.written();
    out.write_u32(relay_id);
    let ghost w2 = out@.written();
    write_address_and_port(out, server_addr);
    let ghost w3 = out@.written();
    write_address(out, client_addr);
    let ghost w4 = out@.written();
    proof {
        lemma_concat_assoc(w2, endpoint_bits(server_addr), address_bits(client_addr));
        lemma_concat_assoc(
            w1,
            int_bits(relay_id as nat, 32),
            endpoint_bits(server_addr) + (address_bits(client_addr)),
        );
        lemma_concat_assoc(
            w0,
            int_bits(66, 8),
            int_bits(relay_id as nat, 32) + (
                endpoint_bits(server_addr) + (address_bits(client_addr))
            ),
        );
    }
}

/// Reads the fields of `MasterServerRelayResponseFromRelay`.
fn read_master_server_relay_response_from_relay(stream: &mut BitStream) -> (
    r: Result<Packet, Truncated>
)
    ensures
        final(stream)@.bits == old(stream)@.bits,
        match take_master_server_relay_response_from_relay(old(stream)@.remaining()) {
            Some(packet) => r matches Ok(read) && read@ == packet,
            None => r is Err,
        },
{
    proof {
        reveal(take_master_server_relay_response_from_relay);
    }
    let relay_id = match stream.read_u32() {
        Ok(relay_id) => relay_id,
        Err(e) => {
            return Err(e);
        },
    };
    let relay_port = match stream.read_u16() {
        Ok(relay_port) => relay_port,
        Err(e) => {
            return Err(e);
        },
    };
    Ok(Packet::MasterServerRelayResponseFromRelay { relay_id, relay_port })
}

/// Writes the fields of `MasterServerRelayResponseFromRelay`.
fn write_master_server_relay_response_from_relay(
    out: &mut BitStream,
    relay_id: u32,
    relay_port: u16,
)
    requires
        old(out)@.at_end(),
    ensures
        final(out)@.at_end(),
        final(out)@.written() == old(out)@.written() + tagged(
            68,
            master_server_relay_response_from_relay_bits(relay_id, relay_port),
        ),
{
    proof {
        lemma2_to64();
        reveal(master_server_relay_response_from_relay_bits);
    }
    let ghost w0 = out@.written();
    out.write_u8(tags::MASTER_SERVER_RELAY_RESPONSE);
    let ghost w1 = out@.written();
    out.write_u32(relay_id);
    let ghost w2 = out@.written();
    out.write_u16(relay_port);
    let ghost w3 = out@.written();
    proof {
        lemma_concat_assoc(w1, int_bits(relay_id as nat, 32), int_bits(relay_port as nat, 16));
        lemma_concat_assoc(
            w0,
            int_bits(68, 8),
            int_bits(relay_id as nat, 32) + (int_bits(relay_port as nat, 16)),
        );
    }
}

/// Reads the fields of `MasterServerRelayResponseFromMaster`.
fn read_master_server_relay_response_from_master(stream: &mut BitStream) -> (
    r: Result<Packet, Truncated>
)
    ensures
        final(stream)@.bits == old(stream)@.bits,
        match take_master_server_relay_response_from_master(old(stream)@.remaining()) {
            Some(packet) => r matches Ok(read) && read@ == packet,
            None => r is Err,
        },
{
    proof {
        reveal(take_master_server_relay_response_from_master);
    }
    let (flags, key, session) = match read_flags_key_session(stream) {
        Ok(header) => header,
        Err(e) => {
            return Err(e);
        },
    };
    let is_host = match stream.read_flag() {
        Ok(is_host) => is_host,
        Err(e) => {
            return Err(e);
        },
    };
    let address = match read_address_and_port(stream) {
        Ok(address) => address,
        Err(e) => {
            return Err(e);
        },
    };
    Ok(Packet::MasterServerRelayResponseFromMaster { flags, key, session, is_host, address })
}

/// Writes the fields of `MasterServerRelayResponseFromMaster`.
fn write_master_server_relay_response_from_master(
    out: &mut BitStream,
    flags: u8,
    key: u16,
    session: u16,
    is_host: bool,
    address: Endpoint,
)
    requires
        old(out)@.at_end(),
    ensures
        final(out)@.at_end(),
        final(out)@.written() == old(out)@.written() + tagged(
            68,
            master_server_relay_response_from_master_bits(flags, key, session, is_host, address),
        ),
{
    proof {
        lemma2_to64();
        reveal(master_server_relay_response_from_master_bits);
    }
    let ghost w0 = out@.written();
    out.write_u8(tags::MASTER_SERVER_RELAY_RESPONSE);
    let ghost w1 = out@.written();
    write_flags_key_session(out, flags, key, session);
    let ghost w2 = out@.written();
    out.write_flag(is_host);
    let ghost w3 = out@.written();
    write_address_and_port(out, address);
    let ghost w4 = out@.written();
    proof {
        lemma_concat_assoc(w2, flag_bits(is_host), endpoint_bits(address));
        lemma_concat_assoc(
            w1,
            fks_bits(flags, key, session),
            flag_bits(is_host) + (endpoint_bits(address)),
        );
        lemma_concat_assoc(
            w0,
            int_bits(68, 8),
            fks_bits(flags, key, session) + (flag_bits(is_host) + (endpoint_bits(address))),
        );
    }
}

/// Reads the fields of `MasterServerRelayReady`.
fn read_master_server_relay_ready(stream: &mut BitStream) -> (r: Result<Packet, Truncated>)
    ensures
        final(stream)@.bits == old(stream)@.bits,
        match take_master_server_relay_ready(old(stream)@.remaining()) {
            Some(packet) => r matches Ok(read) && read@ == packet,
            None => r is Err,
        },
{
    proof {
        reveal(take_master_server_relay_ready);
    }
    let (flags, key, session) = match read_flags_key_session(stream) {
        Ok(header) => header,
        Err(e) => {
            return Err(e);
        },
    };
    Ok(Packet::MasterServerRelayReady { flags, key, session })
}

/// Writes the fields of `MasterServerRelayReady`.
fn write_master_server_relay_ready(
    out: &mut BitStream,
    flags: u8,
    key: u16,
    session: u16,
)
    requires
        old(out)@.at_end(),
    ensures
        final(out)@.at_end(),
        final(out)@.written() == old(out)@.written() + tagged(
            72,
            master_server_relay_ready_bits(flags, key, session),
        ),
{
    proof {
        lemma2_to64();
        reveal(master_server_relay_ready_bits);
    }
    let ghost w0 = out@.written();
    out.write_u8(tags::MASTER_SERVER_RELAY_READY);
    let ghost w1 = out@.written();
    write_flags_key_session(out, flags, key, session);
    let ghost w2 = out@.written();
    proof {
        lemma_concat_assoc(w0, int_bits(72, 8), fks_bits(flags, key, session));
    }
}

/// Reads the fields of `MasterServerJoinInvite`.
fn read_master_server_join_invite(stream: &mut BitStream) -> (r: Result<Packet, Truncated>)
    ensures
        final(stream)@.bits == old(stream)@.bits,
        match take_master_server_join_invite(old(stream)@.remaining()) {
            Some(packet) => r matches Ok(read) && read@ == packet,
            None => r is Err,
        },
{
    proof {
        reveal(take_master_server_join_invite);
    }
    let invite_code = match stream.read_cstring() {
        Ok(invite_code) => invite_code,
        Err(e) => {
            return Err(e);
        },
    };
    Ok(Packet::MasterServerJoinInvite { invite_code })
}

/// Writes the fields of `MasterServerJoinInvite`.
fn write_master_server_join_invite(
    out: &mut BitStream,
    invite_code: &String,
)
    requires
        old(out)@.at_end(),
        invite_code@.len() < 256,
    ensures
        final(out)@.at_end(),
        final(out)@.written() == old(out)@.written() + tagged(
            74,
            master_server_join_invite_bits(invite_code@),
        ),
{
    proof {
        lemma2_to64();
        reveal(master_server_join_invite_bits);
    }
    let ghost w0 = out@.written();
    out.write_u8(tags::MASTER_SERVER_JOIN_INVITE);
    let ghost w1 = out@.written();
    out.write_cstring(invite_code);
    let ghost w2 = out@.written();
    proof {
        lemma_concat_assoc(w0, int_bits(74, 8), ctext_bits(invite_code@));
    }
}

/// Reads the fields of `MasterServerJoinInviteResponse`.
fn read_master_server_join_invite_response(stream: &mut BitStream) -> (r: Result<Packet, Truncated>)
    ensures
        final(stream)@.bits == old(stream)@.bits,
        match take_master_server_join_invite_response(old(stream)@.remaining()) {
            Some(packet) => r matches Ok(read) && read@ == packet,
            None => r is Err,
        },
{
    proof {
        reveal(take_master_server_join_invite_response);
    }
    let (flags, key, session) = match read_flags_key_session(stream) {
        Ok(header) => header,
        Err(e) => {
            return Err(e);
        },
    };
    let address = match read_found(stream) {
        Ok(address) => address,
        Err(e) => {
            return Err(e);
        },
    };
    Ok(Packet::MasterServerJoinInviteResponse { flags, key, session, address })
}

/// Writes the fields of `MasterServerJoinInviteResponse`.
fn write_master_server_join_invite_response(
    out: &mut BitStream,
    flags: u8,
    key: u16,
    session: u16,
    address: Option<Endpoint>,
)
    requires
        old(out)@.at_end(),
    ensures
        final(out)@.at_end(),
        final(out)@.written() == old(out)@.written() + tagged(
            76,
            master_server_join_invite_response_bits(flags, key, session, address),
        ),
{
    proof {
        lemma2_to64();
        reveal(master_server_join_invite_response_bits);
    }
    let ghost w0 = out@.written();
    out.write_u8(tags::MASTER_SERVER_JOIN_INVITE_RESPONSE);
    let ghost w1 = out@.written();
    write_flags_key_session(out, flags, key, session);
    let ghost w2 = out@.written();
    write_found(out, address);
    let ghost w3 = out@.written();
    proof {
        lemma_concat_assoc(w1, fks_bits(flags, key, session), found_bits(address));
        lemma_concat_assoc(
            w0,
            int_bits(76, 8),
            fks_bits(flags, key, session) + (found_bits(address)),
        );
    }
}

impl Packet {
    /// Reads a datagram. The result is the packet, or nothing where the tag is
    /// not known or not one that `source` sends, or the datagram ends early.
    pub fn try_from_bytes(bytes: &[u8], source: PacketSource, huffman: &HuffmanProcessor) -> (r:
        Option<Self>)
        ensures
            match decode(bytes@, source) {
                Some(packet) => r matches Some(read) && read@ == packet,
                None => r is None,
            },
        decreases bytes@.len(), 1nat,
    {
        let mut stream = BitStream::from_buffer(vstd::slice::slice_to_vec(bytes));
        match Self::try_from_stream(&mut stream, source, huffman) {
            Ok(result) => result,
            Err(_) => None,
        }
    }

    /// Reads a packet from a stream whose cursor stands at the tag.
    #[verifier::rlimit(30)]
    pub fn try_from_stream(
        stream: &mut BitStream,
        source: PacketSource,
        huffman: &HuffmanProcessor,
    ) -> (r: Result<Option<Self>, Truncated>)
        ensures
            final(stream)@.bits == old(stream)@.bits,
            match parse(old(stream)@.bytes(), old(stream)@.pos, source) {
                Ok(Some(packet)) => r matches Ok(Some(read)) && read@ == packet,
                Ok(None) => r matches Ok(None),
                Err(_) => r is Err,
            },
        decreases old(stream)@.bytes().len(), 0nat,
    {
        let ghost bytes = stream@.bytes();
        proof {
            stream.lemma_whole_bytes();
        }
        let packet_type = match stream.read_u8() {
            Ok(tag) => tag,
            Err(e) => {
                return Err(e);
            },
        };
        proof {
            lemma_odd(packet_type);
        }
        if packet_type & 0x1 == 1 || packet_type == tags::GGC_PACKET {
            return Ok(Some(Packet::Raw(vstd::slice::slice_to_vec(stream.as_bytes()))));
        }
        if packet_type == tags::MASTER_SERVER_GAME_PING_RESPONSE || packet_type
            == tags::MASTER_SERVER_GAME_INFO_RESPONSE {
            let front = match read_wrapper(stream) {
                Ok(front) => front,
                Err(e) => {
                    return Err(e);
                },
            };
            let packet = match Self::try_from_bytes(front.inside.as_slice(), source, huffman) {
                Some(packet) => packet,
                None => Packet::Raw(front.inside),
            };
            return Ok(
                Some(
                    Self::wrap(
                        packet_type,
                        front.flags,
                        front.key,
                        front.session,
                        front.address,
                        packet,
                    ),
                ),
            );
        }
        Self::read_fields(stream, packet_type, source, huffman)
    }

    /// The packet with the tag `tag` that has `inner` at its end.
    fn wrap(tag: u8, flags: u8, key: u16, session: u16, address: Endpoint, inner: Packet) -> (r:
        Self)
        ensures
            r@ == wrap(tag, (flags, key, session), address, inner@),
    {
        if tag == tags::MASTER_SERVER_GAME_PING_RESPONSE {
            Packet::MasterServerGamePingResponse {
                flags,
                key,
                session,
                address,
                packet: Box::new(inner),
            }
        } else {
            Packet::MasterServerGameInfoResponse {
                flags,
                key,
                session,
                address,
                packet: Box::new(inner),
            }
        }
    }


    /// The queries and their answers: tags 2 to 22.
    fn read_queries(
        stream: &mut BitStream,
        packet_type: u8,
        huffman: &HuffmanProcessor,
    ) -> (r: Result<Option<Self>, Truncated>)
        ensures
            final(stream)@.bits == old(stream)@.bits,
            match parse_queries(packet_type, old(stream)@.remaining()) {
                Ok(Some(packet)) => r matches Ok(Some(read)) && read@ == packet,
                Ok(None) => r matches Ok(None),
                Err(_) => r is Err,
            },
    {
        if packet_type == tags::MASTER_SERVER_GAME_TYPES_REQUEST {
            match read_master_server_game_types_request(stream) {
                Ok(packet) => Ok(Some(packet)),
                Err(e) => Err(e),
            }
        } else if packet_type == tags::MASTER_SERVER_GAME_TYPES_RESPONSE {
            match read_master_server_game_types_response(stream) {
                Ok(packet) => Ok(Some(packet)),
                Err(e) => Err(e),
            }
        } else if packet_type == tags::MASTER_SERVER_LIST_REQUEST {
            match read_master_server_list_request(stream) {
                Ok(packet) => Ok(Some(packet)),
                Err(e) => Err(e),
            }
        } else if packet_type == tags::MASTER_SERVER_LIST_RESPONSE {
            match read_master_server_list_response(stream) {
                Ok(packet) => Ok(Some(packet)),
                Err(e) => Err(e),
            }
        } else if packet_type == tags::GAME_MASTER_INFO_REQUEST {
            match read_game_master_info_request(stream) {
                Ok(packet) => Ok(Some(packet)),
                Err(e) => Err(e),
            }
        } else if packet_type == tags::GAME_MASTER_INFO_RESPONSE {
            match read_game_master_info_response(stream) {
                Ok(packet) => Ok(Some(packet)),
                Err(e) => Err(e),
            }
        } else if packet_type == tags::GAME_PING_REQUEST {
            match read_game_ping_request(stream) {
                Ok(packet) => Ok(Some(packet)),
                Err(e) => Err(e),
            }
        } else if packet_type == tags::GAME_PING_RESPONSE {
            match read_game_ping_response(stream, huffman) {
                Ok(packet) => Ok(Some(packet)),
                Err(e) => Err(e),
            }
        } else if packet_type == tags::GAME_INFO_REQUEST {
            match read_game_info_request(stream) {
                Ok(packet) => Ok(Some(packet)),
                Err(e) => Err(e),
            }
        } else if packet_type == tags::GAME_INFO_RESPONSE {
            match read_game_info_response(stream, huffman) {
                Ok(packet) => Ok(Some(packet)),
                Err(e) => Err(e),
            }
        } else if packet_type == tags::GAME_HEARTBEAT {
            match read_game_heartbeat(stream) {
                Ok(packet) => Ok(Some(packet)),
                Err(e) => Err(e),
            }
        } else {
            Ok(None)
        }
    }

    /// The packets that open and close a connection: tags 26 to 42.
    fn read_handshake(
        stream: &mut BitStream,
        packet_type: u8,
        huffman: &HuffmanProcessor,
    ) -> (r: Result<Option<Self>, Truncated>)
        ensures
            final(stream)@.bits == old(stream)@.bits,
            match parse_handshake(packet_type, old(stream)@.remaining()) {
                Ok(Some(packet)) => r matches Ok(Some(read)) && read@ == packet,
                Ok(None) => r matches Ok(None),
                Err(_) => r is Err,
            },
    {
        if packet_type == tags::CONNECT_CHALLENGE_REQUEST {
            match read_connect_challenge_request(stream) {
                Ok(packet) => Ok(Some(packet)),
                Err(e) => Err(e),
            }
        } else if packet_type == tags::CONNECT_CHALLENGE_REJECT {
            match read_connect_challenge_reject(stream, huffman) {
                Ok(packet) => Ok(Some(packet)),
                Err(e) => Err(e),
            }
        } else if packet_type == tags::CONNECT_CHALLENGE_RESPONSE {
            match read_connect_challenge_response(stream) {
                Ok(packet) => Ok(Some(packet)),
                Err(e) => Err(e),
            }
        } else if packet_type == tags::CONNECT_REQUEST {
            match read_connect_request(stream, huffman) {
                Ok(packet) => Ok(Some(packet)),
                Err(e) => Err(e),
            }
        } else if packet_type == tags::CONNECT_REJECT {
            match read_connect_reject(stream, huffman) {
                Ok(packet) => Ok(Some(packet)),
                Err(e) => Err(e),
            }
        } else if packet_type == tags::CONNECT_ACCEPT {
            match read_connect_accept(stream) {
                Ok(packet) => Ok(Some(packet)),
                Err(e) => Err(e),
            }
        } else if packet_type == tags::DISCONNECT {
            match read_disconnect(stream, huffman) {
                Ok(packet) => Ok(Some(packet)),
                Err(e) => Err(e),
            }
        } else if packet_type == tags::PUNCH {
            Ok(Some(Packet::Punch {  }))
        } else if packet_type == tags::ARRANGED_CONNECT_REQUEST {
            match read_arranged_connect_request(stream) {
                Ok(packet) => Ok(Some(packet)),
                Err(e) => Err(e),
            }
        } else {
            Ok(None)
        }
    }

    /// The packets of arranged connections and the queries through the master
    /// server: tags 46 to 62.
    fn read_arranged(
        stream: &mut BitStream,
        packet_type: u8,
        huffman: &HuffmanProcessor,
    ) -> (r: Result<Option<Self>, Truncated>)
        ensures
            final(stream)@.bits == old(stream)@.bits,
            match parse_arranged(packet_type, old(stream)@.remaining()) {
                Ok(Some(packet)) => r matches Ok(Some(read)) && read@ == packet,
                Ok(None) => r matches Ok(None),
                Err(_) => r is Err,
            },
    {
        if packet_type == tags::MASTER_SERVER_REQUEST_ARRANGED_CONNECTION {
            match read_master_server_request_arranged_connection(stream) {
                Ok(packet) => Ok(Some(packet)),
                Err(e) => Err(e),
            }
        } else if packet_type == tags::MASTER_SERVER_CLIENT_REQUESTED_ARRANGED_CONNECTION {
            match read_master_server_client_requested_arranged_connection(stream) {
                Ok(packet) => Ok(Some(packet)),
                Err(e) => Err(e),
            }
        } else if packet_type == tags::MASTER_SERVER_ACCEPT_ARRANGED_CONNECTION {
            match read_master_server_accept_arranged_connection(stream) {
                Ok(packet) => Ok(Some(packet)),
                Err(e) => Err(e),
            }
        } else if packet_type == tags::MASTER_SERVER_ARRANGED_CONNECTION_ACCEPTED {
            match read_master_server_arranged_connection_accepted(stream) {
                Ok(packet) => Ok(Some(packet)),
                Err(e) => Err(e),
            }
        } else if packet_type == tags::MASTER_SERVER_REJECT_ARRANGED_CONNECTION {
            match read_master_server_reject_arranged_connection(stream) {
                Ok(packet) => Ok(Some(packet)),
                Err(e) => Err(e),
            }
        } else if packet_type == tags::MASTER_SERVER_ARRANGED_CONNECTION_REJECTED {
            match read_master_server_arranged_connection_rejected(stream) {
                Ok(packet) => Ok(Some(packet)),
                Err(e) => Err(e),
            }
        } else if packet_type == tags::MASTER_SERVER_GAME_PING_REQUEST {
            match read_master_server_game_ping_request(stream) {
                Ok(packet) => Ok(Some(packet)),
                Err(e) => Err(e),
            }
        } else if packet_type == tags::MASTER_SERVER_GAME_INFO_REQUEST {
            match read_master_server_game_info_request(stream) {
                Ok(packet) => Ok(Some(packet)),
                Err(e) => Err(e),
            }
        } else {
            Ok(None)
        }
    }

    /// The packets of relays and invites: tags 66 to 78.
    fn read_relay(
        stream: &mut BitStream,
        packet_type: u8,
        source: PacketSource,
        huffman: &HuffmanProcessor,
    ) -> (r: Result<Option<Self>, Truncated>)
        ensures
            final(stream)@.bits == old(stream)@.bits,
            match parse_relay(packet_type, old(stream)@.remaining(), source) {
                Ok(Some(packet)) => r matches Ok(Some(read)) && read@ == packet,
                Ok(None) => r matches Ok(None),
                Err(_) => r is Err,
            },
    {
        if packet_type == tags::MASTER_SERVER_RELAY_REQUEST {
            match source {
                PacketSource::GameToGame => Ok(None),
                PacketSource::GameToMaster => {
                    match read_master_server_relay_request_to_master(stream) {
                        Ok(packet) => Ok(Some(packet)),
                        Err(e) => Err(e),
                    }
                },
                PacketSource::MasterToRelay => {
                    match read_master_server_relay_request_to_relay(stream) {
                        Ok(packet) => Ok(Some(packet)),
                        Err(e) => Err(e),
                    }
                },
            }
        } else if packet_type == tags::MASTER_SERVER_RELAY_RESPONSE {
            match source {
                PacketSource::GameToGame => Ok(None),
                PacketSource::GameToMaster => {
                    match read_master_server_relay_response_from_master(stream) {
                        Ok(packet) => Ok(Some(packet)),
                        Err(e) => Err(e),
                    }
                },
                PacketSource::MasterToRelay => {
                    match read_master_server_relay_response_from_relay(stream) {
                        Ok(packet) => Ok(Some(packet)),
                        Err(e) => Err(e),
                    }
                },
            }
        } else if packet_type == tags::MASTER_SERVER_RELAY_DELETE {
            Ok(Some(Packet::MasterServerRelayDelete {  }))
        } else if packet_type == tags::MASTER_SERVER_RELAY_READY {
            match read_master_server_relay_ready(stream) {
                Ok(packet) => Ok(Some(packet)),
                Err(e) => Err(e),
            }
        } else if packet_type == tags::MASTER_SERVER_JOIN_INVITE {
            match read_master_server_join_invite(stream) {
                Ok(packet) => Ok(Some(packet)),
                Err(e) => Err(e),
            }
        } else if packet_type == tags::MASTER_SERVER_JOIN_INVITE_RESPONSE {
            match read_master_server_join_invite_response(stream) {
                Ok(packet) => Ok(Some(packet)),
                Err(e) => Err(e),
            }
        } else if packet_type == tags::MASTER_SERVER_RELAY_HEARTBEAT {
            Ok(Some(Packet::MasterServerRelayHeartbeat {  }))
        } else {
            Ok(None)
        }
    }

    /// Reads the fields that the tag asks for.
    fn read_fields(
        stream: &mut BitStream,
        packet_type: u8,
        source: PacketSource,
        huffman: &HuffmanProcessor,
    ) -> (r: Result<Option<Self>, Truncated>)
        ensures
            final(stream)@.bits == old(stream)@.bits,
            match parse_fields(packet_type, old(stream)@.remaining(), source) {
                Ok(Some(packet)) => r matches Ok(Some(read)) && read@ == packet,
                Ok(None) => r matches Ok(None),
                Err(_) => r is Err,
            },
    {
        proof {
            reveal(parse_fields);
        }
        if packet_type <= tags::GAME_HEARTBEAT {
            Self::read_queries(stream, packet_type, huffman)
        } else if packet_type <= tags::ARRANGED_CONNECT_REQUEST {
            Self::read_handshake(stream, packet_type, huffman)
        } else if packet_type <= tags::MASTER_SERVER_GAME_INFO_RESPONSE {
            Self::read_arranged(stream, packet_type, huffman)
        } else {
            Self::read_relay(stream, packet_type, source, huffman)
        }
    }


    /// Whether the texts of the packet are short enough for their lengths to
    /// go out.
    pub fn is_fit(&self) -> (fit: bool)
        ensures
            fit == self@.fits(),
        decreases self,
    {
        match self {
            Packet::MasterServerGameTypesResponse { game_types, mission_types, .. } => {
                proof {
                    assert(
                        self@->MasterServerGameTypesResponse_game_types == texts_of(game_types@)
                    );
                    lemma_texts_shorter(game_types@, 256);
                    assert(
                        self@->MasterServerGameTypesResponse_mission_types == texts_of(
                            mission_types@
                        )
                    );
                    lemma_texts_shorter(mission_types@, 256);
                }
                all_shorter(game_types, 256)
                    && all_shorter(mission_types, 256)
            },
            Packet::MasterServerListRequest { game_type, mission_type, .. } => {
                text_len(game_type) < 256
                    && text_len(mission_type) < 256
            },
            Packet::GameMasterInfoResponse { game_type, mission_type, .. } => {
                text_len(game_type) < 256
                    && text_len(mission_type) < 256
            },
            Packet::GamePingResponse { version_string, name, .. } => {
                text_len(version_string) <= 255
                    && text_len(name) <= 255
            },
            Packet::GameInfoResponse {
                game_type,
                mission_type,
                mission_name,
                server_info,
                server_info_query,
                ..
            } => {
                text_len(game_type) <= 255
                    && text_len(mission_type) <= 255
                    && text_len(mission_name) <= 255
                    && text_len(server_info) <= 255
                    && text_len(server_info_query) < 0x1_0000
            },
            Packet::ConnectChallengeReject { reason, .. } => {
                text_len(reason) <= 255
            },
            Packet::ConnectRequest { class_name, game_string, join_password, connect_argv, .. } => {
                proof {
                    assert(self@->ConnectRequest_connect_argv == texts_of(connect_argv@));
                    lemma_texts_shorter(connect_argv@, 256);
                }
                text_len(class_name) <= 255
                    && text_len(game_string) <= 255
                    && text_len(join_password) <= 255
                    && all_shorter(connect_argv, 256)
            },
            Packet::ConnectReject { reason, .. } => {
                text_len(reason) <= 255
            },
            Packet::Disconnect { reason, .. } => {
                text_len(reason) <= 255
            },
            Packet::MasterServerGamePingResponse { packet, .. } => {
                (&**packet).is_fit()
            },
            Packet::MasterServerGameInfoResponse { packet, .. } => {
                (&**packet).is_fit()
            },
            Packet::MasterServerJoinInvite { invite_code, .. } => {
                text_len(invite_code) < 256
            },
            _ => true,
        }
    }

    /// The datagram of the packet, or nothing where a text of the packet is
    /// too long for its length to go out.
    pub fn checked_into_bytes(self, huffman: &HuffmanProcessor) -> (r: Option<Vec<u8>>)
        ensures
            match r {
                Some(bytes) => self@.fits() && bytes_bits(bytes@) == pad_to_byte(
                    encode_bits(self@),
                ),
                None => !self@.fits(),
            },
    {
        if self.is_fit() {
            Some(self.into_bytes(huffman))
        } else {
            None
        }
    }

    /// The datagram of the packet: a raw packet's bytes as they are, else the
    /// tag and the fields, filled up to whole bytes.
    #[verifier::rlimit(50)]
    pub fn into_bytes(self, huffman: &HuffmanProcessor) -> (bytes: Vec<u8>)
        requires
            self@.fits(),
        ensures
            bytes_bits(bytes@) == pad_to_byte(encode_bits(self@)),
        decreases self,
    {
        let ghost shown = self@;
        let mut stream = BitStream::new();
        let out = &mut stream;
        proof {
            lemma2_to64();
            assert(out@.written() =~= Seq::<bool>::empty());
        }
        match self {
            Packet::Raw(raw_packet) => {
                proof {
                    assert(pad_to_byte(bytes_bits(raw_packet@)) =~= bytes_bits(raw_packet@));
                }
                return raw_packet;
            },
            Packet::GGCPacket {  } => {
                out.write_u8(tags::GGC_PACKET);
            },
            Packet::MasterServerGameTypesRequest { flags, key, session } => {
                write_master_server_game_types_request(out, flags, key, session);
            },
            Packet::MasterServerGameTypesResponse {
                flags,
                key,
                session,
                game_types,
                mission_types,
            } => {
                proof {
                    assert(
                        shown->MasterServerGameTypesResponse_game_types == texts_of(game_types@)
                    );
                    assert(
                        shown->MasterServerGameTypesResponse_mission_types == texts_of(
                            mission_types@
                        )
                    );
                }
                write_master_server_game_types_response(
                    out,
                    flags,
                    key,
                    session,
                    &game_types,
                    &mission_types,
                );
            },
            Packet::MasterServerListRequest {
                flags,
                key,
                session,
                packet_index,
                game_type,
                mission_type,
                min_players,
                max_players,
                region_mask,
                version,
                filter_flag,
                max_bots,
                min_cpu,
                buddy_list,
            } => {
                write_master_server_list_request(
                    out,
                    flags,
                    key,
                    session,
                    packet_index,
                    &game_type,
                    &mission_type,
                    min_players,
                    max_players,
                    region_mask,
                    version,
                    filter_flag,
                    max_bots,
                    min_cpu,
                    &buddy_list,
                );
            },
            Packet::MasterServerListResponse {
                flags,
                key,
                session,
                packet_index,
                packet_total,
                servers,
            } => {
                write_master_server_list_response(
                    out,
                    flags,
                    key,
                    session,
                    packet_index,
                    packet_total,
                    &servers,
                );
            },
            Packet::GameMasterInfoRequest { flags, key, session } => {
                write_game_master_info_request(out, flags, key, session);
            },
            Packet::GameMasterInfoResponse {
                flags,
                key,
                session,
                game_type,
                mission_type,
                max_players,
                region_mask,
                version,
                filter_flag,
                bot_count,
                cpu_speed,
                player_count,
                guid_list,
            } => {
                write_game_master_info_response(
                    out,
                    flags,
                    key,
                    session,
                    &game_type,
                    &mission_type,
                    max_players,
                    region_mask,
                    version,
                    filter_flag,
                    bot_count,
                    cpu_speed,
                    player_count,
                    &guid_list,
                );
            },
            Packet::GamePingRequest { flags, key, session } => {
                write_game_ping_request(out, flags, key, session);
            },
            Packet::GamePingResponse {
                flags,
                key,
                session,
                version_string,
                current_protocol_version,
                min_required_protocol_version,
                version,
                name,
            } => {
                write_game_ping_response(
                    out,
                    huffman,
                    flags,
                    key,
                    session,
                    &version_string,
                    current_protocol_version,
                    min_required_protocol_version,
                    version,
                    &name,
                );
            },
            Packet::GameInfoRequest { flags, key, session } => {
                write_game_info_request(out, flags, key, session);
            },
            Packet::GameInfoResponse {
                flags,
                key,
                session,
                game_type,
                mission_type,
                mission_name,
                filter_flag,
                player_count,
                max_players,
                bot_count,
                cpu_speed,
                server_info,
                server_info_query,
            } => {
                write_game_info_response(
                    out,
                    huffman,
                    flags,
                    key,
                    session,
                    &game_type,
                    &mission_type,
                    &mission_name,
                    filter_flag,
                    player_count,
                    max_players,
                    bot_count,
                    cpu_speed,
                    &server_info,
                    &server_info_query,
                );
            },
            Packet::GameHeartbeat { flags, key, session } => {
                write_game_heartbeat(out, flags, key, session);
            },
            Packet::ConnectChallengeRequest { sequence } => {
                write_connect_challenge_request(out, sequence);
            },
            Packet::ConnectChallengeReject { sequence, reason } => {
                write_connect_challenge_reject(out, huffman, sequence, &reason);
            },
            Packet::ConnectChallengeResponse { sequence, address_digest } => {
                write_connect_challenge_response(out, sequence, &address_digest);
            },
            Packet::ConnectRequest {
                sequence,
                address_digest,
                class_name,
                net_class_group,
                class_crc,
                game_string,
                current_protocol_version,
                min_required_protocol_version,
                join_password,
                connect_argv,
            } => {
                proof {
                    assert(shown->ConnectRequest_connect_argv == texts_of(connect_argv@));
                }
                write_connect_request(
                    out,
                    huffman,
                    sequence,
                    &address_digest,
                    &class_name,
                    net_class_group,
                    class_crc,
                    &game_string,
                    current_protocol_version,
                    min_required_protocol_version,
                    &join_password,
                    &connect_argv,
                );
            },
            Packet::ConnectReject { sequence, reason } => {
                write_connect_reject(out, huffman, sequence, &reason);
            },
            Packet::ConnectAccept { sequence, protocol_version } => {
                write_connect_accept(out, sequence, protocol_version);
            },
            Packet::Disconnect { sequence, reason } => {
                write_disconnect(out, huffman, sequence, &reason);
            },
            Packet::Punch {  } => {
                out.write_u8(tags::PUNCH);
            },
            Packet::ArrangedConnectRequest { sequence, debug_object_sizes } => {
                write_arranged_connect_request(out, sequence, debug_object_sizes);
            },
            Packet::MasterServerRequestArrangedConnection { address } => {
                write_master_server_request_arranged_connection(out, address);
            },
            Packet::MasterServerClientRequestedArrangedConnection {
                flags,
                key,
                session,
                client_id,
                possible_addresses,
            } => {
                write_master_server_client_requested_arranged_connection(
                    out,
                    flags,
                    key,
                    session,
                    client_id,
                    &possible_addresses,
                );
            },
            Packet::MasterServerAcceptArrangedConnection { client_id } => {
                write_master_server_accept_arranged_connection(out, client_id);
            },
            Packet::MasterServerArrangedConnectionAccepted {
                flags,
                key,
                session,
                possible_addresses,
            } => {
                write_master_server_arranged_connection_accepted(
                    out,
                    flags,
                    key,
                    session,
                    &possible_addresses,
                );
            },
            Packet::MasterServerRejectArrangedConnection { reason } => {
                write_master_server_reject_arranged_connection(out, reason);
            },
            Packet::MasterServerArrangedConnectionRejected { flags, key, session, reason } => {
                write_master_server_arranged_connection_rejected(out, flags, key, session, reason);
            },
            Packet::MasterServerGamePingRequest { address, flags, key, session } => {
                write_master_server_game_ping_request(out, address, flags, key, session);
            },
            Packet::MasterServerGamePingResponse { flags, key, session, address, packet } => {
                let inner = (*packet).into_bytes(huffman);
                write_nested(
                    out,
                    tags::MASTER_SERVER_GAME_PING_RESPONSE,
                    flags,
                    key,
                    session,
                    address,
                    &inner,
                );
            },
            Packet::MasterServerGameInfoRequest { address, flags, key, session } => {
                write_master_server_game_info_request(out, address, flags, key, session);
            },
            Packet::MasterServerGameInfoResponse { flags, key, session, address, packet } => {
                let inner = (*packet).into_bytes(huffman);
                write_nested(
                    out,
                    tags::MASTER_SERVER_GAME_INFO_RESPONSE,
                    flags,
                    key,
                    session,
                    address,
                    &inner,
                );
            },
            Packet::MasterServerRelayRequestToMaster { address } => {
                write_master_server_relay_request_to_master(out, address);
            },
            Packet::MasterServerRelayRequestToRelay { relay_id, server_addr, client_addr } => {
                write_master_server_relay_request_to_relay(out, relay_id, server_addr, client_addr);
            },
            Packet::MasterServerRelayResponseFromRelay { relay_id, relay_port } => {
                write_master_server_relay_response_from_relay(out, relay_id, relay_port);
            },
            Packet::MasterServerRelayResponseFromMaster {
                flags,
                key,
                session,
                is_host,
                address,
            } => {
                write_master_server_relay_response_from_master(
                    out,
                    flags,
                    key,
                    session,
                    is_host,
                    address,
                );
            },
            Packet::MasterServerRelayDelete {  } => {
                out.write_u8(tags::MASTER_SERVER_RELAY_DELETE);
            },
            Packet::MasterServerRelayReady { flags, key, session } => {
                write_master_server_relay_ready(out, flags, key, session);
            },
            Packet::MasterServerJoinInvite { invite_code } => {
                write_master_server_join_invite(out, &invite_code);
            },
            Packet::MasterServerJoinInviteResponse { flags, key, session, address } => {
                write_master_server_join_invite_response(out, flags, key, session, address);
            },
            Packet::MasterServerRelayHeartbeat {  } => {
                out.write_u8(tags::MASTER_SERVER_RELAY_HEARTBEAT);
            },
        }
        proof {
            assert(stream@.written() =~= encode_bits(shown));
        }
        stream.into_bytes()
    }
}

/// The front of a packet with another at its end, and the bytes behind it.
struct Wrapper {
    flags: u8,
    key: u16,
    session: u16,
    address: Endpoint,
    inside: Vec<u8>,
}

/// Reads the front of a packet with another at its end, and takes the bytes
/// behind it.
#[verifier::rlimit(30)]
fn read_wrapper(stream: &mut BitStream) -> (r: Result<Wrapper, Truncated>)
    requires
        old(stream)@.pos >= 8,
    ensures
        final(stream)@.bits == old(stream)@.bits,
        match take_wrapper(old(stream)@.remaining()) {
            Some((header, address, rest)) => {
                let offset = (8 * old(stream)@.bytes().len() - rest.len()) / 8;
                &&& 1 <= offset <= old(stream)@.bytes().len()
                &&& r matches Ok(read) && read.flags == header.0 && read.key == header.1
                    && read.session == header.2 && read.address == address && read.inside@
                    == old(stream)@.bytes().skip(offset)
            },
            None => r is Err,
        },
{
    proof {
        reveal(take_wrapper);
        stream.lemma_whole_bytes();
    }
    let (flags, key, session) = match read_flags_key_session(stream) {
        Ok(header) => header,
        Err(e) => {
            return Err(e);
        },
    };
    let address = match read_address_and_port(stream) {
        Ok(address) => address,
        Err(e) => {
            return Err(e);
        },
    };
    proof {
        stream.lemma_whole_bytes();
    }
    let offset = stream.byte_pos();
    let inside = stream.bytes_from(offset);
    Ok(Wrapper { flags, key, session, address, inside })
}

/// Writes a packet with another at its end: the tag, the header of a query,
/// an address with its port, and the bytes of the packet inside.
fn write_nested(
    out: &mut BitStream,
    tag: u8,
    flags: u8,
    key: u16,
    session: u16,
    address: Endpoint,
    inner: &Vec<u8>,
)
    requires
        old(out)@.at_end(),
    ensures
        final(out)@.at_end(),
        final(out)@.written() == old(out)@.written() + tagged(
            tag,
            fks_bits(flags, key, session) + (endpoint_bits(address) + bytes_bits(inner@)),
        ),
{
    let ghost w0 = out@.written();
    out.write_u8(tag);
    let ghost w1 = out@.written();
    write_flags_key_session(out, flags, key, session);
    let ghost w2 = out@.written();
    write_address_and_port(out, address);
    out.write_bytes(inner.as_slice());
    proof {
        let body = bytes_bits(inner@);
        lemma_concat_assoc(w2, endpoint_bits(address), body);
        lemma_concat_assoc(w1, fks_bits(flags, key, session), endpoint_bits(address) + body);
        lemma_concat_assoc(
            w0,
            int_bits(tag as nat, 8),
            fks_bits(flags, key, session) + (endpoint_bits(address) + body),
        );
    }
}

/// The texts of a list are short where the strings of the list are.
proof fn lemma_texts_shorter(list: Seq<String>, limit: nat)
    ensures
        (forall|i: int| 0 <= i < texts_of(list).len() ==> (#[trigger] texts_of(list)[i]).len()
            < limit) == (forall|i: int| 0 <= i < list.len() ==> (#[trigger] list[i])@.len()
            < limit),
{
    if forall|i: int| 0 <= i < list.len() ==> (#[trigger] list[i])@.len() < limit {
        assert forall|i: int| 0 <= i < texts_of(list).len() implies (#[trigger] texts_of(
            list,
        )[i]).len() < limit by {
            assert(list[i]@.len() < limit);
        }
    }
    if forall|i: int| 0 <= i < texts_of(list).len() ==> (#[trigger] texts_of(list)[i]).len()
        < limit {
        assert forall|i: int| 0 <= i < list.len() implies (#[trigger] list[i])@.len() < limit by {
            assert(texts_of(list)[i].len() < limit);
        }
    }
}

/// Joining three sequences does not depend on where one starts.
pub proof fn lemma_concat_assoc(a: Seq<bool>, b: Seq<bool>, c: Seq<bool>)
    ensures
        (a + b) + c == a + (b + c),
{
    assert((a + b) + c =~= a + (b + c));
}

proof fn lemma_odd(tag: u8)
    by (bit_vector)
    ensures
        (tag & 0x1 == 1) == (tag % 2 == 1),
{
}

} // verus!
