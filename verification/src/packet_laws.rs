//! What holds of the packet codec: a packet that is written and read again is
//! the packet.

use vstd::prelude::*;
use vstd::arithmetic::power2::lemma2_to64;
use crate::bits::{
    bytes_bits, int_bits, lemma_bytes_bits_injective, lemma_int_bits_len, pad_to_byte, zero_bits,
};
use crate::bitstream::{flag_bits, lemma_take_flag, lemma_take_int};
use crate::fields::{
    Endpoint, Ipv4Address, address_bits, counted_bits, ctext_bits, ctext_encoder, ctext_taker,
    digest_bits, endpoint_bits, endpoint_encoder, endpoint_taker, fks_bits, found_bits,
    guids_bits, lemma_take_address, lemma_take_counted, lemma_take_ctext, lemma_take_digest,
    lemma_take_endpoint, lemma_take_fks, lemma_take_found, lemma_take_guids,
    lemma_take_long_ctext, lemma_take_maybe_text, lemma_take_text, list_bits, long_ctext_bits,
    maybe_text_bits, short_text, text_bits, text_encoder, text_taker, u32_bits, u32_taker,
};
use crate::packet::{
    arranged_connect_request_bits, connect_accept_bits, connect_challenge_reject_bits,
    connect_challenge_request_bits, connect_challenge_response_bits, connect_reject_bits,
    connect_request_bits, connect_request_tail2_bits, connect_request_tail_bits, decode,
    disconnect_bits, encode_bits, game_heartbeat_bits, game_info_request_bits,
    game_info_response_bits, game_info_response_tail2_bits, game_info_response_tail_bits,
    game_master_info_request_bits, game_master_info_response_bits,
    game_master_info_response_tail2_bits, game_master_info_response_tail_bits,
    game_ping_request_bits, game_ping_response_bits, game_ping_response_tail_bits,
    master_server_accept_arranged_connection_bits,
    master_server_arranged_connection_accepted_bits,
    master_server_arranged_connection_rejected_bits,
    master_server_client_requested_arranged_connection_bits, master_server_game_info_request_bits,
    master_server_game_ping_request_bits, master_server_game_types_request_bits,
    master_server_game_types_response_bits, master_server_join_invite_bits,
    master_server_join_invite_response_bits, master_server_list_request_bits,
    master_server_list_request_tail2_bits, master_server_list_request_tail_bits,
    master_server_list_response_bits, master_server_reject_arranged_connection_bits,
    master_server_relay_ready_bits, master_server_relay_request_to_master_bits,
    master_server_relay_request_to_relay_bits, master_server_relay_response_from_master_bits,
    master_server_relay_response_from_relay_bits, master_server_request_arranged_connection_bits,
    PacketSource, PacketView, parse, parse_fields, take_arranged_connect_request,
    take_connect_accept, take_connect_challenge_reject, take_connect_challenge_request,
    take_connect_challenge_response, take_connect_reject, take_connect_request,
    take_connect_request_tail, take_connect_request_tail2, take_disconnect, take_game_heartbeat,
    take_game_info_request, take_game_info_response, take_game_info_response_tail,
    take_game_info_response_tail2, take_game_master_info_request, take_game_master_info_response,
    take_game_master_info_response_tail, take_game_master_info_response_tail2,
    take_game_ping_request, take_game_ping_response, take_game_ping_response_tail,
    take_master_server_accept_arranged_connection,
    take_master_server_arranged_connection_accepted,
    take_master_server_arranged_connection_rejected,
    take_master_server_client_requested_arranged_connection, take_master_server_game_info_request,
    take_master_server_game_ping_request, take_master_server_game_types_request,
    take_master_server_game_types_response, take_master_server_join_invite,
    take_master_server_join_invite_response, take_master_server_list_request,
    take_master_server_list_request_tail, take_master_server_list_request_tail2,
    take_master_server_list_response, take_master_server_reject_arranged_connection,
    take_master_server_relay_ready, take_master_server_relay_request_to_master,
    take_master_server_relay_request_to_relay, take_master_server_relay_response_from_master,
    take_master_server_relay_response_from_relay, take_master_server_request_arranged_connection,
    take_wrapper, wrap, wraps,
};
use crate::tags;
use crate::text::single_byte;

verus! {

/// The fields of `MasterServerGameTypesRequest` are read back as they were written.
pub proof fn lemma_take_master_server_game_types_request(
    flags: u8,
    key: u16,
    session: u16,
    rest: Seq<bool>,
)
    ensures
        take_master_server_game_types_request(
            master_server_game_types_request_bits(flags, key, session) + rest
        ) == Some(PacketView::MasterServerGameTypesRequest { flags, key, session }),
{
    lemma2_to64();
    reveal(take_master_server_game_types_request);
    reveal(master_server_game_types_request_bits);
    assert(
        master_server_game_types_request_bits(
            flags,
            key,
            session,
        ) + rest =~= fks_bits(flags, key, session) + rest
    );
    lemma_take_fks(flags, key, session, rest);
}

/// The fields of `MasterServerGameTypesResponse` are read back as they were written.
pub proof fn lemma_take_master_server_game_types_response(
    flags: u8,
    key: u16,
    session: u16,
    game_types: Seq<Seq<char>>,
    mission_types: Seq<Seq<char>>,
    rest: Seq<bool>,
)
    requires
        game_types.len() < 256,
        forall|i: int| 0 <= i < game_types.len() ==> short_text(#[trigger] game_types[i]),
        mission_types.len() < 256,
        forall|i: int| 0 <= i < mission_types.len() ==> short_text(#[trigger] mission_types[i]),
    ensures
        take_master_server_game_types_response(
            master_server_game_types_response_bits(
                flags,
                key,
                session,
                game_types,
                mission_types,
            ) + rest
        ) == Some(PacketView::MasterServerGameTypesResponse {
            flags,
            key,
            session,
            game_types,
            mission_types,
        }),
{
    lemma2_to64();
    reveal(take_master_server_game_types_response);
    reveal(master_server_game_types_response_bits);
    let rest2 = counted_bits(mission_types, 8, ctext_encoder()) + rest;
    let rest1 = counted_bits(game_types, 8, ctext_encoder()) + rest2;
    assert(
        master_server_game_types_response_bits(
            flags,
            key,
            session,
            game_types,
            mission_types,
        ) + rest =~= fks_bits(flags, key, session) + rest1
    );
    lemma_take_fks(flags, key, session, rest1);
    assert forall|i: int, more: Seq<bool>|
        0 <= i < game_types.len() implies #[trigger] ctext_taker()(
            ctext_encoder()(game_types[i]) + more
        )
        == Some((game_types[i], more)) by {
        lemma_take_ctext(game_types[i], more);
    }
    lemma_take_counted(game_types, 8, rest2, ctext_encoder(), ctext_taker());
    assert forall|i: int, more: Seq<bool>|
        0 <= i < mission_types.len() implies #[trigger] ctext_taker()(
            ctext_encoder()(mission_types[i]) + more
        )
        == Some((mission_types[i], more)) by {
        lemma_take_ctext(mission_types[i], more);
    }
    lemma_take_counted(mission_types, 8, rest, ctext_encoder(), ctext_taker());
}

/// The fields of `MasterServerListRequest` from `filter_flag` on are read back
/// as they were written.
pub proof fn lemma_take_master_server_list_request_tail2(
    flags: u8,
    key: u16,
    session: u16,
    packet_index: u8,
    game_type: Seq<char>,
    mission_type: Seq<char>,
    min_players: u8,
    max_players: u8,
    region_mask: u32,
    version: u32,
    filter_flag: u8,
    max_bots: u8,
    min_cpu: u16,
    buddy_list: Seq<u32>,
    rest: Seq<bool>,
)
    requires
        buddy_list.len() < 256,
    ensures
        take_master_server_list_request_tail2(
            master_server_list_request_tail2_bits(
                filter_flag,
                max_bots,
                min_cpu,
                buddy_list,
            ) + rest,
            flags,
            key,
            session,
            packet_index,
            game_type,
            mission_type,
            min_players,
            max_players,
            region_mask,
            version,
        ) == Some(PacketView::MasterServerListRequest {
            flags,
            key,
            session,
            packet_index,
            game_type,
            mission_type,
            min_players,
            max_players,
            region_mask,
            version,
            filter_flag,
            max_bots,
            min_cpu,
            buddy_list,
        }),
{
    lemma2_to64();
    reveal(take_master_server_list_request_tail2);
    reveal(master_server_list_request_tail2_bits);
    let rest3 = counted_bits(buddy_list, 8, u32_bits()) + rest;
    let rest2 = int_bits(min_cpu as nat, 16) + rest3;
    let rest1 = int_bits(max_bots as nat, 8) + rest2;
    assert(
        master_server_list_request_tail2_bits(
            filter_flag,
            max_bots,
            min_cpu,
            buddy_list,
        ) + rest =~= int_bits(filter_flag as nat, 8) + rest1
    );
    lemma_take_int(filter_flag as nat, 8, rest1);
    lemma_take_int(max_bots as nat, 8, rest2);
    lemma_take_int(min_cpu as nat, 16, rest3);
    assert forall|i: int, more: Seq<bool>|
        0 <= i < buddy_list.len() implies #[trigger] u32_taker()(u32_bits()(buddy_list[i]) + more)
        == Some((buddy_list[i], more)) by {
        lemma_take_int(buddy_list[i] as nat, 32, more);
    }
    lemma_take_counted(buddy_list, 8, rest, u32_bits(), u32_taker());
}

/// The fields of `MasterServerListRequest` from `min_players` on are read back
/// as they were written.
pub proof fn lemma_take_master_server_list_request_tail(
    flags: u8,
    key: u16,
    session: u16,
    packet_index: u8,
    game_type: Seq<char>,
    mission_type: Seq<char>,
    min_players: u8,
    max_players: u8,
    region_mask: u32,
    version: u32,
    filter_flag: u8,
    max_bots: u8,
    min_cpu: u16,
    buddy_list: Seq<u32>,
    rest: Seq<bool>,
)
    requires
        filter_flag & 128 == 128 || version == 0,
        buddy_list.len() < 256,
    ensures
        take_master_server_list_request_tail(
            master_server_list_request_tail_bits(
                min_players,
                max_players,
                region_mask,
                version,
                filter_flag,
                max_bots,
                min_cpu,
                buddy_list,
            ) + rest,
            flags,
            key,
            session,
            packet_index,
            game_type,
            mission_type,
        ) == Some(PacketView::MasterServerListRequest {
            flags,
            key,
            session,
            packet_index,
            game_type,
            mission_type,
            min_players,
            max_players,
            region_mask,
            version,
            filter_flag,
            max_bots,
            min_cpu,
            buddy_list,
        }),
{
    lemma2_to64();
    reveal(take_master_server_list_request_tail);
    reveal(master_server_list_request_tail_bits);
    let rest4 = master_server_list_request_tail2_bits(
        filter_flag,
        max_bots,
        min_cpu,
        buddy_list,
    ) + rest;
    let rest3 = int_bits(
        (if filter_flag & 128 == 128 { version } else { 0u32 }) as nat,
        32,
    ) + rest4;
    let rest2 = int_bits(region_mask as nat, 32) + rest3;
    let rest1 = int_bits(max_players as nat, 8) + rest2;
    assert(
        master_server_list_request_tail_bits(
            min_players,
            max_players,
            region_mask,
            version,
            filter_flag,
            max_bots,
            min_cpu,
            buddy_list,
        ) + rest =~= int_bits(min_players as nat, 8) + rest1
    );
    lemma_take_int(min_players as nat, 8, rest1);
    lemma_take_int(max_players as nat, 8, rest2);
    lemma_take_int(region_mask as nat, 32, rest3);
    lemma_take_int(version as nat, 32, rest4);
    lemma_take_master_server_list_request_tail2(
        flags,
        key,
        session,
        packet_index,
        game_type,
        mission_type,
        min_players,
        max_players,
        region_mask,
        version,
        filter_flag,
        max_bots,
        min_cpu,
        buddy_list,
        rest,
    );
}

/// The fields of `MasterServerListRequest` are read back as they were written.
pub proof fn lemma_take_master_server_list_request(
    flags: u8,
    key: u16,
    session: u16,
    packet_index: u8,
    game_type: Seq<char>,
    mission_type: Seq<char>,
    min_players: u8,
    max_players: u8,
    region_mask: u32,
    version: u32,
    filter_flag: u8,
    max_bots: u8,
    min_cpu: u16,
    buddy_list: Seq<u32>,
    rest: Seq<bool>,
)
    requires
        short_text(game_type),
        short_text(mission_type),
        filter_flag & 128 == 128 || version == 0,
        buddy_list.len() < 256,
    ensures
        take_master_server_list_request(
            master_server_list_request_bits(
                flags,
                key,
                session,
                packet_index,
                game_type,
                mission_type,
                min_players,
                max_players,
                region_mask,
                version,
                filter_flag,
                max_bots,
                min_cpu,
                buddy_list,
            ) + rest
        ) == Some(PacketView::MasterServerListRequest {
            flags,
            key,
            session,
            packet_index,
            game_type,
            mission_type,
            min_players,
            max_players,
            region_mask,
            version,
            filter_flag,
            max_bots,
            min_cpu,
            buddy_list,
        }),
{
    lemma2_to64();
    reveal(take_master_server_list_request);
    reveal(master_server_list_request_bits);
    let rest4 = master_server_list_request_tail_bits(
        min_players,
        max_players,
        region_mask,
        version,
        filter_flag,
        max_bots,
        min_cpu,
        buddy_list,
    ) + rest;
    let rest3 = ctext_bits(mission_type) + rest4;
    let rest2 = ctext_bits(game_type) + rest3;
    let rest1 = int_bits(packet_index as nat, 8) + rest2;
    assert(
        master_server_list_request_bits(
            flags,
            key,
            session,
            packet_index,
            game_type,
            mission_type,
            min_players,
            max_players,
            region_mask,
            version,
            filter_flag,
            max_bots,
            min_cpu,
            buddy_list,
        ) + rest =~= fks_bits(flags, key, session) + rest1
    );
    lemma_take_fks(flags, key, session, rest1);
    lemma_take_int(packet_index as nat, 8, rest2);
    lemma_take_ctext(game_type, rest3);
    lemma_take_ctext(mission_type, rest4);
    lemma_take_master_server_list_request_tail(
        flags,
        key,
        session,
        packet_index,
        game_type,
        mission_type,
        min_players,
        max_players,
        region_mask,
        version,
        filter_flag,
        max_bots,
        min_cpu,
        buddy_list,
        rest,
    );
}

/// The fields of `MasterServerListResponse` are read back as they were written.
pub proof fn lemma_take_master_server_list_response(
    flags: u8,
    key: u16,
    session: u16,
    packet_index: u8,
    packet_total: u8,
    servers: Seq<Endpoint>,
    rest: Seq<bool>,
)
    requires
        servers.len() < 0x10000,
    ensures
        take_master_server_list_response(
            master_server_list_response_bits(
                flags,
                key,
                session,
                packet_index,
                packet_total,
                servers,
            ) + rest
        ) == Some(PacketView::MasterServerListResponse {
            flags,
            key,
            session,
            packet_index,
            packet_total,
            servers,
        }),
{
    lemma2_to64();
    reveal(take_master_server_list_response);
    reveal(master_server_list_response_bits);
    let rest3 = counted_bits(servers, 16, endpoint_encoder()) + rest;
    let rest2 = int_bits(packet_total as nat, 8) + rest3;
    let rest1 = int_bits(packet_index as nat, 8) + rest2;
    assert(
        master_server_list_response_bits(
            flags,
            key,
            session,
            packet_index,
            packet_total,
            servers,
        ) + rest =~= fks_bits(flags, key, session) + rest1
    );
    lemma_take_fks(flags, key, session, rest1);
    lemma_take_int(packet_index as nat, 8, rest2);
    lemma_take_int(packet_total as nat, 8, rest3);
    assert forall|i: int, more: Seq<bool>|
        0 <= i < servers.len() implies #[trigger] endpoint_taker()(
            endpoint_encoder()(servers[i]) + more
        )
        == Some((servers[i], more)) by {
        lemma_take_endpoint(servers[i], more);
    }
    lemma_take_counted(servers, 16, rest, endpoint_encoder(), endpoint_taker());
}

/// The fields of `GameMasterInfoRequest` are read back as they were written.
pub proof fn lemma_take_game_master_info_request(flags: u8, key: u16, session: u16, rest: Seq<bool>)
    ensures
        take_game_master_info_request(
            game_master_info_request_bits(flags, key, session) + rest
        ) == Some(PacketView::GameMasterInfoRequest { flags, key, session }),
{
    lemma2_to64();
    reveal(take_game_master_info_request);
    reveal(game_master_info_request_bits);
    assert(
        game_master_info_request_bits(
            flags,
            key,
            session,
        ) + rest =~= fks_bits(flags, key, session) + rest
    );
    lemma_take_fks(flags, key, session, rest);
}

/// The fields of `GameMasterInfoResponse` from `cpu_speed` on are read back as they were written.
pub proof fn lemma_take_game_master_info_response_tail2(
    flags: u8,
    key: u16,
    session: u16,
    game_type: Seq<char>,
    mission_type: Seq<char>,
    max_players: u8,
    region_mask: u32,
    version: u32,
    filter_flag: u8,
    bot_count: u8,
    cpu_speed: u32,
    player_count: u8,
    guid_list: Seq<u32>,
    rest: Seq<bool>,
)
    requires
        guid_list.len() == player_count,
    ensures
        take_game_master_info_response_tail2(
            game_master_info_response_tail2_bits(cpu_speed, player_count, guid_list) + rest,
            flags,
            key,
            session,
            game_type,
            mission_type,
            max_players,
            region_mask,
            version,
            filter_flag,
            bot_count,
        ) == Some(PacketView::GameMasterInfoResponse {
            flags,
            key,
            session,
            game_type,
            mission_type,
            max_players,
            region_mask,
            version,
            filter_flag,
            bot_count,
            cpu_speed,
            player_count,
            guid_list,
        }),
{
    lemma2_to64();
    reveal(take_game_master_info_response_tail2);
    reveal(game_master_info_response_tail2_bits);
    let rest2 = guids_bits(guid_list, player_count) + rest;
    let rest1 = int_bits(player_count as nat, 8) + rest2;
    assert(
        game_master_info_response_tail2_bits(
            cpu_speed,
            player_count,
            guid_list,
        ) + rest =~= int_bits(cpu_speed as nat, 32) + rest1
    );
    lemma_take_int(cpu_speed as nat, 32, rest1);
    lemma_take_int(player_count as nat, 8, rest2);
    assert(
        guids_bits(guid_list, player_count) + rest =~= list_bits(guid_list, u32_bits()) + rest
    ) by {
        assert(list_bits(Seq::new(0nat, |i: int| 0u32), u32_bits()) =~= Seq::<bool>::empty());
    }
    lemma_take_guids(guid_list, rest);
}

/// The fields of `GameMasterInfoResponse` from `region_mask` on are read back as they were written.
pub proof fn lemma_take_game_master_info_response_tail(
    flags: u8,
    key: u16,
    session: u16,
    game_type: Seq<char>,
    mission_type: Seq<char>,
    max_players: u8,
    region_mask: u32,
    version: u32,
    filter_flag: u8,
    bot_count: u8,
    cpu_speed: u32,
    player_count: u8,
    guid_list: Seq<u32>,
    rest: Seq<bool>,
)
    requires
        guid_list.len() == player_count,
    ensures
        take_game_master_info_response_tail(
            game_master_info_response_tail_bits(
                region_mask,
                version,
                filter_flag,
                bot_count,
                cpu_speed,
                player_count,
                guid_list,
            ) + rest,
            flags,
            key,
            session,
            game_type,
            mission_type,
            max_players,
        ) == Some(PacketView::GameMasterInfoResponse {
            flags,
            key,
            session,
            game_type,
            mission_type,
            max_players,
            region_mask,
            version,
            filter_flag,
            bot_count,
            cpu_speed,
            player_count,
            guid_list,
        }),
{
    lemma2_to64();
    reveal(take_game_master_info_response_tail);
    reveal(game_master_info_response_tail_bits);
    let rest4 = game_master_info_response_tail2_bits(cpu_speed, player_count, guid_list) + rest;
    let rest3 = int_bits(bot_count as nat, 8) + rest4;
    let rest2 = int_bits(filter_flag as nat, 8) + rest3;
    let rest1 = int_bits(version as nat, 32) + rest2;
    assert(
        game_master_info_response_tail_bits(
            region_mask,
            version,
            filter_flag,
            bot_count,
            cpu_speed,
            player_count,
            guid_list,
        ) + rest =~= int_bits(region_mask as nat, 32) + rest1
    );
    lemma_take_int(region_mask as nat, 32, rest1);
    lemma_take_int(version as nat, 32, rest2);
    lemma_take_int(filter_flag as nat, 8, rest3);
    lemma_take_int(bot_count as nat, 8, rest4);
    lemma_take_game_master_info_response_tail2(
        flags,
        key,
        session,
        game_type,
        mission_type,
        max_players,
        region_mask,
        version,
        filter_flag,
        bot_count,
        cpu_speed,
        player_count,
        guid_list,
        rest,
    );
}

/// The fields of `GameMasterInfoResponse` are read back as they were written.
pub proof fn lemma_take_game_master_info_response(
    flags: u8,
    key: u16,
    session: u16,
    game_type: Seq<char>,
    mission_type: Seq<char>,
    max_players: u8,
    region_mask: u32,
    version: u32,
    filter_flag: u8,
    bot_count: u8,
    cpu_speed: u32,
    player_count: u8,
    guid_list: Seq<u32>,
    rest: Seq<bool>,
)
    requires
        short_text(game_type),
        short_text(mission_type),
        guid_list.len() == player_count,
    ensures
        take_game_master_info_response(
            game_master_info_response_bits(
                flags,
                key,
                session,
                game_type,
                mission_type,
                max_players,
                region_mask,
                version,
                filter_flag,
                bot_count,
                cpu_speed,
                player_count,
                guid_list,
            ) + rest
        ) == Some(PacketView::GameMasterInfoResponse {
            flags,
            key,
            session,
            game_type,
            mission_type,
            max_players,
            region_mask,
            version,
            filter_flag,
            bot_count,
            cpu_speed,
            player_count,
            guid_list,
        }),
{
    lemma2_to64();
    reveal(take_game_master_info_response);
    reveal(game_master_info_response_bits);
    let rest4 = game_master_info_response_tail_bits(
        region_mask,
        version,
        filter_flag,
        bot_count,
        cpu_speed,
        player_count,
        guid_list,
    ) + rest;
    let rest3 = int_bits(max_players as nat, 8) + rest4;
    let rest2 = ctext_bits(mission_type) + rest3;
    let rest1 = ctext_bits(game_type) + rest2;
    assert(
        game_master_info_response_bits(
            flags,
            key,
            session,
            game_type,
            mission_type,
            max_players,
            region_mask,
            version,
            filter_flag,
            bot_count,
            cpu_speed,
            player_count,
            guid_list,
        ) + rest =~= fks_bits(flags, key, session) + rest1
    );
    lemma_take_fks(flags, key, session, rest1);
    lemma_take_ctext(game_type, rest2);
    lemma_take_ctext(mission_type, rest3);
    lemma_take_int(max_players as nat, 8, rest4);
    lemma_take_game_master_info_response_tail(
        flags,
        key,
        session,
        game_type,
        mission_type,
        max_players,
        region_mask,
        version,
        filter_flag,
        bot_count,
        cpu_speed,
        player_count,
        guid_list,
        rest,
    );
}

/// The fields of `GamePingRequest` are read back as they were written.
pub proof fn lemma_take_game_ping_request(flags: u8, key: u16, session: u16, rest: Seq<bool>)
    ensures
        take_game_ping_request(game_ping_request_bits(flags, key, session) + rest) == Some(
            PacketView::GamePingRequest { flags, key, session }
        ),
{
    lemma2_to64();
    reveal(take_game_ping_request);
    reveal(game_ping_request_bits);
    assert(
        game_ping_request_bits(flags, key, session) + rest =~= fks_bits(flags, key, session) + rest
    );
    lemma_take_fks(flags, key, session, rest);
}

/// The fields of `GamePingResponse` from `version` on are read back as they were written.
pub proof fn lemma_take_game_ping_response_tail(
    flags: u8,
    key: u16,
    session: u16,
    version_string: Seq<char>,
    current_protocol_version: u32,
    min_required_protocol_version: u32,
    version: u32,
    name: Seq<char>,
    rest: Seq<bool>,
)
    requires
        short_text(name),
    ensures
        take_game_ping_response_tail(
            game_ping_response_tail_bits(flags, version, name) + rest,
            flags,
            key,
            session,
            version_string,
            current_protocol_version,
            min_required_protocol_version,
        ) == Some(PacketView::GamePingResponse {
            flags,
            key,
            session,
            version_string,
            current_protocol_version,
            min_required_protocol_version,
            version,
            name,
        }),
{
    lemma2_to64();
    reveal(take_game_ping_response_tail);
    reveal(game_ping_response_tail_bits);
    let rest1 = maybe_text_bits(flags, name) + rest;
    assert(
        game_ping_response_tail_bits(
            flags,
            version,
            name,
        ) + rest =~= int_bits(version as nat, 32) + rest1
    );
    lemma_take_int(version as nat, 32, rest1);
    lemma_take_maybe_text(flags, name, rest);
}

/// The fields of `GamePingResponse` are read back as they were written.
pub proof fn lemma_take_game_ping_response(
    flags: u8,
    key: u16,
    session: u16,
    version_string: Seq<char>,
    current_protocol_version: u32,
    min_required_protocol_version: u32,
    version: u32,
    name: Seq<char>,
    rest: Seq<bool>,
)
    requires
        short_text(version_string),
        short_text(name),
    ensures
        take_game_ping_response(
            game_ping_response_bits(
                flags,
                key,
                session,
                version_string,
                current_protocol_version,
                min_required_protocol_version,
                version,
                name,
            ) + rest
        ) == Some(PacketView::GamePingResponse {
            flags,
            key,
            session,
            version_string,
            current_protocol_version,
            min_required_protocol_version,
            version,
            name,
        }),
{
    lemma2_to64();
    reveal(take_game_ping_response);
    reveal(game_ping_response_bits);
    let rest4 = game_ping_response_tail_bits(flags, version, name) + rest;
    let rest3 = int_bits(min_required_protocol_version as nat, 32) + rest4;
    let rest2 = int_bits(current_protocol_version as nat, 32) + rest3;
    let rest1 = maybe_text_bits(flags, version_string) + rest2;
    assert(
        game_ping_response_bits(
            flags,
            key,
            session,
            version_string,
            current_protocol_version,
            min_required_protocol_version,
            version,
            name,
        ) + rest =~= fks_bits(flags, key, session) + rest1
    );
    lemma_take_fks(flags, key, session, rest1);
    lemma_take_maybe_text(flags, version_string, rest2);
    lemma_take_int(current_protocol_version as nat, 32, rest3);
    lemma_take_int(min_required_protocol_version as nat, 32, rest4);
    lemma_take_game_ping_response_tail(
        flags,
        key,
        session,
        version_string,
        current_protocol_version,
        min_required_protocol_version,
        version,
        name,
        rest,
    );
}

/// The fields of `GameInfoRequest` are read back as they were written.
pub proof fn lemma_take_game_info_request(flags: u8, key: u16, session: u16, rest: Seq<bool>)
    ensures
        take_game_info_request(game_info_request_bits(flags, key, session) + rest) == Some(
            PacketView::GameInfoRequest { flags, key, session }
        ),
{
    lemma2_to64();
    reveal(take_game_info_request);
    reveal(game_info_request_bits);
    assert(
        game_info_request_bits(flags, key, session) + rest =~= fks_bits(flags, key, session) + rest
    );
    lemma_take_fks(flags, key, session, rest);
}

/// The fields of `GameInfoResponse` from `cpu_speed` on are read back as they were written.
pub proof fn lemma_take_game_info_response_tail2(
    flags: u8,
    key: u16,
    session: u16,
    game_type: Seq<char>,
    mission_type: Seq<char>,
    mission_name: Seq<char>,
    filter_flag: u8,
    player_count: u8,
    max_players: u8,
    bot_count: u8,
    cpu_speed: u16,
    server_info: Seq<char>,
    server_info_query: Seq<char>,
    rest: Seq<bool>,
)
    requires
        short_text(server_info),
        server_info_query.len() < 0x1_0000,
        single_byte(server_info_query),
    ensures
        take_game_info_response_tail2(
            game_info_response_tail2_bits(flags, cpu_speed, server_info, server_info_query) + rest,
            flags,
            key,
            session,
            game_type,
            mission_type,
            mission_name,
            filter_flag,
            player_count,
            max_players,
            bot_count,
        ) == Some(PacketView::GameInfoResponse {
            flags,
            key,
            session,
            game_type,
            mission_type,
            mission_name,
            filter_flag,
            player_count,
            max_players,
            bot_count,
            cpu_speed,
            server_info,
            server_info_query,
        }),
{
    lemma2_to64();
    reveal(take_game_info_response_tail2);
    reveal(game_info_response_tail2_bits);
    let rest2 = long_ctext_bits(server_info_query) + rest;
    let rest1 = maybe_text_bits(flags, server_info) + rest2;
    assert(
        game_info_response_tail2_bits(
            flags,
            cpu_speed,
            server_info,
            server_info_query,
        ) + rest =~= int_bits(cpu_speed as nat, 16) + rest1
    );
    lemma_take_int(cpu_speed as nat, 16, rest1);
    lemma_take_maybe_text(flags, server_info, rest2);
    lemma_take_long_ctext(server_info_query, rest);
}

/// The fields of `GameInfoResponse` from `filter_flag` on are read back as they were written.
pub proof fn lemma_take_game_info_response_tail(
    flags: u8,
    key: u16,
    session: u16,
    game_type: Seq<char>,
    mission_type: Seq<char>,
    mission_name: Seq<char>,
    filter_flag: u8,
    player_count: u8,
    max_players: u8,
    bot_count: u8,
    cpu_speed: u16,
    server_info: Seq<char>,
    server_info_query: Seq<char>,
    rest: Seq<bool>,
)
    requires
        short_text(server_info),
        server_info_query.len() < 0x1_0000,
        single_byte(server_info_query),
    ensures
        take_game_info_response_tail(
            game_info_response_tail_bits(
                flags,
                filter_flag,
                player_count,
                max_players,
                bot_count,
                cpu_speed,
                server_info,
                server_info_query,
            ) + rest,
            flags,
            key,
            session,
            game_type,
            mission_type,
            mission_name,
        ) == Some(PacketView::GameInfoResponse {
            flags,
            key,
            session,
            game_type,
            mission_type,
            mission_name,
            filter_flag,
            player_count,
            max_players,
            bot_count,
            cpu_speed,
            server_info,
            server_info_query,
        }),
{
    lemma2_to64();
    reveal(take_game_info_response_tail);
    reveal(game_info_response_tail_bits);
    let rest4 = game_info_response_tail2_bits(
        flags,
        cpu_speed,
        server_info,
        server_info_query,
    ) + rest;
    let rest3 = int_bits(bot_count as nat, 8) + rest4;
    let rest2 = int_bits(max_players as nat, 8) + rest3;
    let rest1 = int_bits(player_count as nat, 8) + rest2;
    assert(
        game_info_response_tail_bits(
            flags,
            filter_flag,
            player_count,
            max_players,
            bot_count,
            cpu_speed,
            server_info,
            server_info_query,
        ) + rest =~= int_bits(filter_flag as nat, 8) + rest1
    );
    lemma_take_int(filter_flag as nat, 8, rest1);
    lemma_take_int(player_count as nat, 8, rest2);
    lemma_take_int(max_players as nat, 8, rest3);
    lemma_take_int(bot_count as nat, 8, rest4);
    lemma_take_game_info_response_tail2(
        flags,
        key,
        session,
        game_type,
        mission_type,
        mission_name,
        filter_flag,
        player_count,
        max_players,
        bot_count,
        cpu_speed,
        server_info,
        server_info_query,
        rest,
    );
}

/// The fields of `GameInfoResponse` are read back as they were written.
pub proof fn lemma_take_game_info_response(
    flags: u8,
    key: u16,
    session: u16,
    game_type: Seq<char>,
    mission_type: Seq<char>,
    mission_name: Seq<char>,
    filter_flag: u8,
    player_count: u8,
    max_players: u8,
    bot_count: u8,
    cpu_speed: u16,
    server_info: Seq<char>,
    server_info_query: Seq<char>,
    rest: Seq<bool>,
)
    requires
        short_text(game_type),
        short_text(mission_type),
        short_text(mission_name),
        short_text(server_info),
        server_info_query.len() < 0x1_0000,
        single_byte(server_info_query),
    ensures
        take_game_info_response(
            game_info_response_bits(
                flags,
                key,
                session,
                game_type,
                mission_type,
                mission_name,
                filter_flag,
                player_count,
                max_players,
                bot_count,
                cpu_speed,
                server_info,
                server_info_query,
            ) + rest
        ) == Some(PacketView::GameInfoResponse {
            flags,
            key,
            session,
            game_type,
            mission_type,
            mission_name,
            filter_flag,
            player_count,
            max_players,
            bot_count,
            cpu_speed,
            server_info,
            server_info_query,
        }),
{
    lemma2_to64();
    reveal(take_game_info_response);
    reveal(game_info_response_bits);
    let rest4 = game_info_response_tail_bits(
        flags,
        filter_flag,
        player_count,
        max_players,
        bot_count,
        cpu_speed,
        server_info,
        server_info_query,
    ) + rest;
    let rest3 = maybe_text_bits(flags, mission_name) + rest4;
    let rest2 = maybe_text_bits(flags, mission_type) + rest3;
    let rest1 = maybe_text_bits(flags, game_type) + rest2;
    assert(
        game_info_response_bits(
            flags,
            key,
            session,
            game_type,
            mission_type,
            mission_name,
            filter_flag,
            player_count,
            max_players,
            bot_count,
            cpu_speed,
            server_info,
            server_info_query,
        ) + rest =~= fks_bits(flags, key, session) + rest1
    );
    lemma_take_fks(flags, key, session, rest1);
    lemma_take_maybe_text(flags, game_type, rest2);
    lemma_take_maybe_text(flags, mission_type, rest3);
    lemma_take_maybe_text(flags, mission_name, rest4);
    lemma_take_game_info_response_tail(
        flags,
        key,
        session,
        game_type,
        mission_type,
        mission_name,
        filter_flag,
        player_count,
        max_players,
        bot_count,
        cpu_speed,
        server_info,
        server_info_query,
        rest,
    );
}

/// The fields of `GameHeartbeat` are read back as they were written.
pub proof fn lemma_take_game_heartbeat(flags: u8, key: u16, session: u16, rest: Seq<bool>)
    ensures
        take_game_heartbeat(game_heartbeat_bits(flags, key, session) + rest) == Some(
            PacketView::GameHeartbeat { flags, key, session }
        ),
{
    lemma2_to64();
    reveal(take_game_heartbeat);
    reveal(game_heartbeat_bits);
    assert(
        game_heartbeat_bits(flags, key, session) + rest =~= fks_bits(flags, key, session) + rest
    );
    lemma_take_fks(flags, key, session, rest);
}

/// The fields of `ConnectChallengeRequest` are read back as they were written.
pub proof fn lemma_take_connect_challenge_request(sequence: u32, rest: Seq<bool>)
    ensures
        take_connect_challenge_request(connect_challenge_request_bits(sequence) + rest) == Some(
            PacketView::ConnectChallengeRequest { sequence }
        ),
{
    lemma2_to64();
    reveal(take_connect_challenge_request);
    reveal(connect_challenge_request_bits);
    assert(
        connect_challenge_request_bits(sequence) + rest =~= int_bits(sequence as nat, 32) + rest
    );
    lemma_take_int(sequence as nat, 32, rest);
}

/// The fields of `ConnectChallengeReject` are read back as they were written.
pub proof fn lemma_take_connect_challenge_reject(sequence: u32, reason: Seq<char>, rest: Seq<bool>)
    requires
        short_text(reason),
    ensures
        take_connect_challenge_reject(
            connect_challenge_reject_bits(sequence, reason) + rest
        ) == Some(PacketView::ConnectChallengeReject { sequence, reason }),
{
    lemma2_to64();
    reveal(take_connect_challenge_reject);
    reveal(connect_challenge_reject_bits);
    let rest1 = text_bits(reason) + rest;
    assert(
        connect_challenge_reject_bits(sequence, reason) + rest =~= int_bits(
            sequence as nat,
            32,
        ) + rest1
    );
    lemma_take_int(sequence as nat, 32, rest1);
    lemma_take_text(reason, rest);
}

/// The fields of `ConnectChallengeResponse` are read back as they were written.
pub proof fn lemma_take_connect_challenge_response(
    sequence: u32,
    address_digest: Seq<u32>,
    rest: Seq<bool>,
)
    requires
        address_digest.len() == 4,
    ensures
        take_connect_challenge_response(
            connect_challenge_response_bits(sequence, address_digest) + rest
        ) == Some(PacketView::ConnectChallengeResponse { sequence, address_digest }),
{
    lemma2_to64();
    reveal(take_connect_challenge_response);
    reveal(connect_challenge_response_bits);
    let rest1 = digest_bits(address_digest) + rest;
    assert(
        connect_challenge_response_bits(
            sequence,
            address_digest,
        ) + rest =~= int_bits(sequence as nat, 32) + rest1
    );
    lemma_take_int(sequence as nat, 32, rest1);
    lemma_take_digest(address_digest, rest);
}

/// The fields of `ConnectRequest` from `join_password` on are read back as they were written.
pub proof fn lemma_take_connect_request_tail2(
    sequence: u32,
    address_digest: Seq<u32>,
    class_name: Seq<char>,
    net_class_group: u32,
    class_crc: u32,
    game_string: Seq<char>,
    current_protocol_version: u32,
    min_required_protocol_version: u32,
    join_password: Seq<char>,
    connect_argv: Seq<Seq<char>>,
    rest: Seq<bool>,
)
    requires
        short_text(join_password),
        connect_argv.len() < 0x100000000,
        forall|i: int| 0 <= i < connect_argv.len() ==> short_text(#[trigger] connect_argv[i]),
    ensures
        take_connect_request_tail2(
            connect_request_tail2_bits(join_password, connect_argv) + rest,
            sequence,
            address_digest,
            class_name,
            net_class_group,
            class_crc,
            game_string,
            current_protocol_version,
            min_required_protocol_version,
        ) == Some(PacketView::ConnectRequest {
            sequence,
            address_digest,
            class_name,
            net_class_group,
            class_crc,
            game_string,
            current_protocol_version,
            min_required_protocol_version,
            join_password,
            connect_argv,
        }),
{
    lemma2_to64();
    reveal(take_connect_request_tail2);
    reveal(connect_request_tail2_bits);
    let rest1 = counted_bits(connect_argv, 32, text_encoder()) + rest;
    assert(
        connect_request_tail2_bits(
            join_password,
            connect_argv,
        ) + rest =~= text_bits(join_password) + rest1
    );
    lemma_take_text(join_password, rest1);
    assert forall|i: int, more: Seq<bool>|
        0 <= i < connect_argv.len() implies #[trigger] text_taker()(
            text_encoder()(connect_argv[i]) + more
        )
        == Some((connect_argv[i], more)) by {
        lemma_take_text(connect_argv[i], more);
    }
    lemma_take_counted(connect_argv, 32, rest, text_encoder(), text_taker());
}

/// The fields of `ConnectRequest` from `class_crc` on are read back as they were written.
pub proof fn lemma_take_connect_request_tail(
    sequence: u32,
    address_digest: Seq<u32>,
    class_name: Seq<char>,
    net_class_group: u32,
    class_crc: u32,
    game_string: Seq<char>,
    current_protocol_version: u32,
    min_required_protocol_version: u32,
    join_password: Seq<char>,
    connect_argv: Seq<Seq<char>>,
    rest: Seq<bool>,
)
    requires
        short_text(game_string),
        short_text(join_password),
        connect_argv.len() < 0x100000000,
        forall|i: int| 0 <= i < connect_argv.len() ==> short_text(#[trigger] connect_argv[i]),
    ensures
        take_connect_request_tail(
            connect_request_tail_bits(
                class_crc,
                game_string,
                current_protocol_version,
                min_required_protocol_version,
                join_password,
                connect_argv,
            ) + rest,
            sequence,
            address_digest,
            class_name,
            net_class_group,
        ) == Some(PacketView::ConnectRequest {
            sequence,
            address_digest,
            class_name,
            net_class_group,
            class_crc,
            game_string,
            current_protocol_version,
            min_required_protocol_version,
            join_password,
            connect_argv,
        }),
{
    lemma2_to64();
    reveal(take_connect_request_tail);
    reveal(connect_request_tail_bits);
    let rest4 = connect_request_tail2_bits(join_password, connect_argv) + rest;
    let rest3 = int_bits(min_required_protocol_version as nat, 32) + rest4;
    let rest2 = int_bits(current_protocol_version as nat, 32) + rest3;
    let rest1 = text_bits(game_string) + rest2;
    assert(
        connect_request_tail_bits(
            class_crc,
            game_string,
            current_protocol_version,
            min_required_protocol_version,
            join_password,
            connect_argv,
        ) + rest =~= int_bits(class_crc as nat, 32) + rest1
    );
    lemma_take_int(class_crc as nat, 32, rest1);
    lemma_take_text(game_string, rest2);
    lemma_take_int(current_protocol_version as nat, 32, rest3);
    lemma_take_int(min_required_protocol_version as nat, 32, rest4);
    lemma_take_connect_request_tail2(
        sequence,
        address_digest,
        class_name,
        net_class_group,
        class_crc,
        game_string,
        current_protocol_version,
        min_required_protocol_version,
        join_password,
        connect_argv,
        rest,
    );
}

/// The fields of `ConnectRequest` are read back as they were written.
pub proof fn lemma_take_connect_request(
    sequence: u32,
    address_digest: Seq<u32>,
    class_name: Seq<char>,
    net_class_group: u32,
    class_crc: u32,
    game_string: Seq<char>,
    current_protocol_version: u32,
    min_required_protocol_version: u32,
    join_password: Seq<char>,
    connect_argv: Seq<Seq<char>>,
    rest: Seq<bool>,
)
    requires
        address_digest.len() == 4,
        short_text(class_name),
        short_text(game_string),
        short_text(join_password),
        connect_argv.len() < 0x100000000,
        forall|i: int| 0 <= i < connect_argv.len() ==> short_text(#[trigger] connect_argv[i]),
    ensures
        take_connect_request(
            connect_request_bits(
                sequence,
                address_digest,
                class_name,
                net_class_group,
                class_crc,
                game_string,
                current_protocol_version,
                min_required_protocol_version,
                join_password,
                connect_argv,
            ) + rest
        ) == Some(PacketView::ConnectRequest {
            sequence,
            address_digest,
            class_name,
            net_class_group,
            class_crc,
            game_string,
            current_protocol_version,
            min_required_protocol_version,
            join_password,
            connect_argv,
        }),
{
    lemma2_to64();
    reveal(take_connect_request);
    reveal(connect_request_bits);
    let rest4 = connect_request_tail_bits(
        class_crc,
        game_string,
        current_protocol_version,
        min_required_protocol_version,
        join_password,
        connect_argv,
    ) + rest;
    let rest3 = int_bits(net_class_group as nat, 32) + rest4;
    let rest2 = text_bits(class_name) + rest3;
    let rest1 = digest_bits(address_digest) + rest2;
    assert(
        connect_request_bits(
            sequence,
            address_digest,
            class_name,
            net_class_group,
            class_crc,
            game_string,
            current_protocol_version,
            min_required_protocol_version,
            join_password,
            connect_argv,
        ) + rest =~= int_bits(sequence as nat, 32) + rest1
    );
    lemma_take_int(sequence as nat, 32, rest1);
    lemma_take_digest(address_digest, rest2);
    lemma_take_text(class_name, rest3);
    lemma_take_int(net_class_group as nat, 32, rest4);
    lemma_take_connect_request_tail(
        sequence,
        address_digest,
        class_name,
        net_class_group,
        class_crc,
        game_string,
        current_protocol_version,
        min_required_protocol_version,
        join_password,
        connect_argv,
        rest,
    );
}

/// The fields of `ConnectReject` are read back as they were written.
pub proof fn lemma_take_connect_reject(sequence: u32, reason: Seq<char>, rest: Seq<bool>)
    requires
        short_text(reason),
    ensures
        take_connect_reject(connect_reject_bits(sequence, reason) + rest) == Some(
            PacketView::ConnectReject { sequence, reason }
        ),
{
    lemma2_to64();
    reveal(take_connect_reject);
    reveal(connect_reject_bits);
    let rest1 = text_bits(reason) + rest;
    assert(connect_reject_bits(sequence, reason) + rest =~= int_bits(sequence as nat, 32) + rest1);
    lemma_take_int(sequence as nat, 32, rest1);
    lemma_take_text(reason, rest);
}

/// The fields of `ConnectAccept` are read back as they were written.
pub proof fn lemma_take_connect_accept(sequence: u32, protocol_version: u32, rest: Seq<bool>)
    ensures
        take_connect_accept(connect_accept_bits(sequence, protocol_version) + rest) == Some(
            PacketView::ConnectAccept { sequence, protocol_version }
        ),
{
    lemma2_to64();
    reveal(take_connect_accept);
    reveal(connect_accept_bits);
    let rest1 = int_bits(protocol_version as nat, 32) + rest;
    assert(
        connect_accept_bits(
            sequence,
            protocol_version,
        ) + rest =~= int_bits(sequence as nat, 32) + rest1
    );
    lemma_take_int(sequence as nat, 32, rest1);
    lemma_take_int(protocol_version as nat, 32, rest);
}

/// The fields of `Disconnect` are read back as they were written.
pub proof fn lemma_take_disconnect(sequence: u32, reason: Seq<char>, rest: Seq<bool>)
    requires
        short_text(reason),
    ensures
        take_disconnect(disconnect_bits(sequence, reason) + rest) == Some(
            PacketView::Disconnect { sequence, reason }
        ),
{
    lemma2_to64();
    reveal(take_disconnect);
    reveal(disconnect_bits);
    let rest1 = text_bits(reason) + rest;
    assert(disconnect_bits(sequence, reason) + rest =~= int_bits(sequence as nat, 32) + rest1);
    lemma_take_int(sequence as nat, 32, rest1);
    lemma_take_text(reason, rest);
}

/// The fields of `ArrangedConnectRequest` are read back as they were written.
pub proof fn lemma_take_arranged_connect_request(
    sequence: u32,
    debug_object_sizes: bool,
    rest: Seq<bool>,
)
    ensures
        take_arranged_connect_request(
            arranged_connect_request_bits(sequence, debug_object_sizes) + rest
        ) == Some(PacketView::ArrangedConnectRequest { sequence, debug_object_sizes }),
{
    lemma2_to64();
    reveal(take_arranged_connect_request);
    reveal(arranged_connect_request_bits);
    let rest1 = flag_bits(debug_object_sizes) + rest;
    assert(
        arranged_connect_request_bits(
            sequence,
            debug_object_sizes,
        ) + rest =~= int_bits(sequence as nat, 32) + rest1
    );
    lemma_take_int(sequence as nat, 32, rest1);
    lemma_take_flag(debug_object_sizes, rest);
}

/// The fields of `MasterServerRequestArrangedConnection` are read back as they were written.
pub proof fn lemma_take_master_server_request_arranged_connection(
    address: Endpoint,
    rest: Seq<bool>,
)
    ensures
        take_master_server_request_arranged_connection(
            master_server_request_arranged_connection_bits(address) + rest
        ) == Some(PacketView::MasterServerRequestArrangedConnection { address }),
{
    lemma2_to64();
    reveal(take_master_server_request_arranged_connection);
    reveal(master_server_request_arranged_connection_bits);
    assert(
        master_server_request_arranged_connection_bits(
            address
        ) + rest =~= endpoint_bits(address) + rest
    );
    lemma_take_endpoint(address, rest);
}

/// The fields of `MasterServerClientRequestedArrangedConnection` are read back
/// as they were written.
pub proof fn lemma_take_master_server_client_requested_arranged_connection(
    flags: u8,
    key: u16,
    session: u16,
    client_id: u16,
    possible_addresses: Seq<Endpoint>,
    rest: Seq<bool>,
)
    requires
        possible_addresses.len() < 256,
    ensures
        take_master_server_client_requested_arranged_connection(
            master_server_client_requested_arranged_connection_bits(
                flags,
                key,
                session,
                client_id,
                possible_addresses,
            ) + rest
        ) == Some(PacketView::MasterServerClientRequestedArrangedConnection {
            flags,
            key,
            session,
            client_id,
            possible_addresses,
        }),
{
    lemma2_to64();
    reveal(take_master_server_client_requested_arranged_connection);
    reveal(master_server_client_requested_arranged_connection_bits);
    let rest2 = counted_bits(possible_addresses, 8, endpoint_encoder()) + rest;
    let rest1 = int_bits(client_id as nat, 16) + rest2;
    assert(
        master_server_client_requested_arranged_connection_bits(
            flags,
            key,
            session,
            client_id,
            possible_addresses,
        ) + rest =~= fks_bits(flags, key, session) + rest1
    );
    lemma_take_fks(flags, key, session, rest1);
    lemma_take_int(client_id as nat, 16, rest2);
    assert forall|i: int, more: Seq<bool>|
        0 <= i < possible_addresses.len() implies #[trigger] endpoint_taker()(
            endpoint_encoder()(possible_addresses[i]) + more
        )
        == Some((possible_addresses[i], more)) by {
        lemma_take_endpoint(possible_addresses[i], more);
    }
    lemma_take_counted(possible_addresses, 8, rest, endpoint_encoder(), endpoint_taker());
}

/// The fields of `MasterServerAcceptArrangedConnection` are read back as they were written.
pub proof fn lemma_take_master_server_accept_arranged_connection(client_id: u16, rest: Seq<bool>)
    ensures
        take_master_server_accept_arranged_connection(
            master_server_accept_arranged_connection_bits(client_id) + rest
        ) == Some(PacketView::MasterServerAcceptArrangedConnection { client_id }),
{
    lemma2_to64();
    reveal(take_master_server_accept_arranged_connection);
    reveal(master_server_accept_arranged_connection_bits);
    assert(
        master_server_accept_arranged_connection_bits(client_id) + rest =~= int_bits(
            client_id as nat,
            16,
        ) + rest
    );
    lemma_take_int(client_id as nat, 16, rest);
}

/// The fields of `MasterServerArrangedConnectionAccepted` are read back as they were written.
pub proof fn lemma_take_master_server_arranged_connection_accepted(
    flags: u8,
    key: u16,
    session: u16,
    possible_addresses: Seq<Endpoint>,
    rest: Seq<bool>,
)
    requires
        possible_addresses.len() < 256,
    ensures
        take_master_server_arranged_connection_accepted(
            master_server_arranged_connection_accepted_bits(
                flags,
                key,
                session,
                possible_addresses,
            ) + rest
        ) == Some(PacketView::MasterServerArrangedConnectionAccepted {
            flags,
            key,
            session,
            possible_addresses,
        }),
{
    lemma2_to64();
    reveal(take_master_server_arranged_connection_accepted);
    reveal(master_server_arranged_connection_accepted_bits);
    let rest1 = counted_bits(possible_addresses, 8, endpoint_encoder()) + rest;
    assert(
        master_server_arranged_connection_accepted_bits(
            flags,
            key,
            session,
            possible_addresses,
        ) + rest =~= fks_bits(flags, key, session) + rest1
    );
    lemma_take_fks(flags, key, session, rest1);
    assert forall|i: int, more: Seq<bool>|
        0 <= i < possible_addresses.len() implies #[trigger] endpoint_taker()(
            endpoint_encoder()(possible_addresses[i]) + more
        )
        == Some((possible_addresses[i], more)) by {
        lemma_take_endpoint(possible_addresses[i], more);
    }
    lemma_take_counted(possible_addresses, 8, rest, endpoint_encoder(), endpoint_taker());
}

/// The fields of `MasterServerRejectArrangedConnection` are read back as they were written.
pub proof fn lemma_take_master_server_reject_arranged_connection(reason: u8, rest: Seq<bool>)
    ensures
        take_master_server_reject_arranged_connection(
            master_server_reject_arranged_connection_bits(reason) + rest
        ) == Some(PacketView::MasterServerRejectArrangedConnection { reason }),
{
    lemma2_to64();
    reveal(take_master_server_reject_arranged_connection);
    reveal(master_server_reject_arranged_connection_bits);
    assert(
        master_server_reject_arranged_connection_bits(reason) + rest =~= int_bits(
            reason as nat,
            8,
        ) + rest
    );
    lemma_take_int(reason as nat, 8, rest);
}

/// The fields of `MasterServerArrangedConnectionRejected` are read back as they were written.
pub proof fn lemma_take_master_server_arranged_connection_rejected(
    flags: u8,
    key: u16,
    session: u16,
    reason: u8,
    rest: Seq<bool>,
)
    ensures
        take_master_server_arranged_connection_rejected(
            master_server_arranged_connection_rejected_bits(flags, key, session, reason) + rest
        ) == Some(PacketView::MasterServerArrangedConnectionRejected {
            flags,
            key,
            session,
            reason,
        }),
{
    lemma2_to64();
    reveal(take_master_server_arranged_connection_rejected);
    reveal(master_server_arranged_connection_rejected_bits);
    let rest1 = int_bits(reason as nat, 8) + rest;
    assert(
        master_server_arranged_connection_rejected_bits(
            flags,
            key,
            session,
            reason,
        ) + rest =~= fks_bits(flags, key, session) + rest1
    );
    lemma_take_fks(flags, key, session, rest1);
    lemma_take_int(reason as nat, 8, rest);
}

/// The fields of `MasterServerGamePingRequest` are read back as they were written.
pub proof fn lemma_take_master_server_game_ping_request(
    address: Endpoint,
    flags: u8,
    key: u16,
    session: u16,
    rest: Seq<bool>,
)
    ensures
        take_master_server_game_ping_request(
            master_server_game_ping_request_bits(address, flags, key, session) + rest
        ) == Some(PacketView::MasterServerGamePingRequest { address, flags, key, session }),
{
    lemma2_to64();
    reveal(take_master_server_game_ping_request);
    reveal(master_server_game_ping_request_bits);
    let rest1 = fks_bits(flags, key, session) + rest;
    assert(
        master_server_game_ping_request_bits(
            address,
            flags,
            key,
            session,
        ) + rest =~= endpoint_bits(address) + rest1
    );
    lemma_take_endpoint(address, rest1);
    lemma_take_fks(flags, key, session, rest);
}

/// The fields of `MasterServerGameInfoRequest` are read back as they were written.
pub proof fn lemma_take_master_server_game_info_request(
    address: Endpoint,
    flags: u8,
    key: u16,
    session: u16,
    rest: Seq<bool>,
)
    ensures
        take_master_server_game_info_request(
            master_server_game_info_request_bits(address, flags, key, session) + rest
        ) == Some(PacketView::MasterServerGameInfoRequest { address, flags, key, session }),
{
    lemma2_to64();
    reveal(take_master_server_game_info_request);
    reveal(master_server_game_info_request_bits);
    let rest1 = fks_bits(flags, key, session) + rest;
    assert(
        master_server_game_info_request_bits(
            address,
            flags,
            key,
            session,
        ) + rest =~= endpoint_bits(address) + rest1
    );
    lemma_take_endpoint(address, rest1);
    lemma_take_fks(flags, key, session, rest);
}

/// The fields of `MasterServerRelayRequestToMaster` are read back as they were written.
pub proof fn lemma_take_master_server_relay_request_to_master(address: Endpoint, rest: Seq<bool>)
    ensures
        take_master_server_relay_request_to_master(
            master_server_relay_request_to_master_bits(address) + rest
        ) == Some(PacketView::MasterServerRelayRequestToMaster { address }),
{
    lemma2_to64();
    reveal(take_master_server_relay_request_to_master);
    reveal(master_server_relay_request_to_master_bits);
    assert(
        master_server_relay_request_to_master_bits(address) + rest =~= endpoint_bits(address) + rest
    );
    lemma_take_endpoint(address, rest);
}

/// The fields of `MasterServerRelayRequestToRelay` are read back as they were written.
pub proof fn lemma_take_master_server_relay_request_to_relay(
    relay_id: u32,
    server_addr: Endpoint,
    client_addr: Ipv4Address,
    rest: Seq<bool>,
)
    ensures
        take_master_server_relay_request_to_relay(
            master_server_relay_request_to_relay_bits(relay_id, server_addr, client_addr) + rest
        ) == Some(PacketView::MasterServerRelayRequestToRelay {
            relay_id,
            server_addr,
            client_addr,
        }),
{
    lemma2_to64();
    reveal(take_master_server_relay_request_to_relay);
    reveal(master_server_relay_request_to_relay_bits);
    let rest2 = address_bits(client_addr) + rest;
    let rest1 = endpoint_bits(server_addr) + rest2;
    assert(
        master_server_relay_request_to_relay_bits(
            relay_id,
            server_addr,
            client_addr,
        ) + rest =~= int_bits(relay_id as nat, 32) + rest1
    );
    lemma_take_int(relay_id as nat, 32, rest1);
    lemma_take_endpoint(server_addr, rest2);
    lemma_take_address(client_addr, rest);
}

/// The fields of `MasterServerRelayResponseFromRelay` are read back as they were written.
pub proof fn lemma_take_master_server_relay_response_from_relay(
    relay_id: u32,
    relay_port: u16,
    rest: Seq<bool>,
)
    ensures
        take_master_server_relay_response_from_relay(
            master_server_relay_response_from_relay_bits(relay_id, relay_port) + rest
        ) == Some(PacketView::MasterServerRelayResponseFromRelay { relay_id, relay_port }),
{
    lemma2_to64();
    reveal(take_master_server_relay_response_from_relay);
    reveal(master_server_relay_response_from_relay_bits);
    let rest1 = int_bits(relay_port as nat, 16) + rest;
    assert(
        master_server_relay_response_from_relay_bits(
            relay_id,
            relay_port,
        ) + rest =~= int_bits(relay_id as nat, 32) + rest1
    );
    lemma_take_int(relay_id as nat, 32, rest1);
    lemma_take_int(relay_port as nat, 16, rest);
}

/// The fields of `MasterServerRelayResponseFromMaster` are read back as they were written.
pub proof fn lemma_take_master_server_relay_response_from_master(
    flags: u8,
    key: u16,
    session: u16,
    is_host: bool,
    address: Endpoint,
    rest: Seq<bool>,
)
    ensures
        take_master_server_relay_response_from_master(
            master_server_relay_response_from_master_bits(
                flags,
                key,
                session,
                is_host,
                address,
            ) + rest
        ) == Some(PacketView::MasterServerRelayResponseFromMaster {
            flags,
            key,
            session,
            is_host,
            address,
        }),
{
    lemma2_to64();
    reveal(take_master_server_relay_response_from_master);
    reveal(master_server_relay_response_from_master_bits);
    let rest2 = endpoint_bits(address) + rest;
    let rest1 = flag_bits(is_host) + rest2;
    assert(
        master_server_relay_response_from_master_bits(
            flags,
            key,
            session,
            is_host,
            address,
        ) + rest =~= fks_bits(flags, key, session) + rest1
    );
    lemma_take_fks(flags, key, session, rest1);
    lemma_take_flag(is_host, rest2);
    lemma_take_endpoint(address, rest);
}

/// The fields of `MasterServerRelayReady` are read back as they were written.
pub proof fn lemma_take_master_server_relay_ready(
    flags: u8,
    key: u16,
    session: u16,
    rest: Seq<bool>,
)
    ensures
        take_master_server_relay_ready(
            master_server_relay_ready_bits(flags, key, session) + rest
        ) == Some(PacketView::MasterServerRelayReady { flags, key, session }),
{
    lemma2_to64();
    reveal(take_master_server_relay_ready);
    reveal(master_server_relay_ready_bits);
    assert(
        master_server_relay_ready_bits(
            flags,
            key,
            session,
        ) + rest =~= fks_bits(flags, key, session) + rest
    );
    lemma_take_fks(flags, key, session, rest);
}

/// The fields of `MasterServerJoinInvite` are read back as they were written.
pub proof fn lemma_take_master_server_join_invite(invite_code: Seq<char>, rest: Seq<bool>)
    requires
        short_text(invite_code),
    ensures
        take_master_server_join_invite(
            master_server_join_invite_bits(invite_code) + rest
        ) == Some(PacketView::MasterServerJoinInvite { invite_code }),
{
    lemma2_to64();
    reveal(take_master_server_join_invite);
    reveal(master_server_join_invite_bits);
    assert(master_server_join_invite_bits(invite_code) + rest =~= ctext_bits(invite_code) + rest);
    lemma_take_ctext(invite_code, rest);
}

/// The fields of `MasterServerJoinInviteResponse` are read back as they were written.
pub proof fn lemma_take_master_server_join_invite_response(
    flags: u8,
    key: u16,
    session: u16,
    address: Option<Endpoint>,
    rest: Seq<bool>,
)
    ensures
        take_master_server_join_invite_response(
            master_server_join_invite_response_bits(flags, key, session, address) + rest
        ) == Some(PacketView::MasterServerJoinInviteResponse { flags, key, session, address }),
{
    lemma2_to64();
    reveal(take_master_server_join_invite_response);
    reveal(master_server_join_invite_response_bits);
    let rest1 = found_bits(address) + rest;
    assert(
        master_server_join_invite_response_bits(
            flags,
            key,
            session,
            address,
        ) + rest =~= fks_bits(flags, key, session) + rest1
    );
    lemma_take_fks(flags, key, session, rest1);
    lemma_take_found(address, rest);
}

impl PacketView {
    /// The packet comes back from the wire as it went out, on the way
    /// `source`: its texts are short and of single-byte characters, its lists
    /// are no longer than their lengths can say, it carries as many player
    /// identifiers as it has players and no version that the filter does not
    /// ask for, and it is of a kind that `source` sends. A raw packet begins
    /// with an odd byte, or with the tag of the kind without a known layout.
    pub open spec fn round_trips(self, source: PacketSource) -> bool
        decreases self, 0nat,
    {
        match self {
            PacketView::Raw(bytes) => bytes.len() > 0 && (bytes[0] % 2 == 1 || bytes[0]
                == tags::GGC_PACKET),
            PacketView::GGCPacket {  } => false,
            PacketView::MasterServerGameTypesResponse { game_types, mission_types, .. } => {
                &&& game_types.len() < 256
                &&& forall|i: int| 0 <= i < game_types.len() ==> short_text(
                    #[trigger] game_types[i]
                )
                &&& mission_types.len() < 256
                &&& forall|i: int| 0 <= i < mission_types.len() ==> short_text(
                    #[trigger] mission_types[i]
                )
            },
            PacketView::MasterServerListRequest {
                game_type,
                mission_type,
                version,
                filter_flag,
                buddy_list,
                ..
            } => {
                &&& short_text(game_type)
                &&& short_text(mission_type)
                &&& filter_flag & 128 == 128 || version == 0
                &&& buddy_list.len() < 256
            },
            PacketView::MasterServerListResponse { servers, .. } => {
                &&& servers.len() < 0x10000
            },
            PacketView::GameMasterInfoResponse {
                game_type,
                mission_type,
                player_count,
                guid_list,
                ..
            } => {
                &&& short_text(game_type)
                &&& short_text(mission_type)
                &&& guid_list.len() == player_count
            },
            PacketView::GamePingResponse { version_string, name, .. } => {
                &&& short_text(version_string)
                &&& short_text(name)
            },
            PacketView::GameInfoResponse {
                game_type,
                mission_type,
                mission_name,
                server_info,
                server_info_query,
                ..
            } => {
                &&& short_text(game_type)
                &&& short_text(mission_type)
                &&& short_text(mission_name)
                &&& short_text(server_info)
                &&& server_info_query.len() < 0x1_0000
                &&& single_byte(server_info_query)
            },
            PacketView::ConnectChallengeReject { reason, .. } => {
                &&& short_text(reason)
            },
            PacketView::ConnectChallengeResponse { address_digest, .. } => {
                &&& address_digest.len() == 4
            },
            PacketView::ConnectRequest {
                address_digest,
                class_name,
                game_string,
                join_password,
                connect_argv,
                ..
            } => {
                &&& address_digest.len() == 4
                &&& short_text(class_name)
                &&& short_text(game_string)
                &&& short_text(join_password)
                &&& connect_argv.len() < 0x100000000
                &&& forall|i: int| 0 <= i < connect_argv.len() ==> short_text(
                    #[trigger] connect_argv[i]
                )
            },
            PacketView::ConnectReject { reason, .. } => {
                &&& short_text(reason)
            },
            PacketView::Disconnect { reason, .. } => {
                &&& short_text(reason)
            },
            PacketView::MasterServerClientRequestedArrangedConnection {
                possible_addresses,
                ..
            } => {
                &&& possible_addresses.len() < 256
            },
            PacketView::MasterServerArrangedConnectionAccepted { possible_addresses, .. } => {
                &&& possible_addresses.len() < 256
            },
            PacketView::MasterServerGamePingResponse { packet, .. } => {
                &&& nests(*packet, source)
            },
            PacketView::MasterServerGameInfoResponse { packet, .. } => {
                &&& nests(*packet, source)
            },
            PacketView::MasterServerRelayRequestToMaster { .. } => {
                &&& source == PacketSource::GameToMaster
            },
            PacketView::MasterServerRelayRequestToRelay { .. } => {
                &&& source == PacketSource::MasterToRelay
            },
            PacketView::MasterServerRelayResponseFromRelay { .. } => {
                &&& source == PacketSource::MasterToRelay
            },
            PacketView::MasterServerRelayResponseFromMaster { .. } => {
                &&& source == PacketSource::GameToMaster
            },
            PacketView::MasterServerJoinInvite { invite_code, .. } => {
                &&& short_text(invite_code)
            },
            _ => true,
        }
    }
}

/// The packet can stand at the end of another: it comes back as it went out,
/// or it is a raw packet whose bytes read as nothing.
pub open spec fn nests(packet: PacketView, source: PacketSource) -> bool
    decreases packet, 1nat,
{
    packet.round_trips(source) || (
        packet matches PacketView::Raw(bytes) && !(parse(bytes, 0, source) matches Ok(Some(_)))
    )
}

/// The bits of a buffer begin with the bits of its first byte.
proof fn lemma_first_byte(bytes: Seq<u8>)
    requires
        bytes.len() > 0,
    ensures
        bytes_bits(bytes) == int_bits(bytes[0] as nat, 8) + bytes_bits(bytes.skip(1)),
{
    lemma_int_bits_len(bytes[0] as nat, 8);
    let joined = int_bits(bytes[0] as nat, 8) + bytes_bits(bytes.skip(1));
    assert forall|i: int| 0 <= i < 8 * bytes.len() implies bytes_bits(bytes)[i] == joined[i] by {
        if i < 8 {
            crate::bits::lemma_int_bits_index(bytes[0] as u32, 8, i as nat);
        } else {
            assert((i - 8) / 8 == i / 8 - 1 && (i - 8) % 8 == i % 8);
        }
    }
    assert(bytes_bits(bytes) =~= joined);
}

/// The bits of a buffer from byte `count` on are its bits from bit
/// `8 * count` on.
proof fn lemma_bytes_bits_skip(bytes: Seq<u8>, count: int)
    requires
        0 <= count <= bytes.len(),
    ensures
        bytes_bits(bytes.skip(count)) == bytes_bits(bytes).skip(8 * count),
{
    assert forall|i: int| 0 <= i < 8 * (bytes.len() - count) implies bytes_bits(
        bytes.skip(count),
    )[i] == bytes_bits(bytes).skip(8 * count)[i] by {
        assert((i + 8 * count) / 8 == i / 8 + count && (i + 8 * count) % 8 == i % 8);
    }
    assert(bytes_bits(bytes.skip(count)) =~= bytes_bits(bytes).skip(8 * count));
}

/// A datagram that holds a tag and what follows it reads as what the tag's
/// fields read as.
proof fn lemma_parse_tag(bytes: Seq<u8>, tag: u8, body: Seq<bool>, source: PacketSource)
    requires
        bytes_bits(bytes) == int_bits(tag as nat, 8) + body,
        tag % 2 == 0,
        tag != tags::GGC_PACKET,
        !wraps(tag),
    ensures
        parse(bytes, 0, source) == parse_fields(tag, body, source),
{
    lemma2_to64();
    lemma_take_int(tag as nat, 8, body);
    assert(bytes_bits(bytes).skip(0) =~= bytes_bits(bytes));
}

/// A raw packet is read back as it was written.
proof fn lemma_decode_raw(raw: Seq<u8>, source: PacketSource, bytes: Seq<u8>)
    requires
        raw.len() > 0,
        raw[0] % 2 == 1 || raw[0] == tags::GGC_PACKET,
        bytes_bits(bytes) == pad_to_byte(bytes_bits(raw)),
    ensures
        decode(bytes, source) == Some(PacketView::Raw(raw)),
{
    lemma2_to64();
    assert(pad_to_byte(bytes_bits(raw)) =~= bytes_bits(raw));
    lemma_bytes_bits_injective(bytes, raw);
    lemma_first_byte(raw);
    lemma_take_int(raw[0] as nat, 8, bytes_bits(raw.skip(1)));
    assert(bytes_bits(bytes).skip(0) =~= bytes_bits(bytes));
}

/// The tag and the fields, filled up to whole bytes, are the tag and then the
/// fields with the filling behind them.
proof fn lemma_padded(tag: u8, fields: Seq<bool>)
    ensures
        pad_to_byte(int_bits(tag as nat, 8) + fields) == int_bits(tag as nat, 8) + (fields
            + zero_bits(((8 - (8 + fields.len()) % 8) % 8) as nat)),
{
    lemma_int_bits_len(tag as nat, 8);
    assert(pad_to_byte(int_bits(tag as nat, 8) + fields) =~= int_bits(tag as nat, 8) + (fields
        + zero_bits(((8 - (8 + fields.len()) % 8) % 8) as nat)));
}

/// A `MasterServerGameTypesRequest` is read back as it was written.
proof fn lemma_decode_master_server_game_types_request(
    flags: u8,
    key: u16,
    session: u16,
    source: PacketSource,
    bytes: Seq<u8>,
)
    requires
        bytes_bits(bytes) == pad_to_byte(
            encode_bits(PacketView::MasterServerGameTypesRequest { flags, key, session })
        ),
    ensures
        decode(bytes, source) == Some(
            PacketView::MasterServerGameTypesRequest { flags, key, session }
        ),
{
    let fields = master_server_game_types_request_bits(flags, key, session);
    let filling = zero_bits(((8 - (8 + fields.len()) % 8) % 8) as nat);
    reveal(parse_fields);
    lemma_padded(2, fields);
    lemma_parse_tag(bytes, 2, fields + filling, source);
    lemma_take_master_server_game_types_request(flags, key, session, filling);
}

/// A `MasterServerGameTypesResponse` is read back as it was written.
proof fn lemma_decode_master_server_game_types_response(
    flags: u8,
    key: u16,
    session: u16,
    game_types: Seq<Seq<char>>,
    mission_types: Seq<Seq<char>>,
    source: PacketSource,
    bytes: Seq<u8>,
)
    requires
        game_types.len() < 256,
        forall|i: int| 0 <= i < game_types.len() ==> short_text(#[trigger] game_types[i]),
        mission_types.len() < 256,
        forall|i: int| 0 <= i < mission_types.len() ==> short_text(#[trigger] mission_types[i]),
        bytes_bits(bytes) == pad_to_byte(
            encode_bits(
                PacketView::MasterServerGameTypesResponse {
                    flags,
                    key,
                    session,
                    game_types,
                    mission_types,
                }
            )
        ),
    ensures
        decode(bytes, source) == Some(
            PacketView::MasterServerGameTypesResponse {
                flags,
                key,
                session,
                game_types,
                mission_types,
            }
        ),
{
    let fields = master_server_game_types_response_bits(
        flags,
        key,
        session,
        game_types,
        mission_types,
    );
    let filling = zero_bits(((8 - (8 + fields.len()) % 8) % 8) as nat);
    reveal(parse_fields);
    lemma_padded(4, fields);
    lemma_parse_tag(bytes, 4, fields + filling, source);
    lemma_take_master_server_game_types_response(
        flags,
        key,
        session,
        game_types,
        mission_types,
        filling,
    );
}

/// A `MasterServerListRequest` is read back as it was written.
proof fn lemma_decode_master_server_list_request(
    flags: u8,
    key: u16,
    session: u16,
    packet_index: u8,
    game_type: Seq<char>,
    mission_type: Seq<char>,
    min_players: u8,
    max_players: u8,
    region_mask: u32,
    version: u32,
    filter_flag: u8,
    max_bots: u8,
    min_cpu: u16,
    buddy_list: Seq<u32>,
    source: PacketSource,
    bytes: Seq<u8>,
)
    requires
        short_text(game_type),
        short_text(mission_type),
        filter_flag & 128 == 128 || version == 0,
        buddy_list.len() < 256,
        bytes_bits(bytes) == pad_to_byte(
            encode_bits(
                PacketView::MasterServerListRequest {
                    flags,
                    key,
                    session,
                    packet_index,
                    game_type,
                    mission_type,
                    min_players,
                    max_players,
                    region_mask,
                    version,
                    filter_flag,
                    max_bots,
                    min_cpu,
                    buddy_list,
                }
            )
        ),
    ensures
        decode(bytes, source) == Some(
            PacketView::MasterServerListRequest {
                flags,
                key,
                session,
                packet_index,
                game_type,
                mission_type,
                min_players,
                max_players,
                region_mask,
                version,
                filter_flag,
                max_bots,
                min_cpu,
                buddy_list,
            }
        ),
{
    let fields = master_server_list_request_bits(
        flags,
        key,
        session,
        packet_index,
        game_type,
        mission_type,
        min_players,
        max_players,
        region_mask,
        version,
        filter_flag,
        max_bots,
        min_cpu,
        buddy_list,
    );
    let filling = zero_bits(((8 - (8 + fields.len()) % 8) % 8) as nat);
    reveal(parse_fields);
    lemma_padded(6, fields);
    lemma_parse_tag(bytes, 6, fields + filling, source);
    lemma_take_master_server_list_request(
        flags,
        key,
        session,
        packet_index,
        game_type,
        mission_type,
        min_players,
        max_players,
        region_mask,
        version,
        filter_flag,
        max_bots,
        min_cpu,
        buddy_list,
        filling,
    );
}

/// A `MasterServerListResponse` is read back as it was written.
proof fn lemma_decode_master_server_list_response(
    flags: u8,
    key: u16,
    session: u16,
    packet_index: u8,
    packet_total: u8,
    servers: Seq<Endpoint>,
    source: PacketSource,
    bytes: Seq<u8>,
)
    requires
        servers.len() < 0x10000,
        bytes_bits(bytes) == pad_to_byte(
            encode_bits(
                PacketView::MasterServerListResponse {
                    flags,
                    key,
                    session,
                    packet_index,
                    packet_total,
                    servers,
                }
            )
        ),
    ensures
        decode(bytes, source) == Some(
            PacketView::MasterServerListResponse {
                flags,
                key,
                session,
                packet_index,
                packet_total,
                servers,
            }
        ),
{
    let fields = master_server_list_response_bits(
        flags,
        key,
        session,
        packet_index,
        packet_total,
        servers,
    );
    let filling = zero_bits(((8 - (8 + fields.len()) % 8) % 8) as nat);
    reveal(parse_fields);
    lemma_padded(8, fields);
    lemma_parse_tag(bytes, 8, fields + filling, source);
    lemma_take_master_server_list_response(
        flags,
        key,
        session,
        packet_index,
        packet_total,
        servers,
        filling,
    );
}

/// A `GameMasterInfoRequest` is read back as it was written.
proof fn lemma_decode_game_master_info_request(
    flags: u8,
    key: u16,
    session: u16,
    source: PacketSource,
    bytes: Seq<u8>,
)
    requires
        bytes_bits(bytes) == pad_to_byte(
            encode_bits(PacketView::GameMasterInfoRequest { flags, key, session })
        ),
    ensures
        decode(bytes, source) == Some(PacketView::GameMasterInfoRequest { flags, key, session }),
{
    let fields = game_master_info_request_bits(flags, key, session);
    let filling = zero_bits(((8 - (8 + fields.len()) % 8) % 8) as nat);
    reveal(parse_fields);
    lemma_padded(10, fields);
    lemma_parse_tag(bytes, 10, fields + filling, source);
    lemma_take_game_master_info_request(flags, key, session, filling);
}

/// A `GameMasterInfoResponse` is read back as it was written.
proof fn lemma_decode_game_master_info_response(
    flags: u8,
    key: u16,
    session: u16,
    game_type: Seq<char>,
    mission_type: Seq<char>,
    max_players: u8,
    region_mask: u32,
    version: u32,
    filter_flag: u8,
    bot_count: u8,
    cpu_speed: u32,
    player_count: u8,
    guid_list: Seq<u32>,
    source: PacketSource,
    bytes: Seq<u8>,
)
    requires
        short_text(game_type),
        short_text(mission_type),
        guid_list.len() == player_count,
        bytes_bits(bytes) == pad_to_byte(
            encode_bits(
                PacketView::GameMasterInfoResponse {
                    flags,
                    key,
                    session,
                    game_type,
                    mission_type,
                    max_players,
                    region_mask,
                    version,
                    filter_flag,
                    bot_count,
                    cpu_speed,
                    player_count,
                    guid_list,
                }
            )
        ),
    ensures
        decode(bytes, source) == Some(
            PacketView::GameMasterInfoResponse {
                flags,
                key,
                session,
                game_type,
                mission_type,
                max_players,
                region_mask,
                version,
                filter_flag,
                bot_count,
                cpu_speed,
                player_count,
                guid_list,
            }
        ),
{
    let fields = game_master_info_response_bits(
        flags,
        key,
        session,
        game_type,
        mission_type,
        max_players,
        region_mask,
        version,
        filter_flag,
        bot_count,
        cpu_speed,
        player_count,
        guid_list,
    );
    let filling = zero_bits(((8 - (8 + fields.len()) % 8) % 8) as nat);
    reveal(parse_fields);
    lemma_padded(12, fields);
    lemma_parse_tag(bytes, 12, fields + filling, source);
    lemma_take_game_master_info_response(
        flags,
        key,
        session,
        game_type,
        mission_type,
        max_players,
        region_mask,
        version,
        filter_flag,
        bot_count,
        cpu_speed,
        player_count,
        guid_list,
        filling,
    );
}

/// A `GamePingRequest` is read back as it was written.
proof fn lemma_decode_game_ping_request(
    flags: u8,
    key: u16,
    session: u16,
    source: PacketSource,
    bytes: Seq<u8>,
)
    requires
        bytes_bits(bytes) == pad_to_byte(
            encode_bits(PacketView::GamePingRequest { flags, key, session })
        ),
    ensures
        decode(bytes, source) == Some(PacketView::GamePingRequest { flags, key, session }),
{
    let fields = game_ping_request_bits(flags, key, session);
    let filling = zero_bits(((8 - (8 + fields.len()) % 8) % 8) as nat);
    reveal(parse_fields);
    lemma_padded(14, fields);
    lemma_parse_tag(bytes, 14, fields + filling, source);
    lemma_take_game_ping_request(flags, key, session, filling);
}

/// A `GamePingResponse` is read back as it was written.
proof fn lemma_decode_game_ping_response(
    flags: u8,
    key: u16,
    session: u16,
    version_string: Seq<char>,
    current_protocol_version: u32,
    min_required_protocol_version: u32,
    version: u32,
    name: Seq<char>,
    source: PacketSource,
    bytes: Seq<u8>,
)
    requires
        short_text(version_string),
        short_text(name),
        bytes_bits(bytes) == pad_to_byte(
            encode_bits(
                PacketView::GamePingResponse {
                    flags,
                    key,
                    session,
                    version_string,
                    current_protocol_version,
                    min_required_protocol_version,
                    version,
                    name,
                }
            )
        ),
    ensures
        decode(bytes, source) == Some(
            PacketView::GamePingResponse {
                flags,
                key,
                session,
                version_string,
                current_protocol_version,
                min_required_protocol_version,
                version,
                name,
            }
        ),
{
    let fields = game_ping_response_bits(
        flags,
        key,
        session,
        version_string,
        current_protocol_version,
        min_required_protocol_version,
        version,
        name,
    );
    let filling = zero_bits(((8 - (8 + fields.len()) % 8) % 8) as nat);
    reveal(parse_fields);
    lemma_padded(16, fields);
    lemma_parse_tag(bytes, 16, fields + filling, source);
    lemma_take_game_ping_response(
        flags,
        key,
        session,
        version_string,
        current_protocol_version,
        min_required_protocol_version,
        version,
        name,
        filling,
    );
}

/// A `GameInfoRequest` is read back as it was written.
proof fn lemma_decode_game_info_request(
    flags: u8,
    key: u16,
    session: u16,
    source: PacketSource,
    bytes: Seq<u8>,
)
    requires
        bytes_bits(bytes) == pad_to_byte(
            encode_bits(PacketView::GameInfoRequest { flags, key, session })
        ),
    ensures
        decode(bytes, source) == Some(PacketView::GameInfoRequest { flags, key, session }),
{
    let fields = game_info_request_bits(flags, key, session);
    let filling = zero_bits(((8 - (8 + fields.len()) % 8) % 8) as nat);
    reveal(parse_fields);
    lemma_padded(18, fields);
    lemma_parse_tag(bytes, 18, fields + filling, source);
    lemma_take_game_info_request(flags, key, session, filling);
}

/// A `GameInfoResponse` is read back as it was written.
proof fn lemma_decode_game_info_response(
    flags: u8,
    key: u16,
    session: u16,
    game_type: Seq<char>,
    mission_type: Seq<char>,
    mission_name: Seq<char>,
    filter_flag: u8,
    player_count: u8,
    max_players: u8,
    bot_count: u8,
    cpu_speed: u16,
    server_info: Seq<char>,
    server_info_query: Seq<char>,
    source: PacketSource,
    bytes: Seq<u8>,
)
    requires
        short_text(game_type),
        short_text(mission_type),
        short_text(mission_name),
        short_text(server_info),
        server_info_query.len() < 0x1_0000,
        single_byte(server_info_query),
        bytes_bits(bytes) == pad_to_byte(
            encode_bits(
                PacketView::GameInfoResponse {
                    flags,
                    key,
                    session,
                    game_type,
                    mission_type,
                    mission_name,
                    filter_flag,
                    player_count,
                    max_players,
                    bot_count,
                    cpu_speed,
                    server_info,
                    server_info_query,
                }
            )
        ),
    ensures
        decode(bytes, source) == Some(
            PacketView::GameInfoResponse {
                flags,
                key,
                session,
                game_type,
                mission_type,
                mission_name,
                filter_flag,
                player_count,
                max_players,
                bot_count,
                cpu_speed,
                server_info,
                server_info_query,
            }
        ),
{
    let fields = game_info_response_bits(
        flags,
        key,
        session,
        game_type,
        mission_type,
        mission_name,
        filter_flag,
        player_count,
        max_players,
        bot_count,
        cpu_speed,
        server_info,
        server_info_query,
    );
    let filling = zero_bits(((8 - (8 + fields.len()) % 8) % 8) as nat);
    reveal(parse_fields);
    lemma_padded(20, fields);
    lemma_parse_tag(bytes, 20, fields + filling, source);
    lemma_take_game_info_response(
        flags,
        key,
        session,
        game_type,
        mission_type,
        mission_name,
        filter_flag,
        player_count,
        max_players,
        bot_count,
        cpu_speed,
        server_info,
        server_info_query,
        filling,
    );
}

/// A `GameHeartbeat` is read back as it was written.
proof fn lemma_decode_game_heartbeat(
    flags: u8,
    key: u16,
    session: u16,
    source: PacketSource,
    bytes: Seq<u8>,
)
    requires
        bytes_bits(bytes) == pad_to_byte(
            encode_bits(PacketView::GameHeartbeat { flags, key, session })
        ),
    ensures
        decode(bytes, source) == Some(PacketView::GameHeartbeat { flags, key, session }),
{
    let fields = game_heartbeat_bits(flags, key, session);
    let filling = zero_bits(((8 - (8 + fields.len()) % 8) % 8) as nat);
    reveal(parse_fields);
    lemma_padded(22, fields);
    lemma_parse_tag(bytes, 22, fields + filling, source);
    lemma_take_game_heartbeat(flags, key, session, filling);
}

/// A `ConnectChallengeRequest` is read back as it was written.
proof fn lemma_decode_connect_challenge_request(sequence: u32, source: PacketSource, bytes: Seq<u8>)
    requires
        bytes_bits(bytes) == pad_to_byte(
            encode_bits(PacketView::ConnectChallengeRequest { sequence })
        ),
    ensures
        decode(bytes, source) == Some(PacketView::ConnectChallengeRequest { sequence }),
{
    let fields = connect_challenge_request_bits(sequence);
    let filling = zero_bits(((8 - (8 + fields.len()) % 8) % 8) as nat);
    reveal(parse_fields);
    lemma_padded(26, fields);
    lemma_parse_tag(bytes, 26, fields + filling, source);
    lemma_take_connect_challenge_request(sequence, filling);
}

/// A `ConnectChallengeReject` is read back as it was written.
proof fn lemma_decode_connect_challenge_reject(
    sequence: u32,
    reason: Seq<char>,
    source: PacketSource,
    bytes: Seq<u8>,
)
    requires
        short_text(reason),
        bytes_bits(bytes) == pad_to_byte(
            encode_bits(PacketView::ConnectChallengeReject { sequence, reason })
        ),
    ensures
        decode(bytes, source) == Some(PacketView::ConnectChallengeReject { sequence, reason }),
{
    let fields = connect_challenge_reject_bits(sequence, reason);
    let filling = zero_bits(((8 - (8 + fields.len()) % 8) % 8) as nat);
    reveal(parse_fields);
    lemma_padded(28, fields);
    lemma_parse_tag(bytes, 28, fields + filling, source);
    lemma_take_connect_challenge_reject(sequence, reason, filling);
}

/// A `ConnectChallengeResponse` is read back as it was written.
proof fn lemma_decode_connect_challenge_response(
    sequence: u32,
    address_digest: Seq<u32>,
    source: PacketSource,
    bytes: Seq<u8>,
)
    requires
        address_digest.len() == 4,
        bytes_bits(bytes) == pad_to_byte(
            encode_bits(PacketView::ConnectChallengeResponse { sequence, address_digest })
        ),
    ensures
        decode(bytes, source) == Some(
            PacketView::ConnectChallengeResponse { sequence, address_digest }
        ),
{
    let fields = connect_challenge_response_bits(sequence, address_digest);
    let filling = zero_bits(((8 - (8 + fields.len()) % 8) % 8) as nat);
    reveal(parse_fields);
    lemma_padded(30, fields);
    lemma_parse_tag(bytes, 30, fields + filling, source);
    lemma_take_connect_challenge_response(sequence, address_digest, filling);
}

/// A `ConnectRequest` is read back as it was written.
proof fn lemma_decode_connect_request(
    sequence: u32,
    address_digest: Seq<u32>,
    class_name: Seq<char>,
    net_class_group: u32,
    class_crc: u32,
    game_string: Seq<char>,
    current_protocol_version: u32,
    min_required_protocol_version: u32,
    join_password: Seq<char>,
    connect_argv: Seq<Seq<char>>,
    source: PacketSource,
    bytes: Seq<u8>,
)
    requires
        address_digest.len() == 4,
        short_text(class_name),
        short_text(game_string),
        short_text(join_password),
        connect_argv.len() < 0x100000000,
        forall|i: int| 0 <= i < connect_argv.len() ==> short_text(#[trigger] connect_argv[i]),
        bytes_bits(bytes) == pad_to_byte(
            encode_bits(
                PacketView::ConnectRequest {
                    sequence,
                    address_digest,
                    class_name,
                    net_class_group,
                    class_crc,
                    game_string,
                    current_protocol_version,
                    min_required_protocol_version,
                    join_password,
                    connect_argv,
                }
            )
        ),
    ensures
        decode(bytes, source) == Some(
            PacketView::ConnectRequest {
                sequence,
                address_digest,
                class_name,
                net_class_group,
                class_crc,
                game_string,
                current_protocol_version,
                min_required_protocol_version,
                join_password,
                connect_argv,
            }
        ),
{
    let fields = connect_request_bits(
        sequence,
        address_digest,
        class_name,
        net_class_group,
        class_crc,
        game_string,
        current_protocol_version,
        min_required_protocol_version,
        join_password,
        connect_argv,
    );
    let filling = zero_bits(((8 - (8 + fields.len()) % 8) % 8) as nat);
    reveal(parse_fields);
    lemma_padded(32, fields);
    lemma_parse_tag(bytes, 32, fields + filling, source);
    lemma_take_connect_request(
        sequence,
        address_digest,
        class_name,
        net_class_group,
        class_crc,
        game_string,
        current_protocol_version,
        min_required_protocol_version,
        join_password,
        connect_argv,
        filling,
    );
}

/// A `ConnectReject` is read back as it was written.
proof fn lemma_decode_connect_reject(
    sequence: u32,
    reason: Seq<char>,
    source: PacketSource,
    bytes: Seq<u8>,
)
    requires
        short_text(reason),
        bytes_bits(bytes) == pad_to_byte(
            encode_bits(PacketView::ConnectReject { sequence, reason })
        ),
    ensures
        decode(bytes, source) == Some(PacketView::ConnectReject { sequence, reason }),
{
    let fields = connect_reject_bits(sequence, reason);
    let filling = zero_bits(((8 - (8 + fields.len()) % 8) % 8) as nat);
    reveal(parse_fields);
    lemma_padded(34, fields);
    lemma_parse_tag(bytes, 34, fields + filling, source);
    lemma_take_connect_reject(sequence, reason, filling);
}

/// A `ConnectAccept` is read back as it was written.
proof fn lemma_decode_connect_accept(
    sequence: u32,
    protocol_version: u32,
    source: PacketSource,
    bytes: Seq<u8>,
)
    requires
        bytes_bits(bytes) == pad_to_byte(
            encode_bits(PacketView::ConnectAccept { sequence, protocol_version })
        ),
    ensures
        decode(bytes, source) == Some(PacketView::ConnectAccept { sequence, protocol_version }),
{
    let fields = connect_accept_bits(sequence, protocol_version);
    let filling = zero_bits(((8 - (8 + fields.len()) % 8) % 8) as nat);
    reveal(parse_fields);
    lemma_padded(36, fields);
    lemma_parse_tag(bytes, 36, fields + filling, source);
    lemma_take_connect_accept(sequence, protocol_version, filling);
}

/// A `Disconnect` is read back as it was written.
proof fn lemma_decode_disconnect(
    sequence: u32,
    reason: Seq<char>,
    source: PacketSource,
    bytes: Seq<u8>,
)
    requires
        short_text(reason),
        bytes_bits(bytes) == pad_to_byte(encode_bits(PacketView::Disconnect { sequence, reason })),
    ensures
        decode(bytes, source) == Some(PacketView::Disconnect { sequence, reason }),
{
    let fields = disconnect_bits(sequence, reason);
    let filling = zero_bits(((8 - (8 + fields.len()) % 8) % 8) as nat);
    reveal(parse_fields);
    lemma_padded(38, fields);
    lemma_parse_tag(bytes, 38, fields + filling, source);
    lemma_take_disconnect(sequence, reason, filling);
}

/// A `Punch` is read back as it was written.
proof fn lemma_decode_punch(source: PacketSource, bytes: Seq<u8>)
    requires
        bytes_bits(bytes) == pad_to_byte(encode_bits(PacketView::Punch {  })),
    ensures
        decode(bytes, source) == Some(PacketView::Punch {  }),
{
    let fields = Seq::<bool>::empty();
    assert(int_bits(40, 8) + fields =~= int_bits(40, 8));
    lemma_padded(40, fields);
    let filling = zero_bits(((8 - (8 + fields.len()) % 8) % 8) as nat);
    reveal(parse_fields);
    lemma_parse_tag(bytes, 40, fields + filling, source);
}

/// A `ArrangedConnectRequest` is read back as it was written.
proof fn lemma_decode_arranged_connect_request(
    sequence: u32,
    debug_object_sizes: bool,
    source: PacketSource,
    bytes: Seq<u8>,
)
    requires
        bytes_bits(bytes) == pad_to_byte(
            encode_bits(PacketView::ArrangedConnectRequest { sequence, debug_object_sizes })
        ),
    ensures
        decode(bytes, source) == Some(
            PacketView::ArrangedConnectRequest { sequence, debug_object_sizes }
        ),
{
    let fields = arranged_connect_request_bits(sequence, debug_object_sizes);
    let filling = zero_bits(((8 - (8 + fields.len()) % 8) % 8) as nat);
    reveal(parse_fields);
    lemma_padded(42, fields);
    lemma_parse_tag(bytes, 42, fields + filling, source);
    lemma_take_arranged_connect_request(sequence, debug_object_sizes, filling);
}

/// A `MasterServerRequestArrangedConnection` is read back as it was written.
proof fn lemma_decode_master_server_request_arranged_connection(
    address: Endpoint,
    source: PacketSource,
    bytes: Seq<u8>,
)
    requires
        bytes_bits(bytes) == pad_to_byte(
            encode_bits(PacketView::MasterServerRequestArrangedConnection { address })
        ),
    ensures
        decode(bytes, source) == Some(
            PacketView::MasterServerRequestArrangedConnection { address }
        ),
{
    let fields = master_server_request_arranged_connection_bits(address);
    let filling = zero_bits(((8 - (8 + fields.len()) % 8) % 8) as nat);
    reveal(parse_fields);
    lemma_padded(46, fields);
    lemma_parse_tag(bytes, 46, fields + filling, source);
    lemma_take_master_server_request_arranged_connection(address, filling);
}

/// A `MasterServerClientRequestedArrangedConnection` is read back as it was written.
proof fn lemma_decode_master_server_client_requested_arranged_connection(
    flags: u8,
    key: u16,
    session: u16,
    client_id: u16,
    possible_addresses: Seq<Endpoint>,
    source: PacketSource,
    bytes: Seq<u8>,
)
    requires
        possible_addresses.len() < 256,
        bytes_bits(bytes) == pad_to_byte(
            encode_bits(
                PacketView::MasterServerClientRequestedArrangedConnection {
                    flags,
                    key,
                    session,
                    client_id,
                    possible_addresses,
                }
            )
        ),
    ensures
        decode(bytes, source) == Some(
            PacketView::MasterServerClientRequestedArrangedConnection {
                flags,
                key,
                session,
                client_id,
                possible_addresses,
            }
        ),
{
    let fields = master_server_client_requested_arranged_connection_bits(
        flags,
        key,
        session,
        client_id,
        possible_addresses,
    );
    let filling = zero_bits(((8 - (8 + fields.len()) % 8) % 8) as nat);
    reveal(parse_fields);
    lemma_padded(48, fields);
    lemma_parse_tag(bytes, 48, fields + filling, source);
    lemma_take_master_server_client_requested_arranged_connection(
        flags,
        key,
        session,
        client_id,
        possible_addresses,
        filling,
    );
}

/// A `MasterServerAcceptArrangedConnection` is read back as it was written.
proof fn lemma_decode_master_server_accept_arranged_connection(
    client_id: u16,
    source: PacketSource,
    bytes: Seq<u8>,
)
    requires
        bytes_bits(bytes) == pad_to_byte(
            encode_bits(PacketView::MasterServerAcceptArrangedConnection { client_id })
        ),
    ensures
        decode(bytes, source) == Some(
            PacketView::MasterServerAcceptArrangedConnection { client_id }
        ),
{
    let fields = master_server_accept_arranged_connection_bits(client_id);
    let filling = zero_bits(((8 - (8 + fields.len()) % 8) % 8) as nat);
    reveal(parse_fields);
    lemma_padded(50, fields);
    lemma_parse_tag(bytes, 50, fields + filling, source);
    lemma_take_master_server_accept_arranged_connection(client_id, filling);
}

/// A `MasterServerArrangedConnectionAccepted` is read back as it was written.
proof fn lemma_decode_master_server_arranged_connection_accepted(
    flags: u8,
    key: u16,
    session: u16,
    possible_addresses: Seq<Endpoint>,
    source: PacketSource,
    bytes: Seq<u8>,
)
    requires
        possible_addresses.len() < 256,
        bytes_bits(bytes) == pad_to_byte(
            encode_bits(
                PacketView::MasterServerArrangedConnectionAccepted {
                    flags,
                    key,
                    session,
                    possible_addresses,
                }
            )
        ),
    ensures
        decode(bytes, source) == Some(
            PacketView::MasterServerArrangedConnectionAccepted {
                flags,
                key,
                session,
                possible_addresses,
            }
        ),
{
    let fields = master_server_arranged_connection_accepted_bits(
        flags,
        key,
        session,
        possible_addresses,
    );
    let filling = zero_bits(((8 - (8 + fields.len()) % 8) % 8) as nat);
    reveal(parse_fields);
    lemma_padded(52, fields);
    lemma_parse_tag(bytes, 52, fields + filling, source);
    lemma_take_master_server_arranged_connection_accepted(
        flags,
        key,
        session,
        possible_addresses,
        filling,
    );
}

/// A `MasterServerRejectArrangedConnection` is read back as it was written.
proof fn lemma_decode_master_server_reject_arranged_connection(
    reason: u8,
    source: PacketSource,
    bytes: Seq<u8>,
)
    requires
        bytes_bits(bytes) == pad_to_byte(
            encode_bits(PacketView::MasterServerRejectArrangedConnection { reason })
        ),
    ensures
        decode(bytes, source) == Some(PacketView::MasterServerRejectArrangedConnection { reason }),
{
    let fields = master_server_reject_arranged_connection_bits(reason);
    let filling = zero_bits(((8 - (8 + fields.len()) % 8) % 8) as nat);
    reveal(parse_fields);
    lemma_padded(54, fields);
    lemma_parse_tag(bytes, 54, fields + filling, source);
    lemma_take_master_server_reject_arranged_connection(reason, filling);
}

/// A `MasterServerArrangedConnectionRejected` is read back as it was written.
proof fn lemma_decode_master_server_arranged_connection_rejected(
    flags: u8,
    key: u16,
    session: u16,
    reason: u8,
    source: PacketSource,
    bytes: Seq<u8>,
)
    requires
        bytes_bits(bytes) == pad_to_byte(
            encode_bits(
                PacketView::MasterServerArrangedConnectionRejected { flags, key, session, reason }
            )
        ),
    ensures
        decode(bytes, source) == Some(
            PacketView::MasterServerArrangedConnectionRejected { flags, key, session, reason }
        ),
{
    let fields = master_server_arranged_connection_rejected_bits(flags, key, session, reason);
    let filling = zero_bits(((8 - (8 + fields.len()) % 8) % 8) as nat);
    reveal(parse_fields);
    lemma_padded(56, fields);
    lemma_parse_tag(bytes, 56, fields + filling, source);
    lemma_take_master_server_arranged_connection_rejected(flags, key, session, reason, filling);
}

/// A `MasterServerGamePingRequest` is read back as it was written.
proof fn lemma_decode_master_server_game_ping_request(
    address: Endpoint,
    flags: u8,
    key: u16,
    session: u16,
    source: PacketSource,
    bytes: Seq<u8>,
)
    requires
        bytes_bits(bytes) == pad_to_byte(
            encode_bits(PacketView::MasterServerGamePingRequest { address, flags, key, session })
        ),
    ensures
        decode(bytes, source) == Some(
            PacketView::MasterServerGamePingRequest { address, flags, key, session }
        ),
{
    let fields = master_server_game_ping_request_bits(address, flags, key, session);
    let filling = zero_bits(((8 - (8 + fields.len()) % 8) % 8) as nat);
    reveal(parse_fields);
    lemma_padded(58, fields);
    lemma_parse_tag(bytes, 58, fields + filling, source);
    lemma_take_master_server_game_ping_request(address, flags, key, session, filling);
}

/// A `MasterServerGameInfoRequest` is read back as it was written.
proof fn lemma_decode_master_server_game_info_request(
    address: Endpoint,
    flags: u8,
    key: u16,
    session: u16,
    source: PacketSource,
    bytes: Seq<u8>,
)
    requires
        bytes_bits(bytes) == pad_to_byte(
            encode_bits(PacketView::MasterServerGameInfoRequest { address, flags, key, session })
        ),
    ensures
        decode(bytes, source) == Some(
            PacketView::MasterServerGameInfoRequest { address, flags, key, session }
        ),
{
    let fields = master_server_game_info_request_bits(address, flags, key, session);
    let filling = zero_bits(((8 - (8 + fields.len()) % 8) % 8) as nat);
    reveal(parse_fields);
    lemma_padded(62, fields);
    lemma_parse_tag(bytes, 62, fields + filling, source);
    lemma_take_master_server_game_info_request(address, flags, key, session, filling);
}

/// A `MasterServerRelayRequestToMaster` is read back as it was written.
proof fn lemma_decode_master_server_relay_request_to_master(
    address: Endpoint,
    source: PacketSource,
    bytes: Seq<u8>,
)
    requires
        source == PacketSource::GameToMaster,
        bytes_bits(bytes) == pad_to_byte(
            encode_bits(PacketView::MasterServerRelayRequestToMaster { address })
        ),
    ensures
        decode(bytes, source) == Some(PacketView::MasterServerRelayRequestToMaster { address }),
{
    let fields = master_server_relay_request_to_master_bits(address);
    let filling = zero_bits(((8 - (8 + fields.len()) % 8) % 8) as nat);
    reveal(parse_fields);
    lemma_padded(66, fields);
    lemma_parse_tag(bytes, 66, fields + filling, source);
    lemma_take_master_server_relay_request_to_master(address, filling);
}

/// A `MasterServerRelayRequestToRelay` is read back as it was written.
proof fn lemma_decode_master_server_relay_request_to_relay(
    relay_id: u32,
    server_addr: Endpoint,
    client_addr: Ipv4Address,
    source: PacketSource,
    bytes: Seq<u8>,
)
    requires
        source == PacketSource::MasterToRelay,
        bytes_bits(bytes) == pad_to_byte(
            encode_bits(
                PacketView::MasterServerRelayRequestToRelay { relay_id, server_addr, client_addr }
            )
        ),
    ensures
        decode(bytes, source) == Some(
            PacketView::MasterServerRelayRequestToRelay { relay_id, server_addr, client_addr }
        ),
{
    let fields = master_server_relay_request_to_relay_bits(relay_id, server_addr, client_addr);
    let filling = zero_bits(((8 - (8 + fields.len()) % 8) % 8) as nat);
    reveal(parse_fields);
    lemma_padded(66, fields);
    lemma_parse_tag(bytes, 66, fields + filling, source);
    lemma_take_master_server_relay_request_to_relay(relay_id, server_addr, client_addr, filling);
}

/// A `MasterServerRelayResponseFromRelay` is read back as it was written.
proof fn lemma_decode_master_server_relay_response_from_relay(
    relay_id: u32,
    relay_port: u16,
    source: PacketSource,
    bytes: Seq<u8>,
)
    requires
        source == PacketSource::MasterToRelay,
        bytes_bits(bytes) == pad_to_byte(
            encode_bits(PacketView::MasterServerRelayResponseFromRelay { relay_id, relay_port })
        ),
    ensures
        decode(bytes, source) == Some(
            PacketView::MasterServerRelayResponseFromRelay { relay_id, relay_port }
        ),
{
    let fields = master_server_relay_response_from_relay_bits(relay_id, relay_port);
    let filling = zero_bits(((8 - (8 + fields.len()) % 8) % 8) as nat);
    reveal(parse_fields);
    lemma_padded(68, fields);
    lemma_parse_tag(bytes, 68, fields + filling, source);
    lemma_take_master_server_relay_response_from_relay(relay_id, relay_port, filling);
}

/// A `MasterServerRelayResponseFromMaster` is read back as it was written.
proof fn lemma_decode_master_server_relay_response_from_master(
    flags: u8,
    key: u16,
    session: u16,
    is_host: bool,
    address: Endpoint,
    source: PacketSource,
    bytes: Seq<u8>,
)
    requires
        source == PacketSource::GameToMaster,
        bytes_bits(bytes) == pad_to_byte(
            encode_bits(
                PacketView::MasterServerRelayResponseFromMaster {
                    flags,
                    key,
                    session,
                    is_host,
                    address,
                }
            )
        ),
    ensures
        decode(bytes, source) == Some(
            PacketView::MasterServerRelayResponseFromMaster {
                flags,
                key,
                session,
                is_host,
                address,
            }
        ),
{
    let fields = master_server_relay_response_from_master_bits(
        flags,
        key,
        session,
        is_host,
        address,
    );
    let filling = zero_bits(((8 - (8 + fields.len()) % 8) % 8) as nat);
    reveal(parse_fields);
    lemma_padded(68, fields);
    lemma_parse_tag(bytes, 68, fields + filling, source);
    lemma_take_master_server_relay_response_from_master(
        flags,
        key,
        session,
        is_host,
        address,
        filling,
    );
}

/// A `MasterServerRelayDelete` is read back as it was written.
proof fn lemma_decode_master_server_relay_delete(source: PacketSource, bytes: Seq<u8>)
    requires
        bytes_bits(bytes) == pad_to_byte(encode_bits(PacketView::MasterServerRelayDelete {  })),
    ensures
        decode(bytes, source) == Some(PacketView::MasterServerRelayDelete {  }),
{
    let fields = Seq::<bool>::empty();
    assert(int_bits(70, 8) + fields =~= int_bits(70, 8));
    lemma_padded(70, fields);
    let filling = zero_bits(((8 - (8 + fields.len()) % 8) % 8) as nat);
    reveal(parse_fields);
    lemma_parse_tag(bytes, 70, fields + filling, source);
}

/// A `MasterServerRelayReady` is read back as it was written.
proof fn lemma_decode_master_server_relay_ready(
    flags: u8,
    key: u16,
    session: u16,
    source: PacketSource,
    bytes: Seq<u8>,
)
    requires
        bytes_bits(bytes) == pad_to_byte(
            encode_bits(PacketView::MasterServerRelayReady { flags, key, session })
        ),
    ensures
        decode(bytes, source) == Some(PacketView::MasterServerRelayReady { flags, key, session }),
{
    let fields = master_server_relay_ready_bits(flags, key, session);
    let filling = zero_bits(((8 - (8 + fields.len()) % 8) % 8) as nat);
    reveal(parse_fields);
    lemma_padded(72, fields);
    lemma_parse_tag(bytes, 72, fields + filling, source);
    lemma_take_master_server_relay_ready(flags, key, session, filling);
}

/// A `MasterServerJoinInvite` is read back as it was written.
proof fn lemma_decode_master_server_join_invite(
    invite_code: Seq<char>,
    source: PacketSource,
    bytes: Seq<u8>,
)
    requires
        short_text(invite_code),
        bytes_bits(bytes) == pad_to_byte(
            encode_bits(PacketView::MasterServerJoinInvite { invite_code })
        ),
    ensures
        decode(bytes, source) == Some(PacketView::MasterServerJoinInvite { invite_code }),
{
    let fields = master_server_join_invite_bits(invite_code);
    let filling = zero_bits(((8 - (8 + fields.len()) % 8) % 8) as nat);
    reveal(parse_fields);
    lemma_padded(74, fields);
    lemma_parse_tag(bytes, 74, fields + filling, source);
    lemma_take_master_server_join_invite(invite_code, filling);
}

/// A `MasterServerJoinInviteResponse` is read back as it was written.
proof fn lemma_decode_master_server_join_invite_response(
    flags: u8,
    key: u16,
    session: u16,
    address: Option<Endpoint>,
    source: PacketSource,
    bytes: Seq<u8>,
)
    requires
        bytes_bits(bytes) == pad_to_byte(
            encode_bits(PacketView::MasterServerJoinInviteResponse { flags, key, session, address })
        ),
    ensures
        decode(bytes, source) == Some(
            PacketView::MasterServerJoinInviteResponse { flags, key, session, address }
        ),
{
    let fields = master_server_join_invite_response_bits(flags, key, session, address);
    let filling = zero_bits(((8 - (8 + fields.len()) % 8) % 8) as nat);
    reveal(parse_fields);
    lemma_padded(76, fields);
    lemma_parse_tag(bytes, 76, fields + filling, source);
    lemma_take_master_server_join_invite_response(flags, key, session, address, filling);
}

/// A `MasterServerRelayHeartbeat` is read back as it was written.
proof fn lemma_decode_master_server_relay_heartbeat(source: PacketSource, bytes: Seq<u8>)
    requires
        bytes_bits(bytes) == pad_to_byte(encode_bits(PacketView::MasterServerRelayHeartbeat {  })),
    ensures
        decode(bytes, source) == Some(PacketView::MasterServerRelayHeartbeat {  }),
{
    let fields = Seq::<bool>::empty();
    assert(int_bits(78, 8) + fields =~= int_bits(78, 8));
    lemma_padded(78, fields);
    let filling = zero_bits(((8 - (8 + fields.len()) % 8) % 8) as nat);
    reveal(parse_fields);
    lemma_parse_tag(bytes, 78, fields + filling, source);
}

/// The lengths of a packet with another at its end: its header takes twelve
/// bytes, and the whole takes whole bytes.
proof fn lemma_nested_layout(
    tag: u8,
    flags: u8,
    key: u16,
    session: u16,
    address: Endpoint,
    body: Seq<bool>,
    bytes: Seq<u8>,
)
    requires
        body.len() % 8 == 0,
        bytes_bits(bytes) == pad_to_byte(
            int_bits(tag as nat, 8) + (fks_bits(flags, key, session) + (endpoint_bits(address)
                + body)),
        ),
    ensures
        bytes_bits(bytes) == int_bits(tag as nat, 8) + (fks_bits(flags, key, session) + (
        endpoint_bits(address) + body)),
        8 * bytes.len() == 96 + body.len(),
        bytes.len() >= 12,
        bytes_bits(bytes.skip(12)) == body,
{
    lemma_int_bits_len(tag as nat, 8);
    lemma_int_bits_len(flags as nat, 8);
    lemma_int_bits_len((session * 0x1_0000 + key) as nat, 32);
    lemma_int_bits_len(address.address.0 as nat, 8);
    lemma_int_bits_len(address.address.1 as nat, 8);
    lemma_int_bits_len(address.address.2 as nat, 8);
    lemma_int_bits_len(address.address.3 as nat, 8);
    lemma_int_bits_len(address.port as nat, 16);
    let whole = int_bits(tag as nat, 8) + (fks_bits(flags, key, session) + (endpoint_bits(address)
        + body));
    assert(fks_bits(flags, key, session).len() == 40);
    assert(endpoint_bits(address).len() == 48);
    assert(whole.len() == 96 + body.len());
    assert(pad_to_byte(whole) =~= whole);
    assert(bytes_bits(bytes).len() == 8 * bytes.len());
    lemma_bytes_bits_skip(bytes, 12);
    assert(bytes_bits(bytes).skip(96) =~= body);
}

/// A packet with another at its end is read back as it was written, where
/// the packet inside is.
#[verifier::rlimit(30)]
proof fn lemma_decode_wrapper(
    tag: u8,
    flags: u8,
    key: u16,
    session: u16,
    address: Endpoint,
    inner: PacketView,
    source: PacketSource,
    bytes: Seq<u8>,
)
    requires
        wraps(tag),
        bytes_bits(bytes) == int_bits(tag as nat, 8) + (fks_bits(flags, key, session) + (
        endpoint_bits(address) + pad_to_byte(encode_bits(inner)))),
        8 * bytes.len() == 96 + pad_to_byte(encode_bits(inner)).len(),
        bytes.len() >= 12,
        (match parse(bytes.skip(12), 0, source) {
            Ok(Some(packet)) => packet,
            _ => PacketView::Raw(bytes.skip(12)),
        }) == inner,
    ensures
        decode(bytes, source) == Some(wrap(tag, (flags, key, session), address, inner)),
{
    lemma2_to64();
    let body = pad_to_byte(encode_bits(inner));
    let tail = endpoint_bits(address) + body;
    let fields = fks_bits(flags, key, session) + tail;
    lemma_take_int(tag as nat, 8, fields);
    assert(bytes_bits(bytes).skip(0) =~= bytes_bits(bytes));
    reveal(take_wrapper);
    lemma_take_fks(flags, key, session, tail);
    lemma_take_endpoint(address, body);
    assert(take_wrapper(fields) == Some(((flags, key, session), address, body)));
    assert((8 * bytes.len() - body.len()) / 8 == 12);
}

/// The packet inside another is read back as it was written, or it is a raw
/// packet whose bytes read as nothing and is kept as that.
proof fn lemma_inner(inner: PacketView, source: PacketSource, inside: Seq<u8>)
    requires
        crate::packet_laws::nests(inner, source),
        bytes_bits(inside) == pad_to_byte(encode_bits(inner)),
        inner.round_trips(source) ==> decode(inside, source) == Some(inner),
    ensures
        (match parse(inside, 0, source) {
            Ok(Some(packet)) => packet,
            _ => PacketView::Raw(inside),
        }) == inner,
{
    if !inner.round_trips(source) {
        match inner {
            PacketView::Raw(raw) => {
                assert(pad_to_byte(bytes_bits(raw)) =~= bytes_bits(raw));
                lemma_bytes_bits_injective(inside, raw);
            },
            _ => {},
        }
    }
}

/// The tag that a packet goes out with; a raw packet has none of its own.
pub open spec fn tag_of(packet: PacketView) -> int {
    match packet {
        PacketView::Raw(_) => -1,
        PacketView::GGCPacket {  } => 24,
        PacketView::MasterServerGameTypesRequest { .. } => 2,
        PacketView::MasterServerGameTypesResponse { .. } => 4,
        PacketView::MasterServerListRequest { .. } => 6,
        PacketView::MasterServerListResponse { .. } => 8,
        PacketView::GameMasterInfoRequest { .. } => 10,
        PacketView::GameMasterInfoResponse { .. } => 12,
        PacketView::GamePingRequest { .. } => 14,
        PacketView::GamePingResponse { .. } => 16,
        PacketView::GameInfoRequest { .. } => 18,
        PacketView::GameInfoResponse { .. } => 20,
        PacketView::GameHeartbeat { .. } => 22,
        PacketView::ConnectChallengeRequest { .. } => 26,
        PacketView::ConnectChallengeReject { .. } => 28,
        PacketView::ConnectChallengeResponse { .. } => 30,
        PacketView::ConnectRequest { .. } => 32,
        PacketView::ConnectReject { .. } => 34,
        PacketView::ConnectAccept { .. } => 36,
        PacketView::Disconnect { .. } => 38,
        PacketView::Punch { .. } => 40,
        PacketView::ArrangedConnectRequest { .. } => 42,
        PacketView::MasterServerRequestArrangedConnection { .. } => 46,
        PacketView::MasterServerClientRequestedArrangedConnection { .. } => 48,
        PacketView::MasterServerAcceptArrangedConnection { .. } => 50,
        PacketView::MasterServerArrangedConnectionAccepted { .. } => 52,
        PacketView::MasterServerRejectArrangedConnection { .. } => 54,
        PacketView::MasterServerArrangedConnectionRejected { .. } => 56,
        PacketView::MasterServerGamePingRequest { .. } => 58,
        PacketView::MasterServerGamePingResponse { .. } => 60,
        PacketView::MasterServerGameInfoRequest { .. } => 62,
        PacketView::MasterServerGameInfoResponse { .. } => 64,
        PacketView::MasterServerRelayRequestToMaster { .. } => 66,
        PacketView::MasterServerRelayRequestToRelay { .. } => 66,
        PacketView::MasterServerRelayResponseFromRelay { .. } => 68,
        PacketView::MasterServerRelayResponseFromMaster { .. } => 68,
        PacketView::MasterServerRelayDelete { .. } => 70,
        PacketView::MasterServerRelayReady { .. } => 72,
        PacketView::MasterServerJoinInvite { .. } => 74,
        PacketView::MasterServerJoinInviteResponse { .. } => 76,
        PacketView::MasterServerRelayHeartbeat { .. } => 78,
    }
}

/// A query or its answer, written and read again, is the packet.
proof fn lemma_round_trip_queries(packet: PacketView, source: PacketSource, bytes: Seq<u8>)
    requires
        2 <= tag_of(packet) <= 22,
        !wraps(tag_of(packet) as u8),
        packet.round_trips(source),
        bytes_bits(bytes) == pad_to_byte(encode_bits(packet)),
    ensures
        decode(bytes, source) == Some(packet),
{
    match packet {
        PacketView::MasterServerGameTypesRequest { flags, key, session } => {
            lemma_decode_master_server_game_types_request(flags, key, session, source, bytes);
        },
        PacketView::MasterServerGameTypesResponse {
            flags,
            key,
            session,
            game_types,
            mission_types,
        } => {
            lemma_decode_master_server_game_types_response(
                flags,
                key,
                session,
                game_types,
                mission_types,
                source,
                bytes,
            );
        },
        PacketView::MasterServerListRequest {
            flags,
            key,
            session,
            packet_index,
            game_type,
            mission_type,
            min_players,
            max_players,
            region_mask,
            version,
            filter_flag,
            max_bots,
            min_cpu,
            buddy_list,
        } => {
            lemma_decode_master_server_list_request(
                flags,
                key,
                session,
                packet_index,
                game_type,
                mission_type,
                min_players,
                max_players,
                region_mask,
                version,
                filter_flag,
                max_bots,
                min_cpu,
                buddy_list,
                source,
                bytes,
            );
        },
        PacketView::MasterServerListResponse {
            flags,
            key,
            session,
            packet_index,
            packet_total,
            servers,
        } => {
            lemma_decode_master_server_list_response(
                flags,
                key,
                session,
                packet_index,
                packet_total,
                servers,
                source,
                bytes,
            );
        },
        PacketView::GameMasterInfoRequest { flags, key, session } => {
            lemma_decode_game_master_info_request(flags, key, session, source, bytes);
        },
        PacketView::GameMasterInfoResponse {
            flags,
            key,
            session,
            game_type,
            mission_type,
            max_players,
            region_mask,
            version,
            filter_flag,
            bot_count,
            cpu_speed,
            player_count,
            guid_list,
        } => {
            lemma_decode_game_master_info_response(
                flags,
                key,
                session,
                game_type,
                mission_type,
                max_players,
                region_mask,
                version,
                filter_flag,
                bot_count,
                cpu_speed,
                player_count,
                guid_list,
                source,
                bytes,
            );
        },
        PacketView::GamePingRequest { flags, key, session } => {
            lemma_decode_game_ping_request(flags, key, session, source, bytes);
        },
        PacketView::GamePingResponse {
            flags,
            key,
            session,
            version_string,
            current_protocol_version,
            min_required_protocol_version,
            version,
            name,
        } => {
            lemma_decode_game_ping_response(
                flags,
                key,
                session,
                version_string,
                current_protocol_version,
                min_required_protocol_version,
                version,
                name,
                source,
                bytes,
            );
        },
        PacketView::GameInfoRequest { flags, key, session } => {
            lemma_decode_game_info_request(flags, key, session, source, bytes);
        },
        PacketView::GameInfoResponse {
            flags,
            key,
            session,
            game_type,
            mission_type,
            mission_name,
            filter_flag,
            player_count,
            max_players,
            bot_count,
            cpu_speed,
            server_info,
            server_info_query,
        } => {
            lemma_decode_game_info_response(
                flags,
                key,
                session,
                game_type,
                mission_type,
                mission_name,
                filter_flag,
                player_count,
                max_players,
                bot_count,
                cpu_speed,
                server_info,
                server_info_query,
                source,
                bytes,
            );
        },
        PacketView::GameHeartbeat { flags, key, session } => {
            lemma_decode_game_heartbeat(flags, key, session, source, bytes);
        },
        _ => {},
    }
}

/// A packet that opens or closes a connection, written and read again, is the packet.
proof fn lemma_round_trip_handshake(packet: PacketView, source: PacketSource, bytes: Seq<u8>)
    requires
        26 <= tag_of(packet) <= 42,
        !wraps(tag_of(packet) as u8),
        packet.round_trips(source),
        bytes_bits(bytes) == pad_to_byte(encode_bits(packet)),
    ensures
        decode(bytes, source) == Some(packet),
{
    match packet {
        PacketView::ConnectChallengeRequest { sequence } => {
            lemma_decode_connect_challenge_request(sequence, source, bytes);
        },
        PacketView::ConnectChallengeReject { sequence, reason } => {
            lemma_decode_connect_challenge_reject(sequence, reason, source, bytes);
        },
        PacketView::ConnectChallengeResponse { sequence, address_digest } => {
            lemma_decode_connect_challenge_response(sequence, address_digest, source, bytes);
        },
        PacketView::ConnectRequest {
            sequence,
            address_digest,
            class_name,
            net_class_group,
            class_crc,
            game_string,
            current_protocol_version,
            min_required_protocol_version,
            join_password,
            connect_argv,
        } => {
            lemma_decode_connect_request(
                sequence,
                address_digest,
                class_name,
                net_class_group,
                class_crc,
                game_string,
                current_protocol_version,
                min_required_protocol_version,
                join_password,
                connect_argv,
                source,
                bytes,
            );
        },
        PacketView::ConnectReject { sequence, reason } => {
            lemma_decode_connect_reject(sequence, reason, source, bytes);
        },
        PacketView::ConnectAccept { sequence, protocol_version } => {
            lemma_decode_connect_accept(sequence, protocol_version, source, bytes);
        },
        PacketView::Disconnect { sequence, reason } => {
            lemma_decode_disconnect(sequence, reason, source, bytes);
        },
        PacketView::Punch {  } => {
            lemma_decode_punch(source, bytes);
        },
        PacketView::ArrangedConnectRequest { sequence, debug_object_sizes } => {
            lemma_decode_arranged_connect_request(sequence, debug_object_sizes, source, bytes);
        },
        _ => {},
    }
}

/// A packet of an arranged connection or a query through the master server,
/// written and read again, is the packet.
proof fn lemma_round_trip_arranged(packet: PacketView, source: PacketSource, bytes: Seq<u8>)
    requires
        46 <= tag_of(packet) <= 64,
        !wraps(tag_of(packet) as u8),
        packet.round_trips(source),
        bytes_bits(bytes) == pad_to_byte(encode_bits(packet)),
    ensures
        decode(bytes, source) == Some(packet),
{
    match packet {
        PacketView::MasterServerRequestArrangedConnection { address } => {
            lemma_decode_master_server_request_arranged_connection(address, source, bytes);
        },
        PacketView::MasterServerClientRequestedArrangedConnection {
            flags,
            key,
            session,
            client_id,
            possible_addresses,
        } => {
            lemma_decode_master_server_client_requested_arranged_connection(
                flags,
                key,
                session,
                client_id,
                possible_addresses,
                source,
                bytes,
            );
        },
        PacketView::MasterServerAcceptArrangedConnection { client_id } => {
            lemma_decode_master_server_accept_arranged_connection(client_id, source, bytes);
        },
        PacketView::MasterServerArrangedConnectionAccepted {
            flags,
            key,
            session,
            possible_addresses,
        } => {
            lemma_decode_master_server_arranged_connection_accepted(
                flags,
                key,
                session,
                possible_addresses,
                source,
                bytes,
            );
        },
        PacketView::MasterServerRejectArrangedConnection { reason } => {
            lemma_decode_master_server_reject_arranged_connection(reason, source, bytes);
        },
        PacketView::MasterServerArrangedConnectionRejected { flags, key, session, reason } => {
            lemma_decode_master_server_arranged_connection_rejected(
                flags,
                key,
                session,
                reason,
                source,
                bytes,
            );
        },
        PacketView::MasterServerGamePingRequest { address, flags, key, session } => {
            lemma_decode_master_server_game_ping_request(
                address,
                flags,
                key,
                session,
                source,
                bytes,
            );
        },
        PacketView::MasterServerGameInfoRequest { address, flags, key, session } => {
            lemma_decode_master_server_game_info_request(
                address,
                flags,
                key,
                session,
                source,
                bytes,
            );
        },
        _ => {},
    }
}

/// A packet of a relay or an invite, written and read again, is the packet.
proof fn lemma_round_trip_relay(packet: PacketView, source: PacketSource, bytes: Seq<u8>)
    requires
        66 <= tag_of(packet) <= 78,
        !wraps(tag_of(packet) as u8),
        packet.round_trips(source),
        bytes_bits(bytes) == pad_to_byte(encode_bits(packet)),
    ensures
        decode(bytes, source) == Some(packet),
{
    match packet {
        PacketView::MasterServerRelayRequestToMaster { address } => {
            lemma_decode_master_server_relay_request_to_master(address, source, bytes);
        },
        PacketView::MasterServerRelayRequestToRelay { relay_id, server_addr, client_addr } => {
            lemma_decode_master_server_relay_request_to_relay(
                relay_id,
                server_addr,
                client_addr,
                source,
                bytes,
            );
        },
        PacketView::MasterServerRelayResponseFromRelay { relay_id, relay_port } => {
            lemma_decode_master_server_relay_response_from_relay(
                relay_id,
                relay_port,
                source,
                bytes,
            );
        },
        PacketView::MasterServerRelayResponseFromMaster {
            flags,
            key,
            session,
            is_host,
            address,
        } => {
            lemma_decode_master_server_relay_response_from_master(
                flags,
                key,
                session,
                is_host,
                address,
                source,
                bytes,
            );
        },
        PacketView::MasterServerRelayDelete {  } => {
            lemma_decode_master_server_relay_delete(source, bytes);
        },
        PacketView::MasterServerRelayReady { flags, key, session } => {
            lemma_decode_master_server_relay_ready(flags, key, session, source, bytes);
        },
        PacketView::MasterServerJoinInvite { invite_code } => {
            lemma_decode_master_server_join_invite(invite_code, source, bytes);
        },
        PacketView::MasterServerJoinInviteResponse { flags, key, session, address } => {
            lemma_decode_master_server_join_invite_response(
                flags,
                key,
                session,
                address,
                source,
                bytes,
            );
        },
        PacketView::MasterServerRelayHeartbeat {  } => {
            lemma_decode_master_server_relay_heartbeat(source, bytes);
        },
        _ => {},
    }
}

/// A packet without another at its end, written and read again, is the
/// packet.
#[verifier::rlimit(30)]
proof fn lemma_round_trip_plain(packet: PacketView, source: PacketSource, bytes: Seq<u8>)
    requires
        tag_of(packet) != 60,
        tag_of(packet) != 64,
        packet.round_trips(source),
        bytes_bits(bytes) == pad_to_byte(encode_bits(packet)),
    ensures
        decode(bytes, source) == Some(packet),
{
    let tag = tag_of(packet);
    if tag < 0 {
        match packet {
            PacketView::Raw(raw) => {
                lemma_decode_raw(raw, source, bytes);
            },
            _ => {},
        }
    } else if tag <= 22 {
        lemma_round_trip_queries(packet, source, bytes);
    } else if tag == 24 {
    } else if tag <= 42 {
        lemma_round_trip_handshake(packet, source, bytes);
    } else if tag <= 64 {
        lemma_round_trip_arranged(packet, source, bytes);
    } else {
        lemma_round_trip_relay(packet, source, bytes);
    }
}

/// A packet with another at its end, written and read again, is the packet,
/// where the packet inside is.
#[verifier::rlimit(30)]
proof fn lemma_round_trip_wrapper(
    tag: u8,
    flags: u8,
    key: u16,
    session: u16,
    address: Endpoint,
    inner: PacketView,
    source: PacketSource,
    bytes: Seq<u8>,
)
    requires
        wraps(tag),
        nests(inner, source),
        bytes_bits(bytes) == pad_to_byte(
            int_bits(tag as nat, 8) + (fks_bits(flags, key, session) + (endpoint_bits(address)
                + pad_to_byte(encode_bits(inner)))),
        ),
        inner.round_trips(source) ==> (forall|inside: Seq<u8>|
            bytes_bits(inside) == pad_to_byte(encode_bits(inner)) ==> #[trigger] decode(
                inside,
                source,
            ) == Some(inner)),
    ensures
        decode(bytes, source) == Some(wrap(tag, (flags, key, session), address, inner)),
{
    let body = pad_to_byte(encode_bits(inner));
    assert(body.len() % 8 == 0);
    lemma_nested_layout(tag, flags, key, session, address, body, bytes);
    let inside = bytes.skip(12);
    if inner.round_trips(source) {
        assert(decode(inside, source) == Some(inner));
    }
    lemma_inner(inner, source, inside);
    lemma_decode_wrapper(tag, flags, key, session, address, inner, source, bytes);
}

/// A packet that is written and read again, on the way that it is for, is
/// the packet.
#[verifier::rlimit(30)]
pub proof fn lemma_round_trip(packet: PacketView, source: PacketSource, bytes: Seq<u8>)
    requires
        packet.round_trips(source),
        bytes_bits(bytes) == pad_to_byte(encode_bits(packet)),
    ensures
        decode(bytes, source) == Some(packet),
    decreases packet,
{
    match packet {
        PacketView::MasterServerGamePingResponse {
            flags,
            key,
            session,
            address,
            packet: inner,
        } => {
            if inner.round_trips(source) {
                assert forall|inside: Seq<u8>|
                    bytes_bits(inside) == pad_to_byte(
                        encode_bits(*inner)
                    ) implies #[trigger] decode(
                    inside,
                    source,
                ) == Some(*inner) by {
                    lemma_round_trip(*inner, source, inside);
                }
            }
            lemma_round_trip_wrapper(60, flags, key, session, address, *inner, source, bytes);
        },
        PacketView::MasterServerGameInfoResponse {
            flags,
            key,
            session,
            address,
            packet: inner,
        } => {
            if inner.round_trips(source) {
                assert forall|inside: Seq<u8>|
                    bytes_bits(inside) == pad_to_byte(
                        encode_bits(*inner)
                    ) implies #[trigger] decode(
                    inside,
                    source,
                ) == Some(*inner) by {
                    lemma_round_trip(*inner, source, inside);
                }
            }
            lemma_round_trip_wrapper(64, flags, key, session, address, *inner, source, bytes);
        },
        _ => {
            lemma_round_trip_plain(packet, source, bytes);
        },
    }
}

} // verus!
