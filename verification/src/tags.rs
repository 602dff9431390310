//! The numbers of the wire format: packet tags and flag bits.

use vstd::prelude::*;

verus! {

/// The tag of every packet kind: the first byte of a datagram. Tags are even;
/// a datagram that begins with an odd byte is a raw packet.
pub const MASTER_SERVER_GAME_TYPES_REQUEST: u8 = 2;

pub const MASTER_SERVER_GAME_TYPES_RESPONSE: u8 = 4;

pub const MASTER_SERVER_LIST_REQUEST: u8 = 6;

pub const MASTER_SERVER_LIST_RESPONSE: u8 = 8;

pub const GAME_MASTER_INFO_REQUEST: u8 = 10;

pub const GAME_MASTER_INFO_RESPONSE: u8 = 12;

pub const GAME_PING_REQUEST: u8 = 14;

pub const GAME_PING_RESPONSE: u8 = 16;

pub const GAME_INFO_REQUEST: u8 = 18;

pub const GAME_INFO_RESPONSE: u8 = 20;

pub const GAME_HEARTBEAT: u8 = 22;

pub const GGC_PACKET: u8 = 24;

pub const CONNECT_CHALLENGE_REQUEST: u8 = 26;

pub const CONNECT_CHALLENGE_REJECT: u8 = 28;

pub const CONNECT_CHALLENGE_RESPONSE: u8 = 30;

pub const CONNECT_REQUEST: u8 = 32;

pub const CONNECT_REJECT: u8 = 34;

pub const CONNECT_ACCEPT: u8 = 36;

pub const DISCONNECT: u8 = 38;

pub const PUNCH: u8 = 40;

pub const ARRANGED_CONNECT_REQUEST: u8 = 42;

pub const MASTER_SERVER_REQUEST_ARRANGED_CONNECTION: u8 = 46;

pub const MASTER_SERVER_CLIENT_REQUESTED_ARRANGED_CONNECTION: u8 = 48;

pub const MASTER_SERVER_ACCEPT_ARRANGED_CONNECTION: u8 = 50;

pub const MASTER_SERVER_ARRANGED_CONNECTION_ACCEPTED: u8 = 52;

pub const MASTER_SERVER_REJECT_ARRANGED_CONNECTION: u8 = 54;

pub const MASTER_SERVER_ARRANGED_CONNECTION_REJECTED: u8 = 56;

pub const MASTER_SERVER_GAME_PING_REQUEST: u8 = 58;

pub const MASTER_SERVER_GAME_PING_RESPONSE: u8 = 60;

pub const MASTER_SERVER_GAME_INFO_REQUEST: u8 = 62;

pub const MASTER_SERVER_GAME_INFO_RESPONSE: u8 = 64;

pub const MASTER_SERVER_RELAY_REQUEST: u8 = 66;

pub const MASTER_SERVER_RELAY_RESPONSE: u8 = 68;

pub const MASTER_SERVER_RELAY_DELETE: u8 = 70;

pub const MASTER_SERVER_RELAY_READY: u8 = 72;

pub const MASTER_SERVER_JOIN_INVITE: u8 = 74;

pub const MASTER_SERVER_JOIN_INVITE_RESPONSE: u8 = 76;

pub const MASTER_SERVER_RELAY_HEARTBEAT: u8 = 78;

/// Net class groups of a connect request.
pub const NET_CLASS_GROUP_GAME: u32 = 0;

pub const NET_CLASS_GROUP_COMMUNITY: u32 = 1;

pub const NET_CLASS_GROUP_3: u32 = 2;

pub const NET_CLASS_GROUP_4: u32 = 3;

pub const NET_CLASS_GROUPS_COUNT: u32 = 4;

/// Query flags, the `flags` byte of a query.
pub const ONLINE_QUERY: u8 = 0;

pub const OFFLINE_QUERY: u8 = 1;

/// Texts go out byte by byte, not in the Huffman code.
pub const NO_STRING_COMPRESS: u8 = 2;

/// Filter flags of a server list request.
pub const DEDICATED: u8 = 0;

pub const NOT_PASSWORDED: u8 = 1;

pub const LINUX: u8 = 2;

/// The request asks for servers of its own version only.
pub const CURRENT_VERSION: u8 = 128;

} // verus!
