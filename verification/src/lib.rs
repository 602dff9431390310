//! Wire codec and reliability layer of a Torque-family game networking stack.

pub mod bits;
pub mod bitstream;
pub mod codes;
pub mod connection;
pub mod dnet;
pub mod fields;
pub mod forest;
pub mod huffman;
pub mod master;
pub mod packet;
pub mod packet_laws;
pub mod tags;
pub mod text;
pub mod unit;
