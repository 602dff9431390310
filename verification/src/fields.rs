//! The pieces that packets are made of: headers, addresses, texts and lists,
//! each with the bits that it goes out as and the way it is read back.

use vstd::prelude::*;
use vstd::arithmetic::power2::{lemma2_to64, pow2};
use crate::bits::int_bits;
use crate::bitstream::{
    BitStream, Truncated, cstring_bits, long_cstring_bits, take_bits, take_cstring,
    take_long_cstring, lemma_take_bytes, lemma_take_int, lemma_write_at_end, lemma_write_write,
};
use crate::huffman::{HuffmanProcessor, lemma_buffer_round_trip, string_bits, take_string};
use crate::text::{bytes_text, lemma_text_round_trip, single_byte, text_bytes};

verus! {

/// An IPv4 address: its four octets in network order.
#[derive(Clone, Copy, Debug, PartialEq, Eq, Structural)]
pub struct Ipv4Address(pub u8, pub u8, pub u8, pub u8);

/// An address and a port.
#[derive(Clone, Copy, Debug, PartialEq, Eq, Structural)]
pub struct Endpoint {
    pub address: Ipv4Address,
    pub port: u16,
}

/// Eight bits as a byte.
pub open spec fn take_u8(bits: Seq<bool>) -> Option<(u8, Seq<bool>)> {
    match take_bits(bits, 8) {
        Some((v, rest)) => Some((v as u8, rest)),
        None => None,
    }
}

/// Sixteen bits as a number, low byte first.
pub open spec fn take_u16(bits: Seq<bool>) -> Option<(u16, Seq<bool>)> {
    match take_bits(bits, 16) {
        Some((v, rest)) => Some((v as u16, rest)),
        None => None,
    }
}

/// Thirty-two bits as a number, low byte first.
pub open spec fn take_u32(bits: Seq<bool>) -> Option<(u32, Seq<bool>)> {
    match take_bits(bits, 32) {
        Some((v, rest)) => Some((v as u32, rest)),
        None => None,
    }
}

/// The header of a query: the flags, then key and session in one 32-bit
/// number, the key in its low half and the session in its high half.
pub open spec fn fks_bits(flags: u8, key: u16, session: u16) -> Seq<bool> {
    int_bits(flags as nat, 8) + int_bits((session * 0x1_0000 + key) as nat, 32)
}

/// Reads the header of a query: flags, key and session.
pub open spec fn take_fks(bits: Seq<bool>) -> Option<((u8, u16, u16), Seq<bool>)> {
    match take_bits(bits, 8) {
        None => None,
        Some((flags, rest)) => match take_bits(rest, 32) {
            None => None,
            Some((key_session, rest)) => Some(
                (
                    (flags as u8, (key_session % 0x1_0000) as u16, (key_session / 0x1_0000) as u16),
                    rest,
                ),
            ),
        },
    }
}

/// An address: four octets.
pub open spec fn address_bits(address: Ipv4Address) -> Seq<bool> {
    int_bits(address.0 as nat, 8) + int_bits(address.1 as nat, 8) + int_bits(address.2 as nat, 8)
        + int_bits(address.3 as nat, 8)
}

/// Reads an address.
pub open spec fn take_address(bits: Seq<bool>) -> Option<(Ipv4Address, Seq<bool>)> {
    match take_bits(bits, 8) {
        None => None,
        Some((a, rest)) => match take_bits(rest, 8) {
            None => None,
            Some((b, rest)) => match take_bits(rest, 8) {
                None => None,
                Some((c, rest)) => match take_bits(rest, 8) {
                    None => None,
                    Some((d, rest)) => Some(
                        (Ipv4Address(a as u8, b as u8, c as u8, d as u8), rest),
                    ),
                },
            },
        },
    }
}

/// An address and a port: the octets, then the port, low byte first.
pub open spec fn endpoint_bits(endpoint: Endpoint) -> Seq<bool> {
    address_bits(endpoint.address) + int_bits(endpoint.port as nat, 16)
}

/// Reads an address and a port.
pub open spec fn take_endpoint(bits: Seq<bool>) -> Option<(Endpoint, Seq<bool>)> {
    match take_address(bits) {
        None => None,
        Some((address, rest)) => match take_bits(rest, 16) {
            None => None,
            Some((port, rest)) => Some((Endpoint { address, port: port as u16 }, rest)),
        },
    }
}

/// An address digest: four 32-bit numbers.
pub open spec fn digest_bits(digest: Seq<u32>) -> Seq<bool> {
    int_bits(digest[0] as nat, 32) + int_bits(digest[1] as nat, 32) + int_bits(
        digest[2] as nat,
        32,
    ) + int_bits(digest[3] as nat, 32)
}

/// Reads an address digest.
pub open spec fn take_digest(bits: Seq<bool>) -> Option<(Seq<u32>, Seq<bool>)> {
    match take_bits(bits, 32) {
        None => None,
        Some((a, rest)) => match take_bits(rest, 32) {
            None => None,
            Some((b, rest)) => match take_bits(rest, 32) {
                None => None,
                Some((c, rest)) => match take_bits(rest, 32) {
                    None => None,
                    Some((d, rest)) => Some((seq![a as u32, b as u32, c as u32, d as u32], rest)),
                },
            },
        },
    }
}

/// A text byte by byte, its length in eight bits in front.
pub open spec fn ctext_bits(text: Seq<char>) -> Seq<bool> {
    cstring_bits(text_bytes(text))
}

/// Reads a text byte by byte, its length in eight bits in front.
pub open spec fn take_ctext(bits: Seq<bool>) -> Option<(Seq<char>, Seq<bool>)> {
    match take_cstring(bits) {
        Some((bytes, rest)) => Some((bytes_text(bytes), rest)),
        None => None,
    }
}

/// A text byte by byte, its length in sixteen bits in front.
pub open spec fn long_ctext_bits(text: Seq<char>) -> Seq<bool> {
    long_cstring_bits(text_bytes(text))
}

/// Reads a text byte by byte, its length in sixteen bits in front.
pub open spec fn take_long_ctext(bits: Seq<bool>) -> Option<(Seq<char>, Seq<bool>)> {
    match take_long_cstring(bits) {
        Some((bytes, rest)) => Some((bytes_text(bytes), rest)),
        None => None,
    }
}

/// A text in the Huffman code.
pub open spec fn text_bits(text: Seq<char>) -> Seq<bool> {
    string_bits(text)
}

/// Reads a text in the Huffman code.
pub open spec fn take_text(bits: Seq<bool>) -> Option<(Seq<char>, Seq<bool>)> {
    match take_string(bits) {
        Some((bytes, rest)) => Some((bytes_text(bytes), rest)),
        None => None,
    }
}

/// The query's flags ask for texts byte by byte.
pub open spec fn plain_texts(flags: u8) -> bool {
    flags & 2 == 2
}

/// A text as the query's flags ask for it: byte by byte, or in the Huffman code.
pub open spec fn maybe_text_bits(flags: u8, text: Seq<char>) -> Seq<bool> {
    if plain_texts(flags) {
        ctext_bits(text)
    } else {
        text_bits(text)
    }
}

/// Reads a text as the query's flags ask for it.
pub open spec fn take_maybe_text(bits: Seq<bool>, flags: u8) -> Option<(Seq<char>, Seq<bool>)> {
    if plain_texts(flags) {
        take_ctext(bits)
    } else {
        take_text(bits)
    }
}

/// The texts are of single-byte characters and short enough for the wire.
pub open spec fn short_text(text: Seq<char>) -> bool {
    text.len() <= 255 && single_byte(text)
}

/// The elements of a list, one after the other.
pub open spec fn list_bits<T>(list: Seq<T>, element_bits: spec_fn(T) -> Seq<bool>) -> Seq<bool>
    decreases list.len(),
{
    if list.len() == 0 {
        Seq::empty()
    } else {
        element_bits(list[0]) + list_bits(list.drop_first(), element_bits)
    }
}

/// Reads `count` elements.
pub open spec fn take_list<T>(
    bits: Seq<bool>,
    count: nat,
    take_element: spec_fn(Seq<bool>) -> Option<(T, Seq<bool>)>,
) -> Option<(Seq<T>, Seq<bool>)>
    decreases count,
{
    if count == 0 {
        Some((Seq::empty(), bits))
    } else {
        match take_element(bits) {
            None => None,
            Some((first, rest)) => match take_list(rest, (count - 1) as nat, take_element) {
                None => None,
                Some((others, rest)) => Some((seq![first] + others, rest)),
            },
        }
    }
}

/// A list with its length in `width` bits in front. A list too long for
/// that goes out whole, behind the low bits of its length.
pub open spec fn counted_bits<T>(
    list: Seq<T>,
    width: nat,
    element_bits: spec_fn(T) -> Seq<bool>,
) -> Seq<bool> {
    int_bits((list.len() % pow2(width)) as nat, width) + list_bits(list, element_bits)
}

/// Reads a list with its length in `width` bits in front.
pub open spec fn take_counted<T>(
    bits: Seq<bool>,
    width: nat,
    take_element: spec_fn(Seq<bool>) -> Option<(T, Seq<bool>)>,
) -> Option<(Seq<T>, Seq<bool>)> {
    match take_bits(bits, width) {
        None => None,
        Some((count, rest)) => take_list(rest, count, take_element),
    }
}

/// The bits of a 32-bit number.
pub open spec fn u32_bits() -> spec_fn(u32) -> Seq<bool> {
    |value: u32| int_bits(value as nat, 32)
}

/// The reader of a 32-bit number.
pub open spec fn u32_taker() -> spec_fn(Seq<bool>) -> Option<(u32, Seq<bool>)> {
    |bits: Seq<bool>| take_u32(bits)
}

/// The bits of an address and a port.
pub open spec fn endpoint_encoder() -> spec_fn(Endpoint) -> Seq<bool> {
    |endpoint: Endpoint| endpoint_bits(endpoint)
}

/// The reader of an address and a port.
pub open spec fn endpoint_taker() -> spec_fn(Seq<bool>) -> Option<(Endpoint, Seq<bool>)> {
    |bits: Seq<bool>| take_endpoint(bits)
}

/// The bits of a text byte by byte.
pub open spec fn ctext_encoder() -> spec_fn(Seq<char>) -> Seq<bool> {
    |text: Seq<char>| ctext_bits(text)
}

/// The reader of a text byte by byte.
pub open spec fn ctext_taker() -> spec_fn(Seq<bool>) -> Option<(Seq<char>, Seq<bool>)> {
    |bits: Seq<bool>| take_ctext(bits)
}

/// The bits of a text in the Huffman code.
pub open spec fn text_encoder() -> spec_fn(Seq<char>) -> Seq<bool> {
    |text: Seq<char>| text_bits(text)
}

/// The reader of a text in the Huffman code.
pub open spec fn text_taker() -> spec_fn(Seq<bool>) -> Option<(Seq<char>, Seq<bool>)> {
    |bits: Seq<bool>| take_text(bits)
}

/// The player identifiers of a game: those that are known, then zeros up to
/// the number of players.
pub open spec fn guids_bits(guids: Seq<u32>, player_count: u8) -> Seq<bool> {
    list_bits(guids, u32_bits()) + list_bits(
        Seq::new(
            (if guids.len() < player_count { player_count - guids.len() } else { 0 }) as nat,
            |i: int| 0u32,
        ),
        u32_bits(),
    )
}

/// Reads `count` player identifiers; one that is missing reads as zero.
pub open spec fn take_guids(bits: Seq<bool>, count: nat) -> (Seq<u32>, Seq<bool>)
    decreases count,
{
    if count == 0 {
        (Seq::empty(), bits)
    } else {
        match take_u32(bits) {
            Some((first, rest)) => {
                let others = take_guids(rest, (count - 1) as nat);
                (seq![first] + others.0, others.1)
            },
            None => {
                let others = take_guids(bits, (count - 1) as nat);
                (seq![0u32] + others.0, others.1)
            },
        }
    }
}

/// An address and a port that may be missing: a byte that is 1 where they
/// follow, and 0 where not.
pub open spec fn found_bits(endpoint: Option<Endpoint>) -> Seq<bool> {
    match endpoint {
        Some(endpoint) => int_bits(1, 8) + endpoint_bits(endpoint),
        None => int_bits(0, 8),
    }
}

/// Reads an address and a port that may be missing.
pub open spec fn take_found(bits: Seq<bool>) -> Option<(Option<Endpoint>, Seq<bool>)> {
    match take_bits(bits, 8) {
        None => None,
        Some((found, rest)) => if found == 1 {
            match take_endpoint(rest) {
                None => None,
                Some((endpoint, rest)) => Some((Some(endpoint), rest)),
            }
        } else {
            Some((None, rest))
        },
    }
}

/// A list with one more element goes out as the list and then that element.
pub proof fn lemma_list_bits_push<T>(list: Seq<T>, last: T, element_bits: spec_fn(T) -> Seq<bool>)
    ensures
        list_bits(list.push(last), element_bits) == list_bits(list, element_bits) + element_bits(
            last,
        ),
    decreases list.len(),
{
    if list.len() == 0 {
        reveal_with_fuel(list_bits, 2);
        assert(list.push(last).drop_first() =~= Seq::<T>::empty());
        assert(list_bits(list.push(last), element_bits) =~= list_bits(list, element_bits)
            + element_bits(last));
    } else {
        lemma_list_bits_push(list.drop_first(), last, element_bits);
        assert(list.push(last).drop_first() =~= list.drop_first().push(last));
        assert(list_bits(list.push(last), element_bits) =~= list_bits(list, element_bits)
            + element_bits(last));
    }
}

/// A list whose elements are read back as they were written is read back as
/// it was written.
pub proof fn lemma_take_list<T>(
    list: Seq<T>,
    rest: Seq<bool>,
    element_bits: spec_fn(T) -> Seq<bool>,
    take_element: spec_fn(Seq<bool>) -> Option<(T, Seq<bool>)>,
)
    requires
        forall|i: int, more: Seq<bool>|
            0 <= i < list.len() ==> #[trigger] take_element(element_bits(list[i]) + more) == Some(
                (list[i], more),
            ),
    ensures
        take_list(list_bits(list, element_bits) + rest, list.len(), take_element) == Some(
            (list, rest),
        ),
    decreases list.len(),
{
    if list.len() == 0 {
        assert(list_bits(list, element_bits) + rest =~= rest);
    } else {
        let others = list.drop_first();
        let tail = list_bits(others, element_bits) + rest;
        assert(list_bits(list, element_bits) + rest =~= element_bits(list[0]) + tail);
        assert forall|i: int, more: Seq<bool>|
            0 <= i < others.len() implies #[trigger] take_element(element_bits(others[i]) + more)
            == Some((others[i], more)) by {
            assert(others[i] == list[i + 1]);
        }
        lemma_take_list(others, rest, element_bits, take_element);
        assert(seq![list[0]] + others =~= list);
    }
}

/// A query's header is read back as it was written.
pub proof fn lemma_take_fks(flags: u8, key: u16, session: u16, rest: Seq<bool>)
    ensures
        take_fks(fks_bits(flags, key, session) + rest) == Some(((flags, key, session), rest)),
{
    lemma2_to64();
    let key_session = (session * 0x1_0000 + key) as nat;
    let tail = int_bits(key_session, 32) + rest;
    assert(fks_bits(flags, key, session) + rest =~= int_bits(flags as nat, 8) + tail);
    lemma_take_int(flags as nat, 8, tail);
    lemma_take_int(key_session, 32, rest);
}

/// An address is read back as it was written.
pub proof fn lemma_take_address(address: Ipv4Address, rest: Seq<bool>)
    ensures
        take_address(address_bits(address) + rest) == Some((address, rest)),
{
    lemma2_to64();
    let d = int_bits(address.3 as nat, 8) + rest;
    let c = int_bits(address.2 as nat, 8) + d;
    let b = int_bits(address.1 as nat, 8) + c;
    assert(address_bits(address) + rest =~= int_bits(address.0 as nat, 8) + b);
    lemma_take_int(address.0 as nat, 8, b);
    lemma_take_int(address.1 as nat, 8, c);
    lemma_take_int(address.2 as nat, 8, d);
    lemma_take_int(address.3 as nat, 8, rest);
}

/// An address and a port are read back as they were written.
pub proof fn lemma_take_endpoint(endpoint: Endpoint, rest: Seq<bool>)
    ensures
        take_endpoint(endpoint_bits(endpoint) + rest) == Some((endpoint, rest)),
{
    lemma2_to64();
    let tail = int_bits(endpoint.port as nat, 16) + rest;
    assert(endpoint_bits(endpoint) + rest =~= address_bits(endpoint.address) + tail);
    lemma_take_address(endpoint.address, tail);
    lemma_take_int(endpoint.port as nat, 16, rest);
}

/// An address digest is read back as it was written.
pub proof fn lemma_take_digest(digest: Seq<u32>, rest: Seq<bool>)
    requires
        digest.len() == 4,
    ensures
        take_digest(digest_bits(digest) + rest) == Some((digest, rest)),
{
    lemma2_to64();
    let d = int_bits(digest[3] as nat, 32) + rest;
    let c = int_bits(digest[2] as nat, 32) + d;
    let b = int_bits(digest[1] as nat, 32) + c;
    assert(digest_bits(digest) + rest =~= int_bits(digest[0] as nat, 32) + b);
    lemma_take_int(digest[0] as nat, 32, b);
    lemma_take_int(digest[1] as nat, 32, c);
    lemma_take_int(digest[2] as nat, 32, d);
    lemma_take_int(digest[3] as nat, 32, rest);
    assert(seq![digest[0], digest[1], digest[2], digest[3]] =~= digest);
}

/// A short text byte by byte is read back as it was written.
pub proof fn lemma_take_ctext(text: Seq<char>, rest: Seq<bool>)
    requires
        short_text(text),
    ensures
        take_ctext(ctext_bits(text) + rest) == Some((text, rest)),
{
    lemma2_to64();
    let bytes = text_bytes(text);
    let tail = crate::bits::bytes_bits(bytes) + rest;
    assert(ctext_bits(text) + rest =~= int_bits(bytes.len(), 8) + tail);
    lemma_take_int(bytes.len(), 8, tail);
    lemma_take_bytes(bytes, rest);
    lemma_text_round_trip(text);
}

/// A text of fewer than 65536 single-byte characters, with its length in
/// sixteen bits, is read back as it was written.
pub proof fn lemma_take_long_ctext(text: Seq<char>, rest: Seq<bool>)
    requires
        text.len() < 0x1_0000,
        single_byte(text),
    ensures
        take_long_ctext(long_ctext_bits(text) + rest) == Some((text, rest)),
{
    lemma2_to64();
    let bytes = text_bytes(text);
    let tail = crate::bits::bytes_bits(bytes) + rest;
    assert(long_ctext_bits(text) + rest =~= int_bits(bytes.len(), 16) + tail);
    lemma_take_int(bytes.len(), 16, tail);
    lemma_take_bytes(bytes, rest);
    lemma_text_round_trip(text);
}

/// A short text in the Huffman code is read back as it was written.
pub proof fn lemma_take_text(text: Seq<char>, rest: Seq<bool>)
    requires
        short_text(text),
    ensures
        take_text(text_bits(text) + rest) == Some((text, rest)),
{
    lemma_buffer_round_trip(text_bytes(text), 256, rest);
    lemma_text_round_trip(text);
}

/// A short text is read back as it was written, whatever the query's flags
/// ask for.
pub proof fn lemma_take_maybe_text(flags: u8, text: Seq<char>, rest: Seq<bool>)
    requires
        short_text(text),
    ensures
        take_maybe_text(maybe_text_bits(flags, text) + rest, flags) == Some((text, rest)),
{
    lemma_take_ctext(text, rest);
    lemma_take_text(text, rest);
}

/// An address and a port that may be missing are read back as they were written.
pub proof fn lemma_take_found(endpoint: Option<Endpoint>, rest: Seq<bool>)
    ensures
        take_found(found_bits(endpoint) + rest) == Some((endpoint, rest)),
{
    lemma2_to64();
    match endpoint {
        Some(e) => {
            let tail = endpoint_bits(e) + rest;
            assert(found_bits(endpoint) + rest =~= int_bits(1, 8) + tail);
            lemma_take_int(1, 8, tail);
            lemma_take_endpoint(e, rest);
        },
        None => {
            lemma_take_int(0, 8, rest);
        },
    }
}

/// As many player identifiers as there are players are read back as they
/// were written.
pub proof fn lemma_take_guids(guids: Seq<u32>, rest: Seq<bool>)
    ensures
        take_guids(list_bits(guids, u32_bits()) + rest, guids.len()) == (guids, rest),
    decreases guids.len(),
{
    lemma2_to64();
    if guids.len() == 0 {
        assert(list_bits(guids, u32_bits()) + rest =~= rest);
    } else {
        let others = guids.drop_first();
        let tail = list_bits(others, u32_bits()) + rest;
        assert(list_bits(guids, u32_bits()) + rest =~= int_bits(guids[0] as nat, 32) + tail);
        lemma_take_int(guids[0] as nat, 32, tail);
        lemma_take_guids(others, rest);
        assert(seq![guids[0]] + others =~= guids);
    }
}

/// A counted list whose length fits its width and whose elements are read
/// back as they were written is read back as it was written.
pub proof fn lemma_take_counted<T>(
    list: Seq<T>,
    width: nat,
    rest: Seq<bool>,
    element_bits: spec_fn(T) -> Seq<bool>,
    take_element: spec_fn(Seq<bool>) -> Option<(T, Seq<bool>)>,
)
    requires
        list.len() < pow2(width),
        forall|i: int, more: Seq<bool>|
            0 <= i < list.len() ==> #[trigger] take_element(element_bits(list[i]) + more) == Some(
                (list[i], more),
            ),
    ensures
        take_counted(counted_bits(list, width, element_bits) + rest, width, take_element) == Some(
            (list, rest),
        ),
{
    let tail = list_bits(list, element_bits) + rest;
    assert(list.len() % pow2(width) == list.len()) by {
        vstd::arithmetic::div_mod::lemma_small_mod(list.len(), pow2(width));
    }
    assert(counted_bits(list, width, element_bits) + rest =~= int_bits(list.len(), width) + tail);
    lemma_take_int(list.len(), width, tail);
    lemma_take_list(list, rest, element_bits, take_element);
}

/// The texts of a list of strings.
pub open spec fn texts_of(list: Seq<String>) -> Seq<Seq<char>> {
    Seq::new(list.len(), |i: int| list[i]@)
}

proof fn lemma_key_session(key: u16, session: u16, key_session: u32)
    by (bit_vector)
    ensures
        ((session as u32) << 16 | key as u32) == session as u32 * 0x1_0000 + key as u32,
        (key_session & 0xffff) == key_session % 0x1_0000,
        (key_session >> 16) == key_session / 0x1_0000,
{
}

/// Reads the header of a query: flags, key and session.
pub fn read_flags_key_session(stream: &mut BitStream) -> (r: Result<(u8, u16, u16), Truncated>)
    ensures
        match take_fks(old(stream)@.remaining()) {
            Some((header, rest)) => r == Ok::<(u8, u16, u16), Truncated>(header) && old(
                stream,
            )@.reads_to(final(stream)@, rest),
            None => r is Err && final(stream)@ == old(stream)@,
        },
{
    let ghost before = stream@;
    let mark = stream.mark();
    let flags = match stream.read_u8() {
        Ok(flags) => flags,
        Err(e) => {
            return Err(e);
        },
    };
    let key_session = match stream.read_u32() {
        Ok(key_session) => key_session,
        Err(e) => {
            assert(stream@.bits == before.bits);
            stream.rewind(mark);
            assert(stream@ == before);
            return Err(e);
        },
    };
    proof {
        lemma_key_session(0, 0, key_session);
    }
    let key = (key_session & 0xffff) as u16;
    let session = (key_session >> 16) as u16;
    Ok((flags, key, session))
}

/// Writes the header of a query: flags, key and session.
pub fn write_flags_key_session(stream: &mut BitStream, flags: u8, key: u16, session: u16)
    requires
        old(stream)@.writable(),
    ensures
        final(stream)@ == old(stream)@.write(fks_bits(flags, key, session)),
        final(stream)@.writable(),
        old(stream)@.at_end() ==> final(stream)@.at_end() && final(stream)@.written() == old(
            stream,
        )@.written() + fks_bits(flags, key, session),
{
    let ghost before = stream@;
    proof {
        lemma_key_session(key, session, 0);
    }
    stream.write_u8(flags);
    stream.write_u32((session as u32) << 16 | key as u32);
    proof {
        lemma_write_write(
            before,
            int_bits(flags as nat, 8),
            int_bits((session * 0x1_0000 + key) as nat, 32),
        );
        if before.at_end() {
            lemma_write_at_end(before, fks_bits(flags, key, session));
        }
    }
}

/// Reads an address: four octets.
pub fn read_address(stream: &mut BitStream) -> (r: Result<Ipv4Address, Truncated>)
    ensures
        match take_address(old(stream)@.remaining()) {
            Some((address, rest)) => r == Ok::<Ipv4Address, Truncated>(address) && old(
                stream,
            )@.reads_to(final(stream)@, rest),
            None => r is Err && final(stream)@ == old(stream)@,
        },
{
    let ghost before = stream@;
    let mark = stream.mark();
    let a = match stream.read_u8() {
        Ok(a) => a,
        Err(e) => {
            return Err(e);
        },
    };
    let b = match stream.read_u8() {
        Ok(b) => b,
        Err(e) => {
            assert(stream@.bits == before.bits);
            stream.rewind(mark);
            assert(stream@ == before);
            return Err(e);
        },
    };
    let c = match stream.read_u8() {
        Ok(c) => c,
        Err(e) => {
            assert(stream@.bits == before.bits);
            stream.rewind(mark);
            assert(stream@ == before);
            return Err(e);
        },
    };
    let d = match stream.read_u8() {
        Ok(d) => d,
        Err(e) => {
            assert(stream@.bits == before.bits);
            stream.rewind(mark);
            assert(stream@ == before);
            return Err(e);
        },
    };
    Ok(Ipv4Address(a, b, c, d))
}

/// Writes an address: four octets.
pub fn write_address(stream: &mut BitStream, address: Ipv4Address)
    requires
        old(stream)@.writable(),
    ensures
        final(stream)@ == old(stream)@.write(address_bits(address)),
        final(stream)@.writable(),
        old(stream)@.at_end() ==> final(stream)@.at_end() && final(stream)@.written() == old(
            stream,
        )@.written() + address_bits(address),
{
    let ghost before = stream@;
    let Ipv4Address(a, b, c, d) = address;
    stream.write_u8(a);
    stream.write_u8(b);
    stream.write_u8(c);
    stream.write_u8(d);
    proof {
        let first = int_bits(a as nat, 8);
        lemma_write_write(before, first, int_bits(b as nat, 8));
        lemma_write_write(before, first + int_bits(b as nat, 8), int_bits(c as nat, 8));
        lemma_write_write(
            before,
            first + int_bits(b as nat, 8) + int_bits(c as nat, 8),
            int_bits(d as nat, 8),
        );
        if before.at_end() {
            lemma_write_at_end(before, address_bits(address));
        }
    }
}

/// Reads an address and a port.
pub fn read_address_and_port(stream: &mut BitStream) -> (r: Result<Endpoint, Truncated>)
    ensures
        match take_endpoint(old(stream)@.remaining()) {
            Some((endpoint, rest)) => r == Ok::<Endpoint, Truncated>(endpoint) && old(
                stream,
            )@.reads_to(final(stream)@, rest),
            None => r is Err && final(stream)@ == old(stream)@,
        },
{
    let ghost before = stream@;
    let mark = stream.mark();
    let address = match read_address(stream) {
        Ok(address) => address,
        Err(e) => {
            return Err(e);
        },
    };
    let port = match stream.read_u16() {
        Ok(port) => port,
        Err(e) => {
            assert(stream@.bits == before.bits);
            stream.rewind(mark);
            assert(stream@ == before);
            return Err(e);
        },
    };
    Ok(Endpoint { address, port })
}

/// Writes an address and a port.
pub fn write_address_and_port(stream: &mut BitStream, endpoint: Endpoint)
    requires
        old(stream)@.writable(),
    ensures
        final(stream)@ == old(stream)@.write(endpoint_bits(endpoint)),
        final(stream)@.writable(),
        old(stream)@.at_end() ==> final(stream)@.at_end() && final(stream)@.written() == old(
            stream,
        )@.written() + endpoint_bits(endpoint),
{
    let ghost before = stream@;
    write_address(stream, endpoint.address);
    stream.write_u16(endpoint.port);
    proof {
        lemma_write_write(
            before,
            address_bits(endpoint.address),
            int_bits(endpoint.port as nat, 16),
        );
        if before.at_end() {
            lemma_write_at_end(before, endpoint_bits(endpoint));
        }
    }
}

/// Reads an address digest: four 32-bit numbers.
pub fn read_digest(stream: &mut BitStream) -> (r: Result<[u32; 4], Truncated>)
    ensures
        match take_digest(old(stream)@.remaining()) {
            Some((digest, rest)) => (r matches Ok(read) && read@ == digest) && old(
                stream,
            )@.reads_to(final(stream)@, rest),
            None => r is Err && final(stream)@ == old(stream)@,
        },
{
    let ghost before = stream@;
    let mark = stream.mark();
    let a = match stream.read_u32() {
        Ok(a) => a,
        Err(e) => {
            return Err(e);
        },
    };
    let b = match stream.read_u32() {
        Ok(b) => b,
        Err(e) => {
            assert(stream@.bits == before.bits);
            stream.rewind(mark);
            assert(stream@ == before);
            return Err(e);
        },
    };
    let c = match stream.read_u32() {
        Ok(c) => c,
        Err(e) => {
            assert(stream@.bits == before.bits);
            stream.rewind(mark);
            assert(stream@ == before);
            return Err(e);
        },
    };
    let d = match stream.read_u32() {
        Ok(d) => d,
        Err(e) => {
            assert(stream@.bits == before.bits);
            stream.rewind(mark);
            assert(stream@ == before);
            return Err(e);
        },
    };
    let digest = [a, b, c, d];
    proof {
        assert(digest@ =~= seq![a, b, c, d]);
    }
    Ok(digest)
}

/// Writes an address digest: four 32-bit numbers.
pub fn write_digest(stream: &mut BitStream, digest: &[u32; 4])
    requires
        old(stream)@.writable(),
    ensures
        final(stream)@ == old(stream)@.write(digest_bits(digest@)),
        final(stream)@.writable(),
        old(stream)@.at_end() ==> final(stream)@.at_end() && final(stream)@.written() == old(
            stream,
        )@.written() + digest_bits(digest@),
{
    let ghost before = stream@;
    stream.write_u32(digest[0]);
    stream.write_u32(digest[1]);
    stream.write_u32(digest[2]);
    stream.write_u32(digest[3]);
    proof {
        let a = int_bits(digest@[0] as nat, 32);
        let b = int_bits(digest@[1] as nat, 32);
        let c = int_bits(digest@[2] as nat, 32);
        let d = int_bits(digest@[3] as nat, 32);
        lemma_write_write(before, a, b);
        lemma_write_write(before, a + b, c);
        lemma_write_write(before, a + b + c, d);
        if before.at_end() {
            lemma_write_at_end(before, digest_bits(digest@));
        }
    }
}

/// Reads a text as the query's flags ask for it: byte by byte, or in the
/// Huffman code.
pub fn read_maybe_compressed_string(
    stream: &mut BitStream,
    huffman: &HuffmanProcessor,
    flags: u8,
) -> (r: Result<String, Truncated>)
    ensures
        match take_maybe_text(old(stream)@.remaining(), flags) {
            Some((text, rest)) => (r matches Ok(read) && read@ == text) && old(stream)@.reads_to(
                final(stream)@,
                rest,
            ),
            None => r is Err && final(stream)@ == old(stream)@,
        },
{
    if (flags & crate::tags::NO_STRING_COMPRESS) == crate::tags::NO_STRING_COMPRESS {
        stream.read_cstring()
    } else {
        stream.read_string(huffman)
    }
}

/// Writes a text of at most 255 characters as the query's flags ask for it.
pub fn write_maybe_compressed_string(
    stream: &mut BitStream,
    huffman: &HuffmanProcessor,
    flags: u8,
    text: &String,
)
    requires
        old(stream)@.writable(),
        text@.len() <= 255,
    ensures
        final(stream)@ == old(stream)@.write(maybe_text_bits(flags, text@)),
        final(stream)@.writable(),
        old(stream)@.at_end() ==> final(stream)@.at_end() && final(stream)@.written() == old(
            stream,
        )@.written() + maybe_text_bits(flags, text@),
{
    if (flags & crate::tags::NO_STRING_COMPRESS) == crate::tags::NO_STRING_COMPRESS {
        stream.write_cstring(text);
    } else {
        stream.write_string(huffman, text);
    }
}

/// Reads an address and a port that may be missing.
pub fn read_found(stream: &mut BitStream) -> (r: Result<Option<Endpoint>, Truncated>)
    ensures
        match take_found(old(stream)@.remaining()) {
            Some((endpoint, rest)) => r == Ok::<Option<Endpoint>, Truncated>(endpoint)
                && old(stream)@.reads_to(final(stream)@, rest),
            None => r is Err && final(stream)@ == old(stream)@,
        },
{
    let ghost before = stream@;
    let mark = stream.mark();
    let found = match stream.read_u8() {
        Ok(found) => found,
        Err(e) => {
            return Err(e);
        },
    };
    if found == 1 {
        match read_address_and_port(stream) {
            Ok(endpoint) => Ok(Some(endpoint)),
            Err(e) => {
                assert(stream@.bits == before.bits);
                stream.rewind(mark);
                assert(stream@ == before);
                Err(e)
            },
        }
    } else {
        Ok(None)
    }
}

/// Writes an address and a port that may be missing.
pub fn write_found(stream: &mut BitStream, endpoint: Option<Endpoint>)
    requires
        old(stream)@.writable(),
    ensures
        final(stream)@ == old(stream)@.write(found_bits(endpoint)),
        final(stream)@.writable(),
        old(stream)@.at_end() ==> final(stream)@.at_end() && final(stream)@.written() == old(
            stream,
        )@.written() + found_bits(endpoint),
{
    let ghost before = stream@;
    match endpoint {
        Some(endpoint) => {
            stream.write_u8(1);
            write_address_and_port(stream, endpoint);
            proof {
                lemma_write_write(before, int_bits(1, 8), endpoint_bits(endpoint));
            }
        },
        None => {
            stream.write_u8(0);
        },
    }
    proof {
        if before.at_end() {
            lemma_write_at_end(before, found_bits(endpoint));
        }
    }
}

/// Reads `count` player identifiers; one that is missing reads as zero.
pub fn read_guids(stream: &mut BitStream, count: u8) -> (guids: Vec<u32>)
    ensures
        final(stream)@.bits == old(stream)@.bits,
        guids@ == take_guids(old(stream)@.remaining(), count as nat).0,
        old(stream)@.reads_to(
            final(stream)@,
            take_guids(old(stream)@.remaining(), count as nat).1,
        ),
{
    let ghost before = stream@;
    let ghost start = before.remaining();
    let mut guids: Vec<u32> = Vec::new();
    let mut i: u8 = 0;
    proof {
        assert(guids@ + take_guids(start, count as nat).0 =~= take_guids(start, count as nat).0);
    }
    while i < count
        invariant
            i <= count,
            start == before.remaining(),
            before.reads_to(stream@, stream@.remaining()),
            take_guids(start, count as nat).0 == guids@ + take_guids(
                stream@.remaining(),
                (count - i) as nat,
            ).0,
            take_guids(start, count as nat).1 == take_guids(
                stream@.remaining(),
                (count - i) as nat,
            ).1,
        decreases count - i,
    {
        let ghost so_far = guids@;
        let guid = match stream.read_u32() {
            Ok(guid) => guid,
            Err(_) => 0u32,
        };
        guids.push(guid);
        i = i + 1;
        proof {
            let more = take_guids(stream@.remaining(), (count - i) as nat).0;
            assert(so_far + (seq![guid] + more) =~= guids@ + more);
        }
    }
    proof {
        assert(guids@ + Seq::<u32>::empty() =~= guids@);
    }
    guids
}

/// Writes the player identifiers of a game: those that are known, then zeros
/// up to the number of players.
pub fn write_guids(stream: &mut BitStream, guids: &Vec<u32>, player_count: u8)
    requires
        old(stream)@.writable(),
    ensures
        final(stream)@ == old(stream)@.write(guids_bits(guids@, player_count)),
        final(stream)@.writable(),
        old(stream)@.at_end() ==> final(stream)@.at_end() && final(stream)@.written() == old(
            stream,
        )@.written() + guids_bits(guids@, player_count),
{
    let ghost before = stream@;
    let ghost known = list_bits(guids@, u32_bits());
    let ghost missing: nat = (if guids@.len() < player_count {
        player_count - guids@.len()
    } else {
        0
    }) as nat;
    write_u32_list(stream, guids);
    let mut i: usize = guids.len();
    let ghost mut zeros: Seq<u32> = Seq::empty();
    proof {
        assert(list_bits(zeros, u32_bits()) =~= Seq::<bool>::empty());
        assert(known + list_bits(zeros, u32_bits()) =~= known);
    }
    while i < player_count as usize
        invariant
            guids@.len() <= i,
            missing == (if guids@.len() < player_count {
                player_count - guids@.len()
            } else {
                0
            }),
            zeros.len() == i - guids@.len(),
            zeros.len() <= missing,
            zeros =~= Seq::new(zeros.len(), |k: int| 0u32),
            before.writable(),
            stream@.writable(),
            stream@ == before.write(known + list_bits(zeros, u32_bits())),
        decreases player_count - i,
    {
        stream.write_u32(0);
        proof {
            lemma_write_write(before, known + list_bits(zeros, u32_bits()), int_bits(0, 32));
            lemma_list_bits_push(zeros, 0u32, u32_bits());
            assert((known + list_bits(zeros, u32_bits())) + int_bits(0, 32) =~= known + list_bits(
                zeros.push(0u32),
                u32_bits(),
            ));
            zeros = zeros.push(0u32);
        }
        i = i + 1;
    }
    proof {
        assert(zeros =~= Seq::new(missing, |k: int| 0u32));
        if before.at_end() {
            lemma_write_at_end(before, guids_bits(guids@, player_count));
        }
    }
}

/// Reads `count` 32-bit numbers.
pub fn read_u32_list(stream: &mut BitStream, count: usize) -> (r: Result<Vec<u32>, Truncated>)
    ensures
        match take_list(old(stream)@.remaining(), count as nat, u32_taker()) {
            Some((elements, rest)) => (r matches Ok(list) && list@ == elements) && old(
                stream,
            )@.reads_to(final(stream)@, rest),
            None => r is Err && final(stream)@ == old(stream)@,
        },
{
    let ghost before = stream@;
    let ghost start = before.remaining();
    let mark = stream.mark();
    let mut out: Vec<u32> = Vec::new();
    let mut i: usize = 0;
    proof {
        assert(out@ + Seq::<u32>::empty() =~= Seq::<u32>::empty());
        match take_list(start, count as nat, u32_taker()) {
            Some((elements, rest)) => {
                assert(out@ + elements =~= elements);
            },
            None => {},
        }
    }
    while i < count
        invariant
            i <= count,
            before == old(stream)@,
            start == before.remaining(),
            mark@ == before.pos,
            before.reads_to(stream@, stream@.remaining()),
            take_list(start, count as nat, u32_taker()) == (match take_list(
                stream@.remaining(),
                (count - i) as nat,
                u32_taker(),
            ) {
                Some((more, rest)) => Some((out@ + more, rest)),
                None => None,
            }),
        decreases count - i,
    {
        match stream.read_u32() {
            Ok(element) => {
                let ghost so_far = out@;
                let ghost shown = element;
                out.push(element);
                i = i + 1;
                proof {
                    assert(out@ =~= so_far.push(shown));
                    match take_list(stream@.remaining(), (count - i) as nat, u32_taker()) {
                        Some((more, rest)) => {
                            assert(so_far + (seq![shown] + more) =~= out@ + more);
                        },
                        None => {},
                    }
                }
            },
            Err(e) => {
                assert(stream@.bits == before.bits);
                stream.rewind(mark);
                assert(stream@ == before);
                return Err(e);
            },
        }
    }
    proof {
        assert(out@ + Seq::<u32>::empty() =~= out@);
    }
    Ok(out)
}

/// Writes 32-bit numbers, one after the other.
pub fn write_u32_list(stream: &mut BitStream, list: &Vec<u32>)
    requires
        old(stream)@.writable(),
    ensures
        final(stream)@ == old(stream)@.write(list_bits(list@, u32_bits())),
        final(stream)@.writable(),
        old(stream)@.at_end() ==> final(stream)@.at_end() && final(stream)@.written() == old(
            stream,
        )@.written() + list_bits(list@, u32_bits()),
{
    let ghost before = stream@;
    let ghost elements = list@;
    let mut i: usize = 0;
    proof {
        assert(list_bits(elements.take(0), u32_bits()) =~= Seq::<bool>::empty());
    }
    while i < list.len()
        invariant
            i <= list.len(),
            elements == list@,
            elements.len() == list@.len(),
            before.writable(),
            stream@.writable(),
            stream@ == before.write(list_bits(elements.take(i as int), u32_bits())),
        decreases list.len() - i,
    {
        stream.write_u32(list[i]);
        proof {
            lemma_write_write(
                before,
                list_bits(elements.take(i as int), u32_bits()),
                int_bits(elements[i as int] as nat, 32),
            );
            lemma_list_bits_push(elements.take(i as int), elements[i as int], u32_bits());
            assert(elements.take(i as int).push(elements[i as int]) =~= elements.take(i + 1));
        }
        i = i + 1;
    }
    proof {
        assert(elements.take(i as int) =~= elements);
        if before.at_end() {
            lemma_write_at_end(before, list_bits(elements, u32_bits()));
        }
    }
}

/// Reads `count` addresses with their ports.
pub fn read_endpoint_list(stream: &mut BitStream, count: usize) -> (r: Result<
    Vec<Endpoint>,
    Truncated,
>)
    ensures
        match take_list(old(stream)@.remaining(), count as nat, endpoint_taker()) {
            Some((elements, rest)) => (r matches Ok(list) && list@ == elements) && old(
                stream,
            )@.reads_to(final(stream)@, rest),
            None => r is Err && final(stream)@ == old(stream)@,
        },
{
    let ghost before = stream@;
    let ghost start = before.remaining();
    let mark = stream.mark();
    let mut out: Vec<Endpoint> = Vec::new();
    let mut i: usize = 0;
    proof {
        assert(out@ + Seq::<Endpoint>::empty() =~= Seq::<Endpoint>::empty());
        match take_list(start, count as nat, endpoint_taker()) {
            Some((elements, rest)) => {
                assert(out@ + elements =~= elements);
            },
            None => {},
        }
    }
    while i < count
        invariant
            i <= count,
            before == old(stream)@,
            start == before.remaining(),
            mark@ == before.pos,
            before.reads_to(stream@, stream@.remaining()),
            take_list(start, count as nat, endpoint_taker()) == (match take_list(
                stream@.remaining(),
                (count - i) as nat,
                endpoint_taker(),
            ) {
                Some((more, rest)) => Some((out@ + more, rest)),
                None => None,
            }),
        decreases count - i,
    {
        match read_address_and_port(stream) {
            Ok(element) => {
                let ghost so_far = out@;
                let ghost shown = element;
                out.push(element);
                i = i + 1;
                proof {
                    assert(out@ =~= so_far.push(shown));
                    match take_list(stream@.remaining(), (count - i) as nat, endpoint_taker()) {
                        Some((more, rest)) => {
                            assert(so_far + (seq![shown] + more) =~= out@ + more);
                        },
                        None => {},
                    }
                }
            },
            Err(e) => {
                assert(stream@.bits == before.bits);
                stream.rewind(mark);
                assert(stream@ == before);
                return Err(e);
            },
        }
    }
    proof {
        assert(out@ + Seq::<Endpoint>::empty() =~= out@);
    }
    Ok(out)
}

/// Writes addresses with their ports, one after the other.
pub fn write_endpoint_list(stream: &mut BitStream, list: &Vec<Endpoint>)
    requires
        old(stream)@.writable(),
    ensures
        final(stream)@ == old(stream)@.write(list_bits(list@, endpoint_encoder())),
        final(stream)@.writable(),
        old(stream)@.at_end() ==> final(stream)@.at_end() && final(stream)@.written() == old(
            stream,
        )@.written() + list_bits(list@, endpoint_encoder()),
{
    let ghost before = stream@;
    let ghost elements = list@;
    let mut i: usize = 0;
    proof {
        assert(list_bits(elements.take(0), endpoint_encoder()) =~= Seq::<bool>::empty());
    }
    while i < list.len()
        invariant
            i <= list.len(),
            elements == list@,
            elements.len() == list@.len(),
            before.writable(),
            stream@.writable(),
            stream@ == before.write(list_bits(elements.take(i as int), endpoint_encoder())),
        decreases list.len() - i,
    {
        write_address_and_port(stream, list[i]);
        proof {
            lemma_write_write(
                before,
                list_bits(elements.take(i as int), endpoint_encoder()),
                endpoint_bits(elements[i as int]),
            );
            lemma_list_bits_push(elements.take(i as int), elements[i as int], endpoint_encoder());
            assert(elements.take(i as int).push(elements[i as int]) =~= elements.take(i + 1));
        }
        i = i + 1;
    }
    proof {
        assert(elements.take(i as int) =~= elements);
        if before.at_end() {
            lemma_write_at_end(before, list_bits(elements, endpoint_encoder()));
        }
    }
}

/// Reads `count` texts, each byte by byte behind its length.
pub fn read_cstring_list(stream: &mut BitStream, count: usize) -> (r: Result<
    Vec<String>,
    Truncated,
>)
    ensures
        match take_list(old(stream)@.remaining(), count as nat, ctext_taker()) {
            Some((elements, rest)) => (r matches Ok(list) && texts_of(list@) == elements) && old(
                stream,
            )@.reads_to(final(stream)@, rest),
            None => r is Err && final(stream)@ == old(stream)@,
        },
{
    let ghost before = stream@;
    let ghost start = before.remaining();
    let mark = stream.mark();
    let mut out: Vec<String> = Vec::new();
    let mut i: usize = 0;
    proof {
        assert(texts_of(out@) + Seq::<Seq<char>>::empty() =~= Seq::<Seq<char>>::empty());
        match take_list(start, count as nat, ctext_taker()) {
            Some((elements, rest)) => {
                assert(texts_of(out@) + elements =~= elements);
            },
            None => {},
        }
    }
    while i < count
        invariant
            i <= count,
            before == old(stream)@,
            start == before.remaining(),
            mark@ == before.pos,
            before.reads_to(stream@, stream@.remaining()),
            take_list(start, count as nat, ctext_taker()) == (match take_list(
                stream@.remaining(),
                (count - i) as nat,
                ctext_taker(),
            ) {
                Some((more, rest)) => Some((texts_of(out@) + more, rest)),
                None => None,
            }),
        decreases count - i,
    {
        match stream.read_cstring() {
            Ok(element) => {
                let ghost so_far = texts_of(out@);
                let ghost shown = element@;
                out.push(element);
                i = i + 1;
                proof {
                    assert(texts_of(out@) =~= so_far.push(shown));
                    match take_list(stream@.remaining(), (count - i) as nat, ctext_taker()) {
                        Some((more, rest)) => {
                            assert(so_far + (seq![shown] + more) =~= texts_of(out@) + more);
                        },
                        None => {},
                    }
                }
            },
            Err(e) => {
                assert(stream@.bits == before.bits);
                stream.rewind(mark);
                assert(stream@ == before);
                return Err(e);
            },
        }
    }
    proof {
        assert(texts_of(out@) + Seq::<Seq<char>>::empty() =~= texts_of(out@));
    }
    Ok(out)
}

/// Writes texts of fewer than 256 characters, each byte by byte behind its length.
pub fn write_cstring_list(stream: &mut BitStream, list: &Vec<String>)
    requires
        old(stream)@.writable(),
        forall|i: int| 0 <= i < list@.len() ==> (#[trigger] list@[i])@.len() < 256,
    ensures
        final(stream)@ == old(stream)@.write(list_bits(texts_of(list@), ctext_encoder())),
        final(stream)@.writable(),
        old(stream)@.at_end() ==> final(stream)@.at_end() && final(stream)@.written() == old(
            stream,
        )@.written() + list_bits(texts_of(list@), ctext_encoder()),
{
    let ghost before = stream@;
    let ghost elements = texts_of(list@);
    let mut i: usize = 0;
    proof {
        assert(list_bits(elements.take(0), ctext_encoder()) =~= Seq::<bool>::empty());
    }
    while i < list.len()
        invariant
            i <= list.len(),
            elements == texts_of(list@),
            elements.len() == list@.len(),
            before.writable(),
            stream@.writable(),
            forall|i: int| 0 <= i < list@.len() ==> (#[trigger] list@[i])@.len() < 256,
            stream@ == before.write(list_bits(elements.take(i as int), ctext_encoder())),
        decreases list.len() - i,
    {
        stream.write_cstring(&list[i]);
        proof {
            lemma_write_write(
                before,
                list_bits(elements.take(i as int), ctext_encoder()),
                ctext_bits(elements[i as int]),
            );
            lemma_list_bits_push(elements.take(i as int), elements[i as int], ctext_encoder());
            assert(elements.take(i as int).push(elements[i as int]) =~= elements.take(i + 1));
        }
        i = i + 1;
    }
    proof {
        assert(elements.take(i as int) =~= elements);
        if before.at_end() {
            lemma_write_at_end(before, list_bits(elements, ctext_encoder()));
        }
    }
}

/// Reads `count` texts in the Huffman code.
pub fn read_string_list(stream: &mut BitStream, count: usize, huffman: &HuffmanProcessor) -> (r:
    Result<Vec<String>, Truncated>)
    ensures
        match take_list(old(stream)@.remaining(), count as nat, text_taker()) {
            Some((elements, rest)) => (r matches Ok(list) && texts_of(list@) == elements) && old(
                stream,
            )@.reads_to(final(stream)@, rest),
            None => r is Err && final(stream)@ == old(stream)@,
        },
{
    let ghost before = stream@;
    let ghost start = before.remaining();
    let mark = stream.mark();
    let mut out: Vec<String> = Vec::new();
    let mut i: usize = 0;
    proof {
        assert(texts_of(out@) + Seq::<Seq<char>>::empty() =~= Seq::<Seq<char>>::empty());
        match take_list(start, count as nat, text_taker()) {
            Some((elements, rest)) => {
                assert(texts_of(out@) + elements =~= elements);
            },
            None => {},
        }
    }
    while i < count
        invariant
            i <= count,
            before == old(stream)@,
            start == before.remaining(),
            mark@ == before.pos,
            before.reads_to(stream@, stream@.remaining()),
            take_list(start, count as nat, text_taker()) == (match take_list(
                stream@.remaining(),
                (count - i) as nat,
                text_taker(),
            ) {
                Some((more, rest)) => Some((texts_of(out@) + more, rest)),
                None => None,
            }),
        decreases count - i,
    {
        match stream.read_string(huffman) {
            Ok(element) => {
                let ghost so_far = texts_of(out@);
                let ghost shown = element@;
                out.push(element);
                i = i + 1;
                proof {
                    assert(texts_of(out@) =~= so_far.push(shown));
                    match take_list(stream@.remaining(), (count - i) as nat, text_taker()) {
                        Some((more, rest)) => {
                            assert(so_far + (seq![shown] + more) =~= texts_of(out@) + more);
                        },
                        None => {},
                    }
                }
            },
            Err(e) => {
                assert(stream@.bits == before.bits);
                stream.rewind(mark);
                assert(stream@ == before);
                return Err(e);
            },
        }
    }
    proof {
        assert(texts_of(out@) + Seq::<Seq<char>>::empty() =~= texts_of(out@));
    }
    Ok(out)
}

/// Writes texts of at most 255 characters in the Huffman code.
pub fn write_string_list(stream: &mut BitStream, list: &Vec<String>, huffman: &HuffmanProcessor)
    requires
        old(stream)@.writable(),
        forall|i: int| 0 <= i < list@.len() ==> (#[trigger] list@[i])@.len() <= 255,
    ensures
        final(stream)@ == old(stream)@.write(list_bits(texts_of(list@), text_encoder())),
        final(stream)@.writable(),
        old(stream)@.at_end() ==> final(stream)@.at_end() && final(stream)@.written() == old(
            stream,
        )@.written() + list_bits(texts_of(list@), text_encoder()),
{
    let ghost before = stream@;
    let ghost elements = texts_of(list@);
    let mut i: usize = 0;
    proof {
        assert(list_bits(elements.take(0), text_encoder()) =~= Seq::<bool>::empty());
    }
    while i < list.len()
        invariant
            i <= list.len(),
            elements == texts_of(list@),
            elements.len() == list@.len(),
            before.writable(),
            stream@.writable(),
            forall|i: int| 0 <= i < list@.len() ==> (#[trigger] list@[i])@.len() <= 255,
            stream@ == before.write(list_bits(elements.take(i as int), text_encoder())),
        decreases list.len() - i,
    {
        stream.write_string(huffman, &list[i]);
        proof {
            lemma_write_write(
                before,
                list_bits(elements.take(i as int), text_encoder()),
                text_bits(elements[i as int]),
            );
            lemma_list_bits_push(elements.take(i as int), elements[i as int], text_encoder());
            assert(elements.take(i as int).push(elements[i as int]) =~= elements.take(i + 1));
        }
        i = i + 1;
    }
    proof {
        assert(elements.take(i as int) =~= elements);
        if before.at_end() {
            lemma_write_at_end(before, list_bits(elements, text_encoder()));
        }
    }
}

} // verus!
