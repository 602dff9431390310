//! Text on the wire: one byte for each character.

use vstd::prelude::*;
use vstd::std_specs::iter::IteratorSpec;

verus! {

/// The bytes that a text goes out as: each character's number, cut to eight bits.
pub open spec fn text_bytes(text: Seq<char>) -> Seq<u8> {
    Seq::new(text.len(), |i: int| text[i] as u8)
}

/// The text that bytes come in as: the character of each byte's number.
pub open spec fn bytes_text(bytes: Seq<u8>) -> Seq<char> {
    Seq::new(bytes.len(), |i: int| bytes[i] as char)
}

/// No character of the text is above 255, so that its bytes give it back.
pub open spec fn single_byte(text: Seq<char>) -> bool {
    forall|i: int| 0 <= i < text.len() ==> (#[trigger] text[i]) as int <= 0xFF
}

/// `String::push` of std: the character is appended to the text.
#[verifier::external_body]
fn push_char(text: &mut String, c: char)
    ensures
        final(text)@ == old(text)@.push(c),
{
    text.push(c)
}

/// The number of characters of a text.
pub fn text_len(text: &String) -> (len: usize)
    ensures
        len == text@.len(),
{
    text.as_str().unicode_len()
}

/// Whether every text of a list has fewer than `limit` characters.
pub fn all_shorter(list: &Vec<String>, limit: usize) -> (r: bool)
    ensures
        r == (forall|i: int| 0 <= i < list@.len() ==> (#[trigger] list@[i])@.len() < limit),
{
    let mut i: usize = 0;
    while i < list.len()
        invariant
            i <= list.len(),
            forall|k: int| 0 <= k < i ==> (#[trigger] list@[k])@.len() < limit,
        decreases list.len() - i,
    {
        if text_len(&list[i]) >= limit {
            return false;
        }
        i = i + 1;
    }
    true
}

/// The bytes of a text, one for each character.
pub fn encode_text(text: &str) -> (bytes: Vec<u8>)
    ensures
        bytes@ == text_bytes(text@),
{
    broadcast use {vstd::string::axiom_spec_iter, vstd::string::next_postcondition};

    let mut bytes: Vec<u8> = Vec::new();
    let mut chars = text.chars();
    let ghost mut done: int = 0;
    loop
        invariant
            0 <= done <= text@.len(),
            chars.obeys_prophetic_iter_laws(),
            chars.remaining() == text@.skip(done),
            bytes@ == text_bytes(text@.take(done)),
        ensures
            bytes@ == text_bytes(text@),
        decreases text@.len() - done,
    {
        match chars.next() {
            Some(c) => {
                bytes.push(#[verifier::truncate] (c as u8));
                proof {
                    assert(text@.skip(done).drop_first() =~= text@.skip(done + 1));
                    assert(bytes@ =~= text_bytes(text@.take(done + 1)));
                    done = done + 1;
                }
            },
            None => {
                proof {
                    assert(text@.take(done) =~= text@);
                }
                break;
            },
        }
    }
    bytes
}

/// The text of bytes, one character for each.
pub fn decode_text(bytes: &[u8]) -> (text: String)
    ensures
        text@ == bytes_text(bytes@),
{
    let mut text = String::new();
    let mut i: usize = 0;
    while i < bytes.len()
        invariant
            i <= bytes.len(),
            text@ == bytes_text(bytes@.take(i as int)),
        decreases bytes.len() - i,
    {
        push_char(&mut text, bytes[i] as char);
        i = i + 1;
        proof {
            assert(text@ =~= bytes_text(bytes@.take(i as int)));
        }
    }
    proof {
        assert(bytes@.take(i as int) =~= bytes@);
    }
    text
}

proof fn lemma_char_round_trip(c: char)
    requires
        c as int <= 0xFF,
    ensures
        ((c as u8) as char) == c,
{
}

/// The bytes of a text of single-byte characters give the text back.
pub proof fn lemma_text_round_trip(text: Seq<char>)
    requires
        single_byte(text),
    ensures
        bytes_text(text_bytes(text)) == text,
{
    assert forall|i: int| 0 <= i < text.len() implies ((text[i] as u8) as char) == text[i] by {
        lemma_char_round_trip(text[i]);
    }
    assert(bytes_text(text_bytes(text)) =~= text);
}

/// The text of bytes goes out as those bytes.
pub proof fn lemma_bytes_round_trip(bytes: Seq<u8>)
    ensures
        text_bytes(bytes_text(bytes)) == bytes,
        single_byte(bytes_text(bytes)),
{
    assert(text_bytes(bytes_text(bytes)) =~= bytes);
}

} // verus!
