use dnet::bitstream::{BitStream, Truncated};
use dnet::huffman::{HuffLeaf, HuffNode, HuffWrap, HuffmanProcessor, CHAR_FREQS};

fn written(huffman: &HuffmanProcessor, text: &str) -> (usize, Vec<u8>) {
    let mut stream = BitStream::new();
    assert_eq!(huffman.write_string(&mut stream, &text.to_string()), text.chars().count());
    (stream.get_bit_pos(), stream.into_bytes())
}

#[test]
fn frequency_table_holds_the_fixed_counts() {
    assert_eq!(CHAR_FREQS.len(), 256);
    assert_eq!(CHAR_FREQS[9], 329);
    assert_eq!(CHAR_FREQS[32], 2809);
    assert_eq!(CHAR_FREQS[101], 2872);
    assert_eq!(CHAR_FREQS[126], 68);
    assert_eq!(CHAR_FREQS[0], 0);
    assert_eq!(CHAR_FREQS[255], 0);
    let total: u32 = CHAR_FREQS.iter().map(|f| f + 1).sum();
    assert_eq!(total, 32782);
}

#[test]
fn codes_of_common_bytes() {
    let huffman = HuffmanProcessor::new();
    assert_eq!(huffman.code_of(b' '), (7, 4));
    assert_eq!(huffman.code_of(b'e'), (15, 4));
    assert_eq!(huffman.code_of(b'a'), (9, 4));
    assert_eq!(huffman.code_of(b'A'), (157, 8));
    assert_eq!(huffman.code_of(9), (75, 7));
    assert_eq!(huffman.code_of(0), (4622, 15));
    assert_eq!(huffman.code_of(255), (12814, 15));
}

#[test]
fn code_lengths_are_between_one_and_twenty_four() {
    let huffman = HuffmanProcessor::new();
    let mut longest = 0;
    let mut shortest = 255;
    for symbol in 0..=255u8 {
        let (code, bits) = huffman.code_of(symbol);
        assert!(bits >= 1 && bits <= 24);
        assert!((code as u64) < (1u64 << bits));
        longest = longest.max(bits);
        shortest = shortest.min(bits);
    }
    assert_eq!(longest, 15);
    assert_eq!(shortest, 4);
}

#[test]
fn no_code_is_a_prefix_of_another() {
    let huffman = HuffmanProcessor::new();
    for first in 0..=255u8 {
        let (code, bits) = huffman.code_of(first);
        for second in 0..=255u8 {
            if first != second {
                let (other, other_bits) = huffman.code_of(second);
                if bits <= other_bits {
                    assert_ne!(other & ((1u32 << bits) - 1), code);
                }
            }
        }
    }
}

#[test]
fn compressed_text_is_bit_exact() {
    let huffman = HuffmanProcessor::new();
    assert_eq!(written(&huffman, "hello world"), (61, vec![23, 230, 31, 67, 175, 80, 27, 1]));
    assert_eq!(
        written(&huffman, "GameConnection"),
        (77, vec![29, 98, 19, 253, 106, 74, 244, 24, 88, 9])
    );
    assert_eq!(written(&huffman, "e"), (13, vec![3, 30]));
}

#[test]
fn text_that_does_not_compress_goes_out_plain() {
    let huffman = HuffmanProcessor::new();
    assert_eq!(written(&huffman, "\u{0}\u{1}\u{2}"), (33, vec![6, 0, 2, 4, 0]));
    assert_eq!(written(&huffman, ""), (9, vec![0, 0]));
}

#[test]
fn compressed_length_is_code_bits_plus_nine() {
    let huffman = HuffmanProcessor::new();
    let text = "the quick brown fox";
    let bits: usize = text.bytes().map(|b| huffman.code_of(b).1 as usize).sum();
    assert!(bits < 8 * text.len());
    assert_eq!(written(&huffman, text).0, bits + 9);
}

#[test]
fn no_buffer_writes_a_flag_and_a_zero_length() {
    let huffman = HuffmanProcessor::new();
    let mut stream = BitStream::new();
    assert_eq!(huffman.write_buffer(&mut stream, None, 256), 0);
    assert_eq!(stream.get_bit_pos(), 9);
    assert_eq!(stream.into_bytes(), vec![0, 0]);
}

#[test]
fn buffer_round_trip() {
    let huffman = HuffmanProcessor::new();
    let mut samples: Vec<Vec<u8>> = vec![
        vec![],
        vec![0],
        b"hello world".to_vec(),
        (0..=254u8).collect(),
        vec![b'e'; 255],
        vec![255; 255],
    ];
    let mut seed = 12345u32;
    for length in [1usize, 7, 64, 200, 255] {
        let mut bytes = Vec::new();
        for _ in 0..length {
            seed = seed.wrapping_mul(1664525).wrapping_add(1013904223);
            bytes.push(if seed & 0x8000 != 0 { (seed >> 24) as u8 } else { b'a' + ((seed >> 20) % 26) as u8 });
        }
        samples.push(bytes);
    }
    for shift in 0..8usize {
        for sample in &samples {
            let mut stream = BitStream::new();
            stream.write_int(0, shift);
            assert_eq!(huffman.write_buffer(&mut stream, Some(sample.as_slice()), 256), sample.len());
            stream.write_u8(0xA5);
            let mut reader = BitStream::from_buffer(stream.into_bytes());
            reader.read_int(shift).unwrap();
            let mut buffer = vec![0xEEu8; 256];
            assert_eq!(huffman.read_buffer(&mut reader, &mut buffer), Ok(sample.len()));
            assert_eq!(&buffer[..sample.len()], sample.as_slice());
            assert!(buffer[sample.len()..].iter().all(|b| *b == 0xEE));
            assert_eq!(reader.read_u8(), Ok(0xA5));
        }
    }
}

#[test]
fn write_buffer_cuts_at_max_len() {
    let huffman = HuffmanProcessor::new();
    let mut stream = BitStream::new();
    assert_eq!(huffman.write_buffer(&mut stream, Some(b"hello world"), 5), 5);
    let mut reader = BitStream::from_buffer(stream.into_bytes());
    assert_eq!(huffman.read_string(&mut reader), Ok("hello".to_string()));
}

#[test]
fn read_buffer_cuts_the_length_to_the_buffer() {
    let huffman = HuffmanProcessor::new();
    let mut stream = BitStream::new();
    huffman.write_buffer(&mut stream, Some(b"hello world"), 256);
    let mut reader = BitStream::from_buffer(stream.into_bytes());
    let mut buffer = vec![0u8; 4];
    assert_eq!(huffman.read_buffer(&mut reader, &mut buffer), Ok(4));
    assert_eq!(buffer, b"hell".to_vec());
}

#[test]
fn string_round_trip_through_the_stream() {
    let huffman = HuffmanProcessor::new();
    let text = "Marble Blast \u{e9}\u{ff}".to_string();
    let mut stream = BitStream::new();
    stream.write_flag(true);
    stream.write_string(&huffman, &text);
    stream.write_cstring(&text);
    stream.write_long_cstring(&text);
    let mut reader = BitStream::from_buffer(stream.into_bytes());
    assert_eq!(reader.read_flag(), Ok(true));
    assert_eq!(reader.read_string(&huffman), Ok(text.clone()));
    assert_eq!(reader.read_cstring(), Ok(text.clone()));
    assert_eq!(reader.read_long_cstring(), Ok(text));
}

#[test]
fn cstring_layout() {
    let mut stream = BitStream::new();
    stream.write_cstring(&"abc".to_string());
    assert_eq!(stream.into_bytes(), vec![3, b'a', b'b', b'c']);
    let mut stream = BitStream::new();
    stream.write_long_cstring(&"abc".to_string());
    assert_eq!(stream.into_bytes(), vec![3, 0, b'a', b'b', b'c']);
    let long: String = std::iter::repeat('x').take(300).collect();
    let mut stream = BitStream::new();
    stream.write_long_cstring(&long);
    let bytes = stream.into_bytes();
    assert_eq!(bytes.len(), 302);
    assert_eq!(&bytes[..2], &[0x2C, 0x01]);
    let mut reader = BitStream::from_buffer(bytes);
    assert_eq!(reader.read_long_cstring(), Ok(long));
}

#[test]
fn characters_above_255_are_cut_to_their_low_byte() {
    let mut stream = BitStream::new();
    stream.write_cstring(&"\u{141}".to_string());
    assert_eq!(stream.into_bytes(), vec![1, 0x41]);
}

#[test]
fn truncated_strings_leave_the_cursor() {
    let huffman = HuffmanProcessor::new();
    let mut stream = BitStream::new();
    stream.write_string(&huffman, &"hello world".to_string());
    let mut bytes = stream.into_bytes();
    bytes.truncate(4);
    let mut reader = BitStream::from_buffer(bytes);
    assert_eq!(reader.read_string(&huffman), Err(Truncated));
    assert_eq!(reader.get_bit_pos(), 0);
    let mut reader = BitStream::from_buffer(vec![5, b'a', b'b']);
    assert_eq!(reader.read_cstring(), Err(Truncated));
    assert_eq!(reader.get_bit_pos(), 0);
    let mut reader = BitStream::from_buffer(vec![5, 0, b'a', b'b']);
    assert_eq!(reader.read_long_cstring(), Err(Truncated));
    assert_eq!(reader.get_bit_pos(), 0);
    let mut reader = BitStream::from_buffer(vec![2, b'a', b'b']);
    assert_eq!(reader.read_bytes(4), Err(Truncated));
    assert_eq!(reader.read_bytes(3), Ok(vec![2, b'a', b'b']));
}

#[test]
fn wraps_point_at_leaves_and_nodes() {
    let nodes = vec![HuffNode { pop: 11, index0: -1, index1: -2 }];
    let leaves = vec![HuffLeaf { pop: 5, num_bits: 0, symbol: 0, code: 0 }];
    let mut wrap = HuffWrap::new();
    assert_eq!(wrap, HuffWrap::Unset);
    wrap.set_leaf(0);
    assert_eq!(wrap, HuffWrap::Leaf(0));
    assert_eq!(wrap.getPop(&nodes, &leaves), 5);
    wrap.set_node(0);
    assert_eq!(wrap, HuffWrap::Node(0));
    assert_eq!(wrap.getPop(&nodes, &leaves), 11);
}
