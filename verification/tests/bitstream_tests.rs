use dnet::bitstream::{BitStream, Truncated};
use dnet::unit::{anchor_of_code, code_of_anchor, largest_code, Anchor};

fn reader_of(writer: BitStream) -> BitStream {
    BitStream::from_buffer(writer.into_bytes())
}

#[test]
fn int_round_trip_every_shift_and_width() {
    let samples: [u32; 6] = [0, 1, 0x5555_5555, 0xAAAA_AAAA, 0xFFFF_FFFF, 0x1234_5678];
    for shift in 0..8usize {
        for width in 1..=32usize {
            for sample in samples {
                let value = if width == 32 { sample } else { sample & ((1u32 << width) - 1) };
                let mut writer = BitStream::new();
                writer.write_int(0, shift);
                assert_eq!(writer.write_int(value, width), value);
                writer.write_flag(true);
                let mut reader = reader_of(writer);
                assert_eq!(reader.read_int(shift), Ok(0));
                assert_eq!(reader.read_int(width), Ok(value));
                assert_eq!(reader.read_flag(), Ok(true));
            }
        }
    }
}

#[test]
fn write_int_keeps_only_the_low_bits() {
    let mut writer = BitStream::new();
    writer.write_int(0xFFFF_FFFF, 5);
    writer.write_int(0, 3);
    assert_eq!(writer.into_bytes(), vec![0x1F]);
}

#[test]
fn flag_round_trip() {
    for value in [false, true] {
        let mut writer = BitStream::new();
        assert_eq!(writer.write_flag(value), value);
        let mut reader = reader_of(writer);
        assert_eq!(reader.read_flag(), Ok(value));
    }
}

#[test]
fn bits_are_little_endian() {
    let mut writer = BitStream::new();
    writer.write_flag(true);
    writer.write_int(0x1234, 16);
    // bit 0 is the flag; 0x1234 follows from bit 1 on, low bit first
    assert_eq!(writer.into_bytes(), vec![0x69, 0x24, 0x00]);
    let mut writer = BitStream::new();
    writer.write_u32(0x0403_0201);
    assert_eq!(writer.into_bytes(), vec![1, 2, 3, 4]);
}

#[test]
fn exact_multiple_of_eight_writes_eight_bits_last() {
    let mut writer = BitStream::new();
    writer.write_int(0xABCD, 16);
    assert_eq!(writer.get_bit_pos(), 16);
    assert_eq!(writer.into_bytes(), vec![0xCD, 0xAB]);
}

#[test]
fn into_bytes_drops_the_spare_byte_only_on_a_boundary() {
    let writer = BitStream::new();
    assert_eq!(writer.into_bytes(), Vec::<u8>::new());
    let mut writer = BitStream::new();
    writer.write_u8(7);
    assert_eq!(writer.len(), 2);
    assert_eq!(writer.into_bytes(), vec![7]);
    let mut writer = BitStream::new();
    writer.write_u8(7);
    writer.write_flag(true);
    assert_eq!(writer.into_bytes(), vec![7, 1]);
}

#[test]
fn reads_past_the_end_are_truncated_and_leave_the_cursor() {
    let mut reader = BitStream::from_buffer(vec![0xFF, 0x01]);
    assert_eq!(reader.read_int(12), Ok(0x1FF));
    assert_eq!(reader.get_bit_pos(), 12);
    assert_eq!(reader.read_u8(), Err(Truncated));
    assert_eq!(reader.get_bit_pos(), 12);
    assert_eq!(reader.read_int(4), Ok(0));
    assert_eq!(reader.read_flag(), Err(Truncated));
    assert_eq!(reader.read_int(0), Ok(0));
    let mut empty = BitStream::from_buffer(vec![]);
    assert_eq!(empty.read_u32(), Err(Truncated));
    assert_eq!(empty.read_bits(0), Ok(0));
}

#[test]
fn cursor_is_absolute() {
    let mut reader = BitStream::from_buffer(vec![0b1010_0101, 0xF0]);
    reader.set_bit_pos(4);
    assert_eq!(reader.get_bit_pos(), 4);
    assert_eq!(reader.read_u8(), Ok(0x0A));
    reader.reset();
    assert_eq!(reader.read_u16(), Ok(0xF0A5));
    assert_eq!(reader.as_bytes(), &[0b1010_0101, 0xF0]);
    reader.set_bit_pos(1000);
    assert_eq!(reader.read_flag(), Err(Truncated));
}

#[test]
fn rewriting_after_moving_the_cursor_back() {
    let mut stream = BitStream::new();
    stream.write_flag(true);
    stream.write_flag(true);
    stream.write_flag(true);
    stream.set_bit_pos(1);
    stream.write_flag(false);
    // the byte is cleared from the new cursor on
    assert_eq!(stream.as_bytes(), &[0b0000_0001]);
    stream.set_bit_pos(0);
    assert_eq!(stream.read_int(2), Ok(1));
}

#[test]
fn unsigned_shorthands_round_trip_unaligned() {
    let mut writer = BitStream::new();
    writer.write_flag(true);
    assert_eq!(writer.write_u8(0xAB), 0xAB);
    assert_eq!(writer.write_u16(0xCDEF), 0xCDEF);
    assert_eq!(writer.write_u32(0x0123_4567), 0x0123_4567);
    let mut reader = reader_of(writer);
    assert_eq!(reader.read_flag(), Ok(true));
    assert_eq!(reader.read_u8(), Ok(0xAB));
    assert_eq!(reader.read_u16(), Ok(0xCDEF));
    assert_eq!(reader.read_u32(), Ok(0x0123_4567));
}

#[test]
fn signed_int_is_sign_and_magnitude() {
    for value in [0i32, 1, -1, 5, -5, 127, -127] {
        let mut writer = BitStream::new();
        assert_eq!(writer.write_signed_int(value, 8), value);
        assert_eq!(writer.get_bit_pos(), 8);
        let mut reader = reader_of(writer);
        assert_eq!(reader.read_signed_int(8), Ok(value));
    }
    let mut writer = BitStream::new();
    writer.write_signed_int(-3, 4);
    writer.write_int(0, 4);
    assert_eq!(writer.into_bytes(), vec![0b0000_0111]);
}

#[test]
fn negative_zero_reads_as_zero_and_is_never_written() {
    let mut writer = BitStream::new();
    writer.write_flag(true);
    writer.write_int(0, 7);
    let mut reader = reader_of(writer);
    assert_eq!(reader.read_signed_int(8), Ok(0));
    let mut writer = BitStream::new();
    writer.write_signed_int(0, 8);
    assert_eq!(writer.into_bytes(), vec![0]);
}

#[test]
fn ranged_takes_the_bits_of_the_range() {
    // 10..=17 holds eight values: three bits
    let mut writer = BitStream::new();
    assert_eq!(writer.write_ranged_u32(15, 10, 17), 15);
    assert_eq!(writer.get_bit_pos(), 3);
    let mut reader = reader_of(writer);
    assert_eq!(reader.read_ranged_u32(10, 17), Ok(15));
    // nine values: four bits
    let mut writer = BitStream::new();
    writer.write_ranged_u32(18, 10, 18);
    assert_eq!(writer.get_bit_pos(), 4);
    // one value: no bit at all
    let mut writer = BitStream::new();
    writer.write_ranged_u32(7, 7, 7);
    assert_eq!(writer.get_bit_pos(), 0);
    let mut reader = BitStream::from_buffer(vec![]);
    assert_eq!(reader.read_ranged_u32(7, 7), Ok(7));
    // the full range: thirty-two bits
    let mut writer = BitStream::new();
    writer.write_ranged_u32(0xDEAD_BEEF, 0, 0xFFFF_FFFF);
    assert_eq!(writer.get_bit_pos(), 32);
    let mut reader = reader_of(writer);
    assert_eq!(reader.read_ranged_u32(0, 0xFFFF_FFFF), Ok(0xDEAD_BEEF));
}

fn cussed_length(value: u32) -> usize {
    let mut writer = BitStream::new();
    assert_eq!(writer.write_cussed_u32(value), value);
    let length = writer.get_bit_pos();
    let mut reader = reader_of(writer);
    assert_eq!(reader.read_cussed_u32(), Ok(value));
    length
}

#[test]
fn cussed_picks_the_smallest_bucket() {
    assert_eq!(cussed_length(0), 1);
    assert_eq!(cussed_length(1), 2 + 4);
    assert_eq!(cussed_length(0xF), 2 + 4);
    assert_eq!(cussed_length(0x10), 3 + 8);
    assert_eq!(cussed_length(0xFF), 3 + 8);
    assert_eq!(cussed_length(0x100), 4 + 16);
    assert_eq!(cussed_length(0xFFFF), 4 + 16);
    assert_eq!(cussed_length(0x1_0000), 5 + 24);
    assert_eq!(cussed_length(0xFF_FFFF), 5 + 24);
    assert_eq!(cussed_length(0x100_0000), 5 + 32);
    assert_eq!(cussed_length(0xFFFF_FFFF), 5 + 32);
}

#[test]
fn cussed_truncated_leaves_the_cursor() {
    let mut writer = BitStream::new();
    writer.write_cussed_u32(0x1234);
    let mut bytes = writer.into_bytes();
    bytes.pop();
    let mut reader = BitStream::from_buffer(bytes);
    assert_eq!(reader.read_cussed_u32(), Err(Truncated));
    assert_eq!(reader.get_bit_pos(), 0);
}

#[test]
fn anchors_have_codes_of_their_own() {
    assert_eq!(largest_code(1), 1);
    assert_eq!(largest_code(8), 255);
    assert_eq!(largest_code(32), 0xFFFF_FFFF);
    assert_eq!(code_of_anchor(Anchor::Zero, 8), 0);
    assert_eq!(code_of_anchor(Anchor::Half, 8), 128);
    assert_eq!(code_of_anchor(Anchor::One, 8), 255);
    assert_eq!(code_of_anchor(Anchor::Half, 32), 0x8000_0000);
    for bit_count in 2..=32usize {
        for anchor in [Anchor::Zero, Anchor::Half, Anchor::One] {
            assert_eq!(anchor_of_code(code_of_anchor(anchor, bit_count), bit_count), Some(anchor));
        }
    }
    assert_eq!(anchor_of_code(127, 8), None);
    assert_eq!(anchor_of_code(129, 8), None);
    // in one bit the code 1 stands for one half and for one: one half comes first
    assert_eq!(code_of_anchor(Anchor::One, 1), 1);
    assert_eq!(anchor_of_code(1, 1), Some(Anchor::Half));
}
