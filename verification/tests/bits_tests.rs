use rustbufrkit::bits::{BitReader, missing_bits_pattern};

#[test]
fn test_read_u32_msb_first() {
    // 0b10110100 0b01100001
    let mut br = BitReader::new(vec![0xB4, 0x61]);
    assert_eq!(1, br.read_u32(1).unwrap());
    assert_eq!(0, br.read_u32(1).unwrap());
    assert_eq!(0b1101, br.read_u32(4).unwrap());
    // Cursor now at bit 6: remaining bits are 00 01100001.
    assert_eq!(0b0001100001, br.read_u32(10).unwrap());
    assert!(br.read_u32(1).is_err());
}

#[test]
fn test_read_u32_across_bytes() {
    let mut br = BitReader::new(vec![0x12, 0x34, 0x56, 0x78]);
    assert_eq!(0x12345678, br.read_u32(32).unwrap());
}

#[test]
fn test_read_bool() {
    let mut br = BitReader::new(vec![0x80]);
    assert_eq!(true, br.read_bool().unwrap());
    assert_eq!(false, br.read_bool().unwrap());
}

#[test]
fn test_read_bytes_aligned_and_shifted() {
    let mut br = BitReader::new(vec![0xAB, 0xCD, 0xEF]);
    let v = br.read_bytes(2).unwrap();
    assert_eq!(vec![0xAB, 0xCD], v);

    // Shift the cursor by 4 bits, then read one byte across the
    // boundary: 0xB C of the remaining 0xBC DE.
    let mut br = BitReader::new(vec![0xAB, 0xCD, 0xEF]);
    br.read_u32(4).unwrap();
    let v = br.read_bytes(1).unwrap();
    assert_eq!(vec![0xBC], v);
}

#[test]
fn test_read_raw_left_justified() {
    // Reading 12 bits of 0xAB 0xCD packs them as 0xAB 0xC0: the
    // trailing nibble is left-justified in its byte.
    let mut br = BitReader::new(vec![0xAB, 0xCD]);
    let v = br.read_raw(12).unwrap();
    assert_eq!(vec![0xAB, 0xC0], v);
}

#[test]
fn test_read_past_end_is_error_not_panic() {
    let mut br = BitReader::new(vec![0x01]);
    assert!(br.read_u32(9).is_err());
    // The failed read leaves the cursor alone.
    assert_eq!(0x01, br.read_u32(8).unwrap());
}

#[test]
fn test_missing_bits_pattern_values() {
    assert_eq!(None, missing_bits_pattern(0));
    assert_eq!(Some(1), missing_bits_pattern(1));
    assert_eq!(Some(255), missing_bits_pattern(8));
    assert_eq!(Some(8191), missing_bits_pattern(13));
    assert_eq!(Some(u64::MAX), missing_bits_pattern(64));
    assert_eq!(None, missing_bits_pattern(65));
}

#[test]
fn test_missing_value_round_trip() {
    // Reading nbits of an all-ones buffer yields exactly the
    // "missing" pattern for that width.
    let mut br = BitReader::new(vec![0xFF; 8]);
    let v = br.read_u32(13).unwrap();
    assert_eq!(missing_bits_pattern(13).unwrap(), v as u64);

    let mut br = BitReader::new(vec![0xFF; 8]);
    let v = br.read_u32(32).unwrap();
    assert_eq!(missing_bits_pattern(32).unwrap(), v as u64);
}
