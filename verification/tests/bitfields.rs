use torrent_peer::bitfield::{add_bit, has_nonzero, have_bit, interest, BitfieldError};

#[test]
fn have_bit_counts_from_the_high_bit() {
    let bits = [0b1000_0001u8, 0b0100_0000];
    assert!(have_bit(&bits, 0));
    assert!(!have_bit(&bits, 1));
    assert!(have_bit(&bits, 7));
    assert!(have_bit(&bits, 9));
    assert!(!have_bit(&bits, 8));
}

#[test]
fn have_bit_beyond_the_field_is_false() {
    assert!(!have_bit(&[0xff], 8));
    assert!(!have_bit(&[], 0));
    assert!(!have_bit(&[0xff], u32::MAX));
}

#[test]
fn add_bit_marks_one_piece() {
    let mut bits = vec![0u8, 0];
    assert_eq!(add_bit(&mut bits, 10), Ok(()));
    assert_eq!(bits, vec![0, 0b0010_0000]);
    assert!(have_bit(&bits, 10));
    assert_eq!(add_bit(&mut bits, 10), Ok(()));
    assert_eq!(bits, vec![0, 0b0010_0000]);
    assert_eq!(add_bit(&mut bits, 0), Ok(()));
    assert_eq!(bits, vec![0x80, 0b0010_0000]);
}

#[test]
fn add_bit_out_of_range_fails_unchanged() {
    let mut bits = vec![0x0fu8];
    assert_eq!(add_bit(&mut bits, 8), Err(BitfieldError::IndexOutOfRange));
    assert_eq!(bits, vec![0x0f]);
}

#[test]
fn interest_is_what_they_have_and_i_lack() {
    assert_eq!(interest(&[0b1100_0000, 0xff], &[0b1010_0000, 0x0f]), Ok(vec![0b0010_0000, 0]));
    assert_eq!(interest(&[0xff], &[0xff]), Ok(vec![0]));
}

#[test]
fn interest_of_different_lengths_fails() {
    assert_eq!(interest(&[0], &[0, 0]), Err(BitfieldError::SizeMismatch));
}

#[test]
fn nonzero_detection() {
    assert!(!has_nonzero(&[]));
    assert!(!has_nonzero(&[0, 0, 0]));
    assert!(has_nonzero(&[0, 0, 4]));
}
