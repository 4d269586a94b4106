use powsearch::{
    add_blocks, add_blocks_checked, byte_to_bits, count_leading_zeros_in_block,
    find_nonce_for_difficulty, format_bit, format_bytes, generate_initial_pad_, hash, next_pad_,
    next_pad_assume_valid, validate_difficulty, PowError,
};

#[test]
fn known_hashes_are_good() {
    let h = hash(b"Hello World!");

    // The hex hash is 2ef7bde608ce5404e97d5f042f95f89f1c232871
    let known_result: [u8; 20] = [
        0x2e as u8, 0xf7 as u8, 0xbd as u8, 0xe6 as u8, 0x08 as u8, 0xce as u8, 0x54 as u8,
        0x04 as u8, 0xe9 as u8, 0x7d as u8, 0x5f as u8, 0x04 as u8, 0x2f as u8, 0x95 as u8,
        0xf8 as u8, 0x9f as u8, 0x1c as u8, 0x23 as u8, 0x28 as u8, 0x71 as u8,
    ];
    assert_eq!(h, known_result);
}

#[test]
fn difficulty_zero_accepts_initial_nonce() {
    let data = vec![123u8; 128];
    let nonce = find_nonce_for_difficulty(&data, 128, 0).unwrap();
    assert_eq!(nonce, vec![0u8; 128]);
}

#[test]
fn impossible_difficulty_exhausts() {
    let data = vec![123u8, 1u8, 2u8];
    let result = find_nonce_for_difficulty(&data, 3, 161);
    assert_eq!(result, Err(PowError::SearchExhausted));
}

#[test]
fn zero_width_search_exhausts() {
    let data: Vec<u8> = Vec::new();
    let result = find_nonce_for_difficulty(&data, 0, 1);
    assert_eq!(result, Err(PowError::SearchExhausted));
}

#[test]
fn search_finds_smallest_satisfying_nonce() {
    let data = vec![123u8; 4];
    let difficulty = 8;
    let nonce = find_nonce_for_difficulty(&data, 4, difficulty).unwrap();
    assert_eq!(nonce.len(), 4);

    // The accepted nonce meets the difficulty.
    let sum = add_blocks(&data, &nonce);
    let digest = hash(&sum);
    assert!(count_leading_zeros_in_block(&digest) >= difficulty);

    // Every nonce below it fails, so the accepted one is the smallest.
    let mut candidate = generate_initial_pad_(4);
    while candidate != nonce {
        let sum = add_blocks(&data, &candidate);
        let digest = hash(&sum);
        assert!(count_leading_zeros_in_block(&digest) < difficulty);
        candidate = next_pad_(candidate).expect("enumeration ended before the accepted nonce");
    }
}

#[test]
fn enumeration_counts_in_big_endian() {
    // Advancing the all-zero two-byte pad 300 times yields the big-endian
    // representation of 300.
    let mut pad = generate_initial_pad_(2);
    for _ in 0..300 {
        pad = next_pad_(pad).unwrap();
    }
    assert_eq!(pad, vec![0x01u8, 0x2cu8]);
}

#[test]
fn enumeration_exhausts_at_width_one() {
    let mut pad = generate_initial_pad_(1);
    for expected in 1u16..=255u16 {
        pad = next_pad_(pad).unwrap();
        assert_eq!(pad, vec![expected as u8]);
    }
    assert_eq!(next_pad_(pad), None);
}

#[test]
fn next_pad_assume_valid_advances() {
    assert_eq!(next_pad_assume_valid(vec![0u8, 255u8]), vec![1u8, 0u8]);
}

#[test]
fn adding_all_ff_blocks_wraps() {
    let result = add_blocks(&vec![255u8, 255u8, 255u8], &vec![255u8, 255u8, 255u8]);
    assert_eq!(result, vec![255u8, 255u8, 254u8]);
}

#[test]
fn add_blocks_is_commutative_on_samples() {
    let a = vec![0x12u8, 0xffu8, 0x7bu8];
    let b = vec![0xeeu8, 0x01u8, 0x99u8];
    assert_eq!(add_blocks(&a, &b), add_blocks(&b, &a));
}

#[test]
fn mismatched_lengths_are_rejected() {
    let result = add_blocks_checked(&vec![1u8], &vec![1u8, 2u8]);
    assert_eq!(result, Err(PowError::LengthMismatch));
    let ok = add_blocks_checked(&vec![0u8, 128u8], &vec![0u8, 128u8]);
    assert_eq!(ok, Ok(vec![1u8, 0u8]));
}

#[test]
fn oversized_difficulty_is_invalid() {
    assert_eq!(
        validate_difficulty(161, 20),
        Err(PowError::InvalidDifficulty)
    );
    assert_eq!(validate_difficulty(160, 20), Ok(()));
    assert_eq!(validate_difficulty(0, 20), Ok(()));
}

#[test]
fn empty_block_has_no_leading_zeros() {
    let empty: [u8; 0] = [];
    assert_eq!(count_leading_zeros_in_block(&empty), 0);
}

#[test]
fn formats_bits_and_bytes() {
    assert_eq!(format_bit(true), '1');
    assert_eq!(format_bit(false), '0');
    assert_eq!(format_bytes(&[0x01u8, 0x80u8]), "0000000110000000");
    assert_eq!(format_bytes(&[]), "");
}

#[test]
fn byte_to_bits_splits_msb_first() {
    assert_eq!(
        byte_to_bits(&0b10000001u8),
        [true, false, false, false, false, false, false, true]
    );
    assert_eq!(
        byte_to_bits(&0b01010101u8),
        [false, true, false, true, false, true, false, true]
    );
}
