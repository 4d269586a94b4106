use powsearch::{
    add_blocks, add_with_carry, count_leading_zeros_in_block, format_byte, generate_initial_pad,
    next_pad, xor_blocks, DIGEST_LENGTH,
};

#[test]
fn formats_powers_of_two_correctly() {
    assert_eq!(format_byte(&(1u8)), "00000001");
    assert_eq!(format_byte(&(2u8)), "00000010");
    assert_eq!(format_byte(&(4u8)), "00000100");
    assert_eq!(format_byte(&(8u8)), "00001000");
    assert_eq!(format_byte(&(16u8)), "00010000");
    assert_eq!(format_byte(&(32u8)), "00100000");
    assert_eq!(format_byte(&(64u8)), "01000000");
    assert_eq!(format_byte(&(128u8)), "10000000");
}

#[test]
fn basic_test() {
    assert_eq!(add_with_carry(128u8, 128u8), (0u8, true));
    assert_eq!(add_with_carry(128u8, 129u8), (1u8, true));
}

#[test]
fn one() {
    assert_eq!(add_with_carry(0u8, 0u8), (0u8, false));
}

#[test]
fn two() {
    assert_eq!(add_with_carry(1u8, 0u8), (1u8, false));
}

#[test]
fn three() {
    assert_eq!(add_with_carry(0u8, 1u8), (1u8, false));
}

#[test]
fn four() {
    assert_eq!((128u8 as u16) + (128u8 as u16), 256u16);
    assert_eq!(add_with_carry(128u8, 128u8), (0u8, true));
}

#[test]
fn five() {
    assert_eq!((255u8 as u16) + (1u8 as u16), 256u16);
    assert_eq!(add_with_carry(255u8, 1u8), (0u8, true));
}

#[test]
fn six() {
    assert_eq!(add_with_carry(128u8, 127u8), (255u8, false));
}

#[test]
fn counts_zeros_correctly() {
    assert_eq!(0, count_leading_zeros_in_block(&[255u8]));
    assert_eq!(1, count_leading_zeros_in_block(&[0b01111111u8]));
    assert_eq!(2, count_leading_zeros_in_block(&[0b00111111u8]));

    assert_eq!(8, count_leading_zeros_in_block(&[0u8, 255u8]));
    assert_eq!(9, count_leading_zeros_in_block(&[0u8, 0b01111111u8]));
    assert_eq!(10, count_leading_zeros_in_block(&[0u8, 0b00111111u8]));

    assert_eq!(
        160,
        count_leading_zeros_in_block(&[
            0u8, 0u8, 0u8, 0u8, 0u8, 0u8, 0u8, 0u8, 0u8, 0u8, 0u8, 0u8, 0u8, 0u8, 0u8, 0u8, 0u8,
            0u8, 0u8, 0u8
        ])
    );
}

#[test]
fn gives_correct_first_pad() {
    let v: Vec<u8> = Vec::new();
    assert_eq!(generate_initial_pad(0).unwrap(), v);
    assert_eq!(generate_initial_pad(1).unwrap(), vec![0u8]);
    assert_eq!(generate_initial_pad(2).unwrap(), vec![0u8, 0u8]);
    assert_eq!(generate_initial_pad(3).unwrap(), vec![0u8, 0u8, 0u8]);
}

#[test]
fn gives_correct_short_second_pad() {
    let pad = next_pad(generate_initial_pad(1)).unwrap();

    assert_eq!(pad, vec![1u8]);
}

#[test]
fn gives_correct_long_second_pad() {
    let pad = next_pad(generate_initial_pad(DIGEST_LENGTH)).unwrap();

    assert_eq!(
        pad,
        vec![
            0u8, 0u8, 0u8, 0u8, 0u8, 0u8, 0u8, 0u8, 0u8, 0u8, 0u8, 0u8, 0u8, 0u8, 0u8, 0u8, 0u8,
            0u8, 0u8, 1u8
        ]
    );
}

#[test]
fn rolls_over_correctly() {
    let test_val = next_pad(Some(vec![
        0u8, 0u8, 0u8, 0u8, 0u8, 0u8, 0u8, 0u8, 0u8, 0u8, 0u8, 0u8, 0u8, 0u8, 0u8, 0u8, 0u8, 0u8,
        0u8, 255u8,
    ]));
    assert_eq!(
        test_val,
        Some(vec![
            0u8, 0u8, 0u8, 0u8, 0u8, 0u8, 0u8, 0u8, 0u8, 0u8, 0u8, 0u8, 0u8, 0u8, 0u8, 0u8, 0u8,
            0u8, 1u8, 0u8
        ])
    );
}

#[test]
fn gives_correct_last_pad() {
    let test_val = next_pad(Some(vec![
        255u8, 255u8, 255u8, 255u8, 255u8, 255u8, 255u8, 255u8, 255u8, 255u8, 255u8, 255u8, 255u8,
        255u8, 255u8, 255u8, 255u8, 255u8, 255u8, 254u8,
    ]));

    assert_eq!(
        test_val,
        Some(vec![
            255u8, 255u8, 255u8, 255u8, 255u8, 255u8, 255u8, 255u8, 255u8, 255u8, 255u8, 255u8,
            255u8, 255u8, 255u8, 255u8, 255u8, 255u8, 255u8, 255u8
        ])
    );
}

#[test]
fn ends_correctly() {
    let test_val = next_pad(Some(vec![
        255u8, 255u8, 255u8, 255u8, 255u8, 255u8, 255u8, 255u8, 255u8, 255u8, 255u8, 255u8, 255u8,
        255u8, 255u8, 255u8, 255u8, 255u8, 255u8, 255u8,
    ]));
    assert_eq!(test_val, None);
}

#[test]
fn xor_simple_blocks() {
    let result1 = xor_blocks(&vec![0u8, 255u8], &vec![255u8, 0u8]);
    assert_eq!(result1, vec![255u8, 255u8]);

    let result2 = xor_blocks(&vec![255u8, 255u8], &vec![255u8, 255u8]);
    assert_eq!(result2, vec![0u8, 0u8]);

    let result3 = xor_blocks(
        &vec![0b10101010u8, 0b10101010u8],
        &vec![0b01010101u8, 0b11110000u8],
    );
    assert_eq!(result3, vec![255u8, 0b01011010u8]);
}

#[test]
fn add_simple_blocks() {
    let result1 = add_blocks(&vec![0u8, 128u8], &vec![0u8, 128u8]);
    assert_eq!(result1, vec![1u8, 0u8]);

    let result2 = add_blocks(&vec![1u8, 128u8], &vec![0u8, 128u8]);
    assert_eq!(result2, vec![2u8, 0u8]);

    let result3 = add_blocks(&vec![0u8, 128u8], &vec![1u8, 128u8]);
    assert_eq!(result3, vec![2u8, 0u8]);

    let result4 = add_blocks(&vec![0u8, 127u8], &vec![0u8, 128u8]);
    assert_eq!(result4, vec![0u8, 255u8]);

    let result5 = add_blocks(&vec![0u8, 129u8], &vec![0u8, 128u8]);
    assert_eq!(result5, vec![1u8, 1u8]);
}

#[test]
fn add_blocks_discards_total_carry() {
    let result1 = add_blocks(&vec![255u8, 255u8], &vec![1u8, 0u8]);
    assert_eq!(result1, vec![0u8, 255u8])
}
