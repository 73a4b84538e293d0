use dkim_witness::error::PipelineError;
use dkim_witness::hex::{hex_digit_char, push_hex_bytes, quote_hex};
use dkim_witness::limbs::{
    bit_length_of, byte_bits, encode_limbs, encode_reduction_parameter, limb_from_bytes,
    LimbVector,
};
use num_bigint_dig::BigUint;

fn decode(limbs: &LimbVector) -> BigUint {
    let mut value = BigUint::from(0u8);
    for limb in limbs.limbs.iter().rev() {
        value = (value << 120usize) + BigUint::from(*limb);
    }
    value
}

fn samples() -> Vec<Vec<u8>> {
    vec![
        Vec::new(),
        vec![0],
        vec![1],
        vec![0, 0, 255],
        vec![0x80; 15],
        vec![0xFF; 15],
        vec![1, 0, 0, 0, 0, 0, 0, 0, 0, 0, 0, 0, 0, 0, 0, 0],
        (1..=200).collect(),
        vec![0xFF; 256],
    ]
}

#[test]
fn limbs_of_small_numbers() {
    let one = encode_limbs(&vec![1], 2048).unwrap();
    assert_eq!(one.bit_width, 2048);
    assert_eq!(one.limb_count, 18);
    assert_eq!(one.limbs.len(), 18);
    assert_eq!(one.limbs[0], 1);
    assert!(one.limbs[1..].iter().all(|l| *l == 0));
    let zero = encode_limbs(&Vec::new(), 240).unwrap();
    assert_eq!(zero.limbs, vec![0, 0]);
}

#[test]
fn limbs_are_cut_at_every_120_bits() {
    let mut value = vec![0x01];
    value.extend(vec![0u8; 14]);
    value.push(0x02);
    let limbs = encode_limbs(&value, 241).unwrap();
    assert_eq!(limbs.limb_count, 3);
    assert_eq!(limbs.limbs, vec![2, 1, 0]);
    let top = encode_limbs(&vec![0xFF; 15], 120).unwrap();
    assert_eq!(top.limbs, vec![(1u128 << 120) - 1]);
    let next = encode_limbs(&vec![0xAB; 16], 128).unwrap();
    assert_eq!(next.limbs, vec![0x00AB_ABAB_ABAB_ABAB_ABAB_ABAB_ABAB_ABAB, 0xAB]);
}

#[test]
fn number_of_limbs_goes_by_the_width() {
    for (width, count) in [(0, 0), (1, 1), (119, 1), (120, 1), (121, 2), (240, 2), (1024, 9), (2048, 18), (4096, 35)] {
        let limbs = encode_limbs(&Vec::new(), width).unwrap();
        assert_eq!(limbs.limb_count, count);
        assert_eq!(limbs.limbs.len(), count);
        assert_eq!(limbs.bit_width, width);
    }
}

#[test]
fn number_that_needs_more_bits_than_the_width_is_rejected() {
    assert_eq!(encode_limbs(&vec![1, 0], 8).err(), Some(PipelineError::ValueExceedsBitWidth));
    assert_eq!(encode_limbs(&vec![255], 7).err(), Some(PipelineError::ValueExceedsBitWidth));
    assert_eq!(encode_limbs(&vec![1], 0).err(), Some(PipelineError::ValueExceedsBitWidth));
    assert_eq!(encode_limbs(&vec![0xFF; 257], 2048).err(), Some(PipelineError::ValueExceedsBitWidth));
    assert!(encode_limbs(&vec![255], 8).is_ok());
    assert!(encode_limbs(&vec![0, 0, 127], 7).is_ok());
    assert!(encode_limbs(&vec![0xFF; 256], 2048).is_ok());
    assert!(encode_limbs(&vec![0, 0], 0).is_ok());
}

#[test]
fn decoding_the_limbs_gives_the_number_back() {
    for bytes in samples() {
        let limbs = encode_limbs(&bytes, 2048).unwrap();
        assert_eq!(decode(&limbs), BigUint::from_bytes_be(&bytes));
        assert!(limbs.limbs.iter().all(|l| *l < (1u128 << 120)));
    }
}

#[test]
fn encoding_twice_gives_the_same_limbs() {
    for bytes in samples() {
        let first = encode_limbs(&bytes, 2048).unwrap();
        let second = encode_limbs(&bytes, 2048).unwrap();
        assert_eq!(first.limbs, second.limbs);
        assert_eq!(first.limb_count, second.limb_count);
        if !bytes.iter().all(|b| *b == 0) {
            let first = encode_reduction_parameter(&bytes, 2048).unwrap();
            let second = encode_reduction_parameter(&bytes, 2048).unwrap();
            assert_eq!(first.limbs, second.limbs);
            assert_eq!(first.limb_count, second.limb_count);
        }
    }
}

#[test]
fn limbs_agree_with_the_limb_text_of_the_generator() {
    for bytes in samples() {
        let limbs = encode_limbs(&bytes, 2048).unwrap();
        let expected = noir_bignum_paramgen::bn_limbs(BigUint::from_bytes_be(&bytes), 2048);
        assert_eq!(limbs.to_hex_list(), expected);
    }
    for width in [1, 120, 121, 777] {
        let limbs = encode_limbs(&vec![1], width).unwrap();
        assert_eq!(limbs.to_hex_list(), noir_bignum_paramgen::bn_limbs(BigUint::from(1u8), width));
    }
}

#[test]
fn reduction_parameter_of_small_moduli() {
    let three = encode_reduction_parameter(&vec![3], 8).unwrap();
    assert_eq!(three.limbs, vec![85]);
    let seven = encode_reduction_parameter(&vec![7], 130).unwrap();
    assert_eq!(seven.limbs, vec![146, 0]);
    let one = encode_reduction_parameter(&vec![0, 1], 1).unwrap();
    assert_eq!(one.limbs, vec![64]);
    let big = encode_reduction_parameter(&vec![1, 0, 0], 2048).unwrap();
    assert_eq!(big.limbs[0], 1u128 << 22);
    assert_eq!(big.limb_count, 18);
}

#[test]
fn reduction_parameter_agrees_with_the_limb_text_of_the_generator() {
    for bytes in samples() {
        if bytes.iter().all(|b| *b == 0) {
            continue;
        }
        let limbs = encode_reduction_parameter(&bytes, 2048).unwrap();
        let expected = noir_bignum_paramgen::redc_limbs(BigUint::from_bytes_be(&bytes), 2048);
        assert_eq!(limbs.to_hex_list(), expected);
        let modulus = BigUint::from_bytes_be(&bytes);
        let parameter = (BigUint::from(1u8) << (2 * modulus.bits() + 4)) / modulus;
        assert_eq!(decode(&limbs), parameter);
    }
}

#[test]
fn reduction_parameter_of_zero_is_no_key() {
    assert_eq!(encode_reduction_parameter(&Vec::new(), 2048).err(), Some(PipelineError::KeyDecodeError));
    assert_eq!(encode_reduction_parameter(&vec![0, 0], 2048).err(), Some(PipelineError::KeyDecodeError));
    assert_eq!(encode_reduction_parameter(&vec![0], 0).err(), Some(PipelineError::KeyDecodeError));
}

#[test]
fn reduction_parameter_must_fit_width_and_limbs() {
    assert_eq!(
        encode_reduction_parameter(&vec![1, 0], 8).err(),
        Some(PipelineError::ValueExceedsBitWidth)
    );
    assert_eq!(
        encode_reduction_parameter(&vec![0xFF; 15], 120).err(),
        Some(PipelineError::ValueExceedsBitWidth)
    );
    assert_eq!(
        encode_reduction_parameter(&vec![0x80; 30], 240).err(),
        Some(PipelineError::ValueExceedsBitWidth)
    );
    assert!(encode_reduction_parameter(&vec![0xFF; 15], 121).is_ok());
    assert!(encode_reduction_parameter(&vec![0x03, 0xFF], 115).is_ok());
    assert_eq!(
        encode_reduction_parameter(&vec![0x7F; 15], 119).err(),
        Some(PipelineError::ValueExceedsBitWidth)
    );
}

#[test]
fn bit_lengths_of_bytes_and_numbers() {
    assert_eq!(byte_bits(0), 0);
    assert_eq!(byte_bits(1), 1);
    assert_eq!(byte_bits(2), 2);
    assert_eq!(byte_bits(127), 7);
    assert_eq!(byte_bits(128), 8);
    assert_eq!(byte_bits(255), 8);
    assert_eq!(bit_length_of(&Vec::new()), 0);
    assert_eq!(bit_length_of(&vec![0, 0]), 0);
    assert_eq!(bit_length_of(&vec![0, 1, 0]), 9);
    assert_eq!(bit_length_of(&vec![0x40, 0, 0]), 23);
    assert_eq!(bit_length_of(&vec![0xFF; 256]), 2048);
    for bytes in samples() {
        assert_eq!(bit_length_of(&bytes), BigUint::from_bytes_be(&bytes).bits() as u128);
    }
}

#[test]
fn limb_is_read_from_big_endian_bytes() {
    assert_eq!(limb_from_bytes(&Vec::new()), 0);
    assert_eq!(limb_from_bytes(&vec![0, 0, 1, 2]), 258);
    assert_eq!(limb_from_bytes(&vec![0xFF; 15]), (1u128 << 120) - 1);
}

#[test]
fn limbs_are_written_as_whole_bytes_in_lower_case_hex() {
    let limbs = LimbVector { bit_width: 360, limb_count: 3, limbs: vec![0, 0xABC, 0x1000000] };
    assert_eq!(limbs.to_hex_list(), "[0x00, 0x0abc, 0x01000000]");
    let none = LimbVector { bit_width: 0, limb_count: 0, limbs: Vec::new() };
    assert_eq!(none.to_hex_list(), "[]");
    let one = LimbVector { bit_width: 8, limb_count: 1, limbs: vec![255] };
    assert_eq!(one.to_hex_list(), "[0xff]");
    let mut out: Vec<char> = vec!['>'];
    push_hex_bytes(&mut out, 0x0123456789abcdef);
    assert_eq!(out.into_iter().collect::<String>(), ">0123456789abcdef");
    let digits: String = (0..16).map(hex_digit_char).collect();
    assert_eq!(digits, "0123456789abcdef");
}

#[test]
fn quoting_puts_each_item_in_double_quotes() {
    assert_eq!(quote_hex("[0x01, 0x02]".to_string()), "[\"0x01\", \"0x02\"]");
    assert_eq!(quote_hex("[0xff]".to_string()), "[\"0xff\"]");
    assert_eq!(quote_hex("0x01, 0x02, 0x03".to_string()), "[\"0x01\", \"0x02\", \"0x03\"]");
}

#[test]
fn quoting_an_empty_list_gives_one_empty_item() {
    assert_eq!(quote_hex("[]".to_string()), "[\"\"]");
    assert_eq!(quote_hex(String::new()), "[\"\"]");
}

#[test]
fn quoting_strips_all_brackets_at_the_ends_and_splits_on_comma_space() {
    assert_eq!(quote_hex("[[a]b]]".to_string()), "[\"a]b\"]");
    assert_eq!(quote_hex("[a,b, c,  d, ]".to_string()), "[\"a,b\", \"c\", \" d\", \"\"]");
    assert_eq!(quote_hex("[, ]".to_string()), "[\"\", \"\"]");
    assert_eq!(quote_hex("[,, x]".to_string()), "[\",\", \"x\"]");
}

#[test]
fn quoting_the_limb_text_of_the_generator() {
    let value = BigUint::from_bytes_be(&(1..=40).collect::<Vec<u8>>());
    let text = noir_bignum_paramgen::bn_limbs(value, 360);
    let quoted = quote_hex(text.clone());
    let inner: Vec<String> = text[1..text.len() - 1].split(", ").map(|l| format!("\"{}\"", l)).collect();
    assert_eq!(quoted, format!("[{}]", inner.join(", ")));
    assert_eq!(inner.len(), 3);
}
