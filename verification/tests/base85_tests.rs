use rgb_armor::base85::{decode_base85_rfc1924, encode_base85_rfc1924};

#[test]
fn round_trip_identity_multiple_of_four() {
    for data in [
        Vec::new(),
        vec![0u8, 0, 0, 0],
        vec![1u8, 2, 3, 4],
        vec![255u8, 255, 255, 255],
        vec![9u8, 8, 7, 6, 5, 4, 3, 2],
        vec![0x89u8, 0x50, 0x4e, 0x47, 0x0d, 0x0a, 0x1a, 0x0a],
    ] {
        let encoded = encode_base85_rfc1924(&data);
        assert_eq!(decode_base85_rfc1924(&encoded), Some(data));
    }
}

#[test]
fn round_trip_identity_partial_tails() {
    for data in [
        vec![7u8],
        vec![0u8],
        vec![255u8],
        vec![1u8, 2],
        vec![254u8, 253],
        vec![1u8, 2, 3],
        vec![200u8, 100, 50],
        vec![1u8, 2, 3, 4, 5],
        vec![1u8, 2, 3, 4, 5, 6],
        vec![1u8, 2, 3, 4, 5, 6, 7],
    ] {
        let encoded = encode_base85_rfc1924(&data);
        assert_eq!(decode_base85_rfc1924(&encoded), Some(data));
    }
}

#[test]
fn zero_group_is_all_zero_symbols() {
    assert_eq!(encode_base85_rfc1924(&vec![0u8, 0, 0, 0]), "00000");
    assert_eq!(decode_base85_rfc1924("00000"), Some(vec![0u8, 0, 0, 0]));
}

#[test]
fn max_group_symbols() {
    assert_eq!(encode_base85_rfc1924(&vec![255u8, 255, 255, 255]), "|NsC0");
    assert_eq!(decode_base85_rfc1924("|NsC0"), Some(vec![255u8, 255, 255, 255]));
}

#[test]
fn rejects_symbol_outside_alphabet() {
    assert_eq!(decode_base85_rfc1924("abc,d"), None);
    assert_eq!(decode_base85_rfc1924("\"0000"), None);
}

#[test]
fn whitespace_between_symbols_is_skipped() {
    assert_eq!(decode_base85_rfc1924("00 0\t0\n0"), Some(vec![0u8, 0, 0, 0]));
}

#[test]
fn single_leftover_symbol_emits_nothing() {
    assert_eq!(decode_base85_rfc1924("00000A"), Some(vec![0u8, 0, 0, 0]));
}

#[test]
fn single_leftover_symbol_can_overflow() {
    assert_eq!(decode_base85_rfc1924("~"), None);
}

#[test]
fn overflowing_group_is_rejected() {
    assert_eq!(decode_base85_rfc1924("~~~~~"), None);
}

#[test]
fn known_tail_decodes() {
    assert_eq!(decode_base85_rfc1924("TWFu"), Some(vec![91u8, 104, 159]));
}
