use w3b_types::hex::convert::{decode_exact, decode_expanded, decode_unbounded, encode};
use w3b_types::hex::error::HexError;
use w3b_types::hex::visitor::{
    deserialize_exact, deserialize_expanded, deserialize_unbounded, serialize, serialize_exact,
    HexVisitor,
};

#[test]
fn encode_two_bytes() {
    assert_eq!(encode(&[0x0a, 0xff]), "0x0aff");
}

#[test]
fn encode_nothing_is_the_prefix() {
    assert_eq!(encode(&[]), "0x");
}

#[test]
fn encode_uses_lower_case_and_keeps_zeros() {
    assert_eq!(encode(&[0x00, 0x01, 0xab, 0xcd, 0xef, 0x90]), "0x0001abcdef90");
}

#[test]
fn encode_length_is_two_plus_two_per_byte() {
    let bytes: Vec<u8> = (0..=255u8).collect();
    let text = encode(&bytes);
    assert_eq!(text.len(), 2 + 2 * 256);
    assert!(text.starts_with("0x000102"));
    assert!(text.ends_with("fdfeff"));
}

#[test]
fn encode_every_byte_round_trips() {
    let bytes: Vec<u8> = (0..=255u8).collect();
    assert_eq!(decode_unbounded(&encode(&bytes)), Ok(bytes));
}

#[test]
fn serialize_writes_the_encoding() {
    assert_eq!(serialize(&[0x00, 0x10]), "0x0010");
    assert_eq!(serialize_exact(&[0x00, 0x10]), "0x0010");
}

#[test]
fn exact_fills_the_buffer() {
    let mut buf = [0u8; 2];
    assert_eq!(decode_exact("0x0aff", &mut buf), Ok(()));
    assert_eq!(buf, [0x0a, 0xff]);
}

#[test]
fn exact_refuses_another_length() {
    let mut buf = [7u8; 3];
    assert_eq!(
        decode_exact("0x0aff", &mut buf),
        Err(HexError::IncorrectLen { expected: 3, len: 4 })
    );
    assert_eq!(buf, [7, 7, 7]);
}

#[test]
fn exact_refuses_a_shorter_buffer() {
    let mut buf = [7u8; 1];
    assert_eq!(
        decode_exact("0x0aff", &mut buf),
        Err(HexError::IncorrectLen { expected: 1, len: 4 })
    );
    assert_eq!(buf, [7]);
}

#[test]
fn exact_reads_an_odd_digit_as_low_half() {
    let mut buf = [0u8; 1];
    assert_eq!(decode_exact("0xf", &mut buf), Ok(()));
    assert_eq!(buf, [0x0f]);
    let mut two = [0u8; 2];
    assert_eq!(decode_exact("0xabc", &mut two), Ok(()));
    assert_eq!(two, [0x0a, 0xbc]);
}

#[test]
fn exact_of_no_digits_fills_an_empty_buffer() {
    let mut buf: [u8; 0] = [];
    assert_eq!(decode_exact("0x", &mut buf), Ok(()));
    assert_eq!(decode_exact("", &mut buf), Ok(()));
    let mut one = [9u8; 1];
    assert_eq!(
        decode_exact("0x", &mut one),
        Err(HexError::IncorrectLen { expected: 1, len: 0 })
    );
    assert_eq!(one, [9]);
}

#[test]
fn expanded_pads_on_the_left() {
    let mut buf = [9u8; 4];
    assert_eq!(decode_expanded("0xff", &mut buf), Ok(()));
    assert_eq!(buf, [0x00, 0x00, 0x00, 0xff]);
}

#[test]
fn expanded_refuses_too_many_bytes() {
    let mut buf = [9u8; 1];
    assert_eq!(
        decode_expanded("0x1234", &mut buf),
        Err(HexError::LenTooLong { max: 1, len: 4 })
    );
    assert_eq!(buf, [9]);
}

#[test]
fn expanded_accepts_a_full_buffer_and_odd_digits() {
    let mut buf = [9u8; 2];
    assert_eq!(decode_expanded("0x1234", &mut buf), Ok(()));
    assert_eq!(buf, [0x12, 0x34]);
    let mut odd = [9u8; 3];
    assert_eq!(decode_expanded("0x123", &mut odd), Ok(()));
    assert_eq!(odd, [0x00, 0x01, 0x23]);
    let mut tight = [9u8; 1];
    assert_eq!(
        decode_expanded("0x123", &mut tight),
        Err(HexError::LenTooLong { max: 1, len: 3 })
    );
    assert_eq!(tight, [9]);
}

#[test]
fn expanded_of_no_digits_is_all_zero() {
    let mut buf = [9u8; 3];
    assert_eq!(decode_expanded("0x", &mut buf), Ok(()));
    assert_eq!(buf, [0, 0, 0]);
}

#[test]
fn unbounded_refuses_odd_digits() {
    assert_eq!(decode_unbounded("0xabc"), Err(HexError::OddLen { len: 3 }));
    assert_eq!(decode_unbounded("f"), Err(HexError::OddLen { len: 1 }));
}

#[test]
fn unbounded_allocates_what_the_text_stands_for() {
    assert_eq!(decode_unbounded("0x"), Ok(vec![]));
    assert_eq!(decode_unbounded(""), Ok(vec![]));
    assert_eq!(decode_unbounded("0x00ff10"), Ok(vec![0x00, 0xff, 0x10]));
}

#[test]
fn prefix_is_optional_and_of_either_case() {
    assert_eq!(decode_unbounded("0aff"), Ok(vec![0x0a, 0xff]));
    assert_eq!(decode_unbounded("0X0aff"), Ok(vec![0x0a, 0xff]));
    assert_eq!(decode_unbounded("0x0aff"), Ok(vec![0x0a, 0xff]));
}

#[test]
fn digits_of_either_case_are_read() {
    assert_eq!(decode_unbounded("0xABCDEFabcdef"), Ok(vec![0xab, 0xcd, 0xef, 0xab, 0xcd, 0xef]));
    assert_eq!(encode(&decode_unbounded("0XAB").unwrap()), "0xab");
}

#[test]
fn invalid_char_is_reported_with_its_place() {
    let expected = Err(HexError::InvalidChar { position: 4, char: 'g' });
    assert_eq!(decode_unbounded("0x12g4"), expected.clone().map(|_: ()| vec![]));
    let mut buf = [5u8; 2];
    assert_eq!(decode_exact("0x12g4", &mut buf), expected);
    assert_eq!(buf, [5, 5]);
    assert_eq!(decode_expanded("0x12g4", &mut buf), expected);
    assert_eq!(buf, [5, 5]);
}

#[test]
fn invalid_char_without_prefix_counts_from_the_start() {
    assert_eq!(
        decode_unbounded("12 4"),
        Err(HexError::InvalidChar { position: 2, char: ' ' })
    );
    assert_eq!(
        decode_unbounded("x1"),
        Err(HexError::InvalidChar { position: 0, char: 'x' })
    );
    assert_eq!(
        decode_unbounded("0x0x"),
        Err(HexError::InvalidChar { position: 3, char: 'x' })
    );
}

#[test]
fn first_invalid_char_wins_over_later_ones_and_over_length() {
    assert_eq!(
        decode_unbounded("0xzz1"),
        Err(HexError::InvalidChar { position: 2, char: 'z' })
    );
    let mut buf = [5u8; 1];
    assert_eq!(
        decode_exact("0x112233-", &mut buf),
        Err(HexError::InvalidChar { position: 8, char: '-' })
    );
    assert_eq!(
        decode_expanded("0x112233-", &mut buf),
        Err(HexError::InvalidChar { position: 8, char: '-' })
    );
    assert_eq!(buf, [5]);
}

#[test]
fn characters_beyond_ascii_are_invalid() {
    assert_eq!(
        decode_unbounded("0x1é"),
        Err(HexError::InvalidChar { position: 3, char: 'é' })
    );
    assert_eq!(
        decode_unbounded("éé0g"),
        Err(HexError::InvalidChar { position: 0, char: 'é' })
    );
    assert_eq!(
        decode_unbounded("0Xab\u{ff11}q"),
        Err(HexError::InvalidChar { position: 4, char: '\u{ff11}' })
    );
    assert_eq!(
        decode_unbounded("0xq\u{ff11}"),
        Err(HexError::InvalidChar { position: 2, char: 'q' })
    );
}

#[test]
fn characters_next_to_the_digits_are_invalid() {
    for c in ['/', ':', '@', 'G', '`', 'g', 'x', 'X'] {
        let text = format!("0x0{}", c);
        assert_eq!(
            decode_unbounded(&text),
            Err(HexError::InvalidChar { position: 3, char: c })
        );
    }
}

#[test]
fn visitor_expanded_writes_its_buffer() {
    let mut buf = [9u8; 4];
    assert_eq!(HexVisitor::Expanded(&mut buf).visit_str("0xff"), Ok(()));
    assert_eq!(buf, [0, 0, 0, 0xff]);
}

#[test]
fn visitor_exact_writes_its_buffer() {
    let mut buf = [9u8; 2];
    assert_eq!(HexVisitor::Exact(&mut buf).visit_str("0x0aff"), Ok(()));
    assert_eq!(buf, [0x0a, 0xff]);
    assert_eq!(
        HexVisitor::Exact(&mut buf).visit_str("0x0a"),
        Err(HexError::IncorrectLen { expected: 2, len: 2 })
    );
    assert_eq!(buf, [0x0a, 0xff]);
}

#[test]
fn visitor_unbounded_fills_its_slot() {
    let mut slot: Option<Vec<u8>> = None;
    assert_eq!(HexVisitor::Unbounded(&mut slot).visit_str("0x0102"), Ok(()));
    assert_eq!(slot, Some(vec![1, 2]));
    let mut kept: Option<Vec<u8>> = Some(vec![3]);
    assert_eq!(
        HexVisitor::Unbounded(&mut kept).visit_str("0x010"),
        Err(HexError::OddLen { len: 3 })
    );
    assert_eq!(kept, Some(vec![3]));
}

#[test]
fn visitor_says_what_it_expects() {
    let mut four = [0u8; 4];
    assert_eq!(
        HexVisitor::Expanded(&mut four).expecting(),
        "a 0x-prefixed hexadecimal string with a length of at most 8"
    );
    let mut twenty = [0u8; 20];
    assert_eq!(
        HexVisitor::Exact(&mut twenty).expecting(),
        "a 0x-prefixed hexadecimal string with an exact length of 40"
    );
    let mut slot: Option<Vec<u8>> = None;
    assert_eq!(
        HexVisitor::Unbounded(&mut slot).expecting(),
        "a 0x-prefixed hexadecimal string with an even length"
    );
}

#[test]
fn deserialize_functions_decode_in_their_mode() {
    let mut buf = [9u8; 3];
    assert_eq!(deserialize_expanded(&mut buf, "0x1"), Ok(()));
    assert_eq!(buf, [0, 0, 1]);
    assert_eq!(deserialize_exact(&mut buf, "0x010203"), Ok(()));
    assert_eq!(buf, [1, 2, 3]);
    assert_eq!(
        deserialize_exact(&mut buf, "0x0102"),
        Err(HexError::IncorrectLen { expected: 3, len: 4 })
    );
    assert_eq!(
        deserialize_expanded(&mut buf, "0x01020304"),
        Err(HexError::LenTooLong { max: 3, len: 8 })
    );
    assert_eq!(buf, [1, 2, 3]);
    assert_eq!(deserialize_unbounded("0xdead"), Ok(vec![0xde, 0xad]));
    assert_eq!(deserialize_unbounded("0xdea"), Err(HexError::OddLen { len: 3 }));
}

#[test]
fn errors_of_length_give_the_digits_found() {
    assert_eq!(HexError::IncorrectLen { expected: 3, len: 4 }.invalid_length(), Some(4));
    assert_eq!(HexError::LenTooLong { max: 1, len: 6 }.invalid_length(), Some(6));
    assert_eq!(HexError::OddLen { len: 3 }.invalid_length(), None);
    assert_eq!(HexError::InvalidChar { position: 1, char: 'q' }.invalid_length(), None);
}

#[test]
fn decoding_then_encoding_is_canonical() {
    let mut buf = [0u8; 2];
    decode_expanded("ABC", &mut buf).unwrap();
    assert_eq!(encode(&buf), "0x0abc");
}
