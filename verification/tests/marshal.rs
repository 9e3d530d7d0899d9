use plugin_host::marshal::{decode_output, encode_argument, Invocation, MarshalError};

#[test]
fn argument_gets_a_terminator() {
    assert_eq!(encode_argument("help"), Ok(vec![b'h', b'e', b'l', b'p', 0]));
    assert_eq!(encode_argument(""), Ok(vec![0]));
    assert_eq!(encode_argument("é"), Ok(vec![0xc3, 0xa9, 0]));
}

#[test]
fn argument_with_a_zero_byte_is_refused() {
    assert_eq!(encode_argument("a\0b"), Err(MarshalError::InteriorNul));
    assert_eq!(encode_argument("\0"), Err(MarshalError::InteriorNul));
}

#[test]
fn encoded_argument_has_one_zero_byte_at_its_end() {
    let bytes = encode_argument("roll 2d6").unwrap();
    assert_eq!(bytes.iter().position(|b| *b == 0), Some(bytes.len() - 1));
    assert_eq!(&bytes[..bytes.len() - 1], "roll 2d6".as_bytes());
}

#[test]
fn invocation_encodes_all_three() {
    let call = Invocation::encode("roll", "2d6", "alice!user@host").unwrap();
    assert_eq!(call.command, b"roll\0".to_vec());
    assert_eq!(call.parameter, b"2d6\0".to_vec());
    assert_eq!(call.author, b"alice!user@host\0".to_vec());
    assert_eq!(Invocation::encode("roll", "a\0", "x"), Err(MarshalError::InteriorNul));
    assert_eq!(Invocation::encode("roll", "a", "x\0y"), Err(MarshalError::InteriorNul));
}

#[test]
fn output_is_split_into_non_empty_lines() {
    assert_eq!(decode_output(&b"one\ntwo".to_vec()), Ok(vec!["one".to_string(), "two".to_string()]));
    assert_eq!(decode_output(&b"one\n\ntwo\n".to_vec()), Ok(vec!["one".to_string(), "two".to_string()]));
    assert_eq!(decode_output(&b"".to_vec()), Ok(vec![]));
    assert_eq!(decode_output(&b"\n\n".to_vec()), Ok(vec![]));
    assert_eq!(decode_output(&" \n".as_bytes().to_vec()), Ok(vec![" ".to_string()]));
}

#[test]
fn output_that_is_not_text_is_refused() {
    assert_eq!(decode_output(&vec![0xff, 0xfe]), Err(MarshalError::InvalidText));
    assert_eq!(decode_output(&vec![b'a', 0xc3]), Err(MarshalError::InvalidText));
}

#[test]
fn output_keeps_non_ascii_text() {
    assert_eq!(decode_output(&"añb\nç".as_bytes().to_vec()), Ok(vec!["añb".to_string(), "ç".to_string()]));
}
