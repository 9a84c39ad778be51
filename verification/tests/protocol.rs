use dagon_lib::protocol::{
    assemble_message, decode_data, decode_message, decode_zero_padded, encode_data, encode_message, error_message,
    try_decode_data, try_decode_message, DecodeError, MessageData, Value,
};

fn data_of(pairs: Vec<(&str, Value)>) -> MessageData {
    let mut d = MessageData::new();
    for (k, v) in pairs {
        d.insert(k.to_string(), v);
    }
    d
}

fn bytes_of(v: Option<&Value>) -> Vec<u8> {
    v.expect("present").data().clone()
}

#[test]
fn decodes_the_documented_example() {
    let d = decode_data(b"#2:1:id2$3:5:msghello").unwrap();
    assert_eq!(d.len(), 2);
    assert_eq!(*d.get("id").unwrap().integer(), 2);
    assert_eq!(bytes_of(d.get("msg")), b"hello".to_vec());
}

#[test]
fn encodes_bytes_and_integers() {
    assert_eq!(encode_data(data_of(vec![("foo", Value::Data(b"bar".to_vec()))])), b"$3:3:foobar".to_vec());
    assert_eq!(encode_data(data_of(vec![("biz", Value::Integer(2))])), b"#3:1:biz2".to_vec());
    assert_eq!(encode_data(data_of(vec![("x", Value::Integer(-15))])), b"#1:3:x-15".to_vec());
    assert_eq!(encode_data(data_of(vec![("n", Value::Integer(i32::MIN))])), b"#1:11:n-2147483648".to_vec());
    assert_eq!(encode_data(MessageData::new()), Vec::<u8>::new());
}

#[test]
fn encodes_a_message_in_insertion_order() {
    let d = data_of(vec![("foo", Value::Data(b"bar".to_vec())), ("biz", Value::Integer(2))]);
    assert_eq!(encode_message("TST", d), b"TST\r\n$3:3:foobar#3:1:biz2".to_vec());
}

#[test]
fn long_lengths_are_written_in_full() {
    let v = vec![7u8; 1234];
    let enc = encode_data(data_of(vec![("k", Value::Data(v.clone()))]));
    assert_eq!(&enc[..9], b"$1:1234:k");
    assert_eq!(enc.len(), 9 + 1234);
    let back = decode_data(&enc).unwrap();
    assert_eq!(bytes_of(back.get("k")), v);
}

#[test]
fn message_roundtrip() {
    let d = data_of(vec![
        ("username", Value::Data(b"alice".to_vec())),
        ("n", Value::Integer(2147483647)),
        ("empty", Value::Data(Vec::new())),
        ("", Value::Integer(0)),
    ]);
    let enc = encode_message("REG", d);
    let m = decode_message(&enc).unwrap();
    assert_eq!(m.command, "REG");
    assert_eq!(m.data.len(), 4);
    assert_eq!(bytes_of(m.data.get("username")), b"alice".to_vec());
    assert_eq!(*m.data.get("n").unwrap().integer(), 2147483647);
    assert_eq!(bytes_of(m.data.get("empty")), Vec::<u8>::new());
    assert_eq!(*m.data.get("").unwrap().integer(), 0);
    let (k, _) = m.data.entry(0);
    assert_eq!(k, "username");
}

#[test]
fn data_roundtrip_with_terminator_after_it() {
    let d = data_of(vec![("a1", Value::Data(vec![0, 13, 10, b'$']))]);
    let mut enc = encode_data(d);
    enc.push(0);
    enc.extend_from_slice(b"garbage");
    let back = decode_data(&enc).unwrap();
    assert_eq!(back.len(), 1);
    assert_eq!(bytes_of(back.get("a1")), vec![0, 13, 10, b'$']);
}

#[test]
fn data_ends_at_terminators() {
    assert_eq!(decode_data(b"#2:1:id2\r").unwrap().len(), 1);
    assert_eq!(decode_data(b"#2:1:id2\nXYZ").unwrap().len(), 1);
    assert_eq!(decode_data(b"#2:1:id2\0").unwrap().len(), 1);
    assert_eq!(decode_data(b"\n").unwrap_err(), DecodeError::EmptyData);
    assert_eq!(decode_data(b"\0").unwrap_err(), DecodeError::EmptyData);
    assert_eq!(decode_data(b"").unwrap_err(), DecodeError::MissingData);
}

#[test]
fn later_pairs_replace_earlier_ones() {
    let d = decode_data(b"#1:1:a1#1:1:b5#1:1:a2").unwrap();
    assert_eq!(d.len(), 2);
    assert_eq!(*d.get("a").unwrap().integer(), 2);
    let (k, _) = d.entry(0);
    assert_eq!(k, "a");
}

#[test]
fn refuses_malformed_data() {
    assert_eq!(decode_data(b"X").unwrap_err(), DecodeError::UnrecognizedStartingByte(b'X'));
    assert_eq!(decode_data(b"#1:1:a1X").unwrap_err(), DecodeError::UnrecognizedStartingByte(b'X'));
    assert_eq!(decode_data(b"$a").unwrap_err(), DecodeError::KeyLengthByte(b'a'));
    assert_eq!(decode_data(b"$1:a").unwrap_err(), DecodeError::ValueLengthByte(b'a'));
    assert_eq!(decode_data(b"$1:1:-x").unwrap_err(), DecodeError::KeyByte(b'-'));
    assert_eq!(decode_data(b"#1:2:a1Z").unwrap_err(), DecodeError::IntegerByte(b'Z'));
    assert_eq!(decode_data(b"#1:2:a-1").unwrap_err(), DecodeError::IntegerByte(b'-'));
    // a bad byte is reported even where the input is cut short after it
    assert_eq!(decode_data(b"$5:1:ab!").unwrap_err(), DecodeError::KeyByte(b'!'));
}

#[test]
fn gives_nothing_where_decoding_would_fail_outright() {
    assert!(try_decode_data(b"$3:1:ab").is_none());
    assert!(try_decode_data(b"$1:5:ab").is_none());
    assert!(try_decode_data(b"#1:0:a").is_none());
    assert!(try_decode_data(b"#1:10:a9999999999").is_none());
    assert!(try_decode_data(b"$99999999999:1:").is_none());
    assert!(try_decode_data(b"$:1:").is_none());
    assert!(try_decode_data(b"$1:").is_none());
    assert!(try_decode_data(b"$12").is_none());
    assert!(try_decode_data(b"#1:1:a").is_none());
    assert!(try_decode_data(b"#1:10:a2147483647").is_some());
    assert!(try_decode_data(b"#1:10:a2147483648").is_none());
    assert_eq!(
        try_decode_data(b"$00002:0001:abc").unwrap().unwrap().get("ab").unwrap().data().clone(),
        b"c".to_vec()
    );
}

#[test]
fn decodes_messages() {
    let m = decode_message(b"AUT\r\n$6:3:pubkeyabc").unwrap();
    assert_eq!(m.command, "AUT");
    assert_eq!(bytes_of(m.data.get("pubkey")), b"abc".to_vec());
    let empty = decode_message(b"TST\r\n\0").unwrap();
    assert_eq!(empty.command, "TST");
    assert_eq!(empty.data.len(), 0);
    assert_eq!(decode_message(b"TST\r\n").unwrap_err(), DecodeError::MissingData);
    assert_eq!(decode_message(b"TS").unwrap_err(), DecodeError::CommandLength);
    assert_eq!(decode_message(b"TST\n\r").unwrap_err(), DecodeError::CommandTerminator);
    assert_eq!(decode_message(b"TST").unwrap_err(), DecodeError::CommandTerminator);
    assert_eq!(decode_message(b"TST\r\nQ").unwrap_err(), DecodeError::UnrecognizedStartingByte(b'Q'));
    assert!(try_decode_message(b"TST\r\n$3:1:ab").is_none());
    assert!(try_decode_message(b"T\r\n$3:1:ab").is_some());
}

#[test]
fn command_bytes_are_read_as_lossy_utf8() {
    // invalid UTF-8 makes a longer replacement text
    assert_eq!(decode_message(&[0xFF, b'A', b'B', 13, 10, 0]).unwrap_err(), DecodeError::CommandLength);
    // three bytes of one character are a command of three bytes
    let m = decode_message("€\r\n\0".as_bytes()).unwrap();
    assert_eq!(m.command, "€");
    // a truncated four-byte sequence becomes one replacement character
    let m = decode_message(&[0xF0, 0x90, 0x80, 13, 10, 0]).unwrap();
    assert_eq!(m.command, "\u{FFFD}");
    assert_eq!(decode_message(&[0xC3]).unwrap_err(), DecodeError::CommandTerminator);
    let r = assemble_message("\u{FFFD}".to_string(), &[0xF0, 0x90, 0x80, 13, 10, 0]);
    assert_eq!(r.unwrap().unwrap().command, "\u{FFFD}");
}

#[test]
fn error_texts() {
    assert_eq!(DecodeError::EmptyData.message(), "Failed to get starting byte");
    assert_eq!(DecodeError::MissingData.message(), "Expected starting byte but none found");
    assert_eq!(DecodeError::UnrecognizedStartingByte(b'X').message(), "Unrecognized starting byte: '88'");
    assert_eq!(DecodeError::KeyLengthByte(97).message(), "Unexpected character in length of key '97'");
    assert_eq!(DecodeError::ValueLengthByte(0).message(), "Unexpected character in length of value '0'");
    assert_eq!(DecodeError::KeyByte(255).message(), "Unsupported byte in key: '255'");
    assert_eq!(DecodeError::IntegerByte(45).message(), "Unsupported byte in integer value: '45'");
    assert_eq!(DecodeError::CommandLength.message(), "Not able to parse 3 character command");
    assert_eq!(DecodeError::CommandTerminator.message(), "No 3 character command deteceted");
}

#[test]
fn error_replies() {
    assert_eq!(error_message("AUT", "Invalid pubkey"), b"-AUT\r\n$3:14:msgInvalid pubkey".to_vec());
}

#[test]
fn message_data_behaves_as_a_map() {
    let mut d = MessageData::new();
    assert!(d.is_empty());
    assert!(d.insert("a".to_string(), Value::Integer(1)).is_none());
    assert!(d.insert("b".to_string(), Value::from(vec![1u8, 2])).is_none());
    let old = d.insert("a".to_string(), Value::from(3));
    assert_eq!(*old.unwrap().integer(), 1);
    assert_eq!(d.len(), 2);
    assert!(d.contains_key("b"));
    assert!(!d.contains_key("c"));
    assert!(d.get("c").is_none());
    assert_eq!(*d.get("a").unwrap().integer(), 3);
    assert_eq!(Value::from_text("hé").data().clone(), "hé".as_bytes().to_vec());
}

#[test]
fn decoded_data_encodes_back() {
    let input = b"#2:1:id2$3:5:msghello";
    let d = decode_data(input).unwrap();
    assert_eq!(encode_data(d), input.to_vec());
    // non-canonical numerals decode to data that encodes canonically
    let d = decode_data(b"#2:02:id07").unwrap();
    assert_eq!(encode_data(d), b"#2:1:id7".to_vec());
}

#[test]
fn bytes_after_a_terminator_are_not_read() {
    let d = decode_data(b"$1:1:ab\r\n$junk").unwrap();
    assert_eq!(d.len(), 1);
    assert_eq!(bytes_of(d.get("a")), b"b".to_vec());
    let d = decode_data(b"#1:1:x7\0$9999999999999:").unwrap();
    assert_eq!(*d.get("x").unwrap().integer(), 7);
}

#[test]
fn a_valid_command_reads_as_itself() {
    let m = try_decode_message(b"TST\r\n#1:1:a1").unwrap().unwrap();
    assert_eq!(m.command, "TST");
}

#[test]
fn zero_padding_stops_at_the_first_length_that_decodes() {
    let (k, m) = decode_zero_padded(b"TST\r\n$1:3:ab", 10).unwrap();
    assert_eq!(k, 2);
    let m = m.unwrap();
    assert_eq!(m.command, "TST");
    assert_eq!(bytes_of(m.data.get("a")), b"b\0\0".to_vec());
    assert!(decode_zero_padded(b"TST\r\n$1:3:ab", 1).is_none());
    let (k, m) = decode_zero_padded(b"TST\r\n$1:1:ab", 5).unwrap();
    assert_eq!(k, 1);
    assert_eq!(bytes_of(m.unwrap().data.get("a")), b"b".to_vec());
    let (k, e) = decode_zero_padded(b"TST\r\n$3:1:ab", 5).unwrap();
    assert_eq!(k, 1);
    assert_eq!(e.unwrap_err(), DecodeError::KeyByte(0));
    assert!(decode_zero_padded(b"TST\r\n$99999999999:1:", 50).is_none());
    assert!(decode_zero_padded(b"TST\r\n", 0).is_none());
}
