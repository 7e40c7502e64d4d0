use kv_engine::codec::{decode_i64, decode_u64, encode_i64, encode_u64};
use kv_engine::error::decimal_text;
use kv_engine::keys::{key_equal, key_less};
use kv_engine::message::{bytes_from_encoded, codec_error, msg_from_value};
use kv_engine::peekable::u64_from_value;
use kv_engine::Error;
use protobuf::error::WireError;
use protobuf::well_known_types::StringValue;
use protobuf::{Message, ProtobufError};

fn is_wrong_length<T>(r: Result<T, Error>, width: usize) -> bool {
    matches!(r, Err(Error::WrongLength { expected: 8, got }) if got == width)
}

#[test]
fn encode_gives_eight_big_endian_bytes() {
    assert_eq!(encode_u64(1), vec![0, 0, 0, 0, 0, 0, 0, 1]);
    assert_eq!(encode_u64(0), vec![0; 8]);
    assert_eq!(encode_u64(0x1122_3344_5566_7788), vec![0x11, 0x22, 0x33, 0x44, 0x55, 0x66, 0x77, 0x88]);
    assert_eq!(encode_u64(u64::MAX), vec![0xFF; 8]);
    assert_eq!(encode_i64(-1), vec![0xFF; 8]);
    assert_eq!(encode_i64(i64::MIN), vec![0x80, 0, 0, 0, 0, 0, 0, 0]);
    assert_eq!(encode_i64(256), vec![0, 0, 0, 0, 0, 0, 1, 0]);
}

#[test]
fn decode_reads_eight_bytes_and_refuses_other_widths() {
    assert_eq!(decode_u64(&[0, 0, 0, 0, 0, 0, 1, 2]).unwrap(), 258);
    assert_eq!(decode_u64(&[0xFF; 8]).unwrap(), u64::MAX);
    assert_eq!(decode_i64(&[0xFF; 8]).unwrap(), -1);
    assert_eq!(decode_i64(&[0x80, 0, 0, 0, 0, 0, 0, 0]).unwrap(), i64::MIN);
    assert!(is_wrong_length(decode_u64(&[]), 0));
    assert!(is_wrong_length(decode_u64(&[1; 7]), 7));
    assert!(is_wrong_length(decode_i64(&[1; 9]), 9));
    assert!(is_wrong_length(decode_u64(&[1; 16]), 16));
}

#[test]
fn decode_undoes_encode() {
    for n in [0u64, 1, 255, 256, 0xDEAD_BEEF, 1 << 63, u64::MAX] {
        assert_eq!(decode_u64(&encode_u64(n)).unwrap(), n);
    }
    for n in [0i64, 1, -1, -256, i64::MIN, i64::MAX] {
        assert_eq!(decode_i64(&encode_i64(n)).unwrap(), n);
        assert_eq!(decode_u64(&encode_i64(n)).unwrap(), n as u64);
    }
}

#[test]
fn u64_from_value_keeps_absence_apart_from_wrong_width() {
    assert_eq!(u64_from_value(None).unwrap(), None);
    assert_eq!(u64_from_value(Some(vec![0, 0, 0, 0, 0, 0, 0, 9])).unwrap(), Some(9));
    assert!(is_wrong_length(u64_from_value(Some(vec![9])), 1));
}

#[test]
fn msg_from_value_parses_what_is_present() {
    let mut m = StringValue::new();
    m.set_value("region".to_string());
    let bytes = m.write_to_bytes().unwrap();
    let absent: Result<Option<StringValue>, Error> =
        msg_from_value(None, |b: &[u8]| StringValue::parse_from_bytes(b));
    assert_eq!(absent.unwrap(), None);
    let present = msg_from_value(Some(bytes), |b: &[u8]| StringValue::parse_from_bytes(b));
    assert_eq!(present.unwrap(), Some(m));
    let refused: Result<Option<StringValue>, Error> =
        msg_from_value(Some(vec![0x0A, 0x05, b'x']), |b: &[u8]| StringValue::parse_from_bytes(b));
    assert!(matches!(refused, Err(Error::Codec(ProtobufError::WireError(_)))));
}

#[test]
fn codec_failures_keep_the_words_of_the_codec() {
    let failure = StringValue::parse_from_bytes(&[0x0A, 0x05, b'x']).unwrap_err();
    let words = failure.to_string();
    let kept = codec_error(failure);
    assert!(matches!(kept, Error::Codec(ProtobufError::WireError(_))));
    assert_eq!(kept.message(), words);
    let failure = StringValue::parse_from_bytes(&[0x0A, 0x05, b'x']).unwrap_err();
    assert!(matches!(
        bytes_from_encoded(Err(failure)),
        Err(Error::Codec(ProtobufError::WireError(_)))
    ));
    let unset = ProtobufError::MessageNotInitialized { message: "Region" };
    assert!(matches!(
        bytes_from_encoded(Err(unset)),
        Err(Error::Codec(ProtobufError::MessageNotInitialized { message: "Region" }))
    ));
    assert_eq!(bytes_from_encoded(Ok(vec![1, 2, 3])).unwrap(), vec![1, 2, 3]);
}

#[test]
fn keys_are_ordered_byte_by_byte() {
    assert!(key_less(b"", b"a"));
    assert!(!key_less(b"", b""));
    assert!(!key_less(b"a", b""));
    assert!(key_less(b"a", b"ab"));
    assert!(!key_less(b"ab", b"a"));
    assert!(key_less(b"ab", b"b"));
    assert!(key_less(b"a1", b"a2"));
    assert!(!key_less(b"a2", b"a2"));
    assert!(key_less(&[0x7F], &[0x80]));
    assert!(key_less(&[0x00, 0xFF], &[0x01]));
    assert!(key_less(b"a3", &[0xFF, 0xFF]));
    assert!(key_equal(b"abc", b"abc"));
    assert!(key_equal(b"", b""));
    assert!(!key_equal(b"abc", b"abd"));
    assert!(!key_equal(b"abc", b"ab"));
}

#[test]
fn numbers_are_written_in_decimal() {
    assert_eq!(decimal_text(0), "0");
    assert_eq!(decimal_text(7), "7");
    assert_eq!(decimal_text(10), "10");
    assert_eq!(decimal_text(1234567890), "1234567890");
    assert_eq!(decimal_text(usize::MAX), usize::MAX.to_string());
}

#[test]
fn errors_have_words() {
    assert_eq!(
        Error::WrongLength { expected: 8, got: 3 }.message(),
        "need 8 bytes, but only got 3"
    );
    assert_eq!(
        Error::WrongLength { expected: 8, got: 120 }.message(),
        "need 8 bytes, but only got 120"
    );
    assert_eq!(Error::UnknownColumnFamily("foo".to_string()).message(), "cf foo not found");
    assert_eq!(
        Error::Codec(ProtobufError::WireError(WireError::UnexpectedEof)).message(),
        "unexpected EOF"
    );
    assert_eq!(
        Error::Codec(ProtobufError::MessageNotInitialized { message: "Region" }).message(),
        "not all message fields set"
    );
    assert_eq!(Error::Storage("IO error: disk".to_string()).message(), "IO error: disk");
    assert_eq!(decode_u64(&[1, 2]).unwrap_err().message(), "need 8 bytes, but only got 2");
}
