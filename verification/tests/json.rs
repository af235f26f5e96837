use zlink::json::ser::{Serializer, State};
use zlink::json::{ByteSliceWriter, Error};

fn written(buf: &[u8], n: usize) -> &[u8] {
    &buf[..n]
}

#[test]
fn test_serialize_primitives() {
    let mut buf = [0u8; 128];

    let mut ser = Serializer::new(&mut buf);
    ser.serialize_bool(true).unwrap();
    let n = ser.position();
    assert_eq!(written(&buf, n), b"true");

    let mut ser = Serializer::new(&mut buf);
    ser.serialize_bool(false).unwrap();
    let n = ser.position();
    assert_eq!(written(&buf, n), b"false");

    let mut ser = Serializer::new(&mut buf);
    ser.serialize_i128(42i32 as i128).unwrap();
    let n = ser.position();
    assert_eq!(written(&buf, n), b"42");

    let mut ser = Serializer::new(&mut buf);
    ser.serialize_i128(-42i64 as i128).unwrap();
    let n = ser.position();
    assert_eq!(written(&buf, n), b"-42");

    // Floats are formatted by `ryu` outside the library and written as a fragment.
    let mut ser = Serializer::new(&mut buf);
    let mut fb = ryu::Buffer::new();
    ser.write_fragment(fb.format_finite(3.14f64).as_bytes()).unwrap();
    let n = ser.position();
    assert_eq!(written(&buf, n), b"3.14");

    let mut ser = Serializer::new(&mut buf);
    ser.serialize_str("hello").unwrap();
    let n = ser.position();
    assert_eq!(written(&buf, n), b"\"hello\"");
}

#[test]
fn test_serialize_struct() {
    let mut buf = [0u8; 128];
    let mut ser = Serializer::new(&mut buf);
    let mut state = ser.serialize_map(Some(2)).unwrap();
    ser.begin_key(&mut state).unwrap();
    ser.serialize_key_str("name").unwrap();
    ser.end_key().unwrap();
    ser.begin_value().unwrap();
    ser.serialize_str("test").unwrap();
    ser.end_value().unwrap();
    ser.begin_key(&mut state).unwrap();
    ser.serialize_key_str("value").unwrap();
    ser.end_key().unwrap();
    ser.begin_value().unwrap();
    ser.serialize_i128(42).unwrap();
    ser.end_value().unwrap();
    ser.end_map(state).unwrap();
    let n = ser.position();
    let json = core::str::from_utf8(&buf[..n]).unwrap();
    assert_eq!(json, r#"{"name":"test","value":42}"#);
}

#[test]
fn test_serialize_array() {
    let arr = [1, 2, 3, 4, 5];
    let mut buf = [0u8; 128];
    let mut ser = Serializer::new(&mut buf);
    let mut state = ser.serialize_seq(Some(arr.len())).unwrap();
    for v in arr {
        ser.begin_element(&mut state).unwrap();
        ser.serialize_i128(v).unwrap();
        ser.end_element().unwrap();
    }
    ser.end_seq(state).unwrap();
    let n = ser.position();
    assert_eq!(&buf[..n], b"[1,2,3,4,5]");
}

#[test]
fn test_serialize_escape() {
    let s = "hello\n\"world\"";
    let mut buf = [0u8; 128];
    let mut ser = Serializer::new(&mut buf);
    ser.serialize_str(s).unwrap();
    let n = ser.position();
    assert_eq!(&buf[..n], b"\"hello\\n\\\"world\\\"\"");
}

#[test]
fn control_characters_use_unicode_escapes() {
    let mut buf = [0u8; 64];
    let mut ser = Serializer::new(&mut buf);
    ser.serialize_str("a\u{1}b\u{1f}\t\\").unwrap();
    let n = ser.position();
    assert_eq!(&buf[..n], b"\"a\\u0001b\\u001f\\t\\\\\"");
}

#[test]
fn non_ascii_passes_through() {
    let mut buf = [0u8; 64];
    let mut ser = Serializer::new(&mut buf);
    ser.serialize_str("héllo ☃").unwrap();
    let n = ser.position();
    assert_eq!(&buf[..n], "\"héllo ☃\"".as_bytes());
}

#[test]
fn empty_compounds_close_at_once() {
    let mut buf = [0u8; 16];
    let mut ser = Serializer::new(&mut buf);
    let state = ser.serialize_seq(Some(0)).unwrap();
    assert_eq!(state, State::Empty);
    ser.end_seq(state).unwrap();
    let state = ser.serialize_map(Some(0)).unwrap();
    ser.end_map(state).unwrap();
    let state = ser.serialize_seq(None).unwrap();
    assert_eq!(state, State::First);
    ser.end_seq(state).unwrap();
    let n = ser.position();
    assert_eq!(&buf[..n], b"[]{}[]");
}

#[test]
fn too_small_a_buffer_is_refused() {
    let mut buf = [0u8; 4];
    let mut ser = Serializer::new(&mut buf);
    assert_eq!(ser.serialize_str("hello"), Err(Error::BufferTooSmall));
    assert_eq!(ser.serialize_bool(false), Err(Error::BufferTooSmall));
    // Exactly fitting succeeds.
    let mut buf = [0u8; 4];
    let mut ser = Serializer::new(&mut buf);
    assert_eq!(ser.serialize_bool(true), Ok(()));
    assert_eq!(ser.position(), 4);
}

#[test]
fn a_refused_write_keeps_what_fit() {
    let mut buf = [0u8; 3];
    let mut w = ByteSliceWriter::new(&mut buf);
    assert!(w.write_all(b"ab").is_ok());
    assert_eq!(w.write_all(b"cd"), Err(Error::BufferTooSmall));
    assert_eq!(w.position(), 2);
    assert_eq!(&buf[..2], b"ab");
}

#[test]
fn integers_at_the_extremes() {
    let mut buf = [0u8; 128];
    let mut ser = Serializer::new(&mut buf);
    ser.serialize_i128(i128::MIN).unwrap();
    let n = ser.position();
    assert_eq!(&buf[..n], i128::MIN.to_string().as_bytes());
    let mut ser = Serializer::new(&mut buf);
    ser.serialize_u128(u128::MAX).unwrap();
    let n = ser.position();
    assert_eq!(&buf[..n], u128::MAX.to_string().as_bytes());
    let mut ser = Serializer::new(&mut buf);
    ser.serialize_i128(0).unwrap();
    let n = ser.position();
    assert_eq!(&buf[..n], b"0");
}

#[test]
fn bytes_are_an_array_of_numbers() {
    let mut buf = [0u8; 32];
    let mut ser = Serializer::new(&mut buf);
    ser.serialize_bytes(&[0, 7, 255]).unwrap();
    let n = ser.position();
    assert_eq!(&buf[..n], b"[0,7,255]");
    let mut ser = Serializer::new(&mut buf);
    ser.serialize_bytes(&[]).unwrap();
    let n = ser.position();
    assert_eq!(&buf[..n], b"[]");
}

#[test]
fn variants_are_wrapped_in_an_object() {
    let mut buf = [0u8; 64];
    let mut ser = Serializer::new(&mut buf);
    ser.begin_newtype_variant("Some").unwrap();
    ser.serialize_i128(1).unwrap();
    ser.end_newtype_variant().unwrap();
    let mut state = ser.serialize_tuple_variant("T", 2).unwrap();
    ser.begin_element(&mut state).unwrap();
    ser.serialize_unit().unwrap();
    ser.begin_element(&mut state).unwrap();
    ser.serialize_char('x').unwrap();
    ser.end_tuple_variant(state).unwrap();
    let state = ser.serialize_struct_variant("S", 0).unwrap();
    ser.end_struct_variant(state).unwrap();
    ser.serialize_unit_variant("U").unwrap();
    let n = ser.position();
    assert_eq!(
        core::str::from_utf8(&buf[..n]).unwrap(),
        r#"{"Some":1}{"T":[null,"x"]}{"S":{}}"U""#
    );
}

#[test]
fn integer_keys_are_quoted() {
    let mut buf = [0u8; 32];
    let mut ser = Serializer::new(&mut buf);
    ser.serialize_key_i128(-5).unwrap();
    ser.serialize_key_u128(17).unwrap();
    let n = ser.position();
    assert_eq!(&buf[..n], b"\"-5\"\"17\"");
}

#[test]
fn serialization_error_messages() {
    assert_eq!(Error::KeyMustBeAString.message(), "key must be a string");
    assert_eq!(Error::BufferTooSmall.message(), "buffer too small");
}

#[test]
fn escaped_strings_read_back_unchanged() {
    let samples = [
        "",
        "plain",
        "quote \" and backslash \\",
        "controls \u{0}\u{7}\u{8}\u{c}\u{1b}\u{1f}\r\n\t",
        "unicode ünïcødé ☃ 𝄞",
        "\u{7f} del stays",
    ];
    for s in samples {
        let mut buf = [0u8; 256];
        let mut ser = Serializer::new(&mut buf);
        ser.serialize_str(s).unwrap();
        let n = ser.position();
        let back: String = serde_json::from_slice(&buf[..n]).unwrap();
        assert_eq!(back, s);
        assert!(buf[1..n - 1].iter().all(|&b| b >= 0x20));
    }
}
