use mc_protocol::codec::{
    read_sized_bytes, read_string, read_uuid, read_var_int, read_var_long, size_var_int,
    write_string, write_uuid, write_var_int, write_var_long, TransportError,
};

#[test]
fn var_int_known_encodings() {
    let cases: Vec<(i32, Vec<u8>)> = vec![
        (0, vec![0x00]),
        (1, vec![0x01]),
        (127, vec![0x7f]),
        (128, vec![0x80, 0x01]),
        (255, vec![0xff, 0x01]),
        (25565, vec![0xdd, 0xc7, 0x01]),
        (2097151, vec![0xff, 0xff, 0x7f]),
        (i32::MAX, vec![0xff, 0xff, 0xff, 0xff, 0x07]),
        (-1, vec![0xff, 0xff, 0xff, 0xff, 0x0f]),
        (i32::MIN, vec![0x80, 0x80, 0x80, 0x80, 0x08]),
    ];
    for (v, bytes) in cases {
        let mut out = Vec::new();
        write_var_int(&mut out, v);
        assert_eq!(out, bytes);
        assert_eq!(size_var_int(v), bytes.len());
        assert_eq!(read_var_int(&bytes, 0).unwrap(), (v, bytes.len()));
    }
}

#[test]
fn var_long_extremes_roundtrip() {
    for v in [0i64, 1, -1, i64::MAX, i64::MIN, 9_876_543_210] {
        let mut out = Vec::new();
        write_var_long(&mut out, v);
        assert!(out.len() <= 10);
        assert_eq!(read_var_long(&out, 0).unwrap(), (v, out.len()));
    }
    let mut out = Vec::new();
    write_var_long(&mut out, -1);
    assert_eq!(out.len(), 10);
}

#[test]
fn var_int_too_long_is_refused() {
    let bytes = [0x80, 0x80, 0x80, 0x80, 0x80, 0x01];
    assert_eq!(read_var_int(&bytes, 0), Err(TransportError::VarNumTooLarge));
}

#[test]
fn var_int_cut_short_is_end_of_input() {
    assert_eq!(read_var_int(&[0x80], 0), Err(TransportError::EndOfInput));
    assert_eq!(read_var_int(&[], 0), Err(TransportError::EndOfInput));
}

#[test]
fn string_roundtrip_and_limits() {
    let mut out = Vec::new();
    write_string(&mut out, "héllo", 100).unwrap();
    assert_eq!(out[0], 6);
    assert_eq!(read_string(&out, 0, 100).unwrap(), ("héllo".to_string(), 7));
    assert_eq!(read_string(&out, 0, 5), Err(TransportError::LimitExceeded(5, 6)));
    let mut refused = vec![9];
    assert_eq!(
        write_string(&mut refused, "too long", 3),
        Err(TransportError::LimitExceeded(3, 8))
    );
    assert_eq!(refused, vec![9]);
}

#[test]
fn string_invalid_utf8_and_short_input() {
    assert_eq!(read_string(&[2, 0xff, 0xfe], 0, 10), Err(TransportError::InvalidUtf8));
    assert_eq!(read_string(&[3, b'a'], 0, 10), Err(TransportError::EndOfInput));
}

#[test]
fn uuid_roundtrip_is_big_endian() {
    let id: u128 = 0x0011_2233_4455_6677_8899_aabb_ccdd_eeff;
    let mut out = Vec::new();
    write_uuid(&mut out, id);
    assert_eq!(out[0], 0x00);
    assert_eq!(out[15], 0xff);
    assert_eq!(read_uuid(&out, 0).unwrap(), (id, 16));
    assert_eq!(read_uuid(&out[..15], 0), Err(TransportError::EndOfInput));
}

#[test]
fn sized_bytes_refuse_negative_length() {
    assert_eq!(read_sized_bytes(&[2, 7, 8, 9], 0).unwrap(), (vec![7, 8], 3));
    assert_eq!(
        read_sized_bytes(&[0xff, 0xff, 0xff, 0xff, 0x0f], 0),
        Err(TransportError::EndOfInput)
    );
}

#[test]
fn transport_error_messages() {
    assert_eq!(TransportError::EndOfInput.message(), "Unexpected end of input.");
    assert_eq!(
        TransportError::LimitExceeded(16, -20).message(),
        "Length -20 exceeds the limit of 16."
    );
    assert_eq!(TransportError::Explain("why".to_string()).message(), "why");
}
