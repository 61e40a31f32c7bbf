use rax_memory::codec::{BinaryDecodeError, BinaryDecoder, BinaryEncoder};

#[test]
fn binary_codec_round_trip_primitives() {
    let mut enc = BinaryEncoder::new();
    enc.put_u8(7);
    enc.put_u32(42);
    enc.put_u64(9_999);
    enc.put_string("mv2s");
    enc.put_bytes(&[1, 2, 3]);

    let bytes = enc.finish();
    let mut dec = BinaryDecoder::new(&bytes);

    assert_eq!(dec.get_u8().unwrap(), 7);
    assert_eq!(dec.get_u32().unwrap(), 42);
    assert_eq!(dec.get_u64().unwrap(), 9_999);
    assert_eq!(dec.get_string().unwrap(), "mv2s");
    assert_eq!(dec.get_bytes().unwrap(), vec![1, 2, 3]);
}

#[test]
fn binary_codec_matches_frozen_spec_vectors() {
    let mut enc = BinaryEncoder::new();
    enc.put_u8(7);
    enc.put_u32(42);
    enc.put_u64(9_999);
    enc.put_string("mv2s");
    enc.put_bytes(&[1, 2, 3]);
    let got = enc.finish();

    let expected: Vec<u8> = vec![
        0x07, 0x2a, 0x00, 0x00, 0x00, 0x0f, 0x27, 0x00, 0x00, 0x00, 0x00, 0x00, 0x00, 0x04, 0x00,
        0x00, 0x00, 0x6d, 0x76, 0x32, 0x73, 0x03, 0x00, 0x00, 0x00, 0x01, 0x02, 0x03,
    ];
    assert_eq!(got, expected);

    let mut dec = BinaryDecoder::new(&got);
    assert_eq!(dec.get_u8().unwrap(), 7);
    assert_eq!(dec.get_u32().unwrap(), 42);
    assert_eq!(dec.get_u64().unwrap(), 9_999);
    assert_eq!(dec.get_string().unwrap(), "mv2s");
    assert_eq!(dec.get_bytes().unwrap(), vec![1, 2, 3]);
}

#[test]
fn decoder_reports_eof_on_short_input() {
    let bytes = [1u8, 2, 3];
    let mut dec = BinaryDecoder::new(&bytes);
    assert_eq!(dec.get_u32(), Err(BinaryDecodeError::UnexpectedEof));
    assert_eq!(dec.get_u8(), Ok(1));
    assert_eq!(dec.get_u64(), Err(BinaryDecodeError::UnexpectedEof));
}

#[test]
fn decoder_reports_eof_when_blob_is_truncated() {
    let mut enc = BinaryEncoder::new();
    enc.put_u32(10);
    enc.put_u8(1);
    let bytes = enc.finish();
    let mut dec = BinaryDecoder::new(&bytes);
    assert_eq!(dec.get_bytes(), Err(BinaryDecodeError::UnexpectedEof));
}

#[test]
fn decoder_rejects_invalid_utf8() {
    let mut enc = BinaryEncoder::new();
    enc.put_bytes(&[0xff, 0xfe]);
    let bytes = enc.finish();
    let mut dec = BinaryDecoder::new(&bytes);
    assert_eq!(dec.get_string(), Err(BinaryDecodeError::Utf8));
}

#[test]
fn codec_round_trips_multibyte_strings_and_empty_blobs() {
    let mut enc = BinaryEncoder::new();
    enc.put_string("héllo wörld");
    enc.put_bytes(&[]);
    enc.put_u64(u64::MAX);
    let bytes = enc.finish();
    assert_eq!(bytes.len(), 4 + "héllo wörld".len() + 4 + 8);
    let mut dec = BinaryDecoder::new(&bytes);
    assert_eq!(dec.get_string().unwrap(), "héllo wörld");
    assert_eq!(dec.get_bytes().unwrap(), Vec::<u8>::new());
    assert_eq!(dec.get_u64().unwrap(), u64::MAX);
    assert_eq!(dec.get_u8(), Err(BinaryDecodeError::UnexpectedEof));
}
