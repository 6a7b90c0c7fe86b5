use parity_scale_codec::Compact;
use parity_scale_codec::Encode;
use proto_mux::scale::decode_bytes;
use proto_mux::scale::decode_compact_u32;
use proto_mux::scale::decode_u64_le;
use proto_mux::scale::encode_bytes;
use proto_mux::scale::encode_compact_u32;
use proto_mux::scale::encode_u64_le;

#[test]
fn compact_encoding_matches_reference_codec() {
    let cases: Vec<u32> = vec![0, 1, 63, 64, 255, 16383, 16384, 65535, (1 << 30) - 1, 1 << 30, u32::MAX];
    for v in cases {
        let mut mine: Vec<u8> = Vec::new();
        encode_compact_u32(v, &mut mine);
        assert_eq!(mine, Compact(v).encode(), "compact encoding of {v}");
        let (back, used) = decode_compact_u32(&mine, 0).unwrap();
        assert_eq!(back, v);
        assert_eq!(used, mine.len());
    }
}

#[test]
fn u64_encoding_matches_reference_codec() {
    let cases: Vec<u64> = vec![0, 5, 42, u64::MAX, 0x0102_0304_0506_0708];
    for v in cases {
        let mut mine: Vec<u8> = Vec::new();
        encode_u64_le(v, &mut mine);
        assert_eq!(mine, v.encode(), "u64 encoding of {v}");
        let (back, used) = decode_u64_le(&mine, 0).unwrap();
        assert_eq!(back, v);
        assert_eq!(used, 8);
    }
}

#[test]
fn byte_string_round_trip() {
    let payload: Vec<u8> = vec![9, 8, 7, 6, 5];
    let mut mine: Vec<u8> = Vec::new();
    encode_bytes(&payload, &mut mine);
    assert_eq!(mine, payload.encode());
    let (back, used) = decode_bytes(&mine, 0).unwrap();
    assert_eq!(back, payload);
    assert_eq!(used, mine.len());
}

#[test]
fn decoders_reject_malformed_input() {
    // too short for a u64
    assert!(decode_u64_le(&vec![1, 2, 3], 0).is_none());
    // two-byte compact mode with only one byte present
    assert!(decode_compact_u32(&vec![0b01], 0).is_none());
    // non-canonical two-byte compact holding a value under 64
    assert!(decode_compact_u32(&vec![0b01, 0], 0).is_none());
    // big-value marker byte with a short payload
    assert!(decode_compact_u32(&vec![3, 1, 2], 0).is_none());
    // length prefix promising more bytes than are present
    assert!(decode_bytes(&vec![16, 1, 2], 0).is_none());
}
