use gp_codec::deserializer::{
    gp_deserialize_prefix, GPDeserializer, GPDeserializerTrivial, GPDeserializerWithLength,
};
use gp_codec::serializer::{GPSerializer, GPSerializerTrivial, GPSerializerWithLength};

fn boundary_values() -> Vec<u64> {
    let mut values: Vec<u64> = vec![0, 1, 1u64 << 63, u64::MAX];
    for k in 1..9u32 {
        values.push((1u64 << (7 * k)) - 1);
        values.push(1u64 << (7 * k));
        values.push((1u64 << (7 * k)) + 1);
    }
    for k in 1..8u32 {
        values.push((1u64 << (8 * k)) - 1);
        values.push(1u64 << (8 * k));
    }
    values
}

#[test]
fn u64_round_trip_at_the_boundaries() {
    for x in boundary_values() {
        let encoded = x.gp_serialize();
        let mut decoded: u64 = !x;
        decoded.gp_deserialize(&encoded);
        assert_eq!(decoded, x);
    }
}

#[test]
fn u64_round_trip_over_a_spread_of_values() {
    // A fixed multiplicative walk through the whole range.
    let mut x: u64 = 0x9E37_79B9_7F4A_7C15;
    for i in 0..2000u32 {
        let value = x >> (i % 64);
        let encoded = value.gp_serialize();
        let mut decoded: u64 = 0;
        decoded.gp_deserialize(&encoded);
        assert_eq!(decoded, value);
        x = x.wrapping_mul(0xD133_7B5E_1A2C_4F77).wrapping_add(0x1234_5678_9ABC_DEF1);
    }
}

#[test]
fn u64_round_trip_through_the_prefix_reader() {
    for x in boundary_values() {
        let mut encoded = x.gp_serialize();
        let used = encoded.len();
        encoded.extend_from_slice(&[0xAB, 0xCD]);
        assert_eq!(gp_deserialize_prefix(&encoded), Ok((x, used)));
    }
}

#[test]
fn frame_round_trip() {
    for len in [0usize, 1, 4, 7, 8, 9, 126, 127, 128, 129, 255, 256, 16383, 16384, 70000] {
        let payload: Vec<u8> = (0..len).map(|i| (i * 31 + 7) as u8).collect();
        let frame = payload.gp_serialize_with_length();
        let mut decoded: Vec<u8> = vec![0xEE];
        assert_eq!(decoded.gp_deserialize_with_length(&frame), Ok(()));
        assert_eq!(decoded, payload);
    }
}

#[test]
fn frame_round_trip_of_a_payload_that_starts_with_ff() {
    let payload: Vec<u8> = vec![255, 199, 210, 40];
    let frame = payload.gp_serialize_with_length();
    assert_eq!(frame, vec![4, 255, 199, 210, 40]);
    let mut decoded: Vec<u8> = Vec::new();
    assert_eq!(decoded.gp_deserialize_with_length(&frame), Ok(()));
    assert_eq!(decoded, payload);
}

#[test]
fn slice_and_vec_frames_agree() {
    let payload: Vec<u8> = vec![3; 300];
    let slice: &[u8] = &payload;
    assert_eq!(slice.gp_serialize_with_length(), payload.gp_serialize_with_length());
    assert_eq!(slice.gp_serialize(), payload.gp_serialize());
}

#[test]
fn u32_fixed_round_trip_of_what_fits() {
    for l in 1..5u8 {
        let top: u64 = 1u64 << (8 * l as u32);
        for x in [0u64, 1, 127, 128, 255, top / 2, top - 2, top - 1] {
            if x < top {
                let value = x as u32;
                let encoded = value.gp_serialize_trivial(l);
                assert_eq!(encoded.len(), l as usize);
                let mut decoded: u32 = !value;
                decoded.gp_deserialize_trivial(&encoded, l);
                assert_eq!(decoded, value);
            }
        }
    }
}

#[test]
fn u32_fixed_round_trip_keeps_the_low_bits() {
    for l in 0..5u8 {
        for x in [0x1234_5678u32, 0xDEAD_BEEF, u32::MAX, 65536, 1] {
            let encoded = x.gp_serialize_trivial(l);
            let mut decoded: u32 = 0;
            decoded.gp_deserialize_trivial(&encoded, l);
            let mask: u64 = (1u64 << (8 * l as u32)) - 1;
            assert_eq!(decoded as u64, x as u64 & mask);
        }
    }
}

#[test]
fn u32_three_byte_round_trip() {
    for x in [0u32, 1, 127, 128, 255, 256, 1023, 1024, 16383, 65535, 65536] {
        let encoded = x.gp_serialize_trivial(3);
        let mut decoded: u32 = 0;
        decoded.gp_deserialize_trivial(&encoded, 3);
        assert_eq!(decoded, x);
    }
}
