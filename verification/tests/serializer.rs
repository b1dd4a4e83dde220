use gp_codec::error::GPError;
use gp_codec::serializer::{
    gp_serialize_trivial_checked, GPSerializer, GPSerializerTrivial, GPSerializerWithLength,
};

#[test]
fn test_byte_slice_serialization() {
    let data: &[u8] = &[1, 2, 3, 4];
    assert_eq!(data.gp_serialize(), vec![1, 2, 3, 4]);
}

#[test]
fn test_byte_slice_serialization_with_length() {
    let data: &[u8] = &[1, 2, 3, 4];
    let mut expected = vec![4];
    expected.extend_from_slice(&[1, 2, 3, 4]);
    assert_eq!(data.gp_serialize_with_length(), expected);
}

#[test]
fn test_vec_serialization() {
    let data: Vec<u8> = vec![1, 2, 3, 4];
    assert_eq!(data.gp_serialize(), vec![1, 2, 3, 4]);
}

#[test]
fn test_vec_serialization_with_length() {
    let data: Vec<u8> = vec![1, 2, 3, 4];
    let mut expected = vec![4];
    expected.extend_from_slice(&[1, 2, 3, 4]);
    assert_eq!(data.gp_serialize_with_length(), expected);
}

#[test]
fn test_u64_serialization() {
    let value: u64 = 0;
    assert_eq!(value.gp_serialize(), vec![0]);

    let value: u64 = 1;
    assert_eq!(value.gp_serialize(), vec![1]);

    let value: u64 = 255;
    assert_eq!(value.gp_serialize(), vec![128, 255]);

    let value: u64 = 256;
    assert_eq!(value.gp_serialize(), vec![129, 0]);
}

#[test]
fn test_u32_serialization() {
    let value: u32 = 0;
    assert_eq!(value.gp_serialize_trivial(1), vec![0]);

    let value: u32 = 1;
    assert_eq!(value.gp_serialize_trivial(1), vec![1]);

    let value: u32 = 255;
    assert_eq!(value.gp_serialize_trivial(2), vec![255, 0]);

    let value: u32 = 256;
    assert_eq!(value.gp_serialize_trivial(2), vec![0, 1]);
}

#[test]
fn u64_one_byte_values() {
    assert_eq!(0u64.gp_serialize(), vec![0x00]);
    assert_eq!(1u64.gp_serialize(), vec![0x01]);
    assert_eq!(127u64.gp_serialize(), vec![0x7F]);
}

#[test]
fn u64_two_byte_values() {
    assert_eq!(128u64.gp_serialize(), vec![0x80, 0x80]);
    assert_eq!(255u64.gp_serialize(), vec![0x80, 0xFF]);
    assert_eq!(256u64.gp_serialize(), vec![0x81, 0x00]);
    assert_eq!(0x3FFFu64.gp_serialize(), vec![0xBF, 0xFF]);
}

#[test]
fn u64_prefix_holds_the_high_bits() {
    // 0x4000 needs three bytes: two leading ones, then the bits above 16.
    assert_eq!(0x4000u64.gp_serialize(), vec![0xC0, 0x00, 0x40]);
    assert_eq!(0x1F_FFFFu64.gp_serialize(), vec![0xDF, 0xFF, 0xFF]);
    assert_eq!(0x12_3456u64.gp_serialize(), vec![0xC0 + 0x12, 0x56, 0x34]);
    assert_eq!(
        0x0123_4567_89ABu64.gp_serialize(),
        vec![0xF8 + 0x01, 0xAB, 0x89, 0x67, 0x45, 0x23]
    );
}

#[test]
fn u64_eight_byte_form_has_prefix_fe() {
    assert_eq!(
        ((1u64 << 56) - 1).gp_serialize(),
        vec![0xFE, 0xFF, 0xFF, 0xFF, 0xFF, 0xFF, 0xFF, 0xFF]
    );
    assert_eq!(
        (1u64 << 49).gp_serialize(),
        vec![0xFE, 0, 0, 0, 0, 0, 0, 0x02]
    );
}

#[test]
fn u64_nine_byte_form() {
    assert_eq!(
        (1u64 << 63).gp_serialize(),
        vec![0xFF, 0, 0, 0, 0, 0, 0, 0, 0x80]
    );
    assert_eq!(
        (1u64 << 56).gp_serialize(),
        vec![0xFF, 0, 0, 0, 0, 0, 0, 0, 0x01]
    );
    assert_eq!(u64::MAX.gp_serialize(), vec![0xFF; 9]);
}

#[test]
fn u64_length_follows_the_thresholds() {
    for k in 0..8u32 {
        let bound: u64 = 1u64 << (7 * (k + 1));
        assert_eq!((bound - 1).gp_serialize().len(), k as usize + 1);
        assert_eq!(bound.gp_serialize().len(), k as usize + 2);
    }
    assert_eq!(0u64.gp_serialize().len(), 1);
    assert_eq!(u64::MAX.gp_serialize().len(), 9);
}

#[test]
fn u64_first_byte_tells_the_length() {
    let mut values: Vec<u64> = vec![0, 1, u64::MAX, 1u64 << 63];
    for k in 1..9u32 {
        values.push((1u64 << (7 * k)) - 1);
        values.push(1u64 << (7 * k));
    }
    for x in values {
        let e = x.gp_serialize();
        if e.len() <= 8 {
            assert_eq!(e[0].leading_ones() as usize, e.len() - 1);
        } else {
            assert_eq!(e.len(), 9);
            assert_eq!(e[0], 0xFF);
        }
    }
}

#[test]
fn u32_fixed_width_truncates() {
    assert_eq!(0x1234_5678u32.gp_serialize_trivial(1), vec![0x78]);
    assert_eq!(0x1234_5678u32.gp_serialize_trivial(2), vec![0x78, 0x56]);
    assert_eq!(0x1234_5678u32.gp_serialize_trivial(3), vec![0x78, 0x56, 0x34]);
    assert_eq!(256u32.gp_serialize_trivial(1), vec![0]);
}

#[test]
fn u32_fixed_width_four_is_little_endian() {
    for x in [0u32, 1, 255, 256, 65535, 65536, 0x1234_5678, 0xDEAD_BEEF, u32::MAX] {
        assert_eq!(x.gp_serialize_trivial(4), x.to_le_bytes().to_vec());
    }
}

#[test]
fn u32_fixed_width_zero_is_empty() {
    assert_eq!(0u32.gp_serialize_trivial(0), Vec::<u8>::new());
    assert_eq!(77u32.gp_serialize_trivial(0), Vec::<u8>::new());
}

#[test]
fn u32_checked_accepts_what_fits() {
    assert_eq!(gp_serialize_trivial_checked(255, 1), Ok(vec![255]));
    assert_eq!(gp_serialize_trivial_checked(255, 2), Ok(vec![255, 0]));
    assert_eq!(gp_serialize_trivial_checked(0xFF_FFFF, 3), Ok(vec![255, 255, 255]));
    assert_eq!(gp_serialize_trivial_checked(u32::MAX, 4), Ok(vec![255; 4]));
    assert_eq!(gp_serialize_trivial_checked(0, 0), Ok(vec![]));
}

#[test]
fn u32_checked_reports_overflow() {
    assert_eq!(gp_serialize_trivial_checked(256, 1), Err(GPError::OverflowOnTrivial));
    assert_eq!(gp_serialize_trivial_checked(65536, 2), Err(GPError::OverflowOnTrivial));
    assert_eq!(gp_serialize_trivial_checked(0x100_0000, 3), Err(GPError::OverflowOnTrivial));
    assert_eq!(gp_serialize_trivial_checked(1, 0), Err(GPError::OverflowOnTrivial));
}

#[test]
fn frame_of_nothing_is_one_zero_byte() {
    let data: Vec<u8> = Vec::new();
    assert_eq!(data.gp_serialize_with_length(), vec![0]);
}

#[test]
fn frame_header_grows_with_the_payload() {
    let data: Vec<u8> = vec![7; 127];
    let frame = data.gp_serialize_with_length();
    assert_eq!(frame.len(), 128);
    assert_eq!(frame[0], 127);

    let data: Vec<u8> = vec![7; 128];
    let frame = data.gp_serialize_with_length();
    assert_eq!(frame.len(), 130);
    assert_eq!(&frame[..2], &[0x80, 0x80]);
    assert_eq!(&frame[2..], &data[..]);

    let data: Vec<u8> = vec![9; 0x4000];
    let frame = data.gp_serialize_with_length();
    assert_eq!(frame.len(), 0x4000 + 3);
    assert_eq!(&frame[..3], &[0xC0, 0x00, 0x40]);
}
