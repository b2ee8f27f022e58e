use alice_font::hash::fnv1a;
use alice_font::license::FontLicense;
use alice_font::param::ParamBits;

/// The regular sans-serif preset.
fn sans_regular() -> ParamBits {
    from_floats([0.45, 1.0, 0.0, 0.15, 0.0, 0.52, 0.72, 0.80, 0.22, 0.3])
}

fn from_floats(f: [f32; 10]) -> ParamBits {
    ParamBits {
        weight: f[0].to_bits(),
        width: f[1].to_bits(),
        serif: f[2].to_bits(),
        contrast: f[3].to_bits(),
        slant: f[4].to_bits(),
        x_height: f[5].to_bits(),
        cap_height: f[6].to_bits(),
        ascender: f[7].to_bits(),
        descender: f[8].to_bits(),
        roundness: f[9].to_bits(),
    }
}

#[test]
fn test_param_size() {
    assert_eq!(core::mem::size_of::<ParamBits>(), 40);
    assert_eq!(ParamBits::SIZE, 40);
}

#[test]
fn param_test_encode_decode_roundtrip() {
    let params = sans_regular();
    let encoded = params.encode();
    assert_eq!(encoded.len(), 40);
    let decoded = ParamBits::decode(&encoded);
    assert!((f32::from_bits(decoded.weight) - f32::from_bits(params.weight)).abs() < 1e-6);
    assert!((f32::from_bits(decoded.serif) - f32::from_bits(params.serif)).abs() < 1e-6);
    assert!((f32::from_bits(decoded.slant) - f32::from_bits(params.slant)).abs() < 1e-6);
}

#[test]
fn test_param_encode_layout() {
    let params = ParamBits {
        weight: 0x0403_0201,
        width: 0x0807_0605,
        serif: 0x0C0B_0A09,
        contrast: 0x100F_0E0D,
        slant: 0x1413_1211,
        x_height: 0x1817_1615,
        cap_height: 0x1C1B_1A19,
        ascender: 0x201F_1E1D,
        descender: 0x2423_2221,
        roundness: 0x2827_2625,
    };
    let mut expected = [0u8; 40];
    for (i, b) in expected.iter_mut().enumerate() {
        *b = i as u8 + 1;
    }
    assert_eq!(params.encode(), expected);
    assert_eq!(ParamBits::decode(&expected), params);
}

#[test]
fn test_param_encode_is_the_bytes_of_the_floats() {
    let floats = [0.45f32, 1.0, 0.0, 0.15, 0.0, 0.52, 0.72, 0.80, 0.22, 0.3];
    let mut expected = [0u8; 40];
    for (i, f) in floats.iter().enumerate() {
        expected[i * 4..i * 4 + 4].copy_from_slice(&f.to_le_bytes());
    }
    assert_eq!(sans_regular().encode(), expected);
}

#[test]
fn test_param_roundtrip_both_ways() {
    let params = from_floats([0.95, 0.7, 0.0, 0.05, 0.0, 0.60, 0.75, 0.80, 0.18, 0.1]);
    assert_eq!(ParamBits::decode(&params.encode()), params);
    let mut data = [0u8; 40];
    for (i, b) in data.iter_mut().enumerate() {
        *b = (i as u8).wrapping_mul(37).wrapping_add(200);
    }
    assert_eq!(ParamBits::decode(&data).encode(), data);
    let all_ones = [0xFFu8; 40];
    assert_eq!(ParamBits::decode(&all_ones).roundness, u32::MAX);
    assert_eq!(ParamBits::decode(&all_ones).encode(), all_ones);
}

#[test]
fn test_license_binds_the_encoded_block() {
    let block = sans_regular().encode();
    let license = FontLicense::parametric_free(&block);
    assert_eq!(license.params_hash, fnv1a(&block));
}
