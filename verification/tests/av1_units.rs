use hdr10plus::av1::{
    decode_leb128, encode_av1_from_json, encode_hdr10plus_obu, encode_leb128,
    extract_hdr10plus_t35_bytes, frame_t35_payload, is_hdr10plus_obu, FramePayloadError, Obu, OBU_METADATA,
};
use hdr10plus::error::Hdr10PlusError;
use hdr10plus::json::{BezierCurveData, Hdr10PlusJsonMetadata, LuminanceDistributions, LuminanceParameters};
use hdr10plus::metadata::{Hdr10PlusMetadata, Hdr10PlusMetadataEncOpts};

fn json_frame() -> Hdr10PlusJsonMetadata {
    Hdr10PlusJsonMetadata {
        bezier_curve_data: Some(BezierCurveData {
            anchors: vec![265, 666, 741, 800, 848, 887, 920, 945, 957],
            knee_point_x: 17,
            knee_point_y: 64,
        }),
        luminance_parameters: LuminanceParameters {
            average_rgb: 1037,
            luminance_distributions: LuminanceDistributions {
                distribution_index: vec![1, 5, 10, 25, 50, 75, 90, 95, 99],
                distribution_values: vec![3, 14024, 43, 56, 219, 1036, 2714, 4668, 14445],
            },
            max_scl: vec![17830, 16895, 14252],
        },
        number_of_windows: 1,
        targeted_system_display_maximum_luminance: 400,
        scene_frame_index: 0,
        scene_id: 0,
        sequence_frame_index: 0,
    }
}

#[test]
fn leb128_encodes_known_values() {
    assert_eq!(encode_leb128(0), vec![0x00]);
    assert_eq!(encode_leb128(127), vec![0x7F]);
    assert_eq!(encode_leb128(128), vec![0x80, 0x01]);
    assert_eq!(encode_leb128(300), vec![0xAC, 0x02]);
    assert_eq!(encode_leb128(624485), vec![0xE5, 0x8E, 0x26]);
}

#[test]
fn leb128_decodes_known_values() {
    assert_eq!(decode_leb128(&[0xE5, 0x8E, 0x26]), (624485, 3));
    assert_eq!(decode_leb128(&[0xAC, 0x02, 0xFF]), (300, 2));
    assert_eq!(decode_leb128(&[]), (0, 0));
    assert_eq!(decode_leb128(&[0x80, 0x80]), (0, 2));
}

#[test]
fn leb128_decode_reads_at_most_eight_bytes() {
    let data = [0x81u8; 10];
    let (value, read) = decode_leb128(&data);
    assert_eq!(read, 8);
    let mut expected = 0u64;
    for i in 0..8 {
        expected |= 1u64 << (7 * i);
    }
    assert_eq!(value, expected);
}

#[test]
fn leb128_roundtrip_with_trailing_bytes() {
    for v in [0u64, 1, 127, 128, 16383, 16384, 1 << 40, (1 << 56) - 1] {
        let mut bytes = encode_leb128(v);
        let n = bytes.len();
        bytes.extend_from_slice(&[0x7F, 0x80]);
        assert_eq!(decode_leb128(&bytes), (v, n));
    }
}

#[test]
fn obu_has_header_size_and_payload() {
    let m = Hdr10PlusMetadata::try_from(&json_frame()).unwrap();
    let t35 = m.encode(true).unwrap();
    let obu = encode_hdr10plus_obu(&m, true).unwrap();
    assert_eq!(obu[0], 0x2A);
    let (size, n) = decode_leb128(&obu[1..]);
    assert_eq!(size as usize, t35.len() + 1);
    assert_eq!(obu[1 + n], 0x04);
    assert_eq!(&obu[2 + n..], &t35[..]);
}

#[test]
fn extract_gives_back_the_t35_payload() {
    let m = Hdr10PlusMetadata::try_from(&json_frame()).unwrap();
    let t35 = m.encode(true).unwrap();
    let obu = encode_av1_from_json(&json_frame(), true).unwrap();
    let (_size, n) = decode_leb128(&obu[1..]);
    let payload = &obu[1 + n..];
    assert_eq!(extract_hdr10plus_t35_bytes(payload, true), Some(t35.clone()));
    let parsed = Hdr10PlusMetadata::parse(&t35).unwrap();
    assert_eq!(parsed.average_maxrgb, 1037);
}

#[test]
fn extract_rejects_other_payloads() {
    assert_eq!(extract_hdr10plus_t35_bytes(&[], true), None);
    assert_eq!(extract_hdr10plus_t35_bytes(&[5, 0xB5, 0, 0x3C, 0, 1, 4, 1], true), None);
    assert_eq!(extract_hdr10plus_t35_bytes(&[4, 0xB5, 0, 0x3C, 0, 1, 4], true), None);
    assert_eq!(extract_hdr10plus_t35_bytes(&[4, 0xB4, 0, 0x3C, 0, 1, 4, 1], true), None);
    assert_eq!(extract_hdr10plus_t35_bytes(&[4, 0xB5, 0, 0x3D, 0, 1, 4, 1], true), None);
    assert_eq!(extract_hdr10plus_t35_bytes(&[4, 0xB5, 0, 0x3C, 0, 2, 4, 1], true), None);
    assert_eq!(extract_hdr10plus_t35_bytes(&[4, 0xB5, 0, 0x3C, 0, 1, 5, 1], true), None);
}

#[test]
fn extract_version_rule_depends_on_validation() {
    let zero = [4u8, 0xB5, 0, 0x3C, 0, 1, 4, 0, 9];
    assert_eq!(extract_hdr10plus_t35_bytes(&zero, true), None);
    assert_eq!(extract_hdr10plus_t35_bytes(&zero, false), Some(zero[1..].to_vec()));
    let two = [4u8, 0xB5, 0, 0x3C, 0, 1, 4, 2];
    assert_eq!(extract_hdr10plus_t35_bytes(&two, false), None);
}

#[test]
fn hdr10plus_obu_needs_metadata_type() {
    let payload = vec![4u8, 0xB5, 0, 0x3C, 0, 1, 4, 1];
    let obu = Obu { obu_type: OBU_METADATA, payload: payload.clone(), raw_bytes: vec![] };
    assert!(is_hdr10plus_obu(&obu, true));
    let other = Obu { obu_type: 6, payload, raw_bytes: vec![] };
    assert!(!is_hdr10plus_obu(&other, true));
}

#[test]
fn av1_json_errors_come_from_conversion() {
    let mut f = json_frame();
    f.luminance_parameters.max_scl = vec![1, 2];
    assert_eq!(encode_av1_from_json(&f, true), Err(Hdr10PlusError::InvalidMaxSclLength));
}

#[test]
fn av1_obu_parses_back_to_the_metadata() {
    let m = Hdr10PlusMetadata::try_from(&json_frame()).unwrap();
    let obu = encode_hdr10plus_obu(&m, true).unwrap();
    let (size, n) = decode_leb128(&obu[1..]);
    let payload = &obu[1 + n..];
    assert_eq!(size as usize, payload.len());
    let t35 = extract_hdr10plus_t35_bytes(payload, true).unwrap();
    let back = Hdr10PlusMetadata::parse(&t35).unwrap();
    assert_eq!(back.maxscl, m.maxscl);
    assert_eq!(back.average_maxrgb, m.average_maxrgb);
    assert_eq!(back.distribution_maxrgb, m.distribution_maxrgb);
    assert_eq!(back.targeted_system_display_maximum_luminance, m.targeted_system_display_maximum_luminance);
    assert_eq!(back.bezier_curve.as_ref().map(|b| b.bezier_curve_anchors.clone()), m.bezier_curve.as_ref().map(|b| b.bezier_curve_anchors.clone()));
    assert_eq!(back.profile, m.profile);
}

#[test]
fn frame_payloads_of_a_document() {
    let mut bad = json_frame();
    bad.luminance_parameters.max_scl = vec![1, 2];
    let frames = vec![json_frame(), bad];
    let expected = Hdr10PlusMetadata::try_from(&json_frame()).unwrap().encode(true).unwrap();
    assert_eq!(frame_t35_payload(&frames, 0), Ok(expected));
    assert_eq!(frame_t35_payload(&frames, 1), Err(FramePayloadError::Metadata(Hdr10PlusError::InvalidMaxSclLength)));
    assert_eq!(frame_t35_payload(&frames, 2), Err(FramePayloadError::NoMetadataForFrame(2)));
}

#[test]
fn av1_obu_is_found_whether_extraction_validates_or_not() {
    let m = Hdr10PlusMetadata::try_from(&json_frame()).unwrap();
    let obu = encode_hdr10plus_obu(&m, false).unwrap();
    let (_, n) = decode_leb128(&obu[1..]);
    let payload = &obu[1 + n..];
    let t35 = m.encode_with_opts(&Hdr10PlusMetadataEncOpts { validate: false, with_country_code: true }).unwrap();
    assert_eq!(extract_hdr10plus_t35_bytes(payload, true), Some(t35.clone()));
    assert_eq!(extract_hdr10plus_t35_bytes(payload, false), Some(t35));
}

#[test]
fn encoding_without_the_country_code_drops_its_byte() {
    let m = Hdr10PlusMetadata::try_from(&json_frame()).unwrap();
    for validate in [true, false] {
        let with = m.encode_with_opts(&Hdr10PlusMetadataEncOpts { validate, with_country_code: true }).unwrap();
        let without = m.encode_with_opts(&Hdr10PlusMetadataEncOpts { validate, with_country_code: false }).unwrap();
        assert_eq!(with[0], 0xB5);
        assert_eq!(with[1..].to_vec(), without);
    }
}

#[test]
fn parsing_recomputes_the_profile_and_drops_an_unused_weight() {
    let mut m = Hdr10PlusMetadata::try_from(&json_frame()).unwrap();
    let expected_profile = m.profile.clone();
    m.profile = "made up".to_string();
    m.color_saturation_mapping_flag = false;
    m.color_saturation_weight = 9;
    let bytes = m.encode_with_opts(&Hdr10PlusMetadataEncOpts { validate: false, with_country_code: true }).unwrap();
    let back = Hdr10PlusMetadata::parse(&bytes).unwrap();
    assert_eq!(back.profile, expected_profile);
    assert_eq!(back.color_saturation_weight, 0);
    assert_eq!(back.maxscl, m.maxscl);
    assert_eq!(back.distribution_maxrgb, m.distribution_maxrgb);
    assert_eq!(back.fraction_bright_pixels, m.fraction_bright_pixels);
}
