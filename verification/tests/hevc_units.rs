use hevc_parser::utils::{add_start_code_emulation_prevention_3_byte, clear_start_code_emulation_prevention_3_byte};
use hdr10plus::error::Hdr10PlusError;
use hdr10plus::hevc::{encode_hdr10plus_nal, encode_hevc_from_json};
use hdr10plus::json::{BezierCurveData, Hdr10PlusJsonMetadata, LuminanceDistributions, LuminanceParameters};
use hdr10plus::metadata::Hdr10PlusMetadata;

fn json_frame() -> Hdr10PlusJsonMetadata {
    Hdr10PlusJsonMetadata {
        bezier_curve_data: Some(BezierCurveData {
            anchors: vec![265, 666, 741, 800, 848, 887, 920, 945, 957],
            knee_point_x: 17,
            knee_point_y: 64,
        }),
        luminance_parameters: LuminanceParameters {
            average_rgb: 1037,
            luminance_distributions: LuminanceDistributions {
                distribution_index: vec![1, 5, 10, 25, 50, 75, 90, 95, 99],
                distribution_values: vec![3, 14024, 43, 56, 219, 1036, 2714, 4668, 14445],
            },
            max_scl: vec![17830, 16895, 14252],
        },
        number_of_windows: 1,
        targeted_system_display_maximum_luminance: 400,
        scene_frame_index: 0,
        scene_id: 0,
        sequence_frame_index: 0,
    }
}

fn zero_frame() -> Hdr10PlusJsonMetadata {
    Hdr10PlusJsonMetadata {
        bezier_curve_data: None,
        luminance_parameters: LuminanceParameters {
            average_rgb: 0,
            luminance_distributions: LuminanceDistributions {
                distribution_index: vec![1, 5, 10, 25, 50, 75, 90, 95, 99],
                distribution_values: vec![0; 9],
            },
            max_scl: vec![0, 0, 0],
        },
        number_of_windows: 1,
        targeted_system_display_maximum_luminance: 0,
        scene_frame_index: 0,
        scene_id: 0,
        sequence_frame_index: 0,
    }
}

fn unescape(data: &[u8]) -> Vec<u8> {
    let mut out = Vec::new();
    for (i, b) in data.iter().enumerate() {
        if i >= 2 && data[i - 2] == 0 && data[i - 1] == 0 && *b == 3 {
            continue;
        }
        out.push(*b);
    }
    out
}

#[test]
fn nal_has_sei_header_and_stop_byte() {
    let m = Hdr10PlusMetadata::try_from(&json_frame()).unwrap();
    let t35 = m.encode(true).unwrap();
    let nal = encode_hdr10plus_nal(&m, true).unwrap();
    assert_eq!(&nal[..4], &[0x4E, 0x01, 0x04, t35.len() as u8]);
    assert_eq!(*nal.last().unwrap(), 0x80);
    let plain = unescape(&nal);
    assert_eq!(&plain[4..plain.len() - 1], &t35[..]);
}

#[test]
fn nal_escapes_zero_runs() {
    let nal = encode_hevc_from_json(&zero_frame(), true).unwrap();
    for i in 3..nal.len() {
        if nal[i - 2] == 0 && nal[i - 1] == 0 {
            assert!(nal[i] > 3 || nal[i] == 3);
        }
    }
    let m = Hdr10PlusMetadata::try_from(&zero_frame()).unwrap();
    let t35 = m.encode(true).unwrap();
    let plain = unescape(&nal);
    assert_eq!(&plain[4..plain.len() - 1], &t35[..]);
    assert!(nal.len() > plain.len());
}

#[test]
fn nal_reports_validation_errors() {
    let mut f = json_frame();
    f.targeted_system_display_maximum_luminance = 20000;
    assert_eq!(
        encode_hevc_from_json(&f, true),
        Err(Hdr10PlusError::TargetedSystemDisplayMaximumLuminanceOverLimit(20000))
    );
    assert!(encode_hevc_from_json(&f, false).is_ok());
}

#[test]
fn encode_binary_matches_unvalidated_nal() {
    let f = json_frame();
    let m = Hdr10PlusMetadata::try_from(&f).unwrap();
    assert_eq!(f.encode_binary(true), encode_hdr10plus_nal(&m, false).unwrap());
}

#[test]
fn truncating_nal_cuts_values() {
    let mut f = zero_frame();
    f.targeted_system_display_maximum_luminance = (1 << 27) + 5;
    let m = Hdr10PlusMetadata::try_from(&f).unwrap();
    let mut cut = m.duplicate();
    cut.targeted_system_display_maximum_luminance = 5;
    assert_eq!(m.encode_nal_truncating(), encode_hdr10plus_nal(&cut, false).unwrap());
    assert_eq!(f.encode_binary(false), m.encode_nal_truncating());
}

#[test]
fn escaping_then_unescaping_gives_the_data_back() {
    let cases: Vec<Vec<u8>> = vec![
        vec![],
        vec![0, 0, 0],
        vec![1, 0, 0, 3],
        vec![0, 0, 0, 1],
        vec![7, 0, 0, 0, 0, 0, 2, 0, 0, 3, 9],
    ];
    for data in cases {
        let mut escaped = data.clone();
        add_start_code_emulation_prevention_3_byte(&mut escaped);
        assert_eq!(clear_start_code_emulation_prevention_3_byte(&escaped), data);
    }
    let mut opening = vec![0u8, 0, 3, 5];
    add_start_code_emulation_prevention_3_byte(&mut opening);
    assert_eq!(clear_start_code_emulation_prevention_3_byte(&opening), vec![0, 0, 5]);
}

#[test]
fn encoded_nal_unescapes_to_header_payload_and_stop_byte() {
    let meta = Hdr10PlusMetadata::try_from(&zero_frame()).unwrap();
    let t35 = meta.encode(true).unwrap();
    let nal = encode_hdr10plus_nal(&meta, true).unwrap();
    let mut expected = vec![0x4E, 0x01, 0x04, t35.len() as u8];
    expected.extend_from_slice(&t35);
    expected.push(0x80);
    assert_eq!(unescape(&nal), expected);
}
