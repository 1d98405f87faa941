use hdr10plus::json::{BezierCurveData, Hdr10PlusJsonMetadata, LuminanceDistributions, LuminanceParameters};
use hdr10plus::llc::{
    llc_json, llc_payload_readable, llc_read_metadata, parse_itu_t35_sei_payload, process_bytes, remove_x265_injected_byte,
    LlcScanError, LlcWarning, Metadata, ScanStep, SeiScanner,
};
use hdr10plus::metadata::Hdr10PlusMetadata;

fn sample_t35() -> Vec<u8> {
    let f = Hdr10PlusJsonMetadata {
        bezier_curve_data: Some(BezierCurveData {
            anchors: vec![265, 666, 741, 800, 848, 887, 920, 945, 957],
            knee_point_x: 17,
            knee_point_y: 64,
        }),
        luminance_parameters: LuminanceParameters {
            average_rgb: 1037,
            luminance_distributions: LuminanceDistributions {
                distribution_index: vec![1, 5, 10, 25, 50, 75, 90, 95, 99],
                distribution_values: vec![3, 14024, 43, 56, 219, 1036, 2714, 4668, 14445],
            },
            max_scl: vec![17830, 16895, 14252],
        },
        number_of_windows: 1,
        targeted_system_display_maximum_luminance: 400,
        scene_frame_index: 0,
        scene_id: 0,
        sequence_frame_index: 0,
    };
    Hdr10PlusMetadata::try_from(&f).unwrap().encode(true).unwrap()
}

fn summary(targeted: u32, anchors: Vec<u16>) -> Metadata {
    Metadata {
        bezier_curve_data: anchors,
        knee_x: 1,
        knee_y: 2,
        average_maxrgb: 3,
        maxscl: vec![4, 5, 6],
        distribution_index: vec![1, 5],
        distribution_values: vec![7, 8],
        targeted_system_display_maximum_luminance: targeted,
        num_windows: 1,
    }
}

#[test]
fn x265_bytes_are_removed() {
    assert_eq!(remove_x265_injected_byte(&[1, 2, 3, 0, 0, 3, 7, 8, 9]), (1, vec![1, 2, 3, 0, 0, 7, 8, 9]));
    assert_eq!(remove_x265_injected_byte(&[0, 0, 0, 0, 0]), (0, vec![0, 0, 0, 0, 0]));
    assert_eq!(remove_x265_injected_byte(&[]), (0, vec![]));
}

#[test]
fn llc_reads_the_summary() {
    let t35 = sample_t35();
    let out = llc_read_metadata(vec![t35]);
    assert_eq!(out.len(), 1);
    let m = &out[0];
    assert_eq!(m.num_windows, 1);
    assert_eq!(m.targeted_system_display_maximum_luminance, 400);
    assert_eq!(m.average_maxrgb, 1037);
    assert_eq!(m.maxscl, vec![17830, 16895, 14252]);
    assert_eq!(m.distribution_index, vec![1, 5, 10, 25, 50, 75, 90, 95, 99]);
    assert_eq!(m.distribution_values, vec![3, 14024, 43, 56, 219, 1036, 2714, 4668, 14445]);
    assert_eq!(m.knee_x, 17);
    assert_eq!(m.knee_y, 64);
    assert_eq!(m.bezier_curve_data, vec![265, 666, 741, 800, 848, 887, 920, 945, 957]);
}

#[test]
fn scanner_finds_sei_payloads() {
    let t35 = sample_t35();
    let mut stream = vec![9u8, 9, 0, 0, 1, 78, 1, 4, t35.len() as u8];
    stream.extend_from_slice(&t35);
    stream.extend_from_slice(&[0x80, 0, 0, 1, 5]);
    let mut scanner = SeiScanner::new(false);
    assert_eq!(scanner.scan_chunk(&stream, false), ScanStep::Continue);
    let payloads = scanner.into_payloads();
    let mut expected = t35.clone();
    expected.push(0x80);
    assert_eq!(payloads, vec![expected]);
}

#[test]
fn scanner_reports_absence_and_detection() {
    let mut scanner = SeiScanner::new(true);
    assert_eq!(scanner.scan_chunk(&[1, 2, 3, 0, 0, 1, 40], false), ScanStep::NoMetadata);
    let mut stream = vec![0u8, 0, 1, 78, 1, 4, 3, 0xB5, 1, 2];
    stream.extend_from_slice(&[0x80, 0, 0, 0]);
    let mut scanner = SeiScanner::new(true);
    assert_eq!(scanner.scan_chunk(&stream, true), ScanStep::Verified);
}

#[test]
fn process_bytes_steps() {
    let header = [0u8, 0, 1, 78, 1, 4];
    let mut cur = vec![0u8, 0];
    let mut found: Vec<Vec<u8>> = vec![];
    assert_eq!(process_bytes(&header, 1, &mut cur, false, &mut found, false), (false, false));
    assert_eq!(cur, vec![0, 0, 1]);
    assert_eq!(process_bytes(&header, 7, &mut cur, false, &mut found, false), (false, false));
    assert!(cur.is_empty());
    let mut cur = vec![0u8, 0, 1, 78, 1];
    assert_eq!(process_bytes(&header, 4, &mut cur, false, &mut found, false), (true, false));
    let mut cur = vec![0u8, 0, 1];
    assert_eq!(process_bytes(&header, 0, &mut cur, false, &mut found, false), (false, false));
    assert_eq!(cur, vec![0, 0, 1]);
    let mut cur = vec![0u8, 0, 1, 78, 1, 4, 2, 11, 12, 0x80, 0, 0];
    assert_eq!(process_bytes(&header, 1, &mut cur, true, &mut found, false), (false, true));
    assert_eq!(found, vec![vec![11, 12, 0x80]]);
    assert!(cur.is_empty());
}

#[test]
fn llc_json_profiles() {
    let a = llc_json(&[summary(0, vec![])], false);
    assert_eq!(a.profile, "A");
    assert_eq!(a.version, "1.0");
    assert!(a.scene_info[0].bezier_curve_data.is_none());
    assert!(a.warning.is_none());
    let mixed = [summary(400, vec![1, 2]), summary(0, vec![])];
    let b = llc_json(&mixed, false);
    assert_eq!(b.profile, "B");
    assert_eq!(b.warning, Some(LlcWarning::MixedProfiles));
    assert!(b.scene_info[1].bezier_curve_data.as_ref().unwrap().anchors.is_empty());
    let forced = llc_json(&mixed, true);
    assert_eq!(forced.warning, Some(LlcWarning::ForcedProfileB));
    assert_eq!(forced.scene_info[1].bezier_curve_data.as_ref().unwrap().anchors, vec![0, 0]);
    assert_eq!(forced.scene_info[0].luminance_parameters.max_scl, vec![4, 5, 6]);
}

#[test]
fn t35_payload_search_in_packets() {
    let header = [Some(0u8), Some(0), Some(0), None, Some(78), Some(1), Some(4)];
    let data = [5u8, 0, 0, 0, 1, 78, 1, 4, 3, 10, 11, 12, 0x80, 0, 0, 0, 1, 0, 0, 0, 0, 7, 8, 9, 9];
    assert_eq!(
        parse_itu_t35_sei_payload(&data, &header),
        Ok(vec![10, 11, 12, 0x80, 0, 0, 0, 1, 0, 0, 0, 0, 7])
    );
    assert_eq!(parse_itu_t35_sei_payload(&[1, 2, 3], &header), Err(LlcScanError::NoDynamicMetadata));
}

#[test]
fn readability_is_checked_before_reading() {
    let t35 = sample_t35();
    assert!(llc_payload_readable(&t35));
    assert!(!llc_payload_readable(&t35[..10]));
    let mut other_app = t35.clone();
    other_app[5] = 3;
    assert!(!llc_payload_readable(&other_app));
    let mut other_version = t35.clone();
    other_version[6] = 2;
    assert!(!llc_payload_readable(&other_version));
    assert!(!llc_payload_readable(&[]));
}
