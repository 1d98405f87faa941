use hdr10plus::error::Hdr10PlusError;
use hdr10plus::json::{
    compute_scene_information, generate_json, json_list, json_list_writable, version_string, BezierCurveData,
    Hdr10PlusJsonMetadata, LuminanceDistributions, LuminanceParameters,
};
use hdr10plus::metadata::Hdr10PlusMetadata;

fn frame(avg: u32, anchors: Option<Vec<u16>>, targeted: u32) -> Hdr10PlusJsonMetadata {
    Hdr10PlusJsonMetadata {
        bezier_curve_data: anchors.map(|a| BezierCurveData { anchors: a, knee_point_x: 17, knee_point_y: 64 }),
        luminance_parameters: LuminanceParameters {
            average_rgb: avg,
            luminance_distributions: LuminanceDistributions {
                distribution_index: vec![1, 5, 10, 25, 50, 75, 90, 95, 99],
                distribution_values: vec![3, 14024, 43, 56, 219, 1036, 2714, 4668, 14445],
            },
            max_scl: vec![17830, 16895, 14252],
        },
        number_of_windows: 1,
        targeted_system_display_maximum_luminance: targeted,
        scene_frame_index: 0,
        scene_id: 0,
        sequence_frame_index: 0,
    }
}

#[test]
fn try_from_reports_each_error() {
    let mut f = frame(1, None, 0);
    f.luminance_parameters.max_scl = vec![1, 2, 3, 4];
    assert_eq!(Hdr10PlusMetadata::try_from(&f).err(), Some(Hdr10PlusError::InvalidMaxSclLength));
    let mut f = frame(1, None, 0);
    f.luminance_parameters.luminance_distributions.distribution_values.pop();
    assert_eq!(Hdr10PlusMetadata::try_from(&f).err(), Some(Hdr10PlusError::DistributionLengthMismatch));
    let mut f = frame(1, None, 0);
    f.luminance_parameters.luminance_distributions.distribution_index = vec![0; 11];
    f.luminance_parameters.luminance_distributions.distribution_values = vec![0; 11];
    assert_eq!(Hdr10PlusMetadata::try_from(&f).err(), Some(Hdr10PlusError::DistributionIndexTooLong));
}

#[test]
fn try_from_builds_profile_b_metadata() {
    let m = Hdr10PlusMetadata::try_from(&frame(1037, Some(vec![1, 2, 3]), 400)).unwrap();
    assert_eq!(m.itu_t_t35_country_code, 0xB5);
    assert_eq!(m.application_identifier, 4);
    assert_eq!(m.application_version, 1);
    assert_eq!(m.num_distribution_maxrgb_percentiles, 9);
    assert!(m.tone_mapping_flag);
    assert_eq!(m.bezier_curve.as_ref().unwrap().num_bezier_curve_anchors, 3);
    assert_eq!(m.profile, "B");
}

#[test]
fn version_string_is_version_dot_zero() {
    assert_eq!(version_string(1), "1.0");
    assert_eq!(version_string(0), "0.0");
    assert_eq!(version_string(42), "42.0");
    assert_eq!(version_string(255), "255.0");
}

#[test]
fn json_list_keeps_curves_in_profile_b() {
    let a = Hdr10PlusMetadata::try_from(&frame(10, Some(vec![5, 6]), 400)).unwrap();
    let b = Hdr10PlusMetadata::try_from(&frame(20, Some(vec![7, 8]), 400)).unwrap();
    let (profile, frames) = json_list(&[&a, &b]);
    assert_eq!(profile, "B");
    assert_eq!(frames.len(), 2);
    assert_eq!(frames[0].bezier_curve_data.as_ref().unwrap().anchors, vec![5, 6]);
    assert_eq!(frames[1].luminance_parameters.average_rgb, 20);
    assert_eq!(frames[1].sequence_frame_index, 1);
}

#[test]
fn json_list_drops_curves_in_profile_a() {
    let a = Hdr10PlusMetadata::try_from(&frame(10, None, 0)).unwrap();
    let (profile, frames) = json_list(&[&a]);
    assert_eq!(profile, "A");
    assert!(frames[0].bezier_curve_data.is_none());
}

#[test]
fn scene_information_starts_scenes_on_change() {
    let mut list = vec![frame(10, None, 0), frame(10, None, 0), frame(30, None, 0), frame(30, None, 0)];
    compute_scene_information("A", &mut list);
    let scene_ids: Vec<usize> = list.iter().map(|f| f.scene_id).collect();
    let scene_frames: Vec<usize> = list.iter().map(|f| f.scene_frame_index).collect();
    let seq: Vec<usize> = list.iter().map(|f| f.sequence_frame_index).collect();
    assert_eq!(scene_ids, vec![0, 0, 1, 1]);
    assert_eq!(scene_frames, vec![0, 1, 0, 1]);
    assert_eq!(seq, vec![0, 1, 2, 3]);
}

#[test]
fn generated_document_summarizes_scenes() {
    let a = Hdr10PlusMetadata::try_from(&frame(10, None, 0)).unwrap();
    let b = Hdr10PlusMetadata::try_from(&frame(40, None, 0)).unwrap();
    let doc = generate_json(&[&a, &a, &b, &b, &b], "hdr10plus_tool", "1.7.0");
    assert_eq!(doc.info.profile, "A");
    assert_eq!(doc.info.version, "1.0");
    assert_eq!(doc.scene_info.len(), 5);
    assert_eq!(doc.scene_info_summary.scene_first_frame_index, vec![0, 2]);
    assert_eq!(doc.scene_info_summary.scene_frame_numbers, vec![2, 3]);
    let total: usize = doc.scene_info_summary.scene_frame_numbers.iter().sum();
    assert_eq!(total, doc.scene_info.len());
    assert_eq!(doc.tool_info.tool, "hdr10plus_tool");
    assert_eq!(doc.tool_info.version, "1.7.0");
}

#[test]
fn json_frames_survive_a_trip_through_metadata() {
    let frames = vec![frame(10, Some(vec![5, 6]), 400), frame(10, Some(vec![5, 6]), 400), frame(20, Some(vec![7]), 400)];
    let metas: Vec<Hdr10PlusMetadata> = frames.iter().map(|f| Hdr10PlusMetadata::try_from(f).unwrap()).collect();
    let refs: Vec<&Hdr10PlusMetadata> = metas.iter().collect();
    let (_, out) = json_list(&refs);
    assert_eq!(out.len(), frames.len());
    for (o, f) in out.iter().zip(frames.iter()) {
        assert_eq!(o.bezier_curve_data.as_ref().map(|b| b.anchors.clone()), f.bezier_curve_data.as_ref().map(|b| b.anchors.clone()));
        assert_eq!(o.luminance_parameters.average_rgb, f.luminance_parameters.average_rgb);
        assert_eq!(o.luminance_parameters.max_scl, f.luminance_parameters.max_scl);
        assert_eq!(o.luminance_parameters.luminance_distributions.distribution_index, f.luminance_parameters.luminance_distributions.distribution_index);
        assert_eq!(o.luminance_parameters.luminance_distributions.distribution_values, f.luminance_parameters.luminance_distributions.distribution_values);
        assert_eq!(o.number_of_windows, f.number_of_windows);
        assert_eq!(o.targeted_system_display_maximum_luminance, f.targeted_system_display_maximum_luminance);
    }
    assert_eq!(out.iter().map(|f| f.scene_id).collect::<Vec<_>>(), vec![0, 0, 1]);
}

#[test]
fn json_writability_follows_the_profile() {
    let a = Hdr10PlusMetadata::try_from(&frame(10, None, 0)).unwrap();
    let b = Hdr10PlusMetadata::try_from(&frame(10, Some(vec![5, 6]), 400)).unwrap();
    let n = Hdr10PlusMetadata::try_from(&frame(10, None, 400)).unwrap();
    assert!(json_list_writable(&[&a, &a]));
    assert!(json_list_writable(&[&b, &b]));
    assert!(!json_list_writable(&[&a, &b]));
    assert!(!json_list_writable(&[&b, &n]));
    assert!(json_list_writable(&[]));
}
