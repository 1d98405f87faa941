use hdr10plus::editor::{
    duplicate_metadata, metadata_from_frames, removals_in_bounds, remove_frames, sort_duplicates, DuplicateMetadata,
    EditConfig, EditError,
};
use hdr10plus::json::{Hdr10PlusJsonMetadata, LuminanceDistributions, LuminanceParameters};
use hdr10plus::metadata::Hdr10PlusMetadata;

fn frame(avg: u32) -> Hdr10PlusJsonMetadata {
    Hdr10PlusJsonMetadata {
        bezier_curve_data: None,
        luminance_parameters: LuminanceParameters {
            average_rgb: avg,
            luminance_distributions: LuminanceDistributions {
                distribution_index: vec![1, 5, 10, 25, 50, 75, 90, 95, 99],
                distribution_values: vec![9; 9],
            },
            max_scl: vec![1, 2, 3],
        },
        number_of_windows: 1,
        targeted_system_display_maximum_luminance: 0,
        scene_frame_index: 0,
        scene_id: 0,
        sequence_frame_index: 0,
    }
}

fn list(n: u32) -> Vec<Hdr10PlusMetadata> {
    let frames: Vec<Hdr10PlusJsonMetadata> = (0..n).map(frame).collect();
    metadata_from_frames(&frames).unwrap()
}

fn averages(l: &[Hdr10PlusMetadata]) -> Vec<u32> {
    l.iter().map(|m| m.average_maxrgb).collect()
}

#[test]
fn range_strings_parse_like_rust() {
    assert_eq!(EditConfig::range_string_to_tuple("5-10"), Ok((5, 10)));
    assert_eq!(EditConfig::range_string_to_tuple("+4-7"), Ok((4, 7)));
    assert_eq!(EditConfig::range_string_to_tuple("a-3"), Ok((0, 3)));
    assert_eq!(EditConfig::range_string_to_tuple("2-"), Ok((2, 0)));
    assert_eq!(EditConfig::range_string_to_tuple("1-2-3"), Ok((1, 2)));
    assert_eq!(EditConfig::range_string_to_tuple("99999999999999999999999-1"), Ok((0, 1)));
    assert_eq!(EditConfig::range_string_to_tuple("12"), Err(EditError::InvalidRange));
}

#[test]
fn remove_single_frames_and_ranges() {
    let mut l = list(8);
    let ranges = vec!["1".to_string(), "2-3".to_string()];
    assert_eq!(remove_frames(&ranges, &mut l), Ok(3));
    assert_eq!(averages(&l), vec![0, 2, 5, 6, 7]);
}

#[test]
fn each_inclusive_range_removes_its_own_frames() {
    let mut l = list(10);
    let ranges = vec!["0-1".to_string(), "3-4".to_string()];
    assert_eq!(remove_frames(&ranges, &mut l), Ok(4));
    assert_eq!(l.len(), 6);
    assert_eq!(averages(&l), vec![2, 3, 4, 7, 8, 9]);
}

#[test]
fn a_refused_removal_keeps_the_earlier_ones() {
    let mut l = list(5);
    let ranges = vec!["0-1".to_string(), "9-9".to_string(), "0-0".to_string()];
    assert_eq!(remove_frames(&ranges, &mut l), Err(EditError::InvalidEndRange(9)));
    assert_eq!(averages(&l), vec![2, 3, 4]);
}

#[test]
fn remove_rejects_out_of_range() {
    let mut l = list(3);
    assert_eq!(remove_frames(&["0-3".to_string()], &mut l), Err(EditError::InvalidEndRange(3)));
    assert_eq!(remove_frames(&["7".to_string()], &mut l), Err(EditError::InvalidFrameIndex(7)));
    assert_eq!(remove_frames(&["x".to_string()], &mut l), Ok(0));
    assert_eq!(l.len(), 3);
}

#[test]
fn duplicate_inserts_copies() {
    let mut l = list(3);
    let d = vec![DuplicateMetadata { source: 0, offset: 2, length: 2 }];
    assert_eq!(duplicate_metadata(&d, &mut l), Ok(()));
    assert_eq!(averages(&l), vec![0, 1, 0, 0, 2]);
    let bad = vec![DuplicateMetadata { source: 9, offset: 0, length: 1 }];
    assert_eq!(duplicate_metadata(&bad, &mut l), Err(EditError::InvalidDuplicate(bad[0])));
    assert_eq!(averages(&l), vec![0, 1, 0, 0, 2]);
}

#[test]
fn a_refused_duplication_keeps_the_earlier_ones() {
    let mut l = list(2);
    let d = vec![
        DuplicateMetadata { source: 1, offset: 0, length: 1 },
        DuplicateMetadata { source: 0, offset: 9, length: 1 },
        DuplicateMetadata { source: 0, offset: 0, length: 3 },
    ];
    assert_eq!(duplicate_metadata(&d, &mut l), Err(EditError::InvalidDuplicate(d[1])));
    assert_eq!(averages(&l), vec![1, 0, 1]);
}

#[test]
fn duplicates_apply_from_the_largest_offset() {
    let d = vec![
        DuplicateMetadata { source: 0, offset: 1, length: 1 },
        DuplicateMetadata { source: 1, offset: 5, length: 1 },
        DuplicateMetadata { source: 2, offset: 1, length: 1 },
    ];
    let sorted = sort_duplicates(&d);
    assert_eq!(sorted, vec![d[1], d[2], d[0]]);
}

#[test]
fn execute_removes_then_duplicates() {
    let mut l = list(4);
    let mut config = EditConfig {
        remove: Some(vec!["0".to_string()]),
        duplicate: Some(vec![DuplicateMetadata { source: 0, offset: 0, length: 1 }]),
    };
    config.sort_duplicates();
    assert_eq!(config.execute(&mut l), Ok(()));
    assert_eq!(averages(&l), vec![1, 1, 2, 3]);
}

#[test]
fn conversion_of_frames_must_succeed_for_all() {
    let mut bad = frame(1);
    bad.luminance_parameters.max_scl = vec![1];
    assert_eq!(metadata_from_frames(&[frame(0), bad]).err(), Some(EditError::InvalidFrames));
}

#[test]
fn removal_bounds_are_checked_before_removing() {
    let l = list(10);
    assert!(removals_in_bounds(&["0-1".to_string(), "3-3".to_string()], &l));
    assert!(removals_in_bounds(&["12".to_string(), "5-4".to_string()], &l));
    assert!(removals_in_bounds(&["0-20".to_string(), "5-4".to_string()], &l));
    assert!(!removals_in_bounds(&["5-4".to_string()], &l));
    assert!(removals_in_bounds(&["0-5".to_string(), "4-6".to_string()], &l));
    assert!(removals_in_bounds(&["0-1".to_string(), "2-3".to_string()], &list(6)));
    assert!(!removals_in_bounds(&["0-1".to_string(), "3-2".to_string()], &list(6)));
    assert!(removals_in_bounds(&["0-5".to_string(), "0-1".to_string()], &l));
    assert!(removals_in_bounds(&["0-1".to_string(), "0-1".to_string()], &l));
}
