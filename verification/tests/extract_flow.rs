use hdr10plus::av1::{Obu, OBU_METADATA};
use hdr10plus::error::Hdr10PlusError;
use hdr10plus::extract::{
    fill_metadata_gaps, finalize_can_complete, finalize_metadata, parse_metadata_list, parse_t35_list, reorder_metadata,
    Av1MetadataCollector, CliOptions, ExtractError, FrameOrder, MetadataFrame, ParserError, ParserOptions,
};
use hdr10plus::json::{BezierCurveData, Hdr10PlusJsonMetadata, LuminanceDistributions, LuminanceParameters};
use hdr10plus::metadata::Hdr10PlusMetadata;

fn t35(avg: u32) -> Vec<u8> {
    let f = Hdr10PlusJsonMetadata {
        bezier_curve_data: Some(BezierCurveData { anchors: vec![1, 2], knee_point_x: 3, knee_point_y: 4 }),
        luminance_parameters: LuminanceParameters {
            average_rgb: avg,
            luminance_distributions: LuminanceDistributions {
                distribution_index: vec![1, 5, 10, 25, 50, 75, 90, 95, 99],
                distribution_values: vec![9; 9],
            },
            max_scl: vec![1, 2, 3],
        },
        number_of_windows: 1,
        targeted_system_display_maximum_luminance: 400,
        scene_frame_index: 0,
        scene_id: 0,
        sequence_frame_index: 0,
    };
    let bytes = Hdr10PlusMetadata::try_from(&f).unwrap().encode(true).unwrap();
    assert!(!bytes.windows(3).any(|w| w[0] == 0 && w[1] == 0 && w[2] == 3));
    bytes
}

fn entry(decoded: u64, metadata: Option<Vec<u8>>) -> MetadataFrame {
    MetadataFrame { decoded_index: decoded, presentation_number: 0, metadata }
}

#[test]
fn fill_gaps_copies_previous_metadata() {
    let mut list = vec![entry(0, None), entry(1, Some(vec![1])), entry(2, None), entry(3, None), entry(4, Some(vec![2])), entry(5, None)];
    fill_metadata_gaps(&mut list);
    let got: Vec<Option<Vec<u8>>> = list.iter().map(|e| e.metadata.clone()).collect();
    assert_eq!(got, vec![None, Some(vec![1]), Some(vec![1]), Some(vec![1]), Some(vec![2]), Some(vec![2])]);
}

#[test]
fn filling_gaps_twice_changes_nothing() {
    let mut list = vec![entry(0, None), entry(1, Some(vec![1])), entry(2, None), entry(3, Some(vec![2])), entry(4, None)];
    fill_metadata_gaps(&mut list);
    let once: Vec<Option<Vec<u8>>> = list.iter().map(|e| e.metadata.clone()).collect();
    fill_metadata_gaps(&mut list);
    let twice: Vec<Option<Vec<u8>>> = list.iter().map(|e| e.metadata.clone()).collect();
    assert_eq!(once, twice);
    assert_eq!(list.iter().map(|e| e.decoded_index).collect::<Vec<_>>(), vec![0, 1, 2, 3, 4]);
}

#[test]
fn reorder_sorts_by_presentation_and_renumbers() {
    let frames = vec![
        FrameOrder { decoded_number: 0, presentation_number: 2 },
        FrameOrder { decoded_number: 1, presentation_number: 0 },
        FrameOrder { decoded_number: 2, presentation_number: 1 },
    ];
    let mut list = vec![entry(0, Some(vec![10])), entry(1, Some(vec![11])), entry(2, Some(vec![12]))];
    reorder_metadata(&mut list, &frames);
    let got: Vec<(u64, usize)> = list.iter().map(|e| (e.decoded_index, e.presentation_number)).collect();
    assert_eq!(got, vec![(1, 0), (2, 1), (0, 2)]);
}

#[test]
fn reorder_keeps_order_of_equal_keys() {
    let frames = vec![
        FrameOrder { decoded_number: 0, presentation_number: 1 },
        FrameOrder { decoded_number: 1, presentation_number: 0 },
    ];
    let mut list = vec![entry(0, Some(vec![1])), entry(0, Some(vec![2])), entry(1, Some(vec![3]))];
    reorder_metadata(&mut list, &frames);
    let got: Vec<Vec<u8>> = list.iter().map(|e| e.metadata.clone().unwrap()).collect();
    assert_eq!(got, vec![vec![3], vec![1], vec![2]]);
}

#[test]
fn parse_list_reports_first_error() {
    let good = t35(100);
    let r = parse_t35_list(&[good.clone(), vec![0xB5]], true);
    assert_eq!(r.err(), Some(Hdr10PlusError::Bitstream(hdr10plus::bits::BitstreamError::UnexpectedEnd)));
    let ok = parse_t35_list(&[good.clone(), t35(200)], true).unwrap();
    assert_eq!(ok.len(), 2);
    assert_eq!(ok[1].average_maxrgb, 200);
    let unescaped = parse_metadata_list(&[good], true).unwrap();
    assert_eq!(unescaped[0].average_maxrgb, 100);
}

#[test]
fn finalize_orders_fills_and_parses() {
    let frames = vec![
        FrameOrder { decoded_number: 0, presentation_number: 1 },
        FrameOrder { decoded_number: 1, presentation_number: 0 },
    ];
    let list = vec![entry(0, Some(t35(100))), entry(1, None)];
    let ms = finalize_metadata(list, &frames, false, false, true).unwrap();
    assert_eq!(ms.len(), 2);
    assert_eq!(ms[0].average_maxrgb, 100);
    assert_eq!(ms[1].average_maxrgb, 100);
    let list = vec![entry(0, Some(t35(100))), entry(1, Some(t35(200)))];
    let ms = finalize_metadata(list, &frames, false, false, true).unwrap();
    assert_eq!(ms[0].average_maxrgb, 200);
    let list = vec![entry(0, Some(t35(100))), entry(1, Some(t35(200)))];
    let ms = finalize_metadata(list, &frames, false, true, true).unwrap();
    assert_eq!(ms[0].average_maxrgb, 100);
}

#[test]
fn finalize_checks_lengths() {
    let frames = vec![FrameOrder { decoded_number: 0, presentation_number: 0 }];
    assert_eq!(finalize_metadata(vec![], &frames, false, false, true).err(), Some(ExtractError::Parser(ParserError::NoMetadataFound)));
    let list = vec![entry(0, Some(t35(1))), entry(1, Some(t35(2)))];
    assert_eq!(finalize_metadata(list, &frames, false, false, true).err(), Some(ExtractError::FrameCountMismatch));
    let list = vec![entry(0, Some(t35(1))), entry(1, Some(t35(2)))];
    let ms = finalize_metadata(list, &frames, true, false, true).unwrap();
    assert_eq!(ms.len(), 1);
    let list = vec![entry(0, Some(vec![0xB5, 0]))];
    assert!(matches!(finalize_metadata(list, &frames, false, false, true), Err(ExtractError::Metadata(_))));
}

#[test]
fn av1_collector_keeps_hdr10plus_payloads() {
    let mut c = Av1MetadataCollector::new(Some(2), true);
    let mut payload = vec![4u8];
    payload.extend_from_slice(&t35(100));
    let meta = Obu { obu_type: OBU_METADATA, payload, raw_bytes: vec![] };
    let other = Obu { obu_type: 6, payload: vec![1, 2], raw_bytes: vec![] };
    c.push_obu(&other);
    c.push_obu(&meta);
    assert!(!c.end_frame());
    c.push_obu(&meta);
    assert!(c.end_frame());
    assert_eq!(c.t35_frames.len(), 2);
    assert_eq!(c.frame_count, 2);
    let ms = c.finish(false).unwrap();
    assert_eq!(ms.len(), 2);
}

#[test]
fn av1_stream_limit_counts_temporal_units() {
    let mut c = Av1MetadataCollector::new(Some(2), true);
    let mut payload = vec![4u8];
    payload.extend_from_slice(&t35(100));
    let meta = Obu { obu_type: OBU_METADATA, payload, raw_bytes: vec![] };
    let td = Obu { obu_type: 2, payload: vec![], raw_bytes: vec![] };
    let frame = Obu { obu_type: 6, payload: vec![1, 2], raw_bytes: vec![] };
    for _ in 0..2 {
        assert!(!c.push_stream_obu(&td));
        assert!(!c.push_stream_obu(&meta));
        assert!(!c.push_stream_obu(&frame));
    }
    assert!(c.push_stream_obu(&td));
    assert_eq!(c.frame_count, 2);
    assert_eq!(c.t35_frames.len(), 2);
}

#[test]
fn av1_collector_outcomes() {
    let c = Av1MetadataCollector::new(None, true);
    assert_eq!(c.finish(false).err(), Some(ExtractError::Parser(ParserError::NoMetadataFound)));
    let mut c = Av1MetadataCollector::new(None, true);
    let mut payload = vec![4u8];
    payload.extend_from_slice(&t35(1));
    c.push_obu(&Obu { obu_type: OBU_METADATA, payload, raw_bytes: vec![] });
    assert_eq!(c.finish(true).err(), Some(ExtractError::Parser(ParserError::MetadataDetected)));
}

#[test]
fn parser_messages_and_defaults() {
    assert_eq!(ParserError::NoMetadataFound.message(), "File doesn't contain dynamic metadata");
    assert_eq!(ParserError::MetadataDetected.message(), "Dynamic HDR10+ metadata detected.");
    let o = CliOptions::default();
    assert!(!o.verify && !o.validate);
    assert!(ParserOptions::default().limit.is_none());
}

#[test]
fn finalize_readiness_is_checked_before_finishing() {
    let frames = vec![
        FrameOrder { decoded_number: 0, presentation_number: 1 },
        FrameOrder { decoded_number: 1, presentation_number: 0 },
    ];
    assert!(finalize_can_complete(&vec![entry(0, Some(vec![1])), entry(1, None)], &frames, false, false));
    assert!(!finalize_can_complete(&vec![entry(0, None), entry(1, Some(vec![1]))], &frames, false, false));
    assert!(!finalize_can_complete(&vec![entry(0, Some(vec![1])), entry(7, None)], &frames, false, false));
    assert!(finalize_can_complete(&vec![entry(0, Some(vec![1])), entry(7, None)], &frames, false, true));
    assert!(finalize_can_complete(&vec![entry(0, None)], &frames, false, false));
    assert!(finalize_can_complete(&vec![entry(0, Some(vec![1])), entry(1, None), entry(9, None)], &frames, true, false));
}

#[test]
fn extraction_without_output_only_checks() {
    let o = CliOptions { verify: false, validate: true };
    let without = o.for_extraction(false);
    assert!(without.verify && without.validate);
    let with = o.for_extraction(true);
    assert!(!with.verify && with.validate);
}
