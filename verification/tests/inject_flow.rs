use hdr10plus::av1::{encode_av1_from_json, Obu, OBU_METADATA, OBU_TEMPORAL_DELIMITER};
use hdr10plus::extract::FrameOrder;
use hdr10plus::hevc::{encode_hevc_from_json, NAL_SEI_PREFIX};
use hdr10plus::inject::{
    build_av1_output_frame, get_metadata_and_index_to_insert, remove_hdr10plus_obus, scene_info_to_inject, Av1Injection,
    FrameBuffer, InjectError, NalBuffer, NaluStartCode, RawObuInjection,
};
use hdr10plus::json::{BezierCurveData, Hdr10PlusJsonMetadata, LuminanceDistributions, LuminanceParameters};
use hdr10plus::sei::NAL_UNSPEC62;

fn frame(avg: u32) -> Hdr10PlusJsonMetadata {
    Hdr10PlusJsonMetadata {
        bezier_curve_data: Some(BezierCurveData { anchors: vec![1, 2], knee_point_x: 3, knee_point_y: 4 }),
        luminance_parameters: LuminanceParameters {
            average_rgb: avg,
            luminance_distributions: LuminanceDistributions {
                distribution_index: vec![1, 5, 10, 25, 50, 75, 90, 95, 99],
                distribution_values: vec![9; 9],
            },
            max_scl: vec![1, 2, 3],
        },
        number_of_windows: 1,
        targeted_system_display_maximum_luminance: 400,
        scene_frame_index: 0,
        scene_id: 0,
        sequence_frame_index: 0,
    }
}

fn obu(t: u8, raw: &[u8]) -> Obu {
    Obu { obu_type: t, payload: vec![], raw_bytes: raw.to_vec() }
}

fn hdr_obu() -> Obu {
    Obu { obu_type: OBU_METADATA, payload: vec![4, 0xB5, 0, 0x3C, 0, 1, 4, 1], raw_bytes: vec![0xEE] }
}

#[test]
fn output_frame_puts_metadata_after_delimiter() {
    let obus = vec![obu(OBU_TEMPORAL_DELIMITER, &[0x12, 0x00]), hdr_obu(), obu(6, &[0x32, 0x01])];
    let out = build_av1_output_frame(&obus, &[0xAA, 0xBB], true);
    assert_eq!(out, vec![0x12, 0x00, 0xAA, 0xBB, 0x32, 0x01]);
}

#[test]
fn output_frame_without_delimiter_starts_with_metadata() {
    let obus = vec![obu(6, &[0x32]), hdr_obu()];
    let out = build_av1_output_frame(&obus, &[0xAA], true);
    assert_eq!(out, vec![0xAA, 0x32]);
    assert_eq!(build_av1_output_frame(&[], &[0xAA], true), vec![0xAA]);
    let td_last = vec![obu(6, &[0x32]), obu(OBU_TEMPORAL_DELIMITER, &[0x12])];
    assert_eq!(build_av1_output_frame(&td_last, &[0xAA], true), vec![0x32, 0x12, 0xAA]);
}

#[test]
fn removing_hdr10plus_obus_keeps_others() {
    let obus = vec![obu(OBU_TEMPORAL_DELIMITER, &[1]), hdr_obu(), obu(6, &[2])];
    assert_eq!(remove_hdr10plus_obus(&obus, true), vec![1, 2]);
}

#[test]
fn ivf_units_take_metadata_in_order_then_repeat_the_last() {
    let list = vec![frame(10), frame(20)];
    let mut st = Av1Injection::new();
    let e0 = encode_av1_from_json(&list[0], true).unwrap();
    let e1 = encode_av1_from_json(&list[1], true).unwrap();
    let obus = vec![obu(OBU_TEMPORAL_DELIMITER, &[0x12, 0x00]), hdr_obu()];
    let u0 = st.ivf_unit(&list, &obus, true).unwrap();
    assert!(u0.warn_existing);
    assert!(!u0.warn_mismatch);
    let mut expect = vec![0x12, 0x00];
    expect.extend_from_slice(&e0);
    assert_eq!(u0.frame, expect);
    let u1 = st.ivf_unit(&list, &obus, true).unwrap();
    assert!(!u1.warn_existing);
    assert!(u1.frame.ends_with(&e1));
    let u2 = st.ivf_unit(&list, &obus, true).unwrap();
    assert!(u2.warn_mismatch);
    assert!(u2.frame.ends_with(&e1));
    let u3 = st.ivf_unit(&list, &obus, true).unwrap();
    assert!(!u3.warn_mismatch);
    assert_eq!(st.tu_index, 4);
}

#[test]
fn ivf_unit_without_metadata_fails() {
    let mut st = Av1Injection::new();
    assert_eq!(st.ivf_unit(&[], &[], true).err(), Some(InjectError::NoMetadataForUnit(0)));
    let mut bad = frame(1);
    bad.luminance_parameters.max_scl = vec![];
    let mut st = Av1Injection::new();
    assert!(matches!(st.ivf_unit(&[bad], &[], true), Err(InjectError::Metadata(_))));
}

#[test]
fn raw_stream_rebuilds_temporal_units() {
    let list = vec![frame(10)];
    let e0 = encode_av1_from_json(&list[0], true).unwrap();
    let mut st = RawObuInjection::new();
    let s = st.push_obu(Some(obu(6, &[0x50])), &list, true).unwrap();
    assert_eq!(s.bytes, vec![0x50]);
    let s = st.push_obu(Some(obu(OBU_TEMPORAL_DELIMITER, &[0x12, 0x00])), &list, true).unwrap();
    assert!(s.bytes.is_empty());
    let s = st.push_obu(Some(hdr_obu()), &list, true).unwrap();
    assert!(s.bytes.is_empty());
    let s = st.push_obu(Some(obu(6, &[0x32])), &list, true).unwrap();
    assert!(s.bytes.is_empty());
    let s = st.push_obu(None, &list, true).unwrap();
    let mut expect = vec![0x12, 0x00];
    expect.extend_from_slice(&e0);
    expect.push(0x32);
    assert_eq!(s.bytes, expect);
    assert!(s.warn_existing);
    assert_eq!(st.unit.tu_index, 1);
}

fn nal(t: u8) -> NalBuffer {
    NalBuffer { nal_type: t, start_code: NaluStartCode::Length4, data: vec![t] }
}

#[test]
fn sei_goes_before_first_slice() {
    let frames = vec![
        FrameOrder { decoded_number: 0, presentation_number: 1 },
        FrameOrder { decoded_number: 1, presentation_number: 0 },
    ];
    let list = vec![frame(10), frame(20)];
    let fb = FrameBuffer { frame_number: 0, nals: vec![nal(35), nal(32), nal(1), nal(1)] };
    let (idx, nb) = get_metadata_and_index_to_insert(&frames, &list, &fb, false, true).unwrap();
    assert_eq!(idx, 2);
    assert_eq!(nb.nal_type, NAL_SEI_PREFIX);
    assert_eq!(nb.data, encode_hevc_from_json(&list[1], true).unwrap());
}

#[test]
fn sei_choice_on_mismatched_lengths() {
    let frames = vec![FrameOrder { decoded_number: 0, presentation_number: 5 }];
    let list = vec![frame(10), frame(20)];
    let fb = FrameBuffer { frame_number: 0, nals: vec![nal(1)] };
    assert_eq!(
        get_metadata_and_index_to_insert(&frames, &list, &fb, false, true).err(),
        Some(InjectError::NoMetadataForFrame(5))
    );
    let (_, nb) = get_metadata_and_index_to_insert(&frames, &list, &fb, true, true).unwrap();
    assert_eq!(nb.data, encode_hevc_from_json(&list[1], true).unwrap());
    let fb2 = FrameBuffer { frame_number: 9, nals: vec![nal(1)] };
    let (_, nb2) = get_metadata_and_index_to_insert(&frames, &list, &fb2, true, true).unwrap();
    assert_eq!(nb2.nal_type, NAL_UNSPEC62);
    assert_eq!(
        get_metadata_and_index_to_insert(&frames, &list, &fb2, false, true).err(),
        Some(InjectError::NoSeiForFrame(9))
    );
    let fb3 = FrameBuffer { frame_number: 0, nals: vec![nal(35)] };
    assert_eq!(
        get_metadata_and_index_to_insert(&frames, &list, &fb3, true, true).err(),
        Some(InjectError::NoSliceInFrame(0))
    );
}

#[test]
fn frame_buffer_hands_out_completed_frames() {
    let frames = vec![
        FrameOrder { decoded_number: 0, presentation_number: 0 },
        FrameOrder { decoded_number: 1, presentation_number: 1 },
    ];
    let list = vec![frame(10), frame(20)];
    let mut fb = FrameBuffer { frame_number: 0, nals: vec![] };
    assert!(fb.push_nal(&frames, &list, false, true, 0, Some(nal(1))).unwrap().is_none());
    assert!(fb.push_nal(&frames, &list, false, true, 0, None).unwrap().is_none());
    let out = fb.push_nal(&frames, &list, false, true, 1, Some(nal(1))).unwrap().unwrap();
    assert_eq!(out.len(), 2);
    assert_eq!(out[0].nal_type, NAL_SEI_PREFIX);
    assert_eq!(out[1].nal_type, 1);
    assert_eq!(fb.frame_number, 1);
    assert_eq!(fb.nals.len(), 1);
    let last = fb.finish(&frames, &list, false, true, 2).unwrap().unwrap();
    assert_eq!(last[0].data, encode_hevc_from_json(&list[1], true).unwrap());
    let mut empty = FrameBuffer { frame_number: 2, nals: vec![nal(1)] };
    assert!(empty.finish(&frames, &list, false, true, 2).unwrap().is_none());
}

#[test]
fn an_empty_document_cannot_be_injected() {
    assert_eq!(scene_info_to_inject(vec![]).map(|v| v.len()), Err(InjectError::EmptySceneInfo));
    assert_eq!(scene_info_to_inject(vec![frame(1)]).map(|v| v.len()), Ok(1));
}
