use hdr10plus::extract::{ExtractError, MetadataFrame, ParserError};
use hdr10plus::sei::{
    add_hdr10plus_sei, first_hdr10plus_message, prefix_sei_removed_hdr10plus_nalu, record_nal, sei_list_status,
    sei_messages, sei_nal_outcome, sei_payload_types_fit, st2094_40_sei_msg, SeiNalOutcome, without_st2094_40, NalSpan, SeiError, SeiMessageInfo,
};

fn payload() -> Vec<u8> {
    vec![0x4E, 0x01, 5, 2, 0xAA, 0xBB, 4, 8, 0xB5, 0x00, 0x3C, 0x00, 0x01, 0x04, 0x01, 0x99, 0x80]
}

fn messages() -> Vec<SeiMessageInfo> {
    vec![
        SeiMessageInfo { msg_offset: 2, payload_type: 5, payload_offset: 4, payload_size: 2 },
        SeiMessageInfo { msg_offset: 6, payload_type: 4, payload_offset: 8, payload_size: 8 },
    ]
}

#[test]
fn finds_the_st2094_40_message() {
    let p = payload();
    let m = messages();
    assert_eq!(st2094_40_sei_msg(&p, true), Ok(Some(m[1])));
    assert_eq!(first_hdr10plus_message(&p, &m[..1], true), None);
    let mut bad = p.clone();
    bad[13] = 5;
    assert_eq!(st2094_40_sei_msg(&bad, true), Ok(None));
    let mut v0 = p.clone();
    v0[14] = 0;
    assert_eq!(st2094_40_sei_msg(&v0, true), Ok(None));
    assert_eq!(st2094_40_sei_msg(&v0, false), Ok(Some(m[1])));
}

#[test]
fn reading_the_sei_messages() {
    assert_eq!(sei_messages(&payload()), Ok(messages()));
    let not_sei = [0x40, 0x01, 5, 2, 0xAA, 0xBB, 0x80];
    assert_eq!(sei_messages(&not_sei), Err(SeiError::Parse("NAL type 32 is not SEI".to_string())));
    let too_long = [0x4E, 0x01, 4, 50, 0xB5, 0x00, 0x3C, 0x00, 0x01, 0x80];
    assert_eq!(sei_messages(&too_long), Err(SeiError::Parse("Payload size is larger than NALU size".to_string())));
    assert!(matches!(st2094_40_sei_msg(&too_long, true), Err(SeiError::Parse(_))));
}

#[test]
fn payload_types_past_255_are_refused() {
    let wide_type = [0x4E, 0x01, 0xFF, 0x01, 2, 0xAA, 0xBB, 0x80];
    assert!(!sei_payload_types_fit(&wide_type));
    assert_eq!(sei_messages(&wide_type), Err(SeiError::PayloadTypeOutOfRange));
    assert_eq!(st2094_40_sei_msg(&wide_type, true), Err(SeiError::PayloadTypeOutOfRange));
    let second = [0x4E, 0x01, 5, 2, 0xAA, 0xBB, 0xFF, 0xFF, 1, 0xCC, 0x80];
    assert!(!sei_payload_types_fit(&second));
    let type_255 = [0x4E, 0x01, 0xFF, 0x00, 2, 0xFF, 0x01, 0x80];
    assert!(sei_payload_types_fit(&type_255));
    assert_eq!(sei_messages(&type_255).unwrap()[0].payload_type, 255);
    assert!(sei_payload_types_fit(&payload()));
    let not_sei = [0x40, 0x01, 0xFF, 0x01, 0x80];
    assert!(sei_payload_types_fit(&not_sei));
}

#[test]
fn removing_the_message_from_a_nal_unit() {
    let p = payload();
    assert_eq!(prefix_sei_removed_hdr10plus_nalu(&p, true), Ok((true, Some(vec![0x4E, 0x01, 5, 2, 0xAA, 0xBB, 0x80]))));
    let only = [0x4E, 0x01, 4, 8, 0xB5, 0x00, 0x3C, 0x00, 0x01, 0x04, 0x01, 0x99, 0x80];
    assert_eq!(prefix_sei_removed_hdr10plus_nalu(&only, true), Ok((true, None)));
    let other = [0x4E, 0x01, 5, 2, 0xAA, 0xBB, 0x80];
    assert_eq!(prefix_sei_removed_hdr10plus_nalu(&other, true), Ok((false, None)));
}

#[test]
fn adding_the_sei_of_a_chunk() {
    let p = payload();
    let mut chunk = p.clone();
    chunk.extend_from_slice(&[0x02, 0x01, 0xAF]);
    chunk.extend_from_slice(&[0x02, 0x01, 0xAF]);
    let n = p.len();
    let nals = [
        NalSpan { nal_type: 39, start: 0, end: n, decoded_frame_index: 0 },
        NalSpan { nal_type: 1, start: n, end: n + 3, decoded_frame_index: 0 },
        NalSpan { nal_type: 1, start: n + 3, end: n + 6, decoded_frame_index: 1 },
    ];
    let mut list: Vec<MetadataFrame> = vec![];
    assert_eq!(add_hdr10plus_sei(&mut list, &nals, &chunk, true, false), Ok(()));
    assert_eq!(list.len(), 2);
    assert_eq!(list[0].decoded_index, 0);
    assert_eq!(list[0].metadata, Some(p[8..16].to_vec()));
    assert_eq!(list[1].decoded_index, 1);
    assert!(list[1].metadata.is_none());

    let mut checked: Vec<MetadataFrame> = vec![];
    assert_eq!(
        add_hdr10plus_sei(&mut checked, &nals, &chunk, true, true),
        Err(ExtractError::Parser(ParserError::MetadataDetected))
    );

    let mut none: Vec<MetadataFrame> = vec![];
    assert_eq!(
        add_hdr10plus_sei(&mut none, &nals[1..], &chunk, true, false),
        Err(ExtractError::Parser(ParserError::NoMetadataFound))
    );

    let mut broken_chunk = chunk.clone();
    broken_chunk[3] = 50;
    let mut broken: Vec<MetadataFrame> = vec![];
    assert!(matches!(add_hdr10plus_sei(&mut broken, &nals, &broken_chunk, true, false), Err(ExtractError::Sei(_))));
}

#[test]
fn taking_the_message_out() {
    let p = payload();
    let m = messages();
    assert_eq!(without_st2094_40(p.clone(), m[1], 2), Some(vec![0x4E, 0x01, 5, 2, 0xAA, 0xBB, 0x80]));
    assert_eq!(without_st2094_40(p, m[1], 1), None);
}

#[test]
fn taking_out_escapes_again() {
    let p = vec![0x4E, 0x01, 0, 0, 9, 9, 2, 0x80];
    let msg = SeiMessageInfo { msg_offset: 4, payload_type: 4, payload_offset: 5, payload_size: 1 };
    assert_eq!(without_st2094_40(p, msg, 2), Some(vec![0x4E, 0x01, 0, 0, 3, 2, 0x80]));
}

#[test]
fn recording_nal_units() {
    let p = payload();
    let m = messages();
    let mut list: Vec<MetadataFrame> = vec![];
    record_nal(&mut list, 1, 0, &[], None);
    assert!(list.is_empty());
    record_nal(&mut list, 39, 0, &p, Some(m[1]));
    assert_eq!(list.len(), 1);
    assert_eq!(list[0].metadata, Some(p[8..16].to_vec()));
    record_nal(&mut list, 1, 0, &[], None);
    assert_eq!(list.len(), 1);
    record_nal(&mut list, 1, 1, &[], None);
    assert_eq!(list.len(), 2);
    assert_eq!(list[1].decoded_index, 1);
    assert!(list[1].metadata.is_none());
    record_nal(&mut list, 32, 2, &[], None);
    assert_eq!(list.len(), 2);
}

#[test]
fn list_status_after_chunk() {
    let empty: Vec<MetadataFrame> = vec![];
    assert_eq!(sei_list_status(&empty, false), Err(ParserError::NoMetadataFound));
    let one = vec![MetadataFrame { decoded_index: 0, presentation_number: 0, metadata: None }];
    assert_eq!(sei_list_status(&one, true), Err(ParserError::MetadataDetected));
    assert_eq!(sei_list_status(&one, false), Ok(()));
}

#[test]
fn short_or_escaped_sei_payloads() {
    assert_eq!(st2094_40_sei_msg(&[0x4E, 0x01, 0x80], true), Ok(None));
    let mut escaped = vec![0x4E, 0x01, 5, 3, 0, 0, 3, 1, 4, 8, 0xB5, 0x00, 0x3C, 0x00, 0x01, 0x04, 0x01, 0x99, 0x80];
    let m = vec![
        SeiMessageInfo { msg_offset: 2, payload_type: 5, payload_offset: 4, payload_size: 3 },
        SeiMessageInfo { msg_offset: 7, payload_type: 4, payload_offset: 9, payload_size: 8 },
    ];
    assert_eq!(st2094_40_sei_msg(&escaped, true), Ok(Some(m[1])));
    escaped[14] = 2;
    assert_eq!(st2094_40_sei_msg(&escaped, true), Ok(None));
}

#[test]
fn what_becomes_of_an_sei_nal_unit() {
    assert_eq!(sei_nal_outcome(false, None), SeiNalOutcome::Keep);
    assert_eq!(sei_nal_outcome(true, None), SeiNalOutcome::Drop);
    assert_eq!(sei_nal_outcome(true, Some(vec![1, 2])), SeiNalOutcome::Replace(vec![1, 2]));
}
