//! HDR10+ SEI messages in an HEVC stream: finding the ST 2094-40 message among an SEI
//! NAL unit's messages, recording it per decoded frame, taking it out of a NAL unit, and
//! choosing where a new one goes in a frame.
use vstd::prelude::*;

use hevc_parser::hevc::{NALUnit, SeiMessage};

use crate::av1::t35_header_ok;
use crate::extract::{frame_views, ExtractError, FrameOrder, MetadataFrame, MetadataFrameView, ParserError};
use crate::hevc::{
    add_emulation_prevention, encode_hevc_from_json, lemma_without_epb_not_longer, remove_emulation_prevention, spec_encode_hevc_json,
    with_emulation_prevention, without_emulation_prevention, NAL_SEI_PREFIX, USER_DATA_REGISTERED_ITU_T_35,
};
use crate::inject::{json_views, InjectError};
use crate::json::{copy_u8s, Hdr10PlusJsonMetadata, JsonFrameView};

verus! {

/// NAL unit type that no specification uses, which carries metadata for frames past the
/// end of the metadata list.
pub const NAL_UNSPEC62: u8 = 62;

/// Whether a NAL unit type is that of a slice.
pub open spec fn spec_is_slice_type(nal_type: u8) -> bool {
    nal_type <= 9 || (16 <= nal_type <= 21)
}

/// Calls `hevc_parser::hevc::NALUnit::is_type_slice`. Claimed, as its source shows: the
/// slice types are 0 to 9 (trailing, sub-layer access, step-wise access, leading) and 16
/// to 21 (broken link, IDR, clean random access).
#[verifier::external_body]
pub(crate) fn is_slice_type(nal_type: u8) -> (r: bool)
    ensures
        r == spec_is_slice_type(nal_type),
{
    NALUnit::is_type_slice(nal_type)
}

/// An SEI message of a NAL unit: where it starts, its payload type, and where its payload
/// starts and how long it is, in the NAL unit's bytes.
#[derive(Debug, Clone, Copy, PartialEq, Eq)]
pub struct SeiMessageInfo {
    pub msg_offset: usize,
    pub payload_type: u8,
    pub payload_offset: usize,
    pub payload_size: usize,
}

/// The messages lie within the bytes they were read from, each starting before its payload.
pub open spec fn messages_within(data: Seq<u8>, messages: Seq<SeiMessageInfo>) -> bool {
    forall|i: int| 0 <= i < messages.len() ==> {
        &&& (#[trigger] messages[i]).msg_offset <= messages[i].payload_offset
        &&& messages[i].payload_offset + messages[i].payload_size <= data.len()
    }
}

/// Whether a message is an HDR10+ ST 2094-40 message: T.35 registered user data of at least
/// seven bytes, with the HDR10+ T.35 header.
pub open spec fn is_st2094_40(data: Seq<u8>, msg: SeiMessageInfo, validate: bool) -> bool {
    &&& msg.payload_type == USER_DATA_REGISTERED_ITU_T_35
    &&& msg.payload_size >= 7
    &&& t35_header_ok(
        data.subrange(msg.payload_offset as int, msg.payload_offset + msg.payload_size),
        validate,
    )
}

/// The index of the first HDR10+ message among the first `k` messages.
pub open spec fn first_st2094_40(data: Seq<u8>, messages: Seq<SeiMessageInfo>, validate: bool, k: nat) -> Option<nat>
    decreases k,
{
    if k == 0 {
        None
    } else {
        match first_st2094_40(data, messages, validate, (k - 1) as nat) {
            Some(i) => Some(i),
            None => if is_st2094_40(data, messages[k - 1], validate) {
                Some((k - 1) as nat)
            } else {
                None
            },
        }
    }
}

/// The first HDR10+ message among `messages`, read from `data`.
pub open spec fn spec_first_hdr10plus_message(data: Seq<u8>, messages: Seq<SeiMessageInfo>, validate: bool) -> Option<SeiMessageInfo> {
    match first_st2094_40(data, messages, validate, messages.len()) {
        Some(i) => Some(messages[i as int]),
        None => None,
    }
}

/// Why the SEI messages of a NAL unit could not be read.
#[derive(Debug, Clone, PartialEq, Eq)]
pub enum SeiError {
    /// The SEI parser refused the bytes; its message.
    Parse(String),
    /// The NAL unit holds 2^26 bytes or more, past what the SEI parser counts in bits.
    NalTooLong,
    /// A message's payload type is coded past 255, past what the SEI parser holds.
    PayloadTypeOutOfRange,
}

/// The index of the first byte at or after `q` that is not `0xFF`, or `q` past the end.
pub open spec fn ff_run_end(data: Seq<u8>, q: nat) -> nat
    decreases data.len() - q,
{
    if q < data.len() && data[q as int] == 0xFF {
        ff_run_end(data, q + 1)
    } else {
        q
    }
}

/// A run of `0xFF` bytes ends at or after where it starts, on a byte other than `0xFF`.
pub proof fn lemma_ff_run_end_ge(data: Seq<u8>, q: nat)
    ensures
        ff_run_end(data, q) >= q,
        ff_run_end(data, q) < data.len() ==> data[ff_run_end(data, q) as int] != 0xFF,
    decreases data.len() - q,
{
    if q < data.len() && data[q as int] == 0xFF {
        lemma_ff_run_end_ge(data, q + 1);
    }
}

/// Whether no SEI message from byte `p` on has its payload type coded past 255 (a first
/// type byte `0xFF` followed by a non-zero byte), the messages followed as the SEI parser
/// reads them: type bytes up to the first one below `0xFF`, size bytes likewise, each
/// `0xFF` counting 255, then the payload; the reading ends where the bytes run out or at
/// most one byte is left after a payload.
pub open spec fn sei_types_fit_from(data: Seq<u8>, p: nat) -> bool
    decreases data.len() - p,
{
    if p >= data.len() {
        true
    } else if data[p as int] == 0xFF && p + 1 < data.len() && data[p + 1int] != 0 {
        false
    } else {
        let t: nat = if data[p as int] == 0xFF { p + 2 } else { p + 1 };
        let e = ff_run_end(data, t);
        if e >= data.len() {
            true
        } else {
            proof {
                lemma_ff_run_end_ge(data, t);
            }
            let next: int = e + 1 + 255 * (e - t) + data[e as int];
            if next > data.len() || data.len() - next <= 1 {
                true
            } else {
                sei_types_fit_from(data, next as nat)
            }
        }
    }
}

/// Whether the SEI parser reads every payload type of `data` within 255: it does for bytes
/// that do not open an SEI NAL unit header (it stops there), and otherwise as
/// `sei_types_fit_from` says for the messages after the two header bytes.
pub open spec fn sei_types_fit(data: Seq<u8>) -> bool {
    data.len() < 2 || !((data[0] as int / 2) % 64 == 39 || (data[0] as int / 2) % 64 == 40)
        || sei_types_fit_from(data, 2)
}

/// Bytes that the SEI parser reads without an arithmetic overflow.
pub open spec fn sei_readable(data: Seq<u8>) -> bool {
    data.len() < 0x400_0000 && sei_types_fit(data)
}

fn ff_run(data: &[u8], t: usize) -> (e: usize)
    requires
        t <= data@.len() + 2,
        data@.len() < 0x400_0000,
    ensures
        e == ff_run_end(data@, t as nat),
{
    let mut e = t;
    while e < data.len() && data[e] == 0xFF
        invariant
            t <= e,
            e <= data@.len() + 2,
            data@.len() < 0x400_0000,
            ff_run_end(data@, e as nat) == ff_run_end(data@, t as nat),
        decreases data@.len() + 2 - e,
    {
        e = e + 1;
    }
    e
}

/// Whether the SEI parser reads every payload type of `data` within 255.
pub fn sei_payload_types_fit(data: &[u8]) -> (r: bool)
    requires
        data@.len() < 0x400_0000,
    ensures
        r == sei_types_fit(data@),
{
    let n = data.len();
    if n < 2 {
        return true;
    }
    let nal_type = (data[0] / 2) % 64;
    if nal_type != 39 && nal_type != 40 {
        return true;
    }
    let mut p: usize = 2;
    loop
        invariant
            2 <= p <= n,
            n == data@.len(),
            n < 0x400_0000,
            sei_types_fit(data@) == sei_types_fit_from(data@, p as nat),
        decreases n - p,
    {
        if p >= n {
            return true;
        }
        if data[p] == 0xFF && p + 1 < n && data[p + 1] != 0 {
            return false;
        }
        let t = if data[p] == 0xFF { p + 2 } else { p + 1 };
        let e = ff_run(data, t);
        proof {
            lemma_ff_run_end_ge(data@, t as nat);
        }
        if e >= n {
            return true;
        }
        let next: u64 = e as u64 + 1 + 255 * ((e - t) as u64) + data[e] as u64;
        if next > n as u64 || n as u64 - next <= 1 {
            return true;
        }
        p = next as usize;
    }
}

/// The SEI messages that `hevc_parser` reads from bytes without emulation prevention
/// bytes, `None` where it fails.
pub uninterp spec fn parsed_sei_messages(data: Seq<u8>) -> Option<Seq<SeiMessageInfo>>;

/// Calls `hevc_parser::hevc::SeiMessage::parse_sei_rbsp` and keeps of each message its
/// offsets, payload type and payload size. Required, as the source's arithmetic needs: under
/// 2^26 bytes, so that the `u32` bit count of a payload cannot overflow, and every payload
/// type within 255, so that the `u8` payload type cannot. Claimed: the result is a function
/// of the bytes; a successful parse reads at least one message; and, as the source shows,
/// each message starts before its payload, and its payload, which the parser skips with a
/// bounds check, lies within the bytes. The text of the parser's error is left unsaid.
#[verifier::external_body]
fn parse_sei_rbsp(data: &[u8]) -> (r: Result<Vec<SeiMessageInfo>, String>)
    requires
        sei_readable(data@),
    ensures
        match r {
            Ok(v) => parsed_sei_messages(data@) == Some(v@) && v@.len() >= 1 && messages_within(data@, v@),
            Err(_) => parsed_sei_messages(data@) is None,
        },
{
    match SeiMessage::parse_sei_rbsp(data) {
        Ok(v) => Ok(v.iter().map(|m| SeiMessageInfo {
            msg_offset: m.msg_offset,
            payload_type: m.payload_type,
            payload_offset: m.payload_offset,
            payload_size: m.payload_size,
        }).collect()),
        Err(e) => Err(e.to_string()),
    }
}

/// The SEI messages of `data`, as `hevc_parser` reads them, when it reads them without an
/// overflow.
pub open spec fn readable_sei_messages(data: Seq<u8>) -> Option<Seq<SeiMessageInfo>> {
    if sei_readable(data) {
        parsed_sei_messages(data)
    } else {
        None
    }
}

/// The error on bytes whose SEI messages cannot be read.
pub open spec fn sei_error_of(data: Seq<u8>, e: SeiError) -> bool {
    if data.len() >= 0x400_0000 {
        e == SeiError::NalTooLong
    } else if !sei_types_fit(data) {
        e == SeiError::PayloadTypeOutOfRange
    } else {
        e is Parse && parsed_sei_messages(data) is None
    }
}

/// The SEI messages of bytes without emulation prevention bytes.
pub fn sei_messages(data: &[u8]) -> (r: Result<Vec<SeiMessageInfo>, SeiError>)
    ensures
        match readable_sei_messages(data@) {
            Some(ms) => r matches Ok(v) && v@ == ms,
            None => r matches Err(e) && sei_error_of(data@, e),
        },
        r matches Ok(v) ==> messages_within(data@, v@),
{
    if data.len() >= 0x400_0000 {
        return Err(SeiError::NalTooLong);
    }
    if !sei_payload_types_fit(data) {
        return Err(SeiError::PayloadTypeOutOfRange);
    }
    match parse_sei_rbsp(data) {
        Ok(v) => Ok(v),
        Err(e) => Err(SeiError::Parse(e)),
    }
}

/// The HDR10+ ST 2094-40 message of an SEI NAL unit, if any, `None` where the bytes say
/// nothing: with its emulation prevention bytes removed, a NAL unit of at least four bytes
/// holds the messages that the SEI parser reads, among which it is the first HDR10+ one; a
/// shorter one holds none.
pub open spec fn spec_st2094_40_sei_msg(sei_payload: Seq<u8>, validate: bool) -> Option<Option<SeiMessageInfo>> {
    let data = without_emulation_prevention(sei_payload);
    if data.len() < 4 {
        Some(None)
    } else {
        match readable_sei_messages(data) {
            Some(ms) => Some(spec_first_hdr10plus_message(data, ms, validate)),
            None => None,
        }
    }
}

/// The HDR10+ ST 2094-40 message of an SEI NAL unit, if any. Its offsets are in the NAL
/// unit's bytes once their emulation prevention bytes are removed.
pub fn st2094_40_sei_msg(sei_payload: &[u8], validate: bool) -> (r: Result<Option<SeiMessageInfo>, SeiError>)
    ensures
        match spec_st2094_40_sei_msg(sei_payload@, validate) {
            Some(found) => r == Ok::<Option<SeiMessageInfo>, SeiError>(found),
            None => r matches Err(e) && sei_error_of(without_emulation_prevention(sei_payload@), e),
        },
        r matches Ok(Some(msg)) ==> msg.msg_offset <= msg.payload_offset
            && msg.payload_offset + msg.payload_size <= without_emulation_prevention(sei_payload@).len(),
{
    let data = remove_emulation_prevention(sei_payload);
    if data.len() < 4 {
        return Ok(None);
    }
    let messages = match sei_messages(data.as_slice()) {
        Ok(v) => v,
        Err(e) => return Err(e),
    };
    Ok(first_hdr10plus_message(data.as_slice(), messages.as_slice(), validate))
}

/// The first HDR10+ message among `messages`, read from `sei_payload`.
pub fn first_hdr10plus_message(sei_payload: &[u8], messages: &[SeiMessageInfo], validate: bool) -> (r: Option<SeiMessageInfo>)
    requires
        messages_within(sei_payload@, messages@),
    ensures
        r == spec_first_hdr10plus_message(sei_payload@, messages@, validate),
        r matches Some(msg) ==> msg.msg_offset <= msg.payload_offset
            && msg.payload_offset + msg.payload_size <= sei_payload@.len(),
{
    let plen = sei_payload.len();
    let mut i: usize = 0;
    while i < messages.len()
        invariant
            plen == sei_payload@.len(),
            i <= messages@.len(),
            messages_within(sei_payload@, messages@),
            first_st2094_40(sei_payload@, messages@, validate, i as nat) is None,
        decreases messages@.len() - i,
    {
        let msg = messages[i];
        if msg.payload_type == USER_DATA_REGISTERED_ITU_T_35 && msg.payload_size >= 7 {
            let start = msg.payload_offset;
            let p = sei_payload;
            let provider: u16 = (p[start + 1] as u16) * 256 + p[start + 2] as u16;
            let oriented: u16 = (p[start + 3] as u16) * 256 + p[start + 4] as u16;
            let application_identifier = p[start + 5];
            let application_version = p[start + 6];
            let valid_version = if validate {
                application_version == 1
            } else {
                application_version <= 1
            };
            proof {
                let t = sei_payload@.subrange(start as int, start + msg.payload_size);
                assert(t[0] == p@[start as int]);
                assert(t[1] == p@[start + 1]);
                assert(t[2] == p@[start + 2]);
                assert(t[3] == p@[start + 3]);
                assert(t[4] == p@[start + 4]);
                assert(t[5] == p@[start + 5]);
                assert(t[6] == p@[start + 6]);
            }
            if p[start] == 0xB5 && provider == 0x003C && oriented == 0x0001 && application_identifier == 4
                && valid_version {
                proof {
                    lemma_first_st2094_40_stays(sei_payload@, messages@, validate, i as nat, messages@.len());
                }
                return Some(msg);
            }
        }
        i = i + 1;
    }
    None
}

proof fn lemma_first_st2094_40_stays(data: Seq<u8>, messages: Seq<SeiMessageInfo>, validate: bool, i: nat, k: nat)
    requires
        i < k <= messages.len(),
        first_st2094_40(data, messages, validate, i) is None,
        is_st2094_40(data, messages[i as int], validate),
    ensures
        first_st2094_40(data, messages, validate, k) == Some(i),
    decreases k,
{
    if k > i + 1 {
        lemma_first_st2094_40_stays(data, messages, validate, i, (k - 1) as nat);
    }
}

/// A byte-for-byte copy of `data[start..end]`.
fn copy_range(data: &[u8], start: usize, end: usize) -> (r: Vec<u8>)
    requires
        start <= end <= data@.len(),
    ensures
        r@ == data@.subrange(start as int, end as int),
{
    let mut out: Vec<u8> = Vec::new();
    let mut k = start;
    while k < end
        invariant
            start <= k <= end,
            end <= data@.len(),
            out@ == data@.subrange(start as int, k as int),
        decreases end - k,
    {
        out.push(data[k]);
        k = k + 1;
        assert(out@ =~= data@.subrange(start as int, k as int));
    }
    out
}

/// The SEI list after a NAL unit: an HDR10+ message found in an SEI prefix NAL unit adds
/// an entry with its payload (emulation prevention bytes added back) for the NAL unit's
/// decoded frame; then a slice of a decoded frame past the last entry's adds an entry
/// without metadata.
pub open spec fn spec_record_nal(
    list: Seq<MetadataFrameView>,
    nal_type: u8,
    decoded_frame_index: u64,
    sei_payload: Seq<u8>,
    found: Option<SeiMessageInfo>,
) -> Seq<MetadataFrameView> {
    let l1 = match found {
        Some(msg) => if nal_type == NAL_SEI_PREFIX {
            list.push(MetadataFrameView {
                decoded_index: decoded_frame_index,
                presentation_number: 0,
                metadata: Some(with_emulation_prevention(
                    sei_payload.subrange(msg.payload_offset as int, msg.payload_offset + msg.payload_size),
                )),
            })
        } else {
            list
        },
        None => list,
    };
    if l1.len() > 0 && spec_is_slice_type(nal_type) && l1.last().decoded_index < decoded_frame_index {
        l1.push(MetadataFrameView { decoded_index: decoded_frame_index, presentation_number: 0, metadata: None })
    } else {
        l1
    }
}

/// Records a NAL unit of the stream in the SEI list: `sei_payload` holds its bytes without
/// emulation prevention bytes, and `found` the HDR10+ message found in them, if any.
pub fn record_nal(
    list: &mut Vec<MetadataFrame>,
    nal_type: u8,
    decoded_frame_index: u64,
    sei_payload: &[u8],
    found: Option<SeiMessageInfo>,
)
    requires
        found matches Some(msg) ==> msg.payload_offset + msg.payload_size <= sei_payload@.len(),
    ensures
        frame_views(final(list)@) == spec_record_nal(frame_views(old(list)@), nal_type, decoded_frame_index, sei_payload@, found),
{
    let ghost l0 = frame_views(list@);
    let _plen = sei_payload.len();
    if nal_type == NAL_SEI_PREFIX {
        match found {
            Some(msg) => {
                let start = msg.payload_offset;
                let end = start + msg.payload_size;
                let mut bytes = copy_range(sei_payload, start, end);
                add_emulation_prevention(&mut bytes);
                list.push(MetadataFrame { decoded_index: decoded_frame_index, presentation_number: 0, metadata: Some(bytes) });
            },
            None => {},
        }
    }
    let ghost l1 = frame_views(list@);
    assert(l1 =~= match found {
        Some(msg) => if nal_type == NAL_SEI_PREFIX {
            l0.push(MetadataFrameView {
                decoded_index: decoded_frame_index,
                presentation_number: 0,
                metadata: Some(with_emulation_prevention(
                    sei_payload@.subrange(msg.payload_offset as int, msg.payload_offset + msg.payload_size),
                )),
            })
        } else {
            l0
        },
        None => l0,
    });
    let n = list.len();
    if n > 0 {
        let last_index = list[n - 1].decoded_index;
        if is_slice_type(nal_type) && last_index < decoded_frame_index {
            list.push(MetadataFrame { decoded_index: decoded_frame_index, presentation_number: 0, metadata: None });
            assert(frame_views(list@) =~= l1.push(MetadataFrameView {
                decoded_index: decoded_frame_index,
                presentation_number: 0,
                metadata: None,
            }));
        }
    }
}

/// A NAL unit of a chunk of the stream: its type, where its bytes stand in the chunk, and
/// the decoded frame it belongs to.
#[derive(Debug, Clone, Copy, PartialEq, Eq)]
pub struct NalSpan {
    pub nal_type: u8,
    pub start: usize,
    pub end: usize,
    pub decoded_frame_index: u64,
}

/// The NAL units' bytes lie within a chunk of `len` bytes.
pub open spec fn spans_within(nals: Seq<NalSpan>, len: nat) -> bool {
    forall|i: int| 0 <= i < nals.len() ==> (#[trigger] nals[i]).start <= nals[i].end <= len
}

/// What a NAL unit gives the SEI list: for an SEI prefix NAL unit, its bytes without
/// emulation prevention bytes and its HDR10+ message, if any; nothing for another one;
/// `None` where the SEI messages cannot be read.
pub open spec fn spec_nal_sei(chunk: Seq<u8>, nal: NalSpan, validate: bool) -> Option<(Seq<u8>, Option<SeiMessageInfo>)> {
    if nal.nal_type == NAL_SEI_PREFIX {
        let p = without_emulation_prevention(chunk.subrange(nal.start as int, nal.end as int));
        match spec_st2094_40_sei_msg(p, validate) {
            Some(found) => Some((p, found)),
            None => None,
        }
    } else {
        Some((seq![], None))
    }
}

/// The SEI list after the first `k` NAL units of a chunk, `None` where the SEI messages of
/// one of them cannot be read.
pub open spec fn spec_add_sei(
    list: Seq<MetadataFrameView>,
    nals: Seq<NalSpan>,
    chunk: Seq<u8>,
    validate: bool,
    k: nat,
) -> Option<Seq<MetadataFrameView>>
    decreases k,
{
    if k == 0 {
        Some(list)
    } else {
        match spec_add_sei(list, nals, chunk, validate, (k - 1) as nat) {
            Some(l) => match spec_nal_sei(chunk, nals[k - 1], validate) {
                Some((p, found)) => Some(
                    spec_record_nal(l, nals[k - 1].nal_type, nals[k - 1].decoded_frame_index, p, found),
                ),
                None => None,
            },
            None => None,
        }
    }
}

proof fn lemma_add_sei_fails_on(
    list: Seq<MetadataFrameView>,
    nals: Seq<NalSpan>,
    chunk: Seq<u8>,
    validate: bool,
    i: nat,
    k: nat,
)
    requires
        i <= k,
        spec_add_sei(list, nals, chunk, validate, i) is None,
    ensures
        spec_add_sei(list, nals, chunk, validate, k) is None,
    decreases k,
{
    if k > i {
        lemma_add_sei_fails_on(list, nals, chunk, validate, i, (k - 1) as nat);
    }
}

/// Adds to the SEI list what the NAL units of a chunk hold, in their order: each HDR10+
/// message of an SEI prefix NAL unit, and an entry without metadata for each decoded frame
/// whose slices come with none. Then fails when the list is still empty, or, when only
/// checking, reports that metadata is there.
pub fn add_hdr10plus_sei(
    list: &mut Vec<MetadataFrame>,
    nals: &[NalSpan],
    chunk: &[u8],
    validate: bool,
    verify: bool,
) -> (r: Result<(), ExtractError>)
    requires
        spans_within(nals@, chunk@.len()),
    ensures
        match spec_add_sei(frame_views(old(list)@), nals@, chunk@, validate, nals@.len()) {
            Some(l) => frame_views(final(list)@) == l && r == (if l.len() == 0 {
                Err(ExtractError::Parser(ParserError::NoMetadataFound))
            } else if verify {
                Err(ExtractError::Parser(ParserError::MetadataDetected))
            } else {
                Ok(())
            }),
            None => r matches Err(ExtractError::Sei(_)),
        },
{
    let ghost l0 = frame_views(list@);
    let mut i: usize = 0;
    while i < nals.len()
        invariant
            i <= nals@.len(),
            spans_within(nals@, chunk@.len()),
            l0 == frame_views(old(list)@),
            spec_add_sei(l0, nals@, chunk@, validate, i as nat) == Some(frame_views(list@)),
        decreases nals@.len() - i,
    {
        let nal = nals[i];
        assert(nal.start <= nal.end <= chunk@.len()) by {
            assert(nals@[i as int] == nal);
        }
        if nal.nal_type == NAL_SEI_PREFIX {
            let bytes = copy_range(chunk, nal.start, nal.end);
            let sei_payload = remove_emulation_prevention(bytes.as_slice());
            let found = match st2094_40_sei_msg(sei_payload.as_slice(), validate) {
                Ok(f) => f,
                Err(e) => {
                    proof {
                        assert(nals@[i as int] == nal);
                        assert(spec_nal_sei(chunk@, nal, validate) is None);
                        assert(spec_add_sei(l0, nals@, chunk@, validate, (i + 1) as nat) is None);
                        lemma_add_sei_fails_on(l0, nals@, chunk@, validate, (i + 1) as nat, nals@.len());
                    }
                    return Err(ExtractError::Sei(e));
                },
            };
            proof {
                lemma_without_epb_not_longer(sei_payload@, sei_payload@.len());
            }
            record_nal(list, nal.nal_type, nal.decoded_frame_index, sei_payload.as_slice(), found);
        } else {
            record_nal(list, nal.nal_type, nal.decoded_frame_index, &[], None);
        }
        i = i + 1;
    }
    match sei_list_status(list, verify) {
        Ok(()) => Ok(()),
        Err(e) => Err(ExtractError::Parser(e)),
    }
}

/// Whether a parse may go on after a chunk: it fails when no HDR10+ SEI was found so far,
/// and reports the metadata found when only checking.
pub fn sei_list_status(list: &Vec<MetadataFrame>, verify: bool) -> (r: Result<(), ParserError>)
    ensures
        r == (if list@.len() == 0 {
            Err(ParserError::NoMetadataFound)
        } else if verify {
            Err(ParserError::MetadataDetected)
        } else {
            Ok(())
        }),
{
    if list.len() == 0 {
        Err(ParserError::NoMetadataFound)
    } else if verify {
        Err(ParserError::MetadataDetected)
    } else {
        Ok(())
    }
}

/// An SEI NAL unit without its HDR10+ message: the message's bytes are taken out and
/// emulation prevention bytes added back; a NAL unit whose only message it is goes away.
pub open spec fn spec_without_st2094_40(payload: Seq<u8>, msg: SeiMessageInfo, message_count: nat) -> Option<Seq<u8>> {
    if message_count > 1 {
        Some(with_emulation_prevention(
            payload.take(msg.msg_offset as int) + payload.skip(msg.payload_offset + msg.payload_size),
        ))
    } else {
        None
    }
}

/// Takes the HDR10+ message `msg` out of an SEI NAL unit's bytes (without emulation
/// prevention bytes), given the number of messages it holds.
pub fn without_st2094_40(payload: Vec<u8>, msg: SeiMessageInfo, message_count: usize) -> (r: Option<Vec<u8>>)
    requires
        msg.msg_offset <= msg.payload_offset,
        msg.payload_offset + msg.payload_size <= payload@.len(),
    ensures
        match spec_without_st2094_40(payload@, msg, message_count as nat) {
            Some(b) => r matches Some(v) && v@ == b,
            None => r is None,
        },
{
    let _plen = payload.len();
    if message_count > 1 {
        let start = msg.msg_offset;
        let end = msg.payload_offset + msg.payload_size;
        let mut out = copy_range(payload.as_slice(), 0, start);
        let mut tail = copy_range(payload.as_slice(), end, payload.len());
        out.append(&mut tail);
        assert(out@ =~= payload@.take(msg.msg_offset as int) + payload@.skip(msg.payload_offset + msg.payload_size));
        add_emulation_prevention(&mut out);
        Some(out)
    } else {
        None
    }
}

/// An SEI prefix NAL unit's bytes (with emulation prevention bytes) without its HDR10+
/// message: whether it held one, and the bytes that replace it; none where it held no
/// HDR10+ message, or only that one, so that it goes away.
pub fn prefix_sei_removed_hdr10plus_nalu(nal: &[u8], validate: bool) -> (r: Result<(bool, Option<Vec<u8>>), SeiError>)
    ensures
        ({
            let p = without_emulation_prevention(nal@);
            match spec_st2094_40_sei_msg(p, validate) {
                None => r is Err,
                Some(None) => r matches Ok((false, None)),
                Some(Some(msg)) => match readable_sei_messages(p) {
                    None => r is Err,
                    Some(ms) => r matches Ok((true, d)) && match spec_without_st2094_40(p, msg, ms.len()) {
                        Some(b) => d matches Some(v) && v@ == b,
                        None => d is None,
                    },
                },
            }
        }),
{
    let sei_payload = remove_emulation_prevention(nal);
    let found = match st2094_40_sei_msg(sei_payload.as_slice(), validate) {
        Ok(f) => f,
        Err(e) => return Err(e),
    };
    match found {
        None => Ok((false, None)),
        Some(msg) => {
            let messages = match sei_messages(sei_payload.as_slice()) {
                Ok(v) => v,
                Err(e) => return Err(e),
            };
            proof {
                lemma_without_epb_not_longer(sei_payload@, sei_payload@.len());
            }
            Ok((true, without_st2094_40(sei_payload, msg, messages.len())))
        },
    }
}

/// What becomes of an SEI prefix NAL unit once its HDR10+ message is taken out.
#[derive(Debug, Clone, PartialEq, Eq)]
pub enum SeiNalOutcome {
    /// It held no HDR10+ message and stays as it was.
    Keep,
    /// It held other messages too; these bytes replace it.
    Replace(Vec<u8>),
    /// The HDR10+ message was its only one; it goes away.
    Drop,
}

/// The outcome for an SEI prefix NAL unit, from what `prefix_sei_removed_hdr10plus_nalu`
/// returned for it: whether it held an HDR10+ message, and its bytes without it, if any.
pub fn sei_nal_outcome(has_st2094_40: bool, data: Option<Vec<u8>>) -> (r: SeiNalOutcome)
    ensures
        match data {
            Some(d) => r matches SeiNalOutcome::Replace(v) && v@ == d@,
            None => r == (if has_st2094_40 { SeiNalOutcome::Drop } else { SeiNalOutcome::Keep }),
        },
{
    match data {
        Some(d) => SeiNalOutcome::Replace(d),
        None => if has_st2094_40 {
            SeiNalOutcome::Drop
        } else {
            SeiNalOutcome::Keep
        },
    }
}

} // verus!
