//! AV1 framing of HDR10+ metadata: LEB128 integers and `OBU_METADATA` units carrying
//! an ITU-T T.35 payload.
use vstd::prelude::*;

use crate::bits::{lemma_pow2_values, pow2};
use crate::error::Hdr10PlusError;
use crate::inject::json_views;
use crate::json::{spec_from_json_frame, spec_json_frame_error, Hdr10PlusJsonMetadata, JsonFrameView};
use crate::metadata::{spec_encode, spec_encode_shaped, Hdr10PlusMetadata, Hdr10PlusMetadataEncOpts};

verus! {

/// LEB128 bytes of `v`: seven bits per byte, least significant group first, the high bit
/// set on every byte but the last.
pub open spec fn leb128_bytes(v: nat) -> Seq<u8>
    decreases v,
{
    if v < 128 {
        seq![v as u8]
    } else {
        seq![(v % 128 + 128) as u8] + leb128_bytes(v / 128)
    }
}

/// The number of bytes that decoding consumes from position `i` on: up to and including
/// the first byte whose high bit is clear, but at most eight bytes and at most the data.
pub open spec fn leb128_len_from(data: Seq<u8>, i: nat) -> nat
    decreases 8 - i,
{
    if i >= 8 || i >= data.len() {
        i
    } else if data[i as int] < 128 {
        i + 1
    } else {
        leb128_len_from(data, i + 1)
    }
}

/// The number of bytes that decoding consumes.
pub open spec fn leb128_len(data: Seq<u8>) -> nat {
    leb128_len_from(data, 0)
}

/// The value of the bytes `data[i..k]` read as seven-bit groups, least significant first.
pub open spec fn leb128_value(data: Seq<u8>, i: nat, k: nat) -> nat
    decreases k - i,
{
    if i >= k {
        0
    } else {
        (data[i as int] % 128) as nat + 128 * leb128_value(data, i + 1, k)
    }
}

pub proof fn lemma_pow2_step7(k: nat)
    ensures
        pow2(k + 7) == 128 * pow2(k),
{
    reveal_with_fuel(pow2, 8);
}

/// Appending a byte adds its seven bits at the next group.
pub proof fn lemma_leb128_value_push(data: Seq<u8>, i: nat, k: nat)
    requires
        i <= k,
    ensures
        leb128_value(data, i, k + 1) == leb128_value(data, i, k) + (data[k as int] % 128) as nat * pow2(
            (7 * (k - i)) as nat,
        ),
    decreases k - i,
{
    if i < k {
        lemma_leb128_value_push(data, i + 1, k);
        let e = (7 * (k - i - 1)) as nat;
        lemma_pow2_step7(e);
        assert((7 * (k - i)) as nat == e + 7);
        let t = (data[k as int] % 128) as nat;
        let rest = leb128_value(data, i + 1, k);
        let p = pow2(e);
        assert(leb128_value(data, i + 1, k + 1) == rest + t * p);
        assert(leb128_value(data, i, k + 1) == (data[i as int] % 128) as nat + 128 * (rest + t * p));
        assert(leb128_value(data, i, k) == (data[i as int] % 128) as nat + 128 * rest);
        assert(128 * (rest + t * p) == 128 * rest + t * (128 * p)) by (nonlinear_arith);
        assert(pow2((7 * (k - i)) as nat) == 128 * p);
        assert(leb128_value(data, i, k + 1) == leb128_value(data, i, k) + t * pow2((7 * (k - i)) as nat));
    } else {
        assert(leb128_value(data, k + 1, k + 1) == 0);
        assert(pow2(0) == 1);
        assert(leb128_value(data, k, k + 1) == (data[k as int] % 128) as nat);
        assert(leb128_value(data, k, k) == 0);
        let t = (data[k as int] % 128) as nat;
        assert(t * pow2(0) == t) by (nonlinear_arith)
            requires
                pow2(0) == 1,
        ;
    }
}

/// Encodes `value` as unsigned LEB128.
pub fn encode_leb128(value: u64) -> (r: Vec<u8>)
    ensures
        r@ == leb128_bytes(value as nat),
{
    let mut result: Vec<u8> = Vec::new();
    let mut rest = value;
    loop
        invariant
            result@ + leb128_bytes(rest as nat) == leb128_bytes(value as nat),
        decreases rest,
    {
        let low = (rest % 128) as u8;
        let next = rest / 128;
        if next == 0 {
            result.push(low);
            proof {
                assert(leb128_bytes(rest as nat) == seq![low]);
                assert(result@ =~= leb128_bytes(value as nat));
            }
            return result;
        }
        result.push(low + 128);
        proof {
            assert(leb128_bytes(rest as nat) == seq![(low + 128) as u8] + leb128_bytes(next as nat));
            assert(result@ + leb128_bytes(next as nat) =~= leb128_bytes(value as nat));
        }
        rest = next;
    }
}

/// Decodes an unsigned LEB128 value from the front of `data`, reading at most eight bytes.
/// Returns the value and the number of bytes read.
pub fn decode_leb128(data: &[u8]) -> (r: (u64, usize))
    ensures
        r.1 == leb128_len(data@),
        r.1 <= data@.len(),
        r.0 == leb128_value(data@, 0, r.1 as nat),
{
    let mut value: u64 = 0;
    let mut mult: u64 = 1;
    let mut i: usize = 0;
    let mut done = false;
    proof {
        assert(pow2(0) == 1);
    }
    while i < data.len() && i < 8 && !done
        invariant
            i <= 8,
            i <= data@.len(),
            mult == pow2((7 * i) as nat),
            value == leb128_value(data@, 0, i as nat),
            value < mult,
            done ==> leb128_len(data@) == i,
            !done ==> leb128_len(data@) == leb128_len_from(data@, i as nat),
        decreases 8 - i + (if done { 0int } else { 1int }),
    {
        let byte = data[i];
        let t = (byte % 128) as u64;
        proof {
            lemma_leb128_value_push(data@, 0, i as nat);
            lemma_decode_step(i as nat);
            assert(value + t * mult < 128 * mult) by (nonlinear_arith)
                requires
                    value < mult,
                    t < 128,
            ;
        }
        value = value + t * mult;
        mult = mult * 128;
        i = i + 1;
        if byte < 128 {
            done = true;
        }
    }
    (value, i)
}

/// The group weights that decoding eight bytes reaches.
pub proof fn lemma_decode_step(i: nat)
    requires
        i < 8,
    ensures
        pow2(7 * i + 7) == 128 * pow2(7 * i),
        128 * pow2(7 * i) <= 72057594037927936,
{
    lemma_pow2_step7(7 * i);
    lemma_pow2_mono(7 * i + 7, 56);
    lemma_pow2_values();
    lemma_pow2_add(16, 8);
    lemma_pow2_add(32, 24);
}

/// `2^(a+b) == 2^a * 2^b`.
pub proof fn lemma_pow2_add(a: nat, b: nat)
    ensures
        pow2(a + b) == pow2(a) * pow2(b),
    decreases b,
{
    if b > 0 {
        lemma_pow2_add(a, (b - 1) as nat);
        assert(pow2(a + b) == 2 * pow2((a + b - 1) as nat));
        assert(pow2(a) * pow2(b) == 2 * (pow2(a) * pow2((b - 1) as nat))) by (nonlinear_arith)
            requires
                pow2(b) == 2 * pow2((b - 1) as nat),
        ;
    } else {
        assert(pow2(a) * 1 == pow2(a)) by (nonlinear_arith);
    }
}

pub proof fn lemma_pow2_mono(a: nat, b: nat)
    requires
        a <= b,
    ensures
        pow2(a) <= pow2(b),
    decreases b - a,
{
    if a < b {
        lemma_pow2_mono(a, (b - 1) as nat);
    }
}

pub proof fn lemma_leb128_bytes_len(v: nat, k: nat)
    requires
        k >= 1,
        v < pow2(7 * k),
    ensures
        1 <= leb128_bytes(v).len() <= k,
    decreases v,
{
    if v >= 128 {
        lemma_pow2_values();
        if k == 1 {
            assert(false);
        } else {
            lemma_pow2_step7((7 * (k - 1)) as nat);
            assert((7 * (k - 1)) as nat + 7 == 7 * k);
            assert(v / 128 < pow2((7 * (k - 1)) as nat)) by (nonlinear_arith)
                requires
                    v < 128 * pow2((7 * (k - 1)) as nat),
            ;
            lemma_leb128_bytes_len(v / 128, (k - 1) as nat);
        }
    }
}

/// Decoding from position `q` reads back a value whose LEB128 bytes stand there, when
/// they end within the first eight bytes.
pub proof fn lemma_leb128_decode_at(data: Seq<u8>, q: nat, v: nat)
    requires
        q + leb128_bytes(v).len() <= 8,
        q + leb128_bytes(v).len() <= data.len(),
        data.subrange(q as int, (q + leb128_bytes(v).len()) as int) == leb128_bytes(v),
    ensures
        leb128_len_from(data, q) == q + leb128_bytes(v).len(),
        leb128_value(data, q, q + leb128_bytes(v).len()) == v,
    decreases v,
{
    let b = leb128_bytes(v);
    assert(data[q as int] == b[0]);
    if v < 128 {
        assert(leb128_value(data, q + 1, q + 1) == 0);
    } else {
        let b2 = leb128_bytes(v / 128);
        assert(b.len() == 1 + b2.len());
        assert(data.subrange((q + 1) as int, (q + 1 + b2.len()) as int) =~= b2) by {
            assert forall|j: int| 0 <= j < b2.len() implies data.subrange((q + 1) as int, (q + 1 + b2.len()) as int)[j] == b2[j] by {
                assert(data.subrange(q as int, (q + b.len()) as int)[j + 1] == b[j + 1]);
            }
        }
        lemma_leb128_decode_at(data, q + 1, v / 128);
        assert(q + 1 + b2.len() == q + b.len());
    }
}

/// Decoding the LEB128 bytes of a value below `2^56`, whatever follows them, gives back
/// the value and the number of bytes written.
pub proof fn law_leb128_decode_after_encode(v: nat, rest: Seq<u8>)
    requires
        v < pow2(56),
    ensures
        leb128_len(leb128_bytes(v) + rest) == leb128_bytes(v).len(),
        leb128_value(leb128_bytes(v) + rest, 0, leb128_bytes(v).len()) == v,
{
    let b = leb128_bytes(v);
    lemma_leb128_bytes_len(v, 8);
    let data = b + rest;
    assert(data.subrange(0, b.len() as int) =~= b);
    lemma_leb128_decode_at(data, 0, v);
}

/// OBU type of a metadata unit.
pub const OBU_METADATA: u8 = 5;

/// OBU type of a temporal delimiter.
pub const OBU_TEMPORAL_DELIMITER: u8 = 2;

/// Metadata type of ITU-T T.35 metadata.
pub const METADATA_TYPE_ITUT_T35: u64 = 4;

/// The `OBU_METADATA` payload around a T.35 payload: the metadata type, then the T.35
/// bytes.
pub open spec fn obu_payload(t35: Seq<u8>) -> Seq<u8> {
    leb128_bytes(METADATA_TYPE_ITUT_T35 as nat) + t35
}

/// A complete `OBU_METADATA` unit around a T.35 payload: the header byte `0x2A` (type 5,
/// with a size field), the payload size as LEB128, then the payload.
pub open spec fn obu_bytes(t35: Seq<u8>) -> Seq<u8> {
    seq![0x2Au8] + leb128_bytes(obu_payload(t35).len()) + obu_payload(t35)
}

/// What encoding a metadata OBU returns.
pub open spec fn spec_encode_obu(m: crate::metadata::MetadataView, validate: bool) -> Result<Seq<u8>, Hdr10PlusError> {
    match spec_encode(m, validate, true) {
        Ok(t35) => Ok(obu_bytes(t35)),
        Err(e) => Err(e),
    }
}

/// Encodes HDR10+ metadata as a complete AV1 `OBU_METADATA` unit: the OBU header, the
/// LEB128 size, the metadata type 4 (ITU-T T.35) and the T.35 payload with its country
/// code.
pub fn encode_hdr10plus_obu(metadata: &Hdr10PlusMetadata, validate: bool) -> (r: Result<Vec<u8>, Hdr10PlusError>)
    requires
        spec_encode_shaped(metadata@),
    ensures
        match spec_encode_obu(metadata@, validate) {
            Ok(bytes) => r matches Ok(v) && v@ == bytes,
            Err(e) => r == Err::<Vec<u8>, Hdr10PlusError>(e),
        },
{
    let opts = Hdr10PlusMetadataEncOpts { validate, with_country_code: true };
    let mut t35_payload = metadata.encode_with_opts(&opts)?;
    let ghost t35 = t35_payload@;
    let mut payload = encode_leb128(METADATA_TYPE_ITUT_T35);
    payload.append(&mut t35_payload);
    let header_byte: u8 = (OBU_METADATA << 3u8) | 0x02u8;
    assert(header_byte == 0x2A) by (bit_vector)
        requires
            header_byte == (5u8 << 3u8) | 0x02u8,
    ;
    let mut size_bytes = encode_leb128(payload.len() as u64);
    let mut result: Vec<u8> = Vec::new();
    result.push(header_byte);
    result.append(&mut size_bytes);
    result.append(&mut payload);
    assert(result@ =~= obu_bytes(t35));
    Ok(result)
}

/// What encoding a JSON frame as a metadata OBU returns.
pub open spec fn spec_encode_av1_json(jm: crate::json::JsonFrameView, validate: bool) -> Result<Seq<u8>, Hdr10PlusError> {
    match spec_json_frame_error(jm) {
        Some(e) => Err(e),
        None => spec_encode_obu(spec_from_json_frame(jm), validate),
    }
}

/// Builds the metadata of a JSON frame and encodes it as an AV1 `OBU_METADATA` unit.
pub fn encode_av1_from_json(metadata: &Hdr10PlusJsonMetadata, validate: bool) -> (r: Result<Vec<u8>, Hdr10PlusError>)
    ensures
        match spec_encode_av1_json(metadata@, validate) {
            Ok(bytes) => r matches Ok(v) && v@ == bytes,
            Err(e) => r == Err::<Vec<u8>, Hdr10PlusError>(e),
        },
{
    let meta = Hdr10PlusMetadata::try_from(metadata)?;
    encode_hdr10plus_obu(&meta, validate)
}

/// Why the T.35 payload of a frame of a JSON document cannot be written.
#[derive(Debug, Clone, PartialEq, Eq)]
pub enum FramePayloadError {
    /// The document holds no frame of that number.
    NoMetadataForFrame(usize),
    /// The frame cannot be turned into metadata, or its metadata breaks a rule.
    Metadata(Hdr10PlusError),
}

/// What writing the T.35 payload of frame `frame_number` of JSON frames returns: the
/// frame's metadata, validated and encoded with its country code.
pub open spec fn spec_frame_t35(list: Seq<JsonFrameView>, frame_number: usize) -> Result<Seq<u8>, FramePayloadError> {
    if frame_number >= list.len() {
        Err(FramePayloadError::NoMetadataForFrame(frame_number))
    } else {
        match spec_json_frame_error(list[frame_number as int]) {
            Some(e) => Err(FramePayloadError::Metadata(e)),
            None => match spec_encode(spec_from_json_frame(list[frame_number as int]), true, true) {
                Ok(bytes) => Ok(bytes),
                Err(e) => Err(FramePayloadError::Metadata(e)),
            },
        }
    }
}

/// The T.35 payload, country code included, of frame `frame_number` of a JSON document's
/// frames: the bytes that an AV1 metadata OBU of type ITU-T T.35 carries for that frame.
pub fn frame_t35_payload(scene_info: &[Hdr10PlusJsonMetadata], frame_number: usize) -> (r: Result<Vec<u8>, FramePayloadError>)
    ensures
        match spec_frame_t35(json_views(scene_info@), frame_number) {
            Ok(bytes) => r matches Ok(v) && v@ == bytes,
            Err(e) => r == Err::<Vec<u8>, FramePayloadError>(e),
        },
{
    if frame_number >= scene_info.len() {
        return Err(FramePayloadError::NoMetadataForFrame(frame_number));
    }
    assert(json_views(scene_info@)[frame_number as int] == scene_info@[frame_number as int]@);
    let metadata = match Hdr10PlusMetadata::try_from(&scene_info[frame_number]) {
        Ok(m) => m,
        Err(e) => {
            return Err(FramePayloadError::Metadata(e));
        },
    };
    let opts = Hdr10PlusMetadataEncOpts { validate: true, with_country_code: true };
    match metadata.encode_with_opts(&opts) {
        Ok(bytes) => Ok(bytes),
        Err(e) => Err(FramePayloadError::Metadata(e)),
    }
}

/// An AV1 open bitstream unit: its type, its payload, and all of its bytes as read.
pub struct Obu {
    pub obu_type: u8,
    pub payload: Vec<u8>,
    pub raw_bytes: Vec<u8>,
}

/// An OBU as a mathematical value.
pub struct ObuView {
    pub obu_type: u8,
    pub payload: Seq<u8>,
    pub raw_bytes: Seq<u8>,
}

impl View for Obu {
    type V = ObuView;

    open spec fn view(&self) -> ObuView {
        ObuView { obu_type: self.obu_type, payload: self.payload@, raw_bytes: self.raw_bytes@ }
    }
}

/// Whether an OBU, as a value, is an `OBU_METADATA` unit carrying HDR10+ metadata.
pub open spec fn spec_is_hdr10plus_obu(o: ObuView, validate: bool) -> bool {
    o.obu_type == OBU_METADATA && spec_extract_t35(o.payload, validate) is Some
}

/// ITU-T T.35 country code of HDR10+ metadata.
pub const HDR10PLUS_COUNTRY_CODE: u8 = 0xB5;

/// ITU-T T.35 terminal provider code of HDR10+ metadata.
pub const HDR10PLUS_PROVIDER_CODE: u16 = 0x003C;

/// ITU-T T.35 terminal provider oriented code of HDR10+ metadata.
pub const HDR10PLUS_ORIENTED_CODE: u16 = 0x0001;

/// Application identifier of HDR10+ metadata.
pub const HDR10PLUS_APP_ID: u8 = 4;

/// A big-endian 16-bit value from two bytes.
pub open spec fn be16(hi: u8, lo: u8) -> int {
    hi * 256 + lo
}

/// Whether T.35 bytes start with the HDR10+ header: country code, provider code,
/// oriented code and application identifier, and an application version that is 1, or
/// at most 1 when not validating.
pub open spec fn t35_header_ok(t35: Seq<u8>, validate: bool) -> bool {
    &&& t35.len() >= 7
    &&& t35[0] == HDR10PLUS_COUNTRY_CODE
    &&& be16(t35[1], t35[2]) == HDR10PLUS_PROVIDER_CODE
    &&& be16(t35[3], t35[4]) == HDR10PLUS_ORIENTED_CODE
    &&& t35[5] == HDR10PLUS_APP_ID
    &&& if validate { t35[6] == 1 } else { t35[6] <= 1 }
}

/// The T.35 bytes of an `OBU_METADATA` payload that carries HDR10+ metadata: what follows
/// the metadata type when that type is ITU-T T.35 and the T.35 header is HDR10+'s.
pub open spec fn spec_extract_t35(payload: Seq<u8>, validate: bool) -> Option<Seq<u8>> {
    let n = leb128_len(payload);
    if payload.len() == 0 || leb128_value(payload, 0, n) != METADATA_TYPE_ITUT_T35 {
        None
    } else if t35_header_ok(payload.skip(n as int), validate) {
        Some(payload.skip(n as int))
    } else {
        None
    }
}

/// Returns the T.35 bytes, from the country code on, of an `OBU_METADATA` payload that
/// carries HDR10+ metadata; these are the bytes that `Hdr10PlusMetadata::parse` reads.
pub fn extract_hdr10plus_t35_bytes(obu_payload: &[u8], validate: bool) -> (r: Option<Vec<u8>>)
    ensures
        match spec_extract_t35(obu_payload@, validate) {
            Some(t) => r matches Some(v) && v@ == t,
            None => r is None,
        },
{
    if obu_payload.len() == 0 {
        return None;
    }
    let (metadata_type, mt_len) = decode_leb128(obu_payload);
    if metadata_type != METADATA_TYPE_ITUT_T35 {
        return None;
    }
    let mut t35: Vec<u8> = Vec::new();
    let mut i = mt_len;
    while i < obu_payload.len()
        invariant
            mt_len <= i <= obu_payload@.len(),
            t35@ == obu_payload@.subrange(mt_len as int, i as int),
        decreases obu_payload@.len() - i,
    {
        t35.push(obu_payload[i]);
        i = i + 1;
        assert(t35@ =~= obu_payload@.subrange(mt_len as int, i as int));
    }
    assert(t35@ =~= obu_payload@.skip(mt_len as int));
    if t35.len() < 7 {
        return None;
    }
    let country_code = t35[0];
    if country_code != HDR10PLUS_COUNTRY_CODE {
        return None;
    }
    let provider_code: u16 = (t35[1] as u16) * 256 + t35[2] as u16;
    let oriented_code: u16 = (t35[3] as u16) * 256 + t35[4] as u16;
    let app_id = t35[5];
    let app_version = t35[6];
    if provider_code != HDR10PLUS_PROVIDER_CODE || oriented_code != HDR10PLUS_ORIENTED_CODE
        || app_id != HDR10PLUS_APP_ID {
        return None;
    }
    let valid_version = if validate {
        app_version == 1
    } else {
        app_version <= 1
    };
    if !valid_version {
        return None;
    }
    Some(t35)
}

/// Whether an OBU is an `OBU_METADATA` unit carrying HDR10+ T.35 metadata.
pub fn is_hdr10plus_obu(obu: &Obu, validate: bool) -> (r: bool)
    ensures
        r == spec_is_hdr10plus_obu(obu@, validate),
{
    obu.obu_type == OBU_METADATA && extract_hdr10plus_t35_bytes(&obu.payload, validate).is_some()
}

/// The payload of a metadata OBU built around HDR10+ T.35 bytes gives those bytes back.
pub proof fn law_extract_after_frame(t35: Seq<u8>, validate: bool)
    requires
        t35_header_ok(t35, validate),
    ensures
        spec_extract_t35(obu_payload(t35), validate) == Some(t35),
{
    let p = obu_payload(t35);
    assert(leb128_bytes(4) == seq![4u8]);
    lemma_pow2_values();
    lemma_pow2_add(16, 8);
    lemma_pow2_add(32, 24);
    law_leb128_decode_after_encode(4, t35);
    assert(p.skip(1) =~= t35);
}

/// A metadata OBU starts with the header byte `0x2A`, then the size of its payload as
/// LEB128, then the payload; a reader that decodes the size finds the payload after it.
pub proof fn law_obu_layout(t35: Seq<u8>)
    requires
        obu_payload(t35).len() < pow2(56),
    ensures
        ({
            let o = obu_bytes(t35);
            let n = leb128_len(o.skip(1));
            &&& o[0] == 0x2A
            &&& leb128_value(o.skip(1), 0, n) == obu_payload(t35).len()
            &&& o.skip(1 + n as int) == obu_payload(t35)
        }),
{
    let o = obu_bytes(t35);
    let p = obu_payload(t35);
    let sz = leb128_bytes(p.len());
    assert(o.skip(1) =~= sz + p);
    law_leb128_decode_after_encode(p.len(), p);
    assert(o.skip(1 + sz.len() as int) =~= p);
}

} // verus!
