//! HEVC carriage of HDR10+ metadata: the SEI prefix NAL unit around a T.35 payload, and
//! the emulation prevention bytes of NAL units.
use vstd::prelude::*;

use hevc_parser::utils::{
    add_start_code_emulation_prevention_3_byte, clear_start_code_emulation_prevention_3_byte,
};

use crate::bits::{
    bits_of, bits_to_bytes, bits_value, bytes_to_bits, lemma_bits_of_len, lemma_bits_value_of,
    lemma_bytes_to_bits_len, lemma_pow2_values, new_writer, pow2, into_bytes, write_bits,
    write_flag, written_bits, padded, zero_bits, align_pad,
};
use crate::error::Hdr10PlusError;
use crate::json::{spec_from_json_frame, spec_json_frame_error, Hdr10PlusJsonMetadata, JsonFrameView};
use crate::metadata::{spec_encode, spec_encode_shaped, Hdr10PlusMetadata, Hdr10PlusMetadataEncOpts, MetadataView};

verus! {

/// NAL unit type of a prefix SEI.
pub const NAL_SEI_PREFIX: u8 = 39;

/// SEI payload type of ITU-T T.35 registered user data.
pub const USER_DATA_REGISTERED_ITU_T_35: u8 = 4;

/// The bytes of a NAL unit with an emulation prevention byte `3` inserted before every
/// byte `0..=3` that follows two zero bytes, once more than two bytes are out.
pub open spec fn with_emulation_prevention(data: Seq<u8>) -> Seq<u8>
    decreases data.len(),
{
    if data.len() == 0 {
        seq![]
    } else {
        let out = with_emulation_prevention(data.drop_last());
        let b = data.last();
        if out.len() > 2 && out[out.len() - 2] == 0 && out[out.len() - 1] == 0 && b <= 3 {
            out.push(3).push(b)
        } else {
            out.push(b)
        }
    }
}

/// The first `k` bytes of a NAL unit with its emulation prevention bytes removed: the
/// first two bytes stay, and after them every byte `3` that follows two zero bytes of the
/// input is dropped.
pub open spec fn without_emulation_prevention_upto(data: Seq<u8>, k: nat) -> Seq<u8>
    decreases k,
{
    if k <= 2 {
        data.take(k as int)
    } else {
        let prev = without_emulation_prevention_upto(data, (k - 1) as nat);
        let i = k - 1;
        if data[i - 2] == 0 && data[i - 1] == 0 && data[i] == 3 {
            prev
        } else {
            prev.push(data[i])
        }
    }
}

/// The bytes of a NAL unit with its emulation prevention bytes removed.
pub open spec fn without_emulation_prevention(data: Seq<u8>) -> Seq<u8> {
    without_emulation_prevention_upto(data, data.len())
}

/// Removing emulation prevention bytes never lengthens the data.
pub proof fn lemma_without_epb_not_longer(data: Seq<u8>, k: nat)
    requires
        k <= data.len(),
    ensures
        without_emulation_prevention_upto(data, k).len() <= k,
    decreases k,
{
    if k > 2 {
        lemma_without_epb_not_longer(data, (k - 1) as nat);
    }
}

/// Calls `hevc_parser::utils::add_start_code_emulation_prevention_3_byte`. Claimed, as
/// its source shows: scanning the bytes in order, a `3` is inserted before each byte that
/// is at most 3, stands past the third output byte and follows two zero output bytes.
#[verifier::external_body]
pub(crate) fn add_emulation_prevention(data: &mut Vec<u8>)
    ensures
        final(data)@ == with_emulation_prevention(old(data)@),
{
    add_start_code_emulation_prevention_3_byte(data)
}

/// Calls `hevc_parser::utils::clear_start_code_emulation_prevention_3_byte`. Claimed, as
/// its source shows: data of at most two bytes is copied; otherwise the first two bytes
/// are kept and every later byte `3` preceded by two zero input bytes is dropped.
#[verifier::external_body]
pub(crate) fn remove_emulation_prevention(data: &[u8]) -> (r: Vec<u8>)
    ensures
        r@ == without_emulation_prevention(data@),
{
    clear_start_code_emulation_prevention_3_byte(data)
}

/// The bytes of the SEI prefix NAL header before a T.35 payload of `len` bytes:
/// forbidden bit 0, NAL type 39, layer 0, temporal id 1, payload type 4, payload size.
pub open spec fn sei_header_bits(len: u8) -> Seq<bool> {
    seq![false] + bits_of(NAL_SEI_PREFIX as nat, 6) + bits_of(0, 6) + bits_of(1, 3) + bits_of(
        USER_DATA_REGISTERED_ITU_T_35 as nat,
        8,
    ) + bits_of(len as nat, 8)
}

/// The NAL unit around a T.35 payload: the header bytes `4E 01 04`, the payload size, the
/// payload and the stop byte `0x80`, with emulation prevention bytes added.
pub open spec fn nal_bytes(t35: Seq<u8>) -> Seq<u8> {
    with_emulation_prevention(seq![0x4Eu8, 0x01u8, 0x04u8, t35.len() as u8] + t35 + seq![0x80u8])
}

/// What encoding a metadata NAL unit returns: the encoding error, or `PayloadTooLarge`
/// past 255 payload bytes, or the NAL unit.
pub open spec fn spec_encode_nal(m: MetadataView, validate: bool) -> Result<Seq<u8>, Hdr10PlusError> {
    match spec_encode(m, validate, true) {
        Ok(t35) => if t35.len() <= 255 {
            Ok(nal_bytes(t35))
        } else {
            Err(Hdr10PlusError::PayloadTooLarge(t35.len() as usize))
        },
        Err(e) => Err(e),
    }
}

/// The bits of a byte sequence packed back give the bytes.
pub proof fn lemma_bytes_bits_roundtrip(data: Seq<u8>)
    ensures
        bits_to_bytes(bytes_to_bits(data)) == data,
    decreases data.len(),
{
    if data.len() > 0 {
        let rest = data.drop_first();
        lemma_bytes_bits_roundtrip(rest);
        let b = bytes_to_bits(data);
        lemma_bits_of_len(data[0] as nat, 8);
        lemma_bytes_to_bits_len(rest);
        lemma_pow2_values();
        lemma_bits_value_of(data[0] as nat, 8);
        assert(b.take(8) =~= bits_of(data[0] as nat, 8));
        assert(b.skip(8) =~= bytes_to_bits(rest));
        assert(bits_to_bytes(b) =~= seq![data[0]] + bits_to_bytes(bytes_to_bits(rest)));
        assert(data =~= seq![data[0]] + rest);
    }
}

/// The SEI header bits pack into the header bytes.
proof fn lemma_sei_header_bytes(len: u8)
    ensures
        bits_to_bytes(sei_header_bits(len)) == seq![0x4Eu8, 0x01u8, 0x04u8, len],
{
    let fixed = seq![false] + bits_of(39, 6) + bits_of(0, 6) + bits_of(1, 3) + bits_of(4, 8);
    assert(fixed =~= bits_of(0x4E, 8) + bits_of(0x01, 8) + bits_of(0x04, 8)) by {
        reveal_with_fuel(bits_of, 9);
        let f = false;
        let t = true;
        assert(bits_of(39, 6) =~= seq![t, f, f, t, t, t]);
        assert(bits_of(0, 6) =~= seq![f, f, f, f, f, f]);
        assert(bits_of(1, 3) =~= seq![f, f, t]);
        assert(bits_of(4, 8) =~= seq![f, f, f, f, f, t, f, f]);
        assert(bits_of(0x4E, 8) =~= seq![f, t, f, f, t, t, t, f]);
        assert(bits_of(0x01, 8) =~= seq![f, f, f, f, f, f, f, t]);
    }
    let bytes = seq![0x4Eu8, 0x01u8, 0x04u8, len];
    assert(bytes_to_bits(bytes) =~= bits_of(0x4E, 8) + bits_of(0x01, 8) + bits_of(0x04, 8) + bits_of(len as nat, 8)) by {
        reveal_with_fuel(bytes_to_bits, 5);
        assert(bytes.drop_first() =~= seq![0x01u8, 0x04u8, len]);
        assert(bytes.drop_first().drop_first() =~= seq![0x04u8, len]);
        assert(bytes.drop_first().drop_first().drop_first() =~= seq![len]);
        assert(bytes.drop_first().drop_first().drop_first().drop_first() =~= Seq::<u8>::empty());
    }
    assert(sei_header_bits(len) =~= bytes_to_bits(bytes));
    lemma_bytes_bits_roundtrip(bytes);
}

/// The SEI header bits fill whole bytes, so padding adds nothing.
pub proof fn lemma_sei_header_padded(len: u8)
    ensures
        bits_to_bytes(padded(sei_header_bits(len))) == seq![0x4Eu8, 0x01u8, 0x04u8, len],
{
    lemma_bits_of_len(39, 6);
    lemma_bits_of_len(0, 6);
    lemma_bits_of_len(1, 3);
    lemma_bits_of_len(4, 8);
    lemma_bits_of_len(len as nat, 8);
    assert(sei_header_bits(len).len() == 32);
    assert(zero_bits(align_pad(32)).len() == 0);
    assert(padded(sei_header_bits(len)) =~= sei_header_bits(len));
    lemma_sei_header_bytes(len);
}

/// Encodes HDR10+ metadata as an HEVC SEI prefix NAL unit, without start code.
pub fn encode_hdr10plus_nal(metadata: &Hdr10PlusMetadata, validate: bool) -> (r: Result<Vec<u8>, Hdr10PlusError>)
    requires
        spec_encode_shaped(metadata@),
    ensures
        match spec_encode_nal(metadata@, validate) {
            Ok(bytes) => r matches Ok(v) && v@ == bytes,
            Err(e) => r == Err::<Vec<u8>, Hdr10PlusError>(e),
        },
{
    let opts = Hdr10PlusMetadataEncOpts { validate, with_country_code: true };
    let mut header_writer = new_writer(64);
    proof {
        lemma_pow2_values();
    }
    let _ = write_flag(&mut header_writer, false);
    let _ = write_bits(&mut header_writer, 6, NAL_SEI_PREFIX as u64);
    let _ = write_bits(&mut header_writer, 6, 0);
    let _ = write_bits(&mut header_writer, 3, 1);
    let _ = write_bits(&mut header_writer, 8, USER_DATA_REGISTERED_ITU_T_35 as u64);
    let mut payload = metadata.encode_with_opts(&opts)?;
    if payload.len() > 255 {
        return Err(Hdr10PlusError::PayloadTooLarge(payload.len()));
    }
    let len = payload.len() as u8;
    let _ = write_bits(&mut header_writer, 8, len as u64);
    let ghost t35 = payload@;
    payload.push(0x80);
    let mut data = into_bytes(header_writer);
    proof {
        assert(written_bits(header_writer) =~= sei_header_bits(len));
        lemma_sei_header_bytes(len);
    }
    data.append(&mut payload);
    assert(data@ =~= seq![0x4Eu8, 0x01u8, 0x04u8, t35.len() as u8] + t35 + seq![0x80u8]);
    add_emulation_prevention(&mut data);
    Ok(data)
}

/// What encoding a JSON frame as a metadata NAL unit returns.
pub open spec fn spec_encode_hevc_json(jm: JsonFrameView, validate: bool) -> Result<Seq<u8>, Hdr10PlusError> {
    match spec_json_frame_error(jm) {
        Some(e) => Err(e),
        None => spec_encode_nal(spec_from_json_frame(jm), validate),
    }
}

/// Builds the metadata of a JSON frame and encodes it as an HEVC SEI prefix NAL unit.
pub fn encode_hevc_from_json(metadata: &Hdr10PlusJsonMetadata, validate: bool) -> (r: Result<Vec<u8>, Hdr10PlusError>)
    ensures
        match spec_encode_hevc_json(metadata@, validate) {
            Ok(bytes) => r matches Ok(v) && v@ == bytes,
            Err(e) => r == Err::<Vec<u8>, Hdr10PlusError>(e),
        },
{
    let meta = Hdr10PlusMetadata::try_from(metadata)?;
    encode_hdr10plus_nal(&meta, validate)
}


/// Short data gets no emulation prevention byte.
proof fn lemma_with_epb_short(data: Seq<u8>)
    requires
        data.len() <= 3,
    ensures
        with_emulation_prevention(data) == data,
    decreases data.len(),
{
    if data.len() > 0 {
        lemma_with_epb_short(data.drop_last());
        assert(data.drop_last().push(data.last()) =~= data);
    }
}

/// Adding emulation prevention bytes never shortens the data.
proof fn lemma_with_epb_len(data: Seq<u8>)
    ensures
        with_emulation_prevention(data).len() >= data.len(),
    decreases data.len(),
{
    if data.len() > 0 {
        lemma_with_epb_len(data.drop_last());
    }
}

/// Removing emulation prevention bytes from the first `k` bytes reads only those bytes.
proof fn lemma_without_epb_prefix(a: Seq<u8>, b: Seq<u8>, k: nat)
    requires
        k <= a.len(),
        k <= b.len(),
        forall|i: int| 0 <= i < k ==> a[i] == b[i],
    ensures
        without_emulation_prevention_upto(a, k) == without_emulation_prevention_upto(b, k),
    decreases k,
{
    if k <= 2 {
        assert(a.take(k as int) =~= b.take(k as int));
    } else {
        lemma_without_epb_prefix(a, b, (k - 1) as nat);
    }
}

/// Removing the emulation prevention bytes that were added gives the data back, for all
/// data that does not open with the bytes `00 00 03`: the third byte is never escaped,
/// yet a `3` there after two zero bytes is dropped when reading.
pub proof fn law_emulation_prevention_roundtrip(data: Seq<u8>)
    requires
        !(data.len() >= 3 && data[0] == 0 && data[1] == 0 && data[2] == 3),
    ensures
        without_emulation_prevention(with_emulation_prevention(data)) == data,
    decreases data.len(),
{
    if data.len() <= 3 {
        lemma_with_epb_short(data);
        if data.len() == 3 {
            assert(without_emulation_prevention_upto(data, 2) =~= data.take(2));
            assert(data =~= data.take(2).push(data[2]));
        } else {
            assert(data.take(data.len() as int) =~= data);
        }
    } else {
        let d = data.drop_last();
        let b = data.last();
        law_emulation_prevention_roundtrip(d);
        lemma_with_epb_len(d);
        let out = with_emulation_prevention(d);
        let n = out.len();
        assert(n >= 3);
        if out[n - 2] == 0 && out[n - 1] == 0 && b <= 3 {
            let e = out.push(3).push(b);
            assert(with_emulation_prevention(data) == e) by {
                assert(data.drop_last() =~= d);
            }
            lemma_without_epb_prefix(out, e, n);
            assert(without_emulation_prevention_upto(e, n + 1) == without_emulation_prevention_upto(e, n));
            assert(without_emulation_prevention_upto(e, n + 2) =~= d.push(b));
        } else {
            let e = out.push(b);
            assert(with_emulation_prevention(data) == e) by {
                assert(data.drop_last() =~= d);
            }
            lemma_without_epb_prefix(out, e, n);
            assert(without_emulation_prevention_upto(e, n + 1) =~= d.push(b));
        }
        assert(d.push(b) =~= data);
    }
}

/// The bytes a metadata NAL unit is written from.
pub open spec fn nal_payload(t35: Seq<u8>) -> Seq<u8> {
    seq![0x4Eu8, 0x01u8, 0x04u8, t35.len() as u8] + t35 + seq![0x80u8]
}

/// Removing the emulation prevention bytes of an encoded NAL unit gives back the SEI
/// header `4E 01 04`, the payload size, the T.35 payload and the stop byte `0x80`.
pub proof fn law_nal_unescapes_to_payload(t35: Seq<u8>)
    ensures
        without_emulation_prevention(nal_bytes(t35)) == nal_payload(t35),
{
    let p = nal_payload(t35);
    assert(p[0] == 0x4E);
    assert(nal_bytes(t35) == with_emulation_prevention(p));
    law_emulation_prevention_roundtrip(p);
}

} // verus!
