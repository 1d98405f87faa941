//! Decisions of metadata extraction: the per-frame SEI list, its gaps and its order, and
//! the metadata parsed from it; and the collection of T.35 payloads from AV1 OBUs.
use vstd::prelude::*;

use crate::av1::{extract_hdr10plus_t35_bytes, spec_extract_t35, Obu, ObuView, OBU_METADATA, OBU_TEMPORAL_DELIMITER};
use crate::bits::BitstreamError;
use crate::error::Hdr10PlusError;
use crate::hevc::{remove_emulation_prevention, without_emulation_prevention};
use crate::metadata::{spec_parse, spec_validation_error, Hdr10PlusMetadata, MetadataView};
use crate::sei::SeiError;

verus! {

/// The outcomes of parsing that end extraction early.
#[derive(Debug, Clone, Copy, PartialEq, Eq)]
pub enum ParserError {
    /// The input holds no HDR10+ metadata.
    NoMetadataFound,
    /// Metadata was found, and only its presence was asked for.
    MetadataDetected,
}

impl ParserError {
    /// The message of the outcome.
    pub fn message(&self) -> (r: &'static str)
        ensures
            r@ == (match self {
                ParserError::NoMetadataFound => "File doesn't contain dynamic metadata"@,
                ParserError::MetadataDetected => "Dynamic HDR10+ metadata detected."@,
            }),
    {
        match self {
            ParserError::NoMetadataFound => "File doesn't contain dynamic metadata",
            ParserError::MetadataDetected => "Dynamic HDR10+ metadata detected.",
        }
    }
}

/// The options that apply to every command.
#[derive(Debug, Clone, Copy)]
pub struct CliOptions {
    /// Only check whether the input holds dynamic metadata.
    pub verify: bool,
    /// Check the metadata's conformance.
    pub validate: bool,
}

impl Default for CliOptions {
    fn default() -> (r: Self)
        ensures
            !r.verify && !r.validate,
    {
        CliOptions { verify: false, validate: false }
    }
}

impl CliOptions {
    /// The options of an HEVC extraction: without an output file, it only checks whether
    /// the input holds dynamic metadata.
    pub fn for_extraction(self, has_output: bool) -> (r: Self)
        ensures
            r.verify == (self.verify || !has_output),
            r.validate == self.validate,
    {
        CliOptions { verify: self.verify || !has_output, validate: self.validate }
    }
}

/// The options of a parse.
#[derive(Debug, Clone, Copy)]
pub struct ParserOptions {
    /// The number of frames to process, when limited.
    pub limit: Option<u64>,
}

impl Default for ParserOptions {
    fn default() -> (r: Self)
        ensures
            r.limit is None,
    {
        ParserOptions { limit: None }
    }
}

/// The HDR10+ SEI payload found for a decoded frame, if any.
#[derive(Debug)]
pub struct MetadataFrame {
    pub decoded_index: u64,
    pub presentation_number: usize,
    pub metadata: Option<Vec<u8>>,
}

/// A metadata frame as a mathematical value.
pub struct MetadataFrameView {
    pub decoded_index: u64,
    pub presentation_number: usize,
    pub metadata: Option<Seq<u8>>,
}

impl View for MetadataFrame {
    type V = MetadataFrameView;

    open spec fn view(&self) -> MetadataFrameView {
        MetadataFrameView {
            decoded_index: self.decoded_index,
            presentation_number: self.presentation_number,
            metadata: match self.metadata {
                Some(v) => Some(v@),
                None => None,
            },
        }
    }
}

/// The views of a list of metadata frames.
pub open spec fn frame_views(list: Seq<MetadataFrame>) -> Seq<MetadataFrameView> {
    list.map_values(|f: MetadataFrame| f@)
}

/// The decode and presentation positions of a frame of the video.
#[derive(Debug, Clone, Copy, PartialEq, Eq)]
pub struct FrameOrder {
    pub decoded_number: u64,
    pub presentation_number: u64,
}

/// The metadata of the last of the first `k` entries that has some.
pub open spec fn filled_metadata(list: Seq<MetadataFrameView>, k: nat) -> Option<Seq<u8>>
    decreases k,
{
    if k == 0 {
        None
    } else if list[k - 1].metadata is Some {
        list[k - 1].metadata
    } else {
        filled_metadata(list, (k - 1) as nat)
    }
}

/// The list with its gaps filled: each entry keeps its metadata, or else takes that of
/// the nearest earlier entry that has some.
pub open spec fn spec_fill_gaps(list: Seq<MetadataFrameView>) -> Seq<MetadataFrameView> {
    Seq::new(list.len(), |i: int| MetadataFrameView { metadata: filled_metadata(list, (i + 1) as nat), ..list[i] })
}

fn copy_bytes(v: &Vec<u8>) -> (r: Vec<u8>)
    ensures
        r@ == v@,
{
    crate::json::copy_u8s(v.as_slice())
}

/// Fills the frames without metadata with the metadata of the nearest earlier frame that
/// has some, as FFmpeg does; frames before the first metadata stay without.
pub fn fill_metadata_gaps(list: &mut Vec<MetadataFrame>)
    ensures
        frame_views(final(list)@) == spec_fill_gaps(frame_views(old(list)@)),
{
    let ghost orig = frame_views(list@);
    let mut last: Option<Vec<u8>> = None;
    let mut i: usize = 0;
    while i < list.len()
        invariant
            i <= list@.len(),
            list@.len() == orig.len(),
            forall|j: int| 0 <= j < i ==> (#[trigger] frame_views(list@)[j]) == spec_fill_gaps(orig)[j],
            forall|j: int| i <= j < list@.len() ==> (#[trigger] frame_views(list@)[j]) == orig[j],
            match last {
                Some(v) => filled_metadata(orig, i as nat) == Some(v@),
                None => filled_metadata(orig, i as nat) is None,
            },
        decreases list@.len() - i,
    {
        let ghost before = list@;
        assert(frame_views(list@) =~= frame_views(list@));
        assert(frame_views(before)[i as int] == orig[i as int]);
        let has = list[i].metadata.is_some();
        if has {
            let copy = match &list[i].metadata {
                Some(v) => Some(copy_bytes(v)),
                None => None,
            };
            last = copy;
            proof {
                assert(list@ == before);
                assert(spec_fill_gaps(orig)[i as int] == orig[i as int]);
            }
        } else {
            match &last {
                Some(v) => {
                    let filled = copy_bytes(v);
                    let mut entry = list.remove(i);
                    entry.metadata = Some(filled);
                    list.insert(i, entry);
                    proof {
                        assert(list@ =~= before.update(i as int, entry));
                        assert(spec_fill_gaps(orig)[i as int] == entry@);
                    }
                },
                None => {
                    proof {
                        assert(list@ == before);
                        assert(spec_fill_gaps(orig)[i as int] == orig[i as int]);
                    }
                },
            }
        }
        proof {
            assert forall|j: int| 0 <= j <= i implies (#[trigger] frame_views(list@)[j]) == spec_fill_gaps(orig)[j] by {
                if j < i {
                    assert(list@[j] == before[j]);
                    assert(frame_views(before)[j] == spec_fill_gaps(orig)[j]);
                }
            }
            assert forall|j: int| i < j < list@.len() implies (#[trigger] frame_views(list@)[j]) == orig[j] by {
                assert(list@[j] == before[j]);
                assert(frame_views(before)[j] == orig[j]);
            }
        }
        i = i + 1;
    }
    assert(frame_views(list@) =~= spec_fill_gaps(orig));
}

/// The index of the first frame decoded as number `d`, if any.
pub open spec fn frame_index_of(frames: Seq<FrameOrder>, d: u64) -> Option<nat>
    decreases frames.len(),
{
    if frames.len() == 0 {
        None
    } else {
        match frame_index_of(frames.drop_last(), d) {
            Some(i) => Some(i),
            None => if frames.last().decoded_number == d {
                Some((frames.len() - 1) as nat)
            } else {
                None
            },
        }
    }
}

/// The presentation number of the first frame decoded as number `d`.
pub open spec fn presentation_of(frames: Seq<FrameOrder>, d: u64) -> u64 {
    frames[frame_index_of(frames, d).unwrap() as int].presentation_number
}

/// Every entry's decoded index is the decoded number of some frame.
pub open spec fn all_frames_found(list: Seq<MetadataFrameView>, frames: Seq<FrameOrder>) -> bool {
    forall|i: int| 0 <= i < list.len() ==> frame_index_of(frames, (#[trigger] list[i]).decoded_index) is Some
}

/// How many of the keyed entries have a key of at most `k`.
pub open spec fn count_le<V>(s: Seq<(u64, V)>, k: u64) -> nat
    decreases s.len(),
{
    if s.len() == 0 {
        0
    } else {
        count_le(s.drop_last(), k) + (if s.last().0 <= k { 1nat } else { 0nat })
    }
}

/// The keyed entries sorted by key, entries with equal keys kept in their order: each
/// entry in turn goes after every earlier entry whose key is at most its own.
pub open spec fn stable_sort<V>(s: Seq<(u64, V)>) -> Seq<(u64, V)>
    decreases s.len(),
{
    if s.len() == 0 {
        s
    } else {
        let p = stable_sort(s.drop_last());
        p.insert(count_le(p, s.last().0) as int, s.last())
    }
}

/// The entries keyed by their frame's presentation number.
pub open spec fn keyed_by_presentation(list: Seq<MetadataFrameView>, frames: Seq<FrameOrder>) -> Seq<(u64, MetadataFrameView)> {
    Seq::new(list.len(), |i: int| (presentation_of(frames, list[i].decoded_index), list[i]))
}

/// The entries in presentation order, numbered by their new position.
pub open spec fn spec_reorder(list: Seq<MetadataFrameView>, frames: Seq<FrameOrder>) -> Seq<MetadataFrameView> {
    let sorted = stable_sort(keyed_by_presentation(list, frames));
    Seq::new(sorted.len(), |i: int| MetadataFrameView { presentation_number: i as usize, ..sorted[i].1 })
}

pub proof fn lemma_stable_sort_len<V>(s: Seq<(u64, V)>)
    ensures
        stable_sort(s).len() == s.len(),
    decreases s.len(),
{
    if s.len() > 0 {
        lemma_stable_sort_len(s.drop_last());
        lemma_count_le_bound(stable_sort(s.drop_last()), s.last().0);
    }
}

pub proof fn lemma_count_le_bound<V>(s: Seq<(u64, V)>, k: u64)
    ensures
        count_le(s, k) <= s.len(),
    decreases s.len(),
{
    if s.len() > 0 {
        lemma_count_le_bound(s.drop_last(), k);
    }
}

/// The presentation number of the frame decoded as `d`.
fn find_presentation(frames: &[FrameOrder], d: u64) -> (r: u64)
    requires
        frame_index_of(frames@, d) is Some,
    ensures
        r == presentation_of(frames@, d),
{
    let mut i: usize = 0;
    while i < frames.len()
        invariant
            i <= frames@.len(),
            frame_index_of(frames@, d) is Some,
            forall|j: int| 0 <= j < i ==> (#[trigger] frames@[j]).decoded_number != d,
        decreases frames@.len() - i,
    {
        if frames[i].decoded_number == d {
            proof {
                lemma_frame_index_prefix(frames@, i as int, d);
                lemma_frame_index_found(frames@, i as int, frames@.len() as int, d);
                assert(frames@.take(frames@.len() as int) =~= frames@);
            }
            return frames[i].presentation_number;
        }
        i = i + 1;
    }
    proof {
        lemma_frame_index_prefix(frames@, frames@.len() as int, d);
        assert(frames@.take(frames@.len() as int) =~= frames@);
    }
    0
}

pub(crate) proof fn lemma_frame_index_prefix(frames: Seq<FrameOrder>, i: int, d: u64)
    requires
        0 <= i <= frames.len(),
        forall|j: int| 0 <= j < i ==> (#[trigger] frames[j]).decoded_number != d,
    ensures
        frame_index_of(frames.take(i), d) is None,
    decreases i,
{
    if i > 0 {
        lemma_frame_index_prefix(frames, i - 1, d);
        assert(frames.take(i).drop_last() =~= frames.take(i - 1));
    }
}

pub(crate) proof fn lemma_frame_index_found(frames: Seq<FrameOrder>, i: int, k: int, d: u64)
    requires
        0 <= i < k <= frames.len(),
        frames[i].decoded_number == d,
        frame_index_of(frames.take(i), d) is None,
    ensures
        frame_index_of(frames.take(k), d) == Some(i as nat),
    decreases k,
{
    if k == i + 1 {
        assert(frames.take(k).drop_last() =~= frames.take(i));
    } else {
        lemma_frame_index_found(frames, i, k - 1, d);
        assert(frames.take(k).drop_last() =~= frames.take(k - 1));
    }
}

/// The number of keys of at most `k`.
pub(crate) fn count_keys_le(keys: &Vec<u64>, k: u64) -> (r: usize)
    ensures
        r as nat == count_le(keyed_seq(keys@), k),
        r <= keys@.len(),
{
    let mut c: usize = 0;
    let mut i: usize = 0;
    while i < keys.len()
        invariant
            i <= keys@.len(),
            c <= i,
            c as nat == count_le(keyed_seq(keys@.take(i as int)), k),
        decreases keys@.len() - i,
    {
        proof {
            assert(keyed_seq(keys@.take(i + 1)).drop_last() =~= keyed_seq(keys@.take(i as int)));
        }
        if keys[i] <= k {
            c = c + 1;
        }
        i = i + 1;
    }
    assert(keys@.take(i as int) =~= keys@);
    c
}

/// Keys paired with a placeholder, for counting.
pub open spec fn keyed_seq(keys: Seq<u64>) -> Seq<(u64, ())> {
    keys.map_values(|k: u64| (k, ()))
}

pub(crate) proof fn lemma_count_le_keys<V>(s: Seq<(u64, V)>, k: u64)
    ensures
        count_le(s, k) == count_le(keyed_seq(s.map_values(|e: (u64, V)| e.0)), k),
    decreases s.len(),
{
    if s.len() > 0 {
        lemma_count_le_keys(s.drop_last(), k);
        assert(keyed_seq(s.map_values(|e: (u64, V)| e.0)).drop_last() =~= keyed_seq(
            s.drop_last().map_values(|e: (u64, V)| e.0),
        ));
    }
}

/// Sorts the entries into presentation order, keeping the decode order of entries shown
/// at the same position, and numbers them by their new position.
pub fn reorder_metadata(list: &mut Vec<MetadataFrame>, frames: &[FrameOrder])
    requires
        all_frames_found(frame_views(old(list)@), frames@),
    ensures
        frame_views(final(list)@) == spec_reorder(frame_views(old(list)@), frames@),
{
    let ghost orig = frame_views(list@);
    let ghost keyed = keyed_by_presentation(orig, frames@);
    let mut items: Vec<MetadataFrame> = Vec::new();
    std::mem::swap(list, &mut items);
    let n = items.len();
    let mut keys: Vec<u64> = Vec::new();
    let mut sorted: Vec<MetadataFrame> = Vec::new();
    let mut i: usize = 0;
    while i < n
        invariant
            n == orig.len(),
            keyed == keyed_by_presentation(orig, frames@),
            all_frames_found(orig, frames@),
            i <= n,
            items@.len() == n - i,
            forall|j: int| 0 <= j < n - i ==> (#[trigger] items@[j])@ == orig[j + i],
            keys@.len() == sorted@.len(),
            ({
                let p = stable_sort(keyed.take(i as int));
                &&& p.len() == sorted@.len()
                &&& forall|j: int| 0 <= j < p.len() ==> keys@[j] == p[j].0 && (#[trigger] sorted@[j])@ == p[j].1
            }),
        decreases n - i,
    {
        let ghost before_items = items@;
        let item = items.remove(0);
        assert(item@ == orig[i as int]);
        let k = find_presentation(frames, item.decoded_index);
        let pos = count_keys_le(&keys, k);
        let ghost before_keys = keys@;
        let ghost before_sorted = sorted@;
        keys.insert(pos, k);
        sorted.insert(pos, item);
        proof {
            let p0 = stable_sort(keyed.take(i as int));
            let t = keyed.take(i + 1);
            assert(t.drop_last() =~= keyed.take(i as int));
            assert(t.last() == (k, orig[i as int]));
            lemma_count_le_keys(p0, k);
            assert forall|j: int| 0 <= j < p0.len() implies before_keys[j] == p0[j].0 by {
                assert(before_sorted[j]@ == p0[j].1);
            }
            assert(p0.map_values(|e: (u64, MetadataFrameView)| e.0) =~= before_keys);
            let p1 = stable_sort(t);
            assert(p1 == p0.insert(pos as int, (k, orig[i as int])));
            assert forall|j: int| 0 <= j < p1.len() implies keys@[j] == p1[j].0 && (#[trigger] sorted@[j])@ == p1[j].1 by {
                if j < pos {
                    assert(sorted@[j] == before_sorted[j]);
                } else if j > pos {
                    assert(sorted@[j] == before_sorted[j - 1]);
                }
            }
            assert forall|j: int| 0 <= j < n - i - 1 implies (#[trigger] items@[j])@ == orig[j + i + 1] by {
                assert(items@[j] == before_items[j + 1]);
            }
        }
        i = i + 1;
    }
    let mut idx: usize = 0;
    let ghost sorted_spec = stable_sort(keyed);
    assert(keyed.take(n as int) =~= keyed);
    while idx < sorted.len()
        invariant
            sorted_spec == stable_sort(keyed),
            sorted_spec.len() == sorted@.len(),
            idx <= sorted@.len(),
            forall|j: int| 0 <= j < idx ==> (#[trigger] sorted@[j])@ == (MetadataFrameView { presentation_number: j as usize, ..sorted_spec[j].1 }),
            forall|j: int| idx <= j < sorted@.len() ==> (#[trigger] sorted@[j])@ == sorted_spec[j].1,
        decreases sorted@.len() - idx,
    {
        let ghost before = sorted@;
        let mut entry = sorted.remove(idx);
        entry.presentation_number = idx;
        sorted.insert(idx, entry);
        proof {
            assert(sorted@ =~= before.update(idx as int, entry));
        }
        idx = idx + 1;
    }
    *list = sorted;
    proof {
        lemma_stable_sort_len(keyed);
        assert(frame_views(list@) =~= spec_reorder(orig, frames@));
    }
}

/// Why extraction stops.
#[derive(Debug, Clone, PartialEq, Eq)]
pub enum ExtractError {
    /// An outcome of parsing: no metadata, or metadata detected when only checking.
    Parser(ParserError),
    /// A payload could not be parsed, or broke a rule when validating.
    Metadata(Hdr10PlusError),
    /// The SEI list and the frames of the video differ in length.
    FrameCountMismatch,
    /// No metadata was parsed.
    NoParsedMetadata,
    /// The messages of an SEI NAL unit could not be read.
    Sei(SeiError),
}

/// The metadata of one payload: parsed, then checked when validating.
#[verifier::opaque]
pub open spec fn spec_parse_checked(data: Seq<u8>, validate: bool) -> Result<MetadataView, Hdr10PlusError> {
    match spec_parse(data) {
        None => Err(Hdr10PlusError::Bitstream(BitstreamError::UnexpectedEnd)),
        Some(m) => if validate && spec_validation_error(m) is Some {
            Err(spec_validation_error(m).unwrap())
        } else {
            Ok(m)
        },
    }
}

/// The metadata of a list of payloads, or the error of the first one that fails.
pub open spec fn spec_parse_all(list: Seq<Seq<u8>>, validate: bool) -> Result<Seq<MetadataView>, Hdr10PlusError>
    decreases list.len(),
{
    if list.len() == 0 {
        Ok(seq![])
    } else {
        match spec_parse_all(list.drop_last(), validate) {
            Err(e) => Err(e),
            Ok(ms) => match spec_parse_checked(list.last(), validate) {
                Err(e) => Err(e),
                Ok(m) => Ok(ms.push(m)),
            },
        }
    }
}

/// The views of a list of byte vectors.
pub open spec fn byte_views(list: Seq<Vec<u8>>) -> Seq<Seq<u8>> {
    Seq::new(list.len(), |i: int| list[i]@)
}

/// The views of a list of byte vectors with their emulation prevention bytes removed.
pub open spec fn unescaped_views(list: Seq<Vec<u8>>) -> Seq<Seq<u8>> {
    Seq::new(list.len(), |i: int| without_emulation_prevention(list[i]@))
}

/// The views of a list of metadata.
pub open spec fn metadata_list_views(list: Seq<Hdr10PlusMetadata>) -> Seq<MetadataView> {
    list.map_values(|m: Hdr10PlusMetadata| m@)
}

/// Parses one payload, and checks it when validating.
fn parse_checked(data: &[u8], validate: bool) -> (r: Result<Hdr10PlusMetadata, Hdr10PlusError>)
    ensures
        match spec_parse_checked(data@, validate) {
            Ok(m) => r matches Ok(v) && v@ == m,
            Err(e) => r == Err::<Hdr10PlusMetadata, Hdr10PlusError>(e),
        },
{
    reveal(spec_parse_checked);
    let metadata = Hdr10PlusMetadata::parse(data)?;
    if validate {
        metadata.validate()?;
    }
    Ok(metadata)
}

/// The payloads as bytes, without their emulation prevention bytes when `unescape`.
pub open spec fn payload_views(payloads: Seq<Vec<u8>>, unescape: bool) -> Seq<Seq<u8>> {
    if unescape {
        unescaped_views(payloads)
    } else {
        byte_views(payloads)
    }
}

/// Parses each payload in order, with its emulation prevention bytes removed first when
/// `unescape` is set, and checks it when validating. Fails with the first failure.
fn parse_payloads(payloads: &[Vec<u8>], unescape: bool, validate: bool) -> (r: Result<Vec<Hdr10PlusMetadata>, Hdr10PlusError>)
    ensures
        match spec_parse_all(payload_views(payloads@, unescape), validate) {
            Ok(ms) => r matches Ok(v) && metadata_list_views(v@) == ms,
            Err(e) => r == Err::<Vec<Hdr10PlusMetadata>, Hdr10PlusError>(e),
        },
{
    let ghost datas = payload_views(payloads@, unescape);
    let mut complete: Vec<Hdr10PlusMetadata> = Vec::new();
    let mut i: usize = 0;
    proof {
        assert(datas.take(0) =~= Seq::<Seq<u8>>::empty());
        assert(metadata_list_views(complete@) =~= Seq::<MetadataView>::empty());
    }
    while i < payloads.len()
        invariant
            datas == payload_views(payloads@, unescape),
            datas.len() == payloads@.len(),
            forall|j: int| 0 <= j < datas.len() ==> #[trigger] datas[j] == (if unescape {
                without_emulation_prevention(payloads@[j]@)
            } else {
                payloads@[j]@
            }),
            i <= payloads@.len(),
            complete@.len() == i,
            spec_parse_all(datas.take(i as int), validate) == Ok::<Seq<MetadataView>, Hdr10PlusError>(
                metadata_list_views(complete@),
            ),
        decreases payloads@.len() - i,
    {
        proof {
            assert(datas.take(i + 1).drop_last() =~= datas.take(i as int));
            assert(datas.take(i + 1).last() == datas[i as int]);
        }
        let r = if unescape {
            let bytes = remove_emulation_prevention(&payloads[i]);
            assert(bytes@ == datas[i as int]);
            parse_checked(&bytes, validate)
        } else {
            assert(payloads@[i as int]@ == datas[i as int]);
            parse_checked(&payloads[i], validate)
        };
        assert(match spec_parse_checked(datas[i as int], validate) {
            Ok(m) => r matches Ok(v) && v@ == m,
            Err(e) => r == Err::<Hdr10PlusMetadata, Hdr10PlusError>(e),
        });
        match r {
            Ok(m) => {
                let ghost before = complete@;
                complete.push(m);
                proof {
                    assert(metadata_list_views(complete@) =~= metadata_list_views(before).push(m@));
                }
            },
            Err(e) => {
                proof {
                    assert(spec_parse_all(datas.take(i + 1), validate) == Err::<Seq<MetadataView>, Hdr10PlusError>(e));
                    lemma_parse_all_err(datas, (i + 1) as nat, validate);
                    assert(spec_parse_all(datas, validate) == Err::<Seq<MetadataView>, Hdr10PlusError>(e));
                }
                return Err(e);
            },
        }
        i = i + 1;
    }
    proof {
        assert(datas.take(i as int) =~= datas);
    }
    Ok(complete)
}

/// A failure among the first `k` payloads is the failure of the whole list.
proof fn lemma_parse_all_err(datas: Seq<Seq<u8>>, k: nat, validate: bool)
    requires
        k <= datas.len(),
        spec_parse_all(datas.take(k as int), validate) is Err,
    ensures
        spec_parse_all(datas, validate) == spec_parse_all(datas.take(k as int), validate),
    decreases datas.len() - k,
{
    if k < datas.len() {
        let t = datas.take((k + 1) as int);
        assert(t.drop_last() =~= datas.take(k as int));
        lemma_parse_all_err(datas, k + 1, validate);
    } else {
        assert(datas.take(k as int) =~= datas);
    }
}

/// Parses the SEI payloads of the frames, in order: their emulation prevention bytes are
/// removed, and the metadata is checked when validating.
pub fn parse_metadata_list(sei_list: &[Vec<u8>], validate: bool) -> (r: Result<Vec<Hdr10PlusMetadata>, Hdr10PlusError>)
    ensures
        match spec_parse_all(unescaped_views(sei_list@), validate) {
            Ok(ms) => r matches Ok(v) && metadata_list_views(v@) == ms,
            Err(e) => r == Err::<Vec<Hdr10PlusMetadata>, Hdr10PlusError>(e),
        },
{
    parse_payloads(sei_list, true, validate)
}

/// Parses T.35 payloads taken from AV1 OBUs, in order, checking them when validating.
pub fn parse_t35_list(t35_frames: &[Vec<u8>], validate: bool) -> (r: Result<Vec<Hdr10PlusMetadata>, Hdr10PlusError>)
    ensures
        match spec_parse_all(byte_views(t35_frames@), validate) {
            Ok(ms) => r matches Ok(v) && metadata_list_views(v@) == ms,
            Err(e) => r == Err::<Vec<Hdr10PlusMetadata>, Hdr10PlusError>(e),
        },
{
    parse_payloads(t35_frames, false, validate)
}

/// Whether some entry has no metadata.
pub open spec fn has_gaps(list: Seq<MetadataFrameView>) -> bool {
    exists|i: int| 0 <= i < list.len() && (#[trigger] list[i]).metadata is None
}

/// The SEI list cut to the frame count when the parse was limited.
pub open spec fn limited_list(list: Seq<MetadataFrameView>, frame_count: nat, limited: bool) -> Seq<MetadataFrameView> {
    if limited && list.len() > frame_count {
        list.take(frame_count as int)
    } else {
        list
    }
}

/// The SEI list after its gaps are filled and, unless skipped, its reordering.
pub open spec fn arranged_list(list: Seq<MetadataFrameView>, frames: Seq<FrameOrder>, skip_reorder: bool) -> Seq<MetadataFrameView> {
    let filled = if has_gaps(list) { spec_fill_gaps(list) } else { list };
    if skip_reorder { filled } else { spec_reorder(filled, frames) }
}

/// The payloads of a list whose entries all have metadata.
pub open spec fn payloads_of(list: Seq<MetadataFrameView>) -> Seq<Seq<u8>> {
    Seq::new(list.len(), |i: int| list[i].metadata.unwrap())
}

/// The payloads with their emulation prevention bytes removed.
pub open spec fn unescaped(list: Seq<Seq<u8>>) -> Seq<Seq<u8>> {
    Seq::new(list.len(), |i: int| without_emulation_prevention(list[i]))
}

/// The inputs on which finishing a parse does not stop on a missing value: once the list
/// is cut and matches the frame count, its first entry has metadata (so that no gap is
/// left after filling) and, when reordering, every entry's frame is known.
pub open spec fn finalize_ready(list: Seq<MetadataFrameView>, frames: Seq<FrameOrder>, limited: bool, skip_reorder: bool) -> bool {
    let l = limited_list(list, frames.len(), limited);
    l.len() == frames.len() && l.len() > 0 ==> {
        &&& l[0].metadata is Some
        &&& (!skip_reorder ==> all_frames_found(l, frames))
    }
}

/// Whether finishing a parse goes through without a missing value: whether
/// `finalize_ready` holds.
pub fn finalize_can_complete(list: &Vec<MetadataFrame>, frames: &[FrameOrder], limited: bool, skip_reorder: bool) -> (r: bool)
    ensures
        r == finalize_ready(frame_views(list@), frames@, limited, skip_reorder),
{
    let ghost views = frame_views(list@);
    let n = if limited && list.len() > frames.len() {
        frames.len()
    } else {
        list.len()
    };
    let ghost l = limited_list(views, frames@.len(), limited);
    assert(l =~= views.take(n as int));
    if !(n == frames.len() && n > 0) {
        return true;
    }
    assert(l[0] == list@[0]@);
    if list[0].metadata.is_none() {
        return false;
    }
    if skip_reorder {
        return true;
    }
    let mut i: usize = 0;
    while i < n
        invariant
            views == frame_views(list@),
            n <= list@.len(),
            l == views.take(n as int),
            l == limited_list(views, frames@.len(), limited),
            n == frames@.len(),
            n > 0,
            l[0].metadata is Some,
            !skip_reorder,
            i <= n,
            forall|k: int| 0 <= k < i ==> frame_index_of(frames@, (#[trigger] l[k]).decoded_index) is Some,
        decreases n - i,
    {
        assert(l[i as int] == list@[i as int]@);
        if crate::inject::find_frame(frames, list[i].decoded_index).is_none() {
            assert(frame_index_of(frames@, l[i as int].decoded_index) is None);
            assert(!all_frames_found(l, frames@));
            return false;
        }
        i = i + 1;
    }
    true
}

/// What finishing a parse returns: the metadata of the frames' SEI payloads in
/// presentation order, or why there is none.
pub open spec fn spec_finalize(list: Seq<MetadataFrameView>, frames: Seq<FrameOrder>, limited: bool, skip_reorder: bool, validate: bool) -> Result<Seq<MetadataView>, ExtractError> {
    let l = limited_list(list, frames.len(), limited);
    if list.len() == 0 {
        Err(ExtractError::Parser(ParserError::NoMetadataFound))
    } else if l.len() != frames.len() {
        Err(ExtractError::FrameCountMismatch)
    } else {
        match spec_parse_all(unescaped(payloads_of(arranged_list(l, frames, skip_reorder))), validate) {
            Err(e) => Err(ExtractError::Metadata(e)),
            Ok(ms) => if ms.len() == 0 {
                Err(ExtractError::NoParsedMetadata)
            } else {
                Ok(ms)
            },
        }
    }
}

/// Whether some frame of the list has no metadata.
fn any_gap(list: &Vec<MetadataFrame>) -> (r: bool)
    ensures
        r == has_gaps(frame_views(list@)),
{
    let mut i: usize = 0;
    while i < list.len()
        invariant
            i <= list@.len(),
            forall|j: int| 0 <= j < i ==> (#[trigger] list@[j]).metadata is Some,
        decreases list@.len() - i,
    {
        if list[i].metadata.is_none() {
            assert(frame_views(list@)[i as int].metadata is None);
            return true;
        }
        i = i + 1;
    }
    proof {
        assert forall|j: int| 0 <= j < list@.len() implies (#[trigger] frame_views(list@)[j]).metadata is Some by {
            assert(list@[j].metadata is Some);
        }
    }
    false
}

proof fn lemma_filled_first(list: Seq<MetadataFrameView>, k: nat)
    requires
        1 <= k <= list.len(),
        list[0].metadata is Some,
    ensures
        filled_metadata(list, k) is Some,
    decreases k,
{
    if k > 1 && list[k - 1].metadata is None {
        lemma_filled_first(list, (k - 1) as nat);
    }
}

/// The payloads of the frames, which all have metadata.
fn take_payloads(list: Vec<MetadataFrame>) -> (r: Vec<Vec<u8>>)
    requires
        forall|i: int| 0 <= i < list@.len() ==> (#[trigger] list@[i]).metadata is Some,
    ensures
        byte_views(r@) == payloads_of(frame_views(list@)),
{
    let ghost l = frame_views(list@);
    let mut out: Vec<Vec<u8>> = Vec::new();
    let mut i: usize = 0;
    while i < list.len()
        invariant
            l == frame_views(list@),
            i <= list@.len(),
            forall|j: int| 0 <= j < list@.len() ==> (#[trigger] list@[j]).metadata is Some,
            out@.len() == i,
            forall|j: int| 0 <= j < i ==> (#[trigger] out@[j])@ == l[j].metadata.unwrap(),
        decreases list@.len() - i,
    {
        let p = match &list[i].metadata {
            Some(v) => copy_bytes(v),
            None => Vec::new(),
        };
        out.push(p);
        i = i + 1;
    }
    assert(byte_views(out@) =~= payloads_of(l));
    out
}

/// Finishes an HEVC parse: the SEI list is cut to the frame count when the parse was
/// limited, must match the frame count, has its gaps filled and, unless skipped, is put
/// in presentation order; its payloads are then parsed and checked when validating.
pub fn finalize_metadata(list: Vec<MetadataFrame>, frames: &[FrameOrder], limited: bool, skip_reorder: bool, validate: bool) -> (r: Result<Vec<Hdr10PlusMetadata>, ExtractError>)
    requires
        finalize_ready(frame_views(list@), frames@, limited, skip_reorder),
    ensures
        match spec_finalize(frame_views(list@), frames@, limited, skip_reorder, validate) {
            Ok(ms) => r matches Ok(v) && metadata_list_views(v@) == ms,
            Err(e) => r == Err::<Vec<Hdr10PlusMetadata>, ExtractError>(e),
        },
{
    let ghost l0 = frame_views(list@);
    if list.len() == 0 {
        return Err(ExtractError::Parser(ParserError::NoMetadataFound));
    }
    let mut list = list;
    if limited && list.len() > frames.len() {
        list.truncate(frames.len());
        assert(frame_views(list@) =~= l0.take(frames@.len() as int));
    }
    let ghost l = frame_views(list@);
    assert(l == limited_list(l0, frames@.len(), limited));
    if list.len() != frames.len() {
        return Err(ExtractError::FrameCountMismatch);
    }
    if any_gap(&list) {
        fill_metadata_gaps(&mut list);
    }
    let ghost l2 = frame_views(list@);
    assert(l2 == (if has_gaps(l) { spec_fill_gaps(l) } else { l }));
    proof {
        assert forall|i: int| 0 <= i < l2.len() implies (#[trigger] l2[i]).metadata is Some by {
            if has_gaps(l) {
                lemma_filled_first(l, (i + 1) as nat);
            } else {
                assert(l[i].metadata is Some);
            }
        }
        assert forall|i: int| 0 <= i < l2.len() implies (#[trigger] l2[i]).decoded_index == l[i].decoded_index by {}
    }
    if !skip_reorder {
        proof {
            assert forall|i: int| 0 <= i < l2.len() implies frame_index_of(frames@, (#[trigger] l2[i]).decoded_index) is Some by {
                assert(l2[i].decoded_index == l[i].decoded_index);
            }
        }
        reorder_metadata(&mut list, frames);
        proof {
            let keyed = keyed_by_presentation(l2, frames@);
            lemma_stable_sort_members(keyed);
            lemma_stable_sort_len(keyed);
            assert forall|i: int| 0 <= i < list@.len() implies (#[trigger] list@[i]).metadata is Some by {
                let sorted = stable_sort(keyed);
                assert(frame_views(list@)[i] == spec_reorder(l2, frames@)[i]);
                let j = choose|j: int| 0 <= j < keyed.len() && keyed[j] == sorted[i];
                assert(keyed[j].1 == l2[j]);
            }
        }
    }
    proof {
        assert forall|i: int| 0 <= i < list@.len() implies (#[trigger] list@[i]).metadata is Some by {
            if skip_reorder {
                assert(frame_views(list@)[i] == l2[i]);
            }
        }
    }
    let ghost l3 = frame_views(list@);
    let payloads = take_payloads(list);
    assert(unescaped_views(payloads@) =~= unescaped(payloads_of(l3)));
    match parse_metadata_list(&payloads, validate) {
        Err(e) => Err(ExtractError::Metadata(e)),
        Ok(ms) => {
            if ms.len() == 0 {
                Err(ExtractError::NoParsedMetadata)
            } else {
                Ok(ms)
            }
        },
    }
}

/// Every entry of a stable sort is an entry of the input.
pub proof fn lemma_stable_sort_members<V>(s: Seq<(u64, V)>)
    ensures
        forall|i: int| 0 <= i < stable_sort(s).len() ==> exists|j: int| 0 <= j < s.len() && s[j] == #[trigger] stable_sort(s)[i],
    decreases s.len(),
{
    if s.len() > 0 {
        let d = s.drop_last();
        lemma_stable_sort_members(d);
        lemma_stable_sort_len(d);
        let p = stable_sort(d);
        lemma_count_le_bound(p, s.last().0);
        let c = count_le(p, s.last().0) as int;
        let q = p.insert(c, s.last());
        assert forall|i: int| 0 <= i < q.len() implies exists|j: int| 0 <= j < s.len() && s[j] == #[trigger] q[i] by {
            if i < c {
                let j = choose|j: int| 0 <= j < d.len() && d[j] == p[i];
                assert(s[j] == q[i]);
            } else if i == c {
                assert(s[s.len() - 1] == q[i]);
            } else {
                let j = choose|j: int| 0 <= j < d.len() && d[j] == p[i - 1];
                assert(s[j] == q[i]);
            }
        }
    }
}

/// The keys of the entries never decrease.
pub open spec fn keys_sorted<V>(s: Seq<(u64, V)>) -> bool {
    forall|i: int, j: int| 0 <= i <= j < s.len() ==> s[i].0 <= s[j].0
}

/// In entries sorted by key, those with a key of at most `k` come first.
proof fn lemma_count_le_sorted<V>(p: Seq<(u64, V)>, k: u64)
    requires
        keys_sorted(p),
    ensures
        count_le(p, k) <= p.len(),
        forall|i: int| 0 <= i < count_le(p, k) ==> p[i].0 <= k,
        forall|i: int| count_le(p, k) <= i < p.len() ==> p[i].0 > k,
    decreases p.len(),
{
    if p.len() > 0 {
        let d = p.drop_last();
        assert(keys_sorted(d));
        lemma_count_le_sorted(d, k);
        if p.last().0 <= k {
            if count_le(d, k) < d.len() {
                let i = count_le(d, k) as int;
                assert(d[i].0 <= p.last().0);
            }
        }
        assert forall|i: int| 0 <= i < count_le(p, k) implies p[i].0 <= k by {
            if i < d.len() {
                assert(p[i] == d[i]);
            }
        }
        assert forall|i: int| count_le(p, k) <= i < p.len() implies p[i].0 > k by {
            if i < d.len() {
                assert(p[i] == d[i]);
            }
        }
    }
}

/// A stable sort orders the entries by key.
pub proof fn lemma_stable_sort_sorted<V>(s: Seq<(u64, V)>)
    ensures
        keys_sorted(stable_sort(s)),
    decreases s.len(),
{
    if s.len() > 0 {
        let d = s.drop_last();
        lemma_stable_sort_sorted(d);
        let p = stable_sort(d);
        let x = s.last();
        lemma_count_le_sorted(p, x.0);
        let c = count_le(p, x.0) as int;
        let q = p.insert(c, x);
        assert forall|i: int, j: int| 0 <= i <= j < q.len() implies q[i].0 <= q[j].0 by {
            let a = if i < c { p[i] } else if i == c { x } else { p[i - 1] };
            let b = if j < c { p[j] } else if j == c { x } else { p[j - 1] };
            assert(q[i] == a);
            assert(q[j] == b);
        }
    }
}

/// A stable sort keeps every entry, as often as it occurs; so does any view of the
/// entries.
pub proof fn lemma_stable_sort_permutes<V, W>(s: Seq<(u64, V)>, f: spec_fn((u64, V)) -> W)
    ensures
        stable_sort(s).map_values(f).to_multiset() == s.map_values(f).to_multiset(),
    decreases s.len(),
{
    broadcast use vstd::seq_lib::group_to_multiset_ensures;
    if s.len() > 0 {
        let d = s.drop_last();
        lemma_stable_sort_permutes(d, f);
        lemma_stable_sort_len(d);
        let p = stable_sort(d);
        lemma_count_le_bound(p, s.last().0);
        let c = count_le(p, s.last().0) as int;
        assert(p.insert(c, s.last()).map_values(f) =~= p.map_values(f).insert(c, f(s.last())));
        assert(s.map_values(f) =~= d.map_values(f).push(f(s.last())));
    }
}

/// Counting keys at most `k` looks at keys only.
proof fn lemma_count_le_map<V, W>(p: Seq<(u64, V)>, f: spec_fn((u64, V)) -> (u64, W), k: u64)
    requires
        forall|e: (u64, V)| (#[trigger] f(e)).0 == e.0,
    ensures
        count_le(p.map_values(f), k) == count_le(p, k),
    decreases p.len(),
{
    if p.len() > 0 {
        assert(p.map_values(f).drop_last() =~= p.drop_last().map_values(f));
        lemma_count_le_map(p.drop_last(), f, k);
        assert(p.map_values(f).last() == f(p.last()));
    }
}

/// A stable sort looks at keys only: sorting entries then viewing them, or viewing them
/// then sorting, gives the same when the view keeps the keys.
proof fn lemma_stable_sort_map<V, W>(s: Seq<(u64, V)>, f: spec_fn((u64, V)) -> (u64, W))
    requires
        forall|e: (u64, V)| (#[trigger] f(e)).0 == e.0,
    ensures
        stable_sort(s.map_values(f)) == stable_sort(s).map_values(f),
    decreases s.len(),
{
    if s.len() > 0 {
        let d = s.drop_last();
        let x = s.last();
        assert(s.map_values(f).drop_last() =~= d.map_values(f));
        assert(s.map_values(f).last() == f(x));
        lemma_stable_sort_map(d, f);
        let p = stable_sort(d);
        lemma_count_le_map(p, f, x.0);
        lemma_stable_sort_len(d);
        lemma_count_le_bound(p, x.0);
        let c = count_le(p, x.0) as int;
        assert(p.insert(c, x).map_values(f) =~= p.map_values(f).insert(c, f(x)));
    }
}

/// The entries tagged with their positions, keys kept.
pub open spec fn tagged<V>(s: Seq<(u64, V)>) -> Seq<(u64, (int, V))> {
    Seq::new(s.len(), |i: int| (s[i].0, (i, s[i].1)))
}

/// Among the tagged entries after a stable sort, entries of equal keys keep the order of
/// their tags.
proof fn lemma_stable_sort_keeps_order<V>(s: Seq<(u64, V)>)
    ensures
        forall|i: int, j: int| 0 <= i < j < stable_sort(tagged(s)).len()
            && (#[trigger] stable_sort(tagged(s))[i]).0 == (#[trigger] stable_sort(tagged(s))[j]).0
            ==> stable_sort(tagged(s))[i].1.0 < stable_sort(tagged(s))[j].1.0,
    decreases s.len(),
{
    if s.len() > 0 {
        let d = s.drop_last();
        let n = s.len() - 1;
        let t = tagged(s);
        assert(t.drop_last() =~= tagged(d));
        lemma_stable_sort_keeps_order(d);
        let p = stable_sort(tagged(d));
        lemma_stable_sort_len(tagged(d));
        lemma_stable_sort_sorted(tagged(d));
        lemma_stable_sort_members(tagged(d));
        let x = t.last();
        assert(x == (s[n].0, (n, s[n].1)));
        lemma_count_le_sorted(p, x.0);
        let c = count_le(p, x.0) as int;
        let q = p.insert(c, x);
        assert forall|i: int| 0 <= i < p.len() implies (#[trigger] p[i]).1.0 < n by {
            let j = choose|j: int| 0 <= j < tagged(d).len() && tagged(d)[j] == p[i];
            assert(tagged(d)[j].1.0 == j);
        }
        assert forall|i: int, j: int| 0 <= i < j < q.len() && (#[trigger] q[i]).0 == (#[trigger] q[j]).0 implies q[i].1.0 < q[j].1.0 by {
            if j < c {
                assert(q[i] == p[i] && q[j] == p[j]);
            } else if j == c {
                assert(q[i] == p[i]);
            } else if i < c {
                assert(q[i] == p[i] && q[j] == p[j - 1]);
            } else if i == c {
                assert(q[j] == p[j - 1]);
            } else {
                assert(q[i] == p[i - 1] && q[j] == p[j - 1]);
            }
        }
    }
}

/// `idx` tells, for each entry of the reordered list, which input entry it is: each is an
/// input entry renumbered by its position, and two entries shown at the same position come
/// in the order they had.
pub open spec fn reorder_sources(list: Seq<MetadataFrameView>, frames: Seq<FrameOrder>, idx: Seq<int>) -> bool {
    &&& idx.len() == list.len()
    &&& forall|i: int| 0 <= i < list.len() ==> 0 <= #[trigger] idx[i] < list.len()
        && spec_reorder(list, frames)[i] == (MetadataFrameView { presentation_number: i as usize, ..list[idx[i]] })
    &&& forall|i: int, j: int| 0 <= i < j < list.len()
        && presentation_of(frames, list[#[trigger] idx[i]].decoded_index)
            == presentation_of(frames, list[#[trigger] idx[j]].decoded_index) ==> idx[i] < idx[j]
}

/// Reordering keeps the decode order of the entries shown at the same presentation
/// position: each entry of the result is an input entry, renumbered, and two entries
/// shown at the same position come in the order they had.
pub proof fn law_reorder_is_stable(list: Seq<MetadataFrameView>, frames: Seq<FrameOrder>)
    requires
        all_frames_found(list, frames),
    ensures
        exists|idx: Seq<int>| #[trigger] reorder_sources(list, frames, idx),
{
    let keyed = keyed_by_presentation(list, frames);
    let t = tagged(keyed);
    let f = |e: (u64, (int, MetadataFrameView))| (e.0, e.1.1);
    assert(t.map_values(f) =~= keyed);
    lemma_stable_sort_map(t, f);
    let ts = stable_sort(t);
    lemma_stable_sort_len(t);
    lemma_stable_sort_members(t);
    lemma_stable_sort_keeps_order(keyed);
    let idx = Seq::new(ts.len(), |i: int| ts[i].1.0);
    let r = spec_reorder(list, frames);
    assert forall|i: int| 0 <= i < ts.len() implies 0 <= (#[trigger] ts[i]).1.0 < list.len() && ts[i].1.1 == list[ts[i].1.0]
        && ts[i].0 == presentation_of(frames, list[ts[i].1.0].decoded_index) by {
        let j = choose|j: int| 0 <= j < t.len() && t[j] == ts[i];
        assert(t[j].1.0 == j);
    }
    assert forall|i: int| 0 <= i < list.len() implies 0 <= #[trigger] idx[i] < list.len()
        && r[i] == (MetadataFrameView { presentation_number: i as usize, ..list[idx[i]] }) by {
        assert(idx[i] == ts[i].1.0);
        assert(stable_sort(keyed)[i] == f(ts[i]));
    }
    assert forall|i: int, j: int| 0 <= i < j < list.len()
        && presentation_of(frames, list[#[trigger] idx[i]].decoded_index)
            == presentation_of(frames, list[#[trigger] idx[j]].decoded_index) implies idx[i] < idx[j] by {
        assert(idx[i] == ts[i].1.0);
        assert(idx[j] == ts[j].1.0);
        assert(ts[i].0 == ts[j].0);
    }
    assert(reorder_sources(list, frames, idx));
}

/// What an entry holds besides its presentation number.
pub open spec fn entry_contents(e: MetadataFrameView) -> (u64, Option<Seq<u8>>) {
    (e.decoded_index, e.metadata)
}

/// Reordering keeps every entry as often as it occurs, puts the entries in the order of
/// their frames' presentation numbers, and numbers them by position from 0.
pub proof fn law_reorder_presentation_order(list: Seq<MetadataFrameView>, frames: Seq<FrameOrder>)
    requires
        all_frames_found(list, frames),
        list.len() <= usize::MAX,
    ensures
        spec_reorder(list, frames).len() == list.len(),
        forall|i: int| 0 <= i < list.len() ==> (#[trigger] spec_reorder(list, frames)[i]).presentation_number == i,
        forall|i: int, j: int| 0 <= i <= j < list.len() ==> presentation_of(frames, (#[trigger] spec_reorder(list, frames)[i]).decoded_index)
            <= presentation_of(frames, (#[trigger] spec_reorder(list, frames)[j]).decoded_index),
        spec_reorder(list, frames).map_values(|e: MetadataFrameView| entry_contents(e)).to_multiset()
            == list.map_values(|e: MetadataFrameView| entry_contents(e)).to_multiset(),
{
    let keyed = keyed_by_presentation(list, frames);
    let sorted = stable_sort(keyed);
    let r = spec_reorder(list, frames);
    lemma_stable_sort_len(keyed);
    lemma_stable_sort_sorted(keyed);
    lemma_stable_sort_members(keyed);
    assert forall|i: int| 0 <= i < sorted.len() implies (#[trigger] sorted[i]).0 == presentation_of(frames, sorted[i].1.decoded_index) by {
        let j = choose|j: int| 0 <= j < keyed.len() && keyed[j] == sorted[i];
        assert(keyed[j].0 == presentation_of(frames, keyed[j].1.decoded_index));
    }
    assert forall|i: int, j: int| 0 <= i <= j < list.len() implies presentation_of(frames, (#[trigger] r[i]).decoded_index)
        <= presentation_of(frames, (#[trigger] r[j]).decoded_index) by {
        assert(r[i].decoded_index == sorted[i].1.decoded_index);
        assert(r[j].decoded_index == sorted[j].1.decoded_index);
        assert(sorted[i].0 <= sorted[j].0);
    }
    let f = |e: (u64, MetadataFrameView)| entry_contents(e.1);
    lemma_stable_sort_permutes(keyed, f);
    assert(r.map_values(|e: MetadataFrameView| entry_contents(e)) =~= sorted.map_values(f));
    assert(keyed.map_values(f) =~= list.map_values(|e: MetadataFrameView| entry_contents(e)));
}

/// The metadata that fills the first `k` entries: none while none of them has any, else
/// that of the last of them that has some.
proof fn lemma_filled_metadata_shape(list: Seq<MetadataFrameView>, k: nat)
    requires
        k <= list.len(),
    ensures
        filled_metadata(list, k) is None <==> forall|j: int| 0 <= j < k ==> (#[trigger] list[j]).metadata is None,
        filled_metadata(list, k) is Some ==> exists|j: int| 0 <= j < k && (#[trigger] list[j]).metadata == filled_metadata(list, k)
            && forall|m: int| j < m < k ==> (#[trigger] list[m]).metadata is None,
    decreases k,
{
    if k > 0 {
        lemma_filled_metadata_shape(list, (k - 1) as nat);
        if list[k - 1].metadata is None && filled_metadata(list, (k - 1) as nat) is Some {
            let j = choose|j: int| 0 <= j < k - 1 && (#[trigger] list[j]).metadata == filled_metadata(list, (k - 1) as nat)
                && forall|m: int| j < m < k - 1 ==> (#[trigger] list[m]).metadata is None;
            assert(forall|m: int| j < m < k ==> (#[trigger] list[m]).metadata is None);
        }
    }
}

/// Filling the gaps of filled entries finds what filling found before.
proof fn lemma_filled_of_filled(list: Seq<MetadataFrameView>, k: nat)
    requires
        k <= list.len(),
    ensures
        filled_metadata(spec_fill_gaps(list), k) == filled_metadata(list, k),
    decreases k,
{
    if k > 0 {
        lemma_filled_of_filled(list, (k - 1) as nat);
    }
}

/// Filling the gaps keeps every entry's frame numbers and every metadata that was there;
/// an entry without metadata gets that of the nearest earlier entry that has some, and
/// stays without when no earlier entry has any; filling a second time changes nothing.
pub proof fn law_fill_gaps(list: Seq<MetadataFrameView>)
    ensures
        spec_fill_gaps(list).len() == list.len(),
        forall|i: int| 0 <= i < list.len() ==> (#[trigger] spec_fill_gaps(list)[i]).decoded_index == list[i].decoded_index
            && spec_fill_gaps(list)[i].presentation_number == list[i].presentation_number,
        forall|i: int| 0 <= i < list.len() && list[i].metadata is Some ==> #[trigger] spec_fill_gaps(list)[i] == list[i],
        forall|i: int| 0 <= i < list.len() ==> ((#[trigger] spec_fill_gaps(list)[i]).metadata is None
            <==> forall|j: int| 0 <= j <= i ==> (#[trigger] list[j]).metadata is None),
        forall|i: int| 0 <= i < list.len() && (#[trigger] spec_fill_gaps(list)[i]).metadata is Some ==> exists|j: int|
            0 <= j <= i && (#[trigger] list[j]).metadata == spec_fill_gaps(list)[i].metadata
            && forall|m: int| j < m <= i ==> (#[trigger] list[m]).metadata is None,
        spec_fill_gaps(spec_fill_gaps(list)) == spec_fill_gaps(list),
{
    let f = spec_fill_gaps(list);
    assert forall|i: int| 0 <= i < list.len() implies ((#[trigger] f[i]).metadata is None
        <==> forall|j: int| 0 <= j <= i ==> (#[trigger] list[j]).metadata is None) && (f[i].metadata is Some ==> exists|j: int|
            0 <= j <= i && (#[trigger] list[j]).metadata == f[i].metadata
            && forall|m: int| j < m <= i ==> (#[trigger] list[m]).metadata is None) by {
        lemma_filled_metadata_shape(list, (i + 1) as nat);
    }
    assert forall|i: int| 0 <= i < list.len() && list[i].metadata is Some implies #[trigger] f[i] == list[i] by {
        assert(filled_metadata(list, (i + 1) as nat) == list[i].metadata);
    }
    assert forall|i: int| 0 <= i < list.len() implies (#[trigger] spec_fill_gaps(f)[i]) == f[i] by {
        lemma_filled_of_filled(list, (i + 1) as nat);
    }
    assert(spec_fill_gaps(f) =~= f);
}

/// The T.35 payloads that AV1 extraction collects from OBUs, the number of frames
/// (temporal units) read to their end, whether a frame is being read, and the limit on the
/// number of frames.
pub struct Av1MetadataCollector {
    pub t35_frames: Vec<Vec<u8>>,
    pub frame_count: u64,
    pub frame_open: bool,
    pub limit: Option<u64>,
    pub validate: bool,
}

/// Whether `count` frames reach the frame limit.
pub open spec fn frame_limit_reached(limit: Option<u64>, count: u64) -> bool {
    match limit {
        Some(l) => count >= l,
        None => false,
    }
}

/// What an OBU adds to the collected payloads: its T.35 bytes when it is a metadata OBU
/// carrying HDR10+ metadata.
pub open spec fn collected_from(o: ObuView, validate: bool) -> Seq<Seq<u8>> {
    if o.obu_type == OBU_METADATA && spec_extract_t35(o.payload, validate) is Some {
        seq![spec_extract_t35(o.payload, validate).unwrap()]
    } else {
        seq![]
    }
}

/// What finishing AV1 extraction returns: no metadata, or metadata detected when only
/// checking, or the parsed payloads.
pub open spec fn spec_finish_av1(t35_frames: Seq<Seq<u8>>, verify: bool, validate: bool) -> Result<Seq<MetadataView>, ExtractError> {
    if t35_frames.len() == 0 {
        Err(ExtractError::Parser(ParserError::NoMetadataFound))
    } else if verify {
        Err(ExtractError::Parser(ParserError::MetadataDetected))
    } else {
        match spec_parse_all(t35_frames, validate) {
            Err(e) => Err(ExtractError::Metadata(e)),
            Ok(ms) => Ok(ms),
        }
    }
}

impl Av1MetadataCollector {
    /// A collector that has read no OBU.
    pub fn new(limit: Option<u64>, validate: bool) -> (r: Self)
        ensures
            r.t35_frames@.len() == 0,
            r.frame_count == 0,
            !r.frame_open,
            r.limit == limit,
            r.validate == validate,
    {
        Av1MetadataCollector { t35_frames: Vec::new(), frame_count: 0, frame_open: false, limit, validate }
    }

    /// Takes in one OBU of the frame being read, keeping its T.35 bytes when it carries
    /// HDR10+ metadata.
    pub fn push_obu(&mut self, obu: &Obu)
        ensures
            byte_views(final(self).t35_frames@) == byte_views(old(self).t35_frames@) + collected_from(obu@, old(self).validate),
            final(self).frame_count == old(self).frame_count,
            final(self).frame_open,
            final(self).limit == old(self).limit,
            final(self).validate == old(self).validate,
    {
        let ghost before = self.t35_frames@;
        if obu.obu_type == OBU_METADATA {
            match extract_hdr10plus_t35_bytes(&obu.payload, self.validate) {
                Some(t35) => {
                    self.t35_frames.push(t35);
                    assert(byte_views(self.t35_frames@) =~= byte_views(before) + collected_from(obu@, self.validate));
                },
                None => {
                    assert(byte_views(self.t35_frames@) =~= byte_views(before) + collected_from(obu@, self.validate));
                },
            }
        } else {
            assert(byte_views(self.t35_frames@) =~= byte_views(before) + collected_from(obu@, self.validate));
        }
        self.frame_open = true;
    }

    /// Ends the frame being read, as at the end of an IVF frame, and returns whether the
    /// frame limit is reached.
    pub fn end_frame(&mut self) -> (r: bool)
        requires
            old(self).frame_count < u64::MAX,
        ensures
            final(self).t35_frames@ == old(self).t35_frames@,
            final(self).frame_count == old(self).frame_count + 1,
            !final(self).frame_open,
            final(self).limit == old(self).limit,
            final(self).validate == old(self).validate,
            r == frame_limit_reached(old(self).limit, final(self).frame_count),
    {
        self.frame_count = self.frame_count + 1;
        self.frame_open = false;
        match self.limit {
            Some(l) => self.frame_count >= l,
            None => false,
        }
    }

    /// Takes in the next OBU of a raw OBU stream, where a temporal delimiter opens each
    /// frame: a delimiter after the OBUs of a frame ends that frame, and when that reaches
    /// the frame limit, reading stops before the delimiter and `true` is returned; otherwise
    /// the OBU is taken in as by `push_obu`.
    pub fn push_stream_obu(&mut self, obu: &Obu) -> (r: bool)
        requires
            old(self).frame_count < u64::MAX,
        ensures
            ({
                let ends = obu@.obu_type == OBU_TEMPORAL_DELIMITER && old(self).frame_open;
                let count = if ends { (old(self).frame_count + 1) as u64 } else { old(self).frame_count };
                &&& final(self).frame_count == count
                &&& r == (ends && frame_limit_reached(old(self).limit, count))
                &&& byte_views(final(self).t35_frames@) == byte_views(old(self).t35_frames@) + (if r {
                    Seq::<Seq<u8>>::empty()
                } else {
                    collected_from(obu@, old(self).validate)
                })
                &&& final(self).frame_open == !r
            }),
            final(self).limit == old(self).limit,
            final(self).validate == old(self).validate,
    {
        if obu.obu_type == OBU_TEMPORAL_DELIMITER && self.frame_open {
            let reached = self.end_frame();
            if reached {
                assert(byte_views(self.t35_frames@) =~= byte_views(old(self).t35_frames@) + Seq::<Seq<u8>>::empty());
                return true;
            }
        }
        self.push_obu(obu);
        false
    }

    /// Finishes AV1 extraction: fails when no payload was found, or when only checking for
    /// metadata; otherwise parses the payloads, checking them when validating.
    pub fn finish(self, verify: bool) -> (r: Result<Vec<Hdr10PlusMetadata>, ExtractError>)
        ensures
            match spec_finish_av1(byte_views(self.t35_frames@), verify, self.validate) {
                Ok(ms) => r matches Ok(v) && metadata_list_views(v@) == ms,
                Err(e) => r == Err::<Vec<Hdr10PlusMetadata>, ExtractError>(e),
            },
    {
        if self.t35_frames.len() == 0 {
            return Err(ExtractError::Parser(ParserError::NoMetadataFound));
        }
        if verify {
            return Err(ExtractError::Parser(ParserError::MetadataDetected));
        }
        match parse_t35_list(&self.t35_frames, self.validate) {
            Err(e) => Err(ExtractError::Metadata(e)),
            Ok(ms) => Ok(ms),
        }
    }
}

} // verus!
