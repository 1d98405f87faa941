//! Decisions of metadata injection: which metadata each AV1 temporal unit receives, how
//! a temporal unit is rebuilt around it, and where an HEVC SEI goes in a frame.
use vstd::prelude::*;

use crate::av1::{
    encode_av1_from_json, is_hdr10plus_obu, spec_encode_av1_json, spec_is_hdr10plus_obu, Obu,
    ObuView, OBU_TEMPORAL_DELIMITER,
};
use crate::error::Hdr10PlusError;
use crate::extract::{frame_index_of, FrameOrder};
use crate::hevc::{encode_hevc_from_json, spec_encode_hevc_json, NAL_SEI_PREFIX};
use crate::sei::{spec_is_slice_type, NAL_UNSPEC62};
use crate::json::{copy_u8s, Hdr10PlusJsonMetadata, JsonFrameView};

verus! {

/// Why injection stops.
#[derive(Debug, Clone, PartialEq, Eq)]
pub enum InjectError {
    /// Encoding a frame's metadata failed.
    Metadata(Hdr10PlusError),
    /// No metadata is at hand for a temporal unit.
    NoMetadataForUnit(usize),
    /// The JSON document holds no frame.
    EmptySceneInfo,
    /// No metadata is at hand for a presentation frame.
    NoMetadataForFrame(u64),
    /// A decoded frame holds no slice before which the SEI could go.
    NoSliceInFrame(u64),
    /// There is no SEI to write for a decoded frame.
    NoSeiForFrame(u64),
}

/// The frames of a JSON document to inject: refused when the document holds none.
pub fn scene_info_to_inject(scene_info: Vec<Hdr10PlusJsonMetadata>) -> (r: Result<Vec<Hdr10PlusJsonMetadata>, InjectError>)
    ensures
        scene_info@.len() == 0 ==> r == Err::<Vec<Hdr10PlusJsonMetadata>, InjectError>(InjectError::EmptySceneInfo),
        scene_info@.len() > 0 ==> (r matches Ok(v) && v@ == scene_info@),
{
    if scene_info.len() == 0 {
        Err(InjectError::EmptySceneInfo)
    } else {
        Ok(scene_info)
    }
}

/// The raw bytes of the OBUs that are kept: all but those carrying HDR10+ metadata.
pub open spec fn kept_bytes(obus: Seq<ObuView>, validate: bool) -> Seq<u8>
    decreases obus.len(),
{
    if obus.len() == 0 {
        seq![]
    } else {
        let o = obus.last();
        kept_bytes(obus.drop_last(), validate) + (if spec_is_hdr10plus_obu(o, validate) {
            Seq::<u8>::empty()
        } else {
            o.raw_bytes
        })
    }
}

/// The index of the first temporal delimiter among the OBUs, if any.
pub open spec fn first_td(obus: Seq<ObuView>) -> Option<nat>
    decreases obus.len(),
{
    if obus.len() == 0 {
        None
    } else {
        match first_td(obus.drop_last()) {
            Some(i) => Some(i),
            None => if obus.last().obu_type == OBU_TEMPORAL_DELIMITER {
                Some((obus.len() - 1) as nat)
            } else {
                None
            },
        }
    }
}

/// Where the new metadata OBU goes: right after the first temporal delimiter, or first.
pub open spec fn insert_position(obus: Seq<ObuView>) -> nat {
    match first_td(obus) {
        Some(i) => i + 1,
        None => 0,
    }
}

/// The views of a list of OBUs.
pub open spec fn obu_views(obus: Seq<Obu>) -> Seq<ObuView> {
    obus.map_values(|o: Obu| o@)
}

/// A temporal unit rebuilt around an encoded metadata OBU: the OBUs without their HDR10+
/// metadata, with the encoded OBU placed after the first temporal delimiter.
pub open spec fn spec_output_frame(obus: Seq<ObuView>, encoded: Seq<u8>, validate: bool) -> Seq<u8> {
    let p = insert_position(obus) as int;
    kept_bytes(obus.take(p), validate) + encoded + kept_bytes(obus.skip(p), validate)
}

proof fn lemma_kept_push(obus: Seq<ObuView>, a: int, i: int, validate: bool)
    requires
        0 <= a <= i < obus.len(),
    ensures
        kept_bytes(obus.subrange(a, i + 1), validate) == kept_bytes(obus.subrange(a, i), validate) + (
        if spec_is_hdr10plus_obu(obus[i], validate) {
            Seq::<u8>::empty()
        } else {
            obus[i].raw_bytes
        }),
{
    assert(obus.subrange(a, i + 1).drop_last() =~= obus.subrange(a, i));
}

proof fn lemma_first_td_prefix(obus: Seq<ObuView>, i: int)
    requires
        0 <= i <= obus.len(),
        forall|j: int| 0 <= j < i ==> obus[j].obu_type != OBU_TEMPORAL_DELIMITER,
    ensures
        first_td(obus.take(i)) is None,
    decreases i,
{
    if i > 0 {
        lemma_first_td_prefix(obus, i - 1);
        assert(obus.take(i).drop_last() =~= obus.take(i - 1));
    }
}

proof fn lemma_first_td_found(obus: Seq<ObuView>, i: int, k: int)
    requires
        0 <= i < k <= obus.len(),
        obus[i].obu_type == OBU_TEMPORAL_DELIMITER,
        first_td(obus.take(i)) is None,
    ensures
        first_td(obus.take(k)) == Some(i as nat),
    decreases k,
{
    if k == i + 1 {
        assert(obus.take(k).drop_last() =~= obus.take(i));
    } else {
        lemma_first_td_found(obus, i, k - 1);
        assert(obus.take(k).drop_last() =~= obus.take(k - 1));
    }
}

/// The index of the first temporal delimiter, if any.
fn find_first_td(obus: &[Obu]) -> (r: Option<usize>)
    ensures
        r is None <==> first_td(obu_views(obus@)) is None,
        r matches Some(k) ==> first_td(obu_views(obus@)) == Some(k as nat) && k < obus@.len(),
{
    let ghost v = obu_views(obus@);
    let mut i: usize = 0;
    while i < obus.len()
        invariant
            v == obu_views(obus@),
            i <= obus@.len(),
            forall|j: int| 0 <= j < i ==> v[j].obu_type != OBU_TEMPORAL_DELIMITER,
        decreases obus@.len() - i,
    {
        if obus[i].obu_type == OBU_TEMPORAL_DELIMITER {
            proof {
                lemma_first_td_prefix(v, i as int);
                lemma_first_td_found(v, i as int, v.len() as int);
                assert(v.take(v.len() as int) =~= v);
            }
            return Some(i);
        }
        i = i + 1;
    }
    proof {
        lemma_first_td_prefix(v, v.len() as int);
        assert(v.take(v.len() as int) =~= v);
    }
    None
}

/// Appends a copy of `src` to `out`.
fn append_bytes(out: &mut Vec<u8>, src: &[u8])
    ensures
        final(out)@ == old(out)@ + src@,
{
    let mut i: usize = 0;
    while i < src.len()
        invariant
            i <= src@.len(),
            out@ == old(out)@ + src@.take(i as int),
        decreases src@.len() - i,
    {
        out.push(src[i]);
        i = i + 1;
        assert(out@ =~= old(out)@ + src@.take(i as int));
    }
    assert(src@.take(src@.len() as int) =~= src@);
}

/// Rebuilds a temporal unit around an encoded metadata OBU: the OBUs carrying HDR10+
/// metadata are dropped, and the encoded OBU goes right after the first temporal
/// delimiter, or first when there is none.
pub fn build_av1_output_frame(obus: &[Obu], encoded: &[u8], validate: bool) -> (r: Vec<u8>)
    ensures
        r@ == spec_output_frame(obu_views(obus@), encoded@, validate),
{
    let ghost v = obu_views(obus@);
    let mut out: Vec<u8> = Vec::new();
    let mut injected = false;
    let n = obus.len();
    let insert_after_td = match find_first_td(obus) {
        Some(i) => i + 1,
        None => 0,
    };
    let ghost p = insert_after_td as int;
    assert(p == insert_position(v));
    let mut i: usize = 0;
    while i < obus.len()
        invariant
            v == obu_views(obus@),
            p == insert_after_td,
            p == insert_position(v),
            p <= v.len(),
            i <= v.len(),
            injected == (i > p),
            i <= p ==> out@ == kept_bytes(v.subrange(0, i as int), validate),
            i > p ==> out@ == kept_bytes(v.take(p), validate) + encoded@ + kept_bytes(
                v.subrange(p, i as int),
                validate,
            ),
        decreases v.len() - i,
    {
        if !injected && i == insert_after_td {
            append_bytes(&mut out, encoded);
            injected = true;
            proof {
                assert(v.subrange(0, i as int) =~= v.take(p));
                assert(v.subrange(p, p) =~= Seq::<ObuView>::empty());
                assert(out@ =~= kept_bytes(v.take(p), validate) + encoded@ + kept_bytes(v.subrange(p, p), validate));
            }
        }
        let is_hdr = is_hdr10plus_obu(&obus[i], validate);
        assert(obus@[i as int]@ == v[i as int]);
        if !is_hdr {
            append_bytes(&mut out, &obus[i].raw_bytes);
        }
        proof {
            if i < p {
                lemma_kept_push(v, 0, i as int, validate);
            } else {
                lemma_kept_push(v, p, i as int, validate);
            }
        }
        i = i + 1;
    }
    if !injected {
        append_bytes(&mut out, encoded);
        proof {
            assert(v.subrange(0, v.len() as int) =~= v.take(p));
            assert(v.skip(p) =~= Seq::<ObuView>::empty());
        }
    } else {
        proof {
            assert(v.subrange(p, v.len() as int) =~= v.skip(p));
        }
    }
    out
}

/// The views of a list of JSON frames.
pub open spec fn json_views(list: Seq<Hdr10PlusJsonMetadata>) -> Seq<JsonFrameView> {
    list.map_values(|j: Hdr10PlusJsonMetadata| j@)
}

/// Whether any of the OBUs carries HDR10+ metadata.
pub open spec fn any_hdr10plus(obus: Seq<ObuView>, validate: bool) -> bool {
    exists|i: int| 0 <= i < obus.len() && spec_is_hdr10plus_obu(#[trigger] obus[i], validate)
}

/// The state of AV1 injection between temporal units: the index of the next temporal
/// unit, the last metadata OBU written, and which warnings were given.
pub struct Av1Injection {
    pub tu_index: usize,
    pub last_encoded: Option<Vec<u8>>,
    pub warned_existing: bool,
    pub warned_mismatch: bool,
}

/// The state of AV1 injection as a mathematical value.
pub struct Av1InjectionView {
    pub tu_index: usize,
    pub last_encoded: Option<Seq<u8>>,
    pub warned_existing: bool,
    pub warned_mismatch: bool,
}

impl View for Av1Injection {
    type V = Av1InjectionView;

    open spec fn view(&self) -> Av1InjectionView {
        Av1InjectionView {
            tu_index: self.tu_index,
            last_encoded: match self.last_encoded {
                Some(v) => Some(v@),
                None => None,
            },
            warned_existing: self.warned_existing,
            warned_mismatch: self.warned_mismatch,
        }
    }
}

/// The metadata OBU of the next temporal unit: the encoded frame of the same index while
/// the list lasts, then the last one written again. With it, the OBU to remember and
/// whether the length mismatch is to be reported now.
pub open spec fn spec_unit_metadata(s: Av1InjectionView, list: Seq<JsonFrameView>, validate: bool) -> Result<
    (Seq<u8>, bool),
    InjectError,
> {
    if s.tu_index < list.len() {
        match spec_encode_av1_json(list[s.tu_index as int], validate) {
            Ok(b) => Ok((b, false)),
            Err(e) => Err(InjectError::Metadata(e)),
        }
    } else {
        match s.last_encoded {
            Some(b) => Ok((b, !s.warned_mismatch)),
            None => Err(InjectError::NoMetadataForUnit(s.tu_index)),
        }
    }
}

/// What one temporal unit of an IVF file gives: the rebuilt frame, and the warnings to
/// report now.
pub struct UnitOutput {
    pub frame: Vec<u8>,
    pub warn_existing: bool,
    pub warn_mismatch: bool,
}

/// The state after a temporal unit whose metadata OBU is `b`.
pub open spec fn spec_after_unit(s: Av1InjectionView, b: Seq<u8>, warn_existing: bool, warn_mismatch: bool) -> Av1InjectionView {
    Av1InjectionView {
        tu_index: (s.tu_index + 1) as usize,
        last_encoded: Some(b),
        warned_existing: s.warned_existing || warn_existing,
        warned_mismatch: s.warned_mismatch || warn_mismatch,
    }
}

impl Av1Injection {
    /// The state before the first temporal unit.
    pub fn new() -> (r: Self)
        ensures
            r@ == (Av1InjectionView {
                tu_index: 0,
                last_encoded: None,
                warned_existing: false,
                warned_mismatch: false,
            }),
    {
        Av1Injection { tu_index: 0, last_encoded: None, warned_existing: false, warned_mismatch: false }
    }

    /// The metadata OBU of the next temporal unit, and whether the length mismatch is to
    /// be reported now.
    fn unit_metadata(&self, list: &[Hdr10PlusJsonMetadata], validate: bool) -> (r: Result<(Vec<u8>, bool), InjectError>)
        ensures
            match spec_unit_metadata(self@, json_views(list@), validate) {
                Ok((b, w)) => r matches Ok((v, w2)) && v@ == b && w2 == w,
                Err(e) => r == Err::<(Vec<u8>, bool), InjectError>(e),
            },
    {
        if self.tu_index < list.len() {
            assert(list@[self.tu_index as int]@ == json_views(list@)[self.tu_index as int]);
            match encode_av1_from_json(&list[self.tu_index], validate) {
                Ok(enc) => Ok((enc, false)),
                Err(e) => Err(InjectError::Metadata(e)),
            }
        } else {
            match &self.last_encoded {
                Some(enc) => Ok((copy_u8s(enc), !self.warned_mismatch)),
                None => Err(InjectError::NoMetadataForUnit(self.tu_index)),
            }
        }
    }

    /// Injects the metadata of the next temporal unit into an IVF frame's OBUs, replacing
    /// any HDR10+ metadata OBU they hold.
    pub fn ivf_unit(&mut self, list: &[Hdr10PlusJsonMetadata], obus: &[Obu], validate: bool) -> (r: Result<UnitOutput, InjectError>)
        requires
            old(self).tu_index < usize::MAX,
        ensures
            ({
                let s = old(self)@;
                let warn_existing = !s.warned_existing && any_hdr10plus(obu_views(obus@), validate);
                match spec_unit_metadata(s, json_views(list@), validate) {
                    Ok((b, w)) => r matches Ok(out) && out.frame@ == spec_output_frame(obu_views(obus@), b, validate)
                        && out.warn_existing == warn_existing && out.warn_mismatch == w
                        && final(self)@ == spec_after_unit(s, b, warn_existing, w),
                    Err(e) => r matches Err(e2) && e2 == e,
                }
            }),
    {
        let warn_existing = !self.warned_existing && any_hdr10plus_obu(obus, validate);
        let (encoded, warn_mismatch) = self.unit_metadata(list, validate)?;
        let frame = build_av1_output_frame(obus, &encoded, validate);
        self.warned_existing = self.warned_existing || warn_existing;
        self.warned_mismatch = self.warned_mismatch || warn_mismatch;
        self.last_encoded = Some(encoded);
        self.tu_index = self.tu_index + 1;
        Ok(UnitOutput { frame, warn_existing, warn_mismatch })
    }
}

/// Whether any of the OBUs carries HDR10+ metadata.
pub fn any_hdr10plus_obu(obus: &[Obu], validate: bool) -> (r: bool)
    ensures
        r == any_hdr10plus(obu_views(obus@), validate),
{
    let ghost v = obu_views(obus@);
    let mut i: usize = 0;
    while i < obus.len()
        invariant
            v == obu_views(obus@),
            i <= v.len(),
            forall|j: int| 0 <= j < i ==> !spec_is_hdr10plus_obu(#[trigger] v[j], validate),
        decreases v.len() - i,
    {
        assert(obus@[i as int]@ == v[i as int]);
        if is_hdr10plus_obu(&obus[i], validate) {
            return true;
        }
        i = i + 1;
    }
    false
}

/// The state of AV1 injection into a raw OBU stream: the temporal unit state, the
/// temporal delimiter that opened the current unit, and the OBUs of that unit so far.
pub struct RawObuInjection {
    pub unit: Av1Injection,
    pub current_td: Option<Obu>,
    pub pending: Vec<Obu>,
}

/// The raw OBU stream state as a mathematical value.
pub struct RawObuInjectionView {
    pub unit: Av1InjectionView,
    pub current_td: Option<ObuView>,
    pub pending: Seq<ObuView>,
}

impl View for RawObuInjection {
    type V = RawObuInjectionView;

    open spec fn view(&self) -> RawObuInjectionView {
        RawObuInjectionView {
            unit: self.unit@,
            current_td: match self.current_td {
                Some(o) => Some(o@),
                None => None,
            },
            pending: obu_views(self.pending@),
        }
    }
}

/// What one OBU of a raw stream gives: the bytes to write, and the warnings to report now.
pub struct RawStep {
    pub bytes: Vec<u8>,
    pub warn_existing: bool,
    pub warn_mismatch: bool,
}

/// Whether an OBU, or the end of the stream, closes the open temporal unit.
pub open spec fn closes_unit(s: RawObuInjectionView, obu: Option<ObuView>) -> bool {
    s.current_td is Some && match obu {
        None => true,
        Some(o) => o.obu_type == OBU_TEMPORAL_DELIMITER,
    }
}

/// What closing the open temporal unit writes: the delimiter, the metadata OBU, then the
/// unit's other OBUs without their HDR10+ metadata.
pub open spec fn closed_unit_bytes(s: RawObuInjectionView, b: Seq<u8>, validate: bool) -> Seq<u8> {
    s.current_td->0.raw_bytes + b + kept_bytes(s.pending, validate)
}

/// How an OBU, or the end of the stream, is taken in once any open unit it closes is
/// written: a delimiter opens a new unit, another OBU joins the open unit or, outside
/// any unit, is written as it is.
pub open spec fn spec_take_obu(s: RawObuInjectionView, obu: Option<ObuView>) -> (RawObuInjectionView, Seq<u8>) {
    match obu {
        None => (s, seq![]),
        Some(o) => if o.obu_type == OBU_TEMPORAL_DELIMITER {
            (RawObuInjectionView { current_td: Some(o), pending: seq![], ..s }, seq![])
        } else if s.current_td is Some {
            (RawObuInjectionView { pending: s.pending.push(o), ..s }, seq![])
        } else {
            (s, o.raw_bytes)
        },
    }
}

impl RawObuInjection {
    /// The state before the first OBU.
    pub fn new() -> (r: Self)
        ensures
            r@.unit == Av1Injection::new_view(),
            r@.current_td is None,
            r@.pending == Seq::<ObuView>::empty(),
    {
        RawObuInjection { unit: Av1Injection::new(), current_td: None, pending: Vec::new() }
    }

    fn take_obu(&mut self, obu: Option<Obu>) -> (r: Vec<u8>)
        ensures
            ({
                let o = match obu {
                    Some(x) => Some(x@),
                    None => None,
                };
                (final(self)@, r@) == spec_take_obu(old(self)@, o)
            }),
    {
        match obu {
            None => Vec::new(),
            Some(o) => {
                if o.obu_type == OBU_TEMPORAL_DELIMITER {
                    self.current_td = Some(o);
                    self.pending = Vec::new();
                    proof {
                        assert(obu_views(self.pending@) =~= Seq::<ObuView>::empty());
                    }
                    Vec::new()
                } else if self.current_td.is_some() {
                    self.pending.push(o);
                    proof {
                        assert(obu_views(self.pending@) =~= obu_views(old(self).pending@).push(o@));
                    }
                    Vec::new()
                } else {
                    o.raw_bytes
                }
            },
        }
    }

    /// Takes in the next OBU of a raw stream, or `None` at its end. An OBU that closes
    /// the open temporal unit (a delimiter, or the end) first has that unit written with
    /// the next metadata OBU.
    pub fn push_obu(&mut self, obu: Option<Obu>, list: &[Hdr10PlusJsonMetadata], validate: bool) -> (r: Result<RawStep, InjectError>)
        requires
            old(self).unit.tu_index < usize::MAX,
        ensures
            ({
                let s = old(self)@;
                let o = match obu {
                    Some(x) => Some(x@),
                    None => None,
                };
                if closes_unit(s, o) {
                    let warn_existing = !s.unit.warned_existing && any_hdr10plus(s.pending, validate);
                    match spec_unit_metadata(s.unit, json_views(list@), validate) {
                        Ok((b, w)) => {
                            let closed = RawObuInjectionView {
                                unit: spec_after_unit(s.unit, b, warn_existing, w),
                                current_td: None,
                                pending: seq![],
                            };
                            let (s2, tail) = spec_take_obu(closed, o);
                            r matches Ok(step) && step.bytes@ == closed_unit_bytes(s, b, validate) + tail
                                && step.warn_existing == warn_existing && step.warn_mismatch == w
                                && final(self)@ == s2
                        },
                        Err(e) => r matches Err(e2) && e2 == e,
                    }
                } else {
                    let (s2, tail) = spec_take_obu(s, o);
                    r matches Ok(step) && step.bytes@ == tail && !step.warn_existing && !step.warn_mismatch
                        && final(self)@ == s2
                }
            }),
    {
        let closes = self.current_td.is_some() && match &obu {
            None => true,
            Some(o) => o.obu_type == OBU_TEMPORAL_DELIMITER,
        };
        if closes {
            let warn_existing = !self.unit.warned_existing && any_hdr10plus_obu(&self.pending, validate);
            let (encoded, warn_mismatch) = self.unit.unit_metadata(list, validate)?;
            let td = self.current_td.take();
            let mut bytes: Vec<u8> = Vec::new();
            match &td {
                Some(t) => append_bytes(&mut bytes, &t.raw_bytes),
                None => {},
            }
            append_bytes(&mut bytes, &encoded);
            let kept = remove_hdr10plus_obus(&self.pending, validate);
            append_bytes(&mut bytes, &kept);
            self.pending = Vec::new();
            self.unit.warned_existing = self.unit.warned_existing || warn_existing;
            self.unit.warned_mismatch = self.unit.warned_mismatch || warn_mismatch;
            self.unit.last_encoded = Some(encoded);
            self.unit.tu_index = self.unit.tu_index + 1;
            proof {
                assert(obu_views(self.pending@) =~= Seq::<ObuView>::empty());
            }
            let tail = self.take_obu(obu);
            append_bytes(&mut bytes, &tail);
            Ok(RawStep { bytes, warn_existing, warn_mismatch })
        } else {
            let bytes = self.take_obu(obu);
            Ok(RawStep { bytes, warn_existing: false, warn_mismatch: false })
        }
    }
}

impl Av1Injection {
    /// The state before the first temporal unit, as a value.
    pub open spec fn new_view() -> Av1InjectionView {
        Av1InjectionView { tu_index: 0, last_encoded: None, warned_existing: false, warned_mismatch: false }
    }
}

/// The raw bytes of the OBUs that are kept: all but those carrying HDR10+ metadata.
pub fn remove_hdr10plus_obus(obus: &[Obu], validate: bool) -> (r: Vec<u8>)
    ensures
        r@ == kept_bytes(obu_views(obus@), validate),
{
    let ghost v = obu_views(obus@);
    let mut out: Vec<u8> = Vec::new();
    let mut i: usize = 0;
    while i < obus.len()
        invariant
            v == obu_views(obus@),
            i <= v.len(),
            out@ == kept_bytes(v.subrange(0, i as int), validate),
        decreases v.len() - i,
    {
        assert(obus@[i as int]@ == v[i as int]);
        if !is_hdr10plus_obu(&obus[i], validate) {
            append_bytes(&mut out, &obus[i].raw_bytes);
        }
        proof {
            lemma_kept_push(v, 0, i as int, validate);
        }
        i = i + 1;
    }
    assert(v.subrange(0, v.len() as int) =~= v);
    out
}

/// The start code that precedes a NAL unit when it is written.
#[derive(Debug, Clone, Copy, PartialEq, Eq)]
pub enum NaluStartCode {
    Length3,
    Length4,
}

/// A NAL unit kept for writing: its type, its start code and its bytes.
#[derive(Debug)]
pub struct NalBuffer {
    pub nal_type: u8,
    pub start_code: NaluStartCode,
    pub data: Vec<u8>,
}

/// The NAL units of the decoded frame being rebuilt.
#[derive(Debug)]
pub struct FrameBuffer {
    pub frame_number: u64,
    pub nals: Vec<NalBuffer>,
}

/// The index of the first NAL unit among the first `k` that is a slice.
pub open spec fn first_slice(nals: Seq<NalBuffer>, k: nat) -> Option<nat>
    decreases k,
{
    if k == 0 {
        None
    } else {
        match first_slice(nals, (k - 1) as nat) {
            Some(i) => Some(i),
            None => if spec_is_slice_type(nals[k - 1].nal_type) {
                Some((k - 1) as nat)
            } else {
                None
            },
        }
    }
}

/// The metadata frame that a decoded frame receives, and the NAL type it goes in: the
/// frame at the decoded frame's presentation position, or the last one when lengths
/// mismatch; a decoded frame that no frame of the video describes gets the last one in an
/// unspecified NAL type when lengths mismatch.
pub open spec fn spec_frame_metadata(frames: Seq<FrameOrder>, list: Seq<JsonFrameView>, frame_number: u64, mismatched_length: bool) -> Result<(JsonFrameView, u8), InjectError> {
    match frame_index_of(frames, frame_number) {
        Some(fi) => {
            let pn = frames[fi as int].presentation_number;
            let idx = (pn as usize) as int;
            if idx < list.len() {
                Ok((list[idx], NAL_SEI_PREFIX))
            } else if mismatched_length && list.len() > 0 {
                Ok((list.last(), NAL_SEI_PREFIX))
            } else {
                Err(InjectError::NoMetadataForFrame(pn))
            }
        },
        None => if mismatched_length && list.len() > 0 {
            Ok((list.last(), NAL_UNSPEC62))
        } else {
            Err(InjectError::NoSeiForFrame(frame_number))
        },
    }
}

/// The SEI NAL unit to insert in the frame being rebuilt, and the index of its first slice,
/// before which it goes.
pub open spec fn spec_metadata_to_insert(frames: Seq<FrameOrder>, list: Seq<JsonFrameView>, frame_buffer: &FrameBuffer, mismatched_length: bool, validate: bool) -> Result<(nat, u8, Seq<u8>), InjectError> {
    match spec_frame_metadata(frames, list, frame_buffer.frame_number, mismatched_length) {
        Err(e) => Err(e),
        Ok((jm, nal_type)) => match spec_encode_hevc_json(jm, validate) {
            Err(e) => Err(InjectError::Metadata(e)),
            Ok(data) => match first_slice(frame_buffer.nals@, frame_buffer.nals@.len()) {
                Some(i) => Ok((i, nal_type, data)),
                None => Err(InjectError::NoSliceInFrame(frame_buffer.frame_number)),
            },
        },
    }
}

/// The index of the first frame decoded as `d`, if any.
pub(crate) fn find_frame(frames: &[FrameOrder], d: u64) -> (r: Option<usize>)
    ensures
        r is None <==> frame_index_of(frames@, d) is None,
        r matches Some(i) ==> frame_index_of(frames@, d) == Some(i as nat) && i < frames@.len(),
{
    let mut i: usize = 0;
    while i < frames.len()
        invariant
            i <= frames@.len(),
            forall|j: int| 0 <= j < i ==> (#[trigger] frames@[j]).decoded_number != d,
        decreases frames@.len() - i,
    {
        if frames[i].decoded_number == d {
            proof {
                crate::extract::lemma_frame_index_prefix(frames@, i as int, d);
                crate::extract::lemma_frame_index_found(frames@, i as int, frames@.len() as int, d);
                assert(frames@.take(frames@.len() as int) =~= frames@);
            }
            return Some(i);
        }
        i = i + 1;
    }
    proof {
        crate::extract::lemma_frame_index_prefix(frames@, frames@.len() as int, d);
        assert(frames@.take(frames@.len() as int) =~= frames@);
    }
    None
}

/// The index of the first slice NAL unit, if any.
fn find_first_slice(nals: &Vec<NalBuffer>) -> (r: Option<usize>)
    ensures
        r is None <==> first_slice(nals@, nals@.len()) is None,
        r matches Some(i) ==> first_slice(nals@, nals@.len()) == Some(i as nat),
{
    let mut i: usize = 0;
    while i < nals.len()
        invariant
            i <= nals@.len(),
            first_slice(nals@, i as nat) is None,
        decreases nals@.len() - i,
    {
        if crate::sei::is_slice_type(nals[i].nal_type) {
            proof {
                lemma_first_slice_stays(nals@, i as nat, nals@.len());
            }
            return Some(i);
        }
        i = i + 1;
    }
    None
}

proof fn lemma_first_slice_stays(nals: Seq<NalBuffer>, i: nat, k: nat)
    requires
        i < k <= nals.len(),
        first_slice(nals, i) is None,
        spec_is_slice_type(nals[i as int].nal_type),
    ensures
        first_slice(nals, k) == Some(i),
    decreases k,
{
    if k > i + 1 {
        lemma_first_slice_stays(nals, i, (k - 1) as nat);
    }
}

/// The HDR10+ SEI NAL unit for the frame being rebuilt, and the index of its first slice,
/// before which it goes.
pub fn get_metadata_and_index_to_insert(
    frames: &[FrameOrder],
    metadata_list: &[Hdr10PlusJsonMetadata],
    frame_buffer: &FrameBuffer,
    mismatched_length: bool,
    validate: bool,
) -> (r: Result<(usize, NalBuffer), InjectError>)
    ensures
        match spec_metadata_to_insert(frames@, json_views(metadata_list@), frame_buffer, mismatched_length, validate) {
            Ok((i, t, d)) => r matches Ok((idx, nb)) && idx == i && nb.nal_type == t
                && nb.start_code == NaluStartCode::Length4 && nb.data@ == d,
            Err(e) => r matches Err(e2) && e2 == e,
        },
{
    let ghost list = json_views(metadata_list@);
    let n = metadata_list.len();
    let chosen: Result<(usize, u8), InjectError> = match find_frame(frames, frame_buffer.frame_number) {
        Some(fi) => {
            let pn = frames[fi].presentation_number;
            let idx = pn as usize;
            if idx < n {
                Ok((idx, NAL_SEI_PREFIX))
            } else if mismatched_length && n > 0 {
                Ok((n - 1, NAL_SEI_PREFIX))
            } else {
                Err(InjectError::NoMetadataForFrame(pn))
            }
        },
        None => {
            if mismatched_length && n > 0 {
                Ok((n - 1, NAL_UNSPEC62))
            } else {
                Err(InjectError::NoSeiForFrame(frame_buffer.frame_number))
            }
        },
    };
    let (k, nal_type) = match chosen {
        Ok(c) => c,
        Err(e) => return Err(e),
    };
    assert(metadata_list@[k as int]@ == list[k as int]);
    let data = match encode_hevc_from_json(&metadata_list[k], validate) {
        Ok(d) => d,
        Err(e) => return Err(InjectError::Metadata(e)),
    };
    match find_first_slice(&frame_buffer.nals) {
        Some(i) => Ok((i, NalBuffer { nal_type, start_code: NaluStartCode::Length4, data })),
        None => Err(InjectError::NoSliceInFrame(frame_buffer.frame_number)),
    }
}

/// A NAL unit kept for writing, as a value.
pub struct NalBufferView {
    pub nal_type: u8,
    pub start_code: NaluStartCode,
    pub data: Seq<u8>,
}

impl View for NalBuffer {
    type V = NalBufferView;

    open spec fn view(&self) -> NalBufferView {
        NalBufferView { nal_type: self.nal_type, start_code: self.start_code, data: self.data@ }
    }
}

/// The views of a list of NAL buffers.
pub open spec fn nal_views(nals: Seq<NalBuffer>) -> Seq<NalBufferView> {
    nals.map_values(|n: NalBuffer| n@)
}

/// The frame written when a frame is complete: its NAL units with the SEI inserted before
/// its first slice.
pub open spec fn spec_completed_frame(frames: Seq<FrameOrder>, list: Seq<JsonFrameView>, frame_buffer: &FrameBuffer, mismatched_length: bool, validate: bool) -> Result<Seq<NalBufferView>, InjectError> {
    match spec_metadata_to_insert(frames, list, frame_buffer, mismatched_length, validate) {
        Err(e) => Err(e),
        Ok((i, t, d)) => Ok(nal_views(frame_buffer.nals@).insert(
            i as int,
            NalBufferView { nal_type: t, start_code: NaluStartCode::Length4, data: d },
        )),
    }
}

impl FrameBuffer {
    /// Inserts the frame's HDR10+ SEI before its first slice and hands its NAL units out,
    /// leaving the buffer empty.
    fn complete(&mut self, frames: &[FrameOrder], metadata_list: &[Hdr10PlusJsonMetadata], mismatched_length: bool, validate: bool) -> (r: Result<Vec<NalBuffer>, InjectError>)
        ensures
            final(self).frame_number == old(self).frame_number,
            match spec_completed_frame(frames@, json_views(metadata_list@), old(self), mismatched_length, validate) {
                Ok(v) => r matches Ok(out) && nal_views(out@) == v && final(self).nals@.len() == 0,
                Err(e) => r matches Err(e2) && e2 == e,
            },
    {
        let (idx, nb) = get_metadata_and_index_to_insert(frames, metadata_list, self, mismatched_length, validate)?;
        let ghost before = self.nals@;
        let ghost inserted = nb@;
        proof {
            crate::inject::lemma_first_slice_bound(self.nals@, self.nals@.len());
        }
        self.nals.insert(idx, nb);
        let mut out: Vec<NalBuffer> = Vec::new();
        std::mem::swap(&mut out, &mut self.nals);
        assert(nal_views(out@) =~= nal_views(before).insert(idx as int, inserted));
        Ok(out)
    }

    /// Takes in the next NAL unit of the stream, of decoded frame `decoded_frame_index`,
    /// to be written as `nal` (or dropped when `None`). When it starts a new decoded frame,
    /// the buffered frame is completed with its SEI and handed out.
    pub fn push_nal(
        &mut self,
        frames: &[FrameOrder],
        metadata_list: &[Hdr10PlusJsonMetadata],
        mismatched_length: bool,
        validate: bool,
        decoded_frame_index: u64,
        nal: Option<NalBuffer>,
    ) -> (r: Result<Option<Vec<NalBuffer>>, InjectError>)
        ensures
            ({
                let added = match nal {
                    Some(n) => seq![n@],
                    None => seq![],
                };
                if old(self).frame_number != decoded_frame_index {
                    match spec_completed_frame(frames@, json_views(metadata_list@), old(self), mismatched_length, validate) {
                        Ok(v) => r matches Ok(Some(out)) && nal_views(out@) == v
                            && final(self).frame_number == decoded_frame_index
                            && nal_views(final(self).nals@) == added,
                        Err(e) => r matches Err(e2) && e2 == e,
                    }
                } else {
                    r matches Ok(None) && final(self).frame_number == old(self).frame_number
                        && nal_views(final(self).nals@) == nal_views(old(self).nals@) + added
                }
            }),
    {
        let mut written: Option<Vec<NalBuffer>> = None;
        if self.frame_number != decoded_frame_index {
            let out = self.complete(frames, metadata_list, mismatched_length, validate)?;
            self.frame_number = decoded_frame_index;
            written = Some(out);
        }
        let ghost before = self.nals@;
        let ghost added = match &nal {
            Some(n) => seq![n@],
            None => Seq::<NalBufferView>::empty(),
        };
        match nal {
            Some(n) => {
                self.nals.push(n);
            },
            None => {},
        }
        proof {
            assert(nal_views(self.nals@) =~= nal_views(before) + added);
        }
        Ok(written)
    }

    /// At the end of the stream: completes the buffered frame when it holds NAL units and
    /// is not the frame past the last one.
    pub fn finish(&mut self, frames: &[FrameOrder], metadata_list: &[Hdr10PlusJsonMetadata], mismatched_length: bool, validate: bool, total_frames: usize) -> (r: Result<Option<Vec<NalBuffer>>, InjectError>)
        ensures
            if (old(self).frame_number as usize) != total_frames && old(self).nals@.len() > 0 {
                match spec_completed_frame(frames@, json_views(metadata_list@), old(self), mismatched_length, validate) {
                    Ok(v) => r matches Ok(Some(out)) && nal_views(out@) == v,
                    Err(e) => r matches Err(e2) && e2 == e,
                }
            } else {
                r matches Ok(None)
            },
    {
        if (self.frame_number as usize) != total_frames && self.nals.len() > 0 {
            let out = self.complete(frames, metadata_list, mismatched_length, validate)?;
            Ok(Some(out))
        } else {
            Ok(None)
        }
    }
}

proof fn lemma_first_slice_bound(nals: Seq<NalBuffer>, k: nat)
    requires
        k <= nals.len(),
    ensures
        first_slice(nals, k) matches Some(i) ==> i < k,
    decreases k,
{
    if k > 0 {
        lemma_first_slice_bound(nals, (k - 1) as nat);
    }
}


/// The first slice among the first `k` NAL units is a slice, and none before it is.
proof fn lemma_first_slice_shape(nals: Seq<NalBuffer>, k: nat)
    requires
        k <= nals.len(),
    ensures
        first_slice(nals, k) matches Some(i) ==> i < k && spec_is_slice_type(nals[i as int].nal_type)
            && forall|j: int| 0 <= j < i ==> !spec_is_slice_type((#[trigger] nals[j]).nal_type),
        first_slice(nals, k) is None ==> forall|j: int| 0 <= j < k ==> !spec_is_slice_type((#[trigger] nals[j]).nal_type),
    decreases k,
{
    if k > 0 {
        lemma_first_slice_shape(nals, (k - 1) as nat);
    }
}

/// `v` holds the NAL units `nals` in their order, with the SEI of type `t` and bytes `d`
/// at `i`, right before a slice, and no slice before it.
pub open spec fn sei_placed(v: Seq<NalBufferView>, nals: Seq<NalBufferView>, t: u8, d: Seq<u8>, i: int) -> bool {
    &&& 0 <= i && i + 1 < v.len()
    &&& v.remove(i) == nals
    &&& v[i] == (NalBufferView { nal_type: t, start_code: NaluStartCode::Length4, data: d })
    &&& spec_is_slice_type(v[i + 1].nal_type)
    &&& forall|j: int| 0 <= j < i ==> !spec_is_slice_type((#[trigger] v[j]).nal_type)
}

/// A completed frame holds its NAL units in their order, with the HDR10+ SEI NAL unit
/// inserted right before the first slice: no slice comes before the SEI, and a slice
/// follows it.
pub proof fn law_sei_before_first_slice(
    frames: Seq<FrameOrder>,
    list: Seq<JsonFrameView>,
    frame_buffer: &FrameBuffer,
    mismatched_length: bool,
    validate: bool,
)
    ensures
        spec_metadata_to_insert(frames, list, frame_buffer, mismatched_length, validate) matches Ok((i, t, d))
            ==> spec_completed_frame(frames, list, frame_buffer, mismatched_length, validate) matches Ok(v)
            && sei_placed(v, nal_views(frame_buffer.nals@), t, d, i as int),
{
    let nals = frame_buffer.nals@;
    lemma_first_slice_shape(nals, nals.len());
    match spec_metadata_to_insert(frames, list, frame_buffer, mismatched_length, validate) {
        Ok((i, t, d)) => {
            let nb = NalBufferView { nal_type: t, start_code: NaluStartCode::Length4, data: d };
            let v = nal_views(nals).insert(i as int, nb);
            assert(first_slice(nals, nals.len()) == Some(i));
            assert(spec_completed_frame(frames, list, frame_buffer, mismatched_length, validate) == Ok::<Seq<NalBufferView>, InjectError>(v));
            assert(v.remove(i as int) =~= nal_views(nals));
            assert(v[i + 1int] == nals[i as int]@);
            assert forall|j: int| 0 <= j < i implies !spec_is_slice_type((#[trigger] v[j]).nal_type) by {
                assert(v[j] == nals[j]@);
            }
            assert(v[i as int] == nb);
            assert(sei_placed(v, nal_views(nals), t, d, i as int));
        },
        Err(_) => {},
    }
}

} // verus!
