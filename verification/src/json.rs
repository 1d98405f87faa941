//! The JSON scene model of HDR10+ metadata: one entry per frame, scene boundaries and
//! the summary that tools read.
use vstd::prelude::*;

use crate::error::Hdr10PlusError;
use crate::metadata::{
    spec_distribution_index, spec_distribution_values, spec_profile, BezierCurve,
    BezierCurveView, DistributionMaxRgb, Hdr10PlusMetadata, MetadataView,
};

verus! {

/// The whole JSON document.
#[derive(Debug, Default)]
pub struct MetadataJsonRoot {
    pub info: JsonInfo,
    pub scene_info: Vec<Hdr10PlusJsonMetadata>,
    pub scene_info_summary: SceneInfoSummary,
    pub tool_info: ToolInfo,
}

/// `JSONInfo`: the profile of the whole document and the metadata version.
#[derive(Debug, Default)]
pub struct JsonInfo {
    pub profile: String,
    pub version: String,
}

/// One frame of `SceneInfo`.
#[derive(Debug, Default, Clone)]
pub struct Hdr10PlusJsonMetadata {
    pub bezier_curve_data: Option<BezierCurveData>,
    pub luminance_parameters: LuminanceParameters,
    pub number_of_windows: u8,
    pub targeted_system_display_maximum_luminance: u32,
    pub scene_frame_index: usize,
    pub scene_id: usize,
    pub sequence_frame_index: usize,
}

/// `SceneInfoSummary`: where each scene starts and how many frames it holds.
#[derive(Debug, Default)]
pub struct SceneInfoSummary {
    pub scene_first_frame_index: Vec<usize>,
    pub scene_frame_numbers: Vec<usize>,
}

/// `ToolInfo`: the tool that wrote the document.
#[derive(Debug, Default)]
pub struct ToolInfo {
    pub tool: String,
    pub version: String,
}

/// `BezierCurveData` of a frame.
#[derive(Debug, Default, Clone)]
pub struct BezierCurveData {
    pub anchors: Vec<u16>,
    pub knee_point_x: u16,
    pub knee_point_y: u16,
}

/// `LuminanceParameters` of a frame.
#[derive(Debug, Default, Clone)]
pub struct LuminanceParameters {
    pub average_rgb: u32,
    pub luminance_distributions: LuminanceDistributions,
    pub max_scl: Vec<u32>,
}

/// `LuminanceDistributions` of a frame.
#[derive(Debug, Default, Clone)]
pub struct LuminanceDistributions {
    pub distribution_index: Vec<u8>,
    pub distribution_values: Vec<u32>,
}

pub struct BezierCurveDataView {
    pub anchors: Seq<u16>,
    pub knee_point_x: u16,
    pub knee_point_y: u16,
}

pub struct LuminanceDistributionsView {
    pub distribution_index: Seq<u8>,
    pub distribution_values: Seq<u32>,
}

pub struct LuminanceParametersView {
    pub average_rgb: u32,
    pub luminance_distributions: LuminanceDistributionsView,
    pub max_scl: Seq<u32>,
}

pub struct JsonFrameView {
    pub bezier_curve_data: Option<BezierCurveDataView>,
    pub luminance_parameters: LuminanceParametersView,
    pub number_of_windows: u8,
    pub targeted_system_display_maximum_luminance: u32,
    pub scene_frame_index: usize,
    pub scene_id: usize,
    pub sequence_frame_index: usize,
}

impl View for BezierCurveData {
    type V = BezierCurveDataView;

    open spec fn view(&self) -> BezierCurveDataView {
        BezierCurveDataView { anchors: self.anchors@, knee_point_x: self.knee_point_x, knee_point_y: self.knee_point_y }
    }
}

impl View for LuminanceDistributions {
    type V = LuminanceDistributionsView;

    open spec fn view(&self) -> LuminanceDistributionsView {
        LuminanceDistributionsView {
            distribution_index: self.distribution_index@,
            distribution_values: self.distribution_values@,
        }
    }
}

impl View for LuminanceParameters {
    type V = LuminanceParametersView;

    open spec fn view(&self) -> LuminanceParametersView {
        LuminanceParametersView {
            average_rgb: self.average_rgb,
            luminance_distributions: self.luminance_distributions@,
            max_scl: self.max_scl@,
        }
    }
}

impl View for Hdr10PlusJsonMetadata {
    type V = JsonFrameView;

    open spec fn view(&self) -> JsonFrameView {
        JsonFrameView {
            bezier_curve_data: match self.bezier_curve_data {
                Some(b) => Some(b@),
                None => None,
            },
            luminance_parameters: self.luminance_parameters@,
            number_of_windows: self.number_of_windows,
            targeted_system_display_maximum_luminance: self.targeted_system_display_maximum_luminance,
            scene_frame_index: self.scene_frame_index,
            scene_id: self.scene_id,
            sequence_frame_index: self.sequence_frame_index,
        }
    }
}

/// A copy of a vector of `u8`.
pub fn copy_u8s(v: &[u8]) -> (r: Vec<u8>)
    ensures
        r@ == v@,
{
    let mut r: Vec<u8> = Vec::new();
    let mut i: usize = 0;
    while i < v.len()
        invariant
            i <= v@.len(),
            r@ == v@.take(i as int),
        decreases v@.len() - i,
    {
        r.push(v[i]);
        proof {
            assert(v@.take(i + 1) =~= v@.take(i as int).push(v@[i as int]));
        }
        i = i + 1;
    }
    assert(v@.take(i as int) =~= v@);
    r
}

/// A copy of a vector of `u16`.
pub fn copy_u16s(v: &[u16]) -> (r: Vec<u16>)
    ensures
        r@ == v@,
{
    let mut r: Vec<u16> = Vec::new();
    let mut i: usize = 0;
    while i < v.len()
        invariant
            i <= v@.len(),
            r@ == v@.take(i as int),
        decreases v@.len() - i,
    {
        r.push(v[i]);
        proof {
            assert(v@.take(i + 1) =~= v@.take(i as int).push(v@[i as int]));
        }
        i = i + 1;
    }
    assert(v@.take(i as int) =~= v@);
    r
}

/// A copy of a vector of `u32`.
pub fn copy_u32s(v: &[u32]) -> (r: Vec<u32>)
    ensures
        r@ == v@,
{
    let mut r: Vec<u32> = Vec::new();
    let mut i: usize = 0;
    while i < v.len()
        invariant
            i <= v@.len(),
            r@ == v@.take(i as int),
        decreases v@.len() - i,
    {
        r.push(v[i]);
        proof {
            assert(v@.take(i + 1) =~= v@.take(i as int).push(v@[i as int]));
        }
        i = i + 1;
    }
    assert(v@.take(i as int) =~= v@);
    r
}

/// Two `u8` sequences are equal.
pub fn eq_u8s(a: &[u8], b: &[u8]) -> (r: bool)
    ensures
        r == (a@ == b@),
{
    if a.len() != b.len() {
        return false;
    }
    let mut i: usize = 0;
    while i < a.len()
        invariant
            a@.len() == b@.len(),
            i <= a@.len(),
            forall|k: int| 0 <= k < i ==> a@[k] == b@[k],
        decreases a@.len() - i,
    {
        if a[i] != b[i] {
            assert(a@[i as int] != b@[i as int]);
            return false;
        }
        i = i + 1;
    }
    assert(a@ =~= b@);
    true
}

/// Two `u16` sequences are equal.
pub fn eq_u16s(a: &[u16], b: &[u16]) -> (r: bool)
    ensures
        r == (a@ == b@),
{
    if a.len() != b.len() {
        return false;
    }
    let mut i: usize = 0;
    while i < a.len()
        invariant
            a@.len() == b@.len(),
            i <= a@.len(),
            forall|k: int| 0 <= k < i ==> a@[k] == b@[k],
        decreases a@.len() - i,
    {
        if a[i] != b[i] {
            assert(a@[i as int] != b@[i as int]);
            return false;
        }
        i = i + 1;
    }
    assert(a@ =~= b@);
    true
}

/// Two `u32` sequences are equal.
pub fn eq_u32s(a: &[u32], b: &[u32]) -> (r: bool)
    ensures
        r == (a@ == b@),
{
    if a.len() != b.len() {
        return false;
    }
    let mut i: usize = 0;
    while i < a.len()
        invariant
            a@.len() == b@.len(),
            i <= a@.len(),
            forall|k: int| 0 <= k < i ==> a@[k] == b@[k],
        decreases a@.len() - i,
    {
        if a[i] != b[i] {
            assert(a@[i as int] != b@[i as int]);
            return false;
        }
        i = i + 1;
    }
    assert(a@ =~= b@);
    true
}

impl DistributionMaxRgb {
    /// The list as the JSON `LuminanceDistributions`: its percentages and its percentiles.
    pub fn separate_json(list: &[Self]) -> (r: LuminanceDistributions)
        ensures
            r@.distribution_index == spec_distribution_index(list@),
            r@.distribution_values == spec_distribution_values(list@),
    {
        LuminanceDistributions {
            distribution_index: Self::distribution_index(list),
            distribution_values: Self::distribution_values(list),
        }
    }
}

impl BezierCurve {
    /// The curve as the JSON `BezierCurveData`: its anchors and knee point.
    pub fn to_json(&self) -> (r: BezierCurveData)
        ensures
            r@ == (BezierCurveDataView {
                anchors: self.bezier_curve_anchors@,
                knee_point_x: self.knee_point_x,
                knee_point_y: self.knee_point_y,
            }),
    {
        BezierCurveData {
            anchors: copy_u16s(self.bezier_curve_anchors.as_slice()),
            knee_point_x: self.knee_point_x,
            knee_point_y: self.knee_point_y,
        }
    }
}

/// The distribution entries paired from a JSON frame's indexes and values.
pub open spec fn spec_zip_distribution(index: Seq<u8>, values: Seq<u32>) -> Seq<DistributionMaxRgb> {
    Seq::new(index.len(), |i: int| DistributionMaxRgb { percentage: index[i], percentile: values[i] })
}

/// Why a JSON frame cannot be turned into metadata, if it cannot.
pub open spec fn spec_json_frame_error(jm: JsonFrameView) -> Option<Hdr10PlusError> {
    let lp = jm.luminance_parameters;
    let d = lp.luminance_distributions;
    if lp.max_scl.len() != 3 {
        Some(Hdr10PlusError::InvalidMaxSclLength)
    } else if d.distribution_index.len() != d.distribution_values.len() {
        Some(Hdr10PlusError::DistributionLengthMismatch)
    } else if d.distribution_index.len() > 10 {
        Some(Hdr10PlusError::DistributionIndexTooLong)
    } else if d.distribution_values.len() > 10 {
        Some(Hdr10PlusError::DistributionValuesTooLong)
    } else {
        None
    }
}

/// The metadata that a JSON frame stands for, before its profile is set: the HDR10+
/// T.35 header, application 4 version 1, and tone mapping exactly when the frame has
/// Bezier curve data.
pub open spec fn spec_json_frame_fields(jm: JsonFrameView) -> MetadataView {
    let lp = jm.luminance_parameters;
    let d = lp.luminance_distributions;
    MetadataView {
        profile: seq![],
        itu_t_t35_country_code: 0xB5,
        itu_t_t35_terminal_provider_code: 0x3C,
        itu_t_t35_terminal_provider_oriented_code: 1,
        application_identifier: 4,
        application_version: 1,
        num_windows: jm.number_of_windows,
        processing_windows: None,
        targeted_system_display_maximum_luminance: jm.targeted_system_display_maximum_luminance,
        targeted_system_display_actual_peak_luminance_flag: false,
        actual_targeted_system_display: None,
        maxscl: lp.max_scl,
        average_maxrgb: lp.average_rgb,
        num_distribution_maxrgb_percentiles: d.distribution_index.len() as u8,
        distribution_maxrgb: spec_zip_distribution(d.distribution_index, d.distribution_values),
        fraction_bright_pixels: 0,
        mastering_display_actual_peak_luminance_flag: false,
        actual_mastering_display: None,
        tone_mapping_flag: jm.bezier_curve_data is Some,
        bezier_curve: match jm.bezier_curve_data {
            Some(b) => Some(BezierCurveView {
                knee_point_x: b.knee_point_x,
                knee_point_y: b.knee_point_y,
                num_bezier_curve_anchors: b.anchors.len() as u8,
                bezier_curve_anchors: b.anchors,
            }),
            None => None,
        },
        color_saturation_mapping_flag: false,
        color_saturation_weight: 0,
    }
}

/// The metadata that a JSON frame stands for, with its profile.
pub open spec fn spec_from_json_frame(jm: JsonFrameView) -> MetadataView {
    let m = spec_json_frame_fields(jm);
    MetadataView { profile: spec_profile(m), ..m }
}

impl Hdr10PlusMetadata {
    /// Builds the metadata that a JSON frame stands for.
    pub fn try_from(jm: &Hdr10PlusJsonMetadata) -> (r: Result<Hdr10PlusMetadata, Hdr10PlusError>)
        ensures
            match spec_json_frame_error(jm@) {
                Some(e) => r == Err::<Hdr10PlusMetadata, Hdr10PlusError>(e),
                None => r matches Ok(m) && m@ == spec_from_json_frame(jm@),
            },
    {
        let lp = &jm.luminance_parameters;
        let dists = &lp.luminance_distributions;
        if lp.max_scl.len() != 3 {
            return Err(Hdr10PlusError::InvalidMaxSclLength);
        }
        let maxscl = [lp.max_scl[0], lp.max_scl[1], lp.max_scl[2]];
        if dists.distribution_index.len() != dists.distribution_values.len() {
            return Err(Hdr10PlusError::DistributionLengthMismatch);
        }
        if dists.distribution_index.len() > 10 {
            return Err(Hdr10PlusError::DistributionIndexTooLong);
        }
        if dists.distribution_values.len() > 10 {
            return Err(Hdr10PlusError::DistributionValuesTooLong);
        }
        let mut distribution_parsed: Vec<DistributionMaxRgb> = Vec::new();
        let mut i: usize = 0;
        while i < dists.distribution_index.len()
            invariant
                dists.distribution_index@.len() == dists.distribution_values@.len(),
                i <= dists.distribution_index@.len(),
                distribution_parsed@ == spec_zip_distribution(
                    dists.distribution_index@.take(i as int),
                    dists.distribution_values@.take(i as int),
                ),
            decreases dists.distribution_index@.len() - i,
        {
            distribution_parsed.push(
                DistributionMaxRgb {
                    percentage: dists.distribution_index[i],
                    percentile: dists.distribution_values[i],
                },
            );
            proof {
                assert(distribution_parsed@ =~= spec_zip_distribution(
                    dists.distribution_index@.take(i + 1),
                    dists.distribution_values@.take(i + 1),
                ));
            }
            i = i + 1;
        }
        proof {
            assert(dists.distribution_index@.take(i as int) =~= dists.distribution_index@);
            assert(dists.distribution_values@.take(i as int) =~= dists.distribution_values@);
        }
        let tone_mapping_flag = jm.bezier_curve_data.is_some();
        let bezier_curve = match &jm.bezier_curve_data {
            Some(bcd) => Some(
                BezierCurve {
                    knee_point_x: bcd.knee_point_x,
                    knee_point_y: bcd.knee_point_y,
                    num_bezier_curve_anchors: bcd.anchors.len() as u8,
                    bezier_curve_anchors: copy_u16s(bcd.anchors.as_slice()),
                },
            ),
            None => None,
        };
        let mut meta = Hdr10PlusMetadata {
            profile: String::new(),
            itu_t_t35_country_code: 0xB5,
            itu_t_t35_terminal_provider_code: 0x3C,
            itu_t_t35_terminal_provider_oriented_code: 1,
            application_identifier: 4,
            application_version: 1,
            num_windows: jm.number_of_windows,
            processing_windows: None,
            targeted_system_display_maximum_luminance: jm.targeted_system_display_maximum_luminance,
            targeted_system_display_actual_peak_luminance_flag: false,
            actual_targeted_system_display: None,
            maxscl,
            average_maxrgb: lp.average_rgb,
            num_distribution_maxrgb_percentiles: dists.distribution_index.len() as u8,
            distribution_maxrgb: distribution_parsed,
            fraction_bright_pixels: 0,
            mastering_display_actual_peak_luminance_flag: false,
            actual_mastering_display: None,
            tone_mapping_flag,
            bezier_curve,
            color_saturation_mapping_flag: false,
            color_saturation_weight: 0,
        };
        assert(meta@.maxscl =~= jm@.luminance_parameters.max_scl);
        assert(meta@ == spec_json_frame_fields(jm@));
        meta.set_profile();
        Ok(meta)
    }
}

/// Whether frame `cur` starts a new scene after `prev`: its luminance parameters, window
/// count or target luminance differ, or, in profile B, its Bezier curve data.
pub open spec fn scene_changed(prev: JsonFrameView, cur: JsonFrameView, profile_b: bool) -> bool {
    ||| (profile_b && prev.bezier_curve_data != cur.bezier_curve_data)
    ||| prev.luminance_parameters != cur.luminance_parameters
    ||| prev.number_of_windows != cur.number_of_windows
    ||| prev.targeted_system_display_maximum_luminance != cur.targeted_system_display_maximum_luminance
}

/// `(scene_id, scene_frame_index)` of frame `i`: the scene id grows by one, and the index
/// within the scene restarts at 0, at every scene change.
pub open spec fn scene_state(frames: Seq<JsonFrameView>, profile_b: bool, i: nat) -> (nat, nat)
    decreases i,
{
    if i == 0 {
        (0, 0)
    } else {
        let (sid, sfi) = scene_state(frames, profile_b, (i - 1) as nat);
        if scene_changed(frames[i - 1], frames[i as int], profile_b) {
            (sid + 1, 0)
        } else {
            (sid, sfi + 1)
        }
    }
}

/// The frames with their scene fields filled in.
pub open spec fn spec_with_scenes(frames: Seq<JsonFrameView>, profile_b: bool) -> Seq<JsonFrameView> {
    Seq::new(
        frames.len(),
        |i: int|
            JsonFrameView {
                scene_frame_index: scene_state(frames, profile_b, i as nat).1 as usize,
                scene_id: scene_state(frames, profile_b, i as nat).0 as usize,
                sequence_frame_index: i as usize,
                ..frames[i]
            },
    )
}

pub proof fn lemma_scene_state_bound(frames: Seq<JsonFrameView>, b: bool, i: nat)
    ensures
        scene_state(frames, b, i).0 <= i,
        scene_state(frames, b, i).1 <= i,
    decreases i,
{
    if i > 0 {
        lemma_scene_state_bound(frames, b, (i - 1) as nat);
    }
}

/// Frames are numbered by position; scene ids start at 0 and grow by one exactly where a
/// frame differs from the one before it, where the index within the scene restarts at 0;
/// elsewhere the index within the scene grows by one. The other fields are kept.
pub proof fn law_scene_numbering(frames: Seq<JsonFrameView>, profile_b: bool)
    requires
        frames.len() <= usize::MAX,
    ensures
        spec_with_scenes(frames, profile_b).len() == frames.len(),
        frames.len() > 0 ==> spec_with_scenes(frames, profile_b)[0].scene_id == 0
            && spec_with_scenes(frames, profile_b)[0].scene_frame_index == 0,
        forall|i: int| 0 <= i < frames.len() ==> {
            let f = #[trigger] spec_with_scenes(frames, profile_b)[i];
            &&& f.sequence_frame_index == i
            &&& f.bezier_curve_data == frames[i].bezier_curve_data
            &&& f.luminance_parameters == frames[i].luminance_parameters
            &&& f.number_of_windows == frames[i].number_of_windows
            &&& f.targeted_system_display_maximum_luminance == frames[i].targeted_system_display_maximum_luminance
        },
        forall|i: int| 0 < i < frames.len() ==> {
            let prev = spec_with_scenes(frames, profile_b)[i - 1];
            let cur = #[trigger] spec_with_scenes(frames, profile_b)[i];
            if scene_changed(frames[i - 1], frames[i], profile_b) {
                cur.scene_id == prev.scene_id + 1 && cur.scene_frame_index == 0
            } else {
                cur.scene_id == prev.scene_id && cur.scene_frame_index == prev.scene_frame_index + 1
            }
        },
{
    let out = spec_with_scenes(frames, profile_b);
    assert forall|i: int| 0 < i < frames.len() implies {
        let prev = out[i - 1];
        let cur = #[trigger] out[i];
        if scene_changed(frames[i - 1], frames[i], profile_b) {
            cur.scene_id == prev.scene_id + 1 && cur.scene_frame_index == 0
        } else {
            cur.scene_id == prev.scene_id && cur.scene_frame_index == prev.scene_frame_index + 1
        }
    } by {
        lemma_scene_state_bound(frames, profile_b, i as nat);
        lemma_scene_state_bound(frames, profile_b, (i - 1) as nat);
    }
}

/// A new scene starts at frame `i` exactly when, against frame `i - 1`, its AverageRGB, its
/// distribution indexes, its distribution values, its MaxSCL, its window count or its target
/// luminance differ, or, in profile B, its Bezier curve data differ: there its scene id grows
/// by one and its index within the scene is 0; elsewhere it keeps the scene id and the
/// index within the scene grows by one.
pub proof fn law_scene_starts_where_fields_differ(frames: Seq<JsonFrameView>, profile_b: bool)
    requires
        frames.len() <= usize::MAX,
    ensures
        forall|i: int| 0 < i < frames.len() ==> {
            let prev = frames[i - 1];
            let cur = frames[i];
            let differ = (profile_b && prev.bezier_curve_data != cur.bezier_curve_data)
                || prev.luminance_parameters.average_rgb != cur.luminance_parameters.average_rgb
                || prev.luminance_parameters.luminance_distributions.distribution_index
                    != cur.luminance_parameters.luminance_distributions.distribution_index
                || prev.luminance_parameters.luminance_distributions.distribution_values
                    != cur.luminance_parameters.luminance_distributions.distribution_values
                || prev.luminance_parameters.max_scl != cur.luminance_parameters.max_scl
                || prev.number_of_windows != cur.number_of_windows
                || prev.targeted_system_display_maximum_luminance != cur.targeted_system_display_maximum_luminance;
            &&& (#[trigger] spec_with_scenes(frames, profile_b)[i]).scene_id == (if differ { spec_with_scenes(frames, profile_b)[i - 1].scene_id + 1 } else { spec_with_scenes(frames, profile_b)[i - 1].scene_id as int })
            &&& spec_with_scenes(frames, profile_b)[i].scene_frame_index == (if differ { 0 } else { spec_with_scenes(frames, profile_b)[i - 1].scene_frame_index + 1 })
        },
{
    law_scene_numbering(frames, profile_b);
    assert forall|i: int| 0 < i < frames.len() implies {
        let prev = frames[i - 1];
        let cur = frames[i];
        let differ = (profile_b && prev.bezier_curve_data != cur.bezier_curve_data)
            || prev.luminance_parameters.average_rgb != cur.luminance_parameters.average_rgb
            || prev.luminance_parameters.luminance_distributions.distribution_index
                != cur.luminance_parameters.luminance_distributions.distribution_index
            || prev.luminance_parameters.luminance_distributions.distribution_values
                != cur.luminance_parameters.luminance_distributions.distribution_values
            || prev.luminance_parameters.max_scl != cur.luminance_parameters.max_scl
            || prev.number_of_windows != cur.number_of_windows
            || prev.targeted_system_display_maximum_luminance != cur.targeted_system_display_maximum_luminance;
        &&& (#[trigger] spec_with_scenes(frames, profile_b)[i]).scene_id == (if differ { spec_with_scenes(frames, profile_b)[i - 1].scene_id + 1 } else { spec_with_scenes(frames, profile_b)[i - 1].scene_id as int })
        &&& spec_with_scenes(frames, profile_b)[i].scene_frame_index == (if differ { 0 } else { spec_with_scenes(frames, profile_b)[i - 1].scene_frame_index + 1 })
    } by {
        let pl = frames[i - 1].luminance_parameters;
        let cl = frames[i].luminance_parameters;
        if pl.average_rgb == cl.average_rgb
            && pl.luminance_distributions.distribution_index == cl.luminance_distributions.distribution_index
            && pl.luminance_distributions.distribution_values == cl.luminance_distributions.distribution_values
            && pl.max_scl == cl.max_scl {
            assert(pl.luminance_distributions == cl.luminance_distributions);
            assert(pl == cl);
        }
    }
}

fn copy_bezier_data(b: &BezierCurveData) -> (r: BezierCurveData)
    ensures
        r@ == b@,
{
    BezierCurveData { anchors: copy_u16s(b.anchors.as_slice()), knee_point_x: b.knee_point_x, knee_point_y: b.knee_point_y }
}

fn copy_luminance(lp: &LuminanceParameters) -> (r: LuminanceParameters)
    ensures
        r@ == lp@,
{
    LuminanceParameters {
        average_rgb: lp.average_rgb,
        luminance_distributions: LuminanceDistributions {
            distribution_index: copy_u8s(lp.luminance_distributions.distribution_index.as_slice()),
            distribution_values: copy_u32s(lp.luminance_distributions.distribution_values.as_slice()),
        },
        max_scl: copy_u32s(lp.max_scl.as_slice()),
    }
}

impl Hdr10PlusJsonMetadata {
    /// A copy of the frame with the given scene fields.
    fn with_scene_fields(&self, scene_frame_index: usize, scene_id: usize, sequence_frame_index: usize) -> (r: Self)
        ensures
            r@ == (JsonFrameView { scene_frame_index, scene_id, sequence_frame_index, ..self@ }),
    {
        Hdr10PlusJsonMetadata {
            bezier_curve_data: match &self.bezier_curve_data {
                Some(b) => Some(copy_bezier_data(b)),
                None => None,
            },
            luminance_parameters: copy_luminance(&self.luminance_parameters),
            number_of_windows: self.number_of_windows,
            targeted_system_display_maximum_luminance: self.targeted_system_display_maximum_luminance,
            scene_frame_index,
            scene_id,
            sequence_frame_index,
        }
    }
}

/// Whether frame `cur` starts a new scene after `prev`.
fn frames_differ(prev: &Hdr10PlusJsonMetadata, cur: &Hdr10PlusJsonMetadata, profile_b: bool) -> (r: bool)
    ensures
        r == scene_changed(prev@, cur@, profile_b),
{
    let different_bezier = if profile_b {
        match (&prev.bezier_curve_data, &cur.bezier_curve_data) {
            (Some(a), Some(b)) => !(eq_u16s(a.anchors.as_slice(), b.anchors.as_slice())
                && a.knee_point_x == b.knee_point_x && a.knee_point_y == b.knee_point_y),
            (None, None) => false,
            _ => true,
        }
    } else {
        false
    };
    let pl = &prev.luminance_parameters;
    let cl = &cur.luminance_parameters;
    let different_luminance = !(pl.average_rgb == cl.average_rgb && eq_u8s(
        pl.luminance_distributions.distribution_index.as_slice(),
        cl.luminance_distributions.distribution_index.as_slice(),
    ) && eq_u32s(
        pl.luminance_distributions.distribution_values.as_slice(),
        cl.luminance_distributions.distribution_values.as_slice(),
    ) && eq_u32s(pl.max_scl.as_slice(), cl.max_scl.as_slice()));
    let different_windows = prev.number_of_windows != cur.number_of_windows;
    let different_target = prev.targeted_system_display_maximum_luminance
        != cur.targeted_system_display_maximum_luminance;
    different_bezier || different_luminance || different_windows || different_target
}

/// Whether a profile name is "B".
fn is_profile_b(profile: &str) -> (r: bool)
    ensures
        r == (profile@ == seq!['B']),
{
    if profile.unicode_len() == 1 {
        let c = profile.get_char(0);
        if c == 'B' {
            assert(profile@ =~= seq!['B']);
            true
        } else {
            false
        }
    } else {
        false
    }
}

/// Fills in each frame's scene id, index within its scene and index in the sequence. A new
/// scene starts at every frame whose luminance parameters, window count or target luminance
/// differ from the previous frame's, or, in profile "B", whose Bezier curve data differ.
pub fn compute_scene_information(profile: &str, metadata_json_array: &mut Vec<Hdr10PlusJsonMetadata>)
    ensures
        final(metadata_json_array)@.len() == old(metadata_json_array)@.len(),
        forall|i: int| 0 <= i < old(metadata_json_array)@.len() ==> #[trigger] final(metadata_json_array)@[i]@
            == spec_with_scenes(
                old(metadata_json_array)@.map_values(|f: Hdr10PlusJsonMetadata| f@),
                profile@ == seq!['B'],
            )[i],
{
    let profile_b = is_profile_b(profile);
    let ghost frames = old(metadata_json_array)@.map_values(|f: Hdr10PlusJsonMetadata| f@);
    let ghost target = spec_with_scenes(frames, profile_b);
    let mut scene_frame_index: usize = 0;
    let mut scene_id: usize = 0;
    let mut index: usize = 0;
    while index < metadata_json_array.len()
        invariant
            frames == old(metadata_json_array)@.map_values(|f: Hdr10PlusJsonMetadata| f@),
            target == spec_with_scenes(frames, profile_b),
            metadata_json_array@.len() == frames.len(),
            index <= frames.len(),
            index == 0 ==> scene_id == 0 && scene_frame_index == 0,
            index > 0 ==> scene_state(frames, profile_b, (index - 1) as nat) == (scene_id as nat, scene_frame_index as nat),
            forall|i: int| 0 <= i < index ==> #[trigger] metadata_json_array@[i]@ == target[i],
            forall|i: int| index <= i < frames.len() ==> #[trigger] metadata_json_array@[i]@ == frames[i],
        decreases frames.len() - index,
    {
        proof {
            lemma_scene_state_bound(frames, profile_b, index as nat);
        }
        if index > 0 {
            let changed = {
                let prev = &metadata_json_array[index - 1];
                let cur = &metadata_json_array[index];
                let ghost pv = frames[index - 1];
                let d = frames_differ(prev, cur, profile_b);
                proof {
                    let a = JsonFrameView {
                        scene_frame_index: prev@.scene_frame_index,
                        scene_id: prev@.scene_id,
                        sequence_frame_index: prev@.sequence_frame_index,
                        ..pv
                    };
                    assert(prev@ == a);
                    assert(scene_changed(prev@, cur@, profile_b) == scene_changed(pv, frames[index as int], profile_b));
                }
                d
            };
            assert(changed == scene_changed(frames[index - 1], frames[index as int], profile_b));
            if changed {
                scene_id = scene_id + 1;
                scene_frame_index = 0;
            } else {
                scene_frame_index = scene_frame_index + 1;
            }
        }
        assert(scene_state(frames, profile_b, index as nat) == (scene_id as nat, scene_frame_index as nat));
        let updated = metadata_json_array[index].with_scene_fields(scene_frame_index, scene_id, index);
        metadata_json_array.set(index, updated);
        index = index + 1;
    }
}

/// The profile of a list of metadata: "B" when every frame is profile B, else "A" when
/// every frame is profile A, else "N/A".
pub open spec fn spec_list_profile(list: Seq<MetadataView>) -> Seq<char> {
    if forall|i: int| 0 <= i < list.len() ==> #[trigger] list[i].profile == seq!['B'] {
        seq!['B']
    } else if forall|i: int| 0 <= i < list.len() ==> #[trigger] list[i].profile == seq!['A'] {
        seq!['A']
    } else {
        seq!['N', '/', 'A']
    }
}

/// The views of a list of metadata.
pub open spec fn metadata_views(list: Seq<&Hdr10PlusMetadata>) -> Seq<MetadataView> {
    list.map_values(|m: &Hdr10PlusMetadata| m@)
}

/// The JSON frame of one metadata, with its Bezier curve data when `with_bezier`, and zero
/// scene fields.
pub open spec fn spec_frame_json(m: MetadataView, with_bezier: bool) -> JsonFrameView {
    JsonFrameView {
        bezier_curve_data: if with_bezier {
            match m.bezier_curve {
                Some(bc) => Some(BezierCurveDataView {
                    anchors: bc.bezier_curve_anchors,
                    knee_point_x: bc.knee_point_x,
                    knee_point_y: bc.knee_point_y,
                }),
                None => None,
            }
        } else {
            None
        },
        luminance_parameters: LuminanceParametersView {
            average_rgb: m.average_maxrgb,
            luminance_distributions: LuminanceDistributionsView {
                distribution_index: spec_distribution_index(m.distribution_maxrgb),
                distribution_values: spec_distribution_values(m.distribution_maxrgb),
            },
            max_scl: m.maxscl,
        },
        number_of_windows: m.num_windows,
        targeted_system_display_maximum_luminance: m.targeted_system_display_maximum_luminance,
        scene_frame_index: 0,
        scene_id: 0,
        sequence_frame_index: 0,
    }
}

/// The JSON frames of a list of metadata, with their scene fields: frames carry Bezier
/// curve data unless the list is profile A.
pub open spec fn spec_json_frames(list: Seq<MetadataView>) -> Seq<JsonFrameView> {
    let profile = spec_list_profile(list);
    spec_with_scenes(
        Seq::new(list.len(), |i: int| spec_frame_json(list[i], profile != seq!['A'])),
        profile == seq!['B'],
    )
}

/// Outside profile A every frame must hold a Bezier curve, since its JSON carries one.
pub open spec fn json_list_ready(list: Seq<MetadataView>) -> bool {
    spec_list_profile(list) != seq!['A'] ==> forall|i: int| 0 <= i < list.len() ==> (#[trigger] list[i]).bezier_curve is Some
}

fn profile_is(m: &Hdr10PlusMetadata, name: &String) -> (r: bool)
    ensures
        r == (m.profile@ == name@),
{
    m.profile == *name
}

/// The JSON frame of one metadata.
fn frame_json(m: &Hdr10PlusMetadata, with_bezier: bool) -> (r: Hdr10PlusJsonMetadata)
    requires
        with_bezier ==> m.bezier_curve is Some,
    ensures
        r@ == spec_frame_json(m@, with_bezier),
{
    let bezier_curve_data = if with_bezier {
        match &m.bezier_curve {
            Some(bc) => Some(bc.to_json()),
            None => None,
        }
    } else {
        None
    };
    let r = Hdr10PlusJsonMetadata {
        bezier_curve_data,
        luminance_parameters: LuminanceParameters {
            average_rgb: m.average_maxrgb,
            luminance_distributions: DistributionMaxRgb::separate_json(m.distribution_maxrgb.as_slice()),
            max_scl: vec![m.maxscl[0], m.maxscl[1], m.maxscl[2]],
        },
        number_of_windows: m.num_windows,
        targeted_system_display_maximum_luminance: m.targeted_system_display_maximum_luminance,
        scene_frame_index: 0,
        scene_id: 0,
        sequence_frame_index: 0,
    };
    assert(r@.luminance_parameters.max_scl =~= m@.maxscl);
    r
}

/// Whether a list can be written as JSON frames: in profile A no frame needs a Bezier
/// curve; in any other profile every frame must hold one.
pub fn json_list_writable(list: &[&Hdr10PlusMetadata]) -> (r: bool)
    ensures
        r == json_list_ready(metadata_views(list@)),
{
    let ghost views = metadata_views(list@);
    let b_name = "B".to_owned();
    let a_name = "A".to_owned();
    proof {
        reveal_strlit("B");
        reveal_strlit("A");
    }
    let mut all_b = true;
    let mut all_a = true;
    let mut all_curves = true;
    let mut i: usize = 0;
    while i < list.len()
        invariant
            views == metadata_views(list@),
            b_name@ == seq!['B'],
            a_name@ == seq!['A'],
            i <= list@.len(),
            all_b == forall|k: int| 0 <= k < i ==> #[trigger] views[k].profile == seq!['B'],
            all_a == forall|k: int| 0 <= k < i ==> #[trigger] views[k].profile == seq!['A'],
            all_curves == forall|k: int| 0 <= k < i ==> (#[trigger] views[k]).bezier_curve is Some,
        decreases list@.len() - i,
    {
        let is_b = profile_is(list[i], &b_name);
        let is_a = profile_is(list[i], &a_name);
        let has_curve = list[i].bezier_curve.is_some();
        proof {
            if !is_b {
                assert(views[i as int].profile != seq!['B']);
            }
            if !is_a {
                assert(views[i as int].profile != seq!['A']);
            }
            if !has_curve {
                assert(views[i as int].bezier_curve is None);
            }
        }
        all_b = all_b && is_b;
        all_a = all_a && is_a;
        all_curves = all_curves && has_curve;
        i = i + 1;
    }
    assert(seq!['B'][0] != seq!['A'][0]);
    assert(seq!['B'] != seq!['A']);
    assert(seq!['N', '/', 'A'].len() != seq!['A'].len());
    assert(seq!['N', '/', 'A'] != seq!['A']);
    (!all_b && all_a) || all_curves
}

/// The profile of the list and its JSON frames, scene fields included.
pub fn json_list(list: &[&Hdr10PlusMetadata]) -> (r: (String, Vec<Hdr10PlusJsonMetadata>))
    requires
        json_list_ready(metadata_views(list@)),
    ensures
        r.0@ == spec_list_profile(metadata_views(list@)),
        r.1@.map_values(|f: Hdr10PlusJsonMetadata| f@) == spec_json_frames(metadata_views(list@)),
{
    let ghost views = metadata_views(list@);
    let b_name = "B".to_owned();
    let a_name = "A".to_owned();
    proof {
        reveal_strlit("B");
        reveal_strlit("A");
        reveal_strlit("N/A");
    }
    let mut all_b = true;
    let mut all_a = true;
    let mut i: usize = 0;
    while i < list.len()
        invariant
            views == metadata_views(list@),
            b_name@ == seq!['B'],
            a_name@ == seq!['A'],
            i <= list@.len(),
            all_b == forall|k: int| 0 <= k < i ==> #[trigger] views[k].profile == seq!['B'],
            all_a == forall|k: int| 0 <= k < i ==> #[trigger] views[k].profile == seq!['A'],
        decreases list@.len() - i,
    {
        let is_b = profile_is(list[i], &b_name);
        let is_a = profile_is(list[i], &a_name);
        proof {
            if !is_b {
                assert(views[i as int].profile != seq!['B']);
            }
            if !is_a {
                assert(views[i as int].profile != seq!['A']);
            }
        }
        all_b = all_b && is_b;
        all_a = all_a && is_a;
        i = i + 1;
    }
    let profile: &str = if all_b {
        "B"
    } else if all_a {
        "A"
    } else {
        "N/A"
    };
    assert(profile@ == spec_list_profile(views));
    assert(seq!['B'][0] != seq!['A'][0]);
    assert(seq!['B'] != seq!['A']);
    assert(seq!['N', '/', 'A'].len() != seq!['A'].len());
    assert(seq!['N', '/', 'A'] != seq!['A']);
    let is_a = !all_b && all_a;
    let with_bezier = !is_a;
    assert(with_bezier == (spec_list_profile(views) != seq!['A']));
    let ghost base = Seq::new(views.len(), |k: int| spec_frame_json(views[k], with_bezier));
    let mut frames: Vec<Hdr10PlusJsonMetadata> = Vec::new();
    let mut j: usize = 0;
    while j < list.len()
        invariant
            views == metadata_views(list@),
            json_list_ready(views),
            with_bezier == (spec_list_profile(views) != seq!['A']),
            base == Seq::new(views.len(), |k: int| spec_frame_json(views[k], with_bezier)),
            j <= list@.len(),
            frames@.len() == j,
            forall|k: int| 0 <= k < j ==> #[trigger] frames@[k]@ == base[k],
        decreases list@.len() - j,
    {
        assert(with_bezier ==> views[j as int].bezier_curve is Some);
        let f = frame_json(list[j], with_bezier);
        frames.push(f);
        j = j + 1;
    }
    assert(frames@.map_values(|f: Hdr10PlusJsonMetadata| f@) =~= base);
    compute_scene_information(profile, &mut frames);
    proof {
        assert(frames@.map_values(|f: Hdr10PlusJsonMetadata| f@) =~= spec_with_scenes(base, profile@ == seq!['B']));
        assert(spec_json_frames(views) == spec_with_scenes(base, profile@ == seq!['B']));
    }
    (profile.to_owned(), frames)
}

/// The decimal digit character of `d`.
pub open spec fn digit_char(d: nat) -> char {
    if d == 0 { '0' } else if d == 1 { '1' } else if d == 2 { '2' } else if d == 3 { '3' }
    else if d == 4 { '4' } else if d == 5 { '5' } else if d == 6 { '6' } else if d == 7 { '7' }
    else if d == 8 { '8' } else { '9' }
}

/// The decimal representation of `n`, without leading zeros.
pub open spec fn decimal(n: nat) -> Seq<char>
    decreases n,
{
    if n < 10 {
        seq![digit_char(n)]
    } else {
        decimal(n / 10).push(digit_char(n % 10))
    }
}

fn push_digit(s: &mut String, d: u8)
    requires
        d < 10,
    ensures
        final(s)@ == old(s)@.push(digit_char(d as nat)),
{
    let t: &str = if d == 0 { "0" } else if d == 1 { "1" } else if d == 2 { "2" } else if d == 3 { "3" }
        else if d == 4 { "4" } else if d == 5 { "5" } else if d == 6 { "6" } else if d == 7 { "7" }
        else if d == 8 { "8" } else { "9" };
    proof {
        reveal_strlit("0");
        reveal_strlit("1");
        reveal_strlit("2");
        reveal_strlit("3");
        reveal_strlit("4");
        reveal_strlit("5");
        reveal_strlit("6");
        reveal_strlit("7");
        reveal_strlit("8");
        reveal_strlit("9");
        assert(t@ =~= seq![digit_char(d as nat)]);
    }
    s.append(t);
    assert(s@ =~= old(s)@.push(digit_char(d as nat)));
}

/// The metadata version string, "<application_version>.0".
pub fn version_string(application_version: u8) -> (r: String)
    ensures
        r@ == decimal(application_version as nat) + seq!['.', '0'],
{
    let mut s = String::new();
    let v = application_version;
    if v >= 100 {
        push_digit(&mut s, v / 100);
        push_digit(&mut s, (v / 10) % 10);
    } else if v >= 10 {
        push_digit(&mut s, v / 10);
    }
    push_digit(&mut s, v % 10);
    proof {
        let n = v as nat;
        if n >= 100 {
            assert(decimal(n / 10 / 10) == seq![digit_char(n / 100)]);
            assert(decimal(n / 10) == seq![digit_char(n / 100)].push(digit_char((n / 10) % 10)));
        } else if n >= 10 {
            assert(decimal(n / 10) == seq![digit_char(n / 10)]);
        }
    }
    s.append(".0");
    proof {
        reveal_strlit(".0");
        assert(s@ =~= decimal(application_version as nat) + seq!['.', '0']);
    }
    s
}

/// The document as a mathematical value.
pub struct JsonRootView {
    pub profile: Seq<char>,
    pub version: Seq<char>,
    pub scene_info: Seq<JsonFrameView>,
    pub scene_first_frame_index: Seq<usize>,
    pub scene_frame_numbers: Seq<usize>,
    pub tool: Seq<char>,
    pub tool_version: Seq<char>,
}

impl View for MetadataJsonRoot {
    type V = JsonRootView;

    open spec fn view(&self) -> JsonRootView {
        JsonRootView {
            profile: self.info.profile@,
            version: self.info.version@,
            scene_info: self.scene_info@.map_values(|f: Hdr10PlusJsonMetadata| f@),
            scene_first_frame_index: self.scene_info_summary.scene_first_frame_index@,
            scene_frame_numbers: self.scene_info_summary.scene_frame_numbers@,
            tool: self.tool_info.tool@,
            tool_version: self.tool_info.version@,
        }
    }
}

/// The sequence indexes of the frames among the first `k` that start a scene.
pub open spec fn first_frames_upto(frames: Seq<JsonFrameView>, k: nat) -> Seq<usize>
    decreases k,
{
    if k == 0 {
        seq![]
    } else {
        let prev = first_frames_upto(frames, (k - 1) as nat);
        if frames[k - 1].scene_frame_index == 0 {
            prev.push(frames[k - 1].sequence_frame_index)
        } else {
            prev
        }
    }
}

/// The length of each scene: the distance to the next scene's first frame, and for the
/// last scene, to the end.
pub open spec fn spec_scene_lengths(first: Seq<usize>, n: nat) -> Seq<usize> {
    Seq::new(
        first.len(),
        |i: int| if i < first.len() - 1 { (first[i + 1] - first[i]) as usize } else { (n - first[i]) as usize },
    )
}

/// The document that `generate_json` builds.
pub open spec fn spec_generate_json(list: Seq<MetadataView>, tool: Seq<char>, tool_version: Seq<char>) -> JsonRootView {
    let frames = spec_json_frames(list);
    let first = first_frames_upto(frames, frames.len());
    JsonRootView {
        profile: spec_list_profile(list),
        version: decimal(list[0].application_version as nat) + seq!['.', '0'],
        scene_info: frames,
        scene_first_frame_index: first,
        scene_frame_numbers: spec_scene_lengths(first, frames.len()),
        tool,
        tool_version,
    }
}

/// The first frames are sequence indexes in increasing order, each below `k`.
pub proof fn lemma_first_frames_increasing(frames: Seq<JsonFrameView>, k: nat)
    requires
        k <= frames.len(),
        forall|i: int| 0 <= i < frames.len() ==> (#[trigger] frames[i]).sequence_frame_index == i,
    ensures
        forall|i: int, j: int| 0 <= i < j < first_frames_upto(frames, k).len()
            ==> first_frames_upto(frames, k)[i] < first_frames_upto(frames, k)[j],
        forall|i: int| 0 <= i < first_frames_upto(frames, k).len() ==> first_frames_upto(frames, k)[i] < k,
    decreases k,
{
    if k > 0 {
        lemma_first_frames_increasing(frames, (k - 1) as nat);
        let prev = first_frames_upto(frames, (k - 1) as nat);
        let cur = first_frames_upto(frames, k);
        assert(frames[k - 1].sequence_frame_index == k - 1);
        if frames[k - 1].scene_frame_index == 0 {
            assert(cur == prev.push(frames[k - 1].sequence_frame_index));
            assert forall|i: int, j: int| 0 <= i < j < cur.len() implies cur[i] < cur[j] by {
                if j < prev.len() {
                    assert(cur[i] == prev[i] && cur[j] == prev[j]);
                } else {
                    assert(cur[i] == prev[i]);
                }
            }
            assert forall|i: int| 0 <= i < cur.len() implies cur[i] < k by {
                if i < prev.len() {
                    assert(cur[i] == prev[i]);
                }
            }
        } else {
            assert(cur == prev);
        }
    }
}

/// Builds the JSON document: the list's profile and frames, the version of the first
/// metadata, the scene summary and the tool.
pub fn generate_json(metadata: &[&Hdr10PlusMetadata], tool_name: &str, tool_version: &str) -> (r: MetadataJsonRoot)
    requires
        metadata@.len() > 0,
        json_list_ready(metadata_views(metadata@)),
    ensures
        r@ == spec_generate_json(metadata_views(metadata@), tool_name@, tool_version@),
{
    let (profile, frame_json_list) = json_list(metadata);
    let version = version_string(metadata[0].application_version);
    let ghost frames = spec_json_frames(metadata_views(metadata@));
    assert(frame_json_list@.map_values(|f: Hdr10PlusJsonMetadata| f@) == frames);
    assert(forall|i: int| 0 <= i < frames.len() ==> (#[trigger] frames[i]).sequence_frame_index == i);
    let mut first_frames: Vec<usize> = Vec::new();
    let mut i: usize = 0;
    while i < frame_json_list.len()
        invariant
            frame_json_list@.map_values(|f: Hdr10PlusJsonMetadata| f@) == frames,
            forall|k: int| 0 <= k < frames.len() ==> (#[trigger] frames[k]).sequence_frame_index == k,
            i <= frames.len(),
            first_frames@ == first_frames_upto(frames, i as nat),
        decreases frames.len() - i,
    {
        assert(frame_json_list@[i as int]@ == frames[i as int]);
        if frame_json_list[i].scene_frame_index == 0 {
            first_frames.push(frame_json_list[i].sequence_frame_index);
        }
        i = i + 1;
    }
    proof {
        lemma_first_frames_increasing(frames, frames.len());
    }
    let n = frame_json_list.len();
    let mut scene_lengths: Vec<usize> = Vec::new();
    let mut j: usize = 0;
    while j < first_frames.len()
        invariant
            first_frames@ == first_frames_upto(frames, frames.len()),
            n == frames.len(),
            forall|a: int, b: int| 0 <= a < b < first_frames@.len() ==> first_frames@[a] < first_frames@[b],
            forall|a: int| 0 <= a < first_frames@.len() ==> first_frames@[a] < n,
            j <= first_frames@.len(),
            scene_lengths@ == spec_scene_lengths(first_frames@, n as nat).take(j as int),
        decreases first_frames@.len() - j,
    {
        if j < first_frames.len() - 1 {
            scene_lengths.push(first_frames[j + 1] - first_frames[j]);
        } else {
            scene_lengths.push(n - first_frames[j]);
        }
        proof {
            assert(scene_lengths@ =~= spec_scene_lengths(first_frames@, n as nat).take(j + 1));
        }
        j = j + 1;
    }
    assert(scene_lengths@ =~= spec_scene_lengths(first_frames@, n as nat));
    MetadataJsonRoot {
        info: JsonInfo { profile, version },
        scene_info: frame_json_list,
        scene_info_summary: SceneInfoSummary { scene_first_frame_index: first_frames, scene_frame_numbers: scene_lengths },
        tool_info: ToolInfo { tool: tool_name.to_owned(), version: tool_version.to_owned() },
    }
}

/// The sum of a sequence of counts.
pub open spec fn count_sum(s: Seq<usize>) -> int
    decreases s.len(),
{
    if s.len() == 0 {
        0
    } else {
        count_sum(s.drop_last()) + s.last()
    }
}

pub proof fn lemma_scene_lengths_prefix(first: Seq<usize>, n: nat, j: int)
    requires
        first.len() >= 1,
        n <= usize::MAX,
        1 <= j <= first.len(),
        forall|a: int, b: int| 0 <= a < b < first.len() ==> first[a] < first[b],
        forall|a: int| 0 <= a < first.len() ==> first[a] < n,
    ensures
        count_sum(spec_scene_lengths(first, n).take(j)) == (if j < first.len() { first[j] as int } else { n as int }) - first[0],
    decreases j,
{
    let l = spec_scene_lengths(first, n);
    let m = first.len();
    assert(l.take(j).last() == l[j - 1]);
    if j - 1 < m - 1 {
        assert(first[j - 1] < first[j]);
        assert(l[j - 1] == first[j] - first[j - 1]);
    } else {
        assert(l[j - 1] == n - first[j - 1]);
    }
    assert(count_sum(l.take(j)) == count_sum(l.take(j).drop_last()) + l[j - 1]);
    if j > 1 {
        lemma_scene_lengths_prefix(first, n, j - 1);
        assert(l.take(j).drop_last() =~= l.take(j - 1));
        assert(count_sum(l.take(j - 1)) == first[j - 1] - first[0]);
    } else {
        assert(l.take(1).drop_last() =~= Seq::<usize>::empty());
        assert(count_sum(Seq::<usize>::empty()) == 0);
    }
}

/// The scene summary of a generated document covers every frame exactly once: the first
/// scene starts at frame 0 and the scene lengths add up to the number of frames.
pub proof fn law_scene_summary_covers_frames(list: Seq<MetadataView>, tool: Seq<char>, tool_version: Seq<char>)
    requires
        0 < list.len() <= usize::MAX,
    ensures
        ({
            let d = spec_generate_json(list, tool, tool_version);
            &&& d.scene_info.len() == list.len()
            &&& d.scene_first_frame_index.len() >= 1
            &&& d.scene_first_frame_index[0] == 0
            &&& count_sum(d.scene_frame_numbers) == d.scene_info.len()
        }),
{
    let d = spec_generate_json(list, tool, tool_version);
    let frames = spec_json_frames(list);
    let n = frames.len();
    assert(forall|i: int| 0 <= i < n ==> (#[trigger] frames[i]).sequence_frame_index == i);
    lemma_first_frames_increasing(frames, n);
    assert(frames[0].scene_frame_index == 0);
    assert(frames[0].sequence_frame_index == 0);
    let first = first_frames_upto(frames, n);
    assert forall|k: nat| 1 <= k <= n implies first_frames_upto(frames, k).len() >= 1
        && first_frames_upto(frames, k)[0] == 0 by {
        lemma_first_prefix(frames, k);
    }
    lemma_scene_lengths_prefix(first, n, first.len() as int);
    assert(spec_scene_lengths(first, n).take(first.len() as int) =~= spec_scene_lengths(first, n));
}

pub proof fn lemma_first_prefix(frames: Seq<JsonFrameView>, k: nat)
    requires
        1 <= k <= frames.len(),
        frames[0].scene_frame_index == 0,
        frames[0].sequence_frame_index == 0,
    ensures
        first_frames_upto(frames, k).len() >= 1,
        first_frames_upto(frames, k)[0] == 0,
    decreases k,
{
    if k > 1 {
        lemma_first_prefix(frames, (k - 1) as nat);
    } else {
        assert(first_frames_upto(frames, 0).len() == 0);
    }
}


/// The metadata of a JSON frame written back as a JSON frame gives the frame, with zero
/// scene fields, whenever the Bezier curve data is written or the frame has none.
proof fn lemma_frame_json_of_json(jm: JsonFrameView, with_bezier: bool)
    requires
        spec_json_frame_error(jm) is None,
        with_bezier || jm.bezier_curve_data is None,
    ensures
        spec_frame_json(spec_from_json_frame(jm), with_bezier)
            == (JsonFrameView { scene_frame_index: 0, scene_id: 0, sequence_frame_index: 0, ..jm }),
{
    let m = spec_from_json_frame(jm);
    let d = jm.luminance_parameters.luminance_distributions;
    let out = spec_frame_json(m, with_bezier);
    assert(spec_distribution_index(m.distribution_maxrgb) =~= d.distribution_index);
    assert(spec_distribution_values(m.distribution_maxrgb) =~= d.distribution_values);
    assert(out.luminance_parameters.luminance_distributions == d);
    assert(out.luminance_parameters == jm.luminance_parameters);
    match jm.bezier_curve_data {
        Some(b) => {
            assert(out.bezier_curve_data == Some(b));
        },
        None => {},
    }
}

/// The metadata that a list of JSON frames stands for.
pub open spec fn metadata_of_frames(frames: Seq<JsonFrameView>) -> Seq<MetadataView> {
    frames.map_values(|f: JsonFrameView| spec_from_json_frame(f))
}

/// The JSON frames written for the metadata read from JSON frames are those frames, but
/// for their scene fields, which are worked out anew.
pub proof fn law_json_after_metadata(frames: Seq<JsonFrameView>)
    requires
        forall|i: int| 0 <= i < frames.len() ==> spec_json_frame_error(#[trigger] frames[i]) is None,
    ensures
        spec_json_frames(metadata_of_frames(frames)).len() == frames.len(),
        forall|i: int| 0 <= i < frames.len() ==> {
            let out = #[trigger] spec_json_frames(metadata_of_frames(frames))[i];
            &&& out.bezier_curve_data == frames[i].bezier_curve_data
            &&& out.luminance_parameters == frames[i].luminance_parameters
            &&& out.number_of_windows == frames[i].number_of_windows
            &&& out.targeted_system_display_maximum_luminance == frames[i].targeted_system_display_maximum_luminance
        },
{
    let list = metadata_of_frames(frames);
    let profile = spec_list_profile(list);
    let w = profile != seq!['A'];
    let plain = Seq::new(list.len(), |i: int| spec_frame_json(list[i], w));
    assert forall|i: int| 0 <= i < frames.len() implies (#[trigger] plain[i])
        == (JsonFrameView { scene_frame_index: 0, scene_id: 0, sequence_frame_index: 0, ..frames[i] }) by {
        if !w {
            let fm = spec_json_frame_fields(frames[i]);
            assert(list[i] == spec_from_json_frame(frames[i]));
            assert(list[i].profile == seq!['A']);
            assert(spec_profile(fm) == seq!['A']);
            if fm.tone_mapping_flag {
                assert(seq!['B'][0] != seq!['A'][0]);
                assert(seq!['N', '/', 'A'].len() != seq!['A'].len());
            }
            assert(frames[i].bezier_curve_data is None);
        }
        lemma_frame_json_of_json(frames[i], w);
    }
}

} // verus!
