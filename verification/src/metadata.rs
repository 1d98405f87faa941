//! The HDR10+ (ST 2094-40) metadata structure: its bitstream syntax, validation
//! rules and profile.
use vstd::prelude::*;

use crate::bits::{
    align_pad, bits_of, bits_to_bytes, bits_value, byte_align, bytes_to_bits, into_bytes,
    lemma_pow2_values, new_writer, padded, pow2, write_bits, write_flag, written_bits, zero_bits,
    BitReader, BitstreamError,
};
use bitvec_helpers::bitstream_io_writer::BitstreamIoWriter;
use bitvec_helpers::bitvec_writer::BitVecWriter;
use crate::bits::{bitvec_write, bitvec_write_n, bitvec_written};
use crate::error::Hdr10PlusError;

verus! {

/// HDR10+ dynamic metadata of one frame.
#[derive(Debug, Clone, Default)]
pub struct Hdr10PlusMetadata {
    pub profile: String,
    pub itu_t_t35_country_code: u8,
    pub itu_t_t35_terminal_provider_code: u16,
    pub itu_t_t35_terminal_provider_oriented_code: u16,
    pub application_identifier: u8,
    pub application_version: u8,
    pub num_windows: u8,
    pub processing_windows: Option<Vec<ProcessingWindow>>,
    pub targeted_system_display_maximum_luminance: u32,
    pub targeted_system_display_actual_peak_luminance_flag: bool,
    pub actual_targeted_system_display: Option<ActualTargetedSystemDisplay>,
    pub maxscl: [u32; 3],
    pub average_maxrgb: u32,
    pub num_distribution_maxrgb_percentiles: u8,
    pub distribution_maxrgb: Vec<DistributionMaxRgb>,
    pub fraction_bright_pixels: u16,
    pub mastering_display_actual_peak_luminance_flag: bool,
    pub actual_mastering_display: Option<ActualMasteringDisplay>,
    pub tone_mapping_flag: bool,
    pub bezier_curve: Option<BezierCurve>,
    pub color_saturation_mapping_flag: bool,
    pub color_saturation_weight: u8,
}

/// An elliptical processing window (windows beyond the first).
#[derive(Debug, PartialEq, Clone, Copy, Default, Eq)]
pub struct ProcessingWindow {
    window_upper_left_corner_x: u16,
    window_upper_left_corner_y: u16,
    window_lower_right_corner_x: u16,
    window_lower_right_corner_y: u16,
    center_of_ellipse_x: u16,
    center_of_ellipse_y: u16,
    rotation_angle: u8,
    semimajor_axis_internal_ellipse: u16,
    semimajor_axis_external_ellipse: u16,
    semiminor_axis_external_ellipse: u16,
    overlap_process_option: bool,
}

/// The actual peak luminance grid of the targeted system display.
#[derive(Debug, PartialEq, Clone, Default, Eq)]
pub struct ActualTargetedSystemDisplay {
    pub num_rows_targeted_system_display_actual_peak_luminance: u8,
    pub num_cols_targeted_system_display_actual_peak_luminance: u8,
    pub targeted_system_display_actual_peak_luminance: Vec<Vec<u8>>,
}

/// One percentile of the MaxRGB distribution.
#[derive(Debug, PartialEq, Clone, Copy, Default, Eq)]
pub struct DistributionMaxRgb {
    pub percentage: u8,
    pub percentile: u32,
}

/// The actual peak luminance grid of the mastering display.
#[derive(Debug, PartialEq, Clone, Default, Eq)]
pub struct ActualMasteringDisplay {
    pub num_rows_mastering_display_actual_peak_luminance: u8,
    pub num_cols_mastering_display_actual_peak_luminanc: u8,
    pub mastering_display_actual_peak_luminance: Vec<Vec<u8>>,
}

/// The tone mapping Bezier curve.
#[derive(Debug, PartialEq, Clone, Default, Eq)]
pub struct BezierCurve {
    pub knee_point_x: u16,
    pub knee_point_y: u16,
    pub num_bezier_curve_anchors: u8,
    pub bezier_curve_anchors: Vec<u16>,
}

/// Options of `Hdr10PlusMetadata::encode_with_opts`.
#[derive(Debug, PartialEq, Clone, Eq)]
pub struct Hdr10PlusMetadataEncOpts {
    /// Validate the metadata's conformance
    pub validate: bool,
    /// Useful for AV1 payload, which don't contain `itu_t_t35_country_code`
    pub with_country_code: bool,
}

impl Default for Hdr10PlusMetadataEncOpts {
    fn default() -> (r: Self)
        ensures
            r.validate && r.with_country_code,
    {
        Self { validate: true, with_country_code: true }
    }
}

/// How to extract the peak brightness for the metadata
#[derive(Debug, Clone, Copy, PartialEq, Eq)]
pub enum PeakBrightnessSource {
    /// The max value from the histogram measurements
    Histogram,
    /// The last percentile in the histogram, usually 99.98% brightness percentile
    Histogram99,
    /// The max value in `maxscl`
    MaxScl,
    /// The luminance calculated from the `maxscl` components
    /// Assumed BT.2020 primaries
    MaxSclLuminance,
}

/// A grid of 4-bit peak luminance values, as a mathematical value.
pub struct LuminanceGridView {
    pub num_rows: u8,
    pub num_cols: u8,
    pub values: Seq<Seq<u8>>,
}

/// A Bezier curve as a mathematical value.
pub struct BezierCurveView {
    pub knee_point_x: u16,
    pub knee_point_y: u16,
    pub num_bezier_curve_anchors: u8,
    pub bezier_curve_anchors: Seq<u16>,
}

/// HDR10+ metadata as a mathematical value.
pub struct MetadataView {
    pub profile: Seq<char>,
    pub itu_t_t35_country_code: u8,
    pub itu_t_t35_terminal_provider_code: u16,
    pub itu_t_t35_terminal_provider_oriented_code: u16,
    pub application_identifier: u8,
    pub application_version: u8,
    pub num_windows: u8,
    pub processing_windows: Option<Seq<ProcessingWindow>>,
    pub targeted_system_display_maximum_luminance: u32,
    pub targeted_system_display_actual_peak_luminance_flag: bool,
    pub actual_targeted_system_display: Option<LuminanceGridView>,
    pub maxscl: Seq<u32>,
    pub average_maxrgb: u32,
    pub num_distribution_maxrgb_percentiles: u8,
    pub distribution_maxrgb: Seq<DistributionMaxRgb>,
    pub fraction_bright_pixels: u16,
    pub mastering_display_actual_peak_luminance_flag: bool,
    pub actual_mastering_display: Option<LuminanceGridView>,
    pub tone_mapping_flag: bool,
    pub bezier_curve: Option<BezierCurveView>,
    pub color_saturation_mapping_flag: bool,
    pub color_saturation_weight: u8,
}

/// The rows of a grid of bytes as sequences.
pub open spec fn grid_view(g: Seq<Vec<u8>>) -> Seq<Seq<u8>> {
    Seq::new(g.len(), |i: int| g[i]@)
}

impl View for ActualTargetedSystemDisplay {
    type V = LuminanceGridView;

    open spec fn view(&self) -> LuminanceGridView {
        LuminanceGridView {
            num_rows: self.num_rows_targeted_system_display_actual_peak_luminance,
            num_cols: self.num_cols_targeted_system_display_actual_peak_luminance,
            values: grid_view(self.targeted_system_display_actual_peak_luminance@),
        }
    }
}

impl View for ActualMasteringDisplay {
    type V = LuminanceGridView;

    open spec fn view(&self) -> LuminanceGridView {
        LuminanceGridView {
            num_rows: self.num_rows_mastering_display_actual_peak_luminance,
            num_cols: self.num_cols_mastering_display_actual_peak_luminanc,
            values: grid_view(self.mastering_display_actual_peak_luminance@),
        }
    }
}

impl View for BezierCurve {
    type V = BezierCurveView;

    open spec fn view(&self) -> BezierCurveView {
        BezierCurveView {
            knee_point_x: self.knee_point_x,
            knee_point_y: self.knee_point_y,
            num_bezier_curve_anchors: self.num_bezier_curve_anchors,
            bezier_curve_anchors: self.bezier_curve_anchors@,
        }
    }
}

impl View for Hdr10PlusMetadata {
    type V = MetadataView;

    open spec fn view(&self) -> MetadataView {
        MetadataView {
            profile: self.profile@,
            itu_t_t35_country_code: self.itu_t_t35_country_code,
            itu_t_t35_terminal_provider_code: self.itu_t_t35_terminal_provider_code,
            itu_t_t35_terminal_provider_oriented_code: self.itu_t_t35_terminal_provider_oriented_code,
            application_identifier: self.application_identifier,
            application_version: self.application_version,
            num_windows: self.num_windows,
            processing_windows: match self.processing_windows {
                Some(v) => Some(v@),
                None => None,
            },
            targeted_system_display_maximum_luminance: self.targeted_system_display_maximum_luminance,
            targeted_system_display_actual_peak_luminance_flag: self.targeted_system_display_actual_peak_luminance_flag,
            actual_targeted_system_display: match self.actual_targeted_system_display {
                Some(a) => Some(a@),
                None => None,
            },
            maxscl: self.maxscl@,
            average_maxrgb: self.average_maxrgb,
            num_distribution_maxrgb_percentiles: self.num_distribution_maxrgb_percentiles,
            distribution_maxrgb: self.distribution_maxrgb@,
            fraction_bright_pixels: self.fraction_bright_pixels,
            mastering_display_actual_peak_luminance_flag: self.mastering_display_actual_peak_luminance_flag,
            actual_mastering_display: match self.actual_mastering_display {
                Some(a) => Some(a@),
                None => None,
            },
            tone_mapping_flag: self.tone_mapping_flag,
            bezier_curve: match self.bezier_curve {
                Some(b) => Some(b@),
                None => None,
            },
            color_saturation_mapping_flag: self.color_saturation_mapping_flag,
            color_saturation_weight: self.color_saturation_weight,
        }
    }
}

/// A copy of a grid of bytes, row by row.
fn copy_grid(g: &Vec<Vec<u8>>) -> (r: Vec<Vec<u8>>)
    ensures
        grid_view(r@) == grid_view(g@),
{
    let mut out: Vec<Vec<u8>> = Vec::new();
    let mut i: usize = 0;
    while i < g.len()
        invariant
            i <= g@.len(),
            out@.len() == i,
            forall|j: int| 0 <= j < i ==> (#[trigger] out@[j])@ == g@[j]@,
        decreases g@.len() - i,
    {
        let row = &g[i];
        let mut r: Vec<u8> = Vec::new();
        let mut k: usize = 0;
        while k < row.len()
            invariant
                k <= row@.len(),
                r@ == row@.take(k as int),
            decreases row@.len() - k,
        {
            r.push(row[k]);
            k = k + 1;
            assert(r@ =~= row@.take(k as int));
        }
        assert(row@.take(k as int) =~= row@);
        out.push(r);
        i = i + 1;
    }
    assert(grid_view(out@) =~= grid_view(g@));
    out
}

/// A copy of a sequence of values that are copied as they are.
fn copy_vec<T: Copy>(v: &Vec<T>) -> (r: Vec<T>)
    ensures
        r@ == v@,
{
    let mut out: Vec<T> = Vec::new();
    let mut i: usize = 0;
    while i < v.len()
        invariant
            i <= v@.len(),
            out@ == v@.take(i as int),
        decreases v@.len() - i,
    {
        out.push(v[i]);
        i = i + 1;
        assert(out@ =~= v@.take(i as int));
    }
    assert(v@.take(i as int) =~= v@);
    out
}

impl Hdr10PlusMetadata {
    /// A copy of the metadata, field by field.
    pub fn duplicate(&self) -> (r: Self)
        ensures
            r@ == self@,
    {
        let processing_windows = match &self.processing_windows {
            Some(v) => Some(copy_vec(v)),
            None => None,
        };
        let actual_targeted_system_display = match &self.actual_targeted_system_display {
            Some(a) => Some(ActualTargetedSystemDisplay {
                num_rows_targeted_system_display_actual_peak_luminance: a.num_rows_targeted_system_display_actual_peak_luminance,
                num_cols_targeted_system_display_actual_peak_luminance: a.num_cols_targeted_system_display_actual_peak_luminance,
                targeted_system_display_actual_peak_luminance: copy_grid(&a.targeted_system_display_actual_peak_luminance),
            }),
            None => None,
        };
        let actual_mastering_display = match &self.actual_mastering_display {
            Some(a) => Some(ActualMasteringDisplay {
                num_rows_mastering_display_actual_peak_luminance: a.num_rows_mastering_display_actual_peak_luminance,
                num_cols_mastering_display_actual_peak_luminanc: a.num_cols_mastering_display_actual_peak_luminanc,
                mastering_display_actual_peak_luminance: copy_grid(&a.mastering_display_actual_peak_luminance),
            }),
            None => None,
        };
        let bezier_curve = match &self.bezier_curve {
            Some(b) => Some(BezierCurve {
                knee_point_x: b.knee_point_x,
                knee_point_y: b.knee_point_y,
                num_bezier_curve_anchors: b.num_bezier_curve_anchors,
                bezier_curve_anchors: copy_vec(&b.bezier_curve_anchors),
            }),
            None => None,
        };
        let mut profile = String::new();
        profile.append(self.profile.as_str());
        let r = Hdr10PlusMetadata {
            profile,
            itu_t_t35_country_code: self.itu_t_t35_country_code,
            itu_t_t35_terminal_provider_code: self.itu_t_t35_terminal_provider_code,
            itu_t_t35_terminal_provider_oriented_code: self.itu_t_t35_terminal_provider_oriented_code,
            application_identifier: self.application_identifier,
            application_version: self.application_version,
            num_windows: self.num_windows,
            processing_windows,
            targeted_system_display_maximum_luminance: self.targeted_system_display_maximum_luminance,
            targeted_system_display_actual_peak_luminance_flag: self.targeted_system_display_actual_peak_luminance_flag,
            actual_targeted_system_display,
            maxscl: self.maxscl,
            average_maxrgb: self.average_maxrgb,
            num_distribution_maxrgb_percentiles: self.num_distribution_maxrgb_percentiles,
            distribution_maxrgb: copy_vec(&self.distribution_maxrgb),
            fraction_bright_pixels: self.fraction_bright_pixels,
            mastering_display_actual_peak_luminance_flag: self.mastering_display_actual_peak_luminance_flag,
            actual_mastering_display,
            tone_mapping_flag: self.tone_mapping_flag,
            bezier_curve,
            color_saturation_mapping_flag: self.color_saturation_mapping_flag,
            color_saturation_weight: self.color_saturation_weight,
        };
        assert(r.profile@ =~= self.profile@);
        r
    }
}

/// The value of the `n` bits of `bits` starting at `pos`.
pub open spec fn field(bits: Seq<bool>, pos: int, n: int) -> nat {
    bits_value(bits.subrange(pos, pos + n))
}

/// The number of bits of a processing window in the bitstream.
pub open spec fn processing_window_size() -> int {
    153
}

/// The processing window whose syntax starts at `pos`.
pub closed spec fn spec_processing_window(bits: Seq<bool>, pos: int) -> ProcessingWindow {
    ProcessingWindow {
        window_upper_left_corner_x: field(bits, pos, 16) as u16,
        window_upper_left_corner_y: field(bits, pos + 16, 16) as u16,
        window_lower_right_corner_x: field(bits, pos + 32, 16) as u16,
        window_lower_right_corner_y: field(bits, pos + 48, 16) as u16,
        center_of_ellipse_x: field(bits, pos + 64, 16) as u16,
        center_of_ellipse_y: field(bits, pos + 80, 16) as u16,
        rotation_angle: field(bits, pos + 96, 8) as u8,
        semimajor_axis_internal_ellipse: field(bits, pos + 104, 16) as u16,
        semimajor_axis_external_ellipse: field(bits, pos + 120, 16) as u16,
        semiminor_axis_external_ellipse: field(bits, pos + 136, 16) as u16,
        overlap_process_option: bits[pos + 152],
    }
}

/// The position of cell `(i, j)` of a luminance grid whose syntax starts at `pos`.
pub open spec fn grid_cell_pos(pos: int, cols: int, i: int, j: int) -> int {
    pos + 10 + 4 * (i * cols + j)
}

/// The number of bits of a luminance grid with the given dimensions.
pub open spec fn grid_size(rows: int, cols: int) -> int {
    10 + 4 * (rows * cols)
}

/// The luminance grid whose syntax starts at `pos`.
pub open spec fn spec_grid(bits: Seq<bool>, pos: int) -> LuminanceGridView {
    let rows = field(bits, pos, 5) as u8;
    let cols = field(bits, pos + 5, 5) as u8;
    LuminanceGridView {
        num_rows: rows,
        num_cols: cols,
        values: Seq::new(
            rows as nat,
            |i: int|
                Seq::new(
                    cols as nat,
                    |j: int| field(bits, grid_cell_pos(pos, cols as int, i, j), 4) as u8,
                ),
        ),
    }
}

/// The `k` distribution entries whose syntax starts at `pos`.
pub open spec fn spec_distribution(bits: Seq<bool>, pos: int, k: int) -> Seq<DistributionMaxRgb> {
    Seq::new(
        k as nat,
        |i: int|
            DistributionMaxRgb {
                percentage: field(bits, pos + 24 * i, 7) as u8,
                percentile: field(bits, pos + 24 * i + 7, 17) as u32,
            },
    )
}

/// The Bezier curve whose syntax starts at `pos`.
pub open spec fn spec_bezier(bits: Seq<bool>, pos: int) -> BezierCurveView {
    let n = field(bits, pos + 24, 4) as u8;
    BezierCurveView {
        knee_point_x: field(bits, pos, 12) as u16,
        knee_point_y: field(bits, pos + 12, 12) as u16,
        num_bezier_curve_anchors: n,
        bezier_curve_anchors: Seq::new(n as nat, |i: int| field(bits, pos + 28 + 10 * i, 10) as u16),
    }
}

/// The number of bits of the Bezier curve whose syntax starts at `pos`.
pub open spec fn bezier_size(bits: Seq<bool>, pos: int) -> int {
    28 + 10 * (field(bits, pos + 24, 4) as u8)
}

impl ProcessingWindow {
    fn parse(reader: &mut BitReader) -> (r: Result<ProcessingWindow, BitstreamError>)
        requires
            old(reader).wf(),
        ensures
            final(reader).wf(),
            final(reader).bits() == old(reader).bits(),
            r is Ok <==> old(reader).pos() + processing_window_size() <= old(reader).bits().len(),
            r matches Ok(pw) ==> {
                &&& pw == spec_processing_window(old(reader).bits(), old(reader).pos() as int)
                &&& final(reader).pos() == old(reader).pos() + processing_window_size()
            },
    {
        let window_upper_left_corner_x = reader.read(16)?;
        let window_upper_left_corner_y = reader.read(16)?;
        let window_lower_right_corner_x = reader.read(16)?;
        let window_lower_right_corner_y = reader.read(16)?;
        let center_of_ellipse_x = reader.read(16)?;
        let center_of_ellipse_y = reader.read(16)?;
        let rotation_angle = reader.read(8)?;
        let semimajor_axis_internal_ellipse = reader.read(16)?;
        let semimajor_axis_external_ellipse = reader.read(16)?;
        let semiminor_axis_external_ellipse = reader.read(16)?;
        let overlap_process_option = reader.read_flag()?;
        Ok(ProcessingWindow {
            window_upper_left_corner_x: window_upper_left_corner_x as u16,
            window_upper_left_corner_y: window_upper_left_corner_y as u16,
            window_lower_right_corner_x: window_lower_right_corner_x as u16,
            window_lower_right_corner_y: window_lower_right_corner_y as u16,
            center_of_ellipse_x: center_of_ellipse_x as u16,
            center_of_ellipse_y: center_of_ellipse_y as u16,
            rotation_angle: rotation_angle as u8,
            semimajor_axis_internal_ellipse: semimajor_axis_internal_ellipse as u16,
            semimajor_axis_external_ellipse: semimajor_axis_external_ellipse as u16,
            semiminor_axis_external_ellipse: semiminor_axis_external_ellipse as u16,
            overlap_process_option,
        })
    }
}

/// Reads a luminance grid: 5-bit row and column counts, then 4-bit values row by row.
fn parse_grid(reader: &mut BitReader) -> (r: Result<(u8, u8, Vec<Vec<u8>>), BitstreamError>)
    requires
        old(reader).wf(),
    ensures
        final(reader).wf(),
        final(reader).bits() == old(reader).bits(),
        ({
            let bits = old(reader).bits();
            let pos = old(reader).pos() as int;
            let g = spec_grid(bits, pos);
            &&& r is Ok <==> pos + 10 <= bits.len() && pos + grid_size(g.num_rows as int, g.num_cols as int) <= bits.len()
            &&& r matches Ok((rows, cols, values)) ==> {
                &&& rows == g.num_rows
                &&& cols == g.num_cols
                &&& grid_view(values@) == g.values
                &&& final(reader).pos() == pos + grid_size(rows as int, cols as int)
            }
        }),
{
    let ghost bits = reader.bits();
    let ghost pos = reader.pos() as int;
    let rows = reader.read(5)? as u8;
    let cols = reader.read(5)? as u8;
    let ghost g = spec_grid(bits, pos);
    assert(rows == g.num_rows && cols == g.num_cols);
    let mut values: Vec<Vec<u8>> = Vec::new();
    let mut i: u8 = 0;
    while i < rows
        invariant
            reader.wf(),
            reader.bits() == bits,
            bits == old(reader).bits(),
            pos == old(reader).pos(),
            g == spec_grid(bits, pos),
            rows == g.num_rows,
            cols == g.num_cols,
            pos + 10 <= bits.len(),
            i <= rows,
            values@.len() == i,
            reader.pos() == grid_cell_pos(pos, cols as int, i as int, 0),
            forall|a: int| 0 <= a < i ==> #[trigger] values@[a]@ == g.values[a],
        ensures
            i == rows,
        decreases rows - i,
    {
        let mut row: Vec<u8> = Vec::new();
        let mut j: u8 = 0;
        while j < cols
            invariant
                reader.wf(),
                reader.bits() == bits,
                bits == old(reader).bits(),
                pos == old(reader).pos(),
                g == spec_grid(bits, pos),
                rows == g.num_rows,
                cols == g.num_cols,
                pos + 10 <= bits.len(),
                i < rows,
                j <= cols,
                row@.len() == j,
                reader.pos() == grid_cell_pos(pos, cols as int, i as int, j as int),
                forall|b: int| 0 <= b < j ==> #[trigger] row@[b] == g.values[i as int][b],
            decreases cols - j,
        {
            proof {
                assert(i * cols + j + 1 <= rows * cols) by (nonlinear_arith)
                    requires
                        i < rows,
                        j < cols,
                ;
            }
            let v = reader.read(4);
            match v {
                Ok(v) => {
                    row.push(v as u8);
                },
                Err(e) => {
                    return Err(e);
                },
            }
            proof {
                assert((i * cols + j) + 1 == i * cols + (j + 1)) by (nonlinear_arith);
            }
            j = j + 1;
        }
        proof {
            assert(i * cols + cols == (i + 1) * cols) by (nonlinear_arith);
            assert(row@ =~= g.values[i as int]);
        }
        values.push(row);
        i = i + 1;
    }
    proof {
        reader.lemma_wf();
        assert(grid_view(values@) =~= g.values);
    }
    Ok((rows, cols, values))
}

impl DistributionMaxRgb {
    fn parse(reader: &mut BitReader) -> (r: Result<DistributionMaxRgb, BitstreamError>)
        requires
            old(reader).wf(),
        ensures
            final(reader).wf(),
            final(reader).bits() == old(reader).bits(),
            r is Ok <==> old(reader).pos() + 24 <= old(reader).bits().len(),
            r matches Ok(d) ==> {
                &&& d == spec_distribution(old(reader).bits(), old(reader).pos() as int, 1)[0]
                &&& final(reader).pos() == old(reader).pos() + 24
            },
    {
        let percentage = reader.read(7)?;
        let percentile = reader.read(17)?;
        Ok(DistributionMaxRgb { percentage: percentage as u8, percentile: percentile as u32 })
    }
}

impl BezierCurve {
    fn parse(reader: &mut BitReader) -> (r: Result<BezierCurve, BitstreamError>)
        requires
            old(reader).wf(),
        ensures
            final(reader).wf(),
            final(reader).bits() == old(reader).bits(),
            ({
                let bits = old(reader).bits();
                let pos = old(reader).pos() as int;
                &&& r is Ok <==> pos + 28 <= bits.len() && pos + bezier_size(bits, pos) <= bits.len()
                &&& r matches Ok(bc) ==> {
                    &&& bc@ == spec_bezier(bits, pos)
                    &&& final(reader).pos() == pos + bezier_size(bits, pos)
                }
            }),
    {
        let ghost bits = reader.bits();
        let ghost pos = reader.pos() as int;
        let knee_point_x = reader.read(12)? as u16;
        let knee_point_y = reader.read(12)? as u16;
        let num_bezier_curve_anchors = reader.read(4)? as u8;
        let ghost spec = spec_bezier(bits, pos);
        let mut bezier_curve_anchors: Vec<u16> = Vec::new();
        let mut i: u8 = 0;
        while i < num_bezier_curve_anchors
            invariant
                reader.wf(),
                reader.bits() == bits,
                bits == old(reader).bits(),
                pos == old(reader).pos(),
                spec == spec_bezier(bits, pos),
                num_bezier_curve_anchors == spec.num_bezier_curve_anchors,
                pos + 28 <= bits.len(),
                i <= num_bezier_curve_anchors,
                bezier_curve_anchors@.len() == i,
                reader.pos() == pos + 28 + 10 * i,
                forall|a: int| 0 <= a < i ==> #[trigger] bezier_curve_anchors@[a] == spec.bezier_curve_anchors[a],
            decreases num_bezier_curve_anchors - i,
        {
            let v = reader.read(10);
            match v {
                Ok(v) => bezier_curve_anchors.push(v as u16),
                Err(e) => return Err(e),
            }
            i = i + 1;
        }
        proof {
            reader.lemma_wf();
            assert(bezier_curve_anchors@ =~= spec.bezier_curve_anchors);
        }
        Ok(BezierCurve { knee_point_x, knee_point_y, num_bezier_curve_anchors, bezier_curve_anchors })
    }
}

/// The profile name that the metadata's fields determine: "B" with tone mapping, a
/// non-zero target luminance and Bezier anchors; "A" without tone mapping and with a zero
/// target luminance; "N/A" otherwise.
pub open spec fn spec_profile(m: MetadataView) -> Seq<char> {
    if m.tone_mapping_flag && m.targeted_system_display_maximum_luminance > 0 {
        match m.bezier_curve {
            Some(bc) => if bc.num_bezier_curve_anchors > 0 {
                seq!['B']
            } else {
                seq!['N', '/', 'A']
            },
            None => seq!['N', '/', 'A'],
        }
    } else if !m.tone_mapping_flag && m.targeted_system_display_maximum_luminance == 0 {
        seq!['A']
    } else {
        seq!['N', '/', 'A']
    }
}

/// The metadata after its first 58 bits: the T.35 header, the application and the
/// number of windows, every other field at its default.
pub open spec fn spec_header(bits: Seq<bool>) -> MetadataView {
    MetadataView {
        profile: seq![],
        itu_t_t35_country_code: field(bits, 0, 8) as u8,
        itu_t_t35_terminal_provider_code: field(bits, 8, 16) as u16,
        itu_t_t35_terminal_provider_oriented_code: field(bits, 24, 16) as u16,
        application_identifier: field(bits, 40, 8) as u8,
        application_version: field(bits, 48, 8) as u8,
        num_windows: field(bits, 56, 2) as u8,
        processing_windows: None,
        targeted_system_display_maximum_luminance: 0,
        targeted_system_display_actual_peak_luminance_flag: false,
        actual_targeted_system_display: None,
        maxscl: seq![0u32, 0u32, 0u32],
        average_maxrgb: 0,
        num_distribution_maxrgb_percentiles: 0,
        distribution_maxrgb: seq![],
        fraction_bright_pixels: 0,
        mastering_display_actual_peak_luminance_flag: false,
        actual_mastering_display: None,
        tone_mapping_flag: false,
        bezier_curve: None,
        color_saturation_mapping_flag: false,
        color_saturation_weight: 0,
    }
}

/// Windows 2 and up, present when `num_windows > 1`.
pub open spec fn spec_parse_processing_windows(bits: Seq<bool>, m: MetadataView, p: int) -> Option<(MetadataView, int)> {
    if m.num_windows > 1 {
        let k = m.num_windows - 1;
        if p + processing_window_size() * k <= bits.len() {
            Some((MetadataView {
                processing_windows: Some(Seq::new(k as nat, |i: int| spec_processing_window(bits, p + processing_window_size() * i))),
                ..m
            }, p + processing_window_size() * k))
        } else {
            None
        }
    } else {
        Some((m, p))
    }
}

/// The targeted display maximum luminance, its flag and the optional grid.
pub open spec fn spec_parse_targeted(bits: Seq<bool>, m: MetadataView, p: int) -> Option<(MetadataView, int)> {
    if p + 28 <= bits.len() {
        let tsdml = field(bits, p, 27) as u32;
        let flag = bits[p + 27];
        let q = p + 28;
        if flag {
            let g = spec_grid(bits, q);
            if q + 10 <= bits.len() && q + grid_size(g.num_rows as int, g.num_cols as int) <= bits.len() {
                Some((MetadataView {
                    targeted_system_display_maximum_luminance: tsdml,
                    targeted_system_display_actual_peak_luminance_flag: true,
                    actual_targeted_system_display: Some(g),
                    ..m
                }, q + grid_size(g.num_rows as int, g.num_cols as int)))
            } else {
                None
            }
        } else {
            Some((MetadataView {
                targeted_system_display_maximum_luminance: tsdml,
                targeted_system_display_actual_peak_luminance_flag: false,
                ..m
            }, q))
        }
    } else {
        None
    }
}

/// One window's luminance statistics: MaxSCL, AverageMaxRGB, the distribution (appended
/// to those of earlier windows) and the fraction of bright pixels.
pub open spec fn spec_window_step(bits: Seq<bool>, m: MetadataView, p: int) -> Option<(MetadataView, int)> {
    if p + 72 <= bits.len() {
        let np = field(bits, p + 68, 4) as u8;
        let q = p + 72 + 24 * np;
        if q + 10 <= bits.len() {
            Some((MetadataView {
                maxscl: seq![field(bits, p, 17) as u32, field(bits, p + 17, 17) as u32, field(bits, p + 34, 17) as u32],
                average_maxrgb: field(bits, p + 51, 17) as u32,
                num_distribution_maxrgb_percentiles: np,
                distribution_maxrgb: m.distribution_maxrgb + spec_distribution(bits, p + 72, np as int),
                fraction_bright_pixels: field(bits, q, 10) as u16,
                ..m
            }, q + 10))
        } else {
            None
        }
    } else {
        None
    }
}

/// `k` windows of luminance statistics.
pub open spec fn spec_windows(bits: Seq<bool>, m: MetadataView, p: int, k: nat) -> Option<(MetadataView, int)>
    decreases k,
{
    if k == 0 {
        Some((m, p))
    } else {
        match spec_windows(bits, m, p, (k - 1) as nat) {
            Some((m1, p1)) => spec_window_step(bits, m1, p1),
            None => None,
        }
    }
}

/// The mastering display flag and its optional grid.
pub open spec fn spec_parse_mastering(bits: Seq<bool>, m: MetadataView, p: int) -> Option<(MetadataView, int)> {
    if p + 1 <= bits.len() {
        let q = p + 1;
        if bits[p] {
            let g = spec_grid(bits, q);
            if q + 10 <= bits.len() && q + grid_size(g.num_rows as int, g.num_cols as int) <= bits.len() {
                Some((MetadataView {
                    mastering_display_actual_peak_luminance_flag: true,
                    actual_mastering_display: Some(g),
                    ..m
                }, q + grid_size(g.num_rows as int, g.num_cols as int)))
            } else {
                None
            }
        } else {
            Some((MetadataView { mastering_display_actual_peak_luminance_flag: false, ..m }, q))
        }
    } else {
        None
    }
}

/// One window's tone mapping flag and, when set, its Bezier curve.
pub open spec fn spec_tone_step(bits: Seq<bool>, m: MetadataView, p: int) -> Option<(MetadataView, int)> {
    if p + 1 <= bits.len() {
        let q = p + 1;
        if bits[p] {
            if q + 28 <= bits.len() && q + bezier_size(bits, q) <= bits.len() {
                Some((MetadataView {
                    tone_mapping_flag: true,
                    bezier_curve: Some(spec_bezier(bits, q)),
                    ..m
                }, q + bezier_size(bits, q)))
            } else {
                None
            }
        } else {
            Some((MetadataView { tone_mapping_flag: false, ..m }, q))
        }
    } else {
        None
    }
}

/// `k` windows of tone mapping.
pub open spec fn spec_tones(bits: Seq<bool>, m: MetadataView, p: int, k: nat) -> Option<(MetadataView, int)>
    decreases k,
{
    if k == 0 {
        Some((m, p))
    } else {
        match spec_tones(bits, m, p, (k - 1) as nat) {
            Some((m1, p1)) => spec_tone_step(bits, m1, p1),
            None => None,
        }
    }
}

/// The color saturation flag and, when set, its 6-bit weight.
pub open spec fn spec_parse_saturation(bits: Seq<bool>, m: MetadataView, p: int) -> Option<(MetadataView, int)> {
    if p + 1 <= bits.len() {
        if bits[p] {
            if p + 7 <= bits.len() {
                Some((MetadataView {
                    color_saturation_mapping_flag: true,
                    color_saturation_weight: field(bits, p + 1, 6) as u8,
                    ..m
                }, p + 7))
            } else {
                None
            }
        } else {
            Some((MetadataView { color_saturation_mapping_flag: false, ..m }, p + 1))
        }
    } else {
        None
    }
}

/// The metadata that `bits` hold, with the position after its last field, or `None` when
/// the bits end before the syntax does.
pub open spec fn spec_parse_bits(bits: Seq<bool>) -> Option<(MetadataView, int)> {
    if 58 <= bits.len() {
        let m0 = spec_header(bits);
        match spec_parse_processing_windows(bits, m0, 58) {
            Some((m1, p1)) => match spec_parse_targeted(bits, m1, p1) {
                Some((m2, p2)) => match spec_windows(bits, m2, p2, m2.num_windows as nat) {
                    Some((m3, p3)) => match spec_parse_mastering(bits, m3, p3) {
                        Some((m4, p4)) => match spec_tones(bits, m4, p4, m4.num_windows as nat) {
                            Some((m5, p5)) => match spec_parse_saturation(bits, m5, p5) {
                                Some((m6, p6)) => Some((MetadataView { profile: spec_profile(m6), ..m6 }, p6)),
                                None => None,
                            },
                            None => None,
                        },
                        None => None,
                    },
                    None => None,
                },
                None => None,
            },
            None => None,
        }
    } else {
        None
    }
}

/// The metadata that the bytes `data` hold.
pub open spec fn spec_parse(data: Seq<u8>) -> Option<MetadataView> {
    match spec_parse_bits(bytes_to_bits(data)) {
        Some((m, _)) => Some(m),
        None => None,
    }
}

pub proof fn lemma_windows_none(bits: Seq<bool>, m: MetadataView, p: int, j: nat, k: nat)
    requires
        j <= k,
        spec_windows(bits, m, p, j) is None,
    ensures
        spec_windows(bits, m, p, k) is None,
    decreases k - j,
{
    if j < k {
        lemma_windows_none(bits, m, p, j, (k - 1) as nat);
    }
}

pub proof fn lemma_tones_none(bits: Seq<bool>, m: MetadataView, p: int, j: nat, k: nat)
    requires
        j <= k,
        spec_tones(bits, m, p, j) is None,
    ensures
        spec_tones(bits, m, p, k) is None,
    decreases k - j,
{
    if j < k {
        lemma_tones_none(bits, m, p, j, (k - 1) as nat);
    }
}

impl Hdr10PlusMetadata {
    fn parse_processing_windows(&mut self, reader: &mut BitReader) -> (r: Result<(), BitstreamError>)
        requires
            old(reader).wf(),
        ensures
            final(reader).wf(),
            final(reader).bits() == old(reader).bits(),
            r is Ok <==> spec_parse_processing_windows(old(reader).bits(), old(self)@, old(reader).pos() as int) is Some,
            r is Ok ==> spec_parse_processing_windows(old(reader).bits(), old(self)@, old(reader).pos() as int)
                == Some((final(self)@, final(reader).pos() as int)),
    {
        if self.num_windows > 1 {
            let ghost bits = reader.bits();
            let ghost p = reader.pos() as int;
            let mut processing_windows: Vec<ProcessingWindow> = Vec::new();
            let mut i: u8 = 1;
            while i < self.num_windows
                invariant
                    reader.wf(),
                    reader.bits() == bits,
                    bits == old(reader).bits(),
                    p == old(reader).pos(),
                    *self == *old(self),
                    1 <= i <= self.num_windows,
                    processing_windows@.len() == i - 1,
                    reader.pos() == p + processing_window_size() * (i - 1),
                    forall|a: int| 0 <= a < i - 1 ==> #[trigger] processing_windows@[a]
                        == spec_processing_window(bits, p + processing_window_size() * a),
                decreases self.num_windows - i,
            {
                let pw = ProcessingWindow::parse(reader);
                match pw {
                    Ok(pw) => processing_windows.push(pw),
                    Err(e) => return Err(e),
                }
                i = i + 1;
            }
            proof {
                reader.lemma_wf();
                assert(processing_windows@ =~= Seq::new((self.num_windows - 1) as nat,
                    |a: int| spec_processing_window(bits, p + processing_window_size() * a)));
            }
            self.processing_windows = Some(processing_windows);
        }
        Ok(())
    }

    fn parse_targeted(&mut self, reader: &mut BitReader) -> (r: Result<(), BitstreamError>)
        requires
            old(reader).wf(),
        ensures
            final(reader).wf(),
            final(reader).bits() == old(reader).bits(),
            r is Ok <==> spec_parse_targeted(old(reader).bits(), old(self)@, old(reader).pos() as int) is Some,
            r is Ok ==> spec_parse_targeted(old(reader).bits(), old(self)@, old(reader).pos() as int)
                == Some((final(self)@, final(reader).pos() as int)),
    {
        let tsdml = reader.read(27)?;
        let flag = reader.read_flag()?;
        self.targeted_system_display_maximum_luminance = tsdml as u32;
        self.targeted_system_display_actual_peak_luminance_flag = flag;
        if flag {
            let (rows, cols, values) = parse_grid(reader)?;
            self.actual_targeted_system_display = Some(ActualTargetedSystemDisplay {
                num_rows_targeted_system_display_actual_peak_luminance: rows,
                num_cols_targeted_system_display_actual_peak_luminance: cols,
                targeted_system_display_actual_peak_luminance: values,
            });
        }
        proof {
            reader.lemma_wf();
        }
        Ok(())
    }

    fn parse_window(&mut self, reader: &mut BitReader) -> (r: Result<(), BitstreamError>)
        requires
            old(reader).wf(),
        ensures
            final(reader).wf(),
            final(reader).bits() == old(reader).bits(),
            r is Ok <==> spec_window_step(old(reader).bits(), old(self)@, old(reader).pos() as int) is Some,
            r is Ok ==> spec_window_step(old(reader).bits(), old(self)@, old(reader).pos() as int)
                == Some((final(self)@, final(reader).pos() as int)),
    {
        let ghost bits = reader.bits();
        let ghost p = reader.pos() as int;
        let ghost m = self@;
        let r = reader.read(17)?;
        let g = reader.read(17)?;
        let b = reader.read(17)?;
        let avg = reader.read(17)?;
        let np = reader.read(4)? as u8;
        self.maxscl = [r as u32, g as u32, b as u32];
        self.average_maxrgb = avg as u32;
        self.num_distribution_maxrgb_percentiles = np;
        let ghost dist0 = self.distribution_maxrgb@;
        let mut j: u8 = 0;
        while j < np
            invariant
                reader.wf(),
                reader.bits() == bits,
                bits == old(reader).bits(),
                p == old(reader).pos(),
                m == old(self)@,
                p + 72 <= bits.len(),
                np == field(bits, p + 68, 4) as u8,
                self.maxscl@ == seq![field(bits, p, 17) as u32, field(bits, p + 17, 17) as u32, field(bits, p + 34, 17) as u32],
                self.average_maxrgb == field(bits, p + 51, 17) as u32,
                self.num_distribution_maxrgb_percentiles == np,
                dist0 == m.distribution_maxrgb,
                self@ == (MetadataView {
                    maxscl: self.maxscl@,
                    average_maxrgb: self.average_maxrgb,
                    num_distribution_maxrgb_percentiles: np,
                    distribution_maxrgb: self.distribution_maxrgb@,
                    ..m
                }),
                j <= np,
                reader.pos() == p + 72 + 24 * j,
                self.distribution_maxrgb@ == dist0 + spec_distribution(bits, p + 72, j as int),
            decreases np - j,
        {
            let d = DistributionMaxRgb::parse(reader);
            match d {
                Ok(d) => {
                    self.distribution_maxrgb.push(d);
                    proof {
                        assert(spec_distribution(bits, p + 72, j + 1) =~= spec_distribution(bits, p + 72, j as int).push(d));
                    }
                },
                Err(e) => return Err(e),
            }
            j = j + 1;
        }
        let fbp = reader.read(10)?;
        self.fraction_bright_pixels = fbp as u16;
        proof {
            reader.lemma_wf();
        }
        Ok(())
    }
}

impl Hdr10PlusMetadata {
    fn parse_mastering(&mut self, reader: &mut BitReader) -> (r: Result<(), BitstreamError>)
        requires
            old(reader).wf(),
        ensures
            final(reader).wf(),
            final(reader).bits() == old(reader).bits(),
            r is Ok <==> spec_parse_mastering(old(reader).bits(), old(self)@, old(reader).pos() as int) is Some,
            r is Ok ==> spec_parse_mastering(old(reader).bits(), old(self)@, old(reader).pos() as int)
                == Some((final(self)@, final(reader).pos() as int)),
    {
        let flag = reader.read_flag()?;
        self.mastering_display_actual_peak_luminance_flag = flag;
        if flag {
            let (rows, cols, values) = parse_grid(reader)?;
            self.actual_mastering_display = Some(ActualMasteringDisplay {
                num_rows_mastering_display_actual_peak_luminance: rows,
                num_cols_mastering_display_actual_peak_luminanc: cols,
                mastering_display_actual_peak_luminance: values,
            });
        }
        proof {
            reader.lemma_wf();
        }
        Ok(())
    }

    fn parse_tone(&mut self, reader: &mut BitReader) -> (r: Result<(), BitstreamError>)
        requires
            old(reader).wf(),
        ensures
            final(reader).wf(),
            final(reader).bits() == old(reader).bits(),
            r is Ok <==> spec_tone_step(old(reader).bits(), old(self)@, old(reader).pos() as int) is Some,
            r is Ok ==> spec_tone_step(old(reader).bits(), old(self)@, old(reader).pos() as int)
                == Some((final(self)@, final(reader).pos() as int)),
    {
        let flag = reader.read_flag()?;
        self.tone_mapping_flag = flag;
        if flag {
            let bc = BezierCurve::parse(reader)?;
            self.bezier_curve = Some(bc);
        }
        proof {
            reader.lemma_wf();
        }
        Ok(())
    }

    fn parse_saturation(&mut self, reader: &mut BitReader) -> (r: Result<(), BitstreamError>)
        requires
            old(reader).wf(),
        ensures
            final(reader).wf(),
            final(reader).bits() == old(reader).bits(),
            r is Ok <==> spec_parse_saturation(old(reader).bits(), old(self)@, old(reader).pos() as int) is Some,
            r is Ok ==> spec_parse_saturation(old(reader).bits(), old(self)@, old(reader).pos() as int)
                == Some((final(self)@, final(reader).pos() as int)),
    {
        let flag = reader.read_flag()?;
        self.color_saturation_mapping_flag = flag;
        if flag {
            let w = reader.read(6)?;
            self.color_saturation_weight = w as u8;
        }
        proof {
            reader.lemma_wf();
        }
        Ok(())
    }

    /// Sets `profile` from the fields, as `spec_profile` says.
    pub fn set_profile(&mut self)
        ensures
            final(self)@ == (MetadataView { profile: spec_profile(old(self)@), ..old(self)@ }),
    {
        let profile = if self.tone_mapping_flag && self.targeted_system_display_maximum_luminance > 0 {
            match &self.bezier_curve {
                Some(bc) => if bc.num_bezier_curve_anchors > 0 {
                    "B"
                } else {
                    "N/A"
                },
                None => "N/A",
            }
        } else if !self.tone_mapping_flag && self.targeted_system_display_maximum_luminance == 0 {
            "A"
        } else {
            "N/A"
        };
        proof {
            reveal_strlit("B");
            reveal_strlit("A");
            reveal_strlit("N/A");
            assert(profile@ == spec_profile(self@));
        }
        self.profile = profile.to_owned();
    }

    /// Parses the ST 2094-40 syntax from `data`, starting at `itu_t_t35_country_code`.
    /// Fails exactly when `data` ends before the syntax does; the bits after the last field
    /// are ignored.
    pub fn parse(data: &[u8]) -> (r: Result<Hdr10PlusMetadata, Hdr10PlusError>)
        ensures
            match r {
                Ok(m) => spec_parse(data@) == Some(m@),
                Err(e) => spec_parse(data@) is None && e == Hdr10PlusError::Bitstream(BitstreamError::UnexpectedEnd),
            },
    {
        let mut reader = BitReader::new(data);
        let r = Self::parse_bits(&mut reader);
        match r {
            Ok(m) => Ok(m),
            Err(_) => Err(Hdr10PlusError::Bitstream(BitstreamError::UnexpectedEnd)),
        }
    }

    fn parse_bits(reader: &mut BitReader) -> (r: Result<Hdr10PlusMetadata, BitstreamError>)
        requires
            old(reader).wf(),
            old(reader).pos() == 0,
        ensures
            r is Ok <==> spec_parse_bits(old(reader).bits()) is Some,
            r matches Ok(m) ==> spec_parse_bits(old(reader).bits()).unwrap().0 == m@,
    {
        let ghost bits = reader.bits();
        let c = reader.read(8)?;
        let tp = reader.read(16)?;
        let tpo = reader.read(16)?;
        let app_id = reader.read(8)?;
        let app_ver = reader.read(8)?;
        let nw = reader.read(2)?;
        let mut meta = Hdr10PlusMetadata {
            profile: String::new(),
            itu_t_t35_country_code: c as u8,
            itu_t_t35_terminal_provider_code: tp as u16,
            itu_t_t35_terminal_provider_oriented_code: tpo as u16,
            application_identifier: app_id as u8,
            application_version: app_ver as u8,
            num_windows: nw as u8,
            processing_windows: None,
            targeted_system_display_maximum_luminance: 0,
            targeted_system_display_actual_peak_luminance_flag: false,
            actual_targeted_system_display: None,
            maxscl: [0, 0, 0],
            average_maxrgb: 0,
            num_distribution_maxrgb_percentiles: 0,
            distribution_maxrgb: Vec::new(),
            fraction_bright_pixels: 0,
            mastering_display_actual_peak_luminance_flag: false,
            actual_mastering_display: None,
            tone_mapping_flag: false,
            bezier_curve: None,
            color_saturation_mapping_flag: false,
            color_saturation_weight: 0,
        };
        assert(meta@ == spec_header(bits));
        meta.parse_processing_windows(reader)?;
        let ghost m1 = meta@;
        let ghost p1 = reader.pos() as int;
        meta.parse_targeted(reader)?;
        let ghost m2 = meta@;
        let ghost p2 = reader.pos() as int;
        let mut i: u8 = 0;
        while i < meta.num_windows
            invariant
                reader.wf(),
                reader.bits() == bits,
                bits == old(reader).bits(),
                meta.num_windows == m2.num_windows,
                58 <= bits.len(),
                spec_parse_processing_windows(bits, spec_header(bits), 58) == Some((m1, p1)),
                spec_parse_targeted(bits, m1, p1) == Some((m2, p2)),
                i <= meta.num_windows,
                spec_windows(bits, m2, p2, i as nat) == Some((meta@, reader.pos() as int)),
            decreases meta.num_windows - i,
        {
            let r = meta.parse_window(reader);
            if r.is_err() {
                proof {
                    lemma_windows_none(bits, m2, p2, (i + 1) as nat, m2.num_windows as nat);
                }
                return Err(BitstreamError::UnexpectedEnd);
            }
            i = i + 1;
        }
        let ghost m3 = meta@;
        let ghost p3 = reader.pos() as int;
        meta.parse_mastering(reader)?;
        let ghost m4 = meta@;
        let ghost p4 = reader.pos() as int;
        let mut i: u8 = 0;
        while i < meta.num_windows
            invariant
                reader.wf(),
                reader.bits() == bits,
                bits == old(reader).bits(),
                meta.num_windows == m4.num_windows,
                58 <= bits.len(),
                spec_parse_processing_windows(bits, spec_header(bits), 58) == Some((m1, p1)),
                spec_parse_targeted(bits, m1, p1) == Some((m2, p2)),
                spec_windows(bits, m2, p2, m2.num_windows as nat) == Some((m3, p3)),
                spec_parse_mastering(bits, m3, p3) == Some((m4, p4)),
                i <= meta.num_windows,
                spec_tones(bits, m4, p4, i as nat) == Some((meta@, reader.pos() as int)),
            decreases meta.num_windows - i,
        {
            let r = meta.parse_tone(reader);
            if r.is_err() {
                proof {
                    lemma_tones_none(bits, m4, p4, (i + 1) as nat, m4.num_windows as nat);
                }
                return Err(BitstreamError::UnexpectedEnd);
            }
            i = i + 1;
        }
        meta.parse_saturation(reader)?;
        meta.set_profile();
        Ok(meta)
    }
}

/// The standard distribution indexes for a percentile count: 9 or 10 of them.
pub open spec fn standard_distribution_indexes(n: u8) -> Option<Seq<u8>> {
    if n == 9 {
        Some(seq![1u8, 5, 10, 25, 50, 75, 90, 95, 99])
    } else if n == 10 {
        Some(seq![1u8, 5, 10, 25, 50, 75, 90, 95, 98, 99])
    } else {
        None
    }
}

/// The percentages of a distribution list.
pub open spec fn spec_distribution_index(list: Seq<DistributionMaxRgb>) -> Seq<u8> {
    list.map_values(|d: DistributionMaxRgb| d.percentage)
}

/// The percentiles of a distribution list.
pub open spec fn spec_distribution_values(list: Seq<DistributionMaxRgb>) -> Seq<u32> {
    list.map_values(|d: DistributionMaxRgb| d.percentile)
}

/// The first rule that a distribution list breaks: the count must be 9 or 10, the indexes
/// the standard ones for it, and every value at most 100000.
pub open spec fn spec_distribution_error(list: Seq<DistributionMaxRgb>, n: u8) -> Option<Hdr10PlusError> {
    match standard_distribution_indexes(n) {
        None => Some(Hdr10PlusError::InvalidPercentileCount(n)),
        Some(idx) => if spec_distribution_index(list) != idx {
            Some(Hdr10PlusError::InvalidDistributionIndex)
        } else if exists|i: int| 0 <= i < list.len() && #[trigger] list[i].percentile > 100_000 {
            Some(Hdr10PlusError::DistributionValuesOverLimit)
        } else {
            None
        },
    }
}

/// A distribution list validates exactly when its count is 9 and its percentages are
/// 1, 5, 10, 25, 50, 75, 90, 95, 99, or its count is 10 and its percentages are 1, 5, 10,
/// 25, 50, 75, 90, 95, 98, 99, and every percentile is at most 100000. Otherwise the
/// first rule broken is reported: another count, then other percentages, then a
/// percentile over 100000.
pub proof fn law_distribution_validation(list: Seq<DistributionMaxRgb>, n: u8)
    ensures
        spec_distribution_error(list, n) == (if n != 9 && n != 10 {
            Some(Hdr10PlusError::InvalidPercentileCount(n))
        } else if !(if n == 9 {
            list.len() == 9 && list[0].percentage == 1 && list[1].percentage == 5 && list[2].percentage == 10
                && list[3].percentage == 25 && list[4].percentage == 50 && list[5].percentage == 75
                && list[6].percentage == 90 && list[7].percentage == 95 && list[8].percentage == 99
        } else {
            list.len() == 10 && list[0].percentage == 1 && list[1].percentage == 5 && list[2].percentage == 10
                && list[3].percentage == 25 && list[4].percentage == 50 && list[5].percentage == 75
                && list[6].percentage == 90 && list[7].percentage == 95 && list[8].percentage == 98
                && list[9].percentage == 99
        }) {
            Some(Hdr10PlusError::InvalidDistributionIndex)
        } else if exists|i: int| 0 <= i < list.len() && #[trigger] list[i].percentile > 100_000 {
            Some(Hdr10PlusError::DistributionValuesOverLimit)
        } else {
            None
        }),
{
    let idx = spec_distribution_index(list);
    if n == 9 {
        let lit = seq![1u8, 5, 10, 25, 50, 75, 90, 95, 99];
        if list.len() == 9 {
            assert(idx.len() == 9);
            if idx == lit {
                assert(idx[0] == list[0].percentage);
                assert(idx[1] == list[1].percentage);
                assert(idx[2] == list[2].percentage);
                assert(idx[3] == list[3].percentage);
                assert(idx[4] == list[4].percentage);
                assert(idx[5] == list[5].percentage);
                assert(idx[6] == list[6].percentage);
                assert(idx[7] == list[7].percentage);
                assert(idx[8] == list[8].percentage);
            }
            if list[0].percentage == 1 && list[1].percentage == 5 && list[2].percentage == 10
                && list[3].percentage == 25 && list[4].percentage == 50 && list[5].percentage == 75
                && list[6].percentage == 90 && list[7].percentage == 95 && list[8].percentage == 99 {
                assert(idx =~= lit);
            }
        } else {
            assert(idx.len() != lit.len());
        }
    } else if n == 10 {
        let lit = seq![1u8, 5, 10, 25, 50, 75, 90, 95, 98, 99];
        if list.len() == 10 {
            assert(idx.len() == 10);
            if idx == lit {
                assert(idx[0] == list[0].percentage);
                assert(idx[1] == list[1].percentage);
                assert(idx[2] == list[2].percentage);
                assert(idx[3] == list[3].percentage);
                assert(idx[4] == list[4].percentage);
                assert(idx[5] == list[5].percentage);
                assert(idx[6] == list[6].percentage);
                assert(idx[7] == list[7].percentage);
                assert(idx[8] == list[8].percentage);
                assert(idx[9] == list[9].percentage);
            }
            if list[0].percentage == 1 && list[1].percentage == 5 && list[2].percentage == 10
                && list[3].percentage == 25 && list[4].percentage == 50 && list[5].percentage == 75
                && list[6].percentage == 90 && list[7].percentage == 95 && list[8].percentage == 98
                && list[9].percentage == 99 {
                assert(idx =~= lit);
            }
        } else {
            assert(idx.len() != lit.len());
        }
    }
}

/// The first rule that a Bezier curve breaks: knee points at most 4095, at most 9
/// anchors, every anchor below 1024.
pub open spec fn spec_bezier_error(bc: BezierCurveView) -> Option<Hdr10PlusError> {
    if bc.knee_point_x > 4095 {
        Some(Hdr10PlusError::InvalidKneePointX(bc.knee_point_x))
    } else if bc.knee_point_y > 4095 {
        Some(Hdr10PlusError::InvalidKneePointY(bc.knee_point_y))
    } else if bc.num_bezier_curve_anchors > 9 {
        Some(Hdr10PlusError::InvalidAnchorCount(bc.num_bezier_curve_anchors))
    } else if exists|i: int| 0 <= i < bc.bezier_curve_anchors.len() && #[trigger] bc.bezier_curve_anchors[i] >= 1024 {
        Some(Hdr10PlusError::InvalidAnchorValues)
    } else {
        None
    }
}

/// The first rule of ST 2094-40 application 4 version 1 that the metadata breaks, in the
/// order they are checked.
pub open spec fn spec_validation_error(m: MetadataView) -> Option<Hdr10PlusError> {
    if m.application_identifier != 4 {
        Some(Hdr10PlusError::InvalidApplicationIdentifier(m.application_identifier))
    } else if m.application_version != 1 {
        Some(Hdr10PlusError::InvalidApplicationVersion(m.application_version))
    } else if m.num_windows != 1 {
        Some(Hdr10PlusError::InvalidNumWindows(m.num_windows))
    } else if m.targeted_system_display_actual_peak_luminance_flag {
        Some(Hdr10PlusError::TargetedSystemDisplayPeakLuminanceFlagSet)
    } else if m.mastering_display_actual_peak_luminance_flag {
        Some(Hdr10PlusError::MasteringDisplayPeakLuminanceFlagSet)
    } else if m.color_saturation_mapping_flag {
        Some(Hdr10PlusError::ColorSaturationMappingFlagSet)
    } else if m.targeted_system_display_maximum_luminance > 10000 {
        Some(Hdr10PlusError::TargetedSystemDisplayMaximumLuminanceOverLimit(m.targeted_system_display_maximum_luminance))
    } else if m.tone_mapping_flag && m.targeted_system_display_maximum_luminance == 0 {
        Some(Hdr10PlusError::ProfileBZeroTargetedLuminance)
    } else if !m.tone_mapping_flag && m.targeted_system_display_maximum_luminance != 0 {
        Some(Hdr10PlusError::ProfileANonZeroTargetedLuminance)
    } else if exists|i: int| 0 <= i < m.maxscl.len() && #[trigger] m.maxscl[i] > 100_000 {
        Some(Hdr10PlusError::MaxSclOverLimit)
    } else if m.average_maxrgb > 100_000 {
        Some(Hdr10PlusError::AverageMaxRgbOverLimit(m.average_maxrgb))
    } else if spec_distribution_error(m.distribution_maxrgb, m.num_distribution_maxrgb_percentiles) is Some {
        spec_distribution_error(m.distribution_maxrgb, m.num_distribution_maxrgb_percentiles)
    } else {
        match m.bezier_curve {
            Some(bc) => spec_bezier_error(bc),
            None => None,
        }
    }
}

/// `Ok(())` when there is no error, else the error.
pub open spec fn as_result(e: Option<Hdr10PlusError>) -> Result<(), Hdr10PlusError> {
    match e {
        Some(e) => Err(e),
        None => Ok(()),
    }
}

impl DistributionMaxRgb {
    /// The percentages of `list`, in order.
    pub fn distribution_index(list: &[Self]) -> (r: Vec<u8>)
        ensures
            r@ == spec_distribution_index(list@),
    {
        let mut r: Vec<u8> = Vec::new();
        let mut i: usize = 0;
        while i < list.len()
            invariant
                i <= list@.len(),
                r@ == spec_distribution_index(list@.take(i as int)),
            decreases list@.len() - i,
        {
            r.push(list[i].percentage);
            proof {
                assert(list@.take(i + 1) =~= list@.take(i as int).push(list@[i as int]));
                assert(spec_distribution_index(list@.take(i + 1)) =~= spec_distribution_index(list@.take(i as int)).push(list@[i as int].percentage));
            }
            i = i + 1;
        }
        proof {
            assert(list@.take(i as int) =~= list@);
        }
        r
    }

    /// The percentiles of `list`, in order.
    pub fn distribution_values(list: &[Self]) -> (r: Vec<u32>)
        ensures
            r@ == spec_distribution_values(list@),
    {
        let mut r: Vec<u32> = Vec::new();
        let mut i: usize = 0;
        while i < list.len()
            invariant
                i <= list@.len(),
                r@ == spec_distribution_values(list@.take(i as int)),
            decreases list@.len() - i,
        {
            r.push(list[i].percentile);
            proof {
                assert(list@.take(i + 1) =~= list@.take(i as int).push(list@[i as int]));
                assert(spec_distribution_values(list@.take(i + 1)) =~= spec_distribution_values(list@.take(i as int)).push(list@[i as int].percentile));
            }
            i = i + 1;
        }
        proof {
            assert(list@.take(i as int) =~= list@);
        }
        r
    }

    /// Checks a distribution list against its declared percentile count.
    pub fn validate(list: &[Self], num_distribution_maxrgb_percentiles: u8) -> (r: Result<(), Hdr10PlusError>)
        ensures
            r == as_result(spec_distribution_error(list@, num_distribution_maxrgb_percentiles)),
    {
        let correct_indexes: Vec<u8> = if num_distribution_maxrgb_percentiles == 9 {
            vec![1, 5, 10, 25, 50, 75, 90, 95, 99]
        } else if num_distribution_maxrgb_percentiles == 10 {
            vec![1, 5, 10, 25, 50, 75, 90, 95, 98, 99]
        } else {
            return Err(Hdr10PlusError::InvalidPercentileCount(num_distribution_maxrgb_percentiles));
        };
        assert(standard_distribution_indexes(num_distribution_maxrgb_percentiles) == Some(correct_indexes@));
        let index = Self::distribution_index(list);
        if index.len() != correct_indexes.len() {
            assert(index@ != correct_indexes@);
            return Err(Hdr10PlusError::InvalidDistributionIndex);
        }
        let mut i: usize = 0;
        while i < index.len()
            invariant
                index@ == spec_distribution_index(list@),
                standard_distribution_indexes(num_distribution_maxrgb_percentiles) == Some(correct_indexes@),
                index@.len() == correct_indexes@.len(),
                i <= index@.len(),
                forall|a: int| 0 <= a < i ==> index@[a] == correct_indexes@[a],
            decreases index@.len() - i,
        {
            if index[i] != correct_indexes[i] {
                assert(index@[i as int] != correct_indexes@[i as int]);
                assert(index@ != correct_indexes@);
                return Err(Hdr10PlusError::InvalidDistributionIndex);
            }
            i = i + 1;
        }
        assert(index@ =~= correct_indexes@);
        let mut j: usize = 0;
        while j < list.len()
            invariant
                index@ == spec_distribution_index(list@),
                standard_distribution_indexes(num_distribution_maxrgb_percentiles) == Some(correct_indexes@),
                index@ == correct_indexes@,
                j <= list@.len(),
                forall|a: int| 0 <= a < j ==> #[trigger] list@[a].percentile <= 100_000,
            decreases list@.len() - j,
        {
            if list[j].percentile > 100_000 {
                assert(list@[j as int].percentile > 100_000);
                return Err(Hdr10PlusError::DistributionValuesOverLimit);
            }
            j = j + 1;
        }
        Ok(())
    }
}

impl BezierCurve {
    /// Checks the knee point, the anchor count and the anchor values.
    pub fn validate(&self) -> (r: Result<(), Hdr10PlusError>)
        ensures
            r == as_result(spec_bezier_error(self@)),
    {
        if self.knee_point_x > 4095 {
            return Err(Hdr10PlusError::InvalidKneePointX(self.knee_point_x));
        }
        if self.knee_point_y > 4095 {
            return Err(Hdr10PlusError::InvalidKneePointY(self.knee_point_y));
        }
        if self.num_bezier_curve_anchors > 9 {
            return Err(Hdr10PlusError::InvalidAnchorCount(self.num_bezier_curve_anchors));
        }
        let mut i: usize = 0;
        while i < self.bezier_curve_anchors.len()
            invariant
                self.knee_point_x <= 4095,
                self.knee_point_y <= 4095,
                self.num_bezier_curve_anchors <= 9,
                i <= self.bezier_curve_anchors@.len(),
                forall|a: int| 0 <= a < i ==> #[trigger] self.bezier_curve_anchors@[a] < 1024,
            decreases self.bezier_curve_anchors@.len() - i,
        {
            if self.bezier_curve_anchors[i] >= 1024 {
                assert(self@.bezier_curve_anchors[i as int] >= 1024);
                return Err(Hdr10PlusError::InvalidAnchorValues);
            }
            i = i + 1;
        }
        Ok(())
    }
}

impl Hdr10PlusMetadata {
    fn validate_v1(&self) -> (r: Result<(), Hdr10PlusError>)
        ensures
            r is Ok <==> self.num_windows == 1 && !self.targeted_system_display_actual_peak_luminance_flag
                && !self.mastering_display_actual_peak_luminance_flag && !self.color_saturation_mapping_flag,
            r matches Err(e) ==> spec_validation_error(self@) == Some(e) || self.application_identifier != 4
                || self.application_version != 1,
    {
        if self.num_windows != 1 {
            return Err(Hdr10PlusError::InvalidNumWindows(self.num_windows));
        }
        if self.targeted_system_display_actual_peak_luminance_flag {
            return Err(Hdr10PlusError::TargetedSystemDisplayPeakLuminanceFlagSet);
        }
        if self.mastering_display_actual_peak_luminance_flag {
            return Err(Hdr10PlusError::MasteringDisplayPeakLuminanceFlagSet);
        }
        if self.color_saturation_mapping_flag {
            return Err(Hdr10PlusError::ColorSaturationMappingFlagSet);
        }
        Ok(())
    }

    /// Checks the metadata against ST 2094-40 application 4 version 1 and returns the first
    /// rule it breaks.
    pub fn validate(&self) -> (r: Result<(), Hdr10PlusError>)
        ensures
            r == as_result(spec_validation_error(self@)),
    {
        if self.application_identifier != 4 {
            return Err(Hdr10PlusError::InvalidApplicationIdentifier(self.application_identifier));
        }
        if self.application_version != 1 {
            return Err(Hdr10PlusError::InvalidApplicationVersion(self.application_version));
        }
        if self.application_version == 1 {
            self.validate_v1()?;
        }
        if self.targeted_system_display_maximum_luminance > 10000 {
            return Err(Hdr10PlusError::TargetedSystemDisplayMaximumLuminanceOverLimit(
                self.targeted_system_display_maximum_luminance,
            ));
        }
        if self.tone_mapping_flag {
            if self.targeted_system_display_maximum_luminance == 0 {
                return Err(Hdr10PlusError::ProfileBZeroTargetedLuminance);
            }
        } else {
            if self.targeted_system_display_maximum_luminance != 0 {
                return Err(Hdr10PlusError::ProfileANonZeroTargetedLuminance);
            }
        }
        if self.maxscl[0] > 100_000 || self.maxscl[1] > 100_000 || self.maxscl[2] > 100_000 {
            assert(self@.maxscl[0] > 100_000 || self@.maxscl[1] > 100_000 || self@.maxscl[2] > 100_000);
            return Err(Hdr10PlusError::MaxSclOverLimit);
        }
        assert(forall|i: int| 0 <= i < self.maxscl@.len() ==> !(#[trigger] self.maxscl@[i] > 100_000));
        if self.average_maxrgb > 100_000 {
            return Err(Hdr10PlusError::AverageMaxRgbOverLimit(self.average_maxrgb));
        }
        DistributionMaxRgb::validate(
            self.distribution_maxrgb.as_slice(),
            self.num_distribution_maxrgb_percentiles,
        )?;
        match &self.bezier_curve {
            Some(bc) => bc.validate(),
            None => Ok(()),
        }
    }
}

/// The bits that a processing window is written as. The slot of
/// `semiminor_axis_external_ellipse` holds `semimajor_axis_external_ellipse` again: the
/// writer this follows has always written the semi-major axis twice and never the
/// semi-minor one, so the semi-minor axis does not survive encoding.
pub closed spec fn processing_window_bits(pw: ProcessingWindow) -> Seq<bool> {
    bits_of(pw.window_upper_left_corner_x as nat, 16) + bits_of(pw.window_upper_left_corner_y as nat, 16)
        + bits_of(pw.window_lower_right_corner_x as nat, 16) + bits_of(pw.window_lower_right_corner_y as nat, 16)
        + bits_of(pw.center_of_ellipse_x as nat, 16) + bits_of(pw.center_of_ellipse_y as nat, 16)
        + bits_of(pw.rotation_angle as nat, 8) + bits_of(pw.semimajor_axis_internal_ellipse as nat, 16)
        + bits_of(pw.semimajor_axis_external_ellipse as nat, 16) + bits_of(pw.semimajor_axis_external_ellipse as nat, 16)
        + seq![pw.overlap_process_option]
}

/// Whether a processing window's two external semi-axes are equal, so that writing it,
/// which repeats the first in the slot of the second, loses nothing.
pub closed spec fn window_axes_agree(pw: ProcessingWindow) -> bool {
    pw.semiminor_axis_external_ellipse == pw.semimajor_axis_external_ellipse
}

/// A processing window is written as 153 bits.
pub proof fn lemma_processing_window_len(pw: ProcessingWindow)
    ensures
        processing_window_bits(pw).len() == processing_window_size(),
{
    crate::bits::lemma_bits_of_len(pw.window_upper_left_corner_x as nat, 16);
    crate::bits::lemma_bits_of_len(pw.window_upper_left_corner_y as nat, 16);
    crate::bits::lemma_bits_of_len(pw.window_lower_right_corner_x as nat, 16);
    crate::bits::lemma_bits_of_len(pw.window_lower_right_corner_y as nat, 16);
    crate::bits::lemma_bits_of_len(pw.center_of_ellipse_x as nat, 16);
    crate::bits::lemma_bits_of_len(pw.center_of_ellipse_y as nat, 16);
    crate::bits::lemma_bits_of_len(pw.rotation_angle as nat, 8);
    crate::bits::lemma_bits_of_len(pw.semimajor_axis_internal_ellipse as nat, 16);
    crate::bits::lemma_bits_of_len(pw.semimajor_axis_external_ellipse as nat, 16);
}

/// A list of processing windows is written as 153 bits per window.
pub proof fn lemma_processing_windows_len(pws: Seq<ProcessingWindow>)
    ensures
        processing_windows_bits(pws).len() == processing_window_size() * pws.len(),
    decreases pws.len(),
{
    if pws.len() > 0 {
        lemma_processing_windows_len(pws.drop_last());
        lemma_processing_window_len(pws.last());
        assert(processing_window_size() * (pws.len() - 1) + processing_window_size() == processing_window_size() * pws.len())
            by (nonlinear_arith);
    }
}

/// A processing window whose external semi-axes agree reads back from its bits.
pub proof fn lemma_processing_window_roundtrip(s: Seq<bool>, p: int, pw: ProcessingWindow)
    requires
        0 <= p,
        p + processing_window_size() <= s.len(),
        s.subrange(p, p + processing_window_size()) == processing_window_bits(pw),
        window_axes_agree(pw),
    ensures
        spec_processing_window(s, p) == pw,
{
    lemma_pow2_values();
    lemma_processing_window_len(pw);
    let a = bits_of(pw.window_upper_left_corner_x as nat, 16);
    let b = bits_of(pw.window_upper_left_corner_y as nat, 16);
    let c = bits_of(pw.window_lower_right_corner_x as nat, 16);
    let d = bits_of(pw.window_lower_right_corner_y as nat, 16);
    let e = bits_of(pw.center_of_ellipse_x as nat, 16);
    let f = bits_of(pw.center_of_ellipse_y as nat, 16);
    let g = bits_of(pw.rotation_angle as nat, 8);
    let h = bits_of(pw.semimajor_axis_internal_ellipse as nat, 16);
    let i = bits_of(pw.semimajor_axis_external_ellipse as nat, 16);
    let o = seq![pw.overlap_process_option];
    crate::bits::lemma_bits_of_len(pw.window_upper_left_corner_x as nat, 16);
    crate::bits::lemma_bits_of_len(pw.window_upper_left_corner_y as nat, 16);
    crate::bits::lemma_bits_of_len(pw.window_lower_right_corner_x as nat, 16);
    crate::bits::lemma_bits_of_len(pw.window_lower_right_corner_y as nat, 16);
    crate::bits::lemma_bits_of_len(pw.center_of_ellipse_x as nat, 16);
    crate::bits::lemma_bits_of_len(pw.center_of_ellipse_y as nat, 16);
    crate::bits::lemma_bits_of_len(pw.rotation_angle as nat, 8);
    crate::bits::lemma_bits_of_len(pw.semimajor_axis_internal_ellipse as nat, 16);
    crate::bits::lemma_bits_of_len(pw.semimajor_axis_external_ellipse as nat, 16);
    assert(processing_window_bits(pw) == (((((((((a + b) + c) + d) + e) + f) + g) + h) + i) + i) + o);
    crate::roundtrip::lemma_window_split(s, p, (((((((((a + b) + c) + d) + e) + f) + g) + h) + i) + i), o);
    crate::roundtrip::lemma_window_split(s, p, ((((((((a + b) + c) + d) + e) + f) + g) + h) + i), i);
    crate::roundtrip::lemma_window_split(s, p, (((((((a + b) + c) + d) + e) + f) + g) + h), i);
    crate::roundtrip::lemma_window_split(s, p, ((((((a + b) + c) + d) + e) + f) + g), h);
    crate::roundtrip::lemma_window_split(s, p, (((((a + b) + c) + d) + e) + f), g);
    crate::roundtrip::lemma_window_split(s, p, ((((a + b) + c) + d) + e), f);
    crate::roundtrip::lemma_window_split(s, p, (((a + b) + c) + d), e);
    crate::roundtrip::lemma_window_split(s, p, ((a + b) + c), d);
    crate::roundtrip::lemma_window_split(s, p, (a + b), c);
    crate::roundtrip::lemma_window_split(s, p, a, b);
    crate::roundtrip::lemma_field_bits(s, p, pw.window_upper_left_corner_x as nat, 16);
    crate::roundtrip::lemma_field_bits(s, p + 16, pw.window_upper_left_corner_y as nat, 16);
    crate::roundtrip::lemma_field_bits(s, p + 32, pw.window_lower_right_corner_x as nat, 16);
    crate::roundtrip::lemma_field_bits(s, p + 48, pw.window_lower_right_corner_y as nat, 16);
    crate::roundtrip::lemma_field_bits(s, p + 64, pw.center_of_ellipse_x as nat, 16);
    crate::roundtrip::lemma_field_bits(s, p + 80, pw.center_of_ellipse_y as nat, 16);
    crate::roundtrip::lemma_field_bits(s, p + 96, pw.rotation_angle as nat, 8);
    crate::roundtrip::lemma_field_bits(s, p + 104, pw.semimajor_axis_internal_ellipse as nat, 16);
    crate::roundtrip::lemma_field_bits(s, p + 120, pw.semimajor_axis_external_ellipse as nat, 16);
    crate::roundtrip::lemma_field_bits(s, p + 136, pw.semimajor_axis_external_ellipse as nat, 16);
    crate::roundtrip::lemma_bit(s, p + 152, pw.overlap_process_option);
}

/// A list of processing windows whose external semi-axes agree reads back from its bits.
pub proof fn lemma_processing_windows_roundtrip(s: Seq<bool>, p: int, pws: Seq<ProcessingWindow>)
    requires
        0 <= p,
        p + processing_window_size() * pws.len() <= s.len(),
        s.subrange(p, p + processing_window_size() * pws.len()) == processing_windows_bits(pws),
        forall|i: int| 0 <= i < pws.len() ==> window_axes_agree(#[trigger] pws[i]),
    ensures
        Seq::new(pws.len(), |i: int| spec_processing_window(s, p + processing_window_size() * i)) == pws,
    decreases pws.len(),
{
    if pws.len() > 0 {
        let k = pws.len() - 1;
        let d = pws.drop_last();
        lemma_processing_windows_len(d);
        lemma_processing_window_len(pws.last());
        assert(processing_window_size() * k + processing_window_size() == processing_window_size() * pws.len())
            by (nonlinear_arith)
            requires
                k == pws.len() - 1,
        ;
        crate::roundtrip::lemma_window_split(s, p, processing_windows_bits(d), processing_window_bits(pws.last()));
        lemma_processing_windows_roundtrip(s, p, d);
        assert(window_axes_agree(pws[k as int]));
        lemma_processing_window_roundtrip(s, p + processing_window_size() * k, pws.last());
        assert(Seq::new(pws.len(), |i: int| spec_processing_window(s, p + processing_window_size() * i)) =~= pws) by {
            assert forall|i: int| 0 <= i < pws.len() implies spec_processing_window(s, p + processing_window_size() * i) == pws[i] by {
                if i < k {
                    assert(Seq::new(d.len(), |j: int| spec_processing_window(s, p + processing_window_size() * j))[i] == d[i]);
                }
            }
        }
    }
}

/// The bits of a list of processing windows, in order.
pub open spec fn processing_windows_bits(pws: Seq<ProcessingWindow>) -> Seq<bool>
    decreases pws.len(),
{
    if pws.len() == 0 {
        seq![]
    } else {
        processing_windows_bits(pws.drop_last()) + processing_window_bits(pws.last())
    }
}

/// The bits of the first `cols` values of a grid row, 4 bits each.
pub open spec fn grid_row_bits(row: Seq<u8>, cols: nat) -> Seq<bool>
    decreases cols,
{
    if cols == 0 {
        seq![]
    } else {
        grid_row_bits(row, (cols - 1) as nat) + bits_of(row[cols - 1] as nat, 4)
    }
}

/// The bits of the first `rows` rows of a grid.
pub open spec fn grid_rows_bits(values: Seq<Seq<u8>>, rows: nat, cols: nat) -> Seq<bool>
    decreases rows,
{
    if rows == 0 {
        seq![]
    } else {
        grid_rows_bits(values, (rows - 1) as nat, cols) + grid_row_bits(values[rows - 1], cols)
    }
}

/// The bits that a luminance grid is written as.
pub open spec fn grid_bits(g: LuminanceGridView) -> Seq<bool> {
    bits_of(g.num_rows as nat, 5) + bits_of(g.num_cols as nat, 5) + grid_rows_bits(
        g.values,
        g.num_rows as nat,
        g.num_cols as nat,
    )
}

/// The grid holds at least as many rows and columns as it declares.
pub open spec fn grid_shaped(g: LuminanceGridView) -> bool {
    &&& g.values.len() >= g.num_rows
    &&& forall|i: int| 0 <= i < g.num_rows ==> #[trigger] g.values[i].len() >= g.num_cols
}

/// Every value of the grid that is written fits in its bits.
pub open spec fn grid_fits(g: LuminanceGridView) -> bool {
    &&& g.num_rows < 32
    &&& g.num_cols < 32
    &&& forall|i: int, j: int| 0 <= i < g.num_rows && 0 <= j < g.num_cols ==> #[trigger] g.values[i][j] < 16
}

/// The bits of a distribution list: per entry, 7 bits of percentage, 17 of percentile.
pub open spec fn distribution_bits(list: Seq<DistributionMaxRgb>) -> Seq<bool>
    decreases list.len(),
{
    if list.len() == 0 {
        seq![]
    } else {
        distribution_bits(list.drop_last()) + bits_of(list.last().percentage as nat, 7) + bits_of(
            list.last().percentile as nat,
            17,
        )
    }
}

/// The bits of the first `k` anchors, 10 bits each.
pub open spec fn anchors_bits(anchors: Seq<u16>, k: nat) -> Seq<bool>
    decreases k,
{
    if k == 0 {
        seq![]
    } else {
        anchors_bits(anchors, (k - 1) as nat) + bits_of(anchors[k - 1] as nat, 10)
    }
}

/// The bits that a Bezier curve is written as: every anchor it holds is written.
pub open spec fn bezier_bits(bc: BezierCurveView) -> Seq<bool> {
    bits_of(bc.knee_point_x as nat, 12) + bits_of(bc.knee_point_y as nat, 12) + bits_of(
        bc.num_bezier_curve_anchors as nat,
        4,
    ) + anchors_bits(bc.bezier_curve_anchors, bc.bezier_curve_anchors.len())
}

/// Every value of the Bezier curve fits in its bits.
pub open spec fn bezier_fits(bc: BezierCurveView) -> bool {
    &&& bc.knee_point_x < 4096
    &&& bc.knee_point_y < 4096
    &&& bc.num_bezier_curve_anchors < 16
    &&& forall|i: int| 0 <= i < bc.bezier_curve_anchors.len() ==> #[trigger] bc.bezier_curve_anchors[i] < 1024
}

/// The bits of one window's luminance statistics.
pub open spec fn window_bits(m: MetadataView) -> Seq<bool> {
    bits_of(m.maxscl[0] as nat, 17) + bits_of(m.maxscl[1] as nat, 17) + bits_of(m.maxscl[2] as nat, 17)
        + bits_of(m.average_maxrgb as nat, 17) + bits_of(m.num_distribution_maxrgb_percentiles as nat, 4)
        + distribution_bits(m.distribution_maxrgb) + bits_of(m.fraction_bright_pixels as nat, 10)
}

/// Every value of the window statistics fits in its bits.
pub open spec fn window_fits(m: MetadataView) -> bool {
    &&& m.maxscl[0] < pow2(17)
    &&& m.maxscl[1] < pow2(17)
    &&& m.maxscl[2] < pow2(17)
    &&& m.average_maxrgb < pow2(17)
    &&& m.num_distribution_maxrgb_percentiles < 16
    &&& forall|i: int| 0 <= i < m.distribution_maxrgb.len() ==> #[trigger] m.distribution_maxrgb[i].percentage < 128
        && m.distribution_maxrgb[i].percentile < pow2(17)
    &&& m.fraction_bright_pixels < 1024
}

/// The bits of one window's tone mapping: the flag, then the curve whenever one is held.
pub open spec fn tone_bits(m: MetadataView) -> Seq<bool> {
    seq![m.tone_mapping_flag] + match m.bezier_curve {
        Some(bc) => bezier_bits(bc),
        None => seq![],
    }
}

/// `s` repeated `k` times.
pub open spec fn repeat_bits(s: Seq<bool>, k: nat) -> Seq<bool>
    decreases k,
{
    if k == 0 {
        seq![]
    } else {
        repeat_bits(s, (k - 1) as nat) + s
    }
}

/// The bits of the fields before the windows: the T.35 header, the application, the
/// window count, the processing windows held, the targeted display luminance, its flag and
/// the grid held.
pub open spec fn head_bits(m: MetadataView, with_country_code: bool) -> Seq<bool> {
    t35_bits(m, with_country_code) + processing_windows_part(m) + targeted_bits(m)
}

/// The bits of the T.35 header, the application and the window count.
pub open spec fn t35_bits(m: MetadataView, with_country_code: bool) -> Seq<bool> {
    (if with_country_code { bits_of(m.itu_t_t35_country_code as nat, 8) } else { seq![] })
        + bits_of(m.itu_t_t35_terminal_provider_code as nat, 16)
        + bits_of(m.itu_t_t35_terminal_provider_oriented_code as nat, 16)
        + bits_of(m.application_identifier as nat, 8) + bits_of(m.application_version as nat, 8)
        + bits_of(m.num_windows as nat, 2)
}

/// The bits of the processing windows held.
pub open spec fn processing_windows_part(m: MetadataView) -> Seq<bool> {
    match m.processing_windows {
        Some(pws) => processing_windows_bits(pws),
        None => seq![],
    }
}

/// The bits of the targeted display luminance, its flag and the grid held.
pub open spec fn targeted_bits(m: MetadataView) -> Seq<bool> {
    bits_of(m.targeted_system_display_maximum_luminance as nat, 27)
        + seq![m.targeted_system_display_actual_peak_luminance_flag]
        + match m.actual_targeted_system_display {
            Some(g) => grid_bits(g),
            None => seq![],
        }
}

/// The bits of the mastering display flag and the grid held.
pub open spec fn mastering_bits(m: MetadataView) -> Seq<bool> {
    seq![m.mastering_display_actual_peak_luminance_flag] + match m.actual_mastering_display {
        Some(g) => grid_bits(g),
        None => seq![],
    }
}

/// The bits of the color saturation flag and, when set, the weight.
pub open spec fn saturation_bits(m: MetadataView) -> Seq<bool> {
    seq![m.color_saturation_mapping_flag] + (if m.color_saturation_mapping_flag {
        bits_of(m.color_saturation_weight as nat, 6)
    } else {
        seq![]
    })
}

/// The bits that the metadata is written as, before byte alignment: the window statistics
/// and the tone mapping are written once per window.
pub open spec fn metadata_bits(m: MetadataView, with_country_code: bool) -> Seq<bool> {
    head_bits(m, with_country_code) + repeat_bits(window_bits(m), m.num_windows as nat) + mastering_bits(m)
        + repeat_bits(tone_bits(m), m.num_windows as nat) + saturation_bits(m)
}

/// Every value that encoding writes fits in its bits.
pub open spec fn spec_encodable(m: MetadataView) -> bool {
    &&& m.num_windows < 4
    &&& m.targeted_system_display_maximum_luminance < pow2(27)
    &&& (m.actual_targeted_system_display matches Some(g) ==> grid_fits(g))
    &&& (m.num_windows > 0 ==> window_fits(m))
    &&& (m.num_windows > 0 ==> (m.bezier_curve matches Some(bc) ==> bezier_fits(bc)))
    &&& (m.actual_mastering_display matches Some(g) ==> grid_fits(g))
    &&& (m.color_saturation_mapping_flag ==> m.color_saturation_weight < 64)
}

/// The grids that encoding indexes hold the rows and columns they declare.
pub open spec fn spec_encode_shaped(m: MetadataView) -> bool {
    &&& (m.actual_targeted_system_display matches Some(g) ==> grid_shaped(g))
    &&& (m.actual_mastering_display matches Some(g) ==> grid_shaped(g))
}

/// What encoding returns: the first validation error when asked to validate, else
/// `ValueTooLarge` when a value does not fit its bits, else the padded bits as bytes.
pub open spec fn spec_encode(m: MetadataView, validate: bool, with_country_code: bool) -> Result<Seq<u8>, Hdr10PlusError> {
    if validate && spec_validation_error(m) is Some {
        Err(spec_validation_error(m).unwrap())
    } else if !spec_encodable(m) {
        Err(Hdr10PlusError::Bitstream(BitstreamError::ValueTooLarge))
    } else {
        Ok(bits_to_bytes(padded(metadata_bits(m, with_country_code))))
    }
}

impl ProcessingWindow {
    /// Writes the window with each value cut to its bits; the semi-minor axis slot gets the
    /// semi-major axis again, as `processing_window_bits` says.
    pub(crate) fn write_cut(&self, w: &mut BitVecWriter)
        ensures
            bitvec_written(*final(w)) == bitvec_written(*old(w)) + processing_window_bits(*self),
    {
        bitvec_write_n(w, self.window_upper_left_corner_x as u64, 16);
        bitvec_write_n(w, self.window_upper_left_corner_y as u64, 16);
        bitvec_write_n(w, self.window_lower_right_corner_x as u64, 16);
        bitvec_write_n(w, self.window_lower_right_corner_y as u64, 16);
        bitvec_write_n(w, self.center_of_ellipse_x as u64, 16);
        bitvec_write_n(w, self.center_of_ellipse_y as u64, 16);
        bitvec_write_n(w, self.rotation_angle as u64, 8);
        bitvec_write_n(w, self.semimajor_axis_internal_ellipse as u64, 16);
        bitvec_write_n(w, self.semimajor_axis_external_ellipse as u64, 16);
        bitvec_write_n(w, self.semimajor_axis_external_ellipse as u64, 16);
        bitvec_write(w, self.overlap_process_option);
    }

    /// Writes the window; the semi-minor axis slot gets the semi-major axis again, as
    /// `processing_window_bits` says.
    fn encode(&self, w: &mut BitstreamIoWriter) -> (r: Result<(), BitstreamError>)
        ensures
            r is Ok,
            written_bits(*final(w)) == written_bits(*old(w)) + processing_window_bits(*self),
    {
        proof {
            lemma_pow2_values();
        }
        write_bits(w, 16, self.window_upper_left_corner_x as u64)?;
        write_bits(w, 16, self.window_upper_left_corner_y as u64)?;
        write_bits(w, 16, self.window_lower_right_corner_x as u64)?;
        write_bits(w, 16, self.window_lower_right_corner_y as u64)?;
        write_bits(w, 16, self.center_of_ellipse_x as u64)?;
        write_bits(w, 16, self.center_of_ellipse_y as u64)?;
        write_bits(w, 8, self.rotation_angle as u64)?;
        write_bits(w, 16, self.semimajor_axis_internal_ellipse as u64)?;
        write_bits(w, 16, self.semimajor_axis_external_ellipse as u64)?;
        write_bits(w, 16, self.semimajor_axis_external_ellipse as u64)?;
        write_flag(w, self.overlap_process_option)?;
        Ok(())
    }
}

/// Writes a luminance grid: 5-bit row and column counts, then its 4-bit values row by row.
fn encode_grid(rows: u8, cols: u8, values: &Vec<Vec<u8>>, w: &mut BitstreamIoWriter) -> (r: Result<(), BitstreamError>)
    requires
        grid_shaped(LuminanceGridView { num_rows: rows, num_cols: cols, values: grid_view(values@) }),
    ensures
        ({
            let g = LuminanceGridView { num_rows: rows, num_cols: cols, values: grid_view(values@) };
            &&& r is Ok <==> grid_fits(g)
            &&& r is Ok ==> written_bits(*final(w)) == written_bits(*old(w)) + grid_bits(g)
        }),
{
    let ghost g = LuminanceGridView { num_rows: rows, num_cols: cols, values: grid_view(values@) };
    proof {
        lemma_pow2_values();
    }
    write_bits(w, 5, rows as u64)?;
    write_bits(w, 5, cols as u64)?;
    let ghost start = written_bits(*w);
    let mut i: usize = 0;
    while i < rows as usize
        invariant
            g == (LuminanceGridView { num_rows: rows, num_cols: cols, values: grid_view(values@) }),
            grid_shaped(g),
            rows < 32,
            cols < 32,
            i <= rows,
            start == written_bits(*old(w)) + bits_of(rows as nat, 5) + bits_of(cols as nat, 5),
            written_bits(*w) == start + grid_rows_bits(g.values, i as nat, cols as nat),
            forall|a: int, b: int| 0 <= a < i && 0 <= b < cols ==> #[trigger] g.values[a][b] < 16,
        decreases rows - i,
    {
        let row = &values[i];
        assert(g.values[i as int] == row@);
        let ghost row_start = written_bits(*w);
        let mut j: usize = 0;
        while j < cols as usize
            invariant
                g == (LuminanceGridView { num_rows: rows, num_cols: cols, values: grid_view(values@) }),
                grid_shaped(g),
                rows < 32,
                cols < 32,
                i < rows,
                j <= cols,
                g.values[i as int] == row@,
                row@.len() >= cols,
                written_bits(*w) == row_start + grid_row_bits(row@, j as nat),
                forall|b: int| 0 <= b < j ==> #[trigger] row@[b] < 16,
            decreases cols - j,
        {
            proof {
                lemma_pow2_values();
            }
            let r = write_bits(w, 4, row[j] as u64);
            if r.is_err() {
                assert(g.values[i as int][j as int] >= 16);
                return Err(BitstreamError::ValueTooLarge);
            }
            j = j + 1;
        }
        i = i + 1;
    }
    proof {
        assert(grid_bits(g) =~= bits_of(rows as nat, 5) + bits_of(cols as nat, 5) + grid_rows_bits(g.values, rows as nat, cols as nat));
    }
    Ok(())
}

impl DistributionMaxRgb {
    fn encode(&self, w: &mut BitstreamIoWriter) -> (r: Result<(), BitstreamError>)
        ensures
            r is Ok <==> self.percentage < 128 && self.percentile < pow2(17),
            r is Ok ==> written_bits(*final(w)) == written_bits(*old(w)) + bits_of(self.percentage as nat, 7)
                + bits_of(self.percentile as nat, 17),
    {
        proof {
            lemma_pow2_values();
        }
        write_bits(w, 7, self.percentage as u64)?;
        write_bits(w, 17, self.percentile as u64)?;
        Ok(())
    }
}

impl BezierCurve {
    fn encode(&self, w: &mut BitstreamIoWriter) -> (r: Result<(), BitstreamError>)
        ensures
            r is Ok <==> bezier_fits(self@),
            r is Ok ==> written_bits(*final(w)) == written_bits(*old(w)) + bezier_bits(self@),
    {
        proof {
            lemma_pow2_values();
        }
        write_bits(w, 12, self.knee_point_x as u64)?;
        write_bits(w, 12, self.knee_point_y as u64)?;
        write_bits(w, 4, self.num_bezier_curve_anchors as u64)?;
        let ghost start = written_bits(*w);
        let mut i: usize = 0;
        while i < self.bezier_curve_anchors.len()
            invariant
                i <= self.bezier_curve_anchors@.len(),
                start == written_bits(*old(w)) + bits_of(self.knee_point_x as nat, 12) + bits_of(self.knee_point_y as nat, 12)
                    + bits_of(self.num_bezier_curve_anchors as nat, 4),
                self.knee_point_x < 4096,
                self.knee_point_y < 4096,
                self.num_bezier_curve_anchors < 16,
                written_bits(*w) == start + anchors_bits(self.bezier_curve_anchors@, i as nat),
                forall|a: int| 0 <= a < i ==> #[trigger] self.bezier_curve_anchors@[a] < 1024,
            decreases self.bezier_curve_anchors@.len() - i,
        {
            proof {
                lemma_pow2_values();
            }
            let r = write_bits(w, 10, self.bezier_curve_anchors[i] as u64);
            if r.is_err() {
                assert(self@.bezier_curve_anchors[i as int] >= 1024);
                return Err(BitstreamError::ValueTooLarge);
            }
            i = i + 1;
        }
        Ok(())
    }
}

impl Hdr10PlusMetadata {
    fn encode_window(&self, w: &mut BitstreamIoWriter) -> (r: Result<(), BitstreamError>)
        ensures
            r is Ok <==> window_fits(self@),
            r is Ok ==> written_bits(*final(w)) == written_bits(*old(w)) + window_bits(self@),
    {
        proof {
            lemma_pow2_values();
        }
        write_bits(w, 17, self.maxscl[0] as u64)?;
        write_bits(w, 17, self.maxscl[1] as u64)?;
        write_bits(w, 17, self.maxscl[2] as u64)?;
        write_bits(w, 17, self.average_maxrgb as u64)?;
        write_bits(w, 4, self.num_distribution_maxrgb_percentiles as u64)?;
        let ghost start = written_bits(*w);
        let mut i: usize = 0;
        while i < self.distribution_maxrgb.len()
            invariant
                i <= self.distribution_maxrgb@.len(),
                start == written_bits(*old(w)) + bits_of(self.maxscl@[0] as nat, 17) + bits_of(self.maxscl@[1] as nat, 17)
                    + bits_of(self.maxscl@[2] as nat, 17) + bits_of(self.average_maxrgb as nat, 17)
                    + bits_of(self.num_distribution_maxrgb_percentiles as nat, 4),
                self.maxscl@[0] < pow2(17),
                self.maxscl@[1] < pow2(17),
                self.maxscl@[2] < pow2(17),
                self.average_maxrgb < pow2(17),
                self.num_distribution_maxrgb_percentiles < 16,
                written_bits(*w) == start + distribution_bits(self.distribution_maxrgb@.take(i as int)),
                forall|a: int| 0 <= a < i ==> #[trigger] self.distribution_maxrgb@[a].percentage < 128
                    && self.distribution_maxrgb@[a].percentile < pow2(17),
            decreases self.distribution_maxrgb@.len() - i,
        {
            let r = self.distribution_maxrgb[i].encode(w);
            if r.is_err() {
                assert(!(self@.distribution_maxrgb[i as int].percentage < 128
                    && self@.distribution_maxrgb[i as int].percentile < pow2(17)));
                return Err(BitstreamError::ValueTooLarge);
            }
            proof {
                let t = self.distribution_maxrgb@.take(i + 1);
                assert(t.drop_last() =~= self.distribution_maxrgb@.take(i as int));
            }
            i = i + 1;
        }
        proof {
            lemma_pow2_values();
            assert(self.distribution_maxrgb@.take(i as int) =~= self.distribution_maxrgb@);
        }
        write_bits(w, 10, self.fraction_bright_pixels as u64)?;
        Ok(())
    }

    fn encode_tone(&self, w: &mut BitstreamIoWriter) -> (r: Result<(), BitstreamError>)
        ensures
            r is Ok <==> (self@.bezier_curve matches Some(bc) ==> bezier_fits(bc)),
            r is Ok ==> written_bits(*final(w)) == written_bits(*old(w)) + tone_bits(self@),
    {
        write_flag(w, self.tone_mapping_flag)?;
        match &self.bezier_curve {
            Some(bc) => {
                bc.encode(w)?;
            },
            None => {},
        }
        Ok(())
    }

    /// Writes the metadata's syntax, validating it first when `opts.validate` is set, and
    /// pads it with zero bits to a whole byte.
    pub fn encode_with_opts(&self, opts: &Hdr10PlusMetadataEncOpts) -> (r: Result<Vec<u8>, Hdr10PlusError>)
        requires
            spec_encode_shaped(self@),
        ensures
            match spec_encode(self@, opts.validate, opts.with_country_code) {
                Ok(bytes) => r matches Ok(v) && v@ == bytes,
                Err(e) => r == Err::<Vec<u8>, Hdr10PlusError>(e),
            },
    {
        if opts.validate {
            self.validate()?;
        }
        let r = self.write_syntax(opts.with_country_code);
        match r {
            Ok(v) => Ok(v),
            Err(_) => Err(Hdr10PlusError::Bitstream(BitstreamError::ValueTooLarge)),
        }
    }

    fn write_t35(&self, w: &mut BitstreamIoWriter, with_country_code: bool) -> (r: Result<(), BitstreamError>)
        ensures
            r is Ok <==> self.num_windows < 4,
            r is Ok ==> written_bits(*final(w)) == written_bits(*old(w)) + t35_bits(self@, with_country_code),
    {
        proof {
            lemma_pow2_values();
        }
        let ghost b0 = written_bits(*w);
        if with_country_code {
            write_bits(w, 8, self.itu_t_t35_country_code as u64)?;
        }
        let ghost b1 = written_bits(*w);
        assert(b1 == b0 + (if with_country_code { bits_of(self.itu_t_t35_country_code as nat, 8) } else { seq![] }));
        write_bits(w, 16, self.itu_t_t35_terminal_provider_code as u64)?;
        write_bits(w, 16, self.itu_t_t35_terminal_provider_oriented_code as u64)?;
        write_bits(w, 8, self.application_identifier as u64)?;
        write_bits(w, 8, self.application_version as u64)?;
        write_bits(w, 2, self.num_windows as u64)?;
        proof {
            assert(written_bits(*w) =~= b0 + t35_bits(self@, with_country_code));
        }
        Ok(())
    }

    fn write_processing_windows(&self, w: &mut BitstreamIoWriter) -> (r: Result<(), BitstreamError>)
        ensures
            r is Ok,
            written_bits(*final(w)) == written_bits(*old(w)) + processing_windows_part(self@),
    {
        let ghost b1 = written_bits(*w);
        match &self.processing_windows {
            Some(pws) => {
                let mut i: usize = 0;
                while i < pws.len()
                    invariant
                        i <= pws@.len(),
                        written_bits(*w) == b1 + processing_windows_bits(pws@.take(i as int)),
                    decreases pws@.len() - i,
                {
                    let _ = pws[i].encode(w);
                    proof {
                        assert(pws@.take(i + 1).drop_last() =~= pws@.take(i as int));
                    }
                    i = i + 1;
                }
                assert(pws@.take(i as int) =~= pws@);
            },
            None => {
                assert(written_bits(*w) =~= b1 + processing_windows_part(self@));
            },
        }
        Ok(())
    }

    fn write_targeted(&self, w: &mut BitstreamIoWriter) -> (r: Result<(), BitstreamError>)
        requires
            spec_encode_shaped(self@),
        ensures
            r is Ok <==> self.targeted_system_display_maximum_luminance < pow2(27)
                && (self@.actual_targeted_system_display matches Some(g) ==> grid_fits(g)),
            r is Ok ==> written_bits(*final(w)) == written_bits(*old(w)) + targeted_bits(self@),
    {
        proof {
            lemma_pow2_values();
        }
        let ghost b0 = written_bits(*w);
        write_bits(w, 27, self.targeted_system_display_maximum_luminance as u64)?;
        write_flag(w, self.targeted_system_display_actual_peak_luminance_flag)?;
        match &self.actual_targeted_system_display {
            Some(atsd) => {
                encode_grid(
                    atsd.num_rows_targeted_system_display_actual_peak_luminance,
                    atsd.num_cols_targeted_system_display_actual_peak_luminance,
                    &atsd.targeted_system_display_actual_peak_luminance,
                    w,
                )?;
            },
            None => {},
        }
        proof {
            assert(written_bits(*w) =~= b0 + targeted_bits(self@));
        }
        Ok(())
    }

    fn write_head(&self, w: &mut BitstreamIoWriter, with_country_code: bool) -> (r: Result<(), BitstreamError>)
        requires
            spec_encode_shaped(self@),
        ensures
            r is Ok <==> self.num_windows < 4 && self.targeted_system_display_maximum_luminance < pow2(27)
                && (self@.actual_targeted_system_display matches Some(g) ==> grid_fits(g)),
            r is Ok ==> written_bits(*final(w)) == written_bits(*old(w)) + head_bits(self@, with_country_code),
    {
        let ghost b0 = written_bits(*w);
        self.write_t35(w, with_country_code)?;
        self.write_processing_windows(w)?;
        self.write_targeted(w)?;
        proof {
            assert(written_bits(*w) =~= b0 + head_bits(self@, with_country_code));
        }
        Ok(())
    }

    fn write_tail(&self, w: &mut BitstreamIoWriter) -> (r: Result<(), BitstreamError>)
        requires
            spec_encode_shaped(self@),
        ensures
            r is Ok <==> (self@.actual_mastering_display matches Some(g) ==> grid_fits(g))
                && (self.num_windows > 0 ==> (self@.bezier_curve matches Some(bc) ==> bezier_fits(bc)))
                && (self.color_saturation_mapping_flag ==> self.color_saturation_weight < 64),
            r is Ok ==> written_bits(*final(w)) == written_bits(*old(w)) + mastering_bits(self@)
                + repeat_bits(tone_bits(self@), self.num_windows as nat) + saturation_bits(self@),
    {
        proof {
            lemma_pow2_values();
        }
        let ghost m = self@;
        let ghost b0 = written_bits(*w);
        write_flag(w, self.mastering_display_actual_peak_luminance_flag)?;
        match &self.actual_mastering_display {
            Some(amd) => {
                encode_grid(
                    amd.num_rows_mastering_display_actual_peak_luminance,
                    amd.num_cols_mastering_display_actual_peak_luminanc,
                    &amd.mastering_display_actual_peak_luminance,
                    w,
                )?;
            },
            None => {},
        }
        let ghost b3 = written_bits(*w);
        assert(b3 == b0 + mastering_bits(m));
        let mut i: u8 = 0;
        while i < self.num_windows
            invariant
                m == self@,
                i <= self.num_windows,
                written_bits(*w) == b3 + repeat_bits(tone_bits(m), i as nat),
                i > 0 ==> (m.bezier_curve matches Some(bc) ==> bezier_fits(bc)),
            decreases self.num_windows - i,
        {
            self.encode_tone(w)?;
            i = i + 1;
        }
        write_flag(w, self.color_saturation_mapping_flag)?;
        if self.color_saturation_mapping_flag {
            write_bits(w, 6, self.color_saturation_weight as u64)?;
        }
        proof {
            assert(written_bits(*w) =~= b0 + mastering_bits(m) + repeat_bits(tone_bits(m), m.num_windows as nat)
                + saturation_bits(m));
        }
        Ok(())
    }

    fn write_syntax(&self, with_country_code: bool) -> (r: Result<Vec<u8>, BitstreamError>)
        requires
            spec_encode_shaped(self@),
        ensures
            r is Ok <==> spec_encodable(self@),
            r matches Ok(v) ==> v@ == bits_to_bytes(padded(metadata_bits(self@, with_country_code))),
    {
        let ghost m = self@;
        let mut w = new_writer(64);
        self.write_head(&mut w, with_country_code)?;
        let ghost b2 = written_bits(w);
        let mut i: u8 = 0;
        while i < self.num_windows
            invariant
                m == self@,
                i <= self.num_windows,
                self.num_windows < 4,
                written_bits(w) == b2 + repeat_bits(window_bits(m), i as nat),
                i > 0 ==> window_fits(m),
            decreases self.num_windows - i,
        {
            self.encode_window(&mut w)?;
            i = i + 1;
        }
        let ghost b3 = written_bits(w);
        let r = self.write_tail(&mut w);
        if r.is_err() {
            return Err(BitstreamError::ValueTooLarge);
        }
        let ghost before_align = written_bits(w);
        byte_align(&mut w)?;
        proof {
            assert(before_align =~= metadata_bits(m, with_country_code));
        }
        Ok(into_bytes(w))
    }

    /// Writes the metadata's syntax with the country code, validating it first when asked.
    pub fn encode(&self, validate: bool) -> (r: Result<Vec<u8>, Hdr10PlusError>)
        requires
            spec_encode_shaped(self@),
        ensures
            match spec_encode(self@, validate, true) {
                Ok(bytes) => r matches Ok(v) && v@ == bytes,
                Err(e) => r == Err::<Vec<u8>, Hdr10PlusError>(e),
            },
    {
        let opts = Hdr10PlusMetadataEncOpts { validate, with_country_code: true };
        self.encode_with_opts(&opts)
    }
}

} // verus!
