//! Writing HDR10+ metadata into an SEI NAL unit without validation or range checks: each
//! value is cut to the bits it is written with.
use vstd::prelude::*;

use bitvec_helpers::bitvec_writer::BitVecWriter;

use crate::bits::{bits_of, bitvec_bytes, bitvec_write, bitvec_write_n, bitvec_writer, bitvec_written, bits_to_bytes, padded};
use crate::hevc::{nal_bytes, sei_header_bits, NAL_SEI_PREFIX, USER_DATA_REGISTERED_ITU_T_35};
use crate::json::{spec_from_json_frame, spec_json_frame_error, Hdr10PlusJsonMetadata};
use crate::metadata::{
    anchors_bits, bezier_bits, distribution_bits, grid_bits, grid_rows_bits, grid_row_bits, grid_shaped,
    grid_view, head_bits, mastering_bits, metadata_bits, processing_windows_bits, processing_windows_part,
    repeat_bits, saturation_bits, spec_encode_shaped, spec_validation_error, t35_bits, targeted_bits,
    tone_bits, window_bits, BezierCurve, DistributionMaxRgb, Hdr10PlusMetadata, LuminanceGridView,
    MetadataView,
};

verus! {

/// Writes a luminance grid: 5-bit row and column counts, then its 4-bit values row by row.
fn write_grid_cut(rows: u8, cols: u8, values: &Vec<Vec<u8>>, w: &mut BitVecWriter)
    requires
        grid_shaped(LuminanceGridView { num_rows: rows, num_cols: cols, values: grid_view(values@) }),
    ensures
        bitvec_written(*final(w)) == bitvec_written(*old(w)) + grid_bits(
            LuminanceGridView { num_rows: rows, num_cols: cols, values: grid_view(values@) },
        ),
{
    let ghost g = LuminanceGridView { num_rows: rows, num_cols: cols, values: grid_view(values@) };
    bitvec_write_n(w, rows as u64, 5);
    bitvec_write_n(w, cols as u64, 5);
    let ghost start = bitvec_written(*w);
    let mut i: usize = 0;
    while i < rows as usize
        invariant
            g == (LuminanceGridView { num_rows: rows, num_cols: cols, values: grid_view(values@) }),
            grid_shaped(g),
            i <= rows,
            start == bitvec_written(*old(w)) + bits_of(rows as nat, 5) + bits_of(cols as nat, 5),
            bitvec_written(*w) == start + grid_rows_bits(g.values, i as nat, cols as nat),
        decreases rows - i,
    {
        let row = &values[i];
        assert(g.values[i as int] == row@);
        let ghost row_start = bitvec_written(*w);
        let mut j: usize = 0;
        while j < cols as usize
            invariant
                j <= cols,
                row@.len() >= cols,
                bitvec_written(*w) == row_start + grid_row_bits(row@, j as nat),
            decreases cols - j,
        {
            bitvec_write_n(w, row[j] as u64, 4);
            j = j + 1;
        }
        i = i + 1;
    }
    assert(grid_bits(g) =~= bits_of(rows as nat, 5) + bits_of(cols as nat, 5) + grid_rows_bits(g.values, rows as nat, cols as nat));
}

impl BezierCurve {
    fn write_cut(&self, w: &mut BitVecWriter)
        ensures
            bitvec_written(*final(w)) == bitvec_written(*old(w)) + bezier_bits(self@),
    {
        bitvec_write_n(w, self.knee_point_x as u64, 12);
        bitvec_write_n(w, self.knee_point_y as u64, 12);
        bitvec_write_n(w, self.num_bezier_curve_anchors as u64, 4);
        let ghost start = bitvec_written(*w);
        let mut i: usize = 0;
        while i < self.bezier_curve_anchors.len()
            invariant
                i <= self.bezier_curve_anchors@.len(),
                start == bitvec_written(*old(w)) + bits_of(self.knee_point_x as nat, 12) + bits_of(self.knee_point_y as nat, 12)
                    + bits_of(self.num_bezier_curve_anchors as nat, 4),
                bitvec_written(*w) == start + anchors_bits(self.bezier_curve_anchors@, i as nat),
            decreases self.bezier_curve_anchors@.len() - i,
        {
            bitvec_write_n(w, self.bezier_curve_anchors[i] as u64, 10);
            i = i + 1;
        }
    }
}

impl Hdr10PlusMetadata {
    fn write_window_cut(&self, w: &mut BitVecWriter)
        ensures
            bitvec_written(*final(w)) == bitvec_written(*old(w)) + window_bits(self@),
    {
        bitvec_write_n(w, self.maxscl[0] as u64, 17);
        bitvec_write_n(w, self.maxscl[1] as u64, 17);
        bitvec_write_n(w, self.maxscl[2] as u64, 17);
        bitvec_write_n(w, self.average_maxrgb as u64, 17);
        bitvec_write_n(w, self.num_distribution_maxrgb_percentiles as u64, 4);
        let ghost start = bitvec_written(*w);
        let mut i: usize = 0;
        while i < self.distribution_maxrgb.len()
            invariant
                i <= self.distribution_maxrgb@.len(),
                start == bitvec_written(*old(w)) + bits_of(self.maxscl@[0] as nat, 17) + bits_of(self.maxscl@[1] as nat, 17)
                    + bits_of(self.maxscl@[2] as nat, 17) + bits_of(self.average_maxrgb as nat, 17)
                    + bits_of(self.num_distribution_maxrgb_percentiles as nat, 4),
                bitvec_written(*w) == start + distribution_bits(self.distribution_maxrgb@.take(i as int)),
            decreases self.distribution_maxrgb@.len() - i,
        {
            let d: DistributionMaxRgb = self.distribution_maxrgb[i];
            bitvec_write_n(w, d.percentage as u64, 7);
            bitvec_write_n(w, d.percentile as u64, 17);
            proof {
                let t = self.distribution_maxrgb@.take(i + 1);
                assert(t.drop_last() =~= self.distribution_maxrgb@.take(i as int));
            }
            i = i + 1;
        }
        proof {
            assert(self.distribution_maxrgb@.take(i as int) =~= self.distribution_maxrgb@);
        }
        bitvec_write_n(w, self.fraction_bright_pixels as u64, 10);
    }

    fn write_tone_cut(&self, w: &mut BitVecWriter)
        ensures
            bitvec_written(*final(w)) == bitvec_written(*old(w)) + tone_bits(self@),
    {
        bitvec_write(w, self.tone_mapping_flag);
        match &self.bezier_curve {
            Some(bc) => bc.write_cut(w),
            None => {},
        }
    }

    fn write_head_cut(&self, w: &mut BitVecWriter)
        requires
            spec_encode_shaped(self@),
        ensures
            bitvec_written(*final(w)) == bitvec_written(*old(w)) + head_bits(self@, true),
    {
        let ghost b0 = bitvec_written(*w);
        bitvec_write_n(w, self.itu_t_t35_country_code as u64, 8);
        bitvec_write_n(w, self.itu_t_t35_terminal_provider_code as u64, 16);
        bitvec_write_n(w, self.itu_t_t35_terminal_provider_oriented_code as u64, 16);
        bitvec_write_n(w, self.application_identifier as u64, 8);
        bitvec_write_n(w, self.application_version as u64, 8);
        bitvec_write_n(w, self.num_windows as u64, 2);
        let ghost b1 = bitvec_written(*w);
        assert(b1 =~= b0 + t35_bits(self@, true));
        match &self.processing_windows {
            Some(pws) => {
                let mut i: usize = 0;
                while i < pws.len()
                    invariant
                        i <= pws@.len(),
                        bitvec_written(*w) == b1 + processing_windows_bits(pws@.take(i as int)),
                    decreases pws@.len() - i,
                {
                    pws[i].write_cut(w);
                    proof {
                        assert(pws@.take(i + 1).drop_last() =~= pws@.take(i as int));
                    }
                    i = i + 1;
                }
                assert(pws@.take(i as int) =~= pws@);
            },
            None => {},
        }
        let ghost b2 = bitvec_written(*w);
        assert(b2 =~= b1 + processing_windows_part(self@));
        bitvec_write_n(w, self.targeted_system_display_maximum_luminance as u64, 27);
        bitvec_write(w, self.targeted_system_display_actual_peak_luminance_flag);
        match &self.actual_targeted_system_display {
            Some(atsd) => {
                write_grid_cut(
                    atsd.num_rows_targeted_system_display_actual_peak_luminance,
                    atsd.num_cols_targeted_system_display_actual_peak_luminance,
                    &atsd.targeted_system_display_actual_peak_luminance,
                    w,
                );
            },
            None => {},
        }
        assert(bitvec_written(*w) =~= b2 + targeted_bits(self@));
        assert(bitvec_written(*w) =~= b0 + head_bits(self@, true));
    }

    fn write_windows_cut(&self, w: &mut BitVecWriter)
        ensures
            bitvec_written(*final(w)) == bitvec_written(*old(w)) + repeat_bits(window_bits(self@), self.num_windows as nat),
    {
        let ghost m = self@;
        let ghost b0 = bitvec_written(*w);
        let mut i: u8 = 0;
        while i < self.num_windows
            invariant
                m == self@,
                i <= self.num_windows,
                bitvec_written(*w) == b0 + repeat_bits(window_bits(m), i as nat),
            decreases self.num_windows - i,
        {
            self.write_window_cut(w);
            proof {
                assert(bitvec_written(*w) =~= b0 + repeat_bits(window_bits(m), (i + 1) as nat));
            }
            i = i + 1;
        }
    }

    fn write_tones_cut(&self, w: &mut BitVecWriter)
        ensures
            bitvec_written(*final(w)) == bitvec_written(*old(w)) + repeat_bits(tone_bits(self@), self.num_windows as nat),
    {
        let ghost m = self@;
        let ghost b0 = bitvec_written(*w);
        let mut i: u8 = 0;
        while i < self.num_windows
            invariant
                m == self@,
                i <= self.num_windows,
                bitvec_written(*w) == b0 + repeat_bits(tone_bits(m), i as nat),
            decreases self.num_windows - i,
        {
            self.write_tone_cut(w);
            proof {
                assert(bitvec_written(*w) =~= b0 + repeat_bits(tone_bits(m), (i + 1) as nat));
            }
            i = i + 1;
        }
    }

    fn write_mastering_cut(&self, w: &mut BitVecWriter)
        requires
            spec_encode_shaped(self@),
        ensures
            bitvec_written(*final(w)) == bitvec_written(*old(w)) + mastering_bits(self@),
    {
        let ghost b0 = bitvec_written(*w);
        bitvec_write(w, self.mastering_display_actual_peak_luminance_flag);
        match &self.actual_mastering_display {
            Some(amd) => {
                write_grid_cut(
                    amd.num_rows_mastering_display_actual_peak_luminance,
                    amd.num_cols_mastering_display_actual_peak_luminanc,
                    &amd.mastering_display_actual_peak_luminance,
                    w,
                );
            },
            None => {},
        }
        assert(bitvec_written(*w) =~= b0 + mastering_bits(self@));
    }

    fn write_saturation_cut(&self, w: &mut BitVecWriter)
        ensures
            bitvec_written(*final(w)) == bitvec_written(*old(w)) + saturation_bits(self@),
    {
        let ghost b0 = bitvec_written(*w);
        bitvec_write(w, self.color_saturation_mapping_flag);
        if self.color_saturation_mapping_flag {
            bitvec_write_n(w, self.color_saturation_weight as u64, 6);
        }
        assert(bitvec_written(*w) =~= b0 + saturation_bits(self@));
    }

    fn write_syntax_cut(&self) -> (r: Vec<u8>)
        requires
            spec_encode_shaped(self@),
        ensures
            r@ == bits_to_bytes(padded(metadata_bits(self@, true))),
    {
        let ghost m = self@;
        let mut w = bitvec_writer();
        self.write_head_cut(&mut w);
        let ghost b1 = bitvec_written(w);
        self.write_windows_cut(&mut w);
        let ghost b2 = bitvec_written(w);
        self.write_mastering_cut(&mut w);
        let ghost b3 = bitvec_written(w);
        self.write_tones_cut(&mut w);
        let ghost b4 = bitvec_written(w);
        self.write_saturation_cut(&mut w);
        proof {
            assert(b1 == head_bits(m, true));
            assert(bitvec_written(w) =~= metadata_bits(m, true));
        }
        bitvec_bytes(&w)
    }

    /// Writes the metadata as an HEVC SEI prefix NAL unit, without validating it and with
    /// each value cut to the bits it is written with.
    pub fn encode_nal_truncating(&self) -> (r: Vec<u8>)
        requires
            spec_encode_shaped(self@),
            bits_to_bytes(padded(metadata_bits(self@, true))).len() <= 255,
        ensures
            r@ == nal_bytes(bits_to_bytes(padded(metadata_bits(self@, true)))),
    {
        let mut header = bitvec_writer();
        bitvec_write(&mut header, false);
        bitvec_write_n(&mut header, NAL_SEI_PREFIX as u64, 6);
        bitvec_write_n(&mut header, 0, 6);
        bitvec_write_n(&mut header, 1, 3);
        bitvec_write_n(&mut header, USER_DATA_REGISTERED_ITU_T_35 as u64, 8);
        let mut payload = self.write_syntax_cut();
        let ghost t35 = payload@;
        bitvec_write_n(&mut header, payload.len() as u64, 8);
        payload.push(0x80);
        let mut data = bitvec_bytes(&header);
        proof {
            assert(bitvec_written(header) =~= sei_header_bits(t35.len() as u8));
            crate::hevc::lemma_sei_header_padded(t35.len() as u8);
        }
        data.append(&mut payload);
        assert(data@ =~= seq![0x4Eu8, 0x01u8, 0x04u8, t35.len() as u8] + t35 + seq![0x80u8]);
        crate::hevc::add_emulation_prevention(&mut data);
        data
    }
}

/// The inputs on which writing a JSON frame as a NAL unit without range checks does not
/// stop: the frame converts, passes validation when asked to, and its payload fits in 255
/// bytes.
pub open spec fn encode_binary_ok(jm: crate::json::JsonFrameView, validate: bool) -> bool {
    let m = spec_from_json_frame(jm);
    &&& spec_json_frame_error(jm) is None
    &&& validate ==> spec_validation_error(m) is None
    &&& bits_to_bytes(padded(metadata_bits(m, true))).len() <= 255
}

impl Hdr10PlusJsonMetadata {
    /// Builds the metadata of the frame, checks it when validating, and writes it as an
    /// HEVC SEI prefix NAL unit, each value cut to its bits.
    pub fn encode_binary(&self, validate: bool) -> (r: Vec<u8>)
        requires
            encode_binary_ok(self@, validate),
        ensures
            r@ == nal_bytes(bits_to_bytes(padded(metadata_bits(spec_from_json_frame(self@), true)))),
    {
        let meta = match Hdr10PlusMetadata::try_from(self) {
            Ok(m) => m,
            Err(_) => {
                assert(false);
                return Vec::new();
            },
        };
        if validate {
            let _ = meta.validate();
        }
        meta.encode_nal_truncating()
    }
}

} // verus!
