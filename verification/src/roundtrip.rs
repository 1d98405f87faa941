//! Parsing what encoding writes gives back the metadata.
use vstd::prelude::*;

use crate::error::Hdr10PlusError;
use crate::hevc::{
    law_emulation_prevention_roundtrip, law_nal_unescapes_to_payload, nal_bytes, nal_payload, spec_encode_nal,
    with_emulation_prevention, without_emulation_prevention,
};
use crate::av1::{
    law_extract_after_frame, law_obu_layout, leb128_len, leb128_value, obu_bytes, obu_payload, spec_encode_obu,
    spec_extract_t35, t35_header_ok,
};
use crate::bits::{
    align_pad, bits_of, bits_to_bytes, bits_value, bytes_to_bits, lemma_bits_bytes_roundtrip, lemma_bits_of_len, lemma_bits_value_of,
    lemma_bytes_to_bits_len, lemma_bytes_to_bits_skip, lemma_padded_len, lemma_pow2_values, padded, pow2,
};
use crate::metadata::{
    anchors_bits, bezier_bits, bezier_fits, bezier_size, distribution_bits, field, grid_bits,
    grid_cell_pos, grid_fits, grid_row_bits, grid_rows_bits, grid_size, head_bits, mastering_bits,
    metadata_bits, processing_windows_part, repeat_bits, saturation_bits, spec_bezier,
    spec_distribution, spec_encodable, spec_encode, spec_grid, spec_parse, spec_header, spec_parse_bits,
    spec_parse_mastering, spec_parse_processing_windows, spec_parse_saturation,
    spec_parse_targeted, spec_profile, spec_tone_step, spec_tones, spec_window_step,
    spec_validation_error, spec_windows, t35_bits, targeted_bits, tone_bits, window_bits, window_fits,
    BezierCurveView, DistributionMaxRgb, LuminanceGridView, MetadataView,
    lemma_processing_windows_len, lemma_processing_windows_roundtrip, processing_window_size, window_axes_agree,
};

verus! {

/// Splitting a window of `s` that holds `a + b`.
pub proof fn lemma_window_split(s: Seq<bool>, p: int, a: Seq<bool>, b: Seq<bool>)
    requires
        0 <= p,
        p + a.len() + b.len() <= s.len(),
        s.subrange(p, p + a.len() + b.len()) == a + b,
    ensures
        s.subrange(p, p + a.len()) == a,
        s.subrange(p + a.len(), p + a.len() + b.len()) == b,
{
    assert(s.subrange(p, p + a.len()) =~= (a + b).subrange(0, a.len() as int));
    assert(s.subrange(p + a.len(), p + a.len() + b.len()) =~= (a + b).subrange(a.len() as int, (a.len() + b.len()) as int));
    assert((a + b).subrange(0, a.len() as int) =~= a);
    assert((a + b).subrange(a.len() as int, (a.len() + b.len()) as int) =~= b);
}

/// A window inside a window.
pub proof fn lemma_window_inner(s: Seq<bool>, p: int, a: Seq<bool>, q: int, n: int)
    requires
        0 <= p,
        p + a.len() <= s.len(),
        s.subrange(p, p + a.len()) == a,
        0 <= q,
        q + n <= a.len(),
        0 <= n,
    ensures
        s.subrange(p + q, p + q + n) == a.subrange(q, q + n),
{
    assert(s.subrange(p + q, p + q + n) =~= a.subrange(q, q + n));
}

/// A field written as `bits_of(v, n)` reads back as `v`.
pub proof fn lemma_field_bits(s: Seq<bool>, p: int, v: nat, n: nat)
    requires
        0 <= p,
        p + n <= s.len(),
        s.subrange(p, p + n) == bits_of(v, n),
        v < pow2(n),
    ensures
        field(s, p, n as int) == v,
{
    lemma_bits_value_of(v, n);
}

pub proof fn lemma_grid_row_len(row: Seq<u8>, c: nat)
    ensures
        grid_row_bits(row, c).len() == 4 * c,
    decreases c,
{
    if c > 0 {
        lemma_grid_row_len(row, (c - 1) as nat);
        lemma_bits_of_len(row[c - 1] as nat, 4);
    }
}

pub proof fn lemma_grid_rows_len(values: Seq<Seq<u8>>, r: nat, c: nat)
    ensures
        grid_rows_bits(values, r, c).len() == 4 * (r * c),
    decreases r,
{
    if r > 0 {
        lemma_grid_rows_len(values, (r - 1) as nat, c);
        lemma_grid_row_len(values[r - 1], c);
        assert(4 * ((r - 1) * c) + 4 * c == 4 * (r * c)) by (nonlinear_arith);
    }
}

pub proof fn lemma_grid_row_cell(row: Seq<u8>, c: nat, j: int)
    requires
        0 <= j < c,
    ensures
        grid_row_bits(row, c).subrange(4 * j, 4 * j + 4) == bits_of(row[j] as nat, 4),
    decreases c,
{
    let prev = grid_row_bits(row, (c - 1) as nat);
    lemma_grid_row_len(row, (c - 1) as nat);
    lemma_bits_of_len(row[c - 1] as nat, 4);
    if j == c - 1 {
        assert(grid_row_bits(row, c).subrange(4 * j, 4 * j + 4) =~= bits_of(row[j] as nat, 4));
    } else {
        lemma_grid_row_cell(row, (c - 1) as nat, j);
        assert(grid_row_bits(row, c).subrange(4 * j, 4 * j + 4) =~= prev.subrange(4 * j, 4 * j + 4));
    }
}

pub proof fn lemma_grid_rows_cell(values: Seq<Seq<u8>>, r: nat, c: nat, i: int, j: int)
    requires
        0 <= i < r,
        0 <= j < c,
    ensures
        grid_rows_bits(values, r, c).subrange(4 * (i * c + j), 4 * (i * c + j) + 4) == bits_of(values[i][j] as nat, 4),
    decreases r,
{
    let prev = grid_rows_bits(values, (r - 1) as nat, c);
    lemma_grid_rows_len(values, (r - 1) as nat, c);
    lemma_grid_row_len(values[r - 1], c);
    assert(0 <= i * c + j < r * c) by (nonlinear_arith)
        requires
            0 <= i < r,
            0 <= j < c,
    ;
    if i == r - 1 {
        lemma_grid_row_cell(values[r - 1], c, j);
        assert(4 * (i * c + j) == 4 * ((r - 1) * c) + 4 * j) by (nonlinear_arith)
            requires
                i == r - 1,
        ;
        assert(grid_rows_bits(values, r, c).subrange(4 * (i * c + j), 4 * (i * c + j) + 4)
            =~= grid_row_bits(values[r - 1], c).subrange(4 * j, 4 * j + 4));
    } else {
        lemma_grid_rows_cell(values, (r - 1) as nat, c, i, j);
        assert(i * c + j < (r - 1) * c) by (nonlinear_arith)
            requires
                0 <= i < r - 1,
                0 <= j < c,
        ;
        assert(grid_rows_bits(values, r, c).subrange(4 * (i * c + j), 4 * (i * c + j) + 4)
            =~= prev.subrange(4 * (i * c + j), 4 * (i * c + j) + 4));
    }
}

/// A grid that holds exactly its declared rows and columns.
pub open spec fn grid_exact(g: LuminanceGridView) -> bool {
    &&& g.values.len() == g.num_rows
    &&& forall|i: int| 0 <= i < g.num_rows ==> #[trigger] g.values[i].len() == g.num_cols
}

/// A grid written at `q` reads back.
pub proof fn lemma_grid_roundtrip(s: Seq<bool>, q: int, g: LuminanceGridView)
    requires
        0 <= q,
        q + grid_bits(g).len() <= s.len(),
        s.subrange(q, q + grid_bits(g).len()) == grid_bits(g),
        grid_fits(g),
        grid_exact(g),
    ensures
        grid_bits(g).len() == grid_size(g.num_rows as int, g.num_cols as int),
        q + 10 <= s.len(),
        spec_grid(s, q) == g,
{
    lemma_pow2_values();
    let r = g.num_rows as nat;
    let c = g.num_cols as nat;
    let a = bits_of(r, 5);
    let b = bits_of(c, 5);
    let cells = grid_rows_bits(g.values, r, c);
    lemma_bits_of_len(r, 5);
    lemma_bits_of_len(c, 5);
    lemma_grid_rows_len(g.values, r, c);
    assert(grid_bits(g) == (a + b) + cells);
    lemma_window_split(s, q, a + b, cells);
    lemma_window_split(s, q, a, b);
    lemma_field_bits(s, q, r, 5);
    lemma_field_bits(s, q + 5, c, 5);
    let sg = spec_grid(s, q);
    assert forall|i: int, j: int| 0 <= i < r && 0 <= j < c implies #[trigger] sg.values[i][j] == g.values[i][j] by {
        lemma_grid_rows_cell(g.values, r, c, i, j);
        assert(0 <= i * c + j < r * c) by (nonlinear_arith)
            requires
                0 <= i < r,
                0 <= j < c,
        ;
        lemma_window_inner(s, q + 10, cells, 4 * (i * c + j), 4);
        assert(grid_cell_pos(q, c as int, i, j) == q + 10 + 4 * (i * c + j));
        lemma_field_bits(s, grid_cell_pos(q, c as int, i, j), g.values[i][j] as nat, 4);
    }
    assert forall|i: int| 0 <= i < r implies #[trigger] sg.values[i] == g.values[i] by {
        assert(sg.values[i] =~= g.values[i]);
    }
    assert(sg.values =~= g.values);
}

pub proof fn lemma_distribution_len(list: Seq<DistributionMaxRgb>)
    ensures
        distribution_bits(list).len() == 24 * list.len(),
    decreases list.len(),
{
    if list.len() > 0 {
        lemma_distribution_len(list.drop_last());
        lemma_bits_of_len(list.last().percentage as nat, 7);
        lemma_bits_of_len(list.last().percentile as nat, 17);
    }
}

pub proof fn lemma_distribution_entry(list: Seq<DistributionMaxRgb>, i: int)
    requires
        0 <= i < list.len(),
    ensures
        distribution_bits(list).subrange(24 * i, 24 * i + 7) == bits_of(list[i].percentage as nat, 7),
        distribution_bits(list).subrange(24 * i + 7, 24 * i + 24) == bits_of(list[i].percentile as nat, 17),
    decreases list.len(),
{
    let prev = list.drop_last();
    lemma_distribution_len(prev);
    lemma_bits_of_len(list.last().percentage as nat, 7);
    lemma_bits_of_len(list.last().percentile as nat, 17);
    let d = distribution_bits(list);
    if i == list.len() - 1 {
        assert(d.subrange(24 * i, 24 * i + 7) =~= bits_of(list[i].percentage as nat, 7));
        assert(d.subrange(24 * i + 7, 24 * i + 24) =~= bits_of(list[i].percentile as nat, 17));
    } else {
        lemma_distribution_entry(prev, i);
        assert(d.subrange(24 * i, 24 * i + 7) =~= distribution_bits(prev).subrange(24 * i, 24 * i + 7));
        assert(d.subrange(24 * i + 7, 24 * i + 24) =~= distribution_bits(prev).subrange(24 * i + 7, 24 * i + 24));
    }
}

/// A distribution list written at `q` reads back.
pub proof fn lemma_distribution_roundtrip(s: Seq<bool>, q: int, list: Seq<DistributionMaxRgb>)
    requires
        0 <= q,
        q + distribution_bits(list).len() <= s.len(),
        s.subrange(q, q + distribution_bits(list).len()) == distribution_bits(list),
        forall|i: int| 0 <= i < list.len() ==> #[trigger] list[i].percentage < 128 && list[i].percentile < pow2(17),
    ensures
        distribution_bits(list).len() == 24 * list.len(),
        spec_distribution(s, q, list.len() as int) == list,
{
    lemma_pow2_values();
    lemma_distribution_len(list);
    let d = distribution_bits(list);
    let sd = spec_distribution(s, q, list.len() as int);
    assert forall|i: int| 0 <= i < list.len() implies #[trigger] sd[i] == list[i] by {
        lemma_distribution_entry(list, i);
        lemma_window_inner(s, q, d, 24 * i, 7);
        lemma_window_inner(s, q, d, 24 * i + 7, 17);
        assert(list[i].percentage < 128 && list[i].percentile < pow2(17));
        lemma_field_bits(s, q + 24 * i, list[i].percentage as nat, 7);
        lemma_field_bits(s, q + 24 * i + 7, list[i].percentile as nat, 17);
    }
    assert(sd =~= list);
}

pub proof fn lemma_anchors_len(anchors: Seq<u16>, k: nat)
    ensures
        anchors_bits(anchors, k).len() == 10 * k,
    decreases k,
{
    if k > 0 {
        lemma_anchors_len(anchors, (k - 1) as nat);
        lemma_bits_of_len(anchors[k - 1] as nat, 10);
    }
}

pub proof fn lemma_anchor_entry(anchors: Seq<u16>, k: nat, i: int)
    requires
        0 <= i < k,
    ensures
        anchors_bits(anchors, k).subrange(10 * i, 10 * i + 10) == bits_of(anchors[i] as nat, 10),
    decreases k,
{
    lemma_anchors_len(anchors, (k - 1) as nat);
    lemma_bits_of_len(anchors[k - 1] as nat, 10);
    let a = anchors_bits(anchors, k);
    if i == k - 1 {
        assert(a.subrange(10 * i, 10 * i + 10) =~= bits_of(anchors[i] as nat, 10));
    } else {
        lemma_anchor_entry(anchors, (k - 1) as nat, i);
        assert(a.subrange(10 * i, 10 * i + 10) =~= anchors_bits(anchors, (k - 1) as nat).subrange(10 * i, 10 * i + 10));
    }
}

/// A Bezier curve that holds exactly its declared anchors.
pub open spec fn bezier_exact(bc: BezierCurveView) -> bool {
    bc.bezier_curve_anchors.len() == bc.num_bezier_curve_anchors
}

/// A Bezier curve written at `q` reads back.
pub proof fn lemma_bezier_roundtrip(s: Seq<bool>, q: int, bc: BezierCurveView)
    requires
        0 <= q,
        q + bezier_bits(bc).len() <= s.len(),
        s.subrange(q, q + bezier_bits(bc).len()) == bezier_bits(bc),
        bezier_fits(bc),
        bezier_exact(bc),
    ensures
        q + 28 <= s.len(),
        bezier_bits(bc).len() == bezier_size(s, q),
        spec_bezier(s, q) == bc,
{
    lemma_pow2_values();
    let kx = bits_of(bc.knee_point_x as nat, 12);
    let ky = bits_of(bc.knee_point_y as nat, 12);
    let kn = bits_of(bc.num_bezier_curve_anchors as nat, 4);
    let n = bc.bezier_curve_anchors.len();
    let an = anchors_bits(bc.bezier_curve_anchors, n);
    lemma_bits_of_len(bc.knee_point_x as nat, 12);
    lemma_bits_of_len(bc.knee_point_y as nat, 12);
    lemma_bits_of_len(bc.num_bezier_curve_anchors as nat, 4);
    lemma_anchors_len(bc.bezier_curve_anchors, n);
    assert(bezier_bits(bc) == ((kx + ky) + kn) + an);
    lemma_window_split(s, q, (kx + ky) + kn, an);
    lemma_window_split(s, q, kx + ky, kn);
    lemma_window_split(s, q, kx, ky);
    lemma_field_bits(s, q, bc.knee_point_x as nat, 12);
    lemma_field_bits(s, q + 12, bc.knee_point_y as nat, 12);
    lemma_field_bits(s, q + 24, bc.num_bezier_curve_anchors as nat, 4);
    let sb = spec_bezier(s, q);
    assert forall|i: int| 0 <= i < n implies #[trigger] sb.bezier_curve_anchors[i] == bc.bezier_curve_anchors[i] by {
        lemma_anchor_entry(bc.bezier_curve_anchors, n, i);
        lemma_window_inner(s, q + 28, an, 10 * i, 10);
        lemma_field_bits(s, q + 28 + 10 * i, bc.bezier_curve_anchors[i] as nat, 10);
    }
    assert(sb.bezier_curve_anchors =~= bc.bezier_curve_anchors);
}

/// A bit written as `seq![b]` reads back.
pub proof fn lemma_bit(s: Seq<bool>, p: int, b: bool)
    requires
        0 <= p,
        p + 1 <= s.len(),
        s.subrange(p, p + 1) == seq![b],
    ensures
        s[p] == b,
{
    assert(s.subrange(p, p + 1)[0] == s[p]);
}

/// Metadata that parsing gives back from its encoding, but for the profile and the
/// saturation weight, which parsing computes: at most three windows, as their count takes
/// two bits; a processing window for each window past the first, with equal external
/// semi-axes (the writer repeats the semi-major one in the slot of the semi-minor one, as
/// the original writer does); every flag set exactly when its structure is present; counts
/// equal to the lengths they count; with two or more windows no distribution entry (reading
/// appends the entries of every window); and with no window the window fields at the
/// values reading starts from.
pub open spec fn roundtrip_form(m: MetadataView) -> bool {
    &&& m.num_windows < 4
    &&& match m.processing_windows {
        Some(pws) => m.num_windows > 1 && pws.len() == m.num_windows - 1
            && forall|i: int| 0 <= i < pws.len() ==> window_axes_agree(#[trigger] pws[i]),
        None => m.num_windows <= 1,
    }
    &&& m.maxscl.len() == 3
    &&& (m.targeted_system_display_actual_peak_luminance_flag <==> m.actual_targeted_system_display is Some)
    &&& (m.actual_targeted_system_display matches Some(g) ==> grid_exact(g))
    &&& m.num_distribution_maxrgb_percentiles == m.distribution_maxrgb.len()
    &&& (m.num_windows > 1 ==> m.distribution_maxrgb.len() == 0)
    &&& (m.num_windows == 0 ==> {
        &&& m.maxscl == seq![0u32, 0u32, 0u32]
        &&& m.average_maxrgb == 0
        &&& m.distribution_maxrgb.len() == 0
        &&& m.fraction_bright_pixels == 0
        &&& !m.tone_mapping_flag
    })
    &&& (m.mastering_display_actual_peak_luminance_flag <==> m.actual_mastering_display is Some)
    &&& (m.actual_mastering_display matches Some(g) ==> grid_exact(g))
    &&& (m.tone_mapping_flag <==> m.bezier_curve is Some)
    &&& (m.bezier_curve matches Some(bc) ==> bezier_exact(bc))
}

/// The metadata with the fields that parsing computes as parsing computes them: the profile
/// its fields determine, and a zero saturation weight when saturation mapping is off.
pub open spec fn as_parsed(m: MetadataView) -> MetadataView {
    MetadataView {
        profile: spec_profile(m),
        color_saturation_weight: if m.color_saturation_mapping_flag { m.color_saturation_weight } else { 0 },
        ..m
    }
}

/// Metadata whose encoding reads back exactly: in the round-trip form, with the profile
/// and saturation weight that parsing computes.
pub open spec fn roundtrip_canonical(m: MetadataView) -> bool {
    &&& roundtrip_form(m)
    &&& (!m.color_saturation_mapping_flag ==> m.color_saturation_weight == 0)
    &&& m.profile == spec_profile(m)
}

pub proof fn lemma_t35_stage(s: Seq<bool>, m: MetadataView)
    requires
        58 <= s.len(),
        s.subrange(0, 58) == t35_bits(m, true),
        m.num_windows < 4,
    ensures
        spec_header(s) == (MetadataView {
            profile: seq![],
            itu_t_t35_country_code: m.itu_t_t35_country_code,
            itu_t_t35_terminal_provider_code: m.itu_t_t35_terminal_provider_code,
            itu_t_t35_terminal_provider_oriented_code: m.itu_t_t35_terminal_provider_oriented_code,
            application_identifier: m.application_identifier,
            application_version: m.application_version,
            num_windows: m.num_windows,
            ..spec_header(s)
        }),
{
    lemma_pow2_values();
    let a = bits_of(m.itu_t_t35_country_code as nat, 8);
    let b = bits_of(m.itu_t_t35_terminal_provider_code as nat, 16);
    let c = bits_of(m.itu_t_t35_terminal_provider_oriented_code as nat, 16);
    let d = bits_of(m.application_identifier as nat, 8);
    let e = bits_of(m.application_version as nat, 8);
    let f = bits_of(m.num_windows as nat, 2);
    lemma_bits_of_len(m.itu_t_t35_country_code as nat, 8);
    lemma_bits_of_len(m.itu_t_t35_terminal_provider_code as nat, 16);
    lemma_bits_of_len(m.itu_t_t35_terminal_provider_oriented_code as nat, 16);
    lemma_bits_of_len(m.application_identifier as nat, 8);
    lemma_bits_of_len(m.application_version as nat, 8);
    lemma_bits_of_len(m.num_windows as nat, 2);
    assert(t35_bits(m, true) == ((((a + b) + c) + d) + e) + f);
    lemma_window_split(s, 0, (((a + b) + c) + d) + e, f);
    lemma_window_split(s, 0, ((a + b) + c) + d, e);
    lemma_window_split(s, 0, (a + b) + c, d);
    lemma_window_split(s, 0, a + b, c);
    lemma_window_split(s, 0, a, b);
    lemma_field_bits(s, 0, m.itu_t_t35_country_code as nat, 8);
    lemma_field_bits(s, 8, m.itu_t_t35_terminal_provider_code as nat, 16);
    lemma_field_bits(s, 24, m.itu_t_t35_terminal_provider_oriented_code as nat, 16);
    lemma_field_bits(s, 40, m.application_identifier as nat, 8);
    lemma_field_bits(s, 48, m.application_version as nat, 8);
    lemma_field_bits(s, 56, m.num_windows as nat, 2);
}

pub proof fn lemma_targeted_stage(s: Seq<bool>, p: int, m: MetadataView, m_in: MetadataView)
    requires
        0 <= p,
        p + targeted_bits(m).len() <= s.len(),
        s.subrange(p, p + targeted_bits(m).len()) == targeted_bits(m),
        m.targeted_system_display_maximum_luminance < pow2(27),
        (m.targeted_system_display_actual_peak_luminance_flag <==> m.actual_targeted_system_display is Some),
        m.actual_targeted_system_display matches Some(g) ==> grid_exact(g) && grid_fits(g),
        m_in.actual_targeted_system_display is None,
    ensures
        spec_parse_targeted(s, m_in, p) == Some((MetadataView {
            targeted_system_display_maximum_luminance: m.targeted_system_display_maximum_luminance,
            targeted_system_display_actual_peak_luminance_flag: m.targeted_system_display_actual_peak_luminance_flag,
            actual_targeted_system_display: m.actual_targeted_system_display,
            ..m_in
        }, p + targeted_bits(m).len())),
{
    let a = bits_of(m.targeted_system_display_maximum_luminance as nat, 27);
    let b = seq![m.targeted_system_display_actual_peak_luminance_flag];
    let g_bits = match m.actual_targeted_system_display {
        Some(g) => grid_bits(g),
        None => seq![],
    };
    lemma_bits_of_len(m.targeted_system_display_maximum_luminance as nat, 27);
    assert(targeted_bits(m) == (a + b) + g_bits);
    lemma_window_split(s, p, a + b, g_bits);
    lemma_window_split(s, p, a, b);
    lemma_field_bits(s, p, m.targeted_system_display_maximum_luminance as nat, 27);
    lemma_bit(s, p + 27, m.targeted_system_display_actual_peak_luminance_flag);
    match m.actual_targeted_system_display {
        Some(g) => {
            lemma_grid_roundtrip(s, p + 28, g);
        },
        None => {},
    }
}

pub proof fn lemma_window_stage(s: Seq<bool>, p: int, m: MetadataView, m_in: MetadataView)
    requires
        0 <= p,
        p + window_bits(m).len() <= s.len(),
        s.subrange(p, p + window_bits(m).len()) == window_bits(m),
        window_fits(m),
        m.maxscl.len() == 3,
        m.num_distribution_maxrgb_percentiles == m.distribution_maxrgb.len(),
        m_in.distribution_maxrgb == Seq::<DistributionMaxRgb>::empty(),
    ensures
        spec_window_step(s, m_in, p) == Some((MetadataView {
            maxscl: m.maxscl,
            average_maxrgb: m.average_maxrgb,
            num_distribution_maxrgb_percentiles: m.num_distribution_maxrgb_percentiles,
            distribution_maxrgb: m.distribution_maxrgb,
            fraction_bright_pixels: m.fraction_bright_pixels,
            ..m_in
        }, p + window_bits(m).len())),
{
    lemma_pow2_values();
    let x0 = bits_of(m.maxscl[0] as nat, 17);
    let x1 = bits_of(m.maxscl[1] as nat, 17);
    let x2 = bits_of(m.maxscl[2] as nat, 17);
    let av = bits_of(m.average_maxrgb as nat, 17);
    let np = bits_of(m.num_distribution_maxrgb_percentiles as nat, 4);
    let ds = distribution_bits(m.distribution_maxrgb);
    let fb = bits_of(m.fraction_bright_pixels as nat, 10);
    lemma_bits_of_len(m.maxscl[0] as nat, 17);
    lemma_bits_of_len(m.maxscl[1] as nat, 17);
    lemma_bits_of_len(m.maxscl[2] as nat, 17);
    lemma_bits_of_len(m.average_maxrgb as nat, 17);
    lemma_bits_of_len(m.num_distribution_maxrgb_percentiles as nat, 4);
    lemma_bits_of_len(m.fraction_bright_pixels as nat, 10);
    lemma_distribution_len(m.distribution_maxrgb);
    assert(window_bits(m) == (((((x0 + x1) + x2) + av) + np) + ds) + fb);
    lemma_window_split(s, p, ((((x0 + x1) + x2) + av) + np) + ds, fb);
    lemma_window_split(s, p, (((x0 + x1) + x2) + av) + np, ds);
    lemma_window_split(s, p, ((x0 + x1) + x2) + av, np);
    lemma_window_split(s, p, (x0 + x1) + x2, av);
    lemma_window_split(s, p, x0 + x1, x2);
    lemma_window_split(s, p, x0, x1);
    lemma_field_bits(s, p, m.maxscl[0] as nat, 17);
    lemma_field_bits(s, p + 17, m.maxscl[1] as nat, 17);
    lemma_field_bits(s, p + 34, m.maxscl[2] as nat, 17);
    lemma_field_bits(s, p + 51, m.average_maxrgb as nat, 17);
    lemma_field_bits(s, p + 68, m.num_distribution_maxrgb_percentiles as nat, 4);
    lemma_distribution_roundtrip(s, p + 72, m.distribution_maxrgb);
    let q = p + 72 + 24 * m.distribution_maxrgb.len();
    lemma_field_bits(s, q, m.fraction_bright_pixels as nat, 10);
    assert(seq![field(s, p, 17) as u32, field(s, p + 17, 17) as u32, field(s, p + 34, 17) as u32] =~= m.maxscl);
    assert(m_in.distribution_maxrgb + m.distribution_maxrgb =~= m.distribution_maxrgb);
}

pub proof fn lemma_mastering_stage(s: Seq<bool>, p: int, m: MetadataView, m_in: MetadataView)
    requires
        0 <= p,
        p + mastering_bits(m).len() <= s.len(),
        s.subrange(p, p + mastering_bits(m).len()) == mastering_bits(m),
        (m.mastering_display_actual_peak_luminance_flag <==> m.actual_mastering_display is Some),
        m.actual_mastering_display matches Some(g) ==> grid_exact(g) && grid_fits(g),
        m_in.actual_mastering_display is None,
    ensures
        spec_parse_mastering(s, m_in, p) == Some((MetadataView {
            mastering_display_actual_peak_luminance_flag: m.mastering_display_actual_peak_luminance_flag,
            actual_mastering_display: m.actual_mastering_display,
            ..m_in
        }, p + mastering_bits(m).len())),
{
    let b = seq![m.mastering_display_actual_peak_luminance_flag];
    let g_bits = match m.actual_mastering_display {
        Some(g) => grid_bits(g),
        None => seq![],
    };
    assert(mastering_bits(m) == b + g_bits);
    lemma_window_split(s, p, b, g_bits);
    lemma_bit(s, p, m.mastering_display_actual_peak_luminance_flag);
    match m.actual_mastering_display {
        Some(g) => {
            lemma_grid_roundtrip(s, p + 1, g);
        },
        None => {},
    }
}

pub proof fn lemma_tone_stage(s: Seq<bool>, p: int, m: MetadataView, m_in: MetadataView)
    requires
        0 <= p,
        p + tone_bits(m).len() <= s.len(),
        s.subrange(p, p + tone_bits(m).len()) == tone_bits(m),
        (m.tone_mapping_flag <==> m.bezier_curve is Some),
        m.bezier_curve matches Some(bc) ==> bezier_exact(bc) && bezier_fits(bc),
        m_in.bezier_curve is None || m.tone_mapping_flag,
    ensures
        spec_tone_step(s, m_in, p) == Some((MetadataView {
            tone_mapping_flag: m.tone_mapping_flag,
            bezier_curve: m.bezier_curve,
            ..m_in
        }, p + tone_bits(m).len())),
{
    let b = seq![m.tone_mapping_flag];
    let c_bits = match m.bezier_curve {
        Some(bc) => bezier_bits(bc),
        None => seq![],
    };
    assert(tone_bits(m) == b + c_bits);
    lemma_window_split(s, p, b, c_bits);
    lemma_bit(s, p, m.tone_mapping_flag);
    match m.bezier_curve {
        Some(bc) => {
            lemma_bezier_roundtrip(s, p + 1, bc);
        },
        None => {},
    }
}

pub proof fn lemma_saturation_stage(s: Seq<bool>, p: int, m: MetadataView, m_in: MetadataView)
    requires
        0 <= p,
        p + saturation_bits(m).len() <= s.len(),
        s.subrange(p, p + saturation_bits(m).len()) == saturation_bits(m),
        m.color_saturation_mapping_flag ==> m.color_saturation_weight < 64,
        !m.color_saturation_mapping_flag ==> m.color_saturation_weight == m_in.color_saturation_weight,
    ensures
        spec_parse_saturation(s, m_in, p) == Some((MetadataView {
            color_saturation_mapping_flag: m.color_saturation_mapping_flag,
            color_saturation_weight: m.color_saturation_weight,
            ..m_in
        }, p + saturation_bits(m).len())),
{
    lemma_pow2_values();
    let b = seq![m.color_saturation_mapping_flag];
    let w_bits = if m.color_saturation_mapping_flag {
        bits_of(m.color_saturation_weight as nat, 6)
    } else {
        seq![]
    };
    assert(saturation_bits(m) == b + w_bits);
    lemma_window_split(s, p, b, w_bits);
    lemma_bit(s, p, m.color_saturation_mapping_flag);
    if m.color_saturation_mapping_flag {
        lemma_bits_of_len(m.color_saturation_weight as nat, 6);
        lemma_field_bits(s, p + 1, m.color_saturation_weight as nat, 6);
    }
}

/// `s` repeated `k` times is `k` times as long.
pub proof fn lemma_repeat_len(b: Seq<bool>, k: nat)
    ensures
        repeat_bits(b, k).len() == k * b.len(),
    decreases k,
{
    if k > 0 {
        lemma_repeat_len(b, (k - 1) as nat);
        let n: int = b.len() as int;
        let j: int = k - 1;
        assert(j * n + n == (j + 1) * n) by (nonlinear_arith);
        assert(repeat_bits(b, k).len() == repeat_bits(b, (k - 1) as nat).len() + b.len());
        assert(repeat_bits(b, (k - 1) as nat).len() == j * n);
        assert((j + 1) * n == k * n);
    } else {
        assert(repeat_bits(b, k).len() == 0);
        assert(k * b.len() == 0);
    }
}

/// Where each part of the encoding of canonical metadata stands.
pub proof fn lemma_layout(s: Seq<bool>, m: MetadataView)
    requires
        roundtrip_canonical(m),
        metadata_bits(m, true).len() <= s.len(),
        s.subrange(0, metadata_bits(m, true).len() as int) == metadata_bits(m, true),
    ensures
        ({
            let t35 = t35_bits(m, true);
            let pw = processing_windows_part(m);
            let tg = targeted_bits(m);
            let wb = repeat_bits(window_bits(m), m.num_windows as nat);
            let mb = mastering_bits(m);
            let tb = repeat_bits(tone_bits(m), m.num_windows as nat);
            let sb = saturation_bits(m);
            let p1: int = 58int + pw.len();
            let p2: int = p1 + tg.len();
            let p3: int = p2 + wb.len();
            let p4: int = p3 + mb.len();
            let p5: int = p4 + tb.len();
            &&& t35.len() == 58
            &&& metadata_bits(m, true).len() == p5 + sb.len()
            &&& s.subrange(0, 58) == t35
            &&& s.subrange(58, p1) == pw
            &&& s.subrange(p1, p2) == tg
            &&& s.subrange(p2, p3) == wb
            &&& s.subrange(p3, p4) == mb
            &&& s.subrange(p4, p5) == tb
            &&& s.subrange(p5, p5 + sb.len()) == sb
        }),
{
    let t35 = t35_bits(m, true);
    let pw = processing_windows_part(m);
    let tg = targeted_bits(m);
    let wb = repeat_bits(window_bits(m), m.num_windows as nat);
    let mb = mastering_bits(m);
    let tb = repeat_bits(tone_bits(m), m.num_windows as nat);
    let sb = saturation_bits(m);
    assert(metadata_bits(m, true) =~= (((((t35 + pw) + tg) + wb) + mb) + tb) + sb);
    lemma_window_split(s, 0, ((((t35 + pw) + tg) + wb) + mb) + tb, sb);
    lemma_window_split(s, 0, (((t35 + pw) + tg) + wb) + mb, tb);
    lemma_window_split(s, 0, ((t35 + pw) + tg) + wb, mb);
    lemma_window_split(s, 0, (t35 + pw) + tg, wb);
    lemma_window_split(s, 0, t35 + pw, tg);
    lemma_window_split(s, 0, t35, pw);
    lemma_bits_of_len(m.itu_t_t35_country_code as nat, 8);
    lemma_bits_of_len(m.itu_t_t35_terminal_provider_code as nat, 16);
    lemma_bits_of_len(m.itu_t_t35_terminal_provider_oriented_code as nat, 16);
    lemma_bits_of_len(m.application_identifier as nat, 8);
    lemma_bits_of_len(m.application_version as nat, 8);
    lemma_bits_of_len(m.num_windows as nat, 2);
}

/// The metadata after reading the luminance statistics of `m` into `m_in`.
pub open spec fn with_window_fields(m_in: MetadataView, m: MetadataView) -> MetadataView {
    MetadataView {
        maxscl: m.maxscl,
        average_maxrgb: m.average_maxrgb,
        num_distribution_maxrgb_percentiles: m.num_distribution_maxrgb_percentiles,
        distribution_maxrgb: m.distribution_maxrgb,
        fraction_bright_pixels: m.fraction_bright_pixels,
        ..m_in
    }
}

/// `k` copies of the luminance statistics of `m` read back as those statistics, when no
/// two copies carry distribution entries.
pub proof fn lemma_windows_stage(s: Seq<bool>, p: int, m: MetadataView, m_in: MetadataView, k: nat)
    requires
        0 <= p,
        p + repeat_bits(window_bits(m), k).len() <= s.len(),
        s.subrange(p, p + repeat_bits(window_bits(m), k).len()) == repeat_bits(window_bits(m), k),
        k > 0 ==> window_fits(m),
        m.maxscl.len() == 3,
        m.num_distribution_maxrgb_percentiles == m.distribution_maxrgb.len(),
        k > 1 ==> m.distribution_maxrgb.len() == 0,
        m_in.distribution_maxrgb == Seq::<DistributionMaxRgb>::empty(),
    ensures
        spec_windows(s, m_in, p, k) == Some((
            if k == 0 { m_in } else { with_window_fields(m_in, m) },
            p + repeat_bits(window_bits(m), k).len(),
        )),
    decreases k,
{
    if k > 0 {
        let wb = window_bits(m);
        let r = repeat_bits(wb, (k - 1) as nat);
        assert(repeat_bits(wb, k) == r + wb);
        lemma_window_split(s, p, r, wb);
        lemma_windows_stage(s, p, m, m_in, (k - 1) as nat);
        let m1 = if k - 1 == 0 { m_in } else { with_window_fields(m_in, m) };
        assert(m1.distribution_maxrgb == Seq::<DistributionMaxRgb>::empty());
        lemma_window_stage(s, p + r.len(), m, m1);
        assert(with_window_fields(m1, m) == with_window_fields(m_in, m));
    }
}

/// The metadata after reading the tone mapping of `m` into `m_in`.
pub open spec fn with_tone_fields(m_in: MetadataView, m: MetadataView) -> MetadataView {
    MetadataView { tone_mapping_flag: m.tone_mapping_flag, bezier_curve: m.bezier_curve, ..m_in }
}

/// `k` copies of the tone mapping of `m` read back as that tone mapping.
pub proof fn lemma_tones_stage(s: Seq<bool>, p: int, m: MetadataView, m_in: MetadataView, k: nat)
    requires
        0 <= p,
        p + repeat_bits(tone_bits(m), k).len() <= s.len(),
        s.subrange(p, p + repeat_bits(tone_bits(m), k).len()) == repeat_bits(tone_bits(m), k),
        (m.tone_mapping_flag <==> m.bezier_curve is Some),
        k > 0 ==> (m.bezier_curve matches Some(bc) ==> bezier_exact(bc) && bezier_fits(bc)),
        m_in.bezier_curve is None,
    ensures
        spec_tones(s, m_in, p, k) == Some((
            if k == 0 { m_in } else { with_tone_fields(m_in, m) },
            p + repeat_bits(tone_bits(m), k).len(),
        )),
    decreases k,
{
    if k > 0 {
        let tb = tone_bits(m);
        let r = repeat_bits(tb, (k - 1) as nat);
        assert(repeat_bits(tb, k) == r + tb);
        lemma_window_split(s, p, r, tb);
        lemma_tones_stage(s, p, m, m_in, (k - 1) as nat);
        let m1 = if k - 1 == 0 { m_in } else { with_tone_fields(m_in, m) };
        lemma_tone_stage(s, p + r.len(), m, m1);
        assert(with_tone_fields(m1, m) == with_tone_fields(m_in, m));
    }
}

/// The encoding of canonical metadata, at the start of `s`, parses back to the metadata and
/// ends where the encoding ends.
#[verifier::rlimit(40)]
pub proof fn lemma_parse_bits_roundtrip(s: Seq<bool>, m: MetadataView)
    requires
        roundtrip_canonical(m),
        spec_encodable(m),
        metadata_bits(m, true).len() <= s.len(),
        s.subrange(0, metadata_bits(m, true).len() as int) == metadata_bits(m, true),
    ensures
        spec_parse_bits(s) == Some((m, metadata_bits(m, true).len() as int)),
{
    lemma_layout(s, m);
    let nw = m.num_windows as nat;
    let pw = processing_windows_part(m);
    let tg = targeted_bits(m);
    let wb = repeat_bits(window_bits(m), nw);
    let mb = mastering_bits(m);
    let tb = repeat_bits(tone_bits(m), nw);
    lemma_t35_stage(s, m);
    let m0 = spec_header(s);
    let p1: int = 58int + pw.len();
    let m1 = MetadataView { processing_windows: m.processing_windows, ..m0 };
    match m.processing_windows {
        Some(pws) => {
            lemma_processing_windows_len(pws);
            lemma_processing_windows_roundtrip(s, 58, pws);
            assert(spec_parse_processing_windows(s, m0, 58) == Some((m1, p1)));
        },
        None => {
            assert(spec_parse_processing_windows(s, m0, 58) == Some((m1, p1)));
        },
    }
    lemma_targeted_stage(s, p1, m, m1);
    let p2: int = p1 + tg.len();
    let m2 = MetadataView {
        targeted_system_display_maximum_luminance: m.targeted_system_display_maximum_luminance,
        targeted_system_display_actual_peak_luminance_flag: m.targeted_system_display_actual_peak_luminance_flag,
        actual_targeted_system_display: m.actual_targeted_system_display,
        ..m1
    };
    lemma_windows_stage(s, p2, m, m2, nw);
    let p3: int = p2 + wb.len();
    let m3 = if nw == 0 { m2 } else { with_window_fields(m2, m) };
    lemma_mastering_stage(s, p3, m, m3);
    let p4: int = p3 + mb.len();
    let m4 = MetadataView {
        mastering_display_actual_peak_luminance_flag: m.mastering_display_actual_peak_luminance_flag,
        actual_mastering_display: m.actual_mastering_display,
        ..m3
    };
    lemma_tones_stage(s, p4, m, m4, nw);
    let p5: int = p4 + tb.len();
    let m5 = if nw == 0 { m4 } else { with_tone_fields(m4, m) };
    lemma_saturation_stage(s, p5, m, m5);
    let m6 = MetadataView {
        color_saturation_mapping_flag: m.color_saturation_mapping_flag,
        color_saturation_weight: m.color_saturation_weight,
        ..m5
    };
    assert(m6.maxscl =~= m.maxscl);
    assert(m6.distribution_maxrgb =~= m.distribution_maxrgb);
    assert(spec_profile(m6) == spec_profile(m));
    assert((MetadataView { profile: spec_profile(m6), ..m6 }) == m);
}

/// Parsing what encoding with the country code writes gives back metadata in the canonical
/// form that parsing produces.
pub proof fn lemma_parse_after_encode_canonical(m: MetadataView, validate: bool)
    requires
        roundtrip_canonical(m),
        spec_encode(m, validate, true) is Ok,
    ensures
        spec_parse(spec_encode(m, validate, true)->Ok_0) == Some(m),
{
    let b = metadata_bits(m, true);
    let p = padded(b);
    lemma_padded_len(b);
    lemma_bits_bytes_roundtrip(p);
    lemma_parse_bits_roundtrip(p, m);
    assert(bytes_to_bits(spec_encode(m, validate, true)->Ok_0) == p);
}

/// Parsing what encoding with the country code writes gives back the metadata, field by
/// field, but for the profile, which parsing sets from the other fields, and the saturation
/// weight, which it leaves at 0 when saturation mapping is off: for metadata in the
/// round-trip form.
pub proof fn law_parse_after_encode(m: MetadataView, validate: bool)
    requires
        roundtrip_form(m),
        spec_encode(m, validate, true) is Ok,
    ensures
        spec_parse(spec_encode(m, validate, true)->Ok_0) == Some(as_parsed(m)),
{
    let n = as_parsed(m);
    assert(spec_profile(n) == spec_profile(m));
    assert(roundtrip_canonical(n));
    assert(saturation_bits(n) == saturation_bits(m));
    assert(metadata_bits(n, true) == metadata_bits(m, true)) by {
        assert(head_bits(n, true) == head_bits(m, true));
        assert(window_bits(n) == window_bits(m));
        assert(tone_bits(n) == tone_bits(m));
        assert(mastering_bits(n) == mastering_bits(m));
    }
    assert(spec_validation_error(n) == spec_validation_error(m));
    assert(spec_encodable(n) == spec_encodable(m));
    assert(spec_encode(n, validate, true) == spec_encode(m, validate, true));
    lemma_parse_after_encode_canonical(n, validate);
}


/// The eight bits of byte `i` read back as the byte.
proof fn lemma_byte_field(t: Seq<u8>, i: int)
    requires
        0 <= i < t.len(),
    ensures
        field(bytes_to_bits(t), 8 * i, 8) == t[i],
{
    lemma_bytes_to_bits_skip(t, i);
    lemma_bytes_to_bits_len(t);
    let r = t.skip(i);
    assert(r[0] == t[i]);
    lemma_bits_of_len(r[0] as nat, 8);
    let bits = bytes_to_bits(t);
    assert(bytes_to_bits(r) == bits_of(r[0] as nat, 8) + bytes_to_bits(r.drop_first()));
    assert(bits.subrange(8 * i, 8 * i + 8) =~= bytes_to_bits(r).subrange(0, 8));
    assert(bytes_to_bits(r).subrange(0, 8) =~= bits_of(t[i] as nat, 8));
    lemma_pow2_values();
    lemma_bits_value_of(t[i] as nat, 8);
}

/// Bits read as one value: the value of the leading bits, shifted past the trailing ones,
/// plus the value of the trailing bits.
proof fn lemma_bits_value_concat(x: Seq<bool>, y: Seq<bool>)
    ensures
        bits_value(x + y) == bits_value(x) * pow2(y.len()) + bits_value(y),
    decreases y.len(),
{
    if y.len() == 0 {
        assert(x + y =~= x);
        assert(pow2(y.len()) == 1);
        assert(bits_value(y) == 0);
        assert(bits_value(x) * 1 == bits_value(x));
    } else {
        let y0 = y.drop_last();
        lemma_bits_value_concat(x, y0);
        assert((x + y).drop_last() =~= x + y0);
        assert((x + y).last() == y.last());
        let a = bits_value(x);
        let p = pow2(y0.len());
        let l: nat = if y.last() { 1nat } else { 0nat };
        assert(pow2(y.len()) == 2 * p);
        assert(bits_value(x + y) == 2 * bits_value(x + y0) + l);
        assert(bits_value(y) == 2 * bits_value(y0) + l);
        assert(bits_value(x + y0) == a * p + bits_value(y0));
        assert(2 * (a * p) == a * (2 * p)) by (nonlinear_arith);
        assert(a * pow2(y.len()) == a * (2 * p));
    }
}

/// Two bytes read as one 16-bit field.
proof fn lemma_be16_field(t: Seq<u8>, i: int)
    requires
        0 <= i,
        i + 1 < t.len(),
    ensures
        field(bytes_to_bits(t), 8 * i, 16) == t[i] * 256 + t[i + 1],
{
    let bits = bytes_to_bits(t);
    lemma_bytes_to_bits_len(t);
    lemma_byte_field(t, i);
    lemma_byte_field(t, i + 1);
    let hi = bits.subrange(8 * i, 8 * i + 8);
    let lo = bits.subrange(8 * i + 8, 8 * i + 16);
    assert(bits.subrange(8 * i, 8 * i + 16) =~= hi + lo);
    lemma_bits_value_concat(hi, lo);
    lemma_pow2_values();
}

/// HDR10+ metadata written into an AV1 metadata OBU is found again by the search for
/// HDR10+ T.35 payloads, whether that search validates (`extract_validate`) or not, for any
/// metadata with the HDR10+ T.35 header and an application version that the search takes;
/// and the payload parses back to the metadata, with the fields that parsing computes, when
/// the metadata is in the round-trip form.
pub proof fn law_av1_extract_after_encode(m: MetadataView, validate: bool, extract_validate: bool)
    requires
        spec_encode(m, validate, true) is Ok,
        m.itu_t_t35_country_code == 0xB5,
        m.itu_t_t35_terminal_provider_code == 0x3C,
        m.itu_t_t35_terminal_provider_oriented_code == 1,
        m.application_identifier == 4,
        if extract_validate { m.application_version == 1 } else { m.application_version <= 1 },
    ensures
        spec_encode(m, validate, true) matches Ok(t35) && spec_encode_obu(m, validate) == Ok::<Seq<u8>, crate::error::Hdr10PlusError>(obu_bytes(t35))
            && spec_extract_t35(obu_payload(t35), extract_validate) == Some(t35)
            && (roundtrip_form(m) ==> spec_parse(t35) == Some(as_parsed(m))),
{
    let t35 = spec_encode(m, validate, true)->Ok_0;
    if roundtrip_form(m) {
        law_parse_after_encode(m, validate);
    }
    assert(m.num_windows < 4);
    let b = metadata_bits(m, true);
    let p = padded(b);
    lemma_padded_len(b);
    lemma_bits_bytes_roundtrip(p);
    let s = bytes_to_bits(t35);
    assert(s == p);
    lemma_bytes_to_bits_len(t35);
    lemma_bits_of_len(m.itu_t_t35_country_code as nat, 8);
    lemma_bits_of_len(m.itu_t_t35_terminal_provider_code as nat, 16);
    lemma_bits_of_len(m.itu_t_t35_terminal_provider_oriented_code as nat, 16);
    lemma_bits_of_len(m.application_identifier as nat, 8);
    lemma_bits_of_len(m.application_version as nat, 8);
    lemma_bits_of_len(m.num_windows as nat, 2);
    assert(t35_bits(m, true).len() == 58);
    assert(s.subrange(0, 58) =~= t35_bits(m, true)) by {
        assert(b.subrange(0, 58) =~= t35_bits(m, true));
        assert(p.subrange(0, b.len() as int) == b);
    }
    lemma_t35_stage(s, m);
    assert(t35.len() >= 8);
    lemma_byte_field(t35, 0);
    lemma_be16_field(t35, 1);
    lemma_be16_field(t35, 3);
    lemma_byte_field(t35, 5);
    lemma_byte_field(t35, 6);
    assert(t35_header_ok(t35, extract_validate));
    law_extract_after_frame(t35, extract_validate);
}


/// HDR10+ metadata written into an HEVC SEI NAL unit comes back: with its emulation
/// prevention bytes removed, the NAL unit holds the SEI header, the payload size, the T.35
/// payload and the stop byte; that payload, escaped again as it is kept between reading and
/// parsing, unescapes to itself; for metadata with the HDR10+ country code. The payload
/// parses back to the metadata, with the fields that parsing computes, when the metadata is
/// in the round-trip form.
pub proof fn law_hevc_extract_after_encode(m: MetadataView, validate: bool)
    requires
        spec_encode_nal(m, validate) is Ok,
        m.itu_t_t35_country_code == 0xB5,
    ensures
        spec_encode(m, validate, true) matches Ok(t35) && spec_encode_nal(m, validate) == Ok::<Seq<u8>, crate::error::Hdr10PlusError>(nal_bytes(t35))
            && without_emulation_prevention(nal_bytes(t35)) == nal_payload(t35)
            && without_emulation_prevention(with_emulation_prevention(t35)) == t35
            && (roundtrip_form(m) ==> spec_parse(t35) == Some(as_parsed(m))),
{
    let t35 = spec_encode(m, validate, true)->Ok_0;
    if roundtrip_form(m) {
        law_parse_after_encode(m, validate);
    }
    law_nal_unescapes_to_payload(t35);
    let b = metadata_bits(m, true);
    let p = padded(b);
    lemma_padded_len(b);
    lemma_bits_bytes_roundtrip(p);
    lemma_bytes_to_bits_len(t35);
    lemma_bits_of_len(m.itu_t_t35_country_code as nat, 8);
    assert(bytes_to_bits(t35).subrange(0, 8) =~= bits_of(m.itu_t_t35_country_code as nat, 8)) by {
        assert(b.subrange(0, 8) =~= bits_of(m.itu_t_t35_country_code as nat, 8));
        assert(p.subrange(0, b.len() as int) == b);
    }
    lemma_pow2_values();
    lemma_bits_value_of(m.itu_t_t35_country_code as nat, 8);
    lemma_byte_field(t35, 0);
    assert(t35[0] == 0xB5);
    law_emulation_prevention_roundtrip(t35);
}


/// Eight bits in front of bits that are padded and packed give one more byte in front.
pub proof fn lemma_byte_in_front(x: Seq<bool>, rest: Seq<bool>)
    requires
        x.len() == 8,
    ensures
        bits_to_bytes(padded(x + rest)) == seq![bits_value(x) as u8] + bits_to_bytes(padded(rest)),
{
    assert(align_pad((x + rest).len()) == align_pad(rest.len()));
    assert(padded(x + rest) =~= x + padded(rest));
    let all = x + padded(rest);
    assert(all.take(8) =~= x);
    assert(all.skip(8) =~= padded(rest));
}

/// The bits written with the country code are its eight bits in front of those written
/// without it.
proof fn lemma_country_code_bits(m: MetadataView)
    ensures
        metadata_bits(m, true) == bits_of(m.itu_t_t35_country_code as nat, 8) + metadata_bits(m, false),
{
    let cc = bits_of(m.itu_t_t35_country_code as nat, 8);
    assert(t35_bits(m, true) =~= cc + t35_bits(m, false));
    assert(head_bits(m, true) =~= cc + head_bits(m, false));
    assert(metadata_bits(m, true) =~= cc + metadata_bits(m, false));
}

/// Encoding with the country code gives the country code byte followed by the bytes of the
/// encoding without it; the two encodings fail together, with the same error.
pub proof fn law_country_code_prefix(m: MetadataView, validate: bool)
    ensures
        match spec_encode(m, validate, false) {
            Ok(c) => spec_encode(m, validate, true) == Ok::<Seq<u8>, Hdr10PlusError>(
                seq![m.itu_t_t35_country_code] + c,
            ),
            Err(e) => spec_encode(m, validate, true) == Err::<Seq<u8>, Hdr10PlusError>(e),
        },
{
    let cc = bits_of(m.itu_t_t35_country_code as nat, 8);
    lemma_bits_of_len(m.itu_t_t35_country_code as nat, 8);
    lemma_pow2_values();
    lemma_bits_value_of(m.itu_t_t35_country_code as nat, 8);
    lemma_country_code_bits(m);
    lemma_byte_in_front(cc, metadata_bits(m, false));
}


/// The lists that encoding writes in full, whatever their counts say, each hold fewer than
/// 2^32 entries: the distribution, the processing windows and the Bezier curve anchors.
pub open spec fn lists_under_2_32(m: MetadataView) -> bool {
    &&& m.distribution_maxrgb.len() < 0x1_0000_0000
    &&& (m.processing_windows matches Some(pws) ==> pws.len() < 0x1_0000_0000)
    &&& (m.bezier_curve matches Some(bc) ==> bc.bezier_curve_anchors.len() < 0x1_0000_0000)
}

proof fn lemma_grid_bits_bound(g: LuminanceGridView)
    requires
        grid_fits(g),
    ensures
        grid_bits(g).len() <= 3854,
{
    lemma_bits_of_len(g.num_rows as nat, 5);
    lemma_bits_of_len(g.num_cols as nat, 5);
    lemma_grid_rows_len(g.values, g.num_rows as nat, g.num_cols as nat);
    let r = g.num_rows as nat;
    let c = g.num_cols as nat;
    assert(r * c <= 31 * 31) by (nonlinear_arith)
        requires
            r < 32,
            c < 32,
    ;
}

proof fn lemma_repeat_bound(b: Seq<bool>, k: nat, x: nat)
    requires
        k <= 3,
        b.len() <= x,
    ensures
        repeat_bits(b, k).len() <= 3 * x,
{
    lemma_repeat_len(b, k);
    let l = b.len();
    assert(k * l <= 3 * x) by (nonlinear_arith)
        requires
            k <= 3,
            l <= x,
    ;
}

/// Encodable metadata whose fully written lists hold fewer than 2^32 entries is written as
/// fewer than 2^42 bits.
pub proof fn lemma_encoded_bits_bound(m: MetadataView, with_country_code: bool)
    requires
        spec_encodable(m),
        lists_under_2_32(m),
    ensures
        metadata_bits(m, with_country_code).len() < 0x400_0000_0000,
{
    lemma_bits_of_len(m.itu_t_t35_country_code as nat, 8);
    lemma_bits_of_len(m.itu_t_t35_terminal_provider_code as nat, 16);
    lemma_bits_of_len(m.itu_t_t35_terminal_provider_oriented_code as nat, 16);
    lemma_bits_of_len(m.application_identifier as nat, 8);
    lemma_bits_of_len(m.application_version as nat, 8);
    lemma_bits_of_len(m.num_windows as nat, 2);
    assert(t35_bits(m, with_country_code).len() <= 58);
    match m.processing_windows {
        Some(pws) => {
            crate::metadata::lemma_processing_windows_len(pws);
        },
        None => {},
    }
    assert(processing_windows_part(m).len() <= 153 * 0x1_0000_0000);
    lemma_bits_of_len(m.targeted_system_display_maximum_luminance as nat, 27);
    match m.actual_targeted_system_display {
        Some(g) => lemma_grid_bits_bound(g),
        None => {},
    }
    assert(targeted_bits(m).len() <= 3882);
    lemma_bits_of_len(m.maxscl[0] as nat, 17);
    lemma_bits_of_len(m.maxscl[1] as nat, 17);
    lemma_bits_of_len(m.maxscl[2] as nat, 17);
    lemma_bits_of_len(m.average_maxrgb as nat, 17);
    lemma_bits_of_len(m.num_distribution_maxrgb_percentiles as nat, 4);
    lemma_bits_of_len(m.fraction_bright_pixels as nat, 10);
    lemma_distribution_len(m.distribution_maxrgb);
    let wx: nat = 82 + 24 * 0x1_0000_0000;
    assert(window_bits(m).len() <= wx);
    lemma_repeat_bound(window_bits(m), m.num_windows as nat, wx);
    match m.actual_mastering_display {
        Some(g) => lemma_grid_bits_bound(g),
        None => {},
    }
    assert(mastering_bits(m).len() <= 3855);
    match m.bezier_curve {
        Some(bc) => {
            lemma_bits_of_len(bc.knee_point_x as nat, 12);
            lemma_bits_of_len(bc.knee_point_y as nat, 12);
            lemma_bits_of_len(bc.num_bezier_curve_anchors as nat, 4);
            lemma_anchors_len(bc.bezier_curve_anchors, bc.bezier_curve_anchors.len());
        },
        None => {},
    }
    let tx: nat = 29 + 10 * 0x1_0000_0000;
    assert(tone_bits(m).len() <= tx);
    lemma_repeat_bound(tone_bits(m), m.num_windows as nat, tx);
    lemma_bits_of_len(m.color_saturation_weight as nat, 6);
    assert(saturation_bits(m).len() <= 7);
}

/// A metadata OBU written for HDR10+ metadata is read back through its framing: it starts
/// with the header byte `0x2A`, the LEB128 size field decodes to the length of the payload
/// after it, and the search for HDR10+ T.35 payloads, validating or not, finds in that
/// payload the T.35 bytes encoded with the country code. For metadata with the HDR10+ T.35
/// header and an application version the search takes, whose fully written lists hold
/// fewer than 2^32 entries, so that the size stays within what LEB128 decoding reads.
pub proof fn law_av1_framed_extract_after_encode(m: MetadataView, validate: bool, extract_validate: bool)
    requires
        spec_encode(m, validate, true) is Ok,
        lists_under_2_32(m),
        m.itu_t_t35_country_code == 0xB5,
        m.itu_t_t35_terminal_provider_code == 0x3C,
        m.itu_t_t35_terminal_provider_oriented_code == 1,
        m.application_identifier == 4,
        if extract_validate { m.application_version == 1 } else { m.application_version <= 1 },
    ensures
        spec_encode(m, validate, true) matches Ok(t35) && ({
            let o = obu_bytes(t35);
            let n = leb128_len(o.skip(1));
            &&& spec_encode_obu(m, validate) == Ok::<Seq<u8>, Hdr10PlusError>(o)
            &&& o[0] == 0x2A
            &&& leb128_value(o.skip(1), 0, n) == obu_payload(t35).len()
            &&& spec_extract_t35(o.skip(1 + n as int), extract_validate) == Some(t35)
        }),
{
    let t35 = spec_encode(m, validate, true)->Ok_0;
    law_av1_extract_after_encode(m, validate, extract_validate);
    lemma_encoded_bits_bound(m, true);
    let b = metadata_bits(m, true);
    lemma_padded_len(b);
    lemma_bits_bytes_roundtrip(padded(b));
    lemma_bytes_to_bits_len(t35);
    assert(8 * t35.len() == padded(b).len());
    assert(t35.len() < 0x100_0000_0000);
    assert(crate::av1::leb128_bytes(crate::av1::METADATA_TYPE_ITUT_T35 as nat).len() == 1);
    lemma_pow2_56();
    law_obu_layout(t35);
}

proof fn lemma_pow2_56()
    ensures
        pow2(56) == 0x100_0000_0000_0000,
{
    reveal_with_fuel(pow2, 57);
}

} // verus!
