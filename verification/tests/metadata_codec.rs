use hdr10plus::bits::BitstreamError;
use hdr10plus::error::Hdr10PlusError;
use hdr10plus::metadata::{
    BezierCurve, DistributionMaxRgb, Hdr10PlusMetadata, Hdr10PlusMetadataEncOpts,
};

fn distribution(values: &[u32]) -> Vec<DistributionMaxRgb> {
    let idx: [u8; 9] = [1, 5, 10, 25, 50, 75, 90, 95, 99];
    idx.iter()
        .zip(values.iter())
        .map(|(p, v)| DistributionMaxRgb { percentage: *p, percentile: *v })
        .collect()
}

fn sample() -> Hdr10PlusMetadata {
    Hdr10PlusMetadata {
        profile: String::new(),
        itu_t_t35_country_code: 0xB5,
        itu_t_t35_terminal_provider_code: 0x3C,
        itu_t_t35_terminal_provider_oriented_code: 1,
        application_identifier: 4,
        application_version: 1,
        num_windows: 1,
        processing_windows: None,
        targeted_system_display_maximum_luminance: 400,
        targeted_system_display_actual_peak_luminance_flag: false,
        actual_targeted_system_display: None,
        maxscl: [17830, 16895, 14252],
        average_maxrgb: 1037,
        num_distribution_maxrgb_percentiles: 9,
        distribution_maxrgb: distribution(&[3, 14024, 43, 56, 219, 1036, 2714, 4668, 14445]),
        fraction_bright_pixels: 0,
        mastering_display_actual_peak_luminance_flag: false,
        actual_mastering_display: None,
        tone_mapping_flag: true,
        bezier_curve: Some(BezierCurve {
            knee_point_x: 17,
            knee_point_y: 64,
            num_bezier_curve_anchors: 9,
            bezier_curve_anchors: vec![265, 666, 741, 800, 848, 887, 920, 945, 957],
        }),
        color_saturation_mapping_flag: false,
        color_saturation_weight: 0,
    }
}

fn same_fields(a: &Hdr10PlusMetadata, b: &Hdr10PlusMetadata) {
    assert_eq!(a.itu_t_t35_country_code, b.itu_t_t35_country_code);
    assert_eq!(a.itu_t_t35_terminal_provider_code, b.itu_t_t35_terminal_provider_code);
    assert_eq!(a.application_identifier, b.application_identifier);
    assert_eq!(a.application_version, b.application_version);
    assert_eq!(a.num_windows, b.num_windows);
    assert_eq!(a.targeted_system_display_maximum_luminance, b.targeted_system_display_maximum_luminance);
    assert_eq!(a.maxscl, b.maxscl);
    assert_eq!(a.average_maxrgb, b.average_maxrgb);
    assert_eq!(a.num_distribution_maxrgb_percentiles, b.num_distribution_maxrgb_percentiles);
    assert_eq!(a.distribution_maxrgb, b.distribution_maxrgb);
    assert_eq!(a.fraction_bright_pixels, b.fraction_bright_pixels);
    assert_eq!(a.tone_mapping_flag, b.tone_mapping_flag);
    assert_eq!(a.bezier_curve, b.bezier_curve);
    assert_eq!(a.color_saturation_mapping_flag, b.color_saturation_mapping_flag);
}

#[test]
fn encode_starts_with_t35_header() {
    let bytes = sample().encode(true).unwrap();
    assert_eq!(&bytes[..7], &[0xB5, 0x00, 0x3C, 0x00, 0x01, 0x04, 0x01]);
}

#[test]
fn encode_without_country_code_drops_first_byte() {
    let m = sample();
    let with = m.encode_with_opts(&Hdr10PlusMetadataEncOpts { validate: true, with_country_code: true }).unwrap();
    let without = m.encode_with_opts(&Hdr10PlusMetadataEncOpts { validate: true, with_country_code: false }).unwrap();
    assert_eq!(without[0], 0x00);
    assert_eq!(without[1], 0x3C);
    assert_eq!(with.len(), without.len() + 1);
}

#[test]
fn parse_after_encode_gives_back_the_metadata() {
    let m = sample();
    let bytes = m.encode(true).unwrap();
    let parsed = Hdr10PlusMetadata::parse(&bytes).unwrap();
    same_fields(&m, &parsed);
    assert_eq!(parsed.profile, "B");
}

#[test]
fn parse_fails_on_short_input() {
    let bytes = sample().encode(true).unwrap();
    let r = Hdr10PlusMetadata::parse(&bytes[..10]);
    assert_eq!(r.err(), Some(Hdr10PlusError::Bitstream(BitstreamError::UnexpectedEnd)));
    assert!(Hdr10PlusMetadata::parse(&[]).is_err());
}

#[test]
fn validate_accepts_sample() {
    assert_eq!(sample().validate(), Ok(()));
}

#[test]
fn validate_reports_first_broken_rule() {
    let mut m = sample();
    m.application_identifier = 3;
    assert_eq!(m.validate(), Err(Hdr10PlusError::InvalidApplicationIdentifier(3)));
    let mut m = sample();
    m.application_version = 2;
    assert_eq!(m.validate(), Err(Hdr10PlusError::InvalidApplicationVersion(2)));
    let mut m = sample();
    m.num_windows = 2;
    assert_eq!(m.validate(), Err(Hdr10PlusError::InvalidNumWindows(2)));
    let mut m = sample();
    m.targeted_system_display_actual_peak_luminance_flag = true;
    assert_eq!(m.validate(), Err(Hdr10PlusError::TargetedSystemDisplayPeakLuminanceFlagSet));
    let mut m = sample();
    m.mastering_display_actual_peak_luminance_flag = true;
    assert_eq!(m.validate(), Err(Hdr10PlusError::MasteringDisplayPeakLuminanceFlagSet));
    let mut m = sample();
    m.color_saturation_mapping_flag = true;
    assert_eq!(m.validate(), Err(Hdr10PlusError::ColorSaturationMappingFlagSet));
    let mut m = sample();
    m.targeted_system_display_maximum_luminance = 10001;
    assert_eq!(m.validate(), Err(Hdr10PlusError::TargetedSystemDisplayMaximumLuminanceOverLimit(10001)));
    let mut m = sample();
    m.targeted_system_display_maximum_luminance = 0;
    assert_eq!(m.validate(), Err(Hdr10PlusError::ProfileBZeroTargetedLuminance));
    let mut m = sample();
    m.tone_mapping_flag = false;
    assert_eq!(m.validate(), Err(Hdr10PlusError::ProfileANonZeroTargetedLuminance));
    let mut m = sample();
    m.maxscl = [100_001, 0, 0];
    assert_eq!(m.validate(), Err(Hdr10PlusError::MaxSclOverLimit));
    let mut m = sample();
    m.average_maxrgb = 100_001;
    assert_eq!(m.validate(), Err(Hdr10PlusError::AverageMaxRgbOverLimit(100_001)));
}

#[test]
fn validate_distribution_and_curve() {
    let mut m = sample();
    m.num_distribution_maxrgb_percentiles = 8;
    assert_eq!(m.validate(), Err(Hdr10PlusError::InvalidPercentileCount(8)));
    let mut m = sample();
    m.distribution_maxrgb[0].percentage = 2;
    assert_eq!(m.validate(), Err(Hdr10PlusError::InvalidDistributionIndex));
    let mut m = sample();
    m.distribution_maxrgb[3].percentile = 100_001;
    assert_eq!(m.validate(), Err(Hdr10PlusError::DistributionValuesOverLimit));
    let curve = BezierCurve { knee_point_x: 4096, knee_point_y: 0, num_bezier_curve_anchors: 0, bezier_curve_anchors: vec![] };
    assert_eq!(curve.validate(), Err(Hdr10PlusError::InvalidKneePointX(4096)));
    let curve = BezierCurve { knee_point_x: 0, knee_point_y: 5000, num_bezier_curve_anchors: 0, bezier_curve_anchors: vec![] };
    assert_eq!(curve.validate(), Err(Hdr10PlusError::InvalidKneePointY(5000)));
    let curve = BezierCurve { knee_point_x: 0, knee_point_y: 0, num_bezier_curve_anchors: 10, bezier_curve_anchors: vec![] };
    assert_eq!(curve.validate(), Err(Hdr10PlusError::InvalidAnchorCount(10)));
    let curve = BezierCurve { knee_point_x: 0, knee_point_y: 0, num_bezier_curve_anchors: 1, bezier_curve_anchors: vec![1024] };
    assert_eq!(curve.validate(), Err(Hdr10PlusError::InvalidAnchorValues));
}

#[test]
fn encode_validates_when_asked() {
    let mut m = sample();
    m.application_version = 0;
    assert_eq!(m.encode(true), Err(Hdr10PlusError::InvalidApplicationVersion(0)));
    assert!(m.encode(false).is_ok());
}

#[test]
fn encode_refuses_values_that_do_not_fit() {
    let mut m = sample();
    m.targeted_system_display_maximum_luminance = 1 << 27;
    assert_eq!(m.encode(false), Err(Hdr10PlusError::Bitstream(BitstreamError::ValueTooLarge)));
    let mut m = sample();
    m.num_windows = 4;
    assert_eq!(m.encode(false), Err(Hdr10PlusError::Bitstream(BitstreamError::ValueTooLarge)));
}

#[test]
fn distribution_lists_split() {
    let m = sample();
    assert_eq!(DistributionMaxRgb::distribution_index(&m.distribution_maxrgb), vec![1, 5, 10, 25, 50, 75, 90, 95, 99]);
    assert_eq!(
        DistributionMaxRgb::distribution_values(&m.distribution_maxrgb),
        vec![3, 14024, 43, 56, 219, 1036, 2714, 4668, 14445]
    );
}

#[test]
fn set_profile_follows_tone_mapping() {
    let mut m = sample();
    m.set_profile();
    assert_eq!(m.profile, "B");
    let mut a = sample();
    a.tone_mapping_flag = false;
    a.bezier_curve = None;
    a.targeted_system_display_maximum_luminance = 0;
    a.set_profile();
    assert_eq!(a.profile, "A");
    let mut n = sample();
    n.tone_mapping_flag = false;
    n.set_profile();
    assert_eq!(n.profile, "N/A");
}

#[test]
fn duplicate_copies_every_field() {
    let m = sample();
    let d = m.duplicate();
    same_fields(&m, &d);
    assert_eq!(m.profile, d.profile);
}

#[test]
fn default_options_validate_with_country_code() {
    let o = Hdr10PlusMetadataEncOpts::default();
    assert!(o.validate);
    assert!(o.with_country_code);
}
