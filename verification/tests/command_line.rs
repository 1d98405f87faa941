use hdr10plus::commands::{input_from_either, is_av1_input, plot_frame_range, ArgPeakBrightnessSource, CommandError, PeakBrightnessValue};
use hdr10plus::json::{Hdr10PlusJsonMetadata, LuminanceDistributions, LuminanceParameters};
use hdr10plus::metadata::{Hdr10PlusMetadata, PeakBrightnessSource};

fn frame() -> Hdr10PlusJsonMetadata {
    Hdr10PlusJsonMetadata {
        bezier_curve_data: None,
        luminance_parameters: LuminanceParameters {
            average_rgb: 5,
            luminance_distributions: LuminanceDistributions {
                distribution_index: vec![1, 5, 10, 25, 50, 75, 90, 95, 99],
                distribution_values: vec![3, 80, 43, 56, 219, 1036, 2714, 4668, 1445],
            },
            max_scl: vec![17830, 16895, 14252],
        },
        number_of_windows: 1,
        targeted_system_display_maximum_luminance: 0,
        scene_frame_index: 0,
        scene_id: 0,
        sequence_frame_index: 0,
    }
}

#[test]
fn input_prefers_the_option() {
    assert_eq!(input_from_either("extract", Some(1), Some(2)), Ok(1));
    assert_eq!(input_from_either("extract", None, Some(2)), Ok(2));
    assert_eq!(
        input_from_either::<u8>("inject", None, None),
        Err(CommandError::NoInput("inject".to_string()))
    );
}

#[test]
fn missing_input_points_to_the_help() {
    let e = input_from_either::<u8>("extract", None, None).unwrap_err();
    assert_eq!(e.message(), "No input file provided. See `hdr10plus_tool extract --help`");
}

#[test]
fn av1_inputs_by_extension() {
    assert!(is_av1_input(Some("av1")));
    assert!(is_av1_input(Some("ivf")));
    assert!(!is_av1_input(Some("hevc")));
    assert!(!is_av1_input(Some("AV1")));
    assert!(!is_av1_input(None));
}

#[test]
fn peak_brightness_sources() {
    let f = frame();
    assert_eq!(f.peak_brightness_value(PeakBrightnessSource::Histogram), Some(PeakBrightnessValue::Tenths(4668)));
    assert_eq!(f.peak_brightness_value(PeakBrightnessSource::Histogram99), Some(PeakBrightnessValue::Tenths(1445)));
    assert_eq!(f.peak_brightness_value(PeakBrightnessSource::MaxScl), Some(PeakBrightnessValue::Tenths(17830)));
    assert_eq!(
        f.peak_brightness_value(PeakBrightnessSource::MaxSclLuminance),
        Some(PeakBrightnessValue::MaxSclComponents(17830, 16895, 14252))
    );
    let m = Hdr10PlusMetadata::try_from(&f).unwrap();
    assert_eq!(m.peak_brightness_value(PeakBrightnessSource::Histogram), Some(PeakBrightnessValue::Tenths(4668)));
    assert_eq!(m.peak_brightness_value(PeakBrightnessSource::Histogram99), Some(PeakBrightnessValue::Tenths(1445)));
    let mut g = frame();
    g.luminance_parameters.max_scl = vec![];
    assert_eq!(g.peak_brightness_value(PeakBrightnessSource::MaxScl), None);
    assert_eq!(g.peak_brightness_value(PeakBrightnessSource::MaxSclLuminance), None);
}

#[test]
fn source_descriptions_and_conversion() {
    assert_eq!(PeakBrightnessSource::Histogram.description(), "Histogram maximum value");
    assert_eq!(PeakBrightnessSource::from(ArgPeakBrightnessSource::MaxScl), PeakBrightnessSource::MaxScl);
    assert_eq!(
        PeakBrightnessSource::from(ArgPeakBrightnessSource::Histogram99).description(),
        "Histogram 99.98% percentile from metadata"
    );
}

#[test]
fn plot_range_is_cut_to_the_frames() {
    assert_eq!(plot_frame_range(None, None, 10), (0, 10));
    assert_eq!(plot_frame_range(Some(2), Some(4), 10), (2, 5));
    assert_eq!(plot_frame_range(Some(20), None, 10), (10, 10));
    assert_eq!(plot_frame_range(Some(5), Some(2), 10), (5, 5));
    assert_eq!(plot_frame_range(None, Some(usize::MAX), 10), (0, 10));
}
