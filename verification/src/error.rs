//! The errors of the library.
use vstd::prelude::*;

use crate::bits::BitstreamError;

verus! {

/// Why an HDR10+ operation failed.
#[derive(Debug, Clone, PartialEq, Eq)]
pub enum Hdr10PlusError {
    /// Reading or writing the bitstream failed.
    Bitstream(BitstreamError),
    /// `application_identifier` is not 4 (SMPTE ST 2094 application 4).
    InvalidApplicationIdentifier(u8),
    /// `application_version` is not 1.
    InvalidApplicationVersion(u8),
    /// `num_windows` is not 1, as version 1 requires.
    InvalidNumWindows(u8),
    /// `targeted_system_display_actual_peak_luminance_flag` is set, which version 1 forbids.
    TargetedSystemDisplayPeakLuminanceFlagSet,
    /// `mastering_display_actual_peak_luminance_flag` is set, which version 1 forbids.
    MasteringDisplayPeakLuminanceFlagSet,
    /// `color_saturation_mapping_flag` is set, which version 1 forbids.
    ColorSaturationMappingFlagSet,
    /// `targeted_system_display_maximum_luminance` is above 10000.
    TargetedSystemDisplayMaximumLuminanceOverLimit(u32),
    /// Profile B (tone mapping) with a zero targeted display luminance.
    ProfileBZeroTargetedLuminance,
    /// Profile A (no tone mapping) with a non-zero targeted display luminance.
    ProfileANonZeroTargetedLuminance,
    /// A MaxSCL value is above 100000.
    MaxSclOverLimit,
    /// AverageMaxRGB is above 100000.
    AverageMaxRgbOverLimit(u32),
    /// The number of distribution percentiles is neither 9 nor 10.
    InvalidPercentileCount(u8),
    /// The distribution indexes are not the standard ones for their count.
    InvalidDistributionIndex,
    /// A distribution value is above 100000.
    DistributionValuesOverLimit,
    /// `knee_point_x` is above 4095.
    InvalidKneePointX(u16),
    /// `knee_point_y` is above 4095.
    InvalidKneePointY(u16),
    /// More than 9 Bezier curve anchors.
    InvalidAnchorCount(u8),
    /// A Bezier curve anchor is 1024 or more.
    InvalidAnchorValues,
    /// The encoded SEI payload is longer than 255 bytes.
    PayloadTooLarge(usize),
    /// MaxScl does not hold exactly 3 elements.
    InvalidMaxSclLength,
    /// DistributionIndex and DistributionValues differ in length.
    DistributionLengthMismatch,
    /// DistributionIndex holds more than 10 elements.
    DistributionIndexTooLong,
    /// DistributionValues holds more than 10 elements.
    DistributionValuesTooLong,
}

} // verus!
