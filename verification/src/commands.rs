//! The command line of the tool as plain values: the commands and their arguments, and
//! the choices that follow from them.
use vstd::prelude::*;

use std::path::PathBuf;

use vstd::string::{StrSliceExecFns, StringExecFns};

use crate::json::{Hdr10PlusJsonMetadata, JsonFrameView};
use crate::metadata::{Hdr10PlusMetadata, MetadataView, PeakBrightnessSource};

verus! {

/// A file system path, carried through unread.
#[verifier::external_type_specification]
#[verifier::external_body]
pub struct ExPathBuf(PathBuf);

/// Where the peak brightness of a frame is taken from, as given on the command line.
#[derive(Debug, Clone, Copy, PartialEq, Eq)]
pub enum ArgPeakBrightnessSource {
    /// The max value from the histogram measurements
    Histogram,
    /// The last percentile in the histogram, usually 99.98% brightness percentile
    Histogram99,
    /// The max value in `maxscl`
    MaxScl,
    /// The luminance calculated from the `maxscl` components
    /// Assumed BT.2020 primaries
    MaxSclLuminance,
}

impl From<ArgPeakBrightnessSource> for PeakBrightnessSource {
    fn from(e: ArgPeakBrightnessSource) -> (r: Self) {
        match e {
            ArgPeakBrightnessSource::Histogram => PeakBrightnessSource::Histogram,
            ArgPeakBrightnessSource::Histogram99 => PeakBrightnessSource::Histogram99,
            ArgPeakBrightnessSource::MaxScl => PeakBrightnessSource::MaxScl,
            ArgPeakBrightnessSource::MaxSclLuminance => PeakBrightnessSource::MaxSclLuminance,
        }
    }
}

impl vstd::std_specs::convert::FromSpecImpl<ArgPeakBrightnessSource> for PeakBrightnessSource {
    open spec fn obeys_from_spec() -> bool {
        true
    }

    open spec fn from_spec(e: ArgPeakBrightnessSource) -> PeakBrightnessSource {
        match e {
            ArgPeakBrightnessSource::Histogram => PeakBrightnessSource::Histogram,
            ArgPeakBrightnessSource::Histogram99 => PeakBrightnessSource::Histogram99,
            ArgPeakBrightnessSource::MaxScl => PeakBrightnessSource::MaxScl,
            ArgPeakBrightnessSource::MaxSclLuminance => PeakBrightnessSource::MaxSclLuminance,
        }
    }
}

/// The arguments of `extract`.
#[derive(Debug)]
pub struct ExtractArgs {
    pub input: Option<PathBuf>,
    pub input_pos: Option<PathBuf>,
    pub output: Option<PathBuf>,
    pub skip_reorder: bool,
    pub limit: Option<u64>,
}

/// The arguments of `inject`.
#[derive(Debug)]
pub struct InjectArgs {
    pub input: Option<PathBuf>,
    pub input_pos: Option<PathBuf>,
    pub json: PathBuf,
    pub output: Option<PathBuf>,
}

/// The arguments of `remove`.
#[derive(Debug)]
pub struct RemoveArgs {
    pub input: Option<PathBuf>,
    pub input_pos: Option<PathBuf>,
    pub output: Option<PathBuf>,
}

/// The arguments of `plot`.
#[derive(Debug)]
pub struct PlotArgs {
    pub input: Option<PathBuf>,
    pub input_pos: Option<PathBuf>,
    pub output: Option<PathBuf>,
    pub title: Option<String>,
    pub peak_source: ArgPeakBrightnessSource,
    pub start: Option<usize>,
    pub end: Option<usize>,
}

/// The arguments of `editor`.
#[derive(Debug)]
pub struct EditorArgs {
    pub input: Option<PathBuf>,
    pub input_pos: Option<PathBuf>,
    pub edits_json: PathBuf,
    pub json_out: Option<PathBuf>,
}

/// A command of the tool, with its arguments.
#[derive(Debug)]
pub enum Command {
    Extract(ExtractArgs),
    Inject(InjectArgs),
    Remove(RemoveArgs),
    Plot(PlotArgs),
    Editor(EditorArgs),
}

/// Why a command cannot start.
#[derive(Debug, Clone, PartialEq, Eq)]
pub enum CommandError {
    /// Neither the input option nor the positional input was given; holds the command's
    /// name.
    NoInput(String),
}

impl CommandError {
    /// The message of the error, which points to the command's help.
    pub fn message(&self) -> (r: String)
        ensures
            match self {
                CommandError::NoInput(cmd) => r@ == "No input file provided. See `hdr10plus_tool "@ + cmd@
                    + " --help`"@,
            },
    {
        match self {
            CommandError::NoInput(cmd) => {
                let mut m = String::from_str("No input file provided. See `hdr10plus_tool ");
                m.append(cmd.as_str());
                m.append(" --help`");
                m
            },
        }
    }
}

/// The input given by option, else the one given by position; refused when neither is.
pub fn input_from_either<T>(cmd: &str, in1: Option<T>, in2: Option<T>) -> (r: Result<T, CommandError>)
    ensures
        match in1 {
            Some(a) => r == Ok::<T, CommandError>(a),
            None => match in2 {
                Some(b) => r == Ok::<T, CommandError>(b),
                None => r matches Err(CommandError::NoInput(c)) && c@ == cmd@,
            },
        },
{
    match in1 {
        Some(in1) => Ok(in1),
        None => match in2 {
            Some(in2) => Ok(in2),
            None => Err(CommandError::NoInput(cmd.to_owned())),
        },
    }
}

/// The frames that a plot covers, `first..last`, of `len` frames: from `start` (else the
/// first frame) to `end` included (else the last frame), each cut to the frames, and never
/// ending before it starts.
pub open spec fn spec_plot_range(start: Option<usize>, end: Option<usize>, len: nat) -> (nat, nat) {
    let first: nat = match start {
        Some(s) => if s < len { s as nat } else { len },
        None => 0,
    };
    let last: nat = match end {
        Some(e) => if e + 1 < first { first } else if e + 1 > len { len } else { (e + 1) as nat },
        None => len,
    };
    (first, last)
}

/// The frames that a plot covers, `first..last`, of `len` frames: from `start` to `end`
/// included, as far as the frames reach.
pub fn plot_frame_range(start: Option<usize>, end: Option<usize>, len: usize) -> (r: (usize, usize))
    ensures
        (r.0 as nat, r.1 as nat) == spec_plot_range(start, end, len as nat),
        r.0 <= r.1 <= len,
{
    let first = match start {
        Some(s) => if s < len { s } else { len },
        None => 0,
    };
    let last = match end {
        Some(e) => if e >= len { len } else if e + 1 < first { first } else { e + 1 },
        None => len,
    };
    (first, last)
}

/// Whether a file extension is that of an AV1 stream: `av1` or `ivf`.
pub open spec fn spec_is_av1_extension(extension: Option<Seq<char>>) -> bool {
    extension == Some("av1"@) || extension == Some("ivf"@)
}

/// Whether a path whose extension is `extension` holds an AV1 stream: `.av1` or `.ivf`.
pub fn is_av1_input(extension: Option<&str>) -> (r: bool)
    ensures
        r == spec_is_av1_extension(match extension {
            Some(e) => Some(e@),
            None => None,
        }),
{
    match extension {
        Some(e) => {
            let n = e.unicode_len();
            proof {
                reveal_strlit("av1");
                reveal_strlit("ivf");
            }
            if n != 3 {
                return false;
            }
            let a = e.get_char(0);
            let b = e.get_char(1);
            let c = e.get_char(2);
            let r = (a == 'a' && b == 'v' && c == '1') || (a == 'i' && b == 'v' && c == 'f');
            proof {
                if a == 'a' && b == 'v' && c == '1' {
                    assert(e@ =~= "av1"@);
                } else if a == 'i' && b == 'v' && c == 'f' {
                    assert(e@ =~= "ivf"@);
                } else {
                    assert(e@[0] == a && e@[1] == b && e@[2] == c);
                }
            }
            r
        },
        None => false,
    }
}

/// The extraction command, whose work is I/O around the extraction decisions.
pub struct Extractor {}

/// The plot command: the JSON file to plot, and where each frame's peak brightness is
/// taken from.
pub struct Plotter {
    pub input: PathBuf,
    pub peak_brightness_source: PeakBrightnessSource,
}

/// The axis of perceptual quantizer values of the plot.
pub struct PqCoord {}

/// Options of RPU processing.
#[derive(Debug)]
pub struct RpuOptions {
    pub mode: Option<u8>,
    pub crop: bool,
}

/// The raw peak brightness of a frame, in tenths of nits, or the three MaxSCL components
/// from which a luminance is computed.
#[derive(Debug, Clone, Copy, PartialEq, Eq)]
pub enum PeakBrightnessValue {
    Tenths(u32),
    MaxSclComponents(u32, u32, u32),
}

/// The largest value of a sequence, if any.
pub open spec fn seq_max(s: Seq<u32>) -> Option<u32>
    decreases s.len(),
{
    if s.len() == 0 {
        None
    } else {
        match seq_max(s.drop_last()) {
            None => Some(s.last()),
            Some(m) => if s.last() > m { Some(s.last()) } else { Some(m) },
        }
    }
}

/// The largest value of a slice, if any.
fn max_of(v: &[u32]) -> (r: Option<u32>)
    ensures
        r == seq_max(v@),
{
    let mut m: Option<u32> = None;
    let mut i: usize = 0;
    while i < v.len()
        invariant
            i <= v@.len(),
            m == seq_max(v@.take(i as int)),
        decreases v@.len() - i,
    {
        proof {
            assert(v@.take(i + 1).drop_last() =~= v@.take(i as int));
        }
        m = match m {
            None => Some(v[i]),
            Some(x) => if v[i] > x { Some(v[i]) } else { Some(x) },
        };
        i = i + 1;
    }
    assert(v@.take(i as int) =~= v@);
    m
}

/// The peak brightness of a JSON frame from a source: the largest or the last histogram
/// value, the largest MaxSCL value, or, when it has exactly three, the MaxSCL components.
pub open spec fn spec_json_peak(f: JsonFrameView, source: PeakBrightnessSource) -> Option<PeakBrightnessValue> {
    let values = f.luminance_parameters.luminance_distributions.distribution_values;
    let maxscl = f.luminance_parameters.max_scl;
    match source {
        PeakBrightnessSource::Histogram => match seq_max(values) {
            Some(v) => Some(PeakBrightnessValue::Tenths(v)),
            None => None,
        },
        PeakBrightnessSource::Histogram99 => if values.len() > 0 {
            Some(PeakBrightnessValue::Tenths(values.last()))
        } else {
            None
        },
        PeakBrightnessSource::MaxScl => match seq_max(maxscl) {
            Some(v) => Some(PeakBrightnessValue::Tenths(v)),
            None => None,
        },
        PeakBrightnessSource::MaxSclLuminance => if maxscl.len() == 3 {
            Some(PeakBrightnessValue::MaxSclComponents(maxscl[0], maxscl[1], maxscl[2]))
        } else {
            None
        },
    }
}

impl Hdr10PlusJsonMetadata {
    /// The peak brightness of the frame from a source, before its conversion to nits.
    pub fn peak_brightness_value(&self, source: PeakBrightnessSource) -> (r: Option<PeakBrightnessValue>)
        ensures
            r == spec_json_peak(self@, source),
    {
        let values = &self.luminance_parameters.luminance_distributions.distribution_values;
        let maxscl = &self.luminance_parameters.max_scl;
        match source {
            PeakBrightnessSource::Histogram => match max_of(values.as_slice()) {
                Some(v) => Some(PeakBrightnessValue::Tenths(v)),
                None => None,
            },
            PeakBrightnessSource::Histogram99 => {
                if values.len() > 0 {
                    Some(PeakBrightnessValue::Tenths(values[values.len() - 1]))
                } else {
                    None
                }
            },
            PeakBrightnessSource::MaxScl => match max_of(maxscl.as_slice()) {
                Some(v) => Some(PeakBrightnessValue::Tenths(v)),
                None => None,
            },
            PeakBrightnessSource::MaxSclLuminance => {
                if maxscl.len() == 3 {
                    Some(PeakBrightnessValue::MaxSclComponents(maxscl[0], maxscl[1], maxscl[2]))
                } else {
                    None
                }
            },
        }
    }
}

/// The peak brightness of metadata from a source: the largest or the last histogram
/// percentile, the largest MaxSCL value, or the MaxSCL components.
pub open spec fn spec_metadata_peak(m: MetadataView, source: PeakBrightnessSource) -> Option<PeakBrightnessValue> {
    let percentiles = m.distribution_maxrgb.map_values(|d: crate::metadata::DistributionMaxRgb| d.percentile);
    match source {
        PeakBrightnessSource::Histogram => match seq_max(percentiles) {
            Some(v) => Some(PeakBrightnessValue::Tenths(v)),
            None => None,
        },
        PeakBrightnessSource::Histogram99 => if percentiles.len() > 0 {
            Some(PeakBrightnessValue::Tenths(percentiles.last()))
        } else {
            None
        },
        PeakBrightnessSource::MaxScl => match seq_max(m.maxscl) {
            Some(v) => Some(PeakBrightnessValue::Tenths(v)),
            None => None,
        },
        PeakBrightnessSource::MaxSclLuminance => Some(PeakBrightnessValue::MaxSclComponents(m.maxscl[0], m.maxscl[1], m.maxscl[2])),
    }
}

/// The largest value of a sequence is one of its values, and none of its values exceeds
/// it; an empty sequence has none.
pub proof fn lemma_seq_max(s: Seq<u32>)
    ensures
        match seq_max(s) {
            None => s.len() == 0,
            Some(v) => (exists|j: int| 0 <= j < s.len() && #[trigger] s[j] == v)
                && forall|j: int| 0 <= j < s.len() ==> #[trigger] s[j] <= v,
        },
    decreases s.len(),
{
    if s.len() > 0 {
        let t = s.drop_last();
        lemma_seq_max(t);
        match seq_max(t) {
            None => {
                assert(s[s.len() - 1] == s.last());
            },
            Some(m) => {
                let j0 = choose|j: int| 0 <= j < t.len() && #[trigger] t[j] == m;
                assert(s[j0] == t[j0]);
                assert(s[s.len() - 1] == s.last());
                assert forall|j: int| 0 <= j < s.len() implies #[trigger] s[j] <= seq_max(s).unwrap() by {
                    if j < s.len() - 1 {
                        assert(s[j] == t[j]);
                    }
                }
            },
        }
    }
}

/// The peak brightness of metadata, by source: for the histogram, a percentile of the
/// distribution that no percentile exceeds; for its 99.98% value, the last percentile; for
/// MaxSCL, a MaxSCL component that no component exceeds; for the MaxSCL luminance, the three
/// MaxSCL components. Each is there exactly when its values are.
pub proof fn law_metadata_peak_brightness(m: MetadataView)
    ensures
        m.maxscl.len() == 0 ==> spec_metadata_peak(m, PeakBrightnessSource::MaxScl) is None,
        m.maxscl.len() > 0 ==> (spec_metadata_peak(m, PeakBrightnessSource::MaxScl) matches Some(PeakBrightnessValue::Tenths(v))
            && (exists|j: int| 0 <= j < m.maxscl.len() && #[trigger] m.maxscl[j] == v)
            && forall|j: int| 0 <= j < m.maxscl.len() ==> #[trigger] m.maxscl[j] <= v),
        m.distribution_maxrgb.len() == 0 ==> spec_metadata_peak(m, PeakBrightnessSource::Histogram) is None
            && spec_metadata_peak(m, PeakBrightnessSource::Histogram99) is None,
        m.distribution_maxrgb.len() > 0 ==> (spec_metadata_peak(m, PeakBrightnessSource::Histogram) matches Some(PeakBrightnessValue::Tenths(v))
            && (exists|j: int| 0 <= j < m.distribution_maxrgb.len() && #[trigger] m.distribution_maxrgb[j].percentile == v)
            && forall|j: int| 0 <= j < m.distribution_maxrgb.len() ==> #[trigger] m.distribution_maxrgb[j].percentile <= v),
        m.distribution_maxrgb.len() > 0 ==> spec_metadata_peak(m, PeakBrightnessSource::Histogram99)
            == Some(PeakBrightnessValue::Tenths(m.distribution_maxrgb[m.distribution_maxrgb.len() - 1].percentile)),
        spec_metadata_peak(m, PeakBrightnessSource::MaxSclLuminance)
            == Some(PeakBrightnessValue::MaxSclComponents(m.maxscl[0], m.maxscl[1], m.maxscl[2])),
{
    let p = m.distribution_maxrgb.map_values(|d: crate::metadata::DistributionMaxRgb| d.percentile);
    lemma_seq_max(m.maxscl);
    lemma_seq_max(p);
    if m.distribution_maxrgb.len() > 0 {
        let v = seq_max(p).unwrap();
        let j0 = choose|j: int| 0 <= j < p.len() && #[trigger] p[j] == v;
        assert(m.distribution_maxrgb[j0].percentile == v);
        assert forall|j: int| 0 <= j < m.distribution_maxrgb.len() implies #[trigger] m.distribution_maxrgb[j].percentile <= v by {
            assert(p[j] == m.distribution_maxrgb[j].percentile);
        }
    }
}

/// The peak brightness of a JSON frame, by source: for the histogram, a distribution value
/// that no value exceeds; for its 99.98% value, the last value; for MaxSCL, a MaxSCL value
/// that no value exceeds; for the MaxSCL luminance, the three MaxSCL values when there are
/// exactly three. Each is there exactly when its values are.
pub proof fn law_json_peak_brightness(f: JsonFrameView)
    ensures
        ({
            let maxscl = f.luminance_parameters.max_scl;
            &&& maxscl.len() == 0 ==> spec_json_peak(f, PeakBrightnessSource::MaxScl) is None
            &&& maxscl.len() > 0 ==> (spec_json_peak(f, PeakBrightnessSource::MaxScl) matches Some(PeakBrightnessValue::Tenths(v))
                && (exists|j: int| 0 <= j < maxscl.len() && #[trigger] maxscl[j] == v)
                && forall|j: int| 0 <= j < maxscl.len() ==> #[trigger] maxscl[j] <= v)
            &&& spec_json_peak(f, PeakBrightnessSource::MaxSclLuminance) == (if maxscl.len() == 3 {
                Some(PeakBrightnessValue::MaxSclComponents(maxscl[0], maxscl[1], maxscl[2]))
            } else {
                None
            })
        }),
        ({
            let values = f.luminance_parameters.luminance_distributions.distribution_values;
            &&& values.len() == 0 ==> spec_json_peak(f, PeakBrightnessSource::Histogram) is None
                && spec_json_peak(f, PeakBrightnessSource::Histogram99) is None
            &&& values.len() > 0 ==> (spec_json_peak(f, PeakBrightnessSource::Histogram) matches Some(PeakBrightnessValue::Tenths(v))
                && (exists|j: int| 0 <= j < values.len() && #[trigger] values[j] == v)
                && forall|j: int| 0 <= j < values.len() ==> #[trigger] values[j] <= v)
            &&& values.len() > 0 ==> spec_json_peak(f, PeakBrightnessSource::Histogram99)
                == Some(PeakBrightnessValue::Tenths(values[values.len() - 1]))
        }),
{
    lemma_seq_max(f.luminance_parameters.max_scl);
    lemma_seq_max(f.luminance_parameters.luminance_distributions.distribution_values);
}

impl Hdr10PlusMetadata {
    /// The peak brightness of the metadata from a source, before its conversion to nits.
    pub fn peak_brightness_value(&self, source: PeakBrightnessSource) -> (r: Option<PeakBrightnessValue>)
        ensures
            r == spec_metadata_peak(self@, source),
    {
        let mut percentiles: Vec<u32> = Vec::new();
        let mut i: usize = 0;
        while i < self.distribution_maxrgb.len()
            invariant
                i <= self.distribution_maxrgb@.len(),
                percentiles@ == self.distribution_maxrgb@.take(i as int).map_values(|d: crate::metadata::DistributionMaxRgb| d.percentile),
            decreases self.distribution_maxrgb@.len() - i,
        {
            percentiles.push(self.distribution_maxrgb[i].percentile);
            i = i + 1;
            assert(percentiles@ =~= self.distribution_maxrgb@.take(i as int).map_values(|d: crate::metadata::DistributionMaxRgb| d.percentile));
        }
        assert(self.distribution_maxrgb@.take(i as int) =~= self.distribution_maxrgb@);
        match source {
            PeakBrightnessSource::Histogram => match max_of(percentiles.as_slice()) {
                Some(v) => Some(PeakBrightnessValue::Tenths(v)),
                None => None,
            },
            PeakBrightnessSource::Histogram99 => {
                if percentiles.len() > 0 {
                    Some(PeakBrightnessValue::Tenths(percentiles[percentiles.len() - 1]))
                } else {
                    None
                }
            },
            PeakBrightnessSource::MaxScl => match max_of(&self.maxscl) {
                Some(v) => Some(PeakBrightnessValue::Tenths(v)),
                None => None,
            },
            PeakBrightnessSource::MaxSclLuminance => Some(
                PeakBrightnessValue::MaxSclComponents(self.maxscl[0], self.maxscl[1], self.maxscl[2]),
            ),
        }
    }
}

impl PeakBrightnessSource {
    /// How the source is described to the user.
    pub fn description(&self) -> (r: &'static str)
        ensures
            r@ == (match self {
                PeakBrightnessSource::Histogram => "Histogram maximum value"@,
                PeakBrightnessSource::Histogram99 => "Histogram 99.98% percentile from metadata"@,
                PeakBrightnessSource::MaxScl => "MaxSCL maximum value"@,
                PeakBrightnessSource::MaxSclLuminance => "MaxSCL Luminance, calculated from the components"@,
            }),
    {
        match self {
            PeakBrightnessSource::Histogram => "Histogram maximum value",
            PeakBrightnessSource::Histogram99 => "Histogram 99.98% percentile from metadata",
            PeakBrightnessSource::MaxScl => "MaxSCL maximum value",
            PeakBrightnessSource::MaxSclLuminance => "MaxSCL Luminance, calculated from the components",
        }
    }
}

} // verus!
