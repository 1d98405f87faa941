//! The byte-level scan for HDR10+ SEI messages in a raw HEVC stream, and the reading of
//! their payloads into the summary that the LLC JSON format holds.
use vstd::prelude::*;

use crate::bits::{bits_value, bytes_to_bits, lemma_bits_value_bound, lemma_bytes_to_bits_len, lemma_pow2_values, pow2};
use crate::json::{
    copy_u16s, copy_u32s, copy_u8s, BezierCurveData, BezierCurveDataView, LuminanceDistributions,
    LuminanceDistributionsView, LuminanceParameters, LuminanceParametersView,
};
use crate::metadata::{field, standard_distribution_indexes};

verus! {

/// The bytes that start an HDR10+ SEI prefix NAL unit: a start code, the NAL header of an
/// SEI prefix, and the T.35 payload type.
pub open spec fn sei_header() -> Seq<u8> {
    seq![0u8, 0, 1, 78, 1, 4]
}

/// Whether the bytes end with a stop byte `0x80` followed by the start of the next start
/// code (`00 00 00` or `00 00 01`).
pub open spec fn ends_sei(c: Seq<u8>) -> bool {
    &&& c.len() >= 4
    &&& c[c.len() - 4] == 128
    &&& c[c.len() - 3] == 0
    &&& c[c.len() - 2] == 0
    &&& (c[c.len() - 1] == 1 || c[c.len() - 1] == 0)
}

/// The bytes that may continue a match of the header: those of the header, and also the
/// stop byte `0x80` when `accept_stop_byte` is set.
pub open spec fn header_byte(byte: u8, accept_stop_byte: bool) -> bool {
    byte == 0 || byte == 1 || byte == 78 || byte == 4 || (accept_stop_byte && byte == 128)
}

/// The index of the first byte of `c` that differs from `header`, among the first
/// `c.len()` bytes.
pub open spec fn first_mismatch(c: Seq<u8>, header: Seq<u8>) -> Option<nat>
    decreases c.len(),
{
    if c.len() == 0 {
        None
    } else {
        match first_mismatch(c.drop_last(), header) {
            Some(i) => Some(i),
            None => if c.last() != header[c.len() - 1] {
                Some((c.len() - 1) as nat)
            } else {
                None
            },
        }
    }
}

/// The inputs on which one scanning step runs to its end: a byte within an SEI leaves at
/// least four bytes to look back on, and a found SEI is long enough to hold the header
/// and the stop bytes; a byte that may continue the header is compared to it no further
/// than its length.
pub open spec fn process_bytes_ok(header: Seq<u8>, byte: u8, current_sei: Seq<u8>, dynamic_hdr_sei: bool, accept_stop_byte: bool) -> bool {
    let c = current_sei.push(byte);
    if dynamic_hdr_sei {
        c.len() >= 4 && (ends_sei(c) ==> c.len() >= 10)
    } else if header_byte(byte, accept_stop_byte) {
        c.len() <= header.len() || first_mismatch(c.take(header.len() as int), header) is Some
    } else {
        true
    }
}

/// One scanning step: the byte is appended to the bytes matched so far. Within an SEI, a
/// stop pattern ends it, and its payload (after the seven header bytes, before the three
/// trailing ones) is found. Outside, a byte that may continue the header keeps the match
/// when it does (and enters the SEI once the whole header is matched), else drops the match
/// when it is shorter than three bytes, or the byte; any other byte drops the match.
/// Returns the new matched bytes, whether within an SEI, the payload found and whether one
/// was found.
pub open spec fn spec_process_bytes(header: Seq<u8>, byte: u8, current_sei: Seq<u8>, dynamic_hdr_sei: bool, accept_stop_byte: bool) -> (Seq<u8>, bool, Option<Seq<u8>>) {
    let c = current_sei.push(byte);
    if dynamic_hdr_sei {
        if ends_sei(c) {
            (seq![], false, Some(c.subrange(7, c.len() - 3)))
        } else {
            (c, true, None)
        }
    } else if header_byte(byte, accept_stop_byte) {
        match first_mismatch(c, header) {
            None => if c == header {
                (c, true, None)
            } else {
                (c, false, None)
            },
            Some(i) => if c.len() < 3 {
                (seq![], false, None)
            } else {
                (c.drop_last(), false, None)
            },
        }
    } else {
        (seq![], false, None)
    }
}

proof fn lemma_first_mismatch_prefix(c: Seq<u8>, header: Seq<u8>, i: int)
    requires
        0 <= i <= c.len(),
        i <= header.len(),
        forall|j: int| 0 <= j < i ==> c[j] == header[j],
    ensures
        first_mismatch(c.take(i), header) is None,
    decreases i,
{
    if i > 0 {
        lemma_first_mismatch_prefix(c, header, i - 1);
        assert(c.take(i).drop_last() =~= c.take(i - 1));
    }
}

proof fn lemma_first_mismatch_found(c: Seq<u8>, header: Seq<u8>, i: int, k: int)
    requires
        0 <= i < k <= c.len(),
        i < header.len(),
        c[i] != header[i],
        first_mismatch(c.take(i), header) is None,
    ensures
        first_mismatch(c.take(k), header) == Some(i as nat),
    decreases k,
{
    if k == i + 1 {
        assert(c.take(k).drop_last() =~= c.take(i));
    } else {
        lemma_first_mismatch_found(c, header, i, k - 1);
        assert(c.take(k).drop_last() =~= c.take(k - 1));
    }
}

/// Scans one byte of a raw HEVC stream for HDR10+ SEI messages. `current_sei` holds the
/// bytes matched so far and `dynamic_hdr_sei` whether they are within an SEI; a found
/// payload is appended to `final_sei_list`. The stop byte `0x80` may continue the header
/// when `accept_stop_byte` is set. Returns whether the bytes are now within an SEI, and
/// whether a payload was found.
pub fn process_bytes(
    header: &[u8],
    byte: u8,
    current_sei: &mut Vec<u8>,
    dynamic_hdr_sei: bool,
    final_sei_list: &mut Vec<Vec<u8>>,
    accept_stop_byte: bool,
) -> (r: (bool, bool))
    requires
        process_bytes_ok(header@, byte, old(current_sei)@, dynamic_hdr_sei, accept_stop_byte),
    ensures
        ({
            let (c, d, found) = spec_process_bytes(header@, byte, old(current_sei)@, dynamic_hdr_sei, accept_stop_byte);
            &&& final(current_sei)@ == c
            &&& r.0 == d
            &&& r.1 == found is Some
            &&& match found {
                Some(p) => final(final_sei_list)@.len() == old(final_sei_list)@.len() + 1
                    && final(final_sei_list)@.take(old(final_sei_list)@.len() as int) == old(final_sei_list)@
                    && final(final_sei_list)@.last()@ == p,
                None => final(final_sei_list)@ == old(final_sei_list)@,
            }
        }),
{
    let ghost c = old(current_sei)@.push(byte);
    let mut dynamic = dynamic_hdr_sei;
    let mut dynamic_detected = false;
    current_sei.push(byte);
    if dynamic_hdr_sei {
        let last = current_sei.len() - 1;
        if current_sei[last - 3] == 128 && current_sei[last - 2] == 0 && current_sei[last - 1] == 0
            && (current_sei[last] == 1 || current_sei[last] == 0) {
            let end = current_sei.len() - 3;
            let mut final_sei: Vec<u8> = Vec::new();
            let mut k: usize = 7;
            while k < end
                invariant
                    current_sei@ == c,
                    7 <= k <= end,
                    end == c.len() - 3,
                    final_sei@ == c.subrange(7, k as int),
                decreases end - k,
            {
                final_sei.push(current_sei[k]);
                k = k + 1;
                assert(final_sei@ =~= c.subrange(7, k as int));
            }
            final_sei_list.push(final_sei);
            current_sei.clear();
            dynamic = false;
            dynamic_detected = true;
        }
    } else if byte == 0 || byte == 1 || byte == 78 || byte == 4 || (accept_stop_byte && byte == 128) {
        let ghost expected = spec_process_bytes(header@, byte, old(current_sei)@, false, accept_stop_byte);
        let mut i: usize = 0;
        let mut stop = false;
        while i < current_sei.len() && !stop
            invariant
                !stop ==> current_sei@ == c,
                !stop ==> !dynamic,
                !stop && i > 0 ==> c != header@,
                stop ==> current_sei@ == expected.0 && dynamic == expected.1,
                i <= c.len(),
                i <= header@.len(),
                forall|j: int| 0 <= j < i ==> c[j] == header@[j],
                expected == spec_process_bytes(header@, byte, old(current_sei)@, false, accept_stop_byte),
                c == old(current_sei)@.push(byte),
                header_byte(byte, accept_stop_byte),
                process_bytes_ok(header@, byte, old(current_sei)@, false, accept_stop_byte),
            decreases c.len() - i + (if stop { 0int } else { 1int }),
        {
            if i >= header.len() {
                proof {
                    lemma_first_mismatch_prefix(c, header@, header@.len() as int);
                }
                assert(false);
            }
            if current_sei[i] == header[i] {
                if slices_equal(current_sei.as_slice(), header) {
                    dynamic = true;
                    proof {
                        lemma_first_mismatch_prefix(c, header@, c.len() as int);
                        assert(c.take(c.len() as int) =~= c);
                    }
                    stop = true;
                } else {
                    i = i + 1;
                }
            } else {
                proof {
                    lemma_first_mismatch_prefix(c, header@, i as int);
                    lemma_first_mismatch_found(c, header@, i as int, c.len() as int);
                    assert(c.take(c.len() as int) =~= c);
                }
                if current_sei.len() < 3 {
                    current_sei.clear();
                } else {
                    current_sei.pop();
                    assert(current_sei@ =~= c.drop_last());
                }
                stop = true;
            }
        }
        if !stop {
            proof {
                lemma_first_mismatch_prefix(c, header@, c.len() as int);
                assert(c.take(c.len() as int) =~= c);
            }
        }
    } else if current_sei.len() > 0 {
        current_sei.clear();
    }
    (dynamic, dynamic_detected)
}

/// Whether two byte slices are equal.
fn slices_equal(a: &[u8], b: &[u8]) -> (r: bool)
    ensures
        r == (a@ == b@),
{
    if a.len() != b.len() {
        return false;
    }
    let mut i: usize = 0;
    while i < a.len()
        invariant
            a@.len() == b@.len(),
            i <= a@.len(),
            forall|j: int| 0 <= j < i ==> a@[j] == b@[j],
        decreases a@.len() - i,
    {
        if a[i] != b[i] {
            return false;
        }
        i = i + 1;
    }
    assert(a@ =~= b@);
    true
}

/// Whether the matched bytes are a proper start of the header outside an SEI, or start
/// with the whole header within one.
pub open spec fn scan_state_ok(current: Seq<u8>, dynamic: bool) -> bool {
    if dynamic {
        current.len() >= 6 && current.take(6) == sei_header()
    } else {
        current.len() < 6 && current == sei_header().take(current.len() as int)
    }
}

proof fn lemma_first_mismatch_of_prefix(cur: Seq<u8>, b: u8)
    requires
        cur.len() < 6,
        cur == sei_header().take(cur.len() as int),
    ensures
        first_mismatch(cur.push(b), sei_header()) is None <==> b == sei_header()[cur.len() as int],
{
    let c = cur.push(b);
    lemma_first_mismatch_prefix(c, sei_header(), cur.len() as int);
    assert(c.take(cur.len() as int) =~= cur);
    assert(c.drop_last() =~= cur);
    assert(c.take(cur.len() as int) =~= c.drop_last());
}

/// A scanning step from a well-formed state runs to its end and leads to a well-formed
/// state.
pub proof fn lemma_scan_step(byte: u8, current: Seq<u8>, dynamic: bool, accept_stop_byte: bool)
    requires
        scan_state_ok(current, dynamic),
    ensures
        process_bytes_ok(sei_header(), byte, current, dynamic, accept_stop_byte),
        ({
            let (c, d, _f) = spec_process_bytes(sei_header(), byte, current, dynamic, accept_stop_byte);
            scan_state_ok(c, d)
        }),
{
    let h = sei_header();
    let c = current.push(byte);
    assert(Seq::<u8>::empty() =~= h.take(0));
    if dynamic {
        assert(c[3] == current.take(6)[3]);
        assert(c[4] == current.take(6)[4]);
        assert(c[5] == current.take(6)[5]);
        if !ends_sei(c) {
            assert(c.take(6) =~= current.take(6));
        }
    } else if header_byte(byte, accept_stop_byte) {
        lemma_first_mismatch_of_prefix(current, byte);
        assert(c.take(h.len() as int) =~= c || c.len() <= h.len());
        if first_mismatch(c, h) is None {
            assert(c =~= h.take(c.len() as int));
            if c.len() == 6 {
                assert(c =~= h);
                assert(c.take(6) =~= h);
            }
        } else if c.len() >= 3 {
            assert(c.drop_last() =~= current);
        }
    }
}

/// The state of a scan: the bytes matched so far, whether they are within an SEI, whether
/// any SEI was found, and the payloads found.
pub struct ScanView {
    pub current: Seq<u8>,
    pub dynamic: bool,
    pub detected: bool,
    pub found: Seq<Seq<u8>>,
}

/// The scan state after the bytes `bytes`.
pub open spec fn spec_scan(s: ScanView, bytes: Seq<u8>, accept_stop_byte: bool) -> ScanView
    decreases bytes.len(),
{
    if bytes.len() == 0 {
        s
    } else {
        let p = spec_scan(s, bytes.drop_last(), accept_stop_byte);
        let (c, d, f) = spec_process_bytes(sei_header(), bytes.last(), p.current, p.dynamic, accept_stop_byte);
        ScanView {
            current: c,
            dynamic: d,
            detected: p.detected || f is Some,
            found: match f {
                Some(x) => p.found.push(x),
                None => p.found,
            },
        }
    }
}

/// A scan step keeps the state well formed.
pub proof fn lemma_scan_ok(s: ScanView, bytes: Seq<u8>, accept_stop_byte: bool)
    requires
        scan_state_ok(s.current, s.dynamic),
    ensures
        scan_state_ok(spec_scan(s, bytes, accept_stop_byte).current, spec_scan(s, bytes, accept_stop_byte).dynamic),
    decreases bytes.len(),
{
    if bytes.len() > 0 {
        lemma_scan_ok(s, bytes.drop_last(), accept_stop_byte);
        let p = spec_scan(s, bytes.drop_last(), accept_stop_byte);
        lemma_scan_step(bytes.last(), p.current, p.dynamic, accept_stop_byte);
    }
}

/// What a scanned chunk tells: go on, no SEI found so far, or (when only checking) SEI
/// found.
#[derive(Debug, Clone, Copy, PartialEq, Eq)]
pub enum ScanStep {
    Continue,
    NoMetadata,
    Verified,
}

/// A scan of a raw HEVC stream for HDR10+ SEI messages, chunk by chunk.
pub struct SeiScanner {
    header: Vec<u8>,
    current_sei: Vec<u8>,
    dynamic_hdr_sei: bool,
    dynamic_detected: bool,
    final_sei_list: Vec<Vec<u8>>,
    accept_stop_byte: bool,
}

impl SeiScanner {
    /// The scan state as a value.
    pub closed spec fn state(&self) -> ScanView {
        ScanView {
            current: self.current_sei@,
            dynamic: self.dynamic_hdr_sei,
            detected: self.dynamic_detected,
            found: Seq::new(self.final_sei_list@.len(), |i: int| self.final_sei_list@[i]@),
        }
    }

    /// Whether the stop byte may continue a match of the header.
    pub closed spec fn accepts_stop_byte(&self) -> bool {
        self.accept_stop_byte
    }

    pub closed spec fn wf(&self) -> bool {
        &&& self.header@ == sei_header()
        &&& scan_state_ok(self.current_sei@, self.dynamic_hdr_sei)
    }

    /// A scan that has seen no byte.
    pub fn new(accept_stop_byte: bool) -> (r: Self)
        ensures
            r.wf(),
            r.state() == (ScanView { current: seq![], dynamic: false, detected: false, found: seq![] }),
            r.accepts_stop_byte() == accept_stop_byte,
    {
        let header: Vec<u8> = vec![0, 0, 1, 78, 1, 4];
        let r = SeiScanner {
            header,
            current_sei: Vec::new(),
            dynamic_hdr_sei: false,
            dynamic_detected: false,
            final_sei_list: Vec::new(),
            accept_stop_byte,
        };
        assert(r.header@ =~= sei_header());
        assert(r.state().found =~= Seq::<Seq<u8>>::empty());
        assert(r.current_sei@ =~= sei_header().take(0));
        r
    }

    /// Scans a chunk of the stream. Fails when no SEI has been found by the chunk's end;
    /// otherwise, when only checking, reports the SEI found.
    pub fn scan_chunk(&mut self, chunk: &[u8], verify: bool) -> (r: ScanStep)
        requires
            old(self).wf(),
        ensures
            final(self).wf(),
            final(self).accepts_stop_byte() == old(self).accepts_stop_byte(),
            final(self).state() == spec_scan(old(self).state(), chunk@, old(self).accepts_stop_byte()),
            r == (if !final(self).state().detected {
                ScanStep::NoMetadata
            } else if verify {
                ScanStep::Verified
            } else {
                ScanStep::Continue
            }),
    {
        let ghost s0 = self.state();
        let mut i: usize = 0;
        while i < chunk.len()
            invariant
                self.wf(),
                self.accepts_stop_byte() == old(self).accepts_stop_byte(),
                s0 == old(self).state(),
                i <= chunk@.len(),
                self.state() == spec_scan(s0, chunk@.take(i as int), self.accept_stop_byte),
            decreases chunk@.len() - i,
        {
            let ghost before = self.state();
            let ghost before_list = self.final_sei_list@;
            proof {
                lemma_scan_step(chunk@[i as int], self.current_sei@, self.dynamic_hdr_sei, self.accept_stop_byte);
                assert(chunk@.take(i + 1).drop_last() =~= chunk@.take(i as int));
            }
            let (dynamic, found) = process_bytes(
                &self.header,
                chunk[i],
                &mut self.current_sei,
                self.dynamic_hdr_sei,
                &mut self.final_sei_list,
                self.accept_stop_byte,
            );
            self.dynamic_hdr_sei = dynamic;
            if found {
                self.dynamic_detected = true;
            }
            proof {
                let (c, d, f) = spec_process_bytes(sei_header(), chunk@[i as int], before.current, before.dynamic, self.accept_stop_byte);
                match f {
                    Some(x) => {
                        assert(self.state().found =~= before.found.push(x));
                    },
                    None => {
                        assert(self.final_sei_list@ == before_list);
                        assert(self.state().found =~= before.found);
                    },
                }
            }
            i = i + 1;
        }
        assert(chunk@.take(i as int) =~= chunk@);
        if !self.dynamic_detected {
            ScanStep::NoMetadata
        } else if verify {
            ScanStep::Verified
        } else {
            ScanStep::Continue
        }
    }

    /// The payloads found, in order.
    pub fn into_payloads(self) -> (r: Vec<Vec<u8>>)
        ensures
            Seq::new(r@.len(), |i: int| r@[i]@) == self.state().found,
    {
        let r = self.final_sei_list;
        assert(Seq::new(r@.len(), |i: int| r@[i]@) =~= self.state().found);
        r
    }
}

/// Whether byte `i` of `data` is an emulation prevention byte that x265 inserts: a byte of
/// at most 3 after two zero bytes, past the third byte and before the last two.
pub open spec fn x265_injected(data: Seq<u8>, i: int) -> bool {
    i > 2 && i < data.len() - 2 && data[i - 2] == 0 && data[i - 1] == 0 && data[i] <= 3
}

/// The first `k` bytes of `data` without the bytes that x265 injects.
pub open spec fn without_x265_bytes(data: Seq<u8>, k: nat) -> Seq<u8>
    decreases k,
{
    if k == 0 {
        seq![]
    } else {
        let prev = without_x265_bytes(data, (k - 1) as nat);
        if x265_injected(data, k - 1) {
            prev
        } else {
            prev.push(data[k - 1])
        }
    }
}

proof fn lemma_without_x265_len(data: Seq<u8>, k: nat)
    ensures
        without_x265_bytes(data, k).len() <= k,
    decreases k,
{
    if k > 0 {
        lemma_without_x265_len(data, (k - 1) as nat);
    }
}

/// Removes the bytes that x265 injects, and returns how many were removed and the bytes
/// left.
pub fn remove_x265_injected_byte(data: &[u8]) -> (r: (usize, Vec<u8>))
    ensures
        r.1@ == without_x265_bytes(data@, data@.len()),
        r.0 == data@.len() - r.1@.len(),
{
    let mut count: usize = 0;
    let mut bytes: Vec<u8> = Vec::new();
    let mut i: usize = 0;
    while i < data.len()
        invariant
            i <= data@.len(),
            bytes@ == without_x265_bytes(data@, i as nat),
            count == i - bytes@.len(),
        decreases data@.len() - i,
    {
        proof {
            lemma_without_x265_len(data@, i as nat);
        }
        if i > 2 && i < data.len() - 2 && data[i - 2] == 0 && data[i - 1] == 0 && data[i] <= 3 {
            count = count + 1;
        } else {
            bytes.push(data[i]);
        }
        i = i + 1;
    }
    (count, bytes)
}

/// The summary of HDR10+ metadata that the LLC JSON format holds.
#[derive(Debug)]
pub struct Metadata {
    pub bezier_curve_data: Vec<u16>,
    pub knee_x: u16,
    pub knee_y: u16,
    pub average_maxrgb: u32,
    pub maxscl: Vec<u32>,
    pub distribution_index: Vec<u8>,
    pub distribution_values: Vec<u32>,
    pub targeted_system_display_maximum_luminance: u32,
    pub num_windows: u8,
}

/// The LLC summary as a mathematical value.
pub struct LlcMetadataView {
    pub bezier_curve_data: Seq<u16>,
    pub knee_x: u16,
    pub knee_y: u16,
    pub average_maxrgb: u32,
    pub maxscl: Seq<u32>,
    pub distribution_index: Seq<u8>,
    pub distribution_values: Seq<u32>,
    pub targeted_system_display_maximum_luminance: u32,
    pub num_windows: u8,
}

impl View for Metadata {
    type V = LlcMetadataView;

    open spec fn view(&self) -> LlcMetadataView {
        LlcMetadataView {
            bezier_curve_data: self.bezier_curve_data@,
            knee_x: self.knee_x,
            knee_y: self.knee_y,
            average_maxrgb: self.average_maxrgb,
            maxscl: self.maxscl@,
            distribution_index: self.distribution_index@,
            distribution_values: self.distribution_values@,
            targeted_system_display_maximum_luminance: self.targeted_system_display_maximum_luminance,
            num_windows: self.num_windows,
        }
    }
}

/// The fields `pos`, `pos + w`, ... of `k` consecutive fields of `w` bits.
pub open spec fn llc_fields(bits: Seq<bool>, pos: int, w: int, k: nat) -> Seq<nat>
    decreases k,
{
    if k == 0 {
        seq![]
    } else {
        llc_fields(bits, pos, w, (k - 1) as nat).push(field(bits, pos + w * (k - 1), w))
    }
}

/// Where the window statistics end: after the 3 maxscl values, the average, the count,
/// `count` distribution entries of 24 bits and the bright pixel fraction.
pub open spec fn llc_window_end(count: nat) -> int {
    (158 + 24 * count + 10) as int
}

/// Whether an LLC payload's bits read to the end, with every checked value in range:
/// application 4 version 1, at most one window, targeted luminance at most 10000, no
/// peak luminance grids, maxscl and average at most 100000, 9 or 10 percentiles with the
/// standard indexes, and no color saturation mapping.
pub open spec fn llc_readable(bits: Seq<bool>) -> bool {
    let nw = field(bits, 56, 2);
    let p1 = if nw == 1 { llc_window_end(field(bits, 154, 4)) } else { 86 };
    let tone = nw == 1 && bits[p1 + 1];
    let p2 = if nw == 1 { p1 + 2 } else { p1 + 1 };
    let p3 = if tone { p2 + 28 + 10 * field(bits, p2 + 24, 4) } else { p2 };
    &&& bits.len() >= 86
    &&& field(bits, 40, 8) == 4
    &&& field(bits, 48, 8) == 1
    &&& nw <= 1
    &&& field(bits, 58, 27) <= 10000
    &&& !bits[85]
    &&& nw == 1 ==> {
        &&& bits.len() >= 158
        &&& field(bits, 86, 17) <= 100_000
        &&& field(bits, 103, 17) <= 100_000
        &&& field(bits, 120, 17) <= 100_000
        &&& field(bits, 137, 17) <= 100_000
        &&& standard_distribution_indexes(field(bits, 154, 4) as u8) is Some
        &&& bits.len() >= p1
        &&& Seq::new(field(bits, 154, 4), |i: int| field(bits, 158 + 24 * i, 7) as u8)
            == standard_distribution_indexes(field(bits, 154, 4) as u8).unwrap()
    }
    &&& bits.len() >= p1 + 1
    &&& !bits[p1]
    &&& bits.len() >= p2
    &&& tone ==> bits.len() >= p2 + 28 && bits.len() >= p3
    &&& bits.len() >= p3 + 1
    &&& !bits[p3]
}

/// The LLC summary that a readable payload's bits hold.
pub open spec fn llc_summary(bits: Seq<bool>) -> LlcMetadataView {
    let nw = field(bits, 56, 2);
    let p1 = if nw == 1 { llc_window_end(field(bits, 154, 4)) } else { 86 };
    let tone = nw == 1 && bits[p1 + 1];
    let p2 = if nw == 1 { p1 + 2 } else { p1 + 1 };
    let cnt = field(bits, 154, 4);
    LlcMetadataView {
        bezier_curve_data: if tone {
            Seq::new(field(bits, p2 + 24, 4), |i: int| field(bits, p2 + 28 + 10 * i, 10) as u16)
        } else {
            seq![]
        },
        knee_x: if tone { field(bits, p2, 12) as u16 } else { 0 },
        knee_y: if tone { field(bits, p2 + 12, 12) as u16 } else { 0 },
        average_maxrgb: if nw == 1 { field(bits, 137, 17) as u32 } else { 0 },
        maxscl: if nw == 1 {
            seq![field(bits, 86, 17) as u32, field(bits, 103, 17) as u32, field(bits, 120, 17) as u32]
        } else {
            seq![]
        },
        distribution_index: if nw == 1 { Seq::new(cnt, |i: int| field(bits, 158 + 24 * i, 7) as u8) } else { seq![] },
        distribution_values: if nw == 1 { Seq::new(cnt, |i: int| field(bits, 158 + 24 * i + 7, 17) as u32) } else { seq![] },
        targeted_system_display_maximum_luminance: field(bits, 58, 27) as u32,
        num_windows: nw as u8,
    }
}

/// Calls `bitreader::BitReader::new`, then `skip(skip)` and `read_u64(n)` on it. Claimed,
/// as the crate's source shows: the read succeeds exactly when `skip + n` bits are
/// available, and gives the value of the bits `skip .. skip + n` of `data`, each byte read
/// most significant bit first.
#[verifier::external_body]
fn read_bits_at(data: &[u8], skip: u64, n: u8) -> (r: Result<u64, ()>)
    requires
        1 <= n <= 32,
        8 * data@.len() <= u64::MAX,
    ensures
        r is Ok <==> skip + n <= 8 * data@.len(),
        r matches Ok(v) ==> v == bits_value(bytes_to_bits(data@).subrange(skip as int, skip + n)),
{
    let mut reader = bitreader::BitReader::new(data);
    reader.skip(skip).map_err(|_| ())?;
    reader.read_u64(n).map_err(|_| ())
}

/// A reading position in the bits of a payload.
struct LlcReader<'a> {
    data: &'a [u8],
    pos: u64,
}

impl<'a> LlcReader<'a> {
    spec fn bits(&self) -> Seq<bool> {
        bytes_to_bits(self.data@)
    }

    /// Reads `n` bits that are known to be there.
    fn read(&mut self, n: u8) -> (v: u64)
        requires
            1 <= n <= 32,
            8 * old(self).data@.len() <= u64::MAX,
            old(self).pos + n <= old(self).bits().len(),
        ensures
            final(self).data == old(self).data,
            final(self).pos == old(self).pos + n,
            v == field(old(self).bits(), old(self).pos as int, n as int),
            v < pow2(n as nat),
    {
        proof {
            lemma_bytes_to_bits_len(self.data@);
        }
        let r = read_bits_at(self.data, self.pos, n);
        match r {
            Ok(v) => {
                self.pos = self.pos + n as u64;
                proof {
                    lemma_bits_value_bound(self.bits().subrange(old(self).pos as int, old(self).pos + n));
                }
                v
            },
            Err(_) => {
                assert(false);
                0
            },
        }
    }

    fn read_flag(&mut self) -> (b: bool)
        requires
            8 * old(self).data@.len() <= u64::MAX,
            old(self).pos + 1 <= old(self).bits().len(),
        ensures
            final(self).data == old(self).data,
            final(self).pos == old(self).pos + 1,
            b == old(self).bits()[old(self).pos as int],
    {
        let v = self.read(1);
        proof {
            let s = old(self).bits().subrange(old(self).pos as int, old(self).pos + 1int);
            assert(s.drop_last().len() == 0);
            assert(bits_value(s.drop_last()) == 0);
            assert(s.last() == old(self).bits()[old(self).pos as int]);
        }
        v == 1
    }
}

/// The bits of an LLC payload once the bytes that x265 injects are removed.
pub open spec fn llc_bits(data: Seq<u8>) -> Seq<bool> {
    bytes_to_bits(without_x265_bytes(data, data.len()))
}

/// Reads the LLC summary of one payload.
fn llc_read_one(data: &[u8]) -> (m: Metadata)
    requires
        8 * data@.len() <= u64::MAX,
        llc_readable(llc_bits(data@)),
    ensures
        m@ == llc_summary(llc_bits(data@)),
{
    let (_, bytes) = remove_x265_injected_byte(data);
    let ghost bits = llc_bits(data@);
    proof {
        lemma_without_x265_len(data@, data@.len());
        lemma_pow2_values();
    }
    let mut reader = LlcReader { data: bytes.as_slice(), pos: 0 };
    assert(reader.bits() == bits);
    let _country_code = reader.read(8);
    let _provider_code = reader.read(16);
    let _oriented_code = reader.read(16);
    let _application_identifier = reader.read(8);
    let _application_version = reader.read(8);
    let num_windows = reader.read(2) as u8;
    let targeted_system_display_maximum_luminance = reader.read(27) as u32;
    let _targeted_peak_flag = reader.read_flag();
    let mut average_maxrgb: u32 = 0;
    let mut maxscl: Vec<u32> = Vec::new();
    let mut distribution_index: Vec<u8> = Vec::new();
    let mut distribution_values: Vec<u32> = Vec::new();
    if num_windows == 1 {
        let m0 = reader.read(17) as u32;
        let m1 = reader.read(17) as u32;
        let m2 = reader.read(17) as u32;
        maxscl.push(m0);
        maxscl.push(m1);
        maxscl.push(m2);
        average_maxrgb = reader.read(17) as u32;
        let count = reader.read(4) as u8;
        let mut i: u8 = 0;
        while i < count
            invariant
                field(bits, 56, 2) == 1,
                llc_readable(bits),
                bits == reader.bits(),
                8 * reader.data@.len() <= u64::MAX,
                count == field(bits, 154, 4),
                count <= 10,
                i <= count,
                reader.pos == 158 + 24 * i,
                distribution_index@ == Seq::new(i as nat, |j: int| field(bits, 158 + 24 * j, 7) as u8),
                distribution_values@ == Seq::new(i as nat, |j: int| field(bits, 158 + 24 * j + 7, 17) as u32),
            decreases count - i,
        {
            let pct = reader.read(7) as u8;
            let val = reader.read(17) as u32;
            distribution_index.push(pct);
            distribution_values.push(val);
            i = i + 1;
            proof {
                assert(distribution_index@ =~= Seq::new(i as nat, |j: int| field(bits, 158 + 24 * j, 7) as u8));
                assert(distribution_values@ =~= Seq::new(i as nat, |j: int| field(bits, 158 + 24 * j + 7, 17) as u32));
            }
        }
        let _fraction_bright_pixels = reader.read(10);
    }
    let _mastering_peak_flag = reader.read_flag();
    let mut knee_x: u16 = 0;
    let mut knee_y: u16 = 0;
    let mut anchors: Vec<u16> = Vec::new();
    if num_windows == 1 {
        let tone_mapping_flag = reader.read_flag();
        if tone_mapping_flag {
            knee_x = reader.read(12) as u16;
            knee_y = reader.read(12) as u16;
            let count = reader.read(4) as u8;
            let ghost p2 = reader.pos - 28;
            let mut i: u8 = 0;
            while i < count
                invariant
                    llc_readable(bits),
                    bits == reader.bits(),
                    8 * reader.data@.len() <= u64::MAX,
                    count == field(bits, p2 + 24, 4),
                    bits.len() >= p2 + 28 + 10 * count,
                    i <= count,
                    reader.pos == p2 + 28 + 10 * i,
                    anchors@ == Seq::new(i as nat, |j: int| field(bits, p2 + 28 + 10 * j, 10) as u16),
                decreases count - i,
            {
                let a = reader.read(10) as u16;
                anchors.push(a);
                i = i + 1;
                proof {
                    assert(anchors@ =~= Seq::new(i as nat, |j: int| field(bits, p2 + 28 + 10 * j, 10) as u16));
                }
            }
        }
    }
    let _color_saturation_flag = reader.read_flag();
    let m = Metadata {
        bezier_curve_data: anchors,
        knee_x,
        knee_y,
        average_maxrgb,
        maxscl,
        distribution_index,
        distribution_values,
        targeted_system_display_maximum_luminance,
        num_windows,
    };
    proof {
        assert(m@.maxscl =~= llc_summary(bits).maxscl);
        assert(m@.distribution_index =~= llc_summary(bits).distribution_index);
        assert(m@.distribution_values =~= llc_summary(bits).distribution_values);
        assert(m@.bezier_curve_data =~= llc_summary(bits).bezier_curve_data);
    }
    m
}

/// Whether an LLC payload can be read: whether its bits hold, in range, every value that
/// reading it checks (see `llc_readable`).
pub fn llc_payload_readable(data: &[u8]) -> (r: bool)
    ensures
        r == (8 * data@.len() <= u64::MAX && llc_readable(llc_bits(data@))),
{
    if data.len() as u64 > u64::MAX / 8 {
        return false;
    }
    let (_, bytes) = remove_x265_injected_byte(data);
    let ghost bits = llc_bits(data@);
    proof {
        lemma_without_x265_len(data@, data@.len());
        lemma_bytes_to_bits_len(bytes@);
        lemma_pow2_values();
    }
    let total: u64 = bytes.len() as u64 * 8;
    assert(total == bits.len());
    let mut reader = LlcReader { data: bytes.as_slice(), pos: 40 };
    assert(reader.bits() == bits);
    if total < 86 {
        return false;
    }
    let app_id = reader.read(8);
    let version = reader.read(8);
    let nw = reader.read(2);
    let targeted = reader.read(27);
    let peak_flag = reader.read_flag();
    if app_id != 4 || version != 1 || nw > 1 || targeted > 10000 || peak_flag {
        return false;
    }
    if nw == 1 {
        if total < 158 {
            return false;
        }
        let m0 = reader.read(17);
        let m1 = reader.read(17);
        let m2 = reader.read(17);
        let avg = reader.read(17);
        if m0 > 100_000 || m1 > 100_000 || m2 > 100_000 || avg > 100_000 {
            return false;
        }
        let count = reader.read(4);
        let expected: Vec<u8> = if count == 9 {
            vec![1, 5, 10, 25, 50, 75, 90, 95, 99]
        } else if count == 10 {
            vec![1, 5, 10, 25, 50, 75, 90, 95, 98, 99]
        } else {
            return false;
        };
        assert(standard_distribution_indexes(count as u8) == Some(expected@));
        if total < 158 + 24 * count + 10 {
            return false;
        }
        let mut i: u64 = 0;
        while i < count
            invariant
                bits == reader.bits(),
                bits == llc_bits(data@),
                8 * data@.len() <= u64::MAX,
                8 * reader.data@.len() <= u64::MAX,
                total == bits.len(),
                field(bits, 56, 2) == 1,
                standard_distribution_indexes(count as u8) == Some(expected@),
                count == field(bits, 154, 4),
                count <= 10,
                expected@.len() == count,
                total >= 158 + 24 * count + 10,
                i <= count,
                reader.pos == 158 + 24 * i,
                forall|j: int| 0 <= j < i ==> field(bits, 158 + 24 * j, 7) as u8 == #[trigger] expected@[j],
            decreases count - i,
        {
            proof {
                lemma_pow2_values();
            }
            let idx = reader.read(7);
            let _value = reader.read(17);
            if idx != expected[i as usize] as u64 {
                assert(Seq::new(count as nat, |j: int| field(bits, 158 + 24 * j, 7) as u8)[i as int] != expected@[i as int]);
                return false;
            }
            i = i + 1;
        }
        assert(Seq::new(count as nat, |j: int| field(bits, 158 + 24 * j, 7) as u8) =~= expected@);
        let _fraction = reader.read(10);
    }
    let ghost p1 = reader.pos as int;
    if total < reader.pos + 1 {
        return false;
    }
    let mastering = reader.read_flag();
    if mastering {
        return false;
    }
    let mut tone = false;
    if nw == 1 {
        if total < reader.pos + 1 {
            return false;
        }
        tone = reader.read_flag();
    }
    let ghost p2 = reader.pos as int;
    if tone {
        if total < reader.pos + 28 {
            return false;
        }
        reader.pos = reader.pos + 24;
        let anchors = reader.read(4);
        if total < reader.pos + 10 * anchors {
            return false;
        }
        reader.pos = reader.pos + 10 * anchors;
    }
    if total < reader.pos + 1 {
        return false;
    }
    let saturation = reader.read_flag();
    !saturation
}

/// The views of a list of LLC summaries.
pub open spec fn llc_views(list: Seq<Metadata>) -> Seq<LlcMetadataView> {
    list.map_values(|m: Metadata| m@)
}

/// Reads the LLC summary of each payload, in order.
pub fn llc_read_metadata(input: Vec<Vec<u8>>) -> (r: Vec<Metadata>)
    requires
        forall|i: int| 0 <= i < input@.len() ==> 8 * (#[trigger] input@[i])@.len() <= u64::MAX && llc_readable(
            llc_bits(input@[i]@),
        ),
    ensures
        llc_views(r@) == Seq::new(input@.len(), |i: int| llc_summary(llc_bits(input@[i]@))),
{
    let mut complete_metadata: Vec<Metadata> = Vec::new();
    let mut i: usize = 0;
    while i < input.len()
        invariant
            i <= input@.len(),
            forall|k: int| 0 <= k < input@.len() ==> 8 * (#[trigger] input@[k])@.len() <= u64::MAX && llc_readable(
                llc_bits(input@[k]@),
            ),
            complete_metadata@.len() == i,
            forall|k: int| 0 <= k < i ==> (#[trigger] complete_metadata@[k])@ == llc_summary(llc_bits(input@[k]@)),
        decreases input@.len() - i,
    {
        let m = llc_read_one(&input[i]);
        complete_metadata.push(m);
        i = i + 1;
    }
    assert(llc_views(complete_metadata@) =~= Seq::new(input@.len(), |k: int| llc_summary(llc_bits(input@[k]@))));
    complete_metadata
}

/// A frame of the LLC JSON document.
#[derive(Debug)]
pub struct LlcJsonFrame {
    pub bezier_curve_data: Option<BezierCurveData>,
    pub luminance_parameters: LuminanceParameters,
    pub number_of_windows: u8,
    pub targeted_system_display_maximum_luminance: u32,
}

/// An LLC JSON frame as a mathematical value.
pub struct LlcJsonFrameView {
    pub bezier_curve_data: Option<BezierCurveDataView>,
    pub luminance_parameters: LuminanceParametersView,
    pub number_of_windows: u8,
    pub targeted_system_display_maximum_luminance: u32,
}

impl View for LlcJsonFrame {
    type V = LlcJsonFrameView;

    open spec fn view(&self) -> LlcJsonFrameView {
        LlcJsonFrameView {
            bezier_curve_data: match self.bezier_curve_data {
                Some(b) => Some(b@),
                None => None,
            },
            luminance_parameters: self.luminance_parameters@,
            number_of_windows: self.number_of_windows,
            targeted_system_display_maximum_luminance: self.targeted_system_display_maximum_luminance,
        }
    }
}

/// What the LLC JSON document warns about, if anything.
#[derive(Debug, Clone, Copy, PartialEq, Eq)]
pub enum LlcWarning {
    /// Frames without a curve were given zero anchors to keep a single profile B.
    ForcedProfileB,
    /// Frames with and without a curve are mixed.
    MixedProfiles,
}

/// The LLC JSON document: its profile, its version, its frames and its warning.
#[derive(Debug)]
pub struct LlcJson {
    pub profile: String,
    pub version: String,
    pub scene_info: Vec<LlcJsonFrame>,
    pub warning: Option<LlcWarning>,
}

/// The largest number of anchors of the frames, 0 without frames.
pub open spec fn max_anchors(list: Seq<LlcMetadataView>) -> nat
    decreases list.len(),
{
    if list.len() == 0 {
        0
    } else {
        let m = max_anchors(list.drop_last());
        let l = list.last().bezier_curve_data.len();
        if l > m { l } else { m }
    }
}

/// Whether a frame is written as profile A: no targeted luminance and no curve, while no
/// frame has anchors.
pub open spec fn llc_frame_is_a(m: LlcMetadataView, anchors: nat) -> bool {
    m.targeted_system_display_maximum_luminance == 0 && m.bezier_curve_data.len() == 0 && anchors == 0
}

/// The JSON frame of an LLC summary: profile B frames carry a curve, whose anchors are
/// zeros when the frame has none, others have, and a single profile is forced.
pub open spec fn spec_llc_frame(m: LlcMetadataView, anchors: nat, force_single_profile: bool) -> LlcJsonFrameView {
    LlcJsonFrameView {
        bezier_curve_data: if llc_frame_is_a(m, anchors) {
            None
        } else {
            Some(BezierCurveDataView {
                anchors: if force_single_profile && m.bezier_curve_data.len() == 0 && anchors != 0 {
                    Seq::new(anchors, |i: int| 0u16)
                } else {
                    m.bezier_curve_data
                },
                knee_point_x: m.knee_x,
                knee_point_y: m.knee_y,
            })
        },
        luminance_parameters: LuminanceParametersView {
            average_rgb: m.average_maxrgb,
            luminance_distributions: LuminanceDistributionsView {
                distribution_index: m.distribution_index,
                distribution_values: m.distribution_values,
            },
            max_scl: m.maxscl,
        },
        number_of_windows: m.num_windows,
        targeted_system_display_maximum_luminance: m.targeted_system_display_maximum_luminance,
    }
}

/// The profile of the document: B as soon as one frame is not profile A.
pub open spec fn spec_llc_profile(list: Seq<LlcMetadataView>) -> Seq<char> {
    if exists|i: int| 0 <= i < list.len() && !llc_frame_is_a(#[trigger] list[i], max_anchors(list)) {
        seq!['B']
    } else {
        seq!['A']
    }
}

/// The warning of the document: when some frames have anchors and another has none.
pub open spec fn spec_llc_warning(list: Seq<LlcMetadataView>, force_single_profile: bool) -> Option<LlcWarning> {
    if max_anchors(list) != 0 && exists|i: int| 0 <= i < list.len() && (#[trigger] list[i]).bezier_curve_data.len() == 0 {
        Some(if force_single_profile { LlcWarning::ForcedProfileB } else { LlcWarning::MixedProfiles })
    } else {
        None
    }
}

/// The views of the LLC JSON frames.
pub open spec fn llc_frame_views(list: Seq<LlcJsonFrame>) -> Seq<LlcJsonFrameView> {
    list.map_values(|f: LlcJsonFrame| f@)
}

proof fn lemma_max_anchors(list: Seq<LlcMetadataView>)
    ensures
        forall|i: int| 0 <= i < list.len() ==> (#[trigger] list[i]).bezier_curve_data.len() <= max_anchors(list),
        list.len() > 0 ==> exists|i: int| 0 <= i < list.len() && (#[trigger] list[i]).bezier_curve_data.len() == max_anchors(list),
        list.len() == 0 ==> max_anchors(list) == 0,
    decreases list.len(),
{
    if list.len() > 0 {
        let d = list.drop_last();
        lemma_max_anchors(d);
        assert forall|i: int| 0 <= i < list.len() implies (#[trigger] list[i]).bezier_curve_data.len() <= max_anchors(list) by {
            if i < d.len() {
                assert(list[i] == d[i]);
            }
        }
        if list.last().bezier_curve_data.len() > max_anchors(d) {
            assert(list[list.len() - 1].bezier_curve_data.len() == max_anchors(list));
        } else if d.len() > 0 {
            let j = choose|j: int| 0 <= j < d.len() && (#[trigger] d[j]).bezier_curve_data.len() == max_anchors(d);
            assert(list[j] == d[j]);
        } else {
            assert(list[0].bezier_curve_data.len() == max_anchors(list));
        }
    }
}

/// Builds the LLC JSON document of a list of summaries: profile A frames hold only their
/// luminance; profile B frames also their curve, with zero anchors in place of none when a
/// single profile is forced.
pub fn llc_json(metadata: &[Metadata], force_single_profile: bool) -> (r: LlcJson)
    ensures
        r.profile@ == spec_llc_profile(llc_views(metadata@)),
        r.version@ == "1.0"@,
        llc_frame_views(r.scene_info@) == Seq::new(
            metadata@.len(),
            |i: int| spec_llc_frame(metadata@[i]@, max_anchors(llc_views(metadata@)), force_single_profile),
        ),
        r.warning == spec_llc_warning(llc_views(metadata@), force_single_profile),
{
    let ghost list = llc_views(metadata@);
    let mut num_anchors: usize = 0;
    let mut i: usize = 0;
    while i < metadata.len()
        invariant
            list == llc_views(metadata@),
            i <= metadata@.len(),
            num_anchors == max_anchors(list.take(i as int)),
        decreases metadata@.len() - i,
    {
        proof {
            assert(list.take(i + 1).drop_last() =~= list.take(i as int));
        }
        let l = metadata[i].bezier_curve_data.len();
        if l > num_anchors {
            num_anchors = l;
        }
        i = i + 1;
    }
    assert(list.take(i as int) =~= list);
    proof {
        lemma_max_anchors(list);
    }
    let mut replacement: Vec<u16> = Vec::new();
    let mut k: usize = 0;
    while k < num_anchors
        invariant
            k <= num_anchors,
            replacement@ == Seq::new(k as nat, |j: int| 0u16),
        decreases num_anchors - k,
    {
        replacement.push(0);
        k = k + 1;
        assert(replacement@ =~= Seq::new(k as nat, |j: int| 0u16));
    }
    let mut profile_b = false;
    let mut warning: Option<LlcWarning> = None;
    let mut frames: Vec<LlcJsonFrame> = Vec::new();
    let mut i: usize = 0;
    while i < metadata.len()
        invariant
            list == llc_views(metadata@),
            num_anchors == max_anchors(list),
            replacement@ == Seq::new(num_anchors as nat, |j: int| 0u16),
            i <= metadata@.len(),
            frames@.len() == i,
            forall|j: int| 0 <= j < i ==> (#[trigger] frames@[j])@ == spec_llc_frame(list[j], num_anchors as nat, force_single_profile),
            profile_b == exists|j: int| 0 <= j < i && !llc_frame_is_a(#[trigger] list[j], num_anchors as nat),
            warning == (if num_anchors != 0 && exists|j: int| 0 <= j < i && (#[trigger] list[j]).bezier_curve_data.len() == 0 {
                Some(if force_single_profile { LlcWarning::ForcedProfileB } else { LlcWarning::MixedProfiles })
            } else {
                None::<LlcWarning>
            }),
        decreases metadata@.len() - i,
    {
        let m = &metadata[i];
        assert(m@ == list[i as int]);
        let lp = LuminanceParameters {
            average_rgb: m.average_maxrgb,
            luminance_distributions: LuminanceDistributions {
                distribution_index: copy_u8s(m.distribution_index.as_slice()),
                distribution_values: copy_u32s(m.distribution_values.as_slice()),
            },
            max_scl: copy_u32s(m.maxscl.as_slice()),
        };
        let empty = m.bezier_curve_data.len() == 0;
        let frame = if m.targeted_system_display_maximum_luminance == 0 && empty && num_anchors == 0 {
            LlcJsonFrame {
                bezier_curve_data: None,
                luminance_parameters: lp,
                number_of_windows: m.num_windows,
                targeted_system_display_maximum_luminance: m.targeted_system_display_maximum_luminance,
            }
        } else {
            profile_b = true;
            let anchors = if force_single_profile && empty && num_anchors != 0 {
                if warning.is_none() {
                    warning = Some(LlcWarning::ForcedProfileB);
                }
                copy_u16s(replacement.as_slice())
            } else {
                if warning.is_none() && empty && num_anchors != 0 {
                    warning = Some(LlcWarning::MixedProfiles);
                }
                copy_u16s(m.bezier_curve_data.as_slice())
            };
            LlcJsonFrame {
                bezier_curve_data: Some(BezierCurveData { anchors, knee_point_x: m.knee_x, knee_point_y: m.knee_y }),
                luminance_parameters: lp,
                number_of_windows: m.num_windows,
                targeted_system_display_maximum_luminance: m.targeted_system_display_maximum_luminance,
            }
        };
        frames.push(frame);
        proof {
            assert(frames@[i as int]@ == spec_llc_frame(list[i as int], num_anchors as nat, force_single_profile));
            if !llc_frame_is_a(list[i as int], num_anchors as nat) {
                assert(exists|j: int| 0 <= j < i + 1 && !llc_frame_is_a(#[trigger] list[j], num_anchors as nat));
            }
            if num_anchors != 0 && empty {
                assert(list[i as int].bezier_curve_data.len() == 0);
            }
        }
        i = i + 1;
    }
    let profile = if profile_b { "B".to_owned() } else { "A".to_owned() };
    proof {
        reveal_strlit("B");
        reveal_strlit("A");
        assert(llc_frame_views(frames@) =~= Seq::new(
            metadata@.len(),
            |j: int| spec_llc_frame(metadata@[j]@, max_anchors(llc_views(metadata@)), force_single_profile),
        ));
    }
    LlcJson { profile, version: "1.0".to_owned(), scene_info: frames, warning }
}

/// Whether the header pattern, whose unset bytes match anything, stands in `data` at
/// `offset`, with its first byte there.
pub open spec fn pattern_at(data: Seq<u8>, header: Seq<Option<u8>>, offset: int) -> bool {
    &&& data[offset] == header[0].unwrap()
    &&& forall|j: int| 0 <= j < header.len() ==> offset + j < data.len() && (#[trigger] header[j] matches Some(v) ==> data[offset + j] == v)
}

/// The first offset below `k` where the header pattern stands.
pub open spec fn first_pattern(data: Seq<u8>, header: Seq<Option<u8>>, k: nat) -> Option<nat>
    decreases k,
{
    if k == 0 {
        None
    } else {
        match first_pattern(data, header, (k - 1) as nat) {
            Some(o) => Some(o),
            None => if pattern_at(data, header, k - 1) {
                Some((k - 1) as nat)
            } else {
                None
            },
        }
    }
}

/// Where the payload found at `offset` starts and ends: it starts eight bytes in, and
/// runs for the size byte after the pattern plus eight, or to the byte before the end when
/// the size overruns; then it is extended by the bytes that x265 injected in it.
pub open spec fn t35_payload_bounds(data: Seq<u8>, header: Seq<Option<u8>>, offset: int) -> (int, int, int) {
    let len = data.len() as int;
    let size = data[offset + header.len()] as int;
    let start = offset + 8;
    let end = if start + size > len { len - 1 } else { start + size + 8 };
    let removed = data.subrange(start, end).len() - without_x265_bytes(data.subrange(start, end), (end - start) as nat).len();
    let end2 = if end + removed > len { len - 1 } else { end + removed };
    (start, end, end2)
}

/// The inputs on which the payload search runs to its end: the pattern's first byte is
/// set, and where the pattern is first found, the size byte and both payload ranges lie
/// within the data.
pub open spec fn t35_search_ok(data: Seq<u8>, header: Seq<Option<u8>>) -> bool {
    &&& header.len() >= 1
    &&& header[0] is Some
    &&& match first_pattern(data, header, data.len()) {
        None => true,
        Some(o) => {
            let (start, end, end2) = t35_payload_bounds(data, header, o as int);
            &&& o + header.len() < data.len()
            &&& start <= end <= data.len()
            &&& start <= end2 <= data.len()
        },
    }
}

/// Why the payload search found nothing.
#[derive(Debug, Clone, Copy, PartialEq, Eq)]
pub enum LlcScanError {
    /// The data holds no HDR10+ SEI.
    NoDynamicMetadata,
}

/// Finds the HDR10+ T.35 payload in a packet: at the first place where the header pattern
/// stands, the payload that the size byte after it announces, extended by the bytes that
/// x265 injected.
pub fn parse_itu_t35_sei_payload(data: &[u8], header: &[Option<u8>]) -> (r: Result<Vec<u8>, LlcScanError>)
    requires
        t35_search_ok(data@, header@),
        2 * data@.len() + header@.len() + 512 <= usize::MAX,
    ensures
        match first_pattern(data@, header@, data@.len()) {
            None => r == Err::<Vec<u8>, LlcScanError>(LlcScanError::NoDynamicMetadata),
            Some(o) => {
                let (start, _end, end2) = t35_payload_bounds(data@, header@, o as int);
                r matches Ok(v) && v@ == data@.subrange(start, end2)
            },
        },
{
    let length = data.len();
    let first = match header[0] {
        Some(f) => f,
        None => 0,
    };
    let mut offset: usize = 0;
    while offset < length
        invariant
            length == data@.len(),
            offset <= length,
            first == header@[0].unwrap(),
            t35_search_ok(data@, header@),
            2 * data@.len() + header@.len() + 512 <= usize::MAX,
            first_pattern(data@, header@, offset as nat) is None,
        decreases length - offset,
    {
        if data[offset] == first {
            let mut all_match = true;
            let mut j: usize = 0;
            while j < header.len() && all_match
                invariant
                    length == data@.len(),
                    offset < length,
                    j <= header@.len(),
                    forall|k: int| 0 <= k < j ==> offset + k < data@.len() && (#[trigger] header@[k] matches Some(v) ==> data@[offset + k] == v),
                    !all_match ==> j < header@.len() && !(offset + j < data@.len() && (header@[j as int] matches Some(v) ==> data@[offset + j] == v)),
                    data@.len() + header@.len() + 512 <= usize::MAX,
                decreases header@.len() - j + (if all_match { 1int } else { 0int }),
            {
                let ok = if offset + j >= length {
                    false
                } else {
                    match header[j] {
                        Some(v) => data[offset + j] == v,
                        None => true,
                    }
                };
                if !ok {
                    all_match = false;
                } else {
                    j = j + 1;
                }
            }
            if all_match {
                assert(pattern_at(data@, header@, offset as int));
                assert(first_pattern(data@, header@, (offset + 1) as nat) == Some(offset as nat));
                proof {
                    lemma_first_pattern_stays(data@, header@, offset as nat, data@.len());
                }
                let size = data[offset + header.len()] as usize;
                let start = offset + 8;
                let end = if start + size > length { length - 1 } else { start + size + 8 };
                let temp = vstd::slice::slice_subrange(data, start, end);
                let (bytes_removed, _bytes) = remove_x265_injected_byte(temp);
                let end2 = if end + bytes_removed > length { length - 1 } else { end + bytes_removed };
                let out = vstd::slice::slice_subrange(data, start, end2);
                return Ok(copy_u8s(out));
            }
        }
        proof {
            assert(!pattern_at(data@, header@, offset as int));
        }
        offset = offset + 1;
    }
    Err(LlcScanError::NoDynamicMetadata)
}

proof fn lemma_first_pattern_stays(data: Seq<u8>, header: Seq<Option<u8>>, o: nat, k: nat)
    requires
        o < k,
        first_pattern(data, header, o + 1) == Some(o),
    ensures
        first_pattern(data, header, k) == Some(o),
    decreases k,
{
    if k > o + 1 {
        lemma_first_pattern_stays(data, header, o, (k - 1) as nat);
    }
}

} // verus!
