//! Editing a list of HDR10+ metadata frames: removing frames by index or range, and
//! duplicating a frame at an offset.
use vstd::prelude::*;

use vstd::string::StrSliceExecFns;

use crate::extract::{
    lemma_stable_sort_len, lemma_stable_sort_permutes, lemma_stable_sort_sorted, metadata_list_views,
    stable_sort,
};
use crate::inject::json_views;
use crate::json::{spec_from_json_frame, spec_json_frame_error, Hdr10PlusJsonMetadata, JsonFrameView};
use crate::metadata::{Hdr10PlusMetadata, MetadataView};

verus! {

/// Why an edit is refused.
#[derive(Debug, Clone, PartialEq, Eq)]
pub enum EditError {
    /// A range has no `-`.
    InvalidRange,
    /// A range ends past the last frame.
    InvalidEndRange(usize),
    /// A frame index is past the last frame.
    InvalidFrameIndex(usize),
    /// A duplication's source or offset is past the frames.
    InvalidDuplicate(DuplicateMetadata),
    /// Some JSON frame could not be turned into metadata.
    InvalidFrames,
}

/// A duplication: `length` copies of frame `source`, inserted at `offset`.
#[derive(Debug, Clone, Copy, PartialEq, Eq)]
pub struct DuplicateMetadata {
    pub source: usize,
    pub offset: usize,
    pub length: usize,
}

/// The edits to apply: frames to remove, then frames to duplicate.
#[derive(Debug)]
pub struct EditConfig {
    pub remove: Option<Vec<String>>,
    pub duplicate: Option<Vec<DuplicateMetadata>>,
}

/// The value of a sequence of decimal digits.
pub open spec fn digits_value(d: Seq<char>) -> nat
    decreases d.len(),
{
    if d.len() == 0 {
        0
    } else {
        (10 * digits_value(d.drop_last()) + (d.last() as int - '0' as int)) as nat
    }
}

/// Whether every character is a decimal digit.
pub open spec fn all_digits(d: Seq<char>) -> bool {
    forall|i: int| 0 <= i < d.len() ==> '0' <= #[trigger] d[i] <= '9'
}

/// The `usize` that a string spells as Rust parses it: an optional `+`, then at least one
/// decimal digit, the value fitting in `usize`.
pub open spec fn parse_usize(s: Seq<char>) -> Option<usize> {
    let d = if s.len() > 0 && s[0] == '+' { s.drop_first() } else { s };
    if d.len() > 0 && all_digits(d) && digits_value(d) <= usize::MAX {
        Some(digits_value(d) as usize)
    } else {
        None
    }
}

/// The index of the first `-` in `s`, if any.
pub open spec fn dash_index(s: Seq<char>) -> Option<nat>
    decreases s.len(),
{
    if s.len() == 0 {
        None
    } else {
        match dash_index(s.drop_last()) {
            Some(i) => Some(i),
            None => if s.last() == '-' {
                Some((s.len() - 1) as nat)
            } else {
                None
            },
        }
    }
}

/// The start and end of a range `start-end`: each is the number before, and between, the
/// first two dashes, or 0 when it does not parse; `None` without a dash.
pub open spec fn spec_range_tuple(s: Seq<char>) -> Option<(usize, usize)> {
    match dash_index(s) {
        None => None,
        Some(p) => {
            let first = s.take(p as int);
            let rest = s.skip(p + 1int);
            let second = match dash_index(rest) {
                Some(q) => rest.take(q as int),
                None => rest,
            };
            Some((
                match parse_usize(first) {
                    Some(v) => v,
                    None => 0,
                },
                match parse_usize(second) {
                    Some(v) => v,
                    None => 0,
                },
            ))
        },
    }
}

proof fn lemma_digits_value_mono(d: Seq<char>, k: int)
    requires
        0 <= k <= d.len(),
        all_digits(d),
    ensures
        digits_value(d.take(k)) <= digits_value(d),
    decreases d.len() - k,
{
    if k < d.len() {
        lemma_digits_value_mono(d, k + 1);
        assert(d.take(k + 1).drop_last() =~= d.take(k));
        assert(d.take(k + 1).last() == d[k]);
        assert('0' <= d[k]);
    } else {
        assert(d.take(k) =~= d);
    }
}

/// Parses the characters `from .. to` of `s` as a `usize`, as Rust does.
fn parse_usize_range(s: &str, from: usize, to: usize) -> (r: Option<usize>)
    requires
        from <= to <= s@.len(),
    ensures
        r == parse_usize(s@.subrange(from as int, to as int)),
{
    let ghost t = s@.subrange(from as int, to as int);
    let mut start = from;
    if from < to && s.get_char(from) == '+' {
        start = from + 1;
    }
    let ghost d = s@.subrange(start as int, to as int);
    assert(d =~= (if t.len() > 0 && t[0] == '+' { t.drop_first() } else { t }));
    if start == to {
        return None;
    }
    let mut value: usize = 0;
    let mut i = start;
    while i < to
        invariant
            start <= i <= to,
            to <= s@.len(),
            d == s@.subrange(start as int, to as int),
            t == s@.subrange(from as int, to as int),
            d == (if t.len() > 0 && t[0] == '+' { t.drop_first() } else { t }),
            all_digits(d.take(i - start)),
            value == digits_value(d.take(i - start)),
        decreases to - i,
    {
        let c = s.get_char(i);
        let ghost k = i - start;
        proof {
            assert(d.take(k + 1).drop_last() =~= d.take(k));
            assert(d.take(k + 1).last() == c);
        }
        assert(d[k as int] == c);
        if !('0' <= c && c <= '9') {
            proof {
                assert(!all_digits(d));
            }
            return None;
        }
        let digit = (c as u32 - '0' as u32) as usize;
        assert(digit == c as int - '0' as int);
        assert(digits_value(d.take(k + 1)) == 10 * value + digit);
        let next = match value.checked_mul(10) {
            Some(v) => v.checked_add(digit),
            None => None,
        };
        match next {
            Some(v) => {
                value = v;
            },
            None => {
                proof {
                    assert(digits_value(d.take(k + 1)) > usize::MAX);
                    if all_digits(d) {
                        lemma_digits_value_mono(d, k + 1);
                    }
                }
                return None;
            },
        }
        i = i + 1;
    }
    assert(d.take(to - start) =~= d);
    Some(value)
}

/// The index of the first `-` among the characters `from .. to` of `s`, relative to
/// `from`, if any.
fn find_dash(s: &str, from: usize, to: usize) -> (r: Option<usize>)
    requires
        from <= to <= s@.len(),
    ensures
        match dash_index(s@.subrange(from as int, to as int)) {
            Some(q) => r == Some(q as usize),
            None => r is None,
        },
{
    let ghost t = s@.subrange(from as int, to as int);
    let mut i = from;
    while i < to
        invariant
            from <= i <= to,
            to <= s@.len(),
            t == s@.subrange(from as int, to as int),
            dash_index(t.take(i - from)) is None,
        decreases to - i,
    {
        proof {
            assert(t.take(i - from + 1).drop_last() =~= t.take(i - from));
        }
        if s.get_char(i) == '-' {
            proof {
                lemma_dash_index_stays(t, (i - from) as nat, t.len());
                assert(t.take(t.len() as int) =~= t);
            }
            return Some(i - from);
        }
        i = i + 1;
    }
    assert(t.take(to - from) =~= t);
    None
}

proof fn lemma_dash_index_stays(t: Seq<char>, i: nat, k: nat)
    requires
        i < k <= t.len(),
        dash_index(t.take(i as int)) is None,
        t[i as int] == '-',
    ensures
        dash_index(t.take(k as int)) == Some(i),
    decreases k,
{
    if k == i + 1 {
        assert(t.take(k as int).drop_last() =~= t.take(i as int));
    } else {
        lemma_dash_index_stays(t, i, (k - 1) as nat);
        assert(t.take(k as int).drop_last() =~= t.take(k - 1));
    }
}

proof fn lemma_dash_index_bound(t: Seq<char>)
    ensures
        dash_index(t) matches Some(q) ==> q < t.len() && t[q as int] == '-',
    decreases t.len(),
{
    if t.len() > 0 {
        lemma_dash_index_bound(t.drop_last());
    }
}

impl EditConfig {
    /// The start and end of a range `start-end`. A number that does not parse counts as
    /// 0; a range without `-` is refused.
    pub fn range_string_to_tuple(range: &str) -> (r: Result<(usize, usize), EditError>)
        ensures
            match spec_range_tuple(range@) {
                Some(t) => r == Ok::<(usize, usize), EditError>(t),
                None => r == Err::<(usize, usize), EditError>(EditError::InvalidRange),
            },
    {
        let n = range.unicode_len();
        match find_dash(range, 0, n) {
            None => {
                assert(range@.subrange(0, n as int) =~= range@);
                Err(EditError::InvalidRange)
            },
            Some(p) => {
                assert(range@.subrange(0, n as int) =~= range@);
                proof {
                    lemma_dash_index_bound(range@);
                }
                let first = match parse_usize_range(range, 0, p) {
                    Some(v) => v,
                    None => 0,
                };
                proof {
                    lemma_dash_index_bound(range@.subrange(p + 1, n as int));
                }
                let second_end = match find_dash(range, p + 1, n) {
                    Some(q) => p + 1 + q,
                    None => n,
                };
                proof {
                    let rest = range@.skip(p + 1);
                    assert(range@.subrange(p + 1, n as int) =~= rest);
                    lemma_dash_index_bound(rest);
                    match dash_index(rest) {
                        Some(q) => {
                            assert(range@.subrange(p + 1, p + 1 + q) =~= rest.take(q as int));
                        },
                        None => {},
                    }
                    assert(range@.subrange(0, p as int) =~= range@.take(p as int));
                }
                let second = match parse_usize_range(range, p + 1, second_end) {
                    Some(v) => v,
                    None => 0,
                };
                Ok((first, second))
            },
        }
    }
}

/// One removal: a range `start-end` removes the frames `start` to `end`, both included; a
/// frame index removes that frame; anything else removes nothing. `amount` counts the
/// frames removed so far. Refused when the range ends, or the index lies, past the last
/// frame.
pub open spec fn spec_remove_step(list: Seq<MetadataView>, amount: nat, range: Seq<char>) -> Result<(Seq<MetadataView>, nat), EditError> {
    match spec_range_tuple(range) {
        Some((start, end)) => if end >= list.len() {
            Err(EditError::InvalidEndRange(end))
        } else {
            Ok((list.take(start as int) + list.skip(end + 1), (amount + (end - start + 1)) as nat))
        },
        None => match parse_usize(range) {
            Some(i) => if i >= list.len() {
                Err(EditError::InvalidFrameIndex(i))
            } else {
                Ok((list.remove(i as int), amount + 1))
            },
            None => Ok((list, amount)),
        },
    }
}

/// A removal does not stop on a range within the frames whose start is past its end.
pub open spec fn remove_step_ok(list: Seq<MetadataView>, amount: nat, range: Seq<char>) -> bool {
    match spec_range_tuple(range) {
        Some((start, end)) => end < list.len() ==> start <= end,
        None => true,
    }
}

/// The frames and count after the first `k` removals.
pub open spec fn spec_remove_all(list: Seq<MetadataView>, ranges: Seq<Seq<char>>) -> Result<(Seq<MetadataView>, nat), EditError>
    decreases ranges.len(),
{
    if ranges.len() == 0 {
        Ok((list, 0))
    } else {
        match spec_remove_all(list, ranges.drop_last()) {
            Err(e) => Err(e),
            Ok((l, a)) => spec_remove_step(l, a, ranges.last()),
        }
    }
}

/// No removal stops.
pub open spec fn remove_all_ok(list: Seq<MetadataView>, ranges: Seq<Seq<char>>) -> bool
    decreases ranges.len(),
{
    if ranges.len() == 0 {
        true
    } else {
        &&& remove_all_ok(list, ranges.drop_last())
        &&& match spec_remove_all(list, ranges.drop_last()) {
            Err(_) => true,
            Ok((l, a)) => remove_step_ok(l, a, ranges.last()),
        }
    }
}

/// The frames once the removals are made in order, up to the first one refused, which
/// leaves them as they are.
pub open spec fn spec_remove_state(list: Seq<MetadataView>, ranges: Seq<Seq<char>>) -> Seq<MetadataView>
    decreases ranges.len(),
{
    if ranges.len() == 0 {
        list
    } else {
        match spec_remove_all(list, ranges.drop_last()) {
            Err(_) => spec_remove_state(list, ranges.drop_last()),
            Ok((l, a)) => match spec_remove_step(l, a, ranges.last()) {
                Ok((l2, _)) => l2,
                Err(_) => l,
            },
        }
    }
}

proof fn lemma_remove_state_after_err(list: Seq<MetadataView>, ranges: Seq<Seq<char>>, k: nat)
    requires
        k <= ranges.len(),
        spec_remove_all(list, ranges.take(k as int)) is Err,
    ensures
        spec_remove_state(list, ranges) == spec_remove_state(list, ranges.take(k as int)),
    decreases ranges.len() - k,
{
    if k < ranges.len() {
        assert(ranges.take(k + 1int).drop_last() =~= ranges.take(k as int));
        lemma_remove_state_after_err(list, ranges, k + 1);
    } else {
        assert(ranges.take(k as int) =~= ranges);
    }
}

/// The views of a list of strings.
pub open spec fn string_views(list: Seq<String>) -> Seq<Seq<char>> {
    list.map_values(|s: String| s@)
}

proof fn lemma_remove_all_len(list: Seq<MetadataView>, ranges: Seq<Seq<char>>)
    requires
        remove_all_ok(list, ranges),
    ensures
        spec_remove_all(list, ranges) matches Ok((l, a)) ==> a + l.len() <= list.len(),
    decreases ranges.len(),
{
    if ranges.len() > 0 {
        lemma_remove_all_len(list, ranges.drop_last());
    }
}

/// Removes the frames that the ranges (both ends included) and indexes name, each taken in
/// the frames left by those before it. Returns how many frames were removed. On an error
/// the frames are those left by the removals before the refused one.
pub fn remove_frames(ranges: &[String], metadata: &mut Vec<Hdr10PlusMetadata>) -> (r: Result<usize, EditError>)
    requires
        remove_all_ok(metadata_list_views(old(metadata)@), string_views(ranges@)),
    ensures
        match spec_remove_all(metadata_list_views(old(metadata)@), string_views(ranges@)) {
            Ok((l, a)) => r == Ok::<usize, EditError>(a as usize) && metadata_list_views(final(metadata)@) == l,
            Err(e) => r == Err::<usize, EditError>(e),
        },
        metadata_list_views(final(metadata)@) == spec_remove_state(metadata_list_views(old(metadata)@), string_views(ranges@)),
{
    let ghost l0 = metadata_list_views(metadata@);
    let ghost rs = string_views(ranges@);
    let _len0 = metadata.len();
    let mut amount: usize = 0;
    let mut k: usize = 0;
    while k < ranges.len()
        invariant
            l0 == metadata_list_views(old(metadata)@),
            l0.len() <= usize::MAX,
            rs == string_views(ranges@),
            k <= ranges@.len(),
            remove_all_ok(l0, rs),
            spec_remove_all(l0, rs.take(k as int)) == Ok::<(Seq<MetadataView>, nat), EditError>((
                metadata_list_views(metadata@),
                amount as nat,
            )),
        decreases ranges@.len() - k,
    {
        proof {
            assert(rs.take(k + 1).drop_last() =~= rs.take(k as int));
            lemma_remove_all_ok_prefix(l0, rs, (k + 1) as nat);
            lemma_remove_all_ok_prefix(l0, rs, k as nat);
            lemma_remove_all_len(l0, rs.take(k as int));
        }
        let range = ranges[k].as_str();
        assert(range@ == rs[k as int]);
        let ghost cur = metadata_list_views(metadata@);
        let ghost before = metadata@;
        let n = range.unicode_len();
        let dash = find_dash(range, 0, n);
        assert(range@.subrange(0, n as int) =~= range@);
        if dash.is_some() {
            let (start, end) = EditConfig::range_string_to_tuple(range)?;
            if end >= metadata.len() {
                proof {
                    lemma_remove_all_err(l0, rs, (k + 1) as nat);
                    lemma_remove_state_after_err(l0, rs, (k + 1) as nat);
                }
                return Err(EditError::InvalidEndRange(end));
            }
            let count = end - start + 1;
            amount = amount + count;
            let mut j: usize = 0;
            while j < count
                invariant
                    j <= count,
                    start + count <= before.len(),
                    metadata@ == before.take(start as int) + before.skip(start + j),
                decreases count - j,
            {
                metadata.remove(start);
                j = j + 1;
                assert(metadata@ =~= before.take(start as int) + before.skip(start + j));
            }
            assert(metadata_list_views(metadata@) =~= cur.take(start as int) + cur.skip(end + 1));
        } else {
            match parse_usize_range(range, 0, n) {
                Some(index) => {
                    if index >= metadata.len() {
                        proof {
                            lemma_remove_all_err(l0, rs, (k + 1) as nat);
                            lemma_remove_state_after_err(l0, rs, (k + 1) as nat);
                        }
                        return Err(EditError::InvalidFrameIndex(index));
                    }
                    metadata.remove(index);
                    assert(metadata_list_views(metadata@) =~= cur.remove(index as int));
                    amount = amount + 1;
                },
                None => {},
            }
        }
        k = k + 1;
    }
    assert(rs.take(k as int) =~= rs);
    Ok(amount)
}

/// Whether removing the frames that the ranges name stays within the frames, so that
/// `remove_frames` can be called: whether `remove_all_ok` holds.
pub fn removals_in_bounds(ranges: &[String], metadata: &Vec<Hdr10PlusMetadata>) -> (r: bool)
    ensures
        r == remove_all_ok(metadata_list_views(metadata@), string_views(ranges@)),
{
    let ghost l0 = metadata_list_views(metadata@);
    let ghost rs = string_views(ranges@);
    let mut len: usize = metadata.len();
    let mut amount: usize = 0;
    let ghost mut cur: Seq<MetadataView> = l0;
    let mut k: usize = 0;
    while k < ranges.len()
        invariant
            l0 == metadata_list_views(metadata@),
            rs == string_views(ranges@),
            l0.len() <= usize::MAX,
            k <= ranges@.len(),
            remove_all_ok(l0, rs.take(k as int)),
            spec_remove_all(l0, rs.take(k as int)) == Ok::<(Seq<MetadataView>, nat), EditError>((cur, amount as nat)),
            cur.len() == len,
            amount + len <= l0.len(),
        decreases ranges@.len() - k,
    {
        let ghost t = rs.take(k + 1);
        proof {
            assert(t.drop_last() =~= rs.take(k as int));
        }
        let range = ranges[k].as_str();
        assert(range@ == t.last());
        let n = range.unicode_len();
        let dash = find_dash(range, 0, n);
        assert(range@.subrange(0, n as int) =~= range@);
        if dash.is_some() {
            let (start, end) = match EditConfig::range_string_to_tuple(range) {
                Ok(t) => t,
                Err(_) => {
                    proof {
                        assert(false);
                    }
                    return false;
                },
            };
            if end >= len {
                proof {
                    lemma_remove_all_ok_after_err(l0, rs, (k + 1) as nat);
                }
                return true;
            }
            if start > end {
                proof {
                    if remove_all_ok(l0, rs) {
                        lemma_remove_all_ok_prefix(l0, rs, (k + 1) as nat);
                    }
                }
                return false;
            }
            let count = end - start + 1;
            proof {
                cur = cur.take(start as int) + cur.skip(end + 1);
            }
            len = len - count;
            amount = amount + count;
        } else {
            match parse_usize_range(range, 0, n) {
                Some(index) => {
                    if index >= len {
                        proof {
                            lemma_remove_all_ok_after_err(l0, rs, (k + 1) as nat);
                        }
                        return true;
                    }
                    proof {
                        cur = cur.remove(index as int);
                    }
                    len = len - 1;
                    amount = amount + 1;
                },
                None => {},
            }
        }
        proof {
            assert(remove_all_ok(l0, t));
            lemma_remove_all_len(l0, t);
        }
        k = k + 1;
    }
    assert(rs.take(k as int) =~= rs);
    true
}

/// Once a removal stops on an error, the later ones cannot break a rule.
proof fn lemma_remove_all_ok_after_err(list: Seq<MetadataView>, ranges: Seq<Seq<char>>, k: nat)
    requires
        k <= ranges.len(),
        remove_all_ok(list, ranges.take(k as int)),
        spec_remove_all(list, ranges.take(k as int)) is Err,
    ensures
        remove_all_ok(list, ranges),
    decreases ranges.len() - k,
{
    if k < ranges.len() {
        assert(ranges.take(k + 1int).drop_last() =~= ranges.take(k as int));
        lemma_remove_all_ok_after_err(list, ranges, k + 1);
    } else {
        assert(ranges.take(k as int) =~= ranges);
    }
}

proof fn lemma_remove_all_ok_prefix(list: Seq<MetadataView>, ranges: Seq<Seq<char>>, k: nat)
    requires
        k <= ranges.len(),
        remove_all_ok(list, ranges),
    ensures
        remove_all_ok(list, ranges.take(k as int)),
    decreases ranges.len() - k,
{
    if k < ranges.len() {
        lemma_remove_all_ok_prefix(list, ranges.drop_last(), k);
        assert(ranges.drop_last().take(k as int) =~= ranges.take(k as int));
    } else {
        assert(ranges.take(k as int) =~= ranges);
    }
}

proof fn lemma_remove_all_err(list: Seq<MetadataView>, ranges: Seq<Seq<char>>, k: nat)
    requires
        k <= ranges.len(),
        spec_remove_all(list, ranges.take(k as int)) is Err,
    ensures
        spec_remove_all(list, ranges) == spec_remove_all(list, ranges.take(k as int)),
    decreases ranges.len() - k,
{
    if k < ranges.len() {
        assert(ranges.take(k + 1int).drop_last() =~= ranges.take(k as int));
        lemma_remove_all_err(list, ranges, k + 1);
    } else {
        assert(ranges.take(k as int) =~= ranges);
    }
}

/// `n` copies of `x`.
pub open spec fn repeat_view(x: MetadataView, n: nat) -> Seq<MetadataView> {
    Seq::new(n, |i: int| x)
}

/// One duplication: `length` copies of frame `source` inserted at `offset`; refused when
/// the source or the offset lies past the frames.
pub open spec fn spec_duplicate_step(list: Seq<MetadataView>, d: DuplicateMetadata) -> Result<Seq<MetadataView>, EditError> {
    if d.source < list.len() && d.offset <= list.len() {
        Ok(list.take(d.offset as int) + repeat_view(list[d.source as int], d.length as nat) + list.skip(d.offset as int))
    } else {
        Err(EditError::InvalidDuplicate(d))
    }
}

/// The frames after the duplications, in order.
pub open spec fn spec_duplicate_all(list: Seq<MetadataView>, dups: Seq<DuplicateMetadata>) -> Result<Seq<MetadataView>, EditError>
    decreases dups.len(),
{
    if dups.len() == 0 {
        Ok(list)
    } else {
        match spec_duplicate_all(list, dups.drop_last()) {
            Err(e) => Err(e),
            Ok(l) => spec_duplicate_step(l, dups.last()),
        }
    }
}

/// The frames once the duplications are made in order, up to the first one refused, which
/// leaves them as they are.
pub open spec fn spec_duplicate_state(list: Seq<MetadataView>, dups: Seq<DuplicateMetadata>) -> Seq<MetadataView>
    decreases dups.len(),
{
    if dups.len() == 0 {
        list
    } else {
        match spec_duplicate_all(list, dups.drop_last()) {
            Err(_) => spec_duplicate_state(list, dups.drop_last()),
            Ok(l) => match spec_duplicate_step(l, dups.last()) {
                Ok(l2) => l2,
                Err(_) => l,
            },
        }
    }
}

proof fn lemma_duplicate_state_after_err(list: Seq<MetadataView>, dups: Seq<DuplicateMetadata>, k: nat)
    requires
        k <= dups.len(),
        spec_duplicate_all(list, dups.take(k as int)) is Err,
    ensures
        spec_duplicate_state(list, dups) == spec_duplicate_state(list, dups.take(k as int)),
    decreases dups.len() - k,
{
    if k < dups.len() {
        assert(dups.take(k + 1int).drop_last() =~= dups.take(k as int));
        lemma_duplicate_state_after_err(list, dups, k + 1);
    } else {
        assert(dups.take(k as int) =~= dups);
    }
}

/// Inserts, for each duplication in turn, copies of its source frame at its offset. On an
/// error the duplications before the refused one stay made.
pub fn duplicate_metadata(to_duplicate: &[DuplicateMetadata], metadata: &mut Vec<Hdr10PlusMetadata>) -> (r: Result<(), EditError>)
    ensures
        match spec_duplicate_all(metadata_list_views(old(metadata)@), to_duplicate@) {
            Ok(l) => r is Ok && metadata_list_views(final(metadata)@) == l,
            Err(e) => r == Err::<(), EditError>(e),
        },
        metadata_list_views(final(metadata)@) == spec_duplicate_state(metadata_list_views(old(metadata)@), to_duplicate@),
{
    let ghost l0 = metadata_list_views(metadata@);
    let mut k: usize = 0;
    while k < to_duplicate.len()
        invariant
            l0 == metadata_list_views(old(metadata)@),
            k <= to_duplicate@.len(),
            spec_duplicate_all(l0, to_duplicate@.take(k as int)) == Ok::<Seq<MetadataView>, EditError>(
                metadata_list_views(metadata@),
            ),
        decreases to_duplicate@.len() - k,
    {
        proof {
            assert(to_duplicate@.take(k + 1).drop_last() =~= to_duplicate@.take(k as int));
        }
        let d = to_duplicate[k];
        let ghost cur = metadata_list_views(metadata@);
        if !(d.source < metadata.len() && d.offset <= metadata.len()) {
            proof {
                lemma_duplicate_all_err(l0, to_duplicate@, (k + 1) as nat);
                lemma_duplicate_state_after_err(l0, to_duplicate@, (k + 1) as nat);
            }
            return Err(EditError::InvalidDuplicate(d));
        }
        let source = metadata[d.source].duplicate();
        assert(source@ == cur[d.source as int]);
        let mut j: usize = 0;
        while j < d.length
            invariant
                j <= d.length,
                d.offset <= cur.len(),
                source@ == cur[d.source as int],
                metadata_list_views(metadata@) == cur.take(d.offset as int) + repeat_view(source@, j as nat) + cur.skip(d.offset as int),
            decreases d.length - j,
        {
            let ghost before = metadata@;
            let copy = source.duplicate();
            metadata.insert(d.offset, copy);
            proof {
                assert(metadata_list_views(metadata@) =~= metadata_list_views(before).insert(d.offset as int, copy@));
                assert(metadata_list_views(metadata@) =~= cur.take(d.offset as int) + repeat_view(source@, (j + 1) as nat)
                    + cur.skip(d.offset as int));
            }
            j = j + 1;
        }
        k = k + 1;
    }
    assert(to_duplicate@.take(k as int) =~= to_duplicate@);
    Ok(())
}

proof fn lemma_duplicate_all_err(list: Seq<MetadataView>, dups: Seq<DuplicateMetadata>, k: nat)
    requires
        k <= dups.len(),
        spec_duplicate_all(list, dups.take(k as int)) is Err,
    ensures
        spec_duplicate_all(list, dups) == spec_duplicate_all(list, dups.take(k as int)),
    decreases dups.len() - k,
{
    if k < dups.len() {
        assert(dups.take(k + 1int).drop_last() =~= dups.take(k as int));
        lemma_duplicate_all_err(list, dups, k + 1);
    } else {
        assert(dups.take(k as int) =~= dups);
    }
}

/// The duplications in the order they are applied: by decreasing offset, those of equal
/// offset in the reverse of their given order.
pub open spec fn spec_duplicate_order(dups: Seq<DuplicateMetadata>) -> Seq<DuplicateMetadata> {
    let keyed = Seq::new(dups.len(), |i: int| (dups[i].offset as u64, dups[i]));
    let sorted = stable_sort(keyed);
    Seq::new(sorted.len(), |i: int| sorted[sorted.len() - 1 - i].1)
}

/// The duplications are applied from the highest offset down, so that each offset still
/// names a position of the frames before any duplication; every duplication is applied,
/// once.
pub proof fn law_duplicate_order(dups: Seq<DuplicateMetadata>)
    ensures
        spec_duplicate_order(dups).len() == dups.len(),
        forall|i: int, j: int| 0 <= i <= j < dups.len() ==> (#[trigger] spec_duplicate_order(dups)[i]).offset
            >= (#[trigger] spec_duplicate_order(dups)[j]).offset,
        spec_duplicate_order(dups).to_multiset() == dups.to_multiset(),
{
    let keyed = Seq::new(dups.len(), |i: int| (dups[i].offset as u64, dups[i]));
    let sorted = stable_sort(keyed);
    let r = spec_duplicate_order(dups);
    lemma_stable_sort_len(keyed);
    lemma_stable_sort_sorted(keyed);
    let f = |e: (u64, DuplicateMetadata)| e.1;
    let g = |e: (u64, DuplicateMetadata)| e;
    lemma_stable_sort_permutes(keyed, f);
    lemma_stable_sort_permutes(keyed, g);
    assert(keyed.map_values(g) =~= keyed);
    assert(sorted.map_values(g) =~= sorted);
    assert forall|i: int| 0 <= i < sorted.len() implies (#[trigger] sorted[i]).0 == sorted[i].1.offset as u64 by {
        broadcast use vstd::seq_lib::group_to_multiset_ensures;
        assert(sorted.contains(sorted[i]));
        assert(keyed.to_multiset().count(sorted[i]) > 0);
        assert(keyed.contains(sorted[i]));
    }
    assert forall|i: int, j: int| 0 <= i <= j < dups.len() implies (#[trigger] r[i]).offset >= (#[trigger] r[j]).offset by {
        let a = sorted.len() - 1 - j;
        let b = sorted.len() - 1 - i;
        assert(sorted[a].0 <= sorted[b].0);
        assert(r[i] == sorted[b].1);
        assert(r[j] == sorted[a].1);
    }
    assert(keyed.map_values(f) =~= dups);
    assert(r =~= sorted.map_values(f).reverse());
    sorted.map_values(f).lemma_reverse_to_multiset();
}

/// Orders the duplications as they are applied: sorted by offset, keeping the given order
/// of equal offsets, then reversed.
pub fn sort_duplicates(dups: &Vec<DuplicateMetadata>) -> (r: Vec<DuplicateMetadata>)
    ensures
        r@ == spec_duplicate_order(dups@),
{
    let ghost keyed = Seq::new(dups@.len(), |i: int| (dups@[i].offset as u64, dups@[i]));
    let mut keys: Vec<u64> = Vec::new();
    let mut sorted: Vec<DuplicateMetadata> = Vec::new();
    let mut i: usize = 0;
    while i < dups.len()
        invariant
            keyed == Seq::new(dups@.len(), |k: int| (dups@[k].offset as u64, dups@[k])),
            i <= dups@.len(),
            keys@.len() == sorted@.len(),
            ({
                let p = stable_sort(keyed.take(i as int));
                &&& p.len() == sorted@.len()
                &&& forall|j: int| 0 <= j < p.len() ==> keys@[j] == p[j].0 && #[trigger] sorted@[j] == p[j].1
            }),
        decreases dups@.len() - i,
    {
        let d = dups[i];
        let k = d.offset as u64;
        let pos = crate::extract::count_keys_le(&keys, k);
        let ghost before_keys = keys@;
        let ghost before_sorted = sorted@;
        keys.insert(pos, k);
        sorted.insert(pos, d);
        proof {
            let p0 = stable_sort(keyed.take(i as int));
            let t = keyed.take(i + 1);
            assert(t.drop_last() =~= keyed.take(i as int));
            assert(t.last() == (k, d));
            crate::extract::lemma_count_le_keys(p0, k);
            assert forall|j: int| 0 <= j < p0.len() implies before_keys[j] == p0[j].0 by {
                assert(before_sorted[j] == p0[j].1);
            }
            assert(p0.map_values(|e: (u64, DuplicateMetadata)| e.0) =~= before_keys);
            let p1 = stable_sort(t);
            assert(p1 == p0.insert(pos as int, (k, d)));
            assert forall|j: int| 0 <= j < p1.len() implies keys@[j] == p1[j].0 && #[trigger] sorted@[j] == p1[j].1 by {
                if j < pos {
                    assert(sorted@[j] == before_sorted[j]);
                } else if j > pos {
                    assert(sorted@[j] == before_sorted[j - 1]);
                }
            }
        }
        i = i + 1;
    }
    assert(keyed.take(i as int) =~= keyed);
    let mut out: Vec<DuplicateMetadata> = Vec::new();
    let mut j: usize = sorted.len();
    while j > 0
        invariant
            j <= sorted@.len(),
            out@.len() == sorted@.len() - j,
            forall|m: int| 0 <= m < out@.len() ==> #[trigger] out@[m] == sorted@[sorted@.len() - 1 - m],
        decreases j,
    {
        j = j - 1;
        out.push(sorted[j]);
    }
    proof {
        lemma_stable_sort_len(keyed);
        assert(out@ =~= spec_duplicate_order(dups@));
    }
    out
}

impl EditConfig {
    /// Puts the duplications in the order they are applied.
    pub fn sort_duplicates(&mut self)
        ensures
            final(self).remove == old(self).remove,
            match old(self).duplicate {
                Some(d) => final(self).duplicate matches Some(d2) && d2@ == spec_duplicate_order(d@),
                None => final(self).duplicate is None,
            },
    {
        let sorted = match &self.duplicate {
            Some(d) => Some(sort_duplicates(d)),
            None => None,
        };
        self.duplicate = sorted;
    }

    /// Applies the edits: the removals, then the duplications.
    pub fn execute(&self, metadata: &mut Vec<Hdr10PlusMetadata>) -> (r: Result<(), EditError>)
        requires
            self.remove matches Some(ranges) ==> remove_all_ok(metadata_list_views(old(metadata)@), string_views(ranges@)),
        ensures
            match spec_execute(self, metadata_list_views(old(metadata)@)) {
                Ok(l) => r is Ok && metadata_list_views(final(metadata)@) == l,
                Err(e) => r == Err::<(), EditError>(e),
            },
            metadata_list_views(final(metadata)@) == spec_execute_state(self, metadata_list_views(old(metadata)@)),
    {
        match &self.remove {
            Some(ranges) => {
                remove_frames(ranges.as_slice(), metadata)?;
            },
            None => {},
        }
        match &self.duplicate {
            Some(d) => {
                duplicate_metadata(d.as_slice(), metadata)?;
            },
            None => {},
        }
        Ok(())
    }
}

/// The frames after the edits, also when one is refused: those left by the removals up to
/// the refused one, or, once all removals are made, by the duplications up to the refused
/// one.
pub open spec fn spec_execute_state(config: &EditConfig, list: Seq<MetadataView>) -> Seq<MetadataView> {
    match config.remove {
        Some(ranges) if spec_remove_all(list, string_views(ranges@)) is Err => spec_remove_state(
            list,
            string_views(ranges@),
        ),
        _ => {
            let l = match config.remove {
                Some(ranges) => spec_remove_state(list, string_views(ranges@)),
                None => list,
            };
            match config.duplicate {
                Some(d) => spec_duplicate_state(l, d@),
                None => l,
            }
        },
    }
}

/// The frames after the edits.
pub open spec fn spec_execute(config: &EditConfig, list: Seq<MetadataView>) -> Result<Seq<MetadataView>, EditError> {
    let removed = match config.remove {
        Some(ranges) => match spec_remove_all(list, string_views(ranges@)) {
            Ok((l, _a)) => Ok(l),
            Err(e) => Err(e),
        },
        None => Ok(list),
    };
    match removed {
        Err(e) => Err(e),
        Ok(l) => match config.duplicate {
            Some(d) => spec_duplicate_all(l, d@),
            None => Ok(l),
        },
    }
}

/// Builds the metadata of every JSON frame; refused when any frame cannot be built.
pub fn metadata_from_frames(scene_info: &[Hdr10PlusJsonMetadata]) -> (r: Result<Vec<Hdr10PlusMetadata>, EditError>)
    ensures
        if exists|i: int| 0 <= i < scene_info@.len() && (#[trigger] spec_json_frame_error(scene_info@[i]@)) is Some {
            r == Err::<Vec<Hdr10PlusMetadata>, EditError>(EditError::InvalidFrames)
        } else {
            r matches Ok(v) && metadata_list_views(v@) == Seq::new(
                scene_info@.len(),
                |i: int| spec_from_json_frame(scene_info@[i]@),
            )
        },
{
    let mut out: Vec<Hdr10PlusMetadata> = Vec::new();
    let mut i: usize = 0;
    while i < scene_info.len()
        invariant
            i <= scene_info@.len(),
            out@.len() == i,
            forall|j: int| 0 <= j < i ==> (#[trigger] spec_json_frame_error(scene_info@[j]@)) is None,
            forall|j: int| 0 <= j < i ==> (#[trigger] out@[j])@ == spec_from_json_frame(scene_info@[j]@),
        decreases scene_info@.len() - i,
    {
        match Hdr10PlusMetadata::try_from(&scene_info[i]) {
            Ok(m) => out.push(m),
            Err(_) => return Err(EditError::InvalidFrames),
        }
        i = i + 1;
    }
    assert(metadata_list_views(out@) =~= Seq::new(scene_info@.len(), |j: int| spec_from_json_frame(scene_info@[j]@)));
    Ok(out)
}

} // verus!
