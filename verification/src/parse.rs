//! The frame parser: one line of text from the serial transport is either
//! a valid sample, a debug line carrying a diagnostic payload, or a
//! structurally/numerically malformed line to be discarded.
//!
//! The line grammar is `a1, a2, a3, g1, g2, g3, dt` — exactly seven fields
//! separated by the literal two-byte separator `", "` (comma then space);
//! a line whose fields are separated by a bare comma does not split into
//! seven fields and is rejected. Each field is trimmed of surrounding
//! ASCII whitespace; the first six must parse as signed 16-bit decimal
//! integers and the seventh as an unsigned 64-bit decimal integer.
//! Lines beginning with the marker `DBG` are diagnostics, never samples.

use vstd::prelude::*;

use crate::sample::RawFlightData;

verus! {

/// ASCII whitespace as recognised when trimming a field: space, tab,
/// line feed, carriage return.
pub open spec fn is_ws(b: u8) -> bool {
    b == 32 || b == 9 || b == 10 || b == 13
}

/// ASCII decimal digit.
pub open spec fn is_digit(b: u8) -> bool {
    48 <= b <= 57
}

pub open spec fn trim_start(s: Seq<u8>) -> Seq<u8>
    decreases s.len(),
{
    if s.len() > 0 && is_ws(s[0]) {
        trim_start(s.skip(1))
    } else {
        s
    }
}

pub open spec fn trim_end(s: Seq<u8>) -> Seq<u8>
    decreases s.len(),
{
    if s.len() > 0 && is_ws(s.last()) {
        trim_end(s.drop_last())
    } else {
        s
    }
}

/// A field with surrounding ASCII whitespace removed.
pub open spec fn spec_trim(s: Seq<u8>) -> Seq<u8> {
    trim_end(trim_start(s))
}

pub open spec fn all_digits(s: Seq<u8>) -> bool {
    forall|i: int| 0 <= i < s.len() ==> #[trigger] is_digit(s[i])
}

/// The value of a string of decimal digits, most significant first.
pub open spec fn digits_val(s: Seq<u8>) -> int
    decreases s.len(),
{
    if s.len() == 0 {
        0
    } else {
        digits_val(s.drop_last()) * 10 + (s.last() - 48)
    }
}

proof fn lemma_digits_val_nonneg(s: Seq<u8>)
    requires
        all_digits(s),
    ensures
        digits_val(s) >= 0,
    decreases s.len(),
{
    if s.len() > 0 {
        assert(is_digit(s[s.len() - 1]));
        assert forall|i: int| 0 <= i < s.drop_last().len() implies #[trigger] is_digit(
            s.drop_last()[i],
        ) by {
            assert(s.drop_last()[i] == s[i]);
        }
        lemma_digits_val_nonneg(s.drop_last());
    }
}

/// A digit string's value is at least the value of any of its prefixes.
proof fn lemma_digits_val_prefix_le(s: Seq<u8>, i: int)
    requires
        all_digits(s),
        0 <= i <= s.len(),
    ensures
        digits_val(s.take(i)) <= digits_val(s),
    decreases s.len(),
{
    if i == s.len() {
        assert(s.take(i) =~= s);
    } else {
        assert(is_digit(s[s.len() - 1]));
        assert forall|k: int| 0 <= k < s.drop_last().len() implies #[trigger] is_digit(
            s.drop_last()[k],
        ) by {
            assert(s.drop_last()[k] == s[k]);
        }
        assert(s.take(i) =~= s.drop_last().take(i));
        lemma_digits_val_prefix_le(s.drop_last(), i);
        lemma_digits_val_nonneg(s.drop_last());
    }
}

/// The digit string of a signed decimal integer: the trimmed field with a
/// single leading `-` or `+` removed, if one is present.
pub open spec fn signed_digits(t: Seq<u8>) -> Seq<u8> {
    if t.len() > 0 && (t[0] == 45 || t[0] == 43) {
        t.skip(1)
    } else {
        t
    }
}

/// Parsing a field as a signed 16-bit integer, mirroring the decimal
/// grammar `[+-]?[0-9]+` with surrounding whitespace allowed, rejecting
/// values outside `[-32768, 32767]`.
pub open spec fn spec_parse_i16(s: Seq<u8>) -> Option<i16> {
    let t = spec_trim(s);
    let ds = signed_digits(t);
    if t.len() == 0 || ds.len() == 0 || !all_digits(ds) {
        None
    } else {
        let v = digits_val(ds);
        if t[0] == 45 {
            if v <= 32768 {
                Some((-v) as i16)
            } else {
                None
            }
        } else {
            if v <= 32767 {
                Some(v as i16)
            } else {
                None
            }
        }
    }
}

/// The digit string of an unsigned decimal integer: the trimmed field
/// with a single leading `+` removed, if one is present.
pub open spec fn unsigned_digits(t: Seq<u8>) -> Seq<u8> {
    if t.len() > 0 && t[0] == 43 {
        t.skip(1)
    } else {
        t
    }
}

/// Parsing a field as an unsigned 64-bit integer: the grammar `[+]?[0-9]+`
/// with surrounding whitespace allowed, rejecting values above `u64::MAX`.
pub open spec fn spec_parse_u64(s: Seq<u8>) -> Option<u64> {
    let t = spec_trim(s);
    let ds = unsigned_digits(t);
    if t.len() == 0 || ds.len() == 0 || !all_digits(ds) {
        None
    } else {
        let v = digits_val(ds);
        if v <= u64::MAX {
            Some(v as u64)
        } else {
            None
        }
    }
}

/// Bounds of the whitespace-trimmed core of `s`: `s[r.0 .. r.1]` is
/// `spec_trim(s@)`.
#[verifier::loop_isolation(false)]
fn trim_bounds(s: &[u8]) -> (r: (usize, usize))
    ensures
        r.0 <= r.1 <= s@.len(),
        s@.subrange(r.0 as int, r.1 as int) == spec_trim(s@),
{
    let len = s.len();
    let mut lo: usize = 0;
    proof {
        assert(s@.skip(0) =~= s@);
    }
    while lo < len && (s[lo] == 32 || s[lo] == 9 || s[lo] == 10 || s[lo] == 13)
        invariant
            lo <= len == s@.len(),
            trim_start(s@) == trim_start(s@.skip(lo as int)),
        decreases len - lo,
    {
        proof {
            assert(s@.skip(lo as int)[0] == s@[lo as int]);
            assert(s@.skip(lo as int).skip(1) =~= s@.skip(lo as int + 1));
        }
        lo = lo + 1;
    }
    proof {
        if lo == len {
            assert(s@.skip(lo as int) =~= Seq::<u8>::empty());
        }
        assert(trim_start(s@) == s@.skip(lo as int));
        assert(s@.skip(lo as int) =~= s@.subrange(lo as int, len as int));
    }
    let mut hi: usize = len;
    while hi > lo && (s[hi - 1] == 32 || s[hi - 1] == 9 || s[hi - 1] == 10 || s[hi - 1] == 13)
        invariant
            lo <= hi <= len == s@.len(),
            trim_start(s@) == s@.subrange(lo as int, len as int),
            spec_trim(s@) == trim_end(s@.subrange(lo as int, hi as int)),
        decreases hi,
    {
        proof {
            let cur = s@.subrange(lo as int, hi as int);
            assert(cur.last() == s@[hi - 1]);
            assert(cur.drop_last() =~= s@.subrange(lo as int, hi as int - 1));
        }
        hi = hi - 1;
    }
    proof {
        let cur = s@.subrange(lo as int, hi as int);
        if hi > lo {
            assert(cur.last() == s@[hi - 1]);
            assert(!is_ws(cur.last()));
        }
        assert(trim_end(cur) == cur);
    }
    (lo, hi)
}

/// Parse one already-split field as a signed 16-bit integer.
///
/// Returns `Some` exactly when the trimmed field matches `[+-]?[0-9]+`
/// and its value fits in an `i16`.
#[verifier::loop_isolation(false)]
pub fn parse_i16_field(field: &[u8]) -> (r: Option<i16>)
    ensures
        r == spec_parse_i16(field@),
{
    let (lo, hi) = trim_bounds(field);
    let ghost t = spec_trim(field@);
    if lo == hi {
        return None;
    }
    let first = field[lo];
    let neg = first == 45;
    let mut i = lo;
    if first == 45 || first == 43 {
        i = i + 1;
    }
    let ghost ds = signed_digits(t);
    proof {
        assert(t[0] == field@[lo as int]);
        if first == 45 || first == 43 {
            assert(t.skip(1) =~= field@.subrange(i as int, hi as int));
        }
        assert(ds == field@.subrange(i as int, hi as int));
    }
    if i == hi {
        return None;
    }
    let mut acc: u32 = 0;
    let mut j = i;
    while j < hi
        invariant
            lo <= i <= j <= hi <= field@.len(),
            ds == field@.subrange(i as int, hi as int),
            all_digits(ds.take(j - i)),
            acc == digits_val(ds.take(j - i)),
            acc <= 32768,
        decreases hi - j,
    {
        let b = field[j];
        proof {
            assert(ds[j - i] == field@[j as int]);
        }
        if b < 48 || b > 57 {
            proof {
                assert(!is_digit(ds[j - i]));
            }
            return None;
        }
        let acc2: u32 = acc * 10 + (b - 48) as u32;
        proof {
            assert(ds.take(j - i + 1).drop_last() =~= ds.take(j - i));
            assert(ds.take(j - i + 1).last() == ds[j - i]);
            assert(acc2 == digits_val(ds.take(j - i + 1)));
        }
        if acc2 > 32768 {
            proof {
                if all_digits(ds) {
                    lemma_digits_val_prefix_le(ds, j - i + 1);
                }
            }
            return None;
        }
        acc = acc2;
        j = j + 1;
    }
    proof {
        assert(ds.take(hi - i) =~= ds);
    }
    if neg {
        Some((-(acc as i32)) as i16)
    } else {
        if acc == 32768 {
            None
        } else {
            Some(acc as i16)
        }
    }
}

/// Parse one already-split field as an unsigned 64-bit integer.
///
/// Returns `Some` exactly when the trimmed field matches `[+]?[0-9]+`
/// and its value fits in a `u64`.
#[verifier::loop_isolation(false)]
pub fn parse_u64_field(field: &[u8]) -> (r: Option<u64>)
    ensures
        r == spec_parse_u64(field@),
{
    let (lo, hi) = trim_bounds(field);
    let ghost t = spec_trim(field@);
    if lo == hi {
        return None;
    }
    let first = field[lo];
    let mut i = lo;
    if first == 43 {
        i = i + 1;
    }
    let ghost ds = unsigned_digits(t);
    proof {
        assert(t[0] == field@[lo as int]);
        if first == 43 {
            assert(t.skip(1) =~= field@.subrange(i as int, hi as int));
        }
        assert(ds == field@.subrange(i as int, hi as int));
    }
    if i == hi {
        return None;
    }
    let mut acc: u64 = 0;
    let mut j = i;
    while j < hi
        invariant
            lo <= i <= j <= hi <= field@.len(),
            ds == field@.subrange(i as int, hi as int),
            all_digits(ds.take(j - i)),
            acc == digits_val(ds.take(j - i)),
        decreases hi - j,
    {
        let b = field[j];
        proof {
            assert(ds[j - i] == field@[j as int]);
        }
        if b < 48 || b > 57 {
            proof {
                assert(!is_digit(ds[j - i]));
            }
            return None;
        }
        let d = (b - 48) as u64;
        proof {
            assert(ds.take(j - i + 1).drop_last() =~= ds.take(j - i));
            assert(ds.take(j - i + 1).last() == ds[j - i]);
        }
        let step = match acc.checked_mul(10) {
            Some(m) => m.checked_add(d),
            None => None,
        };
        match step {
            Some(acc2) => {
                proof {
                    assert(acc2 == digits_val(ds.take(j - i + 1)));
                }
                acc = acc2;
            },
            None => {
                proof {
                    assert(digits_val(ds.take(j - i + 1)) == acc * 10 + d);
                    assert(digits_val(ds.take(j - i + 1)) > u64::MAX);
                    if all_digits(ds) {
                        lemma_digits_val_prefix_le(ds, j - i + 1);
                    }
                }
                return None;
            },
        }
        j = j + 1;
    }
    proof {
        assert(ds.take(hi - i) =~= ds);
    }
    Some(acc)
}

/// The views of a sequence of byte vectors.
pub open spec fn views_of(vs: Seq<Vec<u8>>) -> Seq<Seq<u8>> {
    Seq::new(vs.len(), |i: int| vs[i]@)
}

/// Splitting on the literal two-byte separator `", "`, scanning left to
/// right, exactly as the transport protocol separates fields. Splitting
/// always yields at least one (possibly empty) field.
pub open spec fn spec_split(s: Seq<u8>) -> Seq<Seq<u8>>
    decreases s.len(),
{
    if s.len() == 0 {
        seq![Seq::<u8>::empty()]
    } else if s.len() >= 2 && s[0] == 44 && s[1] == 32 {
        seq![Seq::<u8>::empty()] + spec_split(s.skip(2))
    } else {
        let r = spec_split(s.skip(1));
        seq![seq![s[0]] + r[0]] + r.skip(1)
    }
}

proof fn lemma_spec_split_len(s: Seq<u8>)
    ensures
        spec_split(s).len() >= 1,
    decreases s.len(),
{
    if s.len() == 0 {
    } else if s.len() >= 2 && s[0] == 44 && s[1] == 32 {
        lemma_spec_split_len(s.skip(2));
    } else {
        lemma_spec_split_len(s.skip(1));
    }
}

fn split_fields_from(line: &[u8], from: usize) -> (r: Vec<Vec<u8>>)
    requires
        from <= line@.len(),
    ensures
        r@.len() >= 1,
        views_of(r@) == spec_split(line@.skip(from as int)),
    decreases line@.len() - from@,
{
    let ghost s = line@.skip(from as int);
    if from == line.len() {
        let mut r: Vec<Vec<u8>> = Vec::new();
        r.push(Vec::new());
        proof {
            assert(s =~= Seq::<u8>::empty());
            assert(views_of(r@) =~~= spec_split(s));
        }
        r
    } else if from + 1 < line.len() && line[from] == 44 && line[from + 1] == 32 {
        let mut r = split_fields_from(line, from + 2);
        r.insert(0, Vec::new());
        proof {
            assert(s[0] == line@[from as int]);
            assert(s[1] == line@[from as int + 1]);
            assert(s.skip(2) =~= line@.skip(from as int + 2));
            assert(views_of(r@) =~~= spec_split(s));
        }
        r
    } else {
        let mut r = split_fields_from(line, from + 1);
        let mut first = r.remove(0);
        first.insert(0, line[from]);
        r.insert(0, first);
        proof {
            let tail = line@.skip(from as int + 1);
            lemma_spec_split_len(tail);
            assert(s[0] == line@[from as int]);
            assert(s.skip(1) =~= tail);
            if s.len() >= 2 {
                assert(s[1] == line@[from as int + 1]);
            }
            assert(views_of(r@) =~~= spec_split(s));
        }
        r
    }
}

/// Split one line on the literal separator `", "` into its fields.
pub fn split_fields(line: &[u8]) -> (r: Vec<Vec<u8>>)
    ensures
        r@.len() >= 1,
        views_of(r@) == spec_split(line@),
{
    let r = split_fields_from(line, 0);
    proof {
        assert(line@.skip(0) =~= line@);
    }
    r
}

/// The outcome of parsing one line from the transport.
#[derive(Debug)]
pub enum ParsedLine {
    /// The line was a well-formed seven-field sample.
    Sample(RawFlightData),
    /// The line was a diagnostic line (marker `DBG`); the payload is the
    /// remainder of the line with its line terminator removed.
    DebugLine(Vec<u8>),
    /// The line was structurally or numerically malformed.
    Rejected,
}

/// Whether the line begins with the debug-line marker `DBG`.
pub open spec fn is_dbg(s: Seq<u8>) -> bool {
    s.len() >= 3 && s[0] == 68 && s[1] == 66 && s[2] == 71
}

/// A trailing `\n` or `\r\n` removed, if present.
pub open spec fn strip_eol(s: Seq<u8>) -> Seq<u8> {
    if s.len() > 0 && s.last() == 10 {
        let t = s.drop_last();
        if t.len() > 0 && t.last() == 13 {
            t.drop_last()
        } else {
            t
        }
    } else {
        s
    }
}

/// The diagnostic payload of a debug line: everything after the marker,
/// without the line terminator.
pub open spec fn spec_dbg_payload(s: Seq<u8>) -> Seq<u8> {
    strip_eol(s.skip(3))
}

/// Parsing a non-debug line into a sample: the line must split on `", "`
/// into exactly seven fields, the first six signed 16-bit integers and
/// the seventh an unsigned 64-bit integer, mapping positionally to
/// `ac_x, ac_y, ac_z, gy_x, gy_y, gy_z, dt`.
pub open spec fn spec_parse_fields(s: Seq<u8>) -> Option<RawFlightData> {
    let fs = spec_split(s);
    if fs.len() != 7 {
        None
    } else if spec_parse_i16(fs[0]) is Some && spec_parse_i16(fs[1]) is Some && spec_parse_i16(
        fs[2],
    ) is Some && spec_parse_i16(fs[3]) is Some && spec_parse_i16(fs[4]) is Some && spec_parse_i16(
        fs[5],
    ) is Some && spec_parse_u64(fs[6]) is Some {
        Some(
            RawFlightData {
                ac_x: spec_parse_i16(fs[0]).unwrap(),
                ac_y: spec_parse_i16(fs[1]).unwrap(),
                ac_z: spec_parse_i16(fs[2]).unwrap(),
                gy_x: spec_parse_i16(fs[3]).unwrap(),
                gy_y: spec_parse_i16(fs[4]).unwrap(),
                gy_z: spec_parse_i16(fs[5]).unwrap(),
                dt: spec_parse_u64(fs[6]).unwrap(),
            },
        )
    } else {
        None
    }
}

/// Parse one line from the transport.
///
/// A line beginning with `DBG` is a diagnostic: its payload is surfaced,
/// and no numeric parsing is attempted. Any other line is a sample
/// exactly when `spec_parse_fields` accepts it, and rejected otherwise.
#[verifier::loop_isolation(false)]
pub fn parse_line(line: &[u8]) -> (r: ParsedLine)
    ensures
        match r {
            ParsedLine::Sample(d) => !is_dbg(line@) && spec_parse_fields(line@) == Some(d),
            ParsedLine::DebugLine(p) => is_dbg(line@) && p@ == spec_dbg_payload(line@),
            ParsedLine::Rejected => !is_dbg(line@) && spec_parse_fields(line@) is None,
        },
{
    if line.len() >= 3 && line[0] == 68 && line[1] == 66 && line[2] == 71 {
        let mut end = line.len();
        if line[end - 1] == 10 {
            end = end - 1;
            if end > 3 && line[end - 1] == 13 {
                end = end - 1;
            }
        }
        let mut payload: Vec<u8> = Vec::new();
        let mut k: usize = 3;
        while k < end
            invariant
                3 <= k <= end,
                payload@ == line@.subrange(3, k as int),
            decreases end - k,
        {
            payload.push(line[k]);
            proof {
                assert(payload@ =~= line@.subrange(3, k as int + 1));
            }
            k = k + 1;
        }
        proof {
            let rest = line@.skip(3);
            assert(rest.len() == line@.len() - 3);
            assert forall|i: int| 0 <= i < rest.len() implies rest[i] == line@[i + 3] by {}
            if rest.len() > 0 && rest.last() == 10 {
                assert(rest.drop_last() =~= line@.subrange(3, line@.len() - 1));
            }
            assert(payload@ =~= spec_dbg_payload(line@));
        }
        return ParsedLine::DebugLine(payload);
    }
    let fields = split_fields(line);
    let ghost fs = spec_split(line@);
    if fields.len() != 7 {
        return ParsedLine::Rejected;
    }
    proof {
        assert forall|i: int| 0 <= i < 7 implies fields@[i]@ == fs[i] by {
            assert(views_of(fields@)[i] == fields@[i]@);
        }
    }
    let a0 = parse_i16_field(fields[0].as_slice());
    let a1 = parse_i16_field(fields[1].as_slice());
    let a2 = parse_i16_field(fields[2].as_slice());
    let g0 = parse_i16_field(fields[3].as_slice());
    let g1 = parse_i16_field(fields[4].as_slice());
    let g2 = parse_i16_field(fields[5].as_slice());
    let dt = parse_u64_field(fields[6].as_slice());
    match (a0, a1, a2, g0, g1, g2, dt) {
        (Some(ax), Some(ay), Some(az), Some(gx), Some(gy), Some(gz), Some(d)) => ParsedLine::Sample(
            RawFlightData { ac_x: ax, ac_y: ay, ac_z: az, gy_x: gx, gy_y: gy, gy_z: gz, dt: d },
        ),
        _ => ParsedLine::Rejected,
    }
}

} // verus!
