//! Human/machine-readable CSV encoding of one sample.
//!
//! One line per sample, comma-separated, terminated by a newline, fields
//! in the fixed order `dt, g(ac_x), g(ac_y), g(ac_z), dps(gy_x),
//! dps(gy_y), dps(gy_z)`. The conversions to physical units are exact
//! rationals — g-force is `raw / 2048` and degrees-per-second is
//! `raw * 500 / 32767` — and each converted value is printed as its
//! decimal expansion truncated toward zero after eleven fractional
//! digits, with trailing zeros (and a zero fraction's decimal point)
//! omitted. The g-force expansion terminates within eleven digits, so
//! its text is exact.
//!
//! The alternate output mode replaces the leading `dt` field with a
//! caller-supplied microsecond timestamp.

use vstd::prelude::*;

use crate::sample::RawFlightData;

verus! {

/// The decimal digits of a non-negative integer, most significant first.
pub open spec fn dec_digits(n: nat) -> Seq<u8>
    decreases n,
{
    if n < 10 {
        seq![(48 + n) as u8]
    } else {
        dec_digits(n / 10) + seq![(48 + n % 10) as u8]
    }
}

/// The low `k` decimal digits of `fr`, zero-padded to width `k`, most
/// significant first.
pub open spec fn frac_digits(fr: nat, k: nat) -> Seq<u8>
    decreases k,
{
    if k == 0 {
        Seq::empty()
    } else {
        frac_digits(fr / 10, (k - 1) as nat) + seq![(48 + fr % 10) as u8]
    }
}

/// Trailing ASCII zeros removed.
pub open spec fn trim_zeros(s: Seq<u8>) -> Seq<u8>
    decreases s.len(),
{
    if s.len() > 0 && s.last() == 48 {
        trim_zeros(s.drop_last())
    } else {
        s
    }
}

/// The magnitude of the numerator.
pub open spec fn ratio_mag(num: int) -> int {
    if num >= 0 {
        num
    } else {
        -num
    }
}

/// The integer part of `|num| / den`.
pub open spec fn ratio_ip(num: int, den: int) -> int
    recommends
        den > 0,
{
    ratio_mag(num) / den
}

/// The first eleven fractional decimal digits of `|num| / den`, as one
/// integer, truncated toward zero.
pub open spec fn ratio_fr(num: int, den: int) -> int
    recommends
        den > 0,
{
    ((ratio_mag(num) % den) * 100_000_000_000) / den
}

/// The decimal text of the rational `num / den`: an optional minus sign,
/// the integer part, and — when non-zero — a point and the fractional
/// expansion truncated toward zero after eleven digits, trailing zeros
/// removed.
pub open spec fn spec_format_ratio(num: int, den: int) -> Seq<u8>
    recommends
        den > 0,
{
    let sign: Seq<u8> = if num < 0 {
        seq![45u8]
    } else {
        Seq::empty()
    };
    let tail: Seq<u8> = if ratio_fr(num, den) == 0 {
        Seq::empty()
    } else {
        seq![46u8] + trim_zeros(frac_digits(ratio_fr(num, den) as nat, 11))
    };
    sign + dec_digits(ratio_ip(num, den) as nat) + tail
}

/// The g-force text of a raw accelerometer count: the exact decimal
/// expansion of `raw / 2048`.
pub open spec fn g_text(raw: i16) -> Seq<u8> {
    spec_format_ratio(raw as int, 2048)
}

/// The degrees-per-second text of a raw gyroscope count: the decimal
/// expansion of `raw * 500 / 32767`, truncated after eleven digits.
pub open spec fn dps_text(raw: i16) -> Seq<u8> {
    spec_format_ratio(raw as int * 500, 32767)
}

/// The CSV line of one sample: `dt`, the three g-force values, the three
/// angular-rate values, comma-separated, newline-terminated.
pub open spec fn spec_csv_line(d: RawFlightData) -> Seq<u8> {
    dec_digits(d.dt as nat) + seq![44u8] + g_text(d.ac_x) + seq![44u8] + g_text(d.ac_y)
        + seq![44u8] + g_text(d.ac_z) + seq![44u8] + dps_text(d.gy_x) + seq![44u8] + dps_text(
        d.gy_y,
    ) + seq![44u8] + dps_text(d.gy_z) + seq![10u8]
}

/// The timestamped CSV line: a microsecond timestamp in place of `dt`,
/// then the six converted values.
pub open spec fn spec_csv_line_timestamped(timestamp_us: u64, d: RawFlightData) -> Seq<u8> {
    dec_digits(timestamp_us as nat) + seq![44u8] + g_text(d.ac_x) + seq![44u8] + g_text(d.ac_y)
        + seq![44u8] + g_text(d.ac_z) + seq![44u8] + dps_text(d.gy_x) + seq![44u8] + dps_text(
        d.gy_y,
    ) + seq![44u8] + dps_text(d.gy_z) + seq![10u8]
}

/// The decimal digits of `n`, most significant first.
fn u64_to_dec(n: u64) -> (r: Vec<u8>)
    ensures
        r@ == dec_digits(n as nat),
    decreases n,
{
    if n < 10 {
        let mut r: Vec<u8> = Vec::new();
        r.push(48 + n as u8);
        proof {
            assert(r@ =~= dec_digits(n as nat));
        }
        r
    } else {
        let mut r = u64_to_dec(n / 10);
        r.push(48 + (n % 10) as u8);
        proof {
            assert(r@ =~= dec_digits(n as nat));
        }
        r
    }
}

/// The low `k` decimal digits of `fr`, zero-padded to width `k`.
fn frac_digits_exec(fr: u64, k: u64) -> (r: Vec<u8>)
    ensures
        r@ == frac_digits(fr as nat, k as nat),
    decreases k,
{
    if k == 0 {
        let r: Vec<u8> = Vec::new();
        proof {
            assert(r@ =~= frac_digits(fr as nat, 0));
        }
        r
    } else {
        let mut r = frac_digits_exec(fr / 10, k - 1);
        r.push(48 + (fr % 10) as u8);
        proof {
            assert(r@ =~= frac_digits(fr as nat, k as nat));
        }
        r
    }
}

/// The decimal text of `num / den`, truncated toward zero after eleven
/// fractional digits.
#[verifier::loop_isolation(false)]
fn format_ratio(num: i64, den: u64) -> (r: Vec<u8>)
    requires
        0 < den <= 100_000,
        -100_000_000 <= num <= 100_000_000,
    ensures
        r@ == spec_format_ratio(num as int, den as int),
{
    let neg = num < 0;
    let mag: u64 = if neg {
        (-num) as u64
    } else {
        num as u64
    };
    let ip = mag / den;
    let rem = mag % den;
    let fr = (rem * 100_000_000_000) / den;
    let mut r: Vec<u8> = Vec::new();
    if neg {
        r.push(45);
    }
    let mut ipd = u64_to_dec(ip);
    r.append(&mut ipd);
    if fr > 0 {
        r.push(46);
        let mut fd = frac_digits_exec(fr, 11);
        let ghost fd0 = fd@;
        while fd.len() > 0 && fd[fd.len() - 1] == 48
            invariant
                trim_zeros(fd@) == trim_zeros(fd0),
            decreases fd@.len(),
        {
            fd.pop();
        }
        proof {
            assert(trim_zeros(fd@) == fd@);
        }
        r.append(&mut fd);
    }
    proof {
        assert(r@ =~= spec_format_ratio(num as int, den as int));
    }
    r
}

/// Build the CSV line of one sample: `dt`, then the three accelerometer
/// readings in g, then the three gyroscope readings in degrees per
/// second, comma-separated and newline-terminated. The caller writes the
/// line to the output sink.
pub fn write_csv(data: &RawFlightData) -> (line: Vec<u8>)
    ensures
        line@ == spec_csv_line(*data),
{
    let mut r = u64_to_dec(data.dt);
    r.push(44);
    let mut f = format_ratio(data.ac_x as i64, 2048);
    r.append(&mut f);
    r.push(44);
    let mut f = format_ratio(data.ac_y as i64, 2048);
    r.append(&mut f);
    r.push(44);
    let mut f = format_ratio(data.ac_z as i64, 2048);
    r.append(&mut f);
    r.push(44);
    let mut f = format_ratio(data.gy_x as i64 * 500, 32767);
    r.append(&mut f);
    r.push(44);
    let mut f = format_ratio(data.gy_y as i64 * 500, 32767);
    r.append(&mut f);
    r.push(44);
    let mut f = format_ratio(data.gy_z as i64 * 500, 32767);
    r.append(&mut f);
    r.push(10);
    proof {
        assert(r@ =~= spec_csv_line(*data));
    }
    r
}

/// Build the timestamped CSV line: a caller-supplied microsecond Unix
/// timestamp as the leading field, then the six converted values.
pub fn write_csv_timestamped(timestamp_us: u64, data: &RawFlightData) -> (line: Vec<u8>)
    ensures
        line@ == spec_csv_line_timestamped(timestamp_us, *data),
{
    let mut r = u64_to_dec(timestamp_us);
    r.push(44);
    let mut f = format_ratio(data.ac_x as i64, 2048);
    r.append(&mut f);
    r.push(44);
    let mut f = format_ratio(data.ac_y as i64, 2048);
    r.append(&mut f);
    r.push(44);
    let mut f = format_ratio(data.ac_z as i64, 2048);
    r.append(&mut f);
    r.push(44);
    let mut f = format_ratio(data.gy_x as i64 * 500, 32767);
    r.append(&mut f);
    r.push(44);
    let mut f = format_ratio(data.gy_y as i64 * 500, 32767);
    r.append(&mut f);
    r.push(44);
    let mut f = format_ratio(data.gy_z as i64 * 500, 32767);
    r.append(&mut f);
    r.push(10);
    proof {
        assert(r@ =~= spec_csv_line_timestamped(timestamp_us, *data));
    }
    r
}

/// The numeric value the text of `num / den` denotes, as a count of
/// 10^-11 units: the rational scaled by 10^11 and truncated toward zero.
pub open spec fn fixed_value(num: int, den: int) -> int
    recommends
        den > 0,
{
    crate::sample::div_trunc(num * 100_000_000_000, den)
}

/// Law: the integer part and the eleven fractional digits that
/// `spec_format_ratio` prints together denote exactly `fixed_value`:
/// the printed text is the sign-magnitude decimal form of the scaled,
/// truncated rational.
pub proof fn lemma_fixed_value_decomposition(num: int, den: int)
    requires
        den > 0,
    ensures
        fixed_value(num, den) == if num >= 0 {
            ratio_ip(num, den) * 100_000_000_000 + ratio_fr(num, den)
        } else {
            -(ratio_ip(num, den) * 100_000_000_000 + ratio_fr(num, den))
        },
{
    let k = 100_000_000_000int;
    let mag = ratio_mag(num);
    let q = mag / den;
    let r = mag % den;
    vstd::arithmetic::div_mod::lemma_fundamental_div_mod(mag, den);
    assert(mag == den * q + r);
    assert(0 <= r < den) by (nonlinear_arith)
        requires
            den > 0,
            r == mag % den,
    ;
    assert(q >= 0) by (nonlinear_arith)
        requires
            den > 0,
            mag >= 0,
            q == mag / den,
    ;
    vstd::arithmetic::div_mod::lemma_hoist_over_denominator(r * k, q * k, den as nat);
    assert(r * k + (q * k) * den == mag * k) by (nonlinear_arith)
        requires
            mag == den * q + r,
    ;
    assert((mag * k) / den == q * k + (r * k) / den);
    if num >= 0 {
        assert(mag == num);
    } else {
        assert(mag == -num);
        assert(num * k == -(mag * k));
    }
}

/// Law: truncating division is monotone in the dividend.
pub proof fn lemma_div_trunc_is_ordered(a: int, b: int, n: int)
    requires
        a <= b,
        n > 0,
    ensures
        crate::sample::div_trunc(a, n) <= crate::sample::div_trunc(b, n),
{
    if a >= 0 {
        vstd::arithmetic::div_mod::lemma_div_is_ordered(a, b, n);
    } else if b < 0 {
        vstd::arithmetic::div_mod::lemma_div_is_ordered(-b, -a, n);
    } else {
        vstd::arithmetic::div_mod::lemma_div_pos_is_pos(b, n);
        vstd::arithmetic::div_mod::lemma_div_pos_is_pos(-a, n);
    }
}

/// Law: the g-force conversion is monotonic in the raw count — a larger
/// accelerometer reading never prints a smaller value.
pub proof fn lemma_g_value_monotonic(raw1: i16, raw2: i16)
    requires
        raw1 <= raw2,
    ensures
        fixed_value(raw1 as int, 2048) <= fixed_value(raw2 as int, 2048),
{
    lemma_div_trunc_is_ordered(
        raw1 as int * 100_000_000_000,
        raw2 as int * 100_000_000_000,
        2048,
    );
}

/// Law: the degrees-per-second conversion maps the full-scale raw range
/// to ±500: the largest raw count prints exactly 500, zero prints zero,
/// and the smallest prints a value slightly beyond -500, the signed
/// 16-bit range being asymmetric.
pub proof fn lemma_dps_full_scale()
    ensures
        fixed_value(32767int * 500, 32767) == 500int * 100_000_000_000,
        fixed_value(0, 32767) == 0,
        fixed_value((-32768) * 500, 32767) < (-500) * 100_000_000_000,
{
    let k = 100_000_000_000int;
    assert((32767 * (500 * k)) / 32767 == 500 * k) by {
        vstd::arithmetic::div_mod::lemma_div_multiples_vanish(500 * k, 32767);
    }
    assert(32767 * 500 * k == 32767 * (500 * k)) by (nonlinear_arith);
    assert((16384000 * k) / 32767 > 500 * k) by {
        assert(16384000int * k == 1638400000000000000);
        assert(1638400000000000000int == 32767 * 50001525925473 + 26209);
        vstd::arithmetic::div_mod::lemma_fundamental_div_mod_converse_div(
            1638400000000000000,
            32767,
            50001525925473,
            26209,
        );
    }
}

} // verus!
