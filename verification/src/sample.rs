//! The decoded in-memory representation of one IMU reading, and
//! aggregation (per-field averaging) over a window of readings.

use vstd::prelude::*;

verus! {

/// One raw flight-data sample: six signed 16-bit axis counts
/// (accelerometer and gyroscope) plus the firmware-reported
/// elapsed-time field `dt`.
#[derive(Clone, Copy, Debug, PartialEq, Eq, Structural)]
pub struct RawFlightData {
    pub ac_x: i16,
    pub ac_y: i16,
    pub ac_z: i16,
    pub gy_x: i16,
    pub gy_y: i16,
    pub gy_z: i16,
    pub dt: u64,
}

/// The sum of `f` over a window of samples.
pub open spec fn sum_by(s: Seq<RawFlightData>, f: spec_fn(RawFlightData) -> int) -> int
    decreases s.len(),
{
    if s.len() == 0 {
        0
    } else {
        sum_by(s.drop_last(), f) + f(s.last())
    }
}

/// The sum of the `dt` fields over a window of samples.
pub open spec fn spec_sum_dt(s: Seq<RawFlightData>) -> int {
    sum_by(s, |d: RawFlightData| d.dt as int)
}

/// Integer division truncating toward zero, for a positive divisor.
pub open spec fn div_trunc(a: int, n: int) -> int
    recommends
        n > 0,
{
    if a >= 0 {
        a / n
    } else {
        -((-a) / n)
    }
}

proof fn lemma_sum_by_step(s: Seq<RawFlightData>, f: spec_fn(RawFlightData) -> int, i: int)
    requires
        0 <= i < s.len(),
    ensures
        sum_by(s.take(i + 1), f) == sum_by(s.take(i), f) + f(s[i]),
{
    assert(s.take(i + 1).drop_last() =~= s.take(i));
    assert(s.take(i + 1).last() == s[i]);
}

proof fn lemma_sum_axis_bounds(s: Seq<RawFlightData>, f: spec_fn(RawFlightData) -> int)
    requires
        forall|j: int| 0 <= j < s.len() ==> -32768 <= #[trigger] f(s[j]) <= 32767,
    ensures
        -32768 * s.len() <= sum_by(s, f) <= 32767 * s.len(),
    decreases s.len(),
{
    if s.len() > 0 {
        assert forall|j: int| 0 <= j < s.drop_last().len() implies -32768 <= #[trigger] f(
            s.drop_last()[j],
        ) <= 32767 by {
            assert(s.drop_last()[j] == s[j]);
        }
        lemma_sum_axis_bounds(s.drop_last(), f);
        assert(f(s.last()) == f(s[s.len() - 1]));
    }
}

proof fn lemma_sum_dt_prefix(s: Seq<RawFlightData>, i: int)
    requires
        0 <= i <= s.len(),
    ensures
        0 <= spec_sum_dt(s.take(i)) <= spec_sum_dt(s),
    decreases s.len(),
{
    let f = |d: RawFlightData| d.dt as int;
    if i == s.len() {
        assert(s.take(i) =~= s);
        lemma_sum_dt_prefix_nonneg(s);
    } else {
        assert(s.take(i) =~= s.drop_last().take(i));
        lemma_sum_dt_prefix(s.drop_last(), i);
        assert(f(s.last()) >= 0);
    }
}

proof fn lemma_sum_dt_prefix_nonneg(s: Seq<RawFlightData>)
    ensures
        spec_sum_dt(s) >= 0,
    decreases s.len(),
{
    if s.len() > 0 {
        lemma_sum_dt_prefix_nonneg(s.drop_last());
    }
}

/// Truncating division of one accumulated axis sum by the window length.
fn div_trunc_axis(sum: i128, n: usize) -> (q: i16)
    requires
        n > 0,
        -32768 * (n as int) <= sum <= 32767 * (n as int),
    ensures
        q as int == div_trunc(sum as int, n as int),
{
    let nw = n as u128;
    if sum >= 0 {
        let mag = sum as u128;
        let quot = mag / nw;
        proof {
            assert(quot <= 32767) by (nonlinear_arith)
                requires
                    nw > 0,
                    mag <= 32767 * nw,
                    quot == mag / nw,
            ;
        }
        quot as i16
    } else {
        let mag = (-sum) as u128;
        let quot = mag / nw;
        proof {
            assert(quot <= 32768) by (nonlinear_arith)
                requires
                    nw > 0,
                    mag <= 32768 * nw,
                    quot == mag / nw,
            ;
        }
        -(quot as i32) as i16
    }
}

/// Per-field arithmetic mean over a non-empty window of samples: each of
/// the six axis fields is the truncating (toward zero) integer mean, and
/// `dt` is the sum — not the mean — across the window.
///
/// The only precondition beyond non-emptiness is that the summed `dt`
/// fits the 64-bit field of the result.
#[verifier::loop_isolation(false)]
pub fn average(samples: &Vec<RawFlightData>) -> (r: RawFlightData)
    requires
        samples@.len() > 0,
        spec_sum_dt(samples@) <= u64::MAX,
    ensures
        r.ac_x as int == div_trunc(sum_by(samples@, |d: RawFlightData| d.ac_x as int), samples@.len() as int),
        r.ac_y as int == div_trunc(sum_by(samples@, |d: RawFlightData| d.ac_y as int), samples@.len() as int),
        r.ac_z as int == div_trunc(sum_by(samples@, |d: RawFlightData| d.ac_z as int), samples@.len() as int),
        r.gy_x as int == div_trunc(sum_by(samples@, |d: RawFlightData| d.gy_x as int), samples@.len() as int),
        r.gy_y as int == div_trunc(sum_by(samples@, |d: RawFlightData| d.gy_y as int), samples@.len() as int),
        r.gy_z as int == div_trunc(sum_by(samples@, |d: RawFlightData| d.gy_z as int), samples@.len() as int),
        r.dt as int == spec_sum_dt(samples@),
{
    let ghost fax = |d: RawFlightData| d.ac_x as int;
    let ghost fay = |d: RawFlightData| d.ac_y as int;
    let ghost faz = |d: RawFlightData| d.ac_z as int;
    let ghost fgx = |d: RawFlightData| d.gy_x as int;
    let ghost fgy = |d: RawFlightData| d.gy_y as int;
    let ghost fgz = |d: RawFlightData| d.gy_z as int;
    let ghost fdt = |d: RawFlightData| d.dt as int;
    let n = samples.len();
    let mut sax: i128 = 0;
    let mut say: i128 = 0;
    let mut saz: i128 = 0;
    let mut sgx: i128 = 0;
    let mut sgy: i128 = 0;
    let mut sgz: i128 = 0;
    let mut sdt: u128 = 0;
    proof {
        lemma_sum_dt_prefix_nonneg(samples@);
    }
    let mut i: usize = 0;
    while i < n
        invariant
            0 <= i <= n,
            sax == sum_by(samples@.take(i as int), fax),
            say == sum_by(samples@.take(i as int), fay),
            saz == sum_by(samples@.take(i as int), faz),
            sgx == sum_by(samples@.take(i as int), fgx),
            sgy == sum_by(samples@.take(i as int), fgy),
            sgz == sum_by(samples@.take(i as int), fgz),
            sdt == sum_by(samples@.take(i as int), fdt),
            -32768 * (i as int) <= sax <= 32767 * (i as int),
            -32768 * (i as int) <= say <= 32767 * (i as int),
            -32768 * (i as int) <= saz <= 32767 * (i as int),
            -32768 * (i as int) <= sgx <= 32767 * (i as int),
            -32768 * (i as int) <= sgy <= 32767 * (i as int),
            -32768 * (i as int) <= sgz <= 32767 * (i as int),
            0 <= sdt <= spec_sum_dt(samples@),
        decreases n - i,
    {
        let d = samples[i];
        proof {
            lemma_sum_by_step(samples@, fax, i as int);
            lemma_sum_by_step(samples@, fay, i as int);
            lemma_sum_by_step(samples@, faz, i as int);
            lemma_sum_by_step(samples@, fgx, i as int);
            lemma_sum_by_step(samples@, fgy, i as int);
            lemma_sum_by_step(samples@, fgz, i as int);
            lemma_sum_by_step(samples@, fdt, i as int);
            lemma_sum_dt_prefix(samples@, i as int + 1);
        }
        sax = sax + d.ac_x as i128;
        say = say + d.ac_y as i128;
        saz = saz + d.ac_z as i128;
        sgx = sgx + d.gy_x as i128;
        sgy = sgy + d.gy_y as i128;
        sgz = sgz + d.gy_z as i128;
        sdt = sdt + d.dt as u128;
        i = i + 1;
    }
    proof {
        assert(samples@.take(n as int) =~= samples@);
    }
    RawFlightData {
        ac_x: div_trunc_axis(sax, n),
        ac_y: div_trunc_axis(say, n),
        ac_z: div_trunc_axis(saz, n),
        gy_x: div_trunc_axis(sgx, n),
        gy_y: div_trunc_axis(sgy, n),
        gy_z: div_trunc_axis(sgz, n),
        dt: sdt as u64,
    }
}

} // verus!
