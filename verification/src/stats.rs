//! Statistics over a batch of probe results.
//!
//! Latency batches yield loss, minimum, average, maximum and mean deviation,
//! all in whole nanoseconds. Throughput batches yield the time-weighted
//! aggregate (total bytes over total time) and the slowest and fastest run,
//! compared by cross-multiplication so that no division is needed.

use crate::{Elapsed, Measurement};
use vstd::prelude::*;

verus! {

/// The nanoseconds a measurement of either shape carries.
pub open spec fn nanos_of(m: Measurement) -> int {
    match m {
        Measurement::Time(t) => t.nanos as int,
        Measurement::Speed(_, t) => t.nanos as int,
    }
}

/// The bytes a measurement carries; a latency carries none.
pub open spec fn bytes_of(m: Measurement) -> int {
    match m {
        Measurement::Time(_) => 0,
        Measurement::Speed(b, _) => b as int,
    }
}

/// Every measurement is a latency.
pub open spec fn all_time(ms: Seq<Measurement>) -> bool {
    forall|i: int| 0 <= i < ms.len() ==> #[trigger] ms[i] is Time
}

/// Every measurement is a throughput.
pub open spec fn all_speed(ms: Seq<Measurement>) -> bool {
    forall|i: int| 0 <= i < ms.len() ==> #[trigger] ms[i] is Speed
}

/// All measurements have one shape.
pub open spec fn same_shaped(ms: Seq<Measurement>) -> bool {
    all_time(ms) || all_speed(ms)
}

/// Sum of the nanoseconds of all measurements.
pub open spec fn total_nanos(ms: Seq<Measurement>) -> int
    decreases ms.len(),
{
    if ms.len() == 0 {
        0
    } else {
        total_nanos(ms.drop_last()) + nanos_of(ms.last())
    }
}

/// Sum of the bytes of all measurements.
pub open spec fn total_bytes(ms: Seq<Measurement>) -> int
    decreases ms.len(),
{
    if ms.len() == 0 {
        0
    } else {
        total_bytes(ms.drop_last()) + bytes_of(ms.last())
    }
}

/// Sum over all measurements of the squared distance of their time from `center`.
pub open spec fn squared_deviations(ms: Seq<Measurement>, center: int) -> int
    decreases ms.len(),
{
    if ms.len() == 0 {
        0
    } else {
        squared_deviations(ms.drop_last(), center) + (nanos_of(ms.last()) - center) * (nanos_of(
            ms.last(),
        ) - center)
    }
}

/// `r` is the square root of `x`, rounded down.
pub open spec fn is_floor_sqrt(x: int, r: int) -> bool {
    0 <= r && r * r <= x < (r + 1) * (r + 1)
}

/// `t` is the time of some measurement and no measurement has a smaller one.
pub open spec fn is_least_time(ms: Seq<Measurement>, t: int) -> bool {
    &&& exists|i: int| 0 <= i < ms.len() && nanos_of(#[trigger] ms[i]) == t
    &&& forall|i: int| 0 <= i < ms.len() ==> t <= nanos_of(#[trigger] ms[i])
}

/// `t` is the time of some measurement and no measurement has a larger one.
pub open spec fn is_greatest_time(ms: Seq<Measurement>, t: int) -> bool {
    &&& exists|i: int| 0 <= i < ms.len() && nanos_of(#[trigger] ms[i]) == t
    &&& forall|i: int| 0 <= i < ms.len() ==> t >= nanos_of(#[trigger] ms[i])
}

/// Run `a` moved its bytes at a strictly lower rate than run `b`:
/// `a.bytes / a.time < b.bytes / b.time`, cross-multiplied.
pub open spec fn is_slower(a: Measurement, b: Measurement) -> bool {
    bytes_of(a) * nanos_of(b) < bytes_of(b) * nanos_of(a)
}

/// The slowest run: the first among those that no other run is slower than.
pub open spec fn slowest_of(ms: Seq<Measurement>) -> Measurement
    recommends
        ms.len() > 0,
    decreases ms.len(),
{
    if ms.len() <= 1 {
        ms[0]
    } else {
        let best = slowest_of(ms.drop_last());
        if is_slower(ms.last(), best) {
            ms.last()
        } else {
            best
        }
    }
}

/// The fastest run: the last among those that are slower than no other run.
pub open spec fn fastest_of(ms: Seq<Measurement>) -> Measurement
    recommends
        ms.len() > 0,
    decreases ms.len(),
{
    if ms.len() <= 1 {
        ms[0]
    } else {
        let best = fastest_of(ms.drop_last());
        if is_slower(ms.last(), best) {
            best
        } else {
            ms.last()
        }
    }
}

/// Loss, extremes, average and mean deviation of a batch of latencies.
#[derive(Clone, Copy, Debug, PartialEq, Eq, Structural)]
pub struct TimeSummary {
    /// Probes sent: those that succeeded and those that failed.
    pub transmitted: u128,
    /// Probes that produced a measurement.
    pub received: usize,
    /// Probes that failed.
    pub lost: usize,
    /// Sum of all measured times, in nanoseconds.
    pub total: u128,
    pub min: Elapsed,
    pub avg: Elapsed,
    pub max: Elapsed,
    /// Square root of the mean squared distance from the average.
    pub mdev: Elapsed,
}

/// One throughput run: bytes moved and the time it took.
#[derive(Clone, Copy, Debug, PartialEq, Eq, Structural)]
pub struct Transfer {
    pub bytes: usize,
    pub time: Elapsed,
}

/// Aggregate and extremes of a batch of throughput runs.
#[derive(Clone, Copy, Debug, PartialEq, Eq, Structural)]
pub struct SpeedSummary {
    /// Bytes moved by all runs together.
    pub total_bytes: u128,
    /// Nanoseconds taken by all runs together.
    pub total_nanos: u128,
    pub slowest: Transfer,
    pub fastest: Transfer,
}

/// What a batch of results amounts to.
#[derive(Clone, Copy, Debug, PartialEq, Eq, Structural)]
pub enum Summary {
    /// No probe succeeded: there is nothing to compute.
    AllFailed,
    Time(TimeSummary),
    Speed(SpeedSummary),
}

/// `s` is the summary of the latencies `ms` with `failures` failed probes.
pub open spec fn is_time_summary(ms: Seq<Measurement>, failures: int, s: TimeSummary) -> bool {
    &&& s.received == ms.len()
    &&& s.lost == failures
    &&& s.transmitted == ms.len() + failures
    &&& s.total == total_nanos(ms)
    &&& is_least_time(ms, s.min.nanos as int)
    &&& is_greatest_time(ms, s.max.nanos as int)
    &&& s.avg.nanos == total_nanos(ms) / (ms.len() as int)
    &&& is_floor_sqrt(
        squared_deviations(ms, s.avg.nanos as int) / (ms.len() as int),
        s.mdev.nanos as int,
    )
}

/// `t` holds the bytes and the time of `m`.
pub open spec fn transfer_is(t: Transfer, m: Measurement) -> bool {
    t.bytes == bytes_of(m) && t.time.nanos == nanos_of(m)
}

/// `s` is the summary of the throughput runs `ms`.
pub open spec fn is_speed_summary(ms: Seq<Measurement>, s: SpeedSummary) -> bool {
    &&& s.total_bytes == total_bytes(ms)
    &&& s.total_nanos == total_nanos(ms)
    &&& transfer_is(s.slowest, slowest_of(ms))
    &&& transfer_is(s.fastest, fastest_of(ms))
}

/// `s` is what the results `ms` and `failures` failed probes amount to.
pub open spec fn is_summary(ms: Seq<Measurement>, failures: int, s: Summary) -> bool {
    if ms.len() == 0 {
        s is AllFailed
    } else if ms[0] is Time {
        s matches Summary::Time(t) && is_time_summary(ms, failures, t)
    } else {
        s matches Summary::Speed(p) && is_speed_summary(ms, p)
    }
}

proof fn lemma_take_step(ms: Seq<Measurement>, i: int)
    requires
        0 <= i < ms.len(),
    ensures
        ms.take(i + 1).drop_last() == ms.take(i),
        ms.take(i + 1).last() == ms[i],
{
    assert(ms.take(i + 1).drop_last() =~= ms.take(i));
}

proof fn lemma_totals_bounded(ms: Seq<Measurement>)
    ensures
        0 <= total_nanos(ms) <= ms.len() * u64::MAX,
        0 <= total_bytes(ms) <= ms.len() * usize::MAX,
    decreases ms.len(),
{
    if ms.len() > 0 {
        lemma_totals_bounded(ms.drop_last());
    }
}

/// The square root of `x`, rounded down.
pub fn integer_sqrt(x: u128) -> (r: u64)
    ensures
        is_floor_sqrt(x as int, r as int),
{
    let mut lo: u128 = 0;
    let mut hi: u128 = 0x1_0000_0000_0000_0000;
    while hi - lo > 1
        invariant
            lo < hi <= 0x1_0000_0000_0000_0000,
            lo * lo <= x < hi * hi,
        decreases hi - lo,
    {
        let mid = lo + (hi - lo) / 2;
        assert(mid * mid <= 0xFFFF_FFFF_FFFF_FFFF * 0xFFFF_FFFF_FFFF_FFFF) by (nonlinear_arith)
            requires
                0 <= mid <= 0xFFFF_FFFF_FFFF_FFFF,
        ;
        if mid * mid <= x {
            lo = mid;
        } else {
            hi = mid;
        }
    }
    lo as u64
}

/// Whether every result has the shape of the first.
pub fn is_same_shaped(results: &Vec<Measurement>) -> (b: bool)
    ensures
        b == same_shaped(results@),
{
    let n = results.len();
    if n == 0 {
        return true;
    }
    let first_is_time = match results[0] {
        Measurement::Time(_) => true,
        Measurement::Speed(_, _) => false,
    };
    let mut i: usize = 1;
    while i < n
        invariant
            1 <= i <= n,
            n == results@.len(),
            first_is_time == (results@[0] is Time),
            forall|j: int| 0 <= j < i ==> (#[trigger] results@[j] is Time) == first_is_time,
        decreases n - i,
    {
        let is_time = match results[i] {
            Measurement::Time(_) => true,
            Measurement::Speed(_, _) => false,
        };
        if is_time != first_is_time {
            assert(!(results@[i as int] is Time) || !(results@[0] is Time));
            assert(!(results@[i as int] is Speed) || !(results@[0] is Speed));
            return false;
        }
        i += 1;
    }
    true
}

/// Summary of a non-empty batch of latencies, `failures` further probes having failed.
pub fn summarize_times(results: &Vec<Measurement>, failures: usize) -> (s: TimeSummary)
    requires
        results@.len() > 0,
        all_time(results@),
    ensures
        is_time_summary(results@, failures as int, s),
{
    let n = results.len();
    let mut total: u128 = 0;
    let mut min: u64 = u64::MAX;
    let mut max: u64 = 0;
    let mut i: usize = 0;
    while i < n
        invariant
            0 <= i <= n,
            n == results@.len(),
            all_time(results@),
            total == total_nanos(results@.take(i as int)),
            total <= i * u64::MAX,
            forall|j: int| 0 <= j < i ==> min <= nanos_of(#[trigger] results@[j]) <= max,
            i > 0 ==> exists|j: int| 0 <= j < i && nanos_of(#[trigger] results@[j]) == min,
            i > 0 ==> exists|j: int| 0 <= j < i && nanos_of(#[trigger] results@[j]) == max,
        decreases n - i,
    {
        let t = time_nanos(&results[i]);
        proof {
            lemma_take_step(results@, i as int);
        }
        total = total + t as u128;
        if i == 0 || t < min {
            min = t;
        }
        if i == 0 || t > max {
            max = t;
        }
        i += 1;
    }
    assert(results@.take(n as int) =~= results@);
    let received: u128 = n as u128;
    assert(total / received <= u64::MAX) by (nonlinear_arith)
        requires
            total <= received * u64::MAX,
            received > 0,
    ;
    let avg: u64 = (total / received) as u64;
    let variance = mean_squared_deviation(results, avg);
    let mdev = integer_sqrt(variance);
    TimeSummary {
        transmitted: received + failures as u128,
        received: n,
        lost: failures,
        total,
        min: Elapsed { nanos: min },
        avg: Elapsed { nanos: avg },
        max: Elapsed { nanos: max },
        mdev: Elapsed { nanos: mdev },
    }
}

fn time_nanos(m: &Measurement) -> (t: u64)
    ensures
        t == nanos_of(*m),
{
    match m {
        Measurement::Time(t) => t.nanos,
        Measurement::Speed(_, t) => t.nanos,
    }
}

fn run_bytes(m: &Measurement) -> (b: usize)
    ensures
        b == bytes_of(*m),
{
    match m {
        Measurement::Time(_) => 0,
        Measurement::Speed(b, _) => *b,
    }
}

proof fn lemma_squared_deviations_bounded(ms: Seq<Measurement>, center: int)
    requires
        0 <= center <= u64::MAX,
    ensures
        0 <= squared_deviations(ms, center) <= ms.len() * (u64::MAX * u64::MAX),
    decreases ms.len(),
{
    if ms.len() > 0 {
        lemma_squared_deviations_bounded(ms.drop_last(), center);
        let d = nanos_of(ms.last()) - center;
        assert(0 <= d * d <= u64::MAX * u64::MAX) by (nonlinear_arith)
            requires
                -(u64::MAX as int) <= d <= u64::MAX,
        ;
    }
}

/// The mean of the squared distances from `center`, rounded down. Quotient and
/// remainder are carried apart, so that the sum of squares is never formed.
fn mean_squared_deviation(results: &Vec<Measurement>, center: u64) -> (v: u128)
    requires
        results@.len() > 0,
    ensures
        v == squared_deviations(results@, center as int) / (results@.len() as int),
{
    let n = results.len();
    let count: u128 = n as u128;
    let mut quot: u128 = 0;
    let mut rem: u128 = 0;
    let mut i: usize = 0;
    while i < n
        invariant
            0 <= i <= n,
            n == results@.len(),
            count == n,
            count > 0,
            0 <= rem < count,
            squared_deviations(results@.take(i as int), center as int) == count * quot + rem,
        decreases n - i,
    {
        let t = time_nanos(&results[i]);
        let d: u128 = if t >= center {
            (t - center) as u128
        } else {
            (center - t) as u128
        };
        assert(d * d <= u64::MAX * u64::MAX) by (nonlinear_arith)
            requires
                0 <= d <= u64::MAX,
        ;
        let sq: u128 = d * d;
        let ghost before = squared_deviations(results@.take(i as int), center as int);
        let ghost after = squared_deviations(results@.take(i + 1), center as int);
        proof {
            lemma_take_step(results@, i as int);
            assert(sq == (t - center) * (t - center)) by (nonlinear_arith)
                requires
                    sq == d * d,
                    d == t - center || d == center - t,
            ;
            assert(after == before + sq);
            lemma_squared_deviations_bounded(results@.take(i + 1), center as int);
            assert((i + 1) * (u64::MAX * u64::MAX) <= count * (u64::MAX * u64::MAX))
                by (nonlinear_arith)
                requires
                    i + 1 <= count,
            ;
            vstd::arithmetic::div_mod::lemma_fundamental_div_mod(sq as int, count as int);
        }
        let a = sq / count;
        let b = sq % count;
        let carry: u128 = if rem + b >= count {
            1
        } else {
            0
        };
        assert(after == count * (quot + a + carry) + (rem + b - carry * count)) by (nonlinear_arith)
            requires
                after == before + sq,
                before == count * quot + rem,
                sq == count * a + b,
        ;
        assert(quot + a + carry <= u64::MAX * u64::MAX) by (nonlinear_arith)
            requires
                after == count * (quot + a + carry) + (rem + b - carry * count),
                after <= count * (u64::MAX * u64::MAX),
                rem + b - carry * count >= 0,
                count > 0,
        ;
        quot = quot + a + carry;
        rem = rem + b - carry * count;
        i += 1;
    }
    proof {
        assert(results@.take(n as int) =~= results@);
        vstd::arithmetic::div_mod::lemma_fundamental_div_mod_converse(
            squared_deviations(results@, center as int),
            count as int,
            quot as int,
            rem as int,
        );
    }
    quot
}

/// Whether a run of `a_bytes` in `a_nanos` is slower than one of `b_bytes` in `b_nanos`.
fn slower(a: &Measurement, b: &Measurement) -> (r: bool)
    ensures
        r == is_slower(*a, *b),
{
    let ab = run_bytes(a) as u128;
    let at = time_nanos(a) as u128;
    let bb = run_bytes(b) as u128;
    let bt = time_nanos(b) as u128;
    assert(ab * bt <= u64::MAX * u64::MAX) by (nonlinear_arith)
        requires
            0 <= ab <= u64::MAX,
            0 <= bt <= u64::MAX,
    ;
    assert(bb * at <= u64::MAX * u64::MAX) by (nonlinear_arith)
        requires
            0 <= bb <= u64::MAX,
            0 <= at <= u64::MAX,
    ;
    ab * bt < bb * at
}

/// Summary of a non-empty batch of throughput runs.
pub fn summarize_speeds(results: &Vec<Measurement>) -> (s: SpeedSummary)
    requires
        results@.len() > 0,
        all_speed(results@),
    ensures
        is_speed_summary(results@, s),
{
    let n = results.len();
    let mut bytes: u128 = run_bytes(&results[0]) as u128;
    let mut nanos: u128 = time_nanos(&results[0]) as u128;
    let mut slowest: Measurement = results[0];
    let mut fastest: Measurement = results[0];
    let mut i: usize = 1;
    proof {
        lemma_take_step(results@, 0);
        assert(total_bytes(results@.take(0)) == 0);
        assert(total_nanos(results@.take(0)) == 0);
    }
    while i < n
        invariant
            1 <= i <= n,
            n == results@.len(),
            bytes == total_bytes(results@.take(i as int)),
            nanos == total_nanos(results@.take(i as int)),
            slowest == slowest_of(results@.take(i as int)),
            fastest == fastest_of(results@.take(i as int)),
        decreases n - i,
    {
        let m = results[i];
        proof {
            lemma_take_step(results@, i as int);
            lemma_totals_bounded(results@.take(i + 1));
        }
        bytes = bytes + run_bytes(&m) as u128;
        nanos = nanos + time_nanos(&m) as u128;
        if slower(&m, &slowest) {
            slowest = m;
        }
        if !slower(&m, &fastest) {
            fastest = m;
        }
        i += 1;
    }
    assert(results@.take(n as int) =~= results@);
    SpeedSummary {
        total_bytes: bytes,
        total_nanos: nanos,
        slowest: Transfer { bytes: run_bytes(&slowest), time: Elapsed { nanos: time_nanos(&slowest) } },
        fastest: Transfer { bytes: run_bytes(&fastest), time: Elapsed { nanos: time_nanos(&fastest) } },
    }
}

/// What the successful results and the count of failed probes amount to.
/// A batch without a single success is reported as such; nothing is computed.
pub fn summarize(results: &Vec<Measurement>, failures: usize) -> (s: Summary)
    requires
        same_shaped(results@),
    ensures
        is_summary(results@, failures as int, s),
{
    if results.len() == 0 {
        return Summary::AllFailed;
    }
    match results[0] {
        Measurement::Time(_) => {
            assert(results@[0] is Time);
            Summary::Time(summarize_times(results, failures))
        },
        Measurement::Speed(_, _) => {
            assert(results@[0] is Speed);
            Summary::Speed(summarize_speeds(results))
        },
    }
}

/// Bits per millisecond, rounded down, of `bytes` moved in `nanos`: the rate in
/// kilobits per second. There is none where no time has passed or where the
/// bit count leaves the range of the machine's integers.
pub fn kilobits_per_second(bytes: u128, nanos: u128) -> (rate: Option<u128>)
    ensures
        rate is Some <==> nanos > 0 && bytes * 8_000_000 <= u128::MAX,
        rate matches Some(r) ==> r == (bytes * 8_000_000) / (nanos as int),
{
    if nanos == 0 {
        return None;
    }
    match bytes.checked_mul(8_000_000) {
        Some(bits) => Some(bits / nanos),
        None => None,
    }
}

impl Transfer {
    /// The rate of the run in kilobits per second, rounded down.
    pub fn rate(&self) -> (rate: Option<u128>)
        ensures
            rate is Some <==> self.time.nanos > 0,
            rate matches Some(r) ==> r == (self.bytes * 8_000_000) / (self.time.nanos as int),
    {
        kilobits_per_second(self.bytes as u128, self.time.nanos as u128)
    }
}

impl SpeedSummary {
    /// The rate of all runs together in kilobits per second, rounded down: all
    /// their bits over all their time, so that a run weighs as long as it took.
    pub fn aggregate_rate(&self) -> (rate: Option<u128>)
        ensures
            rate is Some <==> self.total_nanos > 0 && self.total_bytes * 8_000_000 <= u128::MAX,
            rate matches Some(r) ==> r == (self.total_bytes * 8_000_000) / (
            self.total_nanos as int),
    {
        kilobits_per_second(self.total_bytes, self.total_nanos)
    }
}

impl TimeSummary {
    /// Lost probes per ten thousand sent, rounded down: the loss in hundredths
    /// of a percent.
    pub fn loss_basis_points(&self) -> (loss: u128)
        ensures
            loss == if self.transmitted == 0 {
                0
            } else {
                (10000 * self.lost) / (self.transmitted as int)
            },
    {
        if self.transmitted == 0 {
            0
        } else {
            (10000 * (self.lost as u128)) / self.transmitted
        }
    }
}

/// A number has one rounded-down square root.
pub proof fn lemma_floor_sqrt_unique(x: int, r1: int, r2: int)
    requires
        is_floor_sqrt(x, r1),
        is_floor_sqrt(x, r2),
    ensures
        r1 == r2,
{
    if r1 < r2 {
        assert((r1 + 1) * (r1 + 1) <= r2 * r2) by (nonlinear_arith)
            requires
                0 <= r1 && r1 + 1 <= r2,
        ;
    }
    if r2 < r1 {
        assert((r2 + 1) * (r2 + 1) <= r1 * r1) by (nonlinear_arith)
            requires
                0 <= r2 && r2 + 1 <= r1,
        ;
    }
}

proof fn lemma_totals_remove(s: Seq<Measurement>, k: int)
    requires
        0 <= k < s.len(),
    ensures
        total_bytes(s) == total_bytes(s.remove(k)) + bytes_of(s[k]),
        total_nanos(s) == total_nanos(s.remove(k)) + nanos_of(s[k]),
    decreases s.len(),
{
    if k == s.len() - 1 {
        assert(s.remove(k) =~= s.drop_last());
    } else {
        lemma_totals_remove(s.drop_last(), k);
        assert(s.remove(k).drop_last() =~= s.drop_last().remove(k));
        assert(s.remove(k).last() == s.last());
    }
}

/// The aggregate of a batch does not depend on the order of its runs: two
/// batches that hold the same runs, each as often as the other, have the same
/// total of bytes and the same total of time.
pub proof fn lemma_totals_ignore_order(a: Seq<Measurement>, b: Seq<Measurement>)
    requires
        a.to_multiset() == b.to_multiset(),
    ensures
        total_bytes(a) == total_bytes(b),
        total_nanos(a) == total_nanos(b),
    decreases a.len(),
{
    broadcast use vstd::seq_lib::group_to_multiset_ensures;

    a.to_multiset_ensures();
    b.to_multiset_ensures();
    assert(a.len() == b.len());
    if a.len() > 0 {
        let x = a.last();
        let a1 = a.drop_last();
        assert(a =~= a1.push(x));
        assert(a.to_multiset() =~= a1.to_multiset().insert(x));
        assert(b.to_multiset().count(x) > 0);
        assert(b.contains(x));
        let k = choose|k: int| 0 <= k < b.len() && b[k] == x;
        let b1 = b.remove(k);
        assert(b1.to_multiset() =~= b.to_multiset().remove(x));
        assert(a1.to_multiset() =~= b1.to_multiset());
        lemma_totals_ignore_order(a1, b1);
        lemma_totals_remove(b, k);
    }
}

/// Both extremes are runs of the batch.
pub proof fn lemma_extremes_are_members(ms: Seq<Measurement>)
    requires
        ms.len() > 0,
    ensures
        ms.contains(slowest_of(ms)),
        ms.contains(fastest_of(ms)),
    decreases ms.len(),
{
    if ms.len() > 1 {
        let init = ms.drop_last();
        lemma_extremes_are_members(init);
        let s = choose|i: int| 0 <= i < init.len() && init[i] == slowest_of(init);
        let f = choose|i: int| 0 <= i < init.len() && init[i] == fastest_of(init);
        assert(ms[s] == init[s]);
        assert(ms[f] == init[f]);
        assert(ms[ms.len() - 1] == ms.last());
    } else {
        assert(ms[0] == slowest_of(ms));
    }
}

proof fn lemma_rate_order_transitive(a: Measurement, b: Measurement, c: Measurement)
    requires
        nanos_of(a) > 0,
        nanos_of(b) > 0,
        nanos_of(c) > 0,
        !is_slower(b, a),
        !is_slower(c, b),
    ensures
        !is_slower(c, a),
{
    let (ab, at) = (bytes_of(a), nanos_of(a));
    let (bb, bt) = (bytes_of(b), nanos_of(b));
    let (cb, ct) = (bytes_of(c), nanos_of(c));
    assert(ab * ct <= cb * at) by (nonlinear_arith)
        requires
            at > 0,
            bt > 0,
            ct > 0,
            ab >= 0,
            bb >= 0,
            cb >= 0,
            ab * bt <= bb * at,
            bb * ct <= cb * bt,
    {
        assert((ab * bt) * ct <= (bb * at) * ct);
        assert((bb * ct) * at <= (cb * bt) * at);
        assert((ab * ct) * bt <= (cb * at) * bt);
    }
}

/// Where every run took some time, no run is slower than the slowest and the
/// fastest is slower than none.
pub proof fn lemma_extremes_bound_every_run(ms: Seq<Measurement>, j: int)
    requires
        0 <= j < ms.len(),
        forall|i: int| 0 <= i < ms.len() ==> nanos_of(#[trigger] ms[i]) > 0,
    ensures
        !is_slower(ms[j], slowest_of(ms)),
        !is_slower(fastest_of(ms), ms[j]),
    decreases ms.len(),
{
    if ms.len() > 1 {
        let init = ms.drop_last();
        let last = ms.last();
        lemma_extremes_are_members(init);
        lemma_extremes_are_members(ms);
        assert forall|i: int| 0 <= i < init.len() implies nanos_of(#[trigger] init[i]) > 0 by {
            assert(init[i] == ms[i]);
        }
        let s0 = slowest_of(init);
        let f0 = fastest_of(init);
        if j < init.len() {
            lemma_extremes_bound_every_run(init, j);
            assert(init[j] == ms[j]);
            if is_slower(last, s0) {
                lemma_rate_order_transitive(last, s0, ms[j]);
            }
            if !is_slower(last, f0) {
                lemma_rate_order_transitive(ms[j], f0, last);
            }
        }
    }
}

} // verus!
