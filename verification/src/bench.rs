//! Helpers for measuring the framework: payloads of three sizes, latency
//! statistics and a throughput counter. Latencies are kept in nanoseconds.
use vstd::prelude::*;
use std::time::Instant;

verus! {

/// Declares `std::time::Instant`, which is carried through opaquely.
#[verifier::external_type_specification]
#[verifier::external_body]
pub struct ExInstant(Instant);

/// Calls `std::time::Instant::now`; what time it gives is not stated.
#[verifier::external_body]
fn instant_now() -> Instant {
    Instant::now()
}

/// Payload size categories.
#[derive(Debug)]
pub enum PayloadSize {
    /// 1 to 100 bytes.
    Small,
    /// 1 to 10 KB.
    Medium,
    /// 100 KB to 1 MB.
    Large,
}

/// Number of bytes in a medium payload and in each item of a large one.
pub const MEDIUM_PAYLOAD_LEN: usize = 5120;

/// Number of items in a large payload.
pub const LARGE_PAYLOAD_ITEMS: usize = 100;

/// The bytes 0, 1, ..., 255, 0, 1, ... up to `len` bytes.
pub open spec fn is_byte_ramp(v: Seq<u8>, len: nat) -> bool {
    &&& v.len() == len
    &&& forall|i: int| 0 <= i < len ==> #[trigger] v[i] == (i % 256) as u8
}

/// A short text payload.
pub fn generate_small_payload() -> (s: String)
    ensures
        s@ == "Hello, World! This is a small payload for benchmarking."@,
{
    "Hello, World! This is a small payload for benchmarking.".to_owned()
}

/// 5120 bytes counting up modulo 256.
pub fn generate_medium_payload() -> (v: Vec<u8>)
    ensures
        is_byte_ramp(v@, MEDIUM_PAYLOAD_LEN as nat),
{
    let mut v: Vec<u8> = Vec::with_capacity(MEDIUM_PAYLOAD_LEN);
    let mut i: usize = 0;
    while i < MEDIUM_PAYLOAD_LEN
        invariant
            i <= MEDIUM_PAYLOAD_LEN,
            is_byte_ramp(v@, i as nat),
        decreases MEDIUM_PAYLOAD_LEN - i,
    {
        v.push((i % 256) as u8);
        i = i + 1;
    }
    v
}

/// 100 items of 5120 bytes counting up modulo 256, and a line of metadata.
pub fn generate_large_payload() -> (p: (Vec<Vec<u8>>, String))
    ensures
        p.0@.len() == LARGE_PAYLOAD_ITEMS,
        forall|i: int| 0 <= i < LARGE_PAYLOAD_ITEMS ==> is_byte_ramp(#[trigger] p.0@[i]@, MEDIUM_PAYLOAD_LEN as nat),
        p.1@ == "Large payload metadata for benchmarking"@,
{
    let mut items: Vec<Vec<u8>> = Vec::new();
    let mut k: usize = 0;
    while k < LARGE_PAYLOAD_ITEMS
        invariant
            k <= LARGE_PAYLOAD_ITEMS,
            items@.len() == k,
            forall|i: int| 0 <= i < k ==> is_byte_ramp(#[trigger] items@[i]@, MEDIUM_PAYLOAD_LEN as nat),
        decreases LARGE_PAYLOAD_ITEMS - k,
    {
        items.push(generate_medium_payload());
        k = k + 1;
    }
    (items, "Large payload metadata for benchmarking".to_owned())
}

/// Nanoseconds in the longest `std::time::Duration`.
pub const MAX_DURATION_NANOS: u128 = 18446744073709551615999999999;

/// Sum of a sequence of latencies.
pub open spec fn total(s: Seq<u128>) -> int
    decreases s.len(),
{
    if s.len() == 0 {
        0
    } else {
        total(s.drop_last()) + s.last()
    }
}

proof fn lemma_total_prefix(s: Seq<u128>, i: int)
    requires
        0 <= i <= s.len(),
    ensures
        total(s.take(i)) <= total(s),
    decreases s.len() - i,
{
    if i < s.len() {
        lemma_total_prefix(s, i + 1);
        assert(s.take(i + 1).drop_last() =~= s.take(i));
    } else {
        assert(s.take(i) =~= s);
    }
}

/// Taking one sample out lowers the total by that sample.
proof fn lemma_total_remove(s: Seq<u128>, j: int)
    requires
        0 <= j < s.len(),
    ensures
        total(s) == total(s.remove(j)) + s[j],
    decreases s.len(),
{
    if j == s.len() - 1 {
        assert(s.remove(j) =~= s.drop_last());
    } else {
        let init = s.drop_last();
        lemma_total_remove(init, j);
        assert(s.remove(j).drop_last() =~= init.remove(j));
        assert(s.remove(j).last() == s.last());
    }
}

/// The total does not depend on the order of the samples.
pub proof fn lemma_total_permutation(s: Seq<u128>, t: Seq<u128>)
    requires
        s.to_multiset() == t.to_multiset(),
    ensures
        total(s) == total(t),
    decreases s.len(),
{
    broadcast use vstd::seq_lib::group_to_multiset_ensures;

    if s.len() == 0 {
        assert(t.to_multiset().len() == 0);
        assert(t.len() == 0);
    } else {
        let x = s.last();
        let init = s.drop_last();
        assert(s =~= init.push(x));
        assert(s.to_multiset().count(x) > 0);
        assert(t.contains(x));
        let j = choose|j: int| 0 <= j < t.len() && t[j] == x;
        let rest = t.remove(j);
        assert(init.to_multiset() =~= rest.to_multiset()) by {
            assert(s.to_multiset() =~= init.to_multiset().insert(x));
            assert(rest.to_multiset() =~= t.to_multiset().remove(x));
        }
        lemma_total_permutation(init, rest);
        lemma_total_remove(t, j);
    }
}

/// Ascending order.
pub open spec fn sorted(s: Seq<u128>) -> bool {
    forall|i: int, j: int| 0 <= i <= j < s.len() ==> s[i] <= s[j]
}

/// The element at percentile `p` (0 to 100) of a sorted sequence: the one at
/// position `(len - 1) * p / 100`, rounded down; 0 for an empty sequence.
pub open spec fn percentile(s: Seq<u128>, p: nat) -> u128 {
    if s.len() == 0 {
        0
    } else {
        s[((s.len() - 1) * p / 100) as int]
    }
}

/// The divisor of the mean: the number of samples reduced to 32 bits.
pub open spec fn mean_divisor(len: nat) -> nat {
    len % 0x1_0000_0000
}

/// Calls `slice::sort` on the latencies: afterwards they are in ascending
/// order and are the same multiset.
#[verifier::external_body]
fn sort_latencies(v: &mut Vec<u128>)
    ensures
        sorted(final(v)@),
        final(v)@.to_multiset() == old(v)@.to_multiset(),
        final(v)@.len() == old(v)@.len(),
{
    v.sort();
}

/// The percentile `p` of sorted samples is the sample at the rank k with
/// 100 k <= (n - 1) p < 100 (k + 1), n the number of samples.
pub proof fn lemma_percentile_rank(s: Seq<u128>, p: nat, k: int)
    requires
        sorted(s),
        p <= 100,
        0 <= k < s.len(),
        100 * k <= (s.len() - 1) * p < 100 * (k + 1),
    ensures
        percentile(s, p) == s[k],
{
    let m: int = (s.len() - 1) * p;
    let q: int = m / 100;
    assert(q == k) by (nonlinear_arith)
        requires
            q == m / 100,
            100 * k <= m < 100 * (k + 1),
    ;
}

/// Of an odd number 2m + 1 of sorted samples, p50 is the middle one, s[m]:
/// m samples are at most it and m samples at least it.
pub proof fn lemma_median_of_odd(s: Seq<u128>, m: int)
    requires
        sorted(s),
        m >= 0,
        s.len() == 2 * m + 1,
    ensures
        percentile(s, 50) == s[m],
        forall|i: int| 0 <= i <= m ==> s[i] <= percentile(s, 50),
        forall|i: int| m <= i < s.len() ==> s[i] >= percentile(s, 50),
{
    lemma_percentile_rank(s, 50, m);
}

/// p0 is the smallest sample and p100 the largest.
pub proof fn lemma_percentile_extremes(s: Seq<u128>)
    requires
        sorted(s),
        s.len() > 0,
    ensures
        percentile(s, 0) == s[0],
        percentile(s, 100) == s[s.len() - 1],
        forall|i: int| 0 <= i < s.len() ==> percentile(s, 0) <= #[trigger] s[i] <= percentile(s, 100),
{
    lemma_percentile_rank(s, 0, 0);
    lemma_percentile_rank(s, 100, s.len() - 1);
}

/// Percentiles read off sorted samples do not decrease: p50 <= p95 <= p99.
pub proof fn lemma_percentiles_ordered(s: Seq<u128>)
    requires
        sorted(s),
    ensures
        percentile(s, 50) <= percentile(s, 95),
        percentile(s, 95) <= percentile(s, 99),
{
    if s.len() > 0 {
        let last: int = s.len() - 1;
        assert(0 <= last * 50 / 100 <= last * 95 / 100 <= last * 99 / 100 <= last) by (nonlinear_arith)
            requires
                last >= 0,
        ;
    }
}

proof fn lemma_total_bounds(s: Seq<u128>, lo: int, hi: int)
    requires
        forall|i: int| 0 <= i < s.len() ==> lo <= #[trigger] s[i] <= hi,
    ensures
        s.len() * lo <= total(s) <= s.len() * hi,
    decreases s.len(),
{
    if s.len() > 0 {
        let init = s.drop_last();
        assert forall|i: int| 0 <= i < init.len() implies lo <= #[trigger] init[i] <= hi by {
            assert(init[i] == s[i]);
        }
        lemma_total_bounds(init, lo, hi);
        assert(s.len() * lo == init.len() * lo + lo) by (nonlinear_arith)
            requires
                s.len() == init.len() + 1,
        ;
        assert(s.len() * hi == init.len() * hi + hi) by (nonlinear_arith)
            requires
                s.len() == init.len() + 1,
        ;
    }
}

/// With fewer than 2^32 samples, sorted, the mean lies between the
/// smallest and the largest sample.
pub proof fn lemma_mean_within_range(s: Seq<u128>)
    requires
        sorted(s),
        0 < s.len() < 0x1_0000_0000,
    ensures
        s[0] <= total(s) / (mean_divisor(s.len()) as int) <= s[s.len() - 1],
{
    let n = s.len() as int;
    assert(mean_divisor(s.len()) == n);
    lemma_total_bounds(s, s[0] as int, s[n - 1] as int);
    let t = total(s);
    let lo = s[0] as int;
    let hi = s[n - 1] as int;
    assert(lo <= t / n <= hi) by (nonlinear_arith)
        requires
            n > 0,
            n * lo <= t <= n * hi,
    ;
}

/// Latency samples, in nanoseconds.
pub struct LatencyStats {
    durations: Vec<u128>,
}

impl LatencyStats {
    /// The samples recorded, in their current order.
    pub closed spec fn samples(&self) -> Seq<u128> {
        self.durations@
    }

    /// No sample yet.
    pub fn new() -> (s: LatencyStats)
        ensures
            s.samples() == Seq::<u128>::empty(),
    {
        LatencyStats { durations: Vec::new() }
    }

    /// Adds a sample.
    pub fn record(&mut self, nanos: u128)
        ensures
            final(self).samples() == old(self).samples().push(nanos),
    {
        self.durations.push(nanos);
    }

    /// Forgets every sample.
    pub fn clear(&mut self)
        ensures
            final(self).samples() == Seq::<u128>::empty(),
    {
        self.durations.clear();
    }

    /// Sorts the samples and returns (mean, p50, p95, p99): the mean is the
    /// total divided, rounded down, by the number of samples taken modulo
    /// 2^32; the percentiles are read off the sorted samples; all are 0 with
    /// no sample.
    pub fn calculate_stats(&mut self) -> (r: (u128, u128, u128, u128))
        requires
            total(old(self).samples()) <= MAX_DURATION_NANOS,
            old(self).samples().len() == 0 || mean_divisor(old(self).samples().len()) != 0,
        ensures
            sorted(final(self).samples()),
            final(self).samples().to_multiset() == old(self).samples().to_multiset(),
            final(self).samples().len() == old(self).samples().len(),
            r.0 == (if old(self).samples().len() == 0 {
                0
            } else {
                total(old(self).samples()) / (mean_divisor(old(self).samples().len()) as int)
            }),
            0 < old(self).samples().len() < 0x1_0000_0000 ==> final(self).samples()[0] <= r.0
                <= final(self).samples()[final(self).samples().len() - 1],
            r.1 == percentile(final(self).samples(), 50),
            r.2 == percentile(final(self).samples(), 95),
            r.3 == percentile(final(self).samples(), 99),
    {
        let ghost before = self.durations@;
        let len = self.durations.len();
        let mut sum: u128 = 0;
        let mut i: usize = 0;
        while i < len
            invariant
                len == self.durations@.len(),
                self.durations@ == before,
                total(before) <= MAX_DURATION_NANOS,
                i <= len,
                sum == total(before.take(i as int)),
            decreases len - i,
        {
            proof {
                assert(before.take(i + 1).drop_last() =~= before.take(i as int));
                lemma_total_prefix(before, i + 1);
            }
            sum = sum + self.durations[i];
            i = i + 1;
        }
        assert(before.take(len as int) =~= before);
        sort_latencies(&mut self.durations);
        let p50 = self.percentile_of(50);
        let p95 = self.percentile_of(95);
        let p99 = self.percentile_of(99);
        proof {
            lemma_total_permutation(before, self.durations@);
            if 0 < len < 0x1_0000_0000 {
                lemma_mean_within_range(self.durations@);
            }
        }
        let mean = if len == 0 {
            0
        } else {
            let n: u128 = ((len as u64) % 0x1_0000_0000u64) as u128;
            sum / n
        };
        (mean, p50, p95, p99)
    }

    /// Whether `calculate_stats` can run: the samples add up to at most
    /// the longest duration, and their number is not a non-zero multiple of
    /// 2^32.
    pub fn can_calculate(&self) -> (b: bool)
        ensures
            b == (total(self.samples()) <= MAX_DURATION_NANOS && (self.samples().len() == 0
                || mean_divisor(self.samples().len()) != 0)),
    {
        let len = self.durations.len();
        let ghost s = self.durations@;
        let mut sum: u128 = 0;
        let mut i: usize = 0;
        while i < len
            invariant
                len == s.len(),
                s == self.durations@,
                i <= len,
                sum == total(s.take(i as int)),
                sum <= MAX_DURATION_NANOS,
            decreases len - i,
        {
            proof {
                assert(s.take(i + 1).drop_last() =~= s.take(i as int));
            }
            let d = self.durations[i];
            if d > MAX_DURATION_NANOS - sum {
                proof {
                    lemma_total_prefix(s, i + 1);
                }
                return false;
            }
            sum = sum + d;
            i = i + 1;
        }
        assert(s.take(len as int) =~= s);
        len == 0 || (len as u64) % 0x1_0000_0000u64 != 0
    }

    fn percentile_of(&self, p: u128) -> (r: u128)
        requires
            p <= 100,
        ensures
            r == percentile(self.durations@, p as nat),
    {
        let len = self.durations.len();
        if len == 0 {
            return 0;
        }
        let last = (len - 1) as u128;
        assert(last * p / 100 <= last) by (nonlinear_arith)
            requires
                p <= 100,
        ;
        let index = (last * p / 100) as usize;
        self.durations[index]
    }
}

impl Default for LatencyStats {
    fn default() -> (s: LatencyStats)
        ensures
            s.samples() == Seq::<u128>::empty(),
    {
        LatencyStats::new()
    }
}

/// Counts completed operations since a start time.
pub struct ThroughputCalculator {
    start: Instant,
    count: u64,
}

impl ThroughputCalculator {
    /// Operations counted since the start.
    pub closed spec fn spec_count(&self) -> u64 {
        self.count
    }

    /// When counting started.
    pub closed spec fn spec_start(&self) -> Instant {
        self.start
    }

    /// Starts counting now, from zero.
    pub fn new() -> (t: ThroughputCalculator)
        ensures
            t.spec_count() == 0,
    {
        ThroughputCalculator::starting_at(instant_now())
    }

    /// Starts counting at `start`, from zero.
    pub fn starting_at(start: Instant) -> (t: ThroughputCalculator)
        ensures
            t.spec_count() == 0,
            t.spec_start() == start,
    {
        ThroughputCalculator { start, count: 0 }
    }

    /// Counts one more operation.
    pub fn increment(&mut self)
        requires
            old(self).spec_count() < u64::MAX,
        ensures
            final(self).spec_count() == old(self).spec_count() + 1,
            final(self).spec_start() == old(self).spec_start(),
    {
        self.count = self.count + 1;
    }

    /// Starts again now, from zero.
    pub fn reset(&mut self)
        ensures
            final(self).spec_count() == 0,
    {
        self.restart_at(instant_now());
    }

    /// Starts again at `start`, from zero.
    pub fn restart_at(&mut self, start: Instant)
        ensures
            final(self).spec_count() == 0,
            final(self).spec_start() == start,
    {
        self.start = start;
        self.count = 0;
    }

    /// Operations counted since the start.
    pub fn count(&self) -> (n: u64)
        ensures
            n == self.spec_count(),
    {
        self.count
    }

    /// When counting started.
    pub fn start(&self) -> (s: Instant)
        ensures
            s == self.spec_start(),
    {
        self.start
    }
}

impl Default for ThroughputCalculator {
    fn default() -> (t: ThroughputCalculator)
        ensures
            t.spec_count() == 0,
    {
        ThroughputCalculator::new()
    }
}

} // verus!
