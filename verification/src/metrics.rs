//! The individual metric types: [`Counter`], [`Gauge`] and [`Histogram`].
//!
//! Floating-point observations are carried as [`FloatValue`]s: the IEEE 754
//! double-precision bit pattern of the number together with its decimal text.
//! All arithmetic the library performs on such values (ordering observations
//! into buckets, testing for the infinity sentinel) is exact integer logic on
//! the bit pattern; the text travels unchanged into the rendered output.

use vstd::prelude::*;

verus! {

/// Sign bit of a 64-bit IEEE 754 value.
pub const F64_SIGN_BIT: u64 = 0x8000_0000_0000_0000;

/// Exponent mask of a 64-bit IEEE 754 value.
pub const F64_EXP_MASK: u64 = 0x7FF0_0000_0000_0000;

/// Fraction (mantissa) mask of a 64-bit IEEE 754 value.
pub const F64_FRAC_MASK: u64 = 0x000F_FFFF_FFFF_FFFF;

/// Bit pattern of positive infinity.
pub const F64_INF_BITS: u64 = 0x7FF0_0000_0000_0000;

/// True when the bit pattern denotes a NaN.
pub open spec fn f64_is_nan_bits(bits: u64) -> bool {
    bits & F64_EXP_MASK == F64_EXP_MASK && bits & F64_FRAC_MASK != 0
}

/// True when the bit pattern denotes a finite number (neither infinite nor NaN).
pub open spec fn f64_is_finite_bits(bits: u64) -> bool {
    bits & F64_EXP_MASK != F64_EXP_MASK
}

/// Key that orders double-precision bit patterns like the numbers they denote.
///
/// This is the standard total order on IEEE 754 doubles: negative values have
/// their bits flipped, non-negative values have the sign bit set.  On values
/// that are not NaN it agrees with the numeric order, except that it
/// distinguishes the negative zero from the positive zero (placing it just
/// below).
pub open spec fn f64_total_key(bits: u64) -> u64 {
    if bits & F64_SIGN_BIT == F64_SIGN_BIT {
        !bits
    } else {
        bits | F64_SIGN_BIT
    }
}

/// Order on double-precision bit patterns, by [`f64_total_key`].
pub open spec fn f64_le_bits(a: u64, b: u64) -> bool {
    f64_total_key(a) <= f64_total_key(b)
}

/// Compares two double-precision bit patterns by the total order.
pub fn le_bits(a: u64, b: u64) -> (r: bool)
    ensures
        r == f64_le_bits(a, b),
{
    let ka: u64 = if a & F64_SIGN_BIT == F64_SIGN_BIT { !a } else { a | F64_SIGN_BIT };
    let kb: u64 = if b & F64_SIGN_BIT == F64_SIGN_BIT { !b } else { b | F64_SIGN_BIT };
    ka <= kb
}

/// A double-precision number as this library carries it: the IEEE 754 bit
/// pattern, and the decimal text under which it renders.
///
/// The library never performs floating-point arithmetic itself; a caller that
/// holds a native float converts it once, at the boundary, into this pair.
#[derive(Debug, PartialEq, Eq)]
pub struct FloatValue {
    /// The IEEE 754 double-precision bit pattern.
    pub bits: u64,
    /// The decimal rendering used verbatim in the text exposition format.
    pub text: String,
}

/// Mathematical model of a [`FloatValue`].
pub ghost struct FloatV {
    /// The IEEE 754 double-precision bit pattern.
    pub bits: u64,
    /// The decimal rendering.
    pub text: Seq<char>,
}

impl DeepView for FloatValue {
    type V = FloatV;

    open spec fn deep_view(&self) -> FloatV {
        FloatV { bits: self.bits, text: self.text@ }
    }
}

impl Clone for FloatValue {
    fn clone(&self) -> (r: FloatValue)
        ensures
            r == *self,
    {
        FloatValue { bits: self.bits, text: self.text.clone() }
    }
}

/// The types of metrics supported by this crate.
#[derive(Debug, Clone, Copy, Eq, PartialEq, Structural)]
pub enum MetricType {
    /// A [`Counter`].
    Counter,
    /// A [`Gauge`].
    Gauge,
    /// A [`Histogram`].
    Histogram,
}

/// The text under which a metric type renders in a `# TYPE` line.
pub open spec fn spec_type_str(t: MetricType) -> Seq<char> {
    match t {
        MetricType::Counter => "counter"@,
        MetricType::Gauge => "gauge"@,
        MetricType::Histogram => "histogram"@,
    }
}

impl MetricType {
    /// Returns the given metric type's str representation.
    pub fn as_str(&self) -> (r: &'static str)
        ensures
            r@ == spec_type_str(*self),
    {
        match self {
            MetricType::Counter => "counter",
            MetricType::Gauge => "gauge",
            MetricType::Histogram => "histogram",
        }
    }
}

/// The value of an individual metric item.
#[derive(Debug, PartialEq)]
pub enum MetricValue {
    /// A [`Counter`] value.
    Counter(u64),
    /// A [`Gauge`] value.
    Gauge(i64),
    /// A [`Histogram`] value: cumulative bucket counts, running sum, total count.
    Histogram {
        /// Pairs of bucket upper bound and cumulative observation count.
        buckets: Vec<(FloatValue, u64)>,
        /// Sum of all observed values.
        sum: FloatValue,
        /// Total count of observations.
        count: u64,
    },
}

/// Mathematical model of a [`MetricValue`].
pub ghost enum MetricValueV {
    /// A counter value.
    Counter(u64),
    /// A gauge value.
    Gauge(i64),
    /// A histogram value.
    Histogram {
        /// Pairs of bucket upper bound and cumulative observation count.
        buckets: Seq<(FloatV, u64)>,
        /// Sum of all observed values.
        sum: FloatV,
        /// Total count of observations.
        count: u64,
    },
}

impl DeepView for MetricValue {
    type V = MetricValueV;

    open spec fn deep_view(&self) -> MetricValueV {
        match self {
            MetricValue::Counter(v) => MetricValueV::Counter(*v),
            MetricValue::Gauge(v) => MetricValueV::Gauge(*v),
            MetricValue::Histogram { buckets, sum, count } => (MetricValueV::Histogram {
                buckets: buckets.deep_view(),
                sum: sum.deep_view(),
                count: *count,
            }),
        }
    }
}

impl Clone for MetricValue {
    fn clone(&self) -> (r: MetricValue)
        ensures
            r.deep_view() == self.deep_view(),
    {
        match self {
            MetricValue::Counter(v) => MetricValue::Counter(*v),
            MetricValue::Gauge(v) => MetricValue::Gauge(*v),
            MetricValue::Histogram { buckets, sum, count } => {
                let mut b: Vec<(FloatValue, u64)> = Vec::new();
                let mut i: usize = 0;
                while i < buckets.len()
                    invariant
                        i <= buckets@.len(),
                        b@.len() == i,
                        forall|j: int| 0 <= j < i ==> b@[j] == buckets@[j],
                    decreases buckets@.len() - i,
                {
                    b.push((buckets[i].0.clone(), buckets[i].1));
                    i += 1;
                }
                proof {
                    assert(b.deep_view() =~~= buckets.deep_view());
                }
                MetricValue::Histogram { buckets: b, sum: sum.clone(), count: *count }
            },
        }
    }
}

/// The metric type a value belongs to.
pub open spec fn spec_value_type(v: MetricValueV) -> MetricType {
    match v {
        MetricValueV::Counter(_) => MetricType::Counter,
        MetricValueV::Gauge(_) => MetricType::Gauge,
        MetricValueV::Histogram { .. } => MetricType::Histogram,
    }
}

impl MetricValue {
    /// Returns the [`MetricType`] for this metric value.
    pub fn kind(&self) -> (r: MetricType)
        ensures
            r == spec_value_type(self.deep_view()),
    {
        match self {
            MetricValue::Counter(_) => MetricType::Counter,
            MetricValue::Gauge(_) => MetricType::Gauge,
            MetricValue::Histogram { .. } => MetricType::Histogram,
        }
    }
}

/// First bucket (by index) whose upper bound admits the observation, or `-1`
/// when no bucket does.
///
/// A bucket admits an observation when the observation is less than or equal
/// to the bucket's upper bound, in the total order of [`f64_le_bits`]; a NaN
/// observation lands in no bucket.
pub open spec fn spec_bucket_index(bounds: Seq<u64>, v: u64) -> int
    decreases bounds.len(),
{
    if bounds.len() == 0 {
        -1
    } else if !f64_is_nan_bits(v) && f64_le_bits(v, bounds[0]) {
        0
    } else {
        let rest = spec_bucket_index(bounds.drop_first(), v);
        if rest < 0 {
            -1
        } else {
            1 + rest
        }
    }
}

/// The characterization of [`spec_bucket_index`]: it is the least admitting
/// index, and `-1` exactly when no index admits the observation.
pub proof fn lemma_bucket_index_first(bounds: Seq<u64>, v: u64)
    ensures
        spec_bucket_index(bounds, v) == -1 <==> (forall|i: int|
            0 <= i < bounds.len() ==> !(!f64_is_nan_bits(v) && f64_le_bits(v, #[trigger] bounds[i]))),
        spec_bucket_index(bounds, v) >= 0 ==> {
            let k = spec_bucket_index(bounds, v);
            &&& 0 <= k < bounds.len()
            &&& !f64_is_nan_bits(v) && f64_le_bits(v, bounds[k])
            &&& forall|i: int| 0 <= i < k ==> !f64_le_bits(v, #[trigger] bounds[i])
        },
    decreases bounds.len(),
{
    if bounds.len() > 0 {
        lemma_bucket_index_first(bounds.drop_first(), v);
        assert(forall|i: int|
            1 <= i < bounds.len() ==> #[trigger] bounds[i] == bounds.drop_first()[i - 1]);
    }
}

/// Sum of the first `n` bucket counts, with 64-bit wraparound.
pub open spec fn prefix_wsum(counts: Seq<u64>, n: int) -> u64
    decreases n,
{
    if n <= 0 {
        0u64
    } else {
        prefix_wsum(counts, n - 1).wrapping_add(counts[n - 1])
    }
}

/// The mathematical (unwrapped) sum of the first `n` bucket counts.
pub open spec fn prefix_sum(counts: Seq<u64>, n: int) -> int
    decreases n,
{
    if n <= 0 {
        0
    } else {
        prefix_sum(counts, n - 1) + counts[n - 1]
    }
}

/// Prefix sums of unsigned counts never shrink.
pub proof fn lemma_prefix_sum_monotone(counts: Seq<u64>, i: int, j: int)
    requires
        0 <= i <= j,
    ensures
        prefix_sum(counts, i) <= prefix_sum(counts, j),
    decreases j,
{
    if i < j {
        lemma_prefix_sum_monotone(counts, i, j - 1);
    }
}

/// As long as the total count fits the 64-bit range, the wrapping prefix sums
/// compute the mathematical ones.
pub proof fn lemma_prefix_wsum_exact(counts: Seq<u64>, n: int)
    requires
        0 <= n <= counts.len(),
        prefix_sum(counts, counts.len() as int) <= u64::MAX,
    ensures
        prefix_wsum(counts, n) == prefix_sum(counts, n),
    decreases n,
{
    if n > 0 {
        lemma_prefix_wsum_exact(counts, n - 1);
        lemma_prefix_sum_monotone(counts, n, counts.len() as int);
    }
}

/// The cumulative bucket counts of a histogram are non-decreasing, as long as
/// the total observation count fits the 64-bit range.
pub proof fn lemma_cumulative_nondecreasing(h: HistogramV, i: int, j: int)
    requires
        histogram_wf(h),
        0 <= i <= j < h.counts.len(),
        prefix_sum(h.counts, h.counts.len() as int) <= u64::MAX,
    ensures
        spec_cumulative(h)[i].1 <= spec_cumulative(h)[j].1,
{
    lemma_prefix_wsum_exact(h.counts, i + 1);
    lemma_prefix_wsum_exact(h.counts, j + 1);
    lemma_prefix_sum_monotone(h.counts, i + 1, j + 1);
}

/// Mathematical model of a [`Histogram`].
pub ghost struct HistogramV {
    /// Bucket upper bounds, ascending; the last one is the infinity sentinel.
    pub bounds: Seq<FloatV>,
    /// Raw (non-cumulative) per-bucket observation counts.
    pub counts: Seq<u64>,
    /// Running sum of all observed values.
    pub sum: FloatV,
    /// Total count of observations.
    pub count: u64,
}

/// OpenMetrics `Histogram` to track distributions of values.
///
/// Owns an immutable (after construction) ascending sequence of bucket upper
/// bounds, a parallel sequence of per-bucket observation counts, a running sum
/// and a total observation count.  Bounds and the sum are carried as
/// [`FloatValue`]s; the caller of [`Histogram::observe`] performs the one
/// floating-point addition involved and hands the updated sum in.
#[derive(Debug)]
pub struct Histogram {
    bounds: Vec<FloatValue>,
    counts: Vec<u64>,
    sum: FloatValue,
    count: u64,
}

impl DeepView for Histogram {
    type V = HistogramV;

    closed spec fn deep_view(&self) -> HistogramV {
        HistogramV {
            bounds: self.bounds.deep_view(),
            counts: self.counts@,
            sum: self.sum.deep_view(),
            count: self.count,
        }
    }
}

/// The bit patterns of a histogram's bucket upper bounds.
pub open spec fn spec_bound_bits(h: HistogramV) -> Seq<u64> {
    Seq::new(h.bounds.len(), |i: int| h.bounds[i].bits)
}

/// Well-formedness of a histogram: one count per bucket, and at least one
/// bucket (the constructor guarantees an infinity bucket exists).
pub open spec fn histogram_wf(h: HistogramV) -> bool {
    &&& h.counts.len() == h.bounds.len()
    &&& h.bounds.len() >= 1
}

/// Cumulative bucket pairs of a histogram: each bound with the wrapping sum of
/// the counts up to and including its bucket.
pub open spec fn spec_cumulative(h: HistogramV) -> Seq<(FloatV, u64)> {
    Seq::new(h.bounds.len(), |i: int| (h.bounds[i], prefix_wsum(h.counts, i + 1)))
}

/// The bound reported for a percentile target: the first bucket whose
/// cumulative count reaches `target`, the last bound when none does, and the
/// zero bit pattern when the histogram has no observations.
pub open spec fn spec_percentile(h: HistogramV, target: u64) -> u64 {
    if h.count == 0 {
        0u64
    } else {
        let k = spec_percentile_index(h.counts, target, 0);
        if k >= 0 {
            h.bounds[k].bits
        } else {
            h.bounds[h.bounds.len() - 1].bits
        }
    }
}

/// First index at or after `i` whose cumulative count reaches `target`, or `-1`.
pub open spec fn spec_percentile_index(counts: Seq<u64>, target: u64, i: int) -> int
    decreases counts.len() - i,
{
    if i < 0 || i >= counts.len() {
        -1
    } else if prefix_wsum(counts, i + 1) >= target {
        i
    } else {
        spec_percentile_index(counts, target, i + 1)
    }
}

impl Histogram {
    /// Constructs a new histogram with the given bucket upper bounds.
    ///
    /// The bounds must be supplied in ascending order.  If the list is empty
    /// or its last element is finite, an infinity bucket (rendered `+Inf`) is
    /// appended, so that every non-NaN observation is captured.
    pub fn new(bounds: Vec<FloatValue>) -> (r: Histogram)
        ensures
            histogram_wf(r.deep_view()),
            r.deep_view().bounds == if bounds@.len() == 0 || f64_is_finite_bits(
                bounds.deep_view().last().bits,
            ) {
                bounds.deep_view().push(FloatV { bits: F64_INF_BITS, text: "+Inf"@ })
            } else {
                bounds.deep_view()
            },
            r.deep_view().counts == Seq::new(r.deep_view().bounds.len(), |i: int| 0u64),
            r.deep_view().sum == (FloatV { bits: 0u64, text: "0"@ }),
            r.deep_view().count == 0u64,
    {
        let mut bounds = bounds;
        let needs_inf: bool = if bounds.len() == 0 {
            true
        } else {
            let last_bits = bounds[bounds.len() - 1].bits;
            last_bits & F64_EXP_MASK != F64_EXP_MASK
        };
        if needs_inf {
            bounds.push(FloatValue { bits: F64_INF_BITS, text: "+Inf".to_owned() });
        }
        let mut counts: Vec<u64> = Vec::new();
        let n = bounds.len();
        let mut i: usize = 0;
        while i < n
            invariant
                i <= n,
                counts@ =~= Seq::new(i as nat, |j: int| 0u64),
            decreases n - i,
        {
            counts.push(0);
            i += 1;
        }
        proof {
            assert(counts@ =~= Seq::new(bounds@.len(), |j: int| 0u64));
        }
        Histogram {
            bounds,
            counts,
            sum: FloatValue { bits: 0, text: "0".to_owned() },
            count: 0,
        }
    }

    /// Records an observation.
    ///
    /// `value_bits` is the bit pattern of the observed value; `new_sum` is the
    /// running sum after adding the observation, computed by the caller (the
    /// one floating-point addition involved, kept outside this library).  The
    /// total count rises by one and the first bucket whose upper bound admits
    /// the observation rises by one; a NaN observation lands in no bucket.
    pub fn observe(&mut self, value_bits: u64, new_sum: FloatValue)
        requires
            histogram_wf(old(self).deep_view()),
        ensures
            histogram_wf(final(self).deep_view()),
            final(self).deep_view().bounds == old(self).deep_view().bounds,
            final(self).deep_view().count == old(self).deep_view().count.wrapping_add(1),
            final(self).deep_view().sum == new_sum.deep_view(),
            final(self).deep_view().counts == {
                let k = spec_bucket_index(spec_bound_bits(old(self).deep_view()), value_bits);
                if k >= 0 {
                    old(self).deep_view().counts.update(
                        k,
                        old(self).deep_view().counts[k].wrapping_add(1),
                    )
                } else {
                    old(self).deep_view().counts
                }
            },
    {
        self.count = self.count.wrapping_add(1);
        self.sum = new_sum;
        proof {
            lemma_bucket_index_first(spec_bound_bits(old(self).deep_view()), value_bits);
        }
        let ghost gbounds = spec_bound_bits(old(self).deep_view());
        let is_nan: bool = value_bits & F64_EXP_MASK == F64_EXP_MASK && value_bits & F64_FRAC_MASK
            != 0;
        if !is_nan {
            let n = self.bounds.len();
            let mut i: usize = 0;
            while i < n
                invariant
                    i <= n,
                    n == self.bounds@.len(),
                    !f64_is_nan_bits(value_bits),
                    self.counts@.len() == n,
                    gbounds == spec_bound_bits(old(self).deep_view()),
                    gbounds.len() == n,
                    forall|j: int| 0 <= j < n ==> gbounds[j] == self.bounds@[j].bits,
                    forall|j: int| 0 <= j < i ==> !f64_le_bits(value_bits, gbounds[j]),
                    self.bounds@ == old(self).bounds@,
                    self.counts@ == old(self).counts@,
                    self.count == old(self).count.wrapping_add(1),
                    self.sum == new_sum,
                decreases n - i,
            {
                if le_bits(value_bits, self.bounds[i].bits) {
                    proof {
                        lemma_bucket_index_first(gbounds, value_bits);
                        assert(gbounds[i as int] == self.bounds@[i as int].bits);
                        assert(f64_le_bits(value_bits, gbounds[i as int]));
                        let k = spec_bucket_index(gbounds, value_bits);
                        assert(k != -1);
                        if k < i {
                            assert(f64_le_bits(value_bits, gbounds[k]));
                            assert(false);
                        }
                        if k > i {
                            assert(!f64_le_bits(value_bits, gbounds[i as int]));
                            assert(false);
                        }
                        assert(k == i);
                    }
                    let c = self.counts[i];
                    self.counts.set(i, c.wrapping_add(1));
                    return ;
                }
                i += 1;
            }
            proof {
                assert(spec_bucket_index(gbounds, value_bits) == -1) by {
                    lemma_bucket_index_first(gbounds, value_bits);
                };
            }
        }
    }

    /// Returns the total count of observations.
    pub fn count(&self) -> (r: u64)
        ensures
            r == self.deep_view().count,
    {
        self.count
    }

    /// Returns the sum of all observed values.
    pub fn sum(&self) -> (r: FloatValue)
        ensures
            r.deep_view() == self.deep_view().sum,
    {
        self.sum.clone()
    }

    /// Returns the buckets as pairs of upper bound and cumulative count.
    ///
    /// Each bucket carries the count of all observations admitted by its upper
    /// bound or a smaller one.
    pub fn buckets(&self) -> (r: Vec<(FloatValue, u64)>)
        requires
            histogram_wf(self.deep_view()),
        ensures
            r.deep_view() == spec_cumulative(self.deep_view()),
    {
        let mut out: Vec<(FloatValue, u64)> = Vec::new();
        let mut cum: u64 = 0;
        let n = self.counts.len();
        let mut i: usize = 0;
        while i < n
            invariant
                i <= n,
                n == self.counts@.len(),
                self.bounds@.len() == n,
                out@.len() == i,
                cum == prefix_wsum(self.counts@, i as int),
                forall|j: int|
                    0 <= j < i ==> #[trigger] out@[j] == (
                    self.bounds@[j],
                    prefix_wsum(self.counts@, j + 1),
                    ),
            decreases n - i,
        {
            cum = cum.wrapping_add(self.counts[i]);
            out.push((self.bounds[i].clone(), cum));
            i += 1;
        }
        proof {
            assert forall|j: int| 0 <= j < n implies #[trigger] out.deep_view()[j]
                == spec_cumulative(self.deep_view())[j] by {
                assert(out@[j] == (self.bounds@[j], prefix_wsum(self.counts@, j + 1)));
            };
            assert(out.deep_view() =~~= spec_cumulative(self.deep_view()));
        }
        out
    }

    /// Returns the bit pattern of the bucket upper bound where the given
    /// percentile target falls.
    ///
    /// `target` is the observation count the percentile corresponds to (the
    /// caller multiplies the total count by the percentile fraction).  Returns
    /// the zero bit pattern when there are no observations, and the last bound
    /// when every cumulative count falls short of the target.
    pub fn percentile(&self, target: u64) -> (r: u64)
        requires
            histogram_wf(self.deep_view()),
        ensures
            r == spec_percentile(self.deep_view(), target),
    {
        if self.count == 0 {
            return 0;
        }
        let n = self.counts.len();
        let mut cum: u64 = 0;
        let mut i: usize = 0;
        while i < n
            invariant
                i <= n,
                n == self.counts@.len(),
                self.bounds@.len() == n,
                self.deep_view().count != 0,
                cum == prefix_wsum(self.counts@, i as int),
                spec_percentile_index(self.counts@, target, 0) == spec_percentile_index(
                    self.counts@,
                    target,
                    i as int,
                ),
            decreases n - i,
        {
            cum = cum.wrapping_add(self.counts[i]);
            if cum >= target {
                proof {
                    assert(spec_percentile_index(self.counts@, target, i as int) == i);
                }
                return self.bounds[i].bits;
            }
            proof {
                assert(spec_percentile_index(self.counts@, target, i as int)
                    == spec_percentile_index(self.counts@, target, i + 1));
            }
            i += 1;
        }
        proof {
            assert(spec_percentile_index(self.counts@, target, n as int) == -1);
        }
        self.bounds[self.bounds.len() - 1].bits
    }
}

impl Clone for Histogram {
    fn clone(&self) -> (r: Histogram)
        ensures
            r.deep_view() == self.deep_view(),
    {
        let mut b: Vec<FloatValue> = Vec::new();
        let mut i: usize = 0;
        while i < self.bounds.len()
            invariant
                i <= self.bounds@.len(),
                b@.len() == i,
                forall|j: int| 0 <= j < i ==> b@[j] == self.bounds@[j],
            decreases self.bounds@.len() - i,
        {
            b.push(self.bounds[i].clone());
            i += 1;
        }
        let mut c: Vec<u64> = Vec::new();
        let mut i: usize = 0;
        while i < self.counts.len()
            invariant
                i <= self.counts@.len(),
                c@.len() == i,
                forall|j: int| 0 <= j < i ==> c@[j] == self.counts@[j],
            decreases self.counts@.len() - i,
        {
            c.push(self.counts[i]);
            i += 1;
        }
        let r = Histogram { bounds: b, counts: c, sum: self.sum.clone(), count: self.count };
        proof {
            assert(r.deep_view().bounds =~~= self.deep_view().bounds);
            assert(r.deep_view().counts =~= self.deep_view().counts);
        }
        r
    }
}

/// A single metric instance: the closed set of concrete metric kinds.
///
/// Generic infrastructure (groups, the registry, the encoders) handles metric
/// fields through this sum type without knowing the containing struct's shape.
#[derive(Debug)]
pub enum Metric {
    /// A counter.
    Counter(Counter),
    /// A gauge.
    Gauge(Gauge),
    /// A histogram.
    Histogram(Histogram),
}

/// Mathematical model of a [`Metric`].
pub ghost enum MetricV {
    /// A counter value.
    Counter(u64),
    /// A gauge value.
    Gauge(i64),
    /// A histogram state.
    Histogram(HistogramV),
}

impl DeepView for Metric {
    type V = MetricV;

    open spec fn deep_view(&self) -> MetricV {
        match self {
            Metric::Counter(c) => MetricV::Counter(c@),
            Metric::Gauge(g) => MetricV::Gauge(g@),
            Metric::Histogram(h) => MetricV::Histogram(h.deep_view()),
        }
    }
}

/// Well-formedness of a metric: histograms are well formed.
pub open spec fn metric_wf(m: MetricV) -> bool {
    match m {
        MetricV::Histogram(h) => histogram_wf(h),
        _ => true,
    }
}

/// The type of a metric.
pub open spec fn spec_metric_type(m: MetricV) -> MetricType {
    match m {
        MetricV::Counter(_) => MetricType::Counter,
        MetricV::Gauge(_) => MetricType::Gauge,
        MetricV::Histogram(_) => MetricType::Histogram,
    }
}

/// The current value snapshot of a metric; histograms report cumulative buckets.
pub open spec fn spec_metric_value(m: MetricV) -> MetricValueV {
    match m {
        MetricV::Counter(v) => MetricValueV::Counter(v),
        MetricV::Gauge(v) => MetricValueV::Gauge(v),
        MetricV::Histogram(h) => (MetricValueV::Histogram {
            buckets: spec_cumulative(h),
            sum: h.sum,
            count: h.count,
        }),
    }
}

impl Metric {
    /// Returns the type of this metric.
    pub fn kind(&self) -> (r: MetricType)
        ensures
            r == spec_metric_type(self.deep_view()),
    {
        match self {
            Metric::Counter(_) => MetricType::Counter,
            Metric::Gauge(_) => MetricType::Gauge,
            Metric::Histogram(_) => MetricType::Histogram,
        }
    }

    /// Returns the current value of this metric.
    pub fn value(&self) -> (r: MetricValue)
        requires
            metric_wf(self.deep_view()),
        ensures
            r.deep_view() == spec_metric_value(self.deep_view()),
    {
        match self {
            Metric::Counter(c) => MetricValue::Counter(c.get()),
            Metric::Gauge(g) => MetricValue::Gauge(g.get()),
            Metric::Histogram(h) => {
                let r = MetricValue::Histogram {
                    buckets: h.buckets(),
                    sum: h.sum(),
                    count: h.count(),
                };
                r
            },
        }
    }
}

impl Clone for Metric {
    fn clone(&self) -> (r: Metric)
        ensures
            r.deep_view() == self.deep_view(),
    {
        match self {
            Metric::Counter(c) => Metric::Counter(Counter::with_value(c.get())),
            Metric::Gauge(g) => Metric::Gauge(Gauge::with_value(g.get())),
            Metric::Histogram(h) => Metric::Histogram(h.clone()),
        }
    }
}

/// OpenMetrics `Counter` to measure discrete events.
///
/// Single monotonically increasing value metric.  The cell wraps around on
/// overflow, like a hardware event counter.
#[derive(Debug)]
pub struct Counter {
    value: u64,
}

impl View for Counter {
    type V = u64;

    closed spec fn view(&self) -> u64 {
        self.value
    }
}

impl Counter {
    /// Constructs a new counter starting at zero.
    pub fn new() -> (r: Counter)
        ensures
            r@ == 0u64,
    {
        Counter { value: 0 }
    }

    /// Constructs a counter holding `v`, for restoring transported state.
    pub fn with_value(v: u64) -> (r: Counter)
        ensures
            r@ == v,
    {
        Counter { value: v }
    }

    /// Increases the counter by 1, returning the previous value.
    pub fn inc(&mut self) -> (prev: u64)
        ensures
            prev == old(self)@,
            final(self)@ == old(self)@.wrapping_add(1),
    {
        let prev = self.value;
        self.value = self.value.wrapping_add(1);
        prev
    }

    /// Increases the counter by `v`, returning the previous value.
    pub fn inc_by(&mut self, v: u64) -> (prev: u64)
        ensures
            prev == old(self)@,
            final(self)@ == old(self)@.wrapping_add(v),
    {
        let prev = self.value;
        self.value = self.value.wrapping_add(v);
        prev
    }

    /// Sets the counter value, returning the previous value.
    ///
    /// Warning: this is not default behavior for a counter that should always
    /// be monotonically increasing; it exists to restore transported state.
    pub fn set(&mut self, v: u64) -> (prev: u64)
        ensures
            prev == old(self)@,
            final(self)@ == v,
    {
        let prev = self.value;
        self.value = v;
        prev
    }

    /// Returns the current value of the counter.
    pub fn get(&self) -> (r: u64)
        ensures
            r == self@,
    {
        self.value
    }
}

impl Default for Counter {
    fn default() -> (r: Counter)
        ensures
            r@ == 0u64,
    {
        Counter::new()
    }
}

/// OpenMetrics `Gauge`: a signed value that freely rises and falls.
///
/// All operations wrap around on overflow.
#[derive(Debug)]
pub struct Gauge {
    value: i64,
}

impl View for Gauge {
    type V = i64;

    closed spec fn view(&self) -> i64 {
        self.value
    }
}

impl Gauge {
    /// Constructs a new gauge starting at zero.
    pub fn new() -> (r: Gauge)
        ensures
            r@ == 0i64,
    {
        Gauge { value: 0 }
    }

    /// Constructs a gauge holding `v`, for restoring transported state.
    pub fn with_value(v: i64) -> (r: Gauge)
        ensures
            r@ == v,
    {
        Gauge { value: v }
    }

    /// Increases the gauge by 1, returning the previous value.
    pub fn inc(&mut self) -> (prev: i64)
        ensures
            prev == old(self)@,
            final(self)@ == old(self)@.wrapping_add(1),
    {
        let prev = self.value;
        self.value = self.value.wrapping_add(1);
        prev
    }

    /// Increases the gauge by `v`, returning the previous value.
    pub fn inc_by(&mut self, v: i64) -> (prev: i64)
        ensures
            prev == old(self)@,
            final(self)@ == old(self)@.wrapping_add(v),
    {
        let prev = self.value;
        self.value = self.value.wrapping_add(v);
        prev
    }

    /// Decreases the gauge by 1, returning the previous value.
    pub fn dec(&mut self) -> (prev: i64)
        ensures
            prev == old(self)@,
            final(self)@ == old(self)@.wrapping_sub(1),
    {
        let prev = self.value;
        self.value = self.value.wrapping_sub(1);
        prev
    }

    /// Decreases the gauge by `v`, returning the previous value.
    pub fn dec_by(&mut self, v: i64) -> (prev: i64)
        ensures
            prev == old(self)@,
            final(self)@ == old(self)@.wrapping_sub(v),
    {
        let prev = self.value;
        self.value = self.value.wrapping_sub(v);
        prev
    }

    /// Sets the gauge to `v`, returning the previous value.
    pub fn set(&mut self, v: i64) -> (prev: i64)
        ensures
            prev == old(self)@,
            final(self)@ == v,
    {
        let prev = self.value;
        self.value = v;
        prev
    }

    /// Returns the current value of the gauge.
    pub fn get(&self) -> (r: i64)
        ensures
            r == self@,
    {
        self.value
    }
}

impl Default for Gauge {
    fn default() -> (r: Gauge)
        ensures
            r@ == 0i64,
    {
        Gauge::new()
    }
}

/// The counter value after a sequence of increments, each applied as
/// [`Counter::inc_by`] applies it (an [`Counter::inc`] is an increment by 1).
pub open spec fn counter_apply(v: u64, ops: Seq<u64>) -> u64
    decreases ops.len(),
{
    if ops.len() == 0 {
        v
    } else {
        counter_apply(v.wrapping_add(ops[0]), ops.drop_first())
    }
}

/// The mathematical sum of a sequence of increment amounts.
pub open spec fn counter_delta_sum(ops: Seq<u64>) -> int
    decreases ops.len(),
{
    if ops.len() == 0 {
        0
    } else {
        ops[0] + counter_delta_sum(ops.drop_first())
    }
}

/// A sum of unsigned increments is never negative.
pub proof fn lemma_counter_delta_sum_nonneg(ops: Seq<u64>)
    ensures
        counter_delta_sum(ops) >= 0,
    decreases ops.len(),
{
    if ops.len() > 0 {
        lemma_counter_delta_sum_nonneg(ops.drop_first());
    }
}

/// After any sequence of `inc`/`inc_by` calls on a counter, `get` returns the
/// initial value plus the sum of all increment amounts, with `inc` counted as
/// an increment by 1, as long as that sum stays within the 64-bit range.
pub proof fn lemma_counter_sum(v: u64, ops: Seq<u64>)
    requires
        v + counter_delta_sum(ops) <= u64::MAX,
    ensures
        counter_apply(v, ops) == v + counter_delta_sum(ops),
    decreases ops.len(),
{
    if ops.len() > 0 {
        lemma_counter_delta_sum_nonneg(ops.drop_first());
        lemma_counter_sum(v.wrapping_add(ops[0]), ops.drop_first());
    }
}

/// One operation on a gauge.
pub ghost enum GaugeOp {
    /// [`Gauge::inc`].
    Inc,
    /// [`Gauge::dec`].
    Dec,
    /// [`Gauge::inc_by`] with the given amount.
    IncBy(i64),
    /// [`Gauge::dec_by`] with the given amount.
    DecBy(i64),
    /// [`Gauge::set`] to the given value.
    SetTo(i64),
}

/// The gauge value after one operation, as the exec methods apply it.
pub open spec fn gauge_step(v: i64, op: GaugeOp) -> i64 {
    match op {
        GaugeOp::Inc => v.wrapping_add(1),
        GaugeOp::Dec => v.wrapping_sub(1),
        GaugeOp::IncBy(d) => v.wrapping_add(d),
        GaugeOp::DecBy(d) => v.wrapping_sub(d),
        GaugeOp::SetTo(x) => x,
    }
}

/// The gauge value after a sequence of operations, as the exec methods apply them.
pub open spec fn gauge_apply(v: i64, ops: Seq<GaugeOp>) -> i64
    decreases ops.len(),
{
    if ops.len() == 0 {
        v
    } else {
        gauge_apply(gauge_step(v, ops[0]), ops.drop_first())
    }
}

/// The gauge value after one operation, in unbounded integers.
pub open spec fn gauge_step_int(v: int, op: GaugeOp) -> int {
    match op {
        GaugeOp::Inc => v + 1,
        GaugeOp::Dec => v - 1,
        GaugeOp::IncBy(d) => v + d,
        GaugeOp::DecBy(d) => v - d,
        GaugeOp::SetTo(x) => x as int,
    }
}

/// The gauge value after a sequence of operations, in unbounded integers.
pub open spec fn gauge_ideal(v: int, ops: Seq<GaugeOp>) -> int
    decreases ops.len(),
{
    if ops.len() == 0 {
        v
    } else {
        gauge_ideal(gauge_step_int(v, ops[0]), ops.drop_first())
    }
}

/// The net algebraic sum of a sequence of gauge operations that contains no `set`.
pub open spec fn gauge_net(ops: Seq<GaugeOp>) -> int
    decreases ops.len(),
{
    if ops.len() == 0 {
        0
    } else {
        (match ops[0] {
            GaugeOp::Inc => 1,
            GaugeOp::Dec => -1,
            GaugeOp::IncBy(d) => d as int,
            GaugeOp::DecBy(d) => -(d as int),
            GaugeOp::SetTo(_) => 0,
        }) + gauge_net(ops.drop_first())
    }
}

/// True when no operation in the sequence is a `set`.
pub open spec fn gauge_no_set(ops: Seq<GaugeOp>) -> bool {
    forall|i: int| 0 <= i < ops.len() ==> !(#[trigger] ops[i] is SetTo)
}

/// Without a `set`, the ideal gauge value is the start value plus the net
/// algebraic sum of all operations.
pub proof fn lemma_gauge_net(v: int, ops: Seq<GaugeOp>)
    requires
        gauge_no_set(ops),
    ensures
        gauge_ideal(v, ops) == v + gauge_net(ops),
    decreases ops.len(),
{
    if ops.len() > 0 {
        assert(!(ops[0] is SetTo));
        lemma_gauge_net(gauge_step_int(v, ops[0]), ops.drop_first());
    }
}

/// The most recent `set` is the new baseline: after it, the ideal gauge value
/// is the set value plus the net algebraic sum of the operations that follow.
pub proof fn lemma_gauge_last_set(v: int, pre: Seq<GaugeOp>, x: i64, post: Seq<GaugeOp>)
    requires
        gauge_no_set(post),
    ensures
        gauge_ideal(v, pre + seq![GaugeOp::SetTo(x)] + post) == x + gauge_net(post),
    decreases pre.len(),
{
    let ops = pre + seq![GaugeOp::SetTo(x)] + post;
    if pre.len() == 0 {
        assert(ops[0] == GaugeOp::SetTo(x));
        assert(ops.drop_first() =~= post);
        lemma_gauge_net(x as int, post);
    } else {
        assert(ops[0] == pre[0]);
        assert(ops.drop_first() =~= pre.drop_first() + seq![GaugeOp::SetTo(x)] + post);
        lemma_gauge_last_set(gauge_step_int(v, ops[0]), pre.drop_first(), x, post);
    }
}

/// As long as every intermediate value stays within the 64-bit signed range,
/// the exec gauge operations compute the ideal (unbounded) value; together
/// with [`lemma_gauge_net`] and [`lemma_gauge_last_set`] this says that `get`
/// returns the net algebraic sum of all operations since the most recent
/// `set`, on top of that `set`'s value as the baseline.
pub proof fn lemma_gauge_wrap_free(v: i64, ops: Seq<GaugeOp>)
    requires
        forall|k: int|
            0 <= k <= ops.len() ==> i64::MIN <= #[trigger] gauge_ideal(v as int, ops.take(k))
                <= i64::MAX,
    ensures
        gauge_apply(v, ops) as int == gauge_ideal(v as int, ops),
    decreases ops.len(),
{
    if ops.len() > 0 {
        assert(ops.take(0) =~= Seq::<GaugeOp>::empty());
        assert(gauge_ideal(v as int, ops.take(0)) == v as int);
        assert(ops.take(1) =~= seq![ops[0]]);
        assert(ops.take(1).drop_first() =~= Seq::<GaugeOp>::empty());
        assert(gauge_ideal(gauge_step_int(v as int, ops[0]), Seq::<GaugeOp>::empty())
            == gauge_step_int(v as int, ops[0]));
        assert(gauge_ideal(v as int, ops.take(1)) == gauge_step_int(v as int, ops[0]));
        let v1 = gauge_step(v, ops[0]);
        assert(v1 as int == gauge_step_int(v as int, ops[0]));
        let rest = ops.drop_first();
        assert forall|k: int| 0 <= k <= rest.len() implies i64::MIN <= #[trigger] gauge_ideal(
            v1 as int,
            rest.take(k),
        ) <= i64::MAX by {
            assert(ops.take(k + 1)[0] == ops[0]);
            assert(ops.take(k + 1).drop_first() =~= rest.take(k));
            assert(gauge_ideal(v as int, ops.take(k + 1)) == gauge_ideal(v1 as int, rest.take(k)));
            assert(i64::MIN <= gauge_ideal(v as int, ops.take(k + 1)) <= i64::MAX);
        };
        lemma_gauge_wrap_free(v1, rest);
        assert(ops.take(ops.len() as int) =~= ops);
    }
}

} // verus!
