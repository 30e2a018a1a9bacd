use iroh_metrics::{Counter, FloatValue, Gauge, Histogram, MetricType, MetricValue};

fn fv(x: f64, text: &str) -> FloatValue {
    FloatValue { bits: x.to_bits(), text: text.to_string() }
}

#[test]
fn test_counter_basic() {
    let mut counter = Counter::new();
    assert_eq!(counter.get(), 0);
    assert_eq!(counter.inc(), 0);
    assert_eq!(counter.get(), 1);
    assert_eq!(counter.inc_by(41), 1);
    assert_eq!(counter.get(), 42);
    assert_eq!(counter.set(7), 42);
    assert_eq!(counter.get(), 7);
}

#[test]
fn test_counter_sum_of_increments() {
    // The counter value is the sum of all increments, with `inc` counting 1.
    let mut counter = Counter::new();
    let increments: Vec<u64> = vec![3, 0, 10, 29];
    let mut expected: u64 = 0;
    for v in increments {
        counter.inc_by(v);
        expected += v;
    }
    counter.inc();
    expected += 1;
    assert_eq!(counter.get(), expected);
    assert_eq!(counter.get(), 43);
}

#[test]
fn test_gauge_net_sum() {
    // The gauge value is the net algebraic sum since the most recent set.
    let mut gauge = Gauge::new();
    gauge.inc();
    gauge.inc_by(10);
    gauge.dec();
    gauge.dec_by(3);
    assert_eq!(gauge.get(), 7);
    gauge.set(-100);
    gauge.inc_by(2);
    gauge.dec_by(5);
    assert_eq!(gauge.get(), -103);
    assert_eq!(gauge.set(0), -103);
    assert_eq!(gauge.get(), 0);
}

#[test]
fn test_metric_type_as_str() {
    assert_eq!(MetricType::Counter.as_str(), "counter");
    assert_eq!(MetricType::Gauge.as_str(), "gauge");
    assert_eq!(MetricType::Histogram.as_str(), "histogram");
}

#[test]
fn test_metric_value_kind() {
    assert_eq!(MetricValue::Counter(1).kind(), MetricType::Counter);
    assert_eq!(MetricValue::Gauge(-1).kind(), MetricType::Gauge);
    let v = MetricValue::Histogram { buckets: vec![], sum: fv(0.0, "0"), count: 0 };
    assert_eq!(v.kind(), MetricType::Histogram);
}

#[test]
fn test_histogram() {
    let histogram = Histogram::new(vec![
        fv(1.0, "1"),
        fv(5.0, "5"),
        fv(10.0, "10"),
        fv(50.0, "50"),
        fv(100.0, "100"),
        fv(f64::INFINITY, "+Inf"),
    ]);
    let mut histogram = histogram;

    let mut sum: f64 = 0.0;
    for v in [0.5, 2.5, 7.5, 25.0, 75.0, 150.0] {
        sum += v;
        histogram.observe(v.to_bits(), fv(sum, &format!("{}", sum)));
    }

    assert_eq!(histogram.count(), 6);
    assert_eq!(f64::from_bits(histogram.sum().bits), 260.5);

    let buckets = histogram.buckets();
    assert_eq!(buckets.len(), 6);
    assert_eq!((f64::from_bits(buckets[0].0.bits), buckets[0].1), (1.0, 1));
    assert_eq!((f64::from_bits(buckets[1].0.bits), buckets[1].1), (5.0, 2));
    assert_eq!((f64::from_bits(buckets[2].0.bits), buckets[2].1), (10.0, 3));
    assert_eq!((f64::from_bits(buckets[3].0.bits), buckets[3].1), (50.0, 4));
    assert_eq!((f64::from_bits(buckets[4].0.bits), buckets[4].1), (100.0, 5));
    assert_eq!((f64::from_bits(buckets[5].0.bits), buckets[5].1), (f64::INFINITY, 6));

    let p50 = histogram.percentile((histogram.count() as f64 * 0.5) as u64);
    assert_eq!(f64::from_bits(p50), 10.0);

    let p99 = histogram.percentile((histogram.count() as f64 * 0.99) as u64);
    assert_eq!(f64::from_bits(p99), 100.0);

    let p100 = histogram.percentile((histogram.count() as f64 * 1.0) as u64);
    assert_eq!(f64::from_bits(p100), f64::INFINITY);
}

#[test]
fn test_histogram_appends_infinity_bucket() {
    // A bound list whose last element is finite gets an infinity bucket.
    let histogram = Histogram::new(vec![fv(1.0, "1"), fv(2.0, "2")]);
    let buckets = histogram.buckets();
    assert_eq!(buckets.len(), 3);
    assert_eq!(f64::from_bits(buckets[2].0.bits), f64::INFINITY);
    assert_eq!(buckets[2].0.text, "+Inf");

    // An empty bound list becomes a single infinity bucket.
    let histogram = Histogram::new(vec![]);
    let buckets = histogram.buckets();
    assert_eq!(buckets.len(), 1);
    assert_eq!(f64::from_bits(buckets[0].0.bits), f64::INFINITY);

    // A list already ending in infinity is kept as it is.
    let histogram = Histogram::new(vec![fv(1.0, "1"), fv(f64::INFINITY, "+Inf")]);
    assert_eq!(histogram.buckets().len(), 2);
}

#[test]
fn test_histogram_bucket_boundary_equality() {
    // An observation exactly equal to a bound lands in that bound's bucket.
    let mut histogram = Histogram::new(vec![fv(1.0, "1"), fv(2.0, "2"), fv(f64::INFINITY, "+Inf")]);
    histogram.observe(1.0f64.to_bits(), fv(1.0, "1"));
    let buckets = histogram.buckets();
    assert_eq!(buckets[0].1, 1);
    assert_eq!(buckets[1].1, 1);
    assert_eq!(buckets[2].1, 1);
}

#[test]
fn test_histogram_percentile_empty() {
    let histogram = Histogram::new(vec![fv(1.0, "1")]);
    assert_eq!(f64::from_bits(histogram.percentile(0)), 0.0);
}

#[test]
fn test_counter_wraps_on_overflow() {
    let mut counter = Counter::new();
    counter.set(u64::MAX);
    assert_eq!(counter.inc(), u64::MAX);
    assert_eq!(counter.get(), 0);
}

#[test]
fn test_gauge_extremes() {
    let mut gauge = Gauge::new();
    gauge.set(i64::MIN);
    assert_eq!(gauge.get(), i64::MIN);
    gauge.dec();
    assert_eq!(gauge.get(), i64::MAX);
}
