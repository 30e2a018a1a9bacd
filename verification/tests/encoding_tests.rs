use iroh_metrics::encoding::{encode_i64, encode_u64};
use iroh_metrics::{Metric, MetricItem, Schema, Values};
use iroh_metrics::{
    Decoder, Encoder, EncoderOpts, FloatValue, MetricValue, MetricsGroup, MetricsSource, Registry,
};

fn fv(x: f64, text: &str) -> FloatValue {
    FloatValue { bits: x.to_bits(), text: text.to_string() }
}

fn foo_metrics() -> MetricsGroup {
    MetricsGroup::new("foo")
        .with_counter("metric_a", "metric_a")
        .with_gauge("metric_b", "metric_b")
}

fn http_metrics() -> MetricsGroup {
    MetricsGroup::new("http").with_metric(
        "response_time",
        "response_time",
        iroh_metrics::Metric::Histogram(iroh_metrics::Histogram::new(vec![
            fv(0.1, "0.1"),
            fv(0.5, "0.5"),
            fv(1.0, "1"),
            fv(5.0, "5"),
            fv(f64::INFINITY, "+Inf"),
        ])),
    )
}

/// Observes `values` into the histogram at item `i`, starting the running
/// sum at `start`, and returns the final sum.
fn observe_all(group: &mut MetricsGroup, i: usize, start: f64, values: &[f64]) -> f64 {
    let mut sum = start;
    for v in values {
        sum += v;
        group
            .histogram_mut(i)
            .observe(v.to_bits(), fv(sum, &format!("{}", sum)));
    }
    sum
}

#[test]
fn test_encode_decode() {
    let mut registry = Registry::default();
    let mut metrics = foo_metrics();
    metrics.counter_mut(0).inc();
    metrics.gauge_mut(1).set(-42);
    registry.register(metrics);

    let om_from_registry = registry.encode_openmetrics_to_string().unwrap();
    println!("openmetrics len {}", om_from_registry.len());

    let mut encoder = Encoder::new();
    let update = encoder.export(&registry);
    assert!(update.schema.is_some());

    let mut decoder = Decoder::default();
    decoder.import(update);

    let om_from_decoder = decoder.encode_openmetrics_to_string().unwrap();
    assert_eq!(om_from_decoder, om_from_registry);

    {
        let group = registry.group_mut(0);
        group.counter_mut(0).inc();
        group.gauge_mut(1).set(99);
    }

    let update = encoder.export(&registry);
    assert!(update.schema.is_none());
    decoder.import(update);

    let om_from_registry = registry.encode_openmetrics_to_string().unwrap();
    let om_from_decoder = decoder.encode_openmetrics_to_string().unwrap();
    assert_eq!(om_from_decoder, om_from_registry);
    assert!(om_from_decoder.contains("foo_metric_a_total 2\n"));
    assert!(om_from_decoder.contains("foo_metric_b 99\n"));

    let mut iter = decoder.iter();
    let mut seen = 0;
    while let Some(item) = iter.next() {
        assert!(!item.schema.help.is_empty());
        seen += 1;
    }
    assert_eq!(seen, 2);

    // With help suppressed, a fresh export's schema carries empty help texts.
    let mut encoder = Encoder::new_with_opts(EncoderOpts { include_help: false });
    let mut decoder = Decoder::default();
    decoder.import(encoder.export(&registry));
    let mut iter = decoder.iter();
    let mut seen = 0;
    while let Some(item) = iter.next() {
        assert!(item.schema.help.is_empty());
        seen += 1;
    }
    assert_eq!(seen, 2);
}

#[test]
fn test_schema_resent_after_registration() {
    let mut registry = Registry::default();
    registry.register(foo_metrics());

    let mut encoder = Encoder::new();
    let first = encoder.export(&registry);
    assert!(first.schema.is_some());

    let second = encoder.export(&registry);
    assert!(second.schema.is_none());

    registry.register(MetricsGroup::new("bar").with_counter("count", "count"));
    let third = encoder.export(&registry);
    assert!(third.schema.is_some());
    assert_eq!(third.values.items.len(), 3);
}

#[test]
fn test_histogram_encode_decode() {
    let mut registry = Registry::default();
    registry.register(http_metrics());

    let sum = observe_all(registry.group_mut(0), 0, 0.0, &[0.05, 0.3, 0.8, 2.5]);

    let mut encoder = Encoder::new();
    let update = encoder.export(&registry);

    let mut decoder = Decoder::default();
    decoder.import(update);

    let mut items = decoder.iter();
    let item = items.next().expect("Expected one metric");

    if let MetricValue::Histogram { buckets, sum, count } = item.value {
        assert_eq!(*count, 4);
        assert_eq!(f64::from_bits(sum.bits), 3.65);
        assert_eq!(buckets.len(), 5);
        assert_eq!((f64::from_bits(buckets[0].0.bits), buckets[0].1), (0.1, 1));
        assert_eq!((f64::from_bits(buckets[1].0.bits), buckets[1].1), (0.5, 2));
        assert_eq!((f64::from_bits(buckets[2].0.bits), buckets[2].1), (1.0, 3));
        assert_eq!((f64::from_bits(buckets[3].0.bits), buckets[3].1), (5.0, 4));
        assert_eq!(
            (f64::from_bits(buckets[4].0.bits), buckets[4].1),
            (f64::INFINITY, 4)
        );
    } else {
        panic!("Expected histogram value");
    }

    observe_all(registry.group_mut(0), 0, sum, &[0.02, 1.5]);

    let update = encoder.export(&registry);
    decoder.import(update);

    let mut items = decoder.iter();
    let item = items.next().expect("Expected one metric");

    if let MetricValue::Histogram { buckets, sum, count } = item.value {
        assert_eq!(*count, 6);
        assert_eq!(f64::from_bits(sum.bits), 5.17);
        assert_eq!(buckets[0].1, 2); // 0.05, 0.02
        assert_eq!(buckets[1].1, 3); // + 0.3
        assert_eq!(buckets[2].1, 4); // + 0.8
        assert_eq!(buckets[3].1, 6); // + 2.5, 1.5
        assert_eq!(buckets[4].1, 6);
    } else {
        panic!("Expected histogram value");
    }
}

#[test]
fn test_histogram_openmetrics_from_decoder() {
    let mut registry = Registry::default();
    registry.register(http_metrics());

    observe_all(registry.group_mut(0), 0, 0.0, &[0.05, 0.3, 0.8, 2.5]);

    let om_from_registry = registry.encode_openmetrics_to_string().unwrap();

    let mut encoder = Encoder::new();
    let update = encoder.export(&registry);

    let mut decoder = Decoder::default();
    decoder.import(update);

    let om_from_decoder = decoder.encode_openmetrics_to_string().unwrap();

    assert_eq!(
        om_from_decoder, om_from_registry,
        "Decoder should produce identical OpenMetrics output to registry for histograms"
    );
}

#[test]
fn test_histogram_prometheus_format() {
    let mut registry = Registry::default();
    registry.register(http_metrics());

    observe_all(registry.group_mut(0), 0, 0.0, &[0.05, 0.3, 0.8, 2.5]);

    let output = registry.encode_openmetrics_to_string().unwrap();

    let parsed = prometheus_parse::Scrape::parse(output.lines().map(|s| Ok(s.to_owned())))
        .expect("Failed to parse Prometheus output");

    assert_eq!(parsed.samples.len(), 3);

    let histogram_sample = parsed
        .samples
        .iter()
        .find(|s| s.metric == "http_response_time")
        .expect("Expected to find http_response_time histogram");

    let sum_sample = parsed
        .samples
        .iter()
        .find(|s| s.metric == "http_response_time_sum")
        .expect("Expected to find http_response_time_sum");

    let count_sample = parsed
        .samples
        .iter()
        .find(|s| s.metric == "http_response_time_count")
        .expect("Expected to find http_response_time_count");

    if let prometheus_parse::Value::Untyped(sum) = sum_sample.value {
        assert_eq!(sum, 3.65);
    } else {
        panic!("Expected sum value");
    }

    if let prometheus_parse::Value::Untyped(count) = count_sample.value {
        assert_eq!(count, 4.0);
    } else {
        panic!("Expected count value");
    }

    if let prometheus_parse::Value::Histogram(buckets) = &histogram_sample.value {
        assert_eq!(buckets.len(), 5);

        assert_eq!(buckets[0].less_than, 0.1);
        assert_eq!(buckets[0].count, 1.0);

        assert_eq!(buckets[1].less_than, 0.5);
        assert_eq!(buckets[1].count, 2.0);

        assert_eq!(buckets[2].less_than, 1.0);
        assert_eq!(buckets[2].count, 3.0);

        assert_eq!(buckets[3].less_than, 5.0);
        assert_eq!(buckets[3].count, 4.0);

        assert_eq!(buckets[4].less_than, f64::INFINITY);
        assert_eq!(buckets[4].count, 4.0);
    } else {
        panic!("Expected histogram value, got {:?}", histogram_sample.value);
    }
}

#[test]
fn test_encode_u64_exact() {
    let mut s = String::new();
    encode_u64(&mut s, 0);
    assert_eq!(s, "0");
    let mut s = String::new();
    encode_u64(&mut s, 1234567890);
    assert_eq!(s, "1234567890");
    let mut s = String::new();
    encode_u64(&mut s, u64::MAX);
    assert_eq!(s, "18446744073709551615");
}

#[test]
fn test_encode_i64_exact() {
    let mut s = String::new();
    encode_i64(&mut s, 0);
    assert_eq!(s, "0");
    let mut s = String::new();
    encode_i64(&mut s, -42);
    assert_eq!(s, "-42");
    let mut s = String::new();
    encode_i64(&mut s, i64::MIN);
    assert_eq!(s, "-9223372036854775808");
    let mut s = String::new();
    encode_i64(&mut s, i64::MAX);
    assert_eq!(s, "9223372036854775807");
}

#[test]
fn test_decoder_without_schema_renders_eof() {
    let decoder = Decoder::default();
    assert_eq!(decoder.encode_openmetrics_to_string().unwrap(), "# EOF\n");
    let mut iter = decoder.iter();
    assert!(iter.next().is_none());
}

#[test]
fn test_decoder_iter_positions() {
    let mut registry = Registry::default();
    registry.register(foo_metrics());
    let mut encoder = Encoder::new();
    let mut decoder = Decoder::default();
    decoder.import(encoder.export(&registry));

    let mut iter = decoder.iter();
    let first = iter.next().unwrap();
    assert_eq!(first.schema.name, "metric_a");
    assert_eq!(first.schema.prefixes, vec!["foo".to_string()]);
    let second = iter.next().unwrap();
    assert_eq!(second.schema.name, "metric_b");
    assert!(iter.next().is_none());
    assert!(iter.next().is_none());
}

#[test]
fn test_schema_version_counts_registrations() {
    let mut registry = Registry::default();
    assert_eq!(registry.schema_version(), 0);
    registry.register(foo_metrics());
    assert_eq!(registry.schema_version(), 1);
    let sub = registry.sub_registry_with_prefix("sub");
    assert_eq!(sub.schema_version(), 0);
    sub.register(foo_metrics());
    assert_eq!(registry.schema_version(), 2);
}

#[test]
fn test_encode_schema_and_values() {
    let mut registry = Registry::default();
    let mut metrics = foo_metrics();
    metrics.counter_mut(0).inc_by(7);
    registry.register(metrics);

    let mut schema = Schema::default();
    registry.encode_schema(&mut schema, true);
    assert_eq!(schema.items.len(), 2);
    assert_eq!(schema.items[0].name, "metric_a");
    assert_eq!(schema.items[0].help, "metric_a");
    assert_eq!(schema.items[0].kind, iroh_metrics::MetricType::Counter);
    assert_eq!(schema.items[0].prefixes, vec!["foo".to_string()]);
    assert!(schema.items[0].labels.is_empty());

    let mut schema = Schema::default();
    registry.encode_schema(&mut schema, false);
    assert_eq!(schema.items[0].help, "");

    let mut values = Values::default();
    registry.encode_values(&mut values);
    assert_eq!(values.items.len(), 2);
    assert_eq!(values.items[0], MetricValue::Counter(7));
    assert_eq!(values.items[1], MetricValue::Gauge(0));
}

#[test]
fn test_metric_item_accessors() {
    let item = MetricItem::new("reqs", "Requests seen", Metric::Counter(iroh_metrics::Counter::new()));
    assert_eq!(item.name(), "reqs");
    assert_eq!(item.help(), "Requests seen");
    assert_eq!(item.kind(), iroh_metrics::MetricType::Counter);
    assert_eq!(item.value(), MetricValue::Counter(0));
    assert!(matches!(item.metric(), Metric::Counter(_)));
    let copy = item.clone();
    assert_eq!(copy.name(), "reqs");
}

#[test]
fn test_parse_prometheus_lines() {
    let text = "# HELP foo_metric_a metric_a.\n\
                # TYPE foo_metric_a counter\n\
                foo_metric_a_total 5\n\
                malformed\n\
                \n\
                foo_metric_b -42 extra\n\
                # EOF\n";
    let pairs = iroh_metrics::parse_prometheus_lines(text);
    assert_eq!(
        pairs,
        vec![
            ("foo_metric_a_total".to_string(), "5".to_string()),
            ("foo_metric_b".to_string(), "-42".to_string()),
        ]
    );
}

#[test]
fn test_parse_prometheus_lines_round_trip() {
    let mut registry = Registry::default();
    let mut metrics = foo_metrics();
    metrics.counter_mut(0).inc_by(5);
    metrics.gauge_mut(1).set(-3);
    registry.register(metrics);
    let text = registry.encode_openmetrics_to_string().unwrap();

    let pairs = iroh_metrics::parse_prometheus_lines(&text);
    assert_eq!(
        pairs,
        vec![
            ("foo_metric_a_total".to_string(), "5".to_string()),
            ("foo_metric_b".to_string(), "-3".to_string()),
        ]
    );
}

#[test]
fn test_parse_prometheus_lines_crlf_and_tabs() {
    let text = "a 1\r\nb\t2\r\nc";
    let pairs = iroh_metrics::parse_prometheus_lines(text);
    assert_eq!(
        pairs,
        vec![
            ("a".to_string(), "1".to_string()),
            ("b".to_string(), "2".to_string()),
        ]
    );
}
