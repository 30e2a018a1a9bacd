use iroh_metrics::{
    Iterable, MetricType, MetricValue, MetricsGroup, MetricsGroupSet, MetricsSource, Registry,
};

fn foo_metrics() -> MetricsGroup {
    MetricsGroup::new("foo")
        .with_counter("metric_a", "metric_a")
        .with_gauge("metric_b", "metric_b")
}

fn bar_metrics() -> MetricsGroup {
    MetricsGroup::new("bar").with_counter("count", "Bar Count")
}

fn combined_metrics() -> MetricsGroupSet {
    MetricsGroupSet::new("combined")
        .with_group(foo_metrics())
        .with_group(bar_metrics())
}

#[test]
fn test_metric_help() {
    let metrics = foo_metrics();
    let mut items = Vec::new();
    let mut iter = metrics.iter();
    while let Some(item) = iter.next() {
        items.push(item);
    }
    assert_eq!(items.len(), 2);
    assert_eq!(items[0].name(), "metric_a");
    assert_eq!(items[0].help(), "metric_a");
    assert_eq!(items[0].kind(), MetricType::Counter);
    assert_eq!(items[1].name(), "metric_b");
    assert_eq!(items[1].help(), "metric_b");
    assert_eq!(items[1].kind(), MetricType::Gauge);
}

#[test]
fn base_test_solo_registry() {
    let mut metrics = foo_metrics();
    metrics.counter_mut(0).inc();
    metrics.gauge_mut(1).inc_by(2);
    metrics.gauge_mut(1).inc_by(3);
    assert_eq!(metrics.counter_mut(0).get(), 1);
    assert_eq!(metrics.gauge_mut(1).get(), 5);
    metrics.counter_mut(0).set(0);
    metrics.gauge_mut(1).set(0);
    assert_eq!(metrics.counter_mut(0).get(), 0);
    assert_eq!(metrics.gauge_mut(1).get(), 0);
    metrics.counter_mut(0).inc_by(5);
    metrics.gauge_mut(1).inc_by(2);
    assert_eq!(metrics.counter_mut(0).get(), 5);
    assert_eq!(metrics.gauge_mut(1).get(), 2);

    let mut registry = Registry::default();
    registry.register(metrics);

    let exp = "# HELP foo_metric_a metric_a.
# TYPE foo_metric_a counter
foo_metric_a_total 5
# HELP foo_metric_b metric_b.
# TYPE foo_metric_b gauge
foo_metric_b 2
# EOF
";
    let enc = registry.encode_openmetrics_to_string().unwrap();
    assert_eq!(enc, exp);
}

#[test]
fn base_test_metric_sets() {
    let mut metrics = combined_metrics();
    metrics.group_mut(0).counter_mut(0).inc();
    metrics.group_mut(0).gauge_mut(1).set(-42);
    metrics.group_mut(1).counter_mut(0).inc_by(10);

    // Using `iter` to iterate over all metrics in the group set.
    let collected: Vec<(String, String, String, MetricValue)> = metrics
        .iter()
        .into_iter()
        .map(|(group, metric)| {
            (
                group,
                metric.name().to_string(),
                metric.help().to_string(),
                metric.value(),
            )
        })
        .collect();
    assert_eq!(
        collected,
        vec![
            (
                "foo".to_string(),
                "metric_a".to_string(),
                "metric_a".to_string(),
                MetricValue::Counter(1)
            ),
            (
                "foo".to_string(),
                "metric_b".to_string(),
                "metric_b".to_string(),
                MetricValue::Gauge(-42)
            ),
            (
                "bar".to_string(),
                "count".to_string(),
                "Bar Count".to_string(),
                MetricValue::Counter(10)
            ),
        ]
    );

    // automatic collection and encoding with a registry
    let mut registry = Registry::default();
    let sub = registry.sub_registry_with_prefix("boo");
    sub.register_all(&metrics);
    let exp = "# HELP boo_foo_metric_a metric_a.
# TYPE boo_foo_metric_a counter
boo_foo_metric_a_total 1
# HELP boo_foo_metric_b metric_b.
# TYPE boo_foo_metric_b gauge
boo_foo_metric_b -42
# HELP boo_bar_count Bar Count.
# TYPE boo_bar_count counter
boo_bar_count_total 10
# EOF
";
    assert_eq!(registry.encode_openmetrics_to_string().unwrap(), exp);

    let sub = registry.sub_registry_with_labels(vec![("x".to_string(), "y".to_string())]);
    sub.register_all_prefixed(&metrics);
    let exp = r#"# HELP boo_foo_metric_a metric_a.
# TYPE boo_foo_metric_a counter
boo_foo_metric_a_total 1
# HELP boo_foo_metric_b metric_b.
# TYPE boo_foo_metric_b gauge
boo_foo_metric_b -42
# HELP boo_bar_count Bar Count.
# TYPE boo_bar_count counter
boo_bar_count_total 10
# HELP combined_foo_metric_a metric_a.
# TYPE combined_foo_metric_a counter
combined_foo_metric_a_total{x="y"} 1
# HELP combined_foo_metric_b metric_b.
# TYPE combined_foo_metric_b gauge
combined_foo_metric_b{x="y"} -42
# HELP combined_bar_count Bar Count.
# TYPE combined_bar_count counter
combined_bar_count_total{x="y"} 10
# EOF
"#;

    assert_eq!(registry.encode_openmetrics_to_string().unwrap(), exp);
}

#[test]
fn test_metric_description() {
    let metrics = MetricsGroup::new("foo")
        .with_counter("metric_a", "metric_a")
        .with_counter("metric_b", "metric_b");
    let mut items = Vec::new();
    let mut iter = metrics.iter();
    while let Some(item) = iter.next() {
        items.push(item);
    }
    assert_eq!(items.len(), 2);
    assert_eq!(items[0].name(), "metric_a");
    assert_eq!(items[0].help(), "metric_a");
    assert_eq!(items[0].kind().as_str(), "counter");
    assert_eq!(items[1].name(), "metric_b");
    assert_eq!(items[1].help(), "metric_b");
    assert_eq!(items[1].kind().as_str(), "counter");
}

#[test]
fn core_test_solo_registry() {
    let mut metrics = MetricsGroup::new("foo")
        .with_counter("metric_a", "metric_a")
        .with_counter("metric_b", "metric_b");
    metrics.counter_mut(0).inc();
    metrics.counter_mut(1).inc_by(2);
    metrics.counter_mut(1).inc_by(3);
    assert_eq!(metrics.counter_mut(0).get(), 1);
    assert_eq!(metrics.counter_mut(1).get(), 5);
    metrics.counter_mut(0).set(0);
    metrics.counter_mut(1).set(0);
    assert_eq!(metrics.counter_mut(0).get(), 0);
    assert_eq!(metrics.counter_mut(1).get(), 0);
    metrics.counter_mut(0).inc_by(5);
    metrics.counter_mut(1).inc_by(2);
    assert_eq!(metrics.counter_mut(0).get(), 5);
    assert_eq!(metrics.counter_mut(1).get(), 2);

    let mut registry = Registry::default();
    registry.register(metrics);

    let exp = "# HELP foo_metric_a metric_a.
# TYPE foo_metric_a counter
foo_metric_a_total 5
# HELP foo_metric_b metric_b.
# TYPE foo_metric_b counter
foo_metric_b_total 2
# EOF
";
    let enc = registry.encode_openmetrics_to_string().unwrap();
    assert_eq!(enc, exp);
}

#[test]
fn core_test_metric_sets() {
    let mut metrics = MetricsGroupSet::new("combined")
        .with_group(
            MetricsGroup::new("foo")
                .with_counter("metric_a", "metric_a")
                .with_counter("metric_b", "metric_b"),
        )
        .with_group(bar_metrics());
    metrics.group_mut(0).counter_mut(0).inc();
    metrics.group_mut(1).counter_mut(0).inc_by(10);

    // manual collection and iteration
    let mut collected = Vec::new();
    for (group, metric) in metrics.iter() {
        if let MetricValue::Counter(value) = metric.value() {
            collected.push((group, metric.name().to_string(), metric.help().to_string(), value));
        }
    }
    assert_eq!(
        collected,
        vec![
            (
                "foo".to_string(),
                "metric_a".to_string(),
                "metric_a".to_string(),
                1
            ),
            (
                "foo".to_string(),
                "metric_b".to_string(),
                "metric_b".to_string(),
                0
            ),
            (
                "bar".to_string(),
                "count".to_string(),
                "Bar Count".to_string(),
                10
            ),
        ]
    );

    // automatic collection and encoding prefixed with the set's name
    let mut registry = Registry::default();
    registry.register_all_prefixed(&metrics);
    let exp = "# HELP combined_foo_metric_a metric_a.
# TYPE combined_foo_metric_a counter
combined_foo_metric_a_total 1
# HELP combined_foo_metric_b metric_b.
# TYPE combined_foo_metric_b counter
combined_foo_metric_b_total 0
# HELP combined_bar_count Bar Count.
# TYPE combined_bar_count counter
combined_bar_count_total 10
# EOF
";
    assert_eq!(registry.encode_openmetrics_to_string().unwrap(), exp);
}

#[test]
fn test_set_iteration_order() {
    // Iterating a set yields every group's items in group order, each beside
    // the owning group's name.
    let mut metrics = MetricsGroupSet::new("combined")
        .with_group(
            MetricsGroup::new("foo")
                .with_counter("metric_a", "metric_a")
                .with_counter("metric_b", "metric_b"),
        )
        .with_group(MetricsGroup::new("bar").with_counter("count", "count"));
    metrics.group_mut(0).counter_mut(0).inc();
    metrics.group_mut(1).counter_mut(0).inc_by(10);

    let collected: Vec<(String, String, MetricValue)> = metrics
        .iter()
        .into_iter()
        .map(|(group, metric)| (group, metric.name().to_string(), metric.value()))
        .collect();
    assert_eq!(
        collected,
        vec![
            (
                "foo".to_string(),
                "metric_a".to_string(),
                MetricValue::Counter(1)
            ),
            (
                "foo".to_string(),
                "metric_b".to_string(),
                MetricValue::Counter(0)
            ),
            (
                "bar".to_string(),
                "count".to_string(),
                MetricValue::Counter(10)
            ),
        ]
    );
}

#[test]
fn test_prefix_label_composition() {
    // A group named "foo" with field "metric_a" under a "combined" prefix
    // renders as combined_foo_metric_a with the counter suffix `_total`.
    let mut group = MetricsGroup::new("foo").with_counter("metric_a", "metric_a");
    group.counter_mut(0).inc();

    let mut registry = Registry::default();
    let sub = registry.sub_registry_with_prefix("combined");
    sub.register(group);
    let exp = "# HELP combined_foo_metric_a metric_a.
# TYPE combined_foo_metric_a counter
combined_foo_metric_a_total 1
# EOF
";
    assert_eq!(registry.encode_openmetrics_to_string().unwrap(), exp);

    // The same group under a label renders the label block after the type
    // suffix and before the value.
    let mut group = MetricsGroup::new("foo").with_counter("metric_a", "metric_a");
    group.counter_mut(0).inc();

    let mut registry = Registry::default();
    let sub = registry.sub_registry_with_labels(vec![("x".to_string(), "y".to_string())]);
    sub.register(group);
    let exp = "# HELP foo_metric_a metric_a.
# TYPE foo_metric_a counter
foo_metric_a_total{x=\"y\"} 1
# EOF
";
    assert_eq!(registry.encode_openmetrics_to_string().unwrap(), exp);
}

#[test]
fn test_output_ends_with_eof() {
    let registry = Registry::default();
    let out = registry.encode_openmetrics_to_string().unwrap();
    assert_eq!(out, "# EOF\n");

    let mut registry = Registry::default();
    registry.register(foo_metrics());
    let out = registry.encode_openmetrics_to_string().unwrap();
    assert!(out.ends_with("# EOF\n"));
}

#[test]
fn test_sub_registry_with_label() {
    let mut registry = Registry::default();
    let sub = registry.sub_registry_with_label("k", "v");
    sub.register(MetricsGroup::new("g").with_counter("c", "c"));
    let out = registry.encode_openmetrics_to_string().unwrap();
    assert!(out.contains("g_c_total{k=\"v\"} 0\n"));
}

#[test]
fn test_nested_prefix_composition() {
    // A child's prefix is the parent's prefix, an underscore, and the new
    // segment.
    let mut registry = Registry::default();
    let sub = registry.sub_registry_with_prefix("outer");
    let inner = sub.sub_registry_with_prefix("inner");
    inner.register(MetricsGroup::new("g").with_counter("c", "c"));
    let out = registry.encode_openmetrics_to_string().unwrap();
    assert!(out.contains("outer_inner_g_c_total 0\n"));
}

#[test]
fn test_iterable_fields() {
    let metrics = foo_metrics();
    assert_eq!(metrics.field_count(), 2);
    let first = metrics.field(0).unwrap();
    assert_eq!(first.name(), "metric_a");
    let second = metrics.field(1).unwrap();
    assert_eq!(second.name(), "metric_b");
    assert!(metrics.field(2).is_none());

    let mut iter = iroh_metrics::FieldIter::new(&metrics);
    assert_eq!(iter.next().unwrap().name(), "metric_a");
    assert_eq!(iter.next().unwrap().name(), "metric_b");
    assert!(iter.next().is_none());
    assert!(iter.next().is_none());
}

#[test]
fn test_metrics_source_trait() {
    fn render<S: MetricsSource>(source: &S) -> String {
        source.encode_openmetrics_to_string().unwrap()
    }

    let mut registry = Registry::default();
    registry.register(foo_metrics());
    let from_registry = render(&registry);
    assert!(from_registry.ends_with("# EOF\n"));

    let mut encoder = iroh_metrics::Encoder::new();
    let mut decoder = iroh_metrics::Decoder::default();
    decoder.import(encoder.export(&registry));
    assert_eq!(render(&decoder), from_registry);
}
