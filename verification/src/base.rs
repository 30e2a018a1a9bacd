//! Named metric items, [`MetricsGroup`] and [`MetricsGroupSet`].

use vstd::prelude::*;

use crate::metrics::{
    histogram_wf, spec_metric_type, spec_metric_value, metric_wf, Metric, MetricType, MetricV,
    MetricValue, MetricValueV,
};

verus! {

/// A metric item: one metric together with its name and help text.
#[derive(Debug)]
pub struct MetricItem {
    /// The item's name, used as the final metric name segment.
    pub name: String,
    /// The item's help text, used in the `# HELP` line.
    pub help: String,
    /// The metric itself.
    pub metric: Metric,
}

/// Mathematical model of a [`MetricItem`].
pub ghost struct MetricItemV {
    /// The item's name.
    pub name: Seq<char>,
    /// The item's help text.
    pub help: Seq<char>,
    /// The metric state.
    pub metric: MetricV,
}

impl DeepView for MetricItem {
    type V = MetricItemV;

    open spec fn deep_view(&self) -> MetricItemV {
        MetricItemV { name: self.name@, help: self.help@, metric: self.metric.deep_view() }
    }
}

/// Well-formedness of an item: its metric is well formed.
pub open spec fn item_wf(i: MetricItemV) -> bool {
    metric_wf(i.metric)
}

impl MetricItem {
    /// Returns a new metric item.
    pub fn new(name: &str, help: &str, metric: Metric) -> (r: MetricItem)
        ensures
            r.deep_view() == (MetricItemV {
                name: name@,
                help: help@,
                metric: metric.deep_view(),
            }),
    {
        MetricItem { name: name.to_owned(), help: help.to_owned(), metric }
    }

    /// Returns the name of this metric item.
    pub fn name(&self) -> (r: &str)
        ensures
            r@ == self.deep_view().name,
    {
        self.name.as_str()
    }

    /// Returns the help of this metric item.
    pub fn help(&self) -> (r: &str)
        ensures
            r@ == self.deep_view().help,
    {
        self.help.as_str()
    }

    /// Returns the [`MetricType`] for this item.
    pub fn kind(&self) -> (r: MetricType)
        ensures
            r == spec_metric_type(self.deep_view().metric),
    {
        self.metric.kind()
    }

    /// Returns the current value of this item.
    pub fn value(&self) -> (r: MetricValue)
        requires
            item_wf(self.deep_view()),
        ensures
            r.deep_view() == spec_metric_value(self.deep_view().metric),
    {
        self.metric.value()
    }

    /// Returns the metric held by this item.
    pub fn metric(&self) -> (r: &Metric)
        ensures
            r.deep_view() == self.deep_view().metric,
    {
        &self.metric
    }
}

impl Clone for MetricItem {
    fn clone(&self) -> (r: MetricItem)
        ensures
            r.deep_view() == self.deep_view(),
    {
        MetricItem {
            name: self.name.clone(),
            help: self.help.clone(),
            metric: self.metric.clone(),
        }
    }
}

/// A named collection of metric items.
///
/// Application code builds a group once, with one item per metric it tracks,
/// and then mutates the metrics; a [`crate::Registry`] renders the group under
/// its name.
#[derive(Debug)]
pub struct MetricsGroup {
    /// The group's name, used as a path segment in rendered metric names.
    pub name: String,
    /// The metric items, in declaration order.
    pub items: Vec<MetricItem>,
}

/// Mathematical model of a [`MetricsGroup`].
pub ghost struct MetricsGroupV {
    /// The group's name, used as a path segment in rendered metric names.
    pub name: Seq<char>,
    /// The metric items, in declaration order.
    pub items: Seq<MetricItemV>,
}

impl DeepView for MetricsGroup {
    type V = MetricsGroupV;

    open spec fn deep_view(&self) -> MetricsGroupV {
        MetricsGroupV { name: self.name@, items: self.items.deep_view() }
    }
}

/// Well-formedness of a group: every item is well formed.
pub open spec fn group_wf(g: MetricsGroupV) -> bool {
    forall|i: int| 0 <= i < g.items.len() ==> item_wf(#[trigger] g.items[i])
}

/// Well-formedness of a sequence of groups: every group is well formed.
pub open spec fn groups_wf(gs: Seq<MetricsGroupV>) -> bool {
    forall|i: int| 0 <= i < gs.len() ==> group_wf(#[trigger] gs[i])
}

impl MetricsGroup {
    /// Constructs an empty group with the given name.
    pub fn new(name: &str) -> (r: MetricsGroup)
        ensures
            r.deep_view() == (MetricsGroupV { name: name@, items: Seq::empty() }),
            group_wf(r.deep_view()),
    {
        let r = MetricsGroup { name: name.to_owned(), items: Vec::new() };
        proof {
            assert(r.deep_view().items =~= Seq::<MetricItemV>::empty());
        }
        r
    }

    /// Returns the name of this metrics group.
    pub fn name(&self) -> (r: &str)
        ensures
            r@ == self.deep_view().name,
    {
        self.name.as_str()
    }

    /// Appends an item holding the given metric.
    pub fn with_metric(self, name: &str, help: &str, metric: Metric) -> (r: MetricsGroup)
        ensures
            group_wf(self.deep_view()) && metric_wf(metric.deep_view()) ==> group_wf(
                r.deep_view(),
            ),
            r.deep_view() == (MetricsGroupV {
                name: self.deep_view().name,
                items: self.deep_view().items.push(
                    MetricItemV { name: name@, help: help@, metric: metric.deep_view() },
                ),
            }),
    {
        let mut items = self.items;
        items.push(MetricItem::new(name, help, metric));
        let r = MetricsGroup { name: self.name, items };
        proof {
            assert(r.deep_view().items =~= self.deep_view().items.push(
                MetricItemV { name: name@, help: help@, metric: metric.deep_view() },
            ));
        }
        r
    }

    /// Appends a counter starting at zero, with the given name and help.
    pub fn with_counter(self, name: &str, help: &str) -> (r: MetricsGroup)
        ensures
            group_wf(self.deep_view()) ==> group_wf(r.deep_view()),
            r.deep_view() == (MetricsGroupV {
                name: self.deep_view().name,
                items: self.deep_view().items.push(
                    MetricItemV { name: name@, help: help@, metric: MetricV::Counter(0u64) },
                ),
            }),
    {
        self.with_metric(name, help, Metric::Counter(crate::metrics::Counter::new()))
    }

    /// Appends a gauge starting at zero, with the given name and help.
    pub fn with_gauge(self, name: &str, help: &str) -> (r: MetricsGroup)
        ensures
            group_wf(self.deep_view()) ==> group_wf(r.deep_view()),
            r.deep_view() == (MetricsGroupV {
                name: self.deep_view().name,
                items: self.deep_view().items.push(
                    MetricItemV { name: name@, help: help@, metric: MetricV::Gauge(0i64) },
                ),
            }),
    {
        self.with_metric(name, help, Metric::Gauge(crate::metrics::Gauge::new()))
    }

    /// Returns the number of items in this group.
    pub fn len(&self) -> (r: usize)
        ensures
            r == self.deep_view().items.len(),
    {
        self.items.len()
    }

    /// Returns the item at the given index.
    pub fn item(&self, i: usize) -> (r: &MetricItem)
        requires
            i < self.deep_view().items.len(),
        ensures
            r.deep_view() == self.deep_view().items[i as int],
    {
        &self.items[i]
    }

    /// Returns mutable access to the counter held by item `i`.
    pub fn counter_mut(&mut self, i: usize) -> (r: &mut crate::metrics::Counter)
        requires
            i < old(self).deep_view().items.len(),
            old(self).deep_view().items[i as int].metric is Counter,
        ensures
            (*r)@ == old(self).deep_view().items[i as int].metric->Counter_0,
            final(self).deep_view().name == old(self).deep_view().name,
            final(self).deep_view().items.len() == old(self).deep_view().items.len(),
            forall|j: int|
                0 <= j < old(self).deep_view().items.len() && j != i
                    ==> final(self).deep_view().items[j] == old(self).deep_view().items[j],
            final(self).deep_view().items[i as int] == (MetricItemV {
                name: old(self).deep_view().items[i as int].name,
                help: old(self).deep_view().items[i as int].help,
                metric: MetricV::Counter(final(r)@),
            }),
    {
        let item = &mut self.items[i];
        match &mut item.metric {
            Metric::Counter(c) => c,
            _ => vstd::pervasive::unreached(),
        }
    }

    /// Returns mutable access to the gauge held by item `i`.
    pub fn gauge_mut(&mut self, i: usize) -> (r: &mut crate::metrics::Gauge)
        requires
            i < old(self).deep_view().items.len(),
            old(self).deep_view().items[i as int].metric is Gauge,
        ensures
            (*r)@ == old(self).deep_view().items[i as int].metric->Gauge_0,
            final(self).deep_view().name == old(self).deep_view().name,
            final(self).deep_view().items.len() == old(self).deep_view().items.len(),
            forall|j: int|
                0 <= j < old(self).deep_view().items.len() && j != i
                    ==> final(self).deep_view().items[j] == old(self).deep_view().items[j],
            final(self).deep_view().items[i as int] == (MetricItemV {
                name: old(self).deep_view().items[i as int].name,
                help: old(self).deep_view().items[i as int].help,
                metric: MetricV::Gauge(final(r)@),
            }),
    {
        let item = &mut self.items[i];
        match &mut item.metric {
            Metric::Gauge(g) => g,
            _ => vstd::pervasive::unreached(),
        }
    }

    /// Returns mutable access to the histogram held by item `i`.
    pub fn histogram_mut(&mut self, i: usize) -> (r: &mut crate::metrics::Histogram)
        requires
            group_wf(old(self).deep_view()),
            i < old(self).deep_view().items.len(),
            old(self).deep_view().items[i as int].metric is Histogram,
        ensures
            histogram_wf(old(self).deep_view().items[i as int].metric->Histogram_0),
            (*r).deep_view() == old(self).deep_view().items[i as int].metric->Histogram_0,
            final(self).deep_view().name == old(self).deep_view().name,
            final(self).deep_view().items.len() == old(self).deep_view().items.len(),
            forall|j: int|
                0 <= j < old(self).deep_view().items.len() && j != i
                    ==> final(self).deep_view().items[j] == old(self).deep_view().items[j],
            final(self).deep_view().items[i as int] == (MetricItemV {
                name: old(self).deep_view().items[i as int].name,
                help: old(self).deep_view().items[i as int].help,
                metric: MetricV::Histogram(final(r).deep_view()),
            }),
    {
        let item = &mut self.items[i];
        match &mut item.metric {
            Metric::Histogram(h) => h,
            _ => vstd::pervasive::unreached(),
        }
    }
}

impl Clone for MetricsGroup {
    fn clone(&self) -> (r: MetricsGroup)
        ensures
            r.deep_view() == self.deep_view(),
    {
        let mut items: Vec<MetricItem> = Vec::new();
        let mut i: usize = 0;
        while i < self.items.len()
            invariant
                i <= self.items@.len(),
                items@.len() == i,
                forall|j: int|
                    0 <= j < i ==> #[trigger] items@[j].deep_view() == self.items@[j].deep_view(),
            decreases self.items@.len() - i,
        {
            items.push(self.items[i].clone());
            i += 1;
        }
        let r = MetricsGroup { name: self.name.clone(), items };
        proof {
            assert(r.deep_view().items =~= self.deep_view().items);
        }
        r
    }
}

/// The pairs a group contributes to a set's iteration: its name beside each item.
pub open spec fn spec_group_pairs(g: MetricsGroupV) -> Seq<(Seq<char>, MetricItemV)> {
    Seq::new(g.items.len(), |i: int| (g.name, g.items[i]))
}

/// The flattened iteration order over a sequence of groups: every group's
/// items in group order, each beside its group's name.
pub open spec fn spec_set_pairs(groups: Seq<MetricsGroupV>) -> Seq<(Seq<char>, MetricItemV)>
    decreases groups.len(),
{
    if groups.len() == 0 {
        Seq::empty()
    } else {
        spec_group_pairs(groups[0]) + spec_set_pairs(groups.drop_first())
    }
}

/// A named collection of [`MetricsGroup`]s, registered as one logical unit.
#[derive(Debug)]
pub struct MetricsGroupSet {
    /// The set's name.
    pub name: String,
    /// The groups, in declaration order.
    pub groups: Vec<MetricsGroup>,
}

/// Mathematical model of a [`MetricsGroupSet`].
pub ghost struct MetricsGroupSetV {
    /// The set's name.
    pub name: Seq<char>,
    /// The groups, in declaration order.
    pub groups: Seq<MetricsGroupV>,
}

impl DeepView for MetricsGroupSet {
    type V = MetricsGroupSetV;

    open spec fn deep_view(&self) -> MetricsGroupSetV {
        MetricsGroupSetV { name: self.name@, groups: self.groups.deep_view() }
    }
}

impl MetricsGroupSet {
    /// Constructs an empty set with the given name.
    pub fn new(name: &str) -> (r: MetricsGroupSet)
        ensures
            r.deep_view() == (MetricsGroupSetV { name: name@, groups: Seq::empty() }),
    {
        let r = MetricsGroupSet { name: name.to_owned(), groups: Vec::new() };
        proof {
            assert(r.deep_view().groups =~= Seq::<MetricsGroupV>::empty());
        }
        r
    }

    /// Returns the name of this metrics group set.
    pub fn name(&self) -> (r: &str)
        ensures
            r@ == self.deep_view().name,
    {
        self.name.as_str()
    }

    /// Appends a group to this set.
    pub fn with_group(self, group: MetricsGroup) -> (r: MetricsGroupSet)
        ensures
            groups_wf(self.deep_view().groups) && group_wf(group.deep_view()) ==> groups_wf(
                r.deep_view().groups,
            ),
            r.deep_view() == (MetricsGroupSetV {
                name: self.deep_view().name,
                groups: self.deep_view().groups.push(group.deep_view()),
            }),
    {
        let mut groups = self.groups;
        let ghost gv = group.deep_view();
        groups.push(group);
        let r = MetricsGroupSet { name: self.name, groups };
        proof {
            assert(r.deep_view().groups =~= self.deep_view().groups.push(gv));
        }
        r
    }

    /// Returns the groups in this set.
    pub fn groups(&self) -> (r: &Vec<MetricsGroup>)
        ensures
            r.deep_view() == self.deep_view().groups,
    {
        &self.groups
    }

    /// Returns mutable access to the group at the given index.
    pub fn group_mut(&mut self, i: usize) -> (r: &mut MetricsGroup)
        requires
            i < old(self).deep_view().groups.len(),
        ensures
            groups_wf(old(self).deep_view().groups) ==> group_wf(
                old(self).deep_view().groups[i as int],
            ),
            (*r).deep_view() == old(self).deep_view().groups[i as int],
            final(self).deep_view().name == old(self).deep_view().name,
            final(self).deep_view().groups.len() == old(self).deep_view().groups.len(),
            forall|j: int|
                0 <= j < old(self).deep_view().groups.len() && j != i
                    ==> final(self).deep_view().groups[j] == old(self).deep_view().groups[j],
            final(self).deep_view().groups[i as int] == final(r).deep_view(),
    {
        &mut self.groups[i]
    }

    /// Returns every metric in this set, flattened: each group's items in
    /// group order, paired with the owning group's name.
    pub fn iter(&self) -> (r: Vec<(String, MetricItem)>)
        ensures
            r.deep_view() == spec_set_pairs(self.deep_view().groups),
    {
        let mut out: Vec<(String, MetricItem)> = Vec::new();
        let n = self.groups.len();
        let mut gi: usize = 0;
        while gi < n
            invariant
                gi <= n,
                n == self.groups@.len(),
                out.deep_view() =~= spec_set_pairs(self.deep_view().groups.take(gi as int)),
            decreases n - gi,
        {
            let group = &self.groups[gi];
            let m = group.items.len();
            let mut ii: usize = 0;
            while ii < m
                invariant
                    ii <= m,
                    gi < n,
                    n == self.groups@.len(),
                    m == group.items@.len(),
                    group == &self.groups@[gi as int],
                    out.deep_view() =~= spec_set_pairs(self.deep_view().groups.take(gi as int))
                        + spec_group_pairs(group.deep_view()).take(ii as int),
                decreases m - ii,
            {
                let ghost pre = out.deep_view();
                out.push((group.name.clone(), group.items[ii].clone()));
                proof {
                    let elem = (group.deep_view().name, group.deep_view().items[ii as int]);
                    assert(out.deep_view() =~= pre.push(elem));
                    assert(spec_group_pairs(group.deep_view()).take(ii + 1) =~= spec_group_pairs(
                        group.deep_view(),
                    ).take(ii as int).push(elem));
                    assert(out.deep_view() =~= spec_set_pairs(
                        self.deep_view().groups.take(gi as int),
                    ) + spec_group_pairs(group.deep_view()).take(ii + 1));
                }
                ii += 1;
            }
            proof {
                lemma_set_pairs_snoc(self.deep_view().groups, gi as int);
                assert(spec_group_pairs(group.deep_view()).take(m as int) =~= spec_group_pairs(
                    group.deep_view(),
                ));
            }
            gi += 1;
        }
        proof {
            assert(self.deep_view().groups.take(n as int) =~= self.deep_view().groups);
        }
        out
    }
}

/// Extending the flattened iteration by one more group appends that group's pairs.
pub proof fn lemma_set_pairs_snoc(groups: Seq<MetricsGroupV>, i: int)
    requires
        0 <= i < groups.len(),
    ensures
        spec_set_pairs(groups.take(i + 1)) == spec_set_pairs(groups.take(i)) + spec_group_pairs(
            groups[i],
        ),
    decreases i,
{
    if i == 0 {
        assert(groups.take(1) =~= seq![groups[0]]);
        assert(groups.take(1).drop_first() =~= Seq::<MetricsGroupV>::empty());
        assert(spec_set_pairs(Seq::<MetricsGroupV>::empty()) == Seq::<(
            Seq<char>,
            MetricItemV,
        )>::empty());
        assert(groups.take(0) =~= Seq::<MetricsGroupV>::empty());
        assert(spec_set_pairs(groups.take(1)) =~= spec_set_pairs(groups.take(0))
            + spec_group_pairs(groups[0]));
    } else {
        lemma_set_pairs_snoc(groups.drop_first(), i - 1);
        assert(groups.take(i + 1)[0] == groups[0]);
        assert(groups.take(i + 1).drop_first() =~= groups.drop_first().take(i));
        assert(groups.take(i).drop_first() =~= groups.drop_first().take(i - 1));
        assert(groups.drop_first()[i - 1] == groups[i]);
        assert(spec_set_pairs(groups.take(i + 1)) == spec_group_pairs(groups[0]) + spec_set_pairs(
            groups.drop_first().take(i),
        ));
        assert(spec_set_pairs(groups.take(i)) == spec_group_pairs(groups[0]) + spec_set_pairs(
            groups.drop_first().take(i - 1),
        ));
        assert(spec_set_pairs(groups.take(i + 1)) =~= spec_set_pairs(groups.take(i))
            + spec_group_pairs(groups[i]));
    }
}

impl Clone for MetricsGroupSet {
    fn clone(&self) -> (r: MetricsGroupSet)
        ensures
            r.deep_view() == self.deep_view(),
    {
        let mut groups: Vec<MetricsGroup> = Vec::new();
        let mut i: usize = 0;
        while i < self.groups.len()
            invariant
                i <= self.groups@.len(),
                groups@.len() == i,
                forall|j: int|
                    0 <= j < i ==> #[trigger] groups@[j].deep_view() == self.groups@[j].deep_view(),
            decreases self.groups@.len() - i,
        {
            groups.push(self.groups[i].clone());
            i += 1;
        }
        let r = MetricsGroupSet { name: self.name.clone(), groups };
        proof {
            assert(r.deep_view().groups =~= self.deep_view().groups);
        }
        r
    }
}

/// A group stays well formed when one item is replaced by a well-formed item.
pub proof fn lemma_group_wf_update(old_g: MetricsGroupV, new_g: MetricsGroupV, i: int)
    requires
        group_wf(old_g),
        new_g.items.len() == old_g.items.len(),
        forall|j: int|
            0 <= j < old_g.items.len() && j != i ==> new_g.items[j] == old_g.items[j],
        0 <= i < new_g.items.len(),
        item_wf(new_g.items[i]),
    ensures
        group_wf(new_g),
{
    assert forall|j: int| 0 <= j < new_g.items.len() implies item_wf(#[trigger] new_g.items[j]) by {
        if j != i {
            assert(new_g.items[j] == old_g.items[j]);
            assert(item_wf(old_g.items[j]));
        }
    };
}

/// A sequence of groups stays well formed when one group is replaced by a
/// well-formed group.
pub proof fn lemma_groups_wf_update(old_gs: Seq<MetricsGroupV>, new_gs: Seq<MetricsGroupV>, i: int)
    requires
        groups_wf(old_gs),
        new_gs.len() == old_gs.len(),
        forall|j: int| 0 <= j < old_gs.len() && j != i ==> new_gs[j] == old_gs[j],
        0 <= i < new_gs.len(),
        group_wf(new_gs[i]),
    ensures
        groups_wf(new_gs),
{
    assert forall|j: int| 0 <= j < new_gs.len() implies group_wf(#[trigger] new_gs[j]) by {
        if j != i {
            assert(new_gs[j] == old_gs[j]);
            assert(group_wf(old_gs[j]));
        }
    };
}

} // verus!
