//! Registry to register metrics groups and encode them in the OpenMetrics
//! text format.

use vstd::prelude::*;
use vstd::string::StringExecFns;

use crate::base::{group_wf, groups_wf, MetricsGroup, MetricsGroupSet, MetricsGroupV};
use crate::encoding::{
    clone_labels, lemma_groups_om_snoc, lemma_groups_schema_snoc, lemma_groups_values_snoc,
    spec_group_om, spec_groups_om, spec_groups_schema, spec_groups_values, write_eof, ItemSchemaV,
    Schema, Values,
};
use crate::metrics::MetricValueV;
use crate::Error;

verus! {

broadcast use vstd::std_specs::vec::axiom_vec_index_decreases;

/// A registry node: a set of directly registered groups, an optional
/// accumulated name prefix, accumulated labels, and child sub-registries.
///
/// The tree only grows: groups and sub-registries are appended, never
/// removed.  Each node stores its full accumulated prefix and label list,
/// composed at creation from its parent's.
#[derive(Debug)]
pub struct Registry {
    /// The groups registered directly at this node.
    pub metrics: Vec<MetricsGroup>,
    /// The accumulated name prefix of this node, underscore-joined.
    pub prefix: Option<String>,
    /// The accumulated label pairs of this node.
    pub labels: Vec<(String, String)>,
    /// The child sub-registries, in creation order.
    pub sub_registries: Vec<Registry>,
}

/// Mathematical model of a [`Registry`] node.
pub ghost struct RegistryV {
    /// The groups registered directly at this node.
    pub groups: Seq<MetricsGroupV>,
    /// The accumulated name prefix.
    pub prefix: Option<Seq<char>>,
    /// The accumulated label pairs.
    pub labels: Seq<(Seq<char>, Seq<char>)>,
    /// The child sub-registries.
    pub subs: Seq<RegistryV>,
}

/// The model of a registry node and, recursively, of its children.
pub open spec fn reg_view(r: Registry) -> RegistryV
    decreases r, 1int,
    via reg_view_decreases
{
    RegistryV {
        groups: r.metrics.deep_view(),
        prefix: r.prefix.deep_view(),
        labels: r.labels.deep_view(),
        subs: subs_view(r.sub_registries@),
    }
}

#[via_fn]
proof fn reg_view_decreases(r: Registry) {
    assert(decreases_to!(r => r.sub_registries));
    assert(decreases_to!(r.sub_registries => r.sub_registries@));
}

/// The models of a sequence of registry nodes.
pub open spec fn subs_view(s: Seq<Registry>) -> Seq<RegistryV>
    decreases s, 0int,
{
    if s.len() == 0 {
        Seq::empty()
    } else {
        seq![reg_view(s[0])] + subs_view(s.drop_first())
    }
}

/// A sequence of registry nodes has one model per node.
pub broadcast proof fn lemma_subs_view_len(s: Seq<Registry>)
    ensures
        #[trigger] subs_view(s).len() == s.len(),
    decreases s.len(),
{
    if s.len() > 0 {
        lemma_subs_view_len(s.drop_first());
    }
}

/// The model of the `i`-th node in a sequence is the `i`-th model.
pub broadcast proof fn lemma_subs_view_index(s: Seq<Registry>, i: int)
    requires
        0 <= i < s.len(),
    ensures
        #[trigger] subs_view(s)[i] == reg_view(s[i]),
    decreases s.len(),
{
    lemma_subs_view_len(s);
    if i > 0 {
        lemma_subs_view_index(s.drop_first(), i - 1);
    }
}

/// The model of a registry node, related field by field to the node.
pub broadcast proof fn lemma_reg_view_parts(r: Registry)
    ensures
        (#[trigger] reg_view(r)).groups == r.metrics.deep_view(),
        reg_view(r).prefix == r.prefix.deep_view(),
        reg_view(r).labels == r.labels.deep_view(),
        reg_view(r).subs.len() == r.sub_registries@.len(),
        forall|i: int|
            0 <= i < r.sub_registries@.len() ==> #[trigger] reg_view(r).subs[i] == reg_view(
                r.sub_registries@[i],
            ),
{
    lemma_subs_view_len(r.sub_registries@);
    assert forall|i: int| 0 <= i < r.sub_registries@.len() implies #[trigger] reg_view(
        r,
    ).subs[i] == reg_view(r.sub_registries@[i]) by {
        lemma_subs_view_index(r.sub_registries@, i);
    };
}

impl DeepView for Registry {
    type V = RegistryV;

    open spec fn deep_view(&self) -> RegistryV {
        reg_view(*self)
    }
}

/// Well-formedness of a registry: every group everywhere is well formed.
pub open spec fn registry_wf(r: RegistryV) -> bool
    decreases r,
{
    &&& forall|i: int| 0 <= i < r.groups.len() ==> group_wf(#[trigger] r.groups[i])
    &&& forall|i: int| 0 <= i < r.subs.len() ==> registry_wf(#[trigger] r.subs[i])
}

/// The OpenMetrics rendering of a registry node: its direct groups first,
/// then its children, depth-first in creation order.
pub open spec fn spec_registry_om(r: RegistryV) -> Seq<char>
    decreases r, 1int,
{
    spec_groups_om(r.prefix, r.labels, r.groups) + spec_subs_om(r.subs)
}

/// The OpenMetrics rendering of a sequence of sub-registries.
pub open spec fn spec_subs_om(subs: Seq<RegistryV>) -> Seq<char>
    decreases subs, 0int,
{
    if subs.len() == 0 {
        Seq::empty()
    } else {
        spec_registry_om(subs[0]) + spec_subs_om(subs.drop_first())
    }
}

/// Extending the rendered sub-registries by one more child appends its rendering.
pub proof fn lemma_subs_om_snoc(subs: Seq<RegistryV>, k: int)
    requires
        0 <= k < subs.len(),
    ensures
        spec_subs_om(subs.take(k + 1)) == spec_subs_om(subs.take(k)) + spec_registry_om(subs[k]),
    decreases k,
{
    if k == 0 {
        assert(subs.take(1) =~= seq![subs[0]]);
        assert(subs.take(1).drop_first() =~= Seq::<RegistryV>::empty());
        assert(subs.take(0) =~= Seq::<RegistryV>::empty());
        assert(spec_subs_om(subs.take(1)) =~= spec_subs_om(subs.take(0)) + spec_registry_om(
            subs[0],
        ));
    } else {
        lemma_subs_om_snoc(subs.drop_first(), k - 1);
        assert(subs.take(k + 1)[0] == subs[0]);
        assert(subs.take(k + 1).drop_first() =~= subs.drop_first().take(k));
        assert(subs.take(k).drop_first() =~= subs.drop_first().take(k - 1));
        assert(subs.drop_first()[k - 1] == subs[k]);
        assert(spec_subs_om(subs.take(k + 1)) =~= spec_subs_om(subs.take(k)) + spec_registry_om(
            subs[k],
        ));
    }
}

/// The number of groups registered in a registry tree.
pub open spec fn spec_group_count(r: RegistryV) -> int
    decreases r, 1int,
{
    r.groups.len() + spec_subs_count(r.subs)
}

/// The number of groups registered under a sequence of sub-registries.
pub open spec fn spec_subs_count(subs: Seq<RegistryV>) -> int
    decreases subs, 0int,
{
    if subs.len() == 0 {
        0
    } else {
        spec_group_count(subs[0]) + spec_subs_count(subs.drop_first())
    }
}

/// Group counts are never negative.
pub proof fn lemma_group_count_nonneg(r: RegistryV)
    ensures
        spec_group_count(r) >= 0,
    decreases r, 1int,
{
    lemma_subs_count_nonneg(r.subs);
}

/// Group counts of sub-registry lists are never negative.
pub proof fn lemma_subs_count_nonneg(subs: Seq<RegistryV>)
    ensures
        spec_subs_count(subs) >= 0,
    decreases subs, 0int,
{
    if subs.len() > 0 {
        lemma_group_count_nonneg(subs[0]);
        lemma_subs_count_nonneg(subs.drop_first());
    }
}

/// Extending the counted sub-registries by one more child adds its count.
pub proof fn lemma_subs_count_snoc(subs: Seq<RegistryV>, k: int)
    requires
        0 <= k < subs.len(),
    ensures
        spec_subs_count(subs.take(k + 1)) == spec_subs_count(subs.take(k)) + spec_group_count(
            subs[k],
        ),
    decreases k,
{
    if k == 0 {
        assert(subs.take(1) =~= seq![subs[0]]);
        assert(subs.take(1).drop_first() =~= Seq::<RegistryV>::empty());
        assert(subs.take(0) =~= Seq::<RegistryV>::empty());
    } else {
        lemma_subs_count_snoc(subs.drop_first(), k - 1);
        assert(subs.take(k + 1)[0] == subs[0]);
        assert(subs.take(k + 1).drop_first() =~= subs.drop_first().take(k));
        assert(subs.take(k).drop_first() =~= subs.drop_first().take(k - 1));
        assert(subs.drop_first()[k - 1] == subs[k]);
    }
}

/// An integer clamped to the unsigned 64-bit range from above.
pub open spec fn spec_sat_u64(x: int) -> int {
    if x > u64::MAX {
        u64::MAX as int
    } else {
        x
    }
}

/// The schema version of a registry: the total number of registered groups,
/// clamped to the 64-bit range.  Registration is append-only, so the version
/// changes exactly when a registration happens (as long as the clamp is not
/// reached), and equal versions mean an identical schema.
pub open spec fn spec_schema_version(r: RegistryV) -> u64 {
    spec_sat_u64(spec_group_count(r)) as u64
}

/// Saturating unsigned addition.
fn sat_add_u64(a: u64, b: u64) -> (r: u64)
    ensures
        r as int == spec_sat_u64(a + b),
{
    if a > u64::MAX - b {
        u64::MAX
    } else {
        a + b
    }
}

/// The prefix of a child registry: the parent's prefix, an underscore and the
/// new segment, or just the new segment when the parent has none.
pub open spec fn spec_joined_prefix(parent: Option<Seq<char>>, p: Seq<char>) -> Seq<char> {
    match parent {
        Some(q) => q + "_"@ + p,
        None => p,
    }
}

/// A registry stays well formed when one more well-formed child is appended
/// and everything else is unchanged.
pub proof fn lemma_registry_wf_grow(old_r: RegistryV, new_r: RegistryV)
    requires
        registry_wf(old_r),
        new_r.groups == old_r.groups,
        new_r.subs.len() == old_r.subs.len() + 1,
        forall|j: int| 0 <= j < old_r.subs.len() ==> new_r.subs[j] == old_r.subs[j],
        registry_wf(new_r.subs[old_r.subs.len() as int]),
    ensures
        registry_wf(new_r),
{
    assert forall|j: int| 0 <= j < new_r.subs.len() implies registry_wf(
        #[trigger] new_r.subs[j],
    ) by {
        if j < old_r.subs.len() {
            assert(new_r.subs[j] == old_r.subs[j]);
            assert(registry_wf(old_r.subs[j]));
        }
    };
}

/// A registry stays well formed when one directly registered group is
/// replaced by a well-formed group and everything else is unchanged.
pub proof fn lemma_registry_wf_group_update(old_r: RegistryV, new_r: RegistryV, i: int)
    requires
        registry_wf(old_r),
        new_r.subs == old_r.subs,
        new_r.groups.len() == old_r.groups.len(),
        forall|j: int|
            0 <= j < old_r.groups.len() && j != i ==> new_r.groups[j] == old_r.groups[j],
        0 <= i < new_r.groups.len(),
        group_wf(new_r.groups[i]),
    ensures
        registry_wf(new_r),
{
    assert forall|j: int| 0 <= j < new_r.groups.len() implies group_wf(
        #[trigger] new_r.groups[j],
    ) by {
        if j != i {
            assert(new_r.groups[j] == old_r.groups[j]);
            assert(group_wf(old_r.groups[j]));
        }
    };
}

impl Default for Registry {
    fn default() -> (r: Registry)
        ensures
            r.deep_view().groups.len() == 0,
            r.deep_view().prefix is None,
            r.deep_view().labels.len() == 0,
            r.deep_view().subs.len() == 0,
            registry_wf(r.deep_view()),
    {
        Registry { metrics: Vec::new(), prefix: None, labels: Vec::new(), sub_registries: Vec::new() }
    }
}

impl Registry {
    /// Creates a subregistry where all metrics are prefixed with `prefix`.
    ///
    /// Returns a mutable reference to the subregistry.
    pub fn sub_registry_with_prefix(&mut self, prefix: &str) -> (r: &mut Registry)
        ensures
            registry_wf((*r).deep_view()),
            (*r).deep_view().groups.len() == 0,
            (*r).deep_view().prefix == Some(
                spec_joined_prefix(old(self).deep_view().prefix, prefix@),
            ),
            (*r).deep_view().labels == old(self).deep_view().labels,
            (*r).deep_view().subs.len() == 0,
            final(self).deep_view().groups == old(self).deep_view().groups,
            final(self).deep_view().prefix == old(self).deep_view().prefix,
            final(self).deep_view().labels == old(self).deep_view().labels,
            final(self).deep_view().subs.len() == old(self).deep_view().subs.len() + 1,
            forall|j: int|
                0 <= j < old(self).deep_view().subs.len()
                    ==> final(self).deep_view().subs[j] == old(self).deep_view().subs[j],
            final(self).deep_view().subs[old(self).deep_view().subs.len() as int] == final(r).deep_view(),
    {
        broadcast use lemma_subs_view_len, lemma_subs_view_index, lemma_reg_view_parts;

        let combined: String = match &self.prefix {
            Some(q) => {
                let mut s = q.clone();
                s.append("_");
                s.append(prefix);
                s
            },
            None => prefix.to_owned(),
        };
        let child = Registry {
            metrics: Vec::new(),
            prefix: Some(combined),
            labels: clone_labels(&self.labels),
            sub_registries: Vec::new(),
        };
        let n = self.sub_registries.len();
        self.sub_registries.push(child);
        &mut self.sub_registries[n]
    }

    /// Creates a subregistry where all metrics carry the given labels in
    /// addition to this node's.
    ///
    /// Returns a mutable reference to the subregistry.
    pub fn sub_registry_with_labels(&mut self, labels: Vec<(String, String)>) -> (r: &mut Registry)
        ensures
            registry_wf((*r).deep_view()),
            (*r).deep_view().groups.len() == 0,
            (*r).deep_view().prefix == old(self).deep_view().prefix,
            (*r).deep_view().labels == old(self).deep_view().labels + labels.deep_view(),
            (*r).deep_view().subs.len() == 0,
            final(self).deep_view().groups == old(self).deep_view().groups,
            final(self).deep_view().prefix == old(self).deep_view().prefix,
            final(self).deep_view().labels == old(self).deep_view().labels,
            final(self).deep_view().subs.len() == old(self).deep_view().subs.len() + 1,
            forall|j: int|
                0 <= j < old(self).deep_view().subs.len()
                    ==> final(self).deep_view().subs[j] == old(self).deep_view().subs[j],
            final(self).deep_view().subs[old(self).deep_view().subs.len() as int] == final(r).deep_view(),
    {
        broadcast use lemma_subs_view_len, lemma_subs_view_index, lemma_reg_view_parts;

        let mut all_labels = clone_labels(&self.labels);
        let mut i: usize = 0;
        while i < labels.len()
            invariant
                i <= labels@.len(),
                all_labels@ =~= self.labels@ + labels@.take(i as int),
            decreases labels@.len() - i,
        {
            all_labels.push((labels[i].0.clone(), labels[i].1.clone()));
            proof {
                assert(all_labels@ =~= self.labels@ + labels@.take(i + 1));
            }
            i += 1;
        }
        proof {
            assert(all_labels@ =~= self.labels@ + labels@);
            assert(all_labels.deep_view() =~~= self.labels.deep_view() + labels.deep_view());
        }
        let child_prefix: Option<String> = match &self.prefix {
            Some(q) => Some(q.clone()),
            None => None,
        };
        let child = Registry {
            metrics: Vec::new(),
            prefix: child_prefix,
            labels: all_labels,
            sub_registries: Vec::new(),
        };
        let n = self.sub_registries.len();
        self.sub_registries.push(child);
        &mut self.sub_registries[n]
    }

    /// Creates a subregistry where all metrics carry one more `key=value`
    /// label.
    ///
    /// Returns a mutable reference to the subregistry.
    pub fn sub_registry_with_label(&mut self, key: &str, value: &str) -> (r: &mut Registry)
        ensures
            registry_wf((*r).deep_view()),
            (*r).deep_view().groups.len() == 0,
            (*r).deep_view().prefix == old(self).deep_view().prefix,
            (*r).deep_view().labels == old(self).deep_view().labels + seq![(key@, value@)],
            (*r).deep_view().subs.len() == 0,
            final(self).deep_view().groups == old(self).deep_view().groups,
            final(self).deep_view().prefix == old(self).deep_view().prefix,
            final(self).deep_view().labels == old(self).deep_view().labels,
            final(self).deep_view().subs.len() == old(self).deep_view().subs.len() + 1,
            forall|j: int|
                0 <= j < old(self).deep_view().subs.len()
                    ==> final(self).deep_view().subs[j] == old(self).deep_view().subs[j],
            final(self).deep_view().subs[old(self).deep_view().subs.len() as int] == final(r).deep_view(),
    {
        broadcast use lemma_subs_view_len, lemma_subs_view_index, lemma_reg_view_parts;

        let mut pairs: Vec<(String, String)> = Vec::new();
        pairs.push((key.to_owned(), value.to_owned()));
        proof {
            assert(pairs.deep_view() =~= seq![(key@, value@)]);
        }
        self.sub_registry_with_labels(pairs)
    }

    /// Registers a [`MetricsGroup`] into this registry.
    pub fn register(&mut self, metrics_group: MetricsGroup)
        ensures
            registry_wf(old(self).deep_view()) && group_wf(metrics_group.deep_view())
                ==> registry_wf(final(self).deep_view()),
            final(self).deep_view().groups == old(self).deep_view().groups.push(
                metrics_group.deep_view(),
            ),
            final(self).deep_view().prefix == old(self).deep_view().prefix,
            final(self).deep_view().labels == old(self).deep_view().labels,
            final(self).deep_view().subs == old(self).deep_view().subs,
    {
        broadcast use lemma_subs_view_len, lemma_subs_view_index, lemma_reg_view_parts;

        let ghost gv = metrics_group.deep_view();
        self.metrics.push(metrics_group);
        proof {
            assert(self.deep_view().groups =~= old(self).deep_view().groups.push(gv));
            assert(self.deep_view().subs =~= old(self).deep_view().subs);
        }
    }

    /// Registers a clone of every group of a [`MetricsGroupSet`] into this
    /// registry, without extra prefixing.
    pub fn register_all(&mut self, metrics_group_set: &MetricsGroupSet)
        ensures
            registry_wf(old(self).deep_view()) && groups_wf(metrics_group_set.deep_view().groups)
                ==> registry_wf(final(self).deep_view()),
            final(self).deep_view().groups == old(self).deep_view().groups
                + metrics_group_set.deep_view().groups,
            final(self).deep_view().prefix == old(self).deep_view().prefix,
            final(self).deep_view().labels == old(self).deep_view().labels,
            final(self).deep_view().subs == old(self).deep_view().subs,
    {
        broadcast use lemma_subs_view_len, lemma_subs_view_index, lemma_reg_view_parts;

        let n = metrics_group_set.groups.len();
        let mut i: usize = 0;
        while i < n
            invariant
                i <= n,
                n == metrics_group_set.groups@.len(),
                self.deep_view().groups =~= old(self).deep_view().groups
                    + metrics_group_set.deep_view().groups.take(i as int),
                self.deep_view().prefix == old(self).deep_view().prefix,
                self.deep_view().labels == old(self).deep_view().labels,
                self.deep_view().subs == old(self).deep_view().subs,
            decreases n - i,
        {
            self.register(metrics_group_set.groups[i].clone());
            proof {
                assert(self.deep_view().groups =~= old(self).deep_view().groups
                    + metrics_group_set.deep_view().groups.take(i + 1));
            }
            i += 1;
        }
        proof {
            assert(metrics_group_set.deep_view().groups.take(n as int)
                =~= metrics_group_set.deep_view().groups);
            assert(final(self).deep_view().groups =~= old(self).deep_view().groups
                + metrics_group_set.deep_view().groups);
        }
    }

    /// Registers every group of a [`MetricsGroupSet`] into a new subregistry
    /// prefixed with the set's name.
    pub fn register_all_prefixed(&mut self, metrics_group_set: &MetricsGroupSet)
        ensures
            registry_wf(old(self).deep_view()) && groups_wf(metrics_group_set.deep_view().groups)
                ==> registry_wf(final(self).deep_view()),
            final(self).deep_view().groups == old(self).deep_view().groups,
            final(self).deep_view().prefix == old(self).deep_view().prefix,
            final(self).deep_view().labels == old(self).deep_view().labels,
            final(self).deep_view().subs.len() == old(self).deep_view().subs.len() + 1,
            forall|j: int|
                0 <= j < old(self).deep_view().subs.len()
                    ==> final(self).deep_view().subs[j] == old(self).deep_view().subs[j],
            final(self).deep_view().subs[old(self).deep_view().subs.len() as int] == (RegistryV {
                groups: metrics_group_set.deep_view().groups,
                prefix: Some(
                    spec_joined_prefix(
                        old(self).deep_view().prefix,
                        metrics_group_set.deep_view().name,
                    ),
                ),
                labels: old(self).deep_view().labels,
                subs: final(self).deep_view().subs[old(self).deep_view().subs.len() as int].subs,
            }),
            final(self).deep_view().subs[old(self).deep_view().subs.len() as int].subs.len() == 0,
    {
        broadcast use lemma_subs_view_len, lemma_subs_view_index, lemma_reg_view_parts;

        let registry = self.sub_registry_with_prefix(metrics_group_set.name.as_str());
        registry.register_all(metrics_group_set);
    }

    /// Returns mutable access to the group at the given index of this node.
    pub fn group_mut(&mut self, i: usize) -> (r: &mut MetricsGroup)
        requires
            i < old(self).deep_view().groups.len(),
        ensures
            (*r).deep_view() == old(self).deep_view().groups[i as int],
            final(self).deep_view().groups.len() == old(self).deep_view().groups.len(),
            forall|j: int|
                0 <= j < old(self).deep_view().groups.len() && j != i
                    ==> final(self).deep_view().groups[j] == old(self).deep_view().groups[j],
            final(self).deep_view().groups[i as int] == final(r).deep_view(),
            final(self).deep_view().prefix == old(self).deep_view().prefix,
            final(self).deep_view().labels == old(self).deep_view().labels,
            final(self).deep_view().subs == old(self).deep_view().subs,
    {
        broadcast use lemma_subs_view_len, lemma_subs_view_index, lemma_reg_view_parts;

        &mut self.metrics[i]
    }

    /// Returns the registry's schema version: the total number of groups
    /// registered anywhere in this tree, clamped to the 64-bit range.  It
    /// changes exactly when a registration happens.
    pub fn schema_version(&self) -> (r: u64)
        ensures
            r as int == spec_sat_u64(spec_group_count(self.deep_view())),
        decreases *self,
    {
        broadcast use lemma_subs_view_len, lemma_subs_view_index, lemma_reg_view_parts;

        let ghost rv = self.deep_view();
        let mut c: u64 = self.metrics.len() as u64;
        let n = self.sub_registries.len();
        let mut i: usize = 0;
        while i < n
            invariant
                i <= n,
                n == self.sub_registries@.len(),
                rv == self.deep_view(),
                c as int == spec_sat_u64(
                    rv.groups.len() + spec_subs_count(rv.subs.take(i as int)),
                ),
            decreases n - i,
        {
            proof {
                assert(rv.subs == subs_view(self.sub_registries@));
                lemma_subs_view_len(self.sub_registries@);
                lemma_subs_view_index(self.sub_registries@, i as int);
                assert(rv.subs[i as int] == self.sub_registries@[i as int].deep_view());
            }
            let sub_count = self.sub_registries[i].schema_version();
            proof {
                lemma_subs_count_snoc(rv.subs, i as int);
                lemma_group_count_nonneg(rv.subs[i as int]);
                lemma_subs_count_nonneg(rv.subs.take(i as int));
            }
            c = sat_add_u64(c, sub_count);
            i += 1;
        }
        proof {
            assert(rv.subs == subs_view(self.sub_registries@));
            lemma_subs_view_len(self.sub_registries@);
            assert(rv.subs.take(n as int) =~= rv.subs);
        }
        c
    }

    /// Appends the OpenMetrics rendering of this node's groups and then,
    /// recursively, of its children.
    pub fn encode_inner(&self, writer: &mut String)
        requires
            registry_wf(self.deep_view()),
        ensures
            final(writer)@ == old(writer)@ + spec_registry_om(self.deep_view()),
        decreases *self,
    {
        broadcast use lemma_subs_view_len, lemma_subs_view_index, lemma_reg_view_parts;

        let ghost rv = self.deep_view();
        let prefix: Option<&str> = match &self.prefix {
            Some(p) => Some(p.as_str()),
            None => None,
        };
        let gn = self.metrics.len();
        let mut i: usize = 0;
        while i < gn
            invariant
                i <= gn,
                gn == self.metrics@.len(),
                rv == self.deep_view(),
                registry_wf(rv),
                prefix.deep_view() == rv.prefix,
                writer@ == old(writer)@ + spec_groups_om(rv.prefix, rv.labels, rv.groups.take(
                    i as int,
                )),
            decreases gn - i,
        {
            proof {
                assert(group_wf(rv.groups[i as int]));
                assert(rv.groups[i as int] == self.metrics@[i as int].deep_view());
            }
            self.metrics[i].encode_openmetrics(writer, prefix, &self.labels);
            proof {
                lemma_groups_om_snoc(rv.prefix, rv.labels, rv.groups, i as int);
                assert(writer@ =~= old(writer)@ + spec_groups_om(
                    rv.prefix,
                    rv.labels,
                    rv.groups.take(i + 1),
                ));
            }
            i += 1;
        }
        proof {
            assert(rv.groups.take(gn as int) =~= rv.groups);
        }
        let sn = self.sub_registries.len();
        let mut i: usize = 0;
        while i < sn
            invariant
                i <= sn,
                sn == self.sub_registries@.len(),
                rv == self.deep_view(),
                registry_wf(rv),
                writer@ == old(writer)@ + spec_groups_om(rv.prefix, rv.labels, rv.groups)
                    + spec_subs_om(rv.subs.take(i as int)),
            decreases sn - i,
        {
            proof {
                assert(rv.subs == subs_view(self.sub_registries@));
                lemma_subs_view_len(self.sub_registries@);
                lemma_subs_view_index(self.sub_registries@, i as int);
                assert(rv.subs[i as int] == self.sub_registries@[i as int].deep_view());
                assert(registry_wf(rv.subs[i as int]));
            }
            self.sub_registries[i].encode_inner(writer);
            proof {
                lemma_subs_om_snoc(rv.subs, i as int);
                assert(writer@ =~= old(writer)@ + spec_groups_om(rv.prefix, rv.labels, rv.groups)
                    + spec_subs_om(rv.subs.take(i + 1)));
            }
            i += 1;
        }
        proof {
            assert(rv.subs == subs_view(self.sub_registries@));
            lemma_subs_view_len(self.sub_registries@);
            assert(rv.subs.take(sn as int) =~= rv.subs);
            assert(final(writer)@ =~= old(writer)@ + spec_registry_om(rv));
        }
    }

    /// Appends the full OpenMetrics text of this registry, terminated by the
    /// `# EOF` line.  Writing to an in-memory buffer cannot fail, so the
    /// result is always `Ok`.
    pub fn encode_openmetrics(&self, writer: &mut String) -> (r: Result<(), Error>)
        requires
            registry_wf(self.deep_view()),
        ensures
            r is Ok,
            final(writer)@ == old(writer)@ + spec_registry_om(self.deep_view()) + "# EOF\n"@,
    {
        self.encode_inner(writer);
        write_eof(writer);
        Ok(())
    }

    /// Encodes the full OpenMetrics text of this registry into a new string.
    pub fn encode_openmetrics_to_string(&self) -> (r: Result<String, Error>)
        requires
            registry_wf(self.deep_view()),
        ensures
            r is Ok,
            r->Ok_0@ == spec_registry_om(self.deep_view()) + "# EOF\n"@,
    {
        let mut s = String::new();
        self.encode_inner(&mut s);
        write_eof(&mut s);
        proof {
            assert(s@ =~= spec_registry_om(self.deep_view()) + "# EOF\n"@);
        }
        Ok(s)
    }
}

/// Helper trait to abstract over the ways a renderable set of metrics can be
/// held: a live [`Registry`], or a [`crate::Decoder`] holding transported
/// state.
pub trait MetricsSource {
    /// What the source requires of its own state to render.
    spec fn source_wf(&self) -> bool;

    /// The exact text the source renders to.
    spec fn spec_openmetrics_text(&self) -> Seq<char>;

    /// Encodes all metrics into a string in the OpenMetrics text format.
    fn encode_openmetrics_to_string(&self) -> (r: Result<String, Error>)
        requires
            self.source_wf(),
        ensures
            r is Ok,
            r->Ok_0@ == self.spec_openmetrics_text(),
    ;
}


/// The snapshot schema of a registry: one identity descriptor per metric, in
/// the same traversal order as the OpenMetrics rendering.
pub open spec fn spec_registry_schema(r: RegistryV, with_help: bool) -> Seq<ItemSchemaV>
    decreases r, 1int,
{
    spec_groups_schema(r.prefix, r.labels, r.groups, with_help) + spec_subs_schema(
        r.subs,
        with_help,
    )
}

/// The snapshot schema contributed by a sequence of sub-registries.
pub open spec fn spec_subs_schema(subs: Seq<RegistryV>, with_help: bool) -> Seq<ItemSchemaV>
    decreases subs, 0int,
{
    if subs.len() == 0 {
        Seq::empty()
    } else {
        spec_registry_schema(subs[0], with_help) + spec_subs_schema(subs.drop_first(), with_help)
    }
}

/// Extending the described sub-registries by one more child appends its schema.
pub proof fn lemma_subs_schema_snoc(subs: Seq<RegistryV>, with_help: bool, k: int)
    requires
        0 <= k < subs.len(),
    ensures
        spec_subs_schema(subs.take(k + 1), with_help) == spec_subs_schema(subs.take(k), with_help)
            + spec_registry_schema(subs[k], with_help),
    decreases k,
{
    if k == 0 {
        assert(subs.take(1) =~= seq![subs[0]]);
        assert(subs.take(1).drop_first() =~= Seq::<RegistryV>::empty());
        assert(subs.take(0) =~= Seq::<RegistryV>::empty());
        assert(spec_subs_schema(subs.take(1), with_help) =~= spec_subs_schema(
            subs.take(0),
            with_help,
        ) + spec_registry_schema(subs[0], with_help));
    } else {
        lemma_subs_schema_snoc(subs.drop_first(), with_help, k - 1);
        assert(subs.take(k + 1)[0] == subs[0]);
        assert(subs.take(k + 1).drop_first() =~= subs.drop_first().take(k));
        assert(subs.take(k).drop_first() =~= subs.drop_first().take(k - 1));
        assert(subs.drop_first()[k - 1] == subs[k]);
        assert(spec_subs_schema(subs.take(k + 1), with_help) =~= spec_subs_schema(
            subs.take(k),
            with_help,
        ) + spec_registry_schema(subs[k], with_help));
    }
}

/// The snapshot values of a registry, in the same traversal order.
pub open spec fn spec_registry_values(r: RegistryV) -> Seq<MetricValueV>
    decreases r, 1int,
{
    spec_groups_values(r.groups) + spec_subs_values(r.subs)
}

/// The snapshot values contributed by a sequence of sub-registries.
pub open spec fn spec_subs_values(subs: Seq<RegistryV>) -> Seq<MetricValueV>
    decreases subs, 0int,
{
    if subs.len() == 0 {
        Seq::empty()
    } else {
        spec_registry_values(subs[0]) + spec_subs_values(subs.drop_first())
    }
}

/// Extending the valued sub-registries by one more child appends its values.
pub proof fn lemma_subs_values_snoc(subs: Seq<RegistryV>, k: int)
    requires
        0 <= k < subs.len(),
    ensures
        spec_subs_values(subs.take(k + 1)) == spec_subs_values(subs.take(k))
            + spec_registry_values(subs[k]),
    decreases k,
{
    if k == 0 {
        assert(subs.take(1) =~= seq![subs[0]]);
        assert(subs.take(1).drop_first() =~= Seq::<RegistryV>::empty());
        assert(subs.take(0) =~= Seq::<RegistryV>::empty());
        assert(spec_subs_values(subs.take(1)) =~= spec_subs_values(subs.take(0))
            + spec_registry_values(subs[0]));
    } else {
        lemma_subs_values_snoc(subs.drop_first(), k - 1);
        assert(subs.take(k + 1)[0] == subs[0]);
        assert(subs.take(k + 1).drop_first() =~= subs.drop_first().take(k));
        assert(subs.take(k).drop_first() =~= subs.drop_first().take(k - 1));
        assert(subs.drop_first()[k - 1] == subs[k]);
        assert(spec_subs_values(subs.take(k + 1)) =~= spec_subs_values(subs.take(k))
            + spec_registry_values(subs[k]));
    }
}

impl Registry {
    /// Appends one identity descriptor per metric in this tree to the schema,
    /// in the traversal order of the OpenMetrics rendering.
    pub fn encode_schema(&self, schema: &mut Schema, include_help: bool)
        ensures
            final(schema).deep_view() == old(schema).deep_view() + spec_registry_schema(
                self.deep_view(),
                include_help,
            ),
        decreases *self,
    {
        broadcast use lemma_subs_view_len, lemma_subs_view_index;

        let ghost rv = self.deep_view();
        let prefix: Option<&str> = match &self.prefix {
            Some(p) => Some(p.as_str()),
            None => None,
        };
        let gn = self.metrics.len();
        let mut i: usize = 0;
        while i < gn
            invariant
                i <= gn,
                gn == self.metrics@.len(),
                rv == self.deep_view(),
                prefix.deep_view() == rv.prefix,
                schema.deep_view() == old(schema).deep_view() + spec_groups_schema(
                    rv.prefix,
                    rv.labels,
                    rv.groups.take(i as int),
                    include_help,
                ),
            decreases gn - i,
        {
            proof {
                assert(rv.groups[i as int] == self.metrics@[i as int].deep_view());
            }
            self.metrics[i].encode_schema(schema, prefix, &self.labels, include_help);
            proof {
                lemma_groups_schema_snoc(rv.prefix, rv.labels, rv.groups, include_help, i as int);
                assert(schema.deep_view() =~= old(schema).deep_view() + spec_groups_schema(
                    rv.prefix,
                    rv.labels,
                    rv.groups.take(i + 1),
                    include_help,
                ));
            }
            i += 1;
        }
        proof {
            assert(rv.groups.take(gn as int) =~= rv.groups);
        }
        let sn = self.sub_registries.len();
        let mut i: usize = 0;
        while i < sn
            invariant
                i <= sn,
                sn == self.sub_registries@.len(),
                rv == self.deep_view(),
                schema.deep_view() == old(schema).deep_view() + spec_groups_schema(
                    rv.prefix,
                    rv.labels,
                    rv.groups,
                    include_help,
                ) + spec_subs_schema(rv.subs.take(i as int), include_help),
            decreases sn - i,
        {
            proof {
                assert(rv.subs == subs_view(self.sub_registries@));
                lemma_subs_view_len(self.sub_registries@);
                lemma_subs_view_index(self.sub_registries@, i as int);
                assert(rv.subs[i as int] == self.sub_registries@[i as int].deep_view());
            }
            self.sub_registries[i].encode_schema(schema, include_help);
            proof {
                lemma_subs_schema_snoc(rv.subs, include_help, i as int);
                assert(schema.deep_view() =~= old(schema).deep_view() + spec_groups_schema(
                    rv.prefix,
                    rv.labels,
                    rv.groups,
                    include_help,
                ) + spec_subs_schema(rv.subs.take(i + 1), include_help));
            }
            i += 1;
        }
        proof {
            assert(rv.subs == subs_view(self.sub_registries@));
            lemma_subs_view_len(self.sub_registries@);
            assert(rv.subs.take(sn as int) =~= rv.subs);
            assert(final(schema).deep_view() =~= old(schema).deep_view() + spec_registry_schema(
                rv,
                include_help,
            ));
        }
    }

    /// Appends one value per metric in this tree to the values, in the
    /// traversal order of the OpenMetrics rendering.
    pub fn encode_values(&self, values: &mut Values)
        requires
            registry_wf(self.deep_view()),
        ensures
            final(values).deep_view() == old(values).deep_view() + spec_registry_values(
                self.deep_view(),
            ),
        decreases *self,
    {
        broadcast use lemma_subs_view_len, lemma_subs_view_index;

        let ghost rv = self.deep_view();
        let gn = self.metrics.len();
        let mut i: usize = 0;
        while i < gn
            invariant
                i <= gn,
                gn == self.metrics@.len(),
                rv == self.deep_view(),
                registry_wf(rv),
                values.deep_view() == old(values).deep_view() + spec_groups_values(
                    rv.groups.take(i as int),
                ),
            decreases gn - i,
        {
            proof {
                assert(group_wf(rv.groups[i as int]));
                assert(rv.groups[i as int] == self.metrics@[i as int].deep_view());
            }
            self.metrics[i].encode_values(values);
            proof {
                lemma_groups_values_snoc(rv.groups, i as int);
                assert(values.deep_view() =~= old(values).deep_view() + spec_groups_values(
                    rv.groups.take(i + 1),
                ));
            }
            i += 1;
        }
        proof {
            assert(rv.groups.take(gn as int) =~= rv.groups);
        }
        let sn = self.sub_registries.len();
        let mut i: usize = 0;
        while i < sn
            invariant
                i <= sn,
                sn == self.sub_registries@.len(),
                rv == self.deep_view(),
                registry_wf(rv),
                values.deep_view() == old(values).deep_view() + spec_groups_values(rv.groups)
                    + spec_subs_values(rv.subs.take(i as int)),
            decreases sn - i,
        {
            proof {
                assert(rv.subs == subs_view(self.sub_registries@));
                lemma_subs_view_len(self.sub_registries@);
                lemma_subs_view_index(self.sub_registries@, i as int);
                assert(rv.subs[i as int] == self.sub_registries@[i as int].deep_view());
                assert(registry_wf(rv.subs[i as int]));
            }
            self.sub_registries[i].encode_values(values);
            proof {
                lemma_subs_values_snoc(rv.subs, i as int);
                assert(values.deep_view() =~= old(values).deep_view() + spec_groups_values(
                    rv.groups,
                ) + spec_subs_values(rv.subs.take(i + 1)));
            }
            i += 1;
        }
        proof {
            assert(rv.subs == subs_view(self.sub_registries@));
            lemma_subs_view_len(self.sub_registries@);
            assert(rv.subs.take(sn as int) =~= rv.subs);
            assert(final(values).deep_view() =~= old(values).deep_view() + spec_registry_values(
                rv,
            ));
        }
    }
}

impl MetricsSource for Registry {
    open spec fn source_wf(&self) -> bool {
        registry_wf(self.deep_view())
    }

    open spec fn spec_openmetrics_text(&self) -> Seq<char> {
        spec_registry_om(self.deep_view()) + "# EOF\n"@
    }

    fn encode_openmetrics_to_string(&self) -> (r: Result<String, Error>) {
        let mut s = String::new();
        self.encode_inner(&mut s);
        write_eof(&mut s);
        proof {
            assert(s@ =~= spec_registry_om(self.deep_view()) + "# EOF\n"@);
        }
        Ok(s)
    }
}

} // verus!
