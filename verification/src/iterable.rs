//! Generic, index-based iteration over the metric fields of a container.
//!
//! Infrastructure such as the registry and the encoders handles metric fields
//! through this capability without knowing the container's concrete shape.

use vstd::prelude::*;

use crate::base::{MetricItem, MetricItemV, MetricsGroup};

verus! {

/// Trait for iterating over the metric fields of a container.
pub trait Iterable {
    /// The fields the container exposes, in declaration order.
    spec fn spec_fields(&self) -> Seq<MetricItemV>;

    /// Returns the number of fields in the container.
    fn field_count(&self) -> (r: usize)
        ensures
            r == self.spec_fields().len(),
    ;

    /// Returns the field at the given index, or nothing past the end.
    fn field(&self, n: usize) -> (r: Option<&MetricItem>)
        ensures
            n < self.spec_fields().len() ==> {
                &&& r is Some
                &&& r->Some_0.deep_view() == self.spec_fields()[n as int]
            },
            n >= self.spec_fields().len() ==> r is None,
    ;
}

impl Iterable for MetricsGroup {
    open spec fn spec_fields(&self) -> Seq<MetricItemV> {
        self.deep_view().items
    }

    fn field_count(&self) -> (r: usize) {
        self.items.len()
    }

    fn field(&self, n: usize) -> (r: Option<&MetricItem>) {
        if n < self.items.len() {
            Some(&self.items[n])
        } else {
            None
        }
    }
}

/// Iterator over the fields of an [`Iterable`] container.
///
/// Yields the fields in declaration order, from index zero up to the field
/// count, then nothing.
#[derive(Debug)]
pub struct FieldIter<'a, T: Iterable> {
    pos: usize,
    inner: &'a T,
}

impl<'a, T: Iterable> FieldIter<'a, T> {
    /// The position of the next field to hand out.
    pub closed spec fn spec_pos(&self) -> int {
        self.pos as int
    }

    /// The container being iterated.
    pub closed spec fn spec_inner(&self) -> &'a T {
        self.inner
    }

    /// Constructs an iterator over the fields of the given container.
    pub fn new(inner: &'a T) -> (r: FieldIter<'a, T>)
        ensures
            r.spec_pos() == 0,
            r.spec_inner() == inner,
    {
        FieldIter { pos: 0, inner }
    }

    /// Hands out the next field, or nothing once the index reaches the field
    /// count.
    pub fn next(&mut self) -> (r: Option<&'a MetricItem>)
        ensures
            final(self).spec_inner() == old(self).spec_inner(),
            old(self).spec_pos() < old(self).spec_inner().spec_fields().len() ==> {
                &&& r is Some
                &&& r->Some_0.deep_view() == old(self).spec_inner().spec_fields()[old(
                    self,
                ).spec_pos()]
                &&& final(self).spec_pos() == old(self).spec_pos() + 1
            },
            old(self).spec_pos() >= old(self).spec_inner().spec_fields().len() ==> {
                &&& r is None
                &&& final(self).spec_pos() == old(self).spec_pos()
            },
    {
        if self.pos < self.inner.field_count() {
            let out = self.inner.field(self.pos);
            self.pos = self.pos + 1;
            out
        } else {
            None
        }
    }
}

impl MetricsGroup {
    /// Returns an iterator over this group's items.
    pub fn iter(&self) -> (r: FieldIter<'_, MetricsGroup>)
        ensures
            r.spec_pos() == 0,
            r.spec_inner() == self,
    {
        FieldIter::new(self)
    }
}

} // verus!
