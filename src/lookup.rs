//! The result set of one resolution: an ordered, shared, immutable sequence
//! of record data.

use std::sync::Arc;
use vstd::prelude::*;
use crate::rr::RData;

verus! {

/// Relies on `Arc::clone`: the new handle shares the same value.
#[verifier::external_body]
fn arc_clone(rdatas: &Arc<Vec<RData>>) -> (r: Arc<Vec<RData>>)
    ensures
        r@ == rdatas@,
{
    Arc::clone(rdatas)
}

/// The records of one resolution, shared by reference between its holders.
#[derive(Debug)]
pub struct Lookup {
    rdatas: Arc<Vec<RData>>,
}

impl View for Lookup {
    type V = Seq<RData>;

    closed spec fn view(&self) -> Seq<RData> {
        self.rdatas@
    }
}

impl Lookup {
    pub fn new(rdatas: Arc<Vec<RData>>) -> (r: Lookup)
        ensures
            r@ == rdatas@,
    {
        Lookup { rdatas }
    }

    /// A result set that holds `rdatas` in order.
    pub fn from_vec(rdatas: Vec<RData>) -> (r: Lookup)
        ensures
            r@ == rdatas@,
    {
        Lookup { rdatas: Arc::new(rdatas) }
    }

    /// A borrowed iterator over the records, in order.
    pub fn iter(&self) -> (r: LookupIter<'_>)
        ensures
            r.wf(),
            r.rest() == self@,
    {
        LookupIter { rdatas: &self.rdatas, pos: 0 }
    }

    pub fn is_empty(&self) -> (r: bool)
        ensures
            r == (self@.len() == 0),
    {
        self.rdatas.len() == 0
    }

    pub fn len(&self) -> (r: usize)
        ensures
            r == self@.len(),
    {
        self.rdatas.len()
    }

    /// The record at `i`.
    pub fn get(&self, i: usize) -> (r: Option<RData>)
        ensures
            r == (if i < self@.len() { Some(self@[i as int]) } else { None::<RData> }),
    {
        if i < self.rdatas.len() {
            Some(self.rdatas[i])
        } else {
            None
        }
    }

    /// All records, copied out in order.
    pub fn to_vec(&self) -> (r: Vec<RData>)
        ensures
            r@ == self@,
    {
        let mut out: Vec<RData> = Vec::new();
        let mut i: usize = 0;
        while i < self.rdatas.len()
            invariant
                0 <= i <= self.rdatas.len(),
                out@ == self@.subrange(0, i as int),
            decreases self.rdatas.len() - i,
        {
            out.push(self.rdatas[i]);
            i = i + 1;
        }
        assert(out@ =~= self@);
        out
    }

    /// A new result set: this one's records followed by `other`'s. Neither
    /// input changes.
    pub fn append(&self, other: Lookup) -> (r: Lookup)
        requires
            self@.len() + other@.len() <= usize::MAX,
        ensures
            r@ == self@ + other@,
    {
        let mut rdatas: Vec<RData> = Vec::with_capacity(self.len() + other.len());
        let mut i: usize = 0;
        while i < self.rdatas.len()
            invariant
                0 <= i <= self.rdatas.len(),
                rdatas@ == self@.subrange(0, i as int),
            decreases self.rdatas.len() - i,
        {
            rdatas.push(self.rdatas[i]);
            i = i + 1;
        }
        let mut j: usize = 0;
        while j < other.rdatas.len()
            invariant
                0 <= j <= other.rdatas.len(),
                rdatas@ == self@ + other@.subrange(0, j as int),
            decreases other.rdatas.len() - j,
        {
            rdatas.push(other.rdatas[j]);
            j = j + 1;
        }
        assert(other@.subrange(0, other@.len() as int) =~= other@);
        Lookup::new(Arc::new(rdatas))
    }

    /// Another handle on the same records.
    pub fn share(&self) -> (r: Lookup)
        ensures
            r@ == self@,
    {
        Lookup { rdatas: arc_clone(&self.rdatas) }
    }
}

/// A borrowed view of the records of a `Lookup`, walked front to back.
pub struct LookupIter<'a> {
    rdatas: &'a Vec<RData>,
    pos: usize,
}

impl<'a> LookupIter<'a> {
    /// The records not yet returned.
    pub closed spec fn rest(&self) -> Seq<RData> {
        self.rdatas@.subrange(self.pos as int, self.rdatas@.len() as int)
    }

    pub closed spec fn wf(&self) -> bool {
        self.pos <= self.rdatas@.len()
    }

    /// The next record, or `None` once all were returned.
    pub fn next(&mut self) -> (r: Option<&'a RData>)
        requires
            old(self).wf(),
        ensures
            final(self).wf(),
            old(self).rest().len() == 0 ==> r.is_none() && final(self).rest() == old(self).rest(),
            old(self).rest().len() > 0 ==> r == Some(&old(self).rest()[0])
                && final(self).rest() == old(self).rest().drop_first(),
    {
        if self.pos < self.rdatas.len() {
            let r = &self.rdatas[self.pos];
            self.pos = self.pos + 1;
            Some(r)
        } else {
            None
        }
    }
}

} // verus!
