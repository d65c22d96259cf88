//! A bounded, time-aware cache from queries to result sets. An entry lives
//! until the smallest TTL of its records has passed; past its capacity the
//! cache drops the least recently used entry.

use vstd::prelude::*;
use crate::lookup::Lookup;
use crate::rr::{Message, Query, QueryKey, RData, Record, RecordType};

verus! {

/// One cached result: its query, its records, and the instant (in seconds)
/// from which it is stale.
pub type EntryView = (QueryKey, Seq<RData>, u64);

/// The largest TTL, which an answer without records gets.
pub const MAX_TTL: u32 = 0xffff_ffff;

/// The smallest TTL among `recs`, or `MAX_TTL` where there is none.
pub open spec fn min_ttl(recs: Seq<(RData, u32)>) -> u32
    decreases recs.len(),
{
    if recs.len() == 0 {
        MAX_TTL
    } else {
        let m = min_ttl(recs.drop_last());
        if recs.last().1 < m {
            recs.last().1
        } else {
            m
        }
    }
}

/// The instant `ttl` seconds after `now`, saturating at the largest instant.
pub open spec fn expiry(now: u64, ttl: u32) -> u64 {
    if now + ttl > u64::MAX {
        u64::MAX
    } else {
        (now + ttl) as u64
    }
}

/// The data of the records.
pub open spec fn rdatas_of(recs: Seq<(RData, u32)>) -> Seq<RData> {
    recs.map_values(|p: (RData, u32)| p.0)
}

/// The data and TTL of the answers of type `rt`, in order.
pub open spec fn matching(answers: Seq<Record>, rt: RecordType) -> Seq<(RData, u32)>
    decreases answers.len(),
{
    if answers.len() == 0 {
        Seq::empty()
    } else {
        let prev = matching(answers.drop_last(), rt);
        if answers.last().rr_type == rt {
            prev.push((answers.last().rdata, answers.last().ttl))
        } else {
            prev
        }
    }
}

pub open spec fn has_key(s: Seq<EntryView>, q: QueryKey) -> bool {
    exists|i: int| 0 <= i < s.len() && s[i].0 == q
}

/// Where the entry for `q` stands (meaningful where `has_key` holds).
pub open spec fn key_index(s: Seq<EntryView>, q: QueryKey) -> int {
    choose|i: int| 0 <= i < s.len() && s[i].0 == q
}

pub open spec fn unique_keys(s: Seq<EntryView>) -> bool {
    forall|i: int, j: int| 0 <= i < s.len() && 0 <= j < s.len() && i != j ==> s[i].0 != s[j].0
}

/// The records cached for `q` that are still live at `now`.
pub open spec fn cached(s: Seq<EntryView>, q: QueryKey, now: u64) -> Option<Seq<RData>> {
    if has_key(s, q) && now < s[key_index(s, q)].2 {
        Some(s[key_index(s, q)].1)
    } else {
        None
    }
}

/// The entries once `q` was looked up at `now`: a live entry becomes the most
/// recently used, a stale one is dropped.
pub open spec fn after_get(s: Seq<EntryView>, q: QueryKey, now: u64) -> Seq<EntryView> {
    if !has_key(s, q) {
        s
    } else if now < s[key_index(s, q)].2 {
        s.remove(key_index(s, q)).push(s[key_index(s, q)])
    } else {
        s.remove(key_index(s, q))
    }
}

/// The entries once `q` was stored with `content` until `until`: an older
/// entry for `q` is replaced, and at capacity the least recently used goes.
pub open spec fn after_insert(
    capacity: nat,
    s: Seq<EntryView>,
    q: QueryKey,
    content: Seq<RData>,
    until: u64,
) -> Seq<EntryView> {
    if capacity == 0 {
        s
    } else {
        let r = if has_key(s, q) {
            s.remove(key_index(s, q))
        } else {
            s
        };
        let r2 = if r.len() >= capacity {
            r.drop_first()
        } else {
            r
        };
        r2.push((q, content, until))
    }
}

pub struct CacheEntry {
    query: Query,
    lookup: Lookup,
    valid_until: u64,
}

impl View for CacheEntry {
    type V = EntryView;

    closed spec fn view(&self) -> EntryView {
        (self.query@, self.lookup@, self.valid_until)
    }
}

/// The cache: at most `capacity` entries, least recently used first.
pub struct DnsLru {
    capacity: usize,
    entries: Vec<CacheEntry>,
}

impl View for DnsLru {
    type V = (nat, Seq<EntryView>);

    closed spec fn view(&self) -> (nat, Seq<EntryView>) {
        (self.capacity as nat, self.entries@.map_values(|e: CacheEntry| e@))
    }
}

impl DnsLru {
    pub open spec fn wf(&self) -> bool {
        &&& self@.1.len() <= self@.0
        &&& unique_keys(self@.1)
    }

    /// An empty cache that holds at most `capacity` entries; zero means that
    /// nothing is kept.
    pub fn new(capacity: usize) -> (r: DnsLru)
        ensures
            r.wf(),
            r@ == (capacity as nat, Seq::<EntryView>::empty()),
    {
        let r = DnsLru { capacity, entries: Vec::new() };
        assert(r@.1 =~= Seq::<EntryView>::empty());
        r
    }

    pub fn capacity(&self) -> (r: usize)
        ensures
            r == self@.0,
    {
        self.capacity
    }

    pub fn len(&self) -> (r: usize)
        ensures
            r == self@.1.len(),
    {
        self.entries.len()
    }

    /// Where the entry for `q` stands.
    fn find(&self, q: &Query) -> (r: Option<usize>)
        requires
            self.wf(),
        ensures
            r is None ==> !has_key(self@.1, q@),
            r matches Some(i) ==> i < self@.1.len() && has_key(self@.1, q@) && key_index(self@.1, q@) == i,
    {
        let mut i: usize = 0;
        while i < self.entries.len()
            invariant
                self.wf(),
                0 <= i <= self.entries@.len(),
                forall|j: int| 0 <= j < i ==> self@.1[j].0 != q@,
            decreases self.entries.len() - i,
        {
            if self.entries[i].query.same_key(q) {
                proof {
                    assert(self@.1[i as int].0 == q@);
                    assert(has_key(self@.1, q@));
                    let k = key_index(self@.1, q@);
                    assert(self@.1[k].0 == q@);
                    assert(0 <= k < self@.1.len());
                    assert(unique_keys(self@.1));
                    if k != i as int {
                        assert(self@.1[k].0 != self@.1[i as int].0);
                    }
                }
                return Some(i);
            }
            i = i + 1;
        }
        None
    }

    /// The records cached for `q` that are live at `now`. A live entry
    /// becomes the most recently used; a stale one is dropped.
    pub fn get(&mut self, q: &Query, now: u64) -> (r: Option<Lookup>)
        requires
            old(self).wf(),
        ensures
            final(self).wf(),
            final(self)@.0 == old(self)@.0,
            final(self)@.1 == after_get(old(self)@.1, q@, now),
            r matches Some(l) ==> cached(old(self)@.1, q@, now) == Some(l@),
            r is None ==> cached(old(self)@.1, q@, now) is None,
    {
        let ghost s = self@.1;
        match self.find(q) {
            None => None,
            Some(i) => {
                let e = self.entries.remove(i);
                assert(self@.1 =~= s.remove(i as int));
                if now < e.valid_until {
                    let l = e.lookup.share();
                    self.entries.push(e);
                    assert(self@.1 =~= s.remove(i as int).push(s[i as int]));
                    Some(l)
                } else {
                    None
                }
            }
        }
    }

    /// Stores `rdatas_and_ttl` for `query` until the smallest TTL has passed,
    /// and returns them as a result set.
    pub fn insert(&mut self, query: Query, rdatas_and_ttl: Vec<(RData, u32)>, now: u64) -> (r: Lookup)
        requires
            old(self).wf(),
        ensures
            final(self).wf(),
            r@ == rdatas_of(rdatas_and_ttl@),
            final(self)@.0 == old(self)@.0,
            final(self)@.1 == after_insert(
                old(self)@.0,
                old(self)@.1,
                query@,
                r@,
                expiry(now, min_ttl(rdatas_and_ttl@)),
            ),
    {
        let mut rdatas: Vec<RData> = Vec::new();
        let mut ttl: u32 = MAX_TTL;
        let mut i: usize = 0;
        while i < rdatas_and_ttl.len()
            invariant
                0 <= i <= rdatas_and_ttl@.len(),
                rdatas@ == rdatas_of(rdatas_and_ttl@.subrange(0, i as int)),
                ttl == min_ttl(rdatas_and_ttl@.subrange(0, i as int)),
            decreases rdatas_and_ttl.len() - i,
        {
            let (rdata, t) = rdatas_and_ttl[i];
            assert(rdatas_and_ttl@.subrange(0, i + 1).drop_last() =~= rdatas_and_ttl@.subrange(0, i as int));
            if t < ttl {
                ttl = t;
            }
            rdatas.push(rdata);
            assert(rdatas@ =~= rdatas_of(rdatas_and_ttl@.subrange(0, i + 1)));
            i = i + 1;
        }
        assert(rdatas_and_ttl@.subrange(0, i as int) =~= rdatas_and_ttl@);
        let valid_until = now.saturating_add(ttl as u64);
        let lookup = Lookup::from_vec(rdatas);
        if self.capacity == 0 {
            return lookup;
        }
        let ghost s = self@.1;
        match self.find(&query) {
            None => {},
            Some(i) => {
                self.entries.remove(i);
                assert(self@.1 =~= s.remove(i as int));
            },
        }
        let ghost r1 = self@.1;
        if self.entries.len() >= self.capacity {
            self.entries.remove(0);
            assert(self@.1 =~= r1.drop_first());
        }
        let ghost r2 = self@.1;
        let entry = CacheEntry { query, lookup: lookup.share(), valid_until };
        self.entries.push(entry);
        assert(self@.1 =~= r2.push(entry@));
        assert forall|j: int| 0 <= j < r2.len() implies r2[j].0 != query@ by {
            if has_key(s, query@) {
                let k = key_index(s, query@);
                assert(s[k].0 == query@);
            }
        }
        lookup
    }

    /// Stores the answers of `message` whose type is the query's, and
    /// returns them as a result set: empty where none matches.
    pub fn insert_response(&mut self, query: Query, message: Message, now: u64) -> (r: Lookup)
        requires
            old(self).wf(),
        ensures
            final(self).wf(),
            r@ == rdatas_of(matching(message@, query@.1)),
            final(self)@.0 == old(self)@.0,
            final(self)@.1 == after_insert(
                old(self)@.0,
                old(self)@.1,
                query@,
                r@,
                expiry(now, min_ttl(matching(message@, query@.1))),
            ),
    {
        let mut recs: Vec<(RData, u32)> = Vec::new();
        let mut i: usize = 0;
        while i < message.answers.len()
            invariant
                0 <= i <= message@.len(),
                recs@ == matching(message@.subrange(0, i as int), query@.1),
            decreases message.answers.len() - i,
        {
            let rec = &message.answers[i];
            assert(message@.subrange(0, i + 1).drop_last() =~= message@.subrange(0, i as int));
            if rec.rr_type == query.query_type {
                recs.push((rec.rdata, rec.ttl));
            }
            i = i + 1;
        }
        assert(message@.subrange(0, i as int) =~= message@);
        self.insert(query, recs, now)
    }
}

} // verus!
