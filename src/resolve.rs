//! Resolution over several candidate names. The state machine asks the cache
//! for each candidate in turn and, on a miss, asks its driver to send the
//! query; an empty answer or a failure moves on to the next candidate.

use vstd::prelude::*;
use crate::cache::{after_get, after_insert, cached, expiry, matching, min_ttl, rdatas_of, DnsLru, EntryView};
use crate::error::ResolveError;
use crate::lookup::Lookup;
use crate::rr::{DNSClass, Message, Name, Query, QueryKey, RData, Record, RecordType};

verus! {

/// The lookup for the current candidate: finished, or waiting for the
/// transport's answer to a query.
pub enum Pending {
    Ready(Result<Lookup, ResolveError>),
    Awaiting(Query),
}

/// What a `Pending` stands for.
pub enum PendingView {
    Ready(Result<Seq<RData>, Seq<char>>),
    Awaiting(QueryKey),
}

impl View for Pending {
    type V = PendingView;

    open spec fn view(&self) -> PendingView {
        match self {
            Pending::Ready(Ok(l)) => PendingView::Ready(Ok(l@)),
            Pending::Ready(Err(e)) => PendingView::Ready(Err(e@)),
            Pending::Awaiting(q) => PendingView::Awaiting(q@),
        }
    }
}

/// What the driver does after a poll.
pub enum Step {
    /// Resolution is over, with this outcome.
    Done(Result<Lookup, ResolveError>),
    /// Poll again on a later turn.
    Again,
    /// Send this query through the transport, and hand the outcome to
    /// `complete`.
    Send(Query),
}

/// What a `Step` stands for.
pub enum StepView {
    Done(Result<Seq<RData>, Seq<char>>),
    Again,
    Send(QueryKey),
}

impl View for Step {
    type V = StepView;

    open spec fn view(&self) -> StepView {
        match self {
            Step::Done(Ok(l)) => StepView::Done(Ok(l@)),
            Step::Done(Err(e)) => StepView::Done(Err(e@)),
            Step::Again => StepView::Again,
            Step::Send(q) => StepView::Send(q@),
        }
    }
}

/// The state of a resolution: the candidates not yet tried (the next is the
/// last), the record type, and the lookup under way.
pub type FutureView = (Seq<Seq<u8>>, RecordType, PendingView);

/// The cache's entries (its capacity never changes).
pub type Entries = Seq<EntryView>;

/// Starting the lookup of `name`: a live cache entry finishes it at once,
/// else the query waits for the transport.
pub open spec fn start_spec(entries: Entries, name: Seq<u8>, rt: RecordType, now: u64) -> (Entries, PendingView) {
    let q = (name, rt, DNSClass::IN);
    (
        after_get(entries, q, now),
        match cached(entries, q, now) {
            Some(x) => PendingView::Ready(Ok(x)),
            None => PendingView::Awaiting(q),
        },
    )
}

/// One poll: the new state, the new entries and the step.
pub open spec fn poll_spec(f: FutureView, entries: Entries, now: u64) -> (FutureView, Entries, StepView) {
    match f.2 {
        PendingView::Awaiting(q) => (f, entries, StepView::Send(q)),
        PendingView::Ready(res) => {
            let finished = match res {
                Ok(x) => x.len() > 0,
                Err(_) => false,
            };
            if finished || f.0.len() == 0 {
                (f, entries, StepView::Done(res))
            } else {
                let (e2, p2) = start_spec(entries, f.0.last(), f.1, now);
                ((f.0.drop_last(), f.1, p2), e2, StepView::Again)
            }
        },
    }
}

/// Handing the transport's outcome to a waiting lookup: a response is
/// cached and its matching records become the result; a failure is kept as
/// it is and nothing is cached.
pub open spec fn complete_spec(
    f: FutureView,
    capacity: nat,
    entries: Entries,
    response: Result<Seq<Record>, Seq<char>>,
    now: u64,
) -> (FutureView, Entries) {
    match f.2 {
        PendingView::Awaiting(q) => match response {
            Ok(answers) => {
                let recs = matching(answers, q.1);
                (
                    (f.0, f.1, PendingView::Ready(Ok(rdatas_of(recs)))),
                    after_insert(capacity, entries, q, rdatas_of(recs), expiry(now, min_ttl(recs))),
                )
            },
            Err(e) => ((f.0, f.1, PendingView::Ready(Err(e))), entries),
        },
        PendingView::Ready(_) => (f, entries),
    }
}

/// One resolution under way.
pub struct InnerLookupFuture {
    names: Vec<Name>,
    record_type: RecordType,
    current: Pending,
}

impl View for InnerLookupFuture {
    type V = FutureView;

    closed spec fn view(&self) -> FutureView {
        (self.names@.map_values(|n: Name| n@), self.record_type, self.current@)
    }
}

/// Starts the lookup of `name` in `cache`.
fn start(name: Name, record_type: RecordType, cache: &mut DnsLru, now: u64) -> (r: Pending)
    requires
        old(cache).wf(),
    ensures
        final(cache).wf(),
        final(cache)@.0 == old(cache)@.0,
        (final(cache)@.1, r@) == start_spec(old(cache)@.1, name@, record_type, now),
{
    let query = Query::query(name, record_type);
    match cache.get(&query, now) {
        Some(l) => Pending::Ready(Ok(l)),
        None => Pending::Awaiting(query),
    }
}

impl InnerLookupFuture {
    /// Starts resolving `record_type` for `names`, tried from the last to
    /// the first: the lookup of the last one starts at once.
    pub fn lookup(names: Vec<Name>, record_type: RecordType, cache: &mut DnsLru, now: u64) -> (r: InnerLookupFuture)
        requires
            names@.len() > 0,
            old(cache).wf(),
        ensures
            final(cache).wf(),
            final(cache)@.0 == old(cache)@.0,
            r@.0 == names@.map_values(|n: Name| n@).drop_last(),
            r@.1 == record_type,
            (final(cache)@.1, r@.2) == start_spec(old(cache)@.1, names@.last()@, record_type, now),
    {
        let mut names = names;
        let ghost all = names@;
        let name = names.pop().unwrap();
        assert(names@.map_values(|n: Name| n@) =~= all.map_values(|n: Name| n@).drop_last());
        let current = start(name, record_type, cache, now);
        InnerLookupFuture { names, record_type, current }
    }

    /// A resolution that has already failed with `error`.
    pub fn error(error: ResolveError) -> (r: InnerLookupFuture)
        ensures
            r@ == (Seq::<Seq<u8>>::empty(), RecordType::NULL, PendingView::Ready(Err(error@))),
    {
        let r = InnerLookupFuture { names: Vec::new(), record_type: RecordType::NULL, current: Pending::Ready(Err(error)) };
        assert(r@.0 =~= Seq::<Seq<u8>>::empty());
        r
    }

    /// Moves on to the next candidate, or finishes with `otherwise` where
    /// none is left.
    fn next_lookup(&mut self, otherwise: Result<Lookup, ResolveError>, cache: &mut DnsLru, now: u64) -> (r: Step)
        requires
            old(cache).wf(),
        ensures
            final(cache).wf(),
            final(cache)@.0 == old(cache)@.0,
            old(self)@.0.len() == 0 ==> final(self)@ == old(self)@ && final(cache)@ == old(cache)@ && r@ == StepView::Done(
                match otherwise {
                    Ok(l) => Ok(l@),
                    Err(e) => Err(e@),
                },
            ),
            old(self)@.0.len() > 0 ==> ({
                let (e2, p2) = start_spec(old(cache)@.1, old(self)@.0.last(), old(self)@.1, now);
                &&& final(self)@ == (old(self)@.0.drop_last(), old(self)@.1, p2)
                &&& final(cache)@.1 == e2
                &&& r@ == StepView::Again
            }),
    {
        let ghost names0 = self.names@;
        match self.names.pop() {
            Some(name) => {
                assert(self.names@.map_values(|n: Name| n@) =~= names0.map_values(|n: Name| n@).drop_last());
                self.current = start(name, self.record_type, cache, now);
                Step::Again
            },
            None => Step::Done(otherwise),
        }
    }

    /// Advances the resolution by one step.
    pub fn poll(&mut self, cache: &mut DnsLru, now: u64) -> (r: Step)
        requires
            old(cache).wf(),
        ensures
            final(cache).wf(),
            final(cache)@.0 == old(cache)@.0,
            (final(self)@, final(cache)@.1, r@) == poll_spec(old(self)@, old(cache)@.1, now),
    {
        match &self.current {
            Pending::Awaiting(q) => Step::Send(q.clone_query()),
            Pending::Ready(Ok(l)) => {
                if l.is_empty() {
                    let l2 = l.share();
                    self.next_lookup(Ok(l2), cache, now)
                } else {
                    Step::Done(Ok(l.share()))
                }
            },
            Pending::Ready(Err(e)) => {
                let e2 = e.clone_error();
                self.next_lookup(Err(e2), cache, now)
            },
        }
    }

    /// Hands the transport's outcome for the query under way to the
    /// resolution; with no query under way nothing changes.
    pub fn complete(&mut self, cache: &mut DnsLru, response: Result<Message, ResolveError>, now: u64)
        requires
            old(cache).wf(),
        ensures
            final(cache).wf(),
            final(cache)@.0 == old(cache)@.0,
            (final(self)@, final(cache)@.1) == complete_spec(
                old(self)@,
                old(cache)@.0,
                old(cache)@.1,
                match response {
                    Ok(m) => Ok(m@),
                    Err(e) => Err(e@),
                },
                now,
            ),
    {
        let mut current = Pending::Ready(Ok(Lookup::from_vec(Vec::new())));
        std::mem::swap(&mut current, &mut self.current);
        match current {
            Pending::Awaiting(q) => match response {
                Ok(message) => {
                    let l = cache.insert_response(q, message, now);
                    self.current = Pending::Ready(Ok(l));
                },
                Err(e) => {
                    self.current = Pending::Ready(Err(e));
                },
            },
            other => {
                self.current = other;
            },
        }
    }
}

} // verus!
