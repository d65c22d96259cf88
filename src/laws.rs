//! What holds of the library across several calls: of result sets, of the
//! cache, and of a resolution driven to its end.

use vstd::prelude::*;
use crate::cache::{
    after_get, after_insert, cached, expiry, has_key, key_index, matching, min_ttl, rdatas_of,
    unique_keys, EntryView,
};
use crate::lookup::Lookup;
use crate::resolve::{complete_spec, poll_spec, start_spec, FutureView, PendingView, StepView};
use crate::rr::{DNSClass, QueryKey, RData, Record, RecordType};

verus! {

/// Dropping one entry keeps the keys unique, leaves no entry for its key,
/// and makes no other query live.
proof fn lemma_remove_entry(s: Seq<EntryView>, k: int, q2: QueryKey, now: u64)
    requires
        unique_keys(s),
        0 <= k < s.len(),
    ensures
        unique_keys(s.remove(k)),
        !has_key(s.remove(k), s[k].0),
        cached(s, q2, now) is None ==> cached(s.remove(k), q2, now) is None,
{
    let t = s.remove(k);
    assert forall|i: int, j: int| 0 <= i < t.len() && 0 <= j < t.len() && i != j implies t[i].0 != t[j].0 by {
        let i2 = if i < k { i } else { i + 1 };
        let j2 = if j < k { j } else { j + 1 };
        assert(t[i] == s[i2] && t[j] == s[j2]);
    }
    if has_key(t, s[k].0) {
        let j = key_index(t, s[k].0);
        let j2 = if j < k { j } else { j + 1 };
        assert(t[j] == s[j2]);
    }
    if cached(s, q2, now) is None && has_key(t, q2) {
        let j = key_index(t, q2);
        let j2 = if j < k { j } else { j + 1 };
        assert(t[j] == s[j2]);
        assert(has_key(s, q2));
        let m = key_index(s, q2);
        if m != j2 {
            assert(s[m].0 != s[j2].0);
        }
    }
}

/// Adding an entry for another key makes no other query live.
proof fn lemma_push_entry(s: Seq<EntryView>, x: EntryView, q2: QueryKey, now: u64)
    requires
        unique_keys(s),
        x.0 != q2,
        cached(s, q2, now) is None,
    ensures
        cached(s.push(x), q2, now) is None,
{
    let t = s.push(x);
    if has_key(t, q2) {
        let j = key_index(t, q2);
        assert(j < s.len());
        assert(t[j] == s[j]);
        assert(has_key(s, q2));
        let m = key_index(s, q2);
        if m != j {
            assert(s[m].0 != s[j].0);
        }
    }
}

/// A lookup keeps the cache within its capacity with unique keys; one that
/// misses makes no query live.
proof fn lemma_get(capacity: nat, s: Seq<EntryView>, q: QueryKey, now: u64, q2: QueryKey)
    requires
        s.len() <= capacity,
        unique_keys(s),
    ensures
        after_get(s, q, now).len() <= capacity,
        unique_keys(after_get(s, q, now)),
        cached(s, q, now) is None && cached(s, q2, now) is None ==> cached(after_get(s, q, now), q2, now) is None,
{
    if has_key(s, q) {
        let k = key_index(s, q);
        lemma_remove_entry(s, k, q2, now);
        if now < s[k].2 {
            let t = s.remove(k);
            assert forall|i: int, j: int|
                0 <= i < t.push(s[k]).len() && 0 <= j < t.push(s[k]).len() && i != j
                implies t.push(s[k])[i].0 != t.push(s[k])[j].0 by {
                if i < t.len() && j == t.len() {
                    assert(t[i].0 != s[k].0);
                }
                if j < t.len() && i == t.len() {
                    assert(t[j].0 != s[k].0);
                }
            }
        }
    }
}

/// Storing an entry keeps the cache within its capacity with unique keys;
/// with room for one entry the stored one is the last, and no other query
/// becomes live.
proof fn lemma_insert(capacity: nat, s: Seq<EntryView>, q: QueryKey, c: Seq<RData>, u: u64, q2: QueryKey, now: u64)
    requires
        s.len() <= capacity,
        unique_keys(s),
    ensures
        ({
            let t = after_insert(capacity, s, q, c, u);
            &&& t.len() <= capacity
            &&& unique_keys(t)
            &&& capacity >= 1 ==> has_key(t, q) && key_index(t, q) == t.len() - 1 && t.last() == (q, c, u)
            &&& q2 != q && cached(s, q2, now) is None ==> cached(t, q2, now) is None
        }),
{
    if capacity >= 1 {
        let r = if has_key(s, q) {
            s.remove(key_index(s, q))
        } else {
            s
        };
        if has_key(s, q) {
            lemma_remove_entry(s, key_index(s, q), q2, now);
        }
        assert(!has_key(r, q));
        assert(unique_keys(r));
        let r2 = if r.len() >= capacity {
            r.drop_first()
        } else {
            r
        };
        if r.len() >= capacity {
            assert(r.drop_first() =~= r.remove(0));
            lemma_remove_entry(r, 0, q2, now);
            assert forall|i: int| 0 <= i < r2.len() implies r2[i].0 != q by {
                assert(r2[i] == r[i + 1]);
            }
        } else {
            assert forall|i: int| 0 <= i < r2.len() implies r2[i].0 != q by {
                assert(r2[i] == r[i]);
            }
        }
        let t = r2.push((q, c, u));
        assert forall|i: int, j: int| 0 <= i < t.len() && 0 <= j < t.len() && i != j implies t[i].0 != t[j].0 by {
            if i < r2.len() && j < r2.len() {
                assert(t[i] == r2[i] && t[j] == r2[j]);
            }
        }
        assert(t[t.len() - 1].0 == q);
        let k = key_index(t, q);
        if k != t.len() - 1 {
            assert(t[k].0 != t[t.len() - 1].0);
        }
        if q2 != q && cached(s, q2, now) is None {
            lemma_push_entry(r2, (q, c, u), q2, now);
        }
    }
}

/// Appending is associative on the order of records: `(a + b) + c` and
/// `a + (b + c)` hold the same records in the same order.
pub proof fn lemma_append_associative(a: Lookup, b: Lookup, c: Lookup)
    ensures
        (a@ + b@) + c@ == a@ + (b@ + c@),
{
    assert((a@ + b@) + c@ =~= a@ + (b@ + c@));
}

/// Records stored for a query that missed are served from the cache, the
/// same records and no transport call, until their smallest TTL has passed,
/// where the cache has room for an entry and that TTL is positive.
pub proof fn lemma_cache_round_trip(
    capacity: nat,
    entries: Seq<EntryView>,
    name: Seq<u8>,
    rt: RecordType,
    recs: Seq<(RData, u32)>,
    now: u64,
    later: u64,
)
    requires
        entries.len() <= capacity,
        unique_keys(entries),
        capacity >= 1,
        min_ttl(recs) > 0,
        now <= later < expiry(now, min_ttl(recs)),
    ensures
        ({
            let q = (name, rt, DNSClass::IN);
            let stored = after_insert(capacity, entries, q, rdatas_of(recs), expiry(now, min_ttl(recs)));
            &&& cached(stored, q, later) == Some(rdatas_of(recs))
            &&& start_spec(stored, name, rt, later).1 == PendingView::Ready(Ok(rdatas_of(recs)))
        }),
{
    let q = (name, rt, DNSClass::IN);
    lemma_insert(capacity, entries, q, rdatas_of(recs), expiry(now, min_ttl(recs)), q, now);
}

/// With no room in the cache, or with a smallest TTL of zero, two lookups
/// of the same query each go to the transport: the first misses, and so
/// does the second once the answer was stored.
pub proof fn lemma_no_caching(
    capacity: nat,
    entries: Seq<EntryView>,
    name: Seq<u8>,
    rt: RecordType,
    answers: Seq<Record>,
    now: u64,
    later: u64,
)
    requires
        entries.len() <= capacity,
        unique_keys(entries),
        capacity == 0 || min_ttl(matching(answers, rt)) == 0,
        cached(entries, (name, rt, DNSClass::IN), now) is None,
        now <= later,
    ensures
        ({
            let q = (name, rt, DNSClass::IN);
            let (e1, p1) = start_spec(entries, name, rt, now);
            let f: FutureView = (Seq::empty(), rt, p1);
            let (f2, e2) = complete_spec(f, capacity, e1, Ok(answers), now);
            &&& p1 == PendingView::Awaiting(q)
            &&& start_spec(e2, name, rt, later).1 == PendingView::Awaiting(q)
        }),
{
    let q = (name, rt, DNSClass::IN);
    let recs = matching(answers, rt);
    lemma_get(capacity, entries, q, now, q);
    let e1 = after_get(entries, q, now);
    lemma_insert(capacity, e1, q, rdatas_of(recs), expiry(now, min_ttl(recs)), q, now);
    let e2 = after_insert(capacity, e1, q, rdatas_of(recs), expiry(now, min_ttl(recs)));
    if capacity == 0 {
        assert(e2.len() == 0);
        assert(!has_key(e2, q));
    }
}

/// What the transport hands back for one query: the answer section of a
/// response, or the failure.
pub type Response = Result<Seq<Record>, Seq<char>>;

/// The outcome of a lookup whose query got `resp`.
pub open spec fn outcome(resp: Response, rt: RecordType) -> Result<Seq<RData>, Seq<char>> {
    match resp {
        Ok(answers) => Ok(rdatas_of(matching(answers, rt))),
        Err(e) => Err(e),
    }
}

/// The queries for `names`, last name first.
pub open spec fn attempts(names: Seq<Seq<u8>>, rt: RecordType) -> Seq<QueryKey>
    decreases names.len(),
{
    if names.len() == 0 {
        Seq::empty()
    } else {
        seq![(names.last(), rt, DNSClass::IN)] + attempts(names.drop_last(), rt)
    }
}

/// Driving a resolution as its driver does: poll until it is done, and hand
/// each query it sends the next of `responses`. The result is the outcome
/// (`None` where the responses or the `fuel` polls run out) and the queries
/// sent, in order.
pub open spec fn drive(
    f: FutureView,
    capacity: nat,
    entries: Seq<EntryView>,
    responses: Seq<Response>,
    now: u64,
    fuel: nat,
) -> (Option<Result<Seq<RData>, Seq<char>>>, Seq<QueryKey>)
    decreases fuel,
{
    if fuel == 0 {
        (None, Seq::empty())
    } else {
        let (f2, e2, step) = poll_spec(f, entries, now);
        match step {
            StepView::Done(r) => (Some(r), Seq::empty()),
            StepView::Again => drive(f2, capacity, e2, responses, now, (fuel - 1) as nat),
            StepView::Send(q) => if responses.len() == 0 {
                (None, seq![q])
            } else {
                let (f3, e3) = complete_spec(f2, capacity, e2, responses[0], now);
                let (r, sent) = drive(f3, capacity, e3, responses.drop_first(), now, (fuel - 1) as nat);
                (r, seq![q] + sent)
            },
        }
    }
}

/// The state in which a resolution starts: the last name's lookup begun.
pub open spec fn started(names: Seq<Seq<u8>>, rt: RecordType, entries: Seq<EntryView>, now: u64) -> (FutureView, Seq<EntryView>) {
    let (e1, p) = start_spec(entries, names.last(), rt, now);
    ((names.drop_last(), rt, p), e1)
}

/// Where the answer to the first query sent holds records of the type
/// sought, the resolution ends with exactly those records after that one
/// query.
pub proof fn lemma_first_answer_wins(
    names: Seq<Seq<u8>>,
    rt: RecordType,
    capacity: nat,
    entries: Seq<EntryView>,
    responses: Seq<Response>,
    now: u64,
    fuel: nat,
)
    requires
        names.len() > 0,
        entries.len() <= capacity,
        unique_keys(entries),
        cached(entries, (names.last(), rt, DNSClass::IN), now) is None,
        responses.len() > 0,
        responses[0] is Ok,
        matching(responses[0]->Ok_0, rt).len() > 0,
        fuel >= 2,
    ensures
        ({
            let (f, e1) = started(names, rt, entries, now);
            drive(f, capacity, e1, responses, now, fuel) == (
                Some(Ok::<Seq<RData>, Seq<char>>(rdatas_of(matching(responses[0]->Ok_0, rt)))),
                seq![(names.last(), rt, DNSClass::IN)],
            )
        }),
{
    let q = (names.last(), rt, DNSClass::IN);
    let (f, e1) = started(names, rt, entries, now);
    assert(f.2 == PendingView::Awaiting(q));
    let (f3, e3) = complete_spec(f, capacity, e1, responses[0], now);
    assert(rdatas_of(matching(responses[0]->Ok_0, rt)).len() > 0);
    assert(drive(f3, capacity, e3, responses.drop_first(), now, (fuel - 1) as nat) == (
        Some(Ok::<Seq<RData>, Seq<char>>(rdatas_of(matching(responses[0]->Ok_0, rt)))),
        Seq::<QueryKey>::empty(),
    ));
    assert(seq![q] + Seq::<QueryKey>::empty() =~= seq![q]);
}

/// No answer with records: a failure, or a response without records of the
/// type sought.
pub open spec fn unanswered(resp: Response, rt: RecordType) -> bool {
    match resp {
        Ok(answers) => matching(answers, rt).len() == 0,
        Err(_) => true,
    }
}

pub open spec fn distinct(names: Seq<Seq<u8>>) -> bool {
    forall|i: int, j: int| 0 <= i < names.len() && 0 <= j < names.len() && i != j ==> names[i] != names[j]
}

/// No candidate is live in the cache.
pub open spec fn none_cached(names: Seq<Seq<u8>>, rt: RecordType, entries: Seq<EntryView>, now: u64) -> bool {
    forall|i: int| 0 <= i < names.len() ==> cached(entries, (names[i], rt, DNSClass::IN), now) is None
}

/// From a lookup awaiting `q` with `rest` still to try, where no query gets
/// an answer with records and none is served from the cache, every
/// candidate is sent once and the last outcome is the result.
proof fn lemma_drive_unanswered(
    rest: Seq<Seq<u8>>,
    rt: RecordType,
    q: QueryKey,
    capacity: nat,
    entries: Seq<EntryView>,
    responses: Seq<Response>,
    now: u64,
    fuel: nat,
)
    requires
        q.1 == rt,
        q.2 == DNSClass::IN,
        entries.len() <= capacity,
        unique_keys(entries),
        none_cached(rest, rt, entries, now),
        responses.len() > rest.len(),
        forall|i: int| 0 <= i <= rest.len() ==> unanswered(#[trigger] responses[i], rt),
        capacity == 0 || distinct(rest.push(q.0)) || forall|i: int| 0 <= i <= rest.len() ==> (#[trigger] responses[i]) is Err,
        fuel >= 3 * (rest.len() + 1),
    ensures
        drive((rest, rt, PendingView::Awaiting(q)), capacity, entries, responses, now, fuel) == (
            Some(outcome(responses[rest.len() as int], rt)),
            seq![q] + attempts(rest, rt),
        ),
    decreases rest.len(),
{
    let f: FutureView = (rest, rt, PendingView::Awaiting(q));
    let (f3, e3) = complete_spec(f, capacity, entries, responses[0], now);
    let resp = responses[0];
    assert(unanswered(resp, rt));
    assert(f3 == (rest, rt, PendingView::Ready(outcome(resp, rt))));
    let tail = responses.drop_first();
    assert(poll_spec(f, entries, now) == (f, entries, StepView::Send(q)));
    let d3 = drive(f3, capacity, e3, tail, now, (fuel - 1) as nat);
    assert(drive(f, capacity, entries, responses, now, fuel) == (d3.0, seq![q] + d3.1));
    if rest.len() == 0 {
        assert(drive(f3, capacity, e3, tail, now, (fuel - 1) as nat) == (
            Some(outcome(resp, rt)),
            Seq::<QueryKey>::empty(),
        ));
        assert(seq![q] + Seq::<QueryKey>::empty() =~= seq![q] + attempts(rest, rt));
    } else {
        let q2 = (rest.last(), rt, DNSClass::IN);
        let rest2 = rest.drop_last();
        // the cache after the answer: still within bounds, and no candidate live
        if resp is Ok {
            let recs = matching(resp->Ok_0, rt);
            assert forall|i: int| 0 <= i < rest.len() implies cached(e3, (rest[i], rt, DNSClass::IN), now) is None by {
                lemma_insert(capacity, entries, q, rdatas_of(recs), expiry(now, min_ttl(recs)), (rest[i], rt, DNSClass::IN), now);
                if capacity > 0 {
                    assert(!(forall|k: int| 0 <= k <= rest.len() ==> (#[trigger] responses[k]) is Err));
                    assert(distinct(rest.push(q.0)));
                    assert(rest.push(q.0)[i] == rest[i]);
                    assert(rest.push(q.0)[rest.len() as int] == q.0);
                }
            }
            lemma_insert(capacity, entries, q, rdatas_of(recs), expiry(now, min_ttl(recs)), q2, now);
        }
        assert(cached(e3, q2, now) is None);
        assert(e3.len() <= capacity && unique_keys(e3));
        let e4 = after_get(e3, q2, now);
        assert forall|i: int| 0 <= i < rest2.len() implies cached(e4, (rest2[i], rt, DNSClass::IN), now) is None by {
            lemma_get(capacity, e3, q2, now, (rest2[i], rt, DNSClass::IN));
            assert(rest2[i] == rest[i]);
        }
        lemma_get(capacity, e3, q2, now, q2);
        let f4: FutureView = (rest2, rt, PendingView::Awaiting(q2));
        assert(poll_spec(f3, e3, now) == (f4, e4, StepView::Again));
        assert forall|i: int| 0 <= i <= rest2.len() implies unanswered(#[trigger] tail[i], rt) by {
            assert(tail[i] == responses[i + 1]);
        }
        if distinct(rest.push(q.0)) {
            assert forall|i: int, j: int| 0 <= i < rest2.push(q2.0).len() && 0 <= j < rest2.push(q2.0).len() && i != j
                implies rest2.push(q2.0)[i] != rest2.push(q2.0)[j] by {
                assert(rest2.push(q2.0)[i] == rest.push(q.0)[i]);
                assert(rest2.push(q2.0)[j] == rest.push(q.0)[j]);
            }
        }
        if forall|i: int| 0 <= i <= rest.len() ==> (#[trigger] responses[i]) is Err {
            assert forall|i: int| 0 <= i <= rest2.len() implies (#[trigger] tail[i]) is Err by {
                assert(tail[i] == responses[i + 1]);
            }
        }
        lemma_drive_unanswered(rest2, rt, q2, capacity, e4, tail, now, (fuel - 2) as nat);
        assert(d3 == drive(f4, capacity, e4, tail, now, (fuel - 2) as nat));
        assert(tail[rest2.len() as int] == responses[rest.len() as int]);
        assert(seq![q] + (seq![q2] + attempts(rest2, rt)) =~= seq![q] + attempts(rest, rt));
    }
}

/// The start of a resolution in which no candidate is live in the cache:
/// the last name's query waits for the transport, and still no candidate is
/// live.
proof fn lemma_start_unanswered(names: Seq<Seq<u8>>, rt: RecordType, capacity: nat, entries: Seq<EntryView>, now: u64)
    requires
        names.len() > 0,
        entries.len() <= capacity,
        unique_keys(entries),
        none_cached(names, rt, entries, now),
    ensures
        ({
            let (f, e1) = started(names, rt, entries, now);
            &&& f == (names.drop_last(), rt, PendingView::Awaiting((names.last(), rt, DNSClass::IN)))
            &&& e1.len() <= capacity
            &&& unique_keys(e1)
            &&& none_cached(names.drop_last(), rt, e1, now)
        }),
{
    let q = (names.last(), rt, DNSClass::IN);
    assert(cached(entries, q, now) is None);
    let rest = names.drop_last();
    let e1 = after_get(entries, q, now);
    lemma_get(capacity, entries, q, now, q);
    assert forall|i: int| 0 <= i < rest.len() implies cached(e1, (rest[i], rt, DNSClass::IN), now) is None by {
        assert(rest[i] == names[i]);
        lemma_get(capacity, entries, q, now, (rest[i], rt, DNSClass::IN));
    }
}

/// Where every candidate's response holds no records of the type sought,
/// the resolution succeeds with no records, after one query per candidate,
/// the last name first. No candidate may be live in the cache at the start,
/// and where the cache keeps entries the names are distinct (else a later
/// candidate is answered from the cache).
pub proof fn lemma_all_empty(
    names: Seq<Seq<u8>>,
    rt: RecordType,
    capacity: nat,
    entries: Seq<EntryView>,
    responses: Seq<Response>,
    now: u64,
    fuel: nat,
)
    requires
        names.len() > 0,
        entries.len() <= capacity,
        unique_keys(entries),
        none_cached(names, rt, entries, now),
        capacity == 0 || distinct(names),
        responses.len() >= names.len(),
        forall|i: int| 0 <= i < names.len() ==> (#[trigger] responses[i]) is Ok && matching(responses[i]->Ok_0, rt).len() == 0,
        fuel >= 3 * names.len(),
    ensures
        ({
            let (f, e1) = started(names, rt, entries, now);
            drive(f, capacity, e1, responses, now, fuel) == (
                Some(Ok::<Seq<RData>, Seq<char>>(Seq::empty())),
                attempts(names, rt),
            )
        }),
{
    let q = (names.last(), rt, DNSClass::IN);
    let rest = names.drop_last();
    lemma_start_unanswered(names, rt, capacity, entries, now);
    let (f, e1) = started(names, rt, entries, now);
    assert(rest.push(q.0) =~= names);
    assert forall|i: int| 0 <= i <= rest.len() implies unanswered(#[trigger] responses[i], rt) by {}
    lemma_drive_unanswered(rest, rt, q, capacity, e1, responses, now, fuel);
    let last = responses[rest.len() as int];
    assert(matching(last->Ok_0, rt).len() == 0);
    assert(rdatas_of(matching(last->Ok_0, rt)) =~= Seq::<RData>::empty());
}

/// Where every candidate's query fails, the resolution fails with the last
/// candidate's error, after one query per candidate, the last name first.
/// No candidate may be live in the cache at the start.
pub proof fn lemma_all_fail(
    names: Seq<Seq<u8>>,
    rt: RecordType,
    capacity: nat,
    entries: Seq<EntryView>,
    responses: Seq<Response>,
    now: u64,
    fuel: nat,
)
    requires
        names.len() > 0,
        entries.len() <= capacity,
        unique_keys(entries),
        none_cached(names, rt, entries, now),
        responses.len() >= names.len(),
        forall|i: int| 0 <= i < names.len() ==> (#[trigger] responses[i]) is Err,
        fuel >= 3 * names.len(),
    ensures
        ({
            let (f, e1) = started(names, rt, entries, now);
            drive(f, capacity, e1, responses, now, fuel) == (
                Some(Err::<Seq<RData>, Seq<char>>(responses[names.len() - 1]->Err_0)),
                attempts(names, rt),
            )
        }),
{
    let q = (names.last(), rt, DNSClass::IN);
    let rest = names.drop_last();
    lemma_start_unanswered(names, rt, capacity, entries, now);
    assert forall|i: int| 0 <= i <= rest.len() implies unanswered(#[trigger] responses[i], rt) by {}
    lemma_drive_unanswered(rest, rt, q, capacity, started(names, rt, entries, now).1, responses, now, fuel);
}

} // verus!
