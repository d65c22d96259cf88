use dns_lookup::cache::DnsLru;
use dns_lookup::error::ResolveError;
use dns_lookup::lookup::Lookup;
use dns_lookup::resolve::{InnerLookupFuture, Step};
use dns_lookup::rr::{Message, Name, Query, RData, Record, RecordType};

fn v4_message() -> Result<Message, ResolveError> {
    let mut message = Message::new();
    message.insert_answers(vec![Record::from_rdata(
        Name::root(),
        86400,
        RecordType::A,
        RData::A(127, 0, 0, 1),
    )]);
    Ok(message)
}

fn empty() -> Result<Message, ResolveError> {
    Ok(Message::new())
}

fn error() -> Result<Message, ResolveError> {
    Err(ResolveError::new("io error".to_string()))
}

/// Drives a resolution to its end. Each send takes the last of `messages`,
/// or an empty response once none is left; returns the outcome and the
/// queries sent.
fn drive(
    fut: &mut InnerLookupFuture,
    cache: &mut DnsLru,
    messages: &mut Vec<Result<Message, ResolveError>>,
    now: u64,
) -> (Result<Lookup, ResolveError>, Vec<Query>) {
    let mut sent = Vec::new();
    loop {
        match fut.poll(cache, now) {
            Step::Done(r) => return (r, sent),
            Step::Again => {}
            Step::Send(q) => {
                let response = messages.pop().unwrap_or(empty());
                sent.push(q);
                fut.complete(cache, response, now);
            }
        }
    }
}

fn resolve(
    names: Vec<Name>,
    cache: &mut DnsLru,
    messages: Vec<Result<Message, ResolveError>>,
    now: u64,
) -> (Result<Lookup, ResolveError>, Vec<Query>) {
    let mut messages = messages;
    let mut fut = InnerLookupFuture::lookup(names, RecordType::A, cache, now);
    drive(&mut fut, cache, &mut messages, now)
}

fn ips(l: &Lookup) -> Vec<[u8; 4]> {
    let mut out = Vec::new();
    let mut it = l.iter();
    while let Some(r) = it.next() {
        out.push(r.to_ipv4().unwrap());
    }
    out
}

fn name(s: &str) -> Name {
    Name::new(s.as_bytes().to_vec())
}

#[test]
fn test_lookup() {
    let (r, _) = resolve(vec![Name::root()], &mut DnsLru::new(0), vec![v4_message()], 0);
    assert_eq!(ips(&r.unwrap()), vec![[127, 0, 0, 1]]);
}

#[test]
fn test_error() {
    let (r, _) = resolve(vec![Name::root()], &mut DnsLru::new(0), vec![error()], 0);
    assert!(r.is_err());
}

#[test]
fn test_empty_no_response() {
    let (r, _) = resolve(vec![Name::root()], &mut DnsLru::new(0), vec![empty()], 0);
    assert_eq!(ips(&r.unwrap()), Vec::<[u8; 4]>::new());
}

#[test]
fn first_candidate_answer_is_final() {
    let names = vec![name("b."), name("a.")];
    let (r, sent) = resolve(names, &mut DnsLru::new(10), vec![v4_message()], 0);
    assert_eq!(ips(&r.unwrap()), vec![[127, 0, 0, 1]]);
    assert_eq!(sent.len(), 1);
    assert_eq!(sent[0].name.bytes, b"a.".to_vec());
}

#[test]
fn all_empty_tries_each_candidate_last_first() {
    let names = vec![name("c."), name("b."), name("a.")];
    let (r, sent) = resolve(names, &mut DnsLru::new(10), vec![empty(), empty(), empty()], 0);
    assert!(r.unwrap().is_empty());
    let order: Vec<Vec<u8>> = sent.iter().map(|q| q.name.bytes.clone()).collect();
    assert_eq!(order, vec![b"a.".to_vec(), b"b.".to_vec(), b"c.".to_vec()]);
}

#[test]
fn all_failing_returns_last_error() {
    let names = vec![name("b."), name("a.")];
    let messages = vec![
        Err(ResolveError::new("second".to_string())),
        Err(ResolveError::new("first".to_string())),
    ];
    let (r, sent) = resolve(names, &mut DnsLru::new(10), messages, 0);
    assert_eq!(r.err().unwrap().message(), "second");
    assert_eq!(sent.len(), 2);
}

#[test]
fn error_then_answer_succeeds() {
    let names = vec![name("b."), name("a.")];
    let (r, sent) = resolve(names, &mut DnsLru::new(10), vec![v4_message(), error()], 0);
    assert_eq!(ips(&r.unwrap()), vec![[127, 0, 0, 1]]);
    assert_eq!(sent.len(), 2);
}

#[test]
fn cached_answer_skips_transport() {
    let mut cache = DnsLru::new(4);
    let (r1, sent1) = resolve(vec![Name::root()], &mut cache, vec![v4_message()], 100);
    assert_eq!(sent1.len(), 1);
    let (r2, sent2) = resolve(vec![Name::root()], &mut cache, vec![], 200);
    assert_eq!(sent2.len(), 0);
    assert_eq!(ips(&r1.unwrap()), ips(&r2.unwrap()));
    assert_eq!(cache.len(), 1);
}

#[test]
fn cached_answer_expires_after_ttl() {
    let mut cache = DnsLru::new(4);
    let (_, sent1) = resolve(vec![Name::root()], &mut cache, vec![v4_message()], 100);
    assert_eq!(sent1.len(), 1);
    let (r, sent2) = resolve(vec![Name::root()], &mut cache, vec![v4_message()], 100 + 86400);
    assert_eq!(sent2.len(), 1);
    assert_eq!(ips(&r.unwrap()), vec![[127, 0, 0, 1]]);
}

#[test]
fn zero_capacity_sends_every_time() {
    let mut cache = DnsLru::new(0);
    let (_, sent1) = resolve(vec![Name::root()], &mut cache, vec![v4_message()], 5);
    let (_, sent2) = resolve(vec![Name::root()], &mut cache, vec![v4_message()], 5);
    assert_eq!(sent1.len(), 1);
    assert_eq!(sent2.len(), 1);
    assert_eq!(cache.len(), 0);
}

#[test]
fn zero_ttl_sends_every_time() {
    let mut cache = DnsLru::new(4);
    let q = Query::query(Name::root(), RecordType::A);
    cache.insert(q, vec![(RData::A(10, 0, 0, 1), 0)], 7);
    assert_eq!(cache.len(), 1);
    let q = Query::query(Name::root(), RecordType::A);
    assert!(cache.get(&q, 7).is_none());
    assert_eq!(cache.len(), 0);
}

#[test]
fn insert_uses_smallest_ttl() {
    let mut cache = DnsLru::new(4);
    let q = Query::query(Name::root(), RecordType::A);
    let l = cache.insert(q, vec![(RData::A(10, 0, 0, 1), 300), (RData::A(10, 0, 0, 2), 60)], 1000);
    assert_eq!(ips(&l), vec![[10, 0, 0, 1], [10, 0, 0, 2]]);
    let q = Query::query(Name::root(), RecordType::A);
    assert!(cache.get(&q, 1059).is_some());
    assert!(cache.get(&q, 1060).is_none());
}

#[test]
fn least_recently_used_is_evicted() {
    let mut cache = DnsLru::new(2);
    for n in ["a.", "b."] {
        cache.insert(Query::query(name(n), RecordType::A), vec![(RData::A(1, 1, 1, 1), 100)], 0);
    }
    // touching "a." makes "b." the least recently used
    assert!(cache.get(&Query::query(name("a."), RecordType::A), 1).is_some());
    cache.insert(Query::query(name("c."), RecordType::A), vec![(RData::NULL, 100)], 2);
    assert_eq!(cache.len(), 2);
    assert!(cache.get(&Query::query(name("b."), RecordType::A), 3).is_none());
    assert!(cache.get(&Query::query(name("a."), RecordType::A), 3).is_some());
    assert!(cache.get(&Query::query(name("c."), RecordType::A), 3).is_some());
}

#[test]
fn response_keeps_only_matching_type() {
    let mut cache = DnsLru::new(1);
    let mut message = Message::new();
    message.insert_answers(vec![
        Record::from_rdata(Name::root(), 50, RecordType::AAAA, RData::AAAA(0, 0, 0, 0, 0, 0, 0, 1)),
        Record::from_rdata(Name::root(), 50, RecordType::A, RData::A(127, 0, 0, 1)),
    ]);
    let l = cache.insert_response(Query::query(Name::root(), RecordType::A), message, 0);
    assert_eq!(ips(&l), vec![[127, 0, 0, 1]]);
}

#[test]
fn append_is_associative_and_keeps_inputs() {
    let a = Lookup::from_vec(vec![RData::A(1, 0, 0, 0)]);
    let b = Lookup::from_vec(vec![RData::A(2, 0, 0, 0), RData::A(3, 0, 0, 0)]);
    let c = Lookup::from_vec(vec![RData::NULL]);
    let left = a.append(b.share()).append(c.share());
    let right = a.append(b.append(c.share()));
    assert_eq!(left.to_vec(), right.to_vec());
    assert_eq!(left.len(), 4);
    assert_eq!(a.to_vec(), vec![RData::A(1, 0, 0, 0)]);
    assert_eq!(b.len(), 2);
    assert_eq!(left.get(3), Some(RData::NULL));
    assert_eq!(left.get(4), None);
}

#[test]
fn error_future_fails_at_once() {
    let mut cache = DnsLru::new(1);
    let mut fut = InnerLookupFuture::error(ResolveError::new("bad name".to_string()));
    let (r, sent) = drive(&mut fut, &mut cache, &mut vec![v4_message()], 0);
    assert_eq!(r.err().unwrap().message(), "bad name");
    assert!(sent.is_empty());
}
