//! Domain names, record types, records, queries and response messages.

use vstd::prelude::*;

verus! {

/// A domain name, held as its presentation bytes (the root is empty).
#[derive(Debug)]
pub struct Name {
    pub bytes: Vec<u8>,
}

impl View for Name {
    type V = Seq<u8>;

    open spec fn view(&self) -> Seq<u8> {
        self.bytes@
    }
}

impl Name {
    /// The root name.
    pub fn root() -> (r: Name)
        ensures
            r@ == Seq::<u8>::empty(),
    {
        Name { bytes: Vec::new() }
    }

    pub fn new(bytes: Vec<u8>) -> (r: Name)
        ensures
            r@ == bytes@,
    {
        Name { bytes }
    }

    /// Byte-wise equality of two names.
    pub fn same_as(&self, other: &Name) -> (r: bool)
        ensures
            r == (self@ == other@),
    {
        if self.bytes.len() != other.bytes.len() {
            return false;
        }
        let mut i: usize = 0;
        while i < self.bytes.len()
            invariant
                self.bytes.len() == other.bytes.len(),
                0 <= i <= self.bytes.len(),
                forall|j: int| 0 <= j < i ==> self.bytes@[j] == other.bytes@[j],
            decreases self.bytes.len() - i,
        {
            if self.bytes[i] != other.bytes[i] {
                return false;
            }
            i = i + 1;
        }
        assert(self@ =~= other@);
        true
    }

    pub fn clone_name(&self) -> (r: Name)
        ensures
            r@ == self@,
    {
        let mut bytes: Vec<u8> = Vec::new();
        let mut i: usize = 0;
        while i < self.bytes.len()
            invariant
                0 <= i <= self.bytes.len(),
                bytes@ == self.bytes@.subrange(0, i as int),
            decreases self.bytes.len() - i,
        {
            bytes.push(self.bytes[i]);
            i = i + 1;
        }
        assert(bytes@ =~= self.bytes@);
        Name { bytes }
    }
}

/// The type of a resource record, or of the records a query asks for.
#[derive(Clone, Copy, Debug, PartialEq, Eq, Structural)]
pub enum RecordType {
    A,
    AAAA,
    CNAME,
    MX,
    NS,
    NULL,
    PTR,
    SOA,
    SRV,
    TXT,
}

/// The class of a record or query.
#[derive(Clone, Copy, Debug, PartialEq, Eq, Structural)]
pub enum DNSClass {
    IN,
    CH,
    HS,
    NONE,
    ANY,
}

/// The data of one answer record.
#[derive(Clone, Copy, Debug, PartialEq, Eq, Structural)]
pub enum RData {
    /// An IPv4 address, most significant octet first.
    A(u8, u8, u8, u8),
    /// An IPv6 address, most significant group first.
    AAAA(u16, u16, u16, u16, u16, u16, u16, u16),
    /// A record without data.
    NULL,
}

impl RData {
    /// The IPv4 octets of an `A` record.
    pub fn to_ipv4(&self) -> (r: Option<[u8; 4]>)
        ensures
            r == (match *self {
                RData::A(a, b, c, d) => Some([a, b, c, d]),
                _ => None,
            }),
    {
        match *self {
            RData::A(a, b, c, d) => Some([a, b, c, d]),
            _ => None,
        }
    }
}

/// One resource record of a response.
#[derive(Debug)]
pub struct Record {
    pub name: Name,
    pub rr_type: RecordType,
    pub dns_class: DNSClass,
    pub ttl: u32,
    pub rdata: RData,
}

impl Record {
    /// A record of class `IN` that holds `rdata`.
    pub fn from_rdata(name: Name, ttl: u32, rr_type: RecordType, rdata: RData) -> (r: Record)
        ensures
            r.name@ == name@,
            r.ttl == ttl,
            r.rr_type == rr_type,
            r.dns_class == DNSClass::IN,
            r.rdata == rdata,
    {
        Record { name, rr_type, dns_class: DNSClass::IN, ttl, rdata }
    }
}

/// A query: the unit of one request and the key of the cache.
#[derive(Debug)]
pub struct Query {
    pub name: Name,
    pub query_type: RecordType,
    pub query_class: DNSClass,
}

/// The mathematical value of a query: its name, type and class.
pub type QueryKey = (Seq<u8>, RecordType, DNSClass);

impl View for Query {
    type V = QueryKey;

    open spec fn view(&self) -> QueryKey {
        (self.name@, self.query_type, self.query_class)
    }
}

impl Query {
    /// A query of class `IN` for `name` and `query_type`.
    pub fn query(name: Name, query_type: RecordType) -> (r: Query)
        ensures
            r@ == (name@, query_type, DNSClass::IN),
    {
        Query { name, query_type, query_class: DNSClass::IN }
    }

    /// Structural equality of two queries.
    pub fn same_key(&self, other: &Query) -> (r: bool)
        ensures
            r == (self@ == other@),
    {
        self.query_type == other.query_type && self.query_class == other.query_class
            && self.name.same_as(&other.name)
    }

    pub fn clone_query(&self) -> (r: Query)
        ensures
            r@ == self@,
    {
        Query { name: self.name.clone_name(), query_type: self.query_type, query_class: self.query_class }
    }
}

/// A response message; only its answer section matters here.
#[derive(Debug)]
pub struct Message {
    pub answers: Vec<Record>,
}

impl View for Message {
    type V = Seq<Record>;

    open spec fn view(&self) -> Seq<Record> {
        self.answers@
    }
}

impl Message {
    /// A message without answers.
    pub fn new() -> (r: Message)
        ensures
            r@ == Seq::<Record>::empty(),
    {
        Message { answers: Vec::new() }
    }

    /// Adds `records` at the end of the answer section.
    pub fn insert_answers(&mut self, records: Vec<Record>)
        ensures
            final(self)@ == old(self)@ + records@,
    {
        let mut records = records;
        self.answers.append(&mut records);
    }
}

} // verus!
