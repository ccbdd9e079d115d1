//! Resource records, requests and responses, and the classifier that
//! rewrites TTLs and partitions a record batch into the four response
//! sections: answers, name servers, SOA, additionals.

use vstd::prelude::*;
use vstd::seq_lib::*;

verus! {

/// DNS TYPE code for NS records.
pub const TYPE_NS: u16 = 2;

/// DNS TYPE code for SOA records.
pub const TYPE_SOA: u16 = 6;

/// DNS RCODE: no error.
pub const RCODE_NOERROR: u16 = 0;

/// DNS RCODE: server failure.
pub const RCODE_SERVFAIL: u16 = 2;

/// DNS RCODE: no such domain.
pub const RCODE_NXDOMAIN: u16 = 3;

/// DNS RCODE: refused.
pub const RCODE_REFUSED: u16 = 5;

/// Whether a DNS message asks a question or answers one.
#[derive(Clone, Copy, Debug, PartialEq, Eq, Structural)]
pub enum MessageType {
    Query,
    Response,
}

/// A resource record as handed over by the wire codec: name and RDATA are
/// carried as plain bytes.
#[derive(Debug, PartialEq, Eq)]
pub struct DnsRecord {
    pub name: Vec<u8>,
    pub rtype: u16,
    pub class: u16,
    pub ttl: u32,
    pub rdata: Vec<u8>,
}

/// Mathematical model of a resource record.
#[verifier::ext_equal]
pub ghost struct RecordModel {
    pub name: Seq<u8>,
    pub rtype: u16,
    pub class: u16,
    pub ttl: u32,
    pub rdata: Seq<u8>,
}

impl View for DnsRecord {
    type V = RecordModel;

    open spec fn view(&self) -> RecordModel {
        RecordModel {
            name: self.name@,
            rtype: self.rtype,
            class: self.class,
            ttl: self.ttl,
            rdata: self.rdata@,
        }
    }
}

/// A record whose variable-length fields fit the cache codec's two-byte
/// length prefixes; every record of a DNS message satisfies this, since
/// names and RDATA are themselves length-limited on the wire.
pub open spec fn wf_record(r: RecordModel) -> bool {
    r.name.len() <= 0xFFFF && r.rdata.len() <= 0xFFFF
}

/// The view of each record, in order.
pub open spec fn record_view() -> spec_fn(DnsRecord) -> RecordModel {
    |x: DnsRecord| x@
}

pub open spec fn models(v: Seq<DnsRecord>) -> Seq<RecordModel> {
    v.map_values(record_view())
}

/// A decoded client request.
#[derive(Debug, PartialEq, Eq)]
pub struct DnsRequest {
    pub id: u16,
    pub message_type: MessageType,
    pub query_name: Vec<u8>,
    pub query_type: u16,
}

#[verifier::ext_equal]
pub ghost struct RequestModel {
    pub id: u16,
    pub message_type: MessageType,
    pub query_name: Seq<u8>,
    pub query_type: u16,
}

impl View for DnsRequest {
    type V = RequestModel;

    open spec fn view(&self) -> RequestModel {
        RequestModel {
            id: self.id,
            message_type: self.message_type,
            query_name: self.query_name@,
            query_type: self.query_type,
        }
    }
}

/// ASCII lower-casing of one byte, per DNS name comparison rules.
pub open spec fn lower_byte(b: u8) -> u8 {
    if 65 <= b <= 90 {
        (b + 32) as u8
    } else {
        b
    }
}

/// Case-insensitive equality of two names in their canonical byte form.
pub open spec fn names_equal_ci(a: Seq<u8>, b: Seq<u8>) -> bool {
    a.len() == b.len() && (forall|i: int| 0 <= i < a.len() ==> lower_byte(a[i]) == lower_byte(b[i]))
}

fn lower_byte_exec(b: u8) -> (r: u8)
    ensures
        r == lower_byte(b),
{
    if 65 <= b && b <= 90 {
        b + 32
    } else {
        b
    }
}

/// Compares two names, ignoring ASCII case.
pub fn names_equal(a: &Vec<u8>, b: &Vec<u8>) -> (r: bool)
    ensures
        r == names_equal_ci(a@, b@),
{
    if a.len() != b.len() {
        return false;
    }
    let mut i: usize = 0;
    while i < a.len()
        invariant
            a@.len() == b@.len(),
            0 <= i <= a@.len(),
            forall|k: int| 0 <= k < i ==> lower_byte(a@[k]) == lower_byte(b@[k]),
        decreases a@.len() - i,
    {
        if lower_byte_exec(a[i]) != lower_byte_exec(b[i]) {
            return false;
        }
        i = i + 1;
    }
    true
}

/// The response section a record belongs in, by the priority order: SOA
/// first, then NS, then answers when the name matches the query name,
/// otherwise additionals.
#[derive(Clone, Copy, Debug, PartialEq, Eq, Structural)]
pub enum Bucket {
    Answers,
    NameServers,
    Soa,
    Additionals,
}

pub open spec fn spec_bucket_of(qname: Seq<u8>, r: RecordModel) -> Bucket {
    if r.rtype == TYPE_SOA {
        Bucket::Soa
    } else if r.rtype == TYPE_NS {
        Bucket::NameServers
    } else if names_equal_ci(r.name, qname) {
        Bucket::Answers
    } else {
        Bucket::Additionals
    }
}

pub open spec fn bucket_pred(qname: Seq<u8>, b: Bucket) -> spec_fn(RecordModel) -> bool {
    |r: RecordModel| spec_bucket_of(qname, r) == b
}

/// The rewritten TTL: the seconds until `received_at + ttl`, clamped below
/// at zero and truncated to 32 bits.
pub open spec fn spec_rewrite_ttl(ttl: u32, received_at: int, now: int) -> u32 {
    let remaining = received_at + ttl - now;
    if remaining <= 0 {
        0u32
    } else {
        (remaining % 0x1_0000_0000) as u32
    }
}

pub open spec fn spec_rewrite(r: RecordModel, received_at: int, now: int) -> RecordModel {
    RecordModel { ttl: spec_rewrite_ttl(r.ttl, received_at, now), ..r }
}

pub open spec fn rewrite_fn(received_at: int, now: int) -> spec_fn(RecordModel) -> RecordModel {
    |r: RecordModel| spec_rewrite(r, received_at, now)
}

/// The classifier's output: one ordered bucket per response section.
#[derive(Debug, Default)]
pub struct RecordsByKind {
    pub answers: Vec<DnsRecord>,
    pub name_servers: Vec<DnsRecord>,
    pub soa: Vec<DnsRecord>,
    pub additionals: Vec<DnsRecord>,
}

#[verifier::ext_equal]
pub ghost struct ClassifiedModel {
    pub answers: Seq<RecordModel>,
    pub name_servers: Seq<RecordModel>,
    pub soa: Seq<RecordModel>,
    pub additionals: Seq<RecordModel>,
}

impl View for RecordsByKind {
    type V = ClassifiedModel;

    open spec fn view(&self) -> ClassifiedModel {
        ClassifiedModel {
            answers: models(self.answers@),
            name_servers: models(self.name_servers@),
            soa: models(self.soa@),
            additionals: models(self.additionals@),
        }
    }
}

/// Meaning of classification: each bucket holds, in source order, the
/// records the priority rule sends there, each with its TTL rewritten.
pub open spec fn spec_classify(
    qname: Seq<u8>,
    recs: Seq<RecordModel>,
    received_at: int,
    now: int,
) -> ClassifiedModel {
    ClassifiedModel {
        answers: recs.filter(bucket_pred(qname, Bucket::Answers)).map_values(
            rewrite_fn(received_at, now),
        ),
        name_servers: recs.filter(bucket_pred(qname, Bucket::NameServers)).map_values(
            rewrite_fn(received_at, now),
        ),
        soa: recs.filter(bucket_pred(qname, Bucket::Soa)).map_values(rewrite_fn(received_at, now)),
        additionals: recs.filter(bucket_pred(qname, Bucket::Additionals)).map_values(
            rewrite_fn(received_at, now),
        ),
    }
}

pub(crate) fn copy_bytes(v: &Vec<u8>) -> (r: Vec<u8>)
    ensures
        r@ == v@,
{
    let mut r: Vec<u8> = Vec::new();
    let mut i: usize = 0;
    while i < v.len()
        invariant
            0 <= i <= v@.len(),
            r@ =~= v@.subrange(0, i as int),
        decreases v@.len() - i,
    {
        r.push(v[i]);
        i = i + 1;
    }
    proof {
        assert(r@ =~= v@);
    }
    r
}

impl DnsRecord {
    /// A value copy of the record.
    pub fn duplicate(&self) -> (r: DnsRecord)
        ensures
            r@ == self@,
    {
        DnsRecord {
            name: copy_bytes(&self.name),
            rtype: self.rtype,
            class: self.class,
            ttl: self.ttl,
            rdata: copy_bytes(&self.rdata),
        }
    }
}

/// Rewrites one record's TTL to the time left until its expiry instant,
/// clamped at zero and truncated to 32 bits as the wire field is.
fn rewrite_record(rec: &DnsRecord, received_at: i64, now: i64) -> (r: DnsRecord)
    requires
        0 <= received_at,
        received_at + 0xFFFF_FFFF <= i64::MAX,
        0 <= now,
    ensures
        r@ == spec_rewrite(rec@, received_at as int, now as int),
{
    let expires_at: i64 = received_at + (rec.ttl as i64);
    let remaining: i64 = expires_at - now;
    let new_ttl: u32 = if remaining <= 0 {
        0u32
    } else {
        ((remaining as u64) % 0x1_0000_0000u64) as u32
    };
    proof {
        if remaining > 0 {
            assert(remaining as u64 as int == remaining as int);
            assert(new_ttl as int == remaining as int % 0x1_0000_0000);
        }
        assert(new_ttl == spec_rewrite_ttl(rec@.ttl, received_at as int, now as int));
    }
    let mut r = rec.duplicate();
    r.ttl = new_ttl;
    proof {
        assert(r@ =~~= spec_rewrite(rec@, received_at as int, now as int));
    }
    r
}

/// Classifies a record batch against the request, rewriting each TTL
/// relative to `now` from the instant `received_at` the batch was fetched.
pub fn classify(request: &DnsRequest, records: &Vec<DnsRecord>, received_at: i64, now: i64) -> (r:
    RecordsByKind)
    requires
        0 <= received_at,
        received_at + 0xFFFF_FFFF <= i64::MAX,
        0 <= now,
    ensures
        r@ == spec_classify(request.query_name@, models(records@), received_at as int, now as int),
{
    let ghost qname = request.query_name@;
    let ghost ms = models(records@);
    let ghost ra = received_at as int;
    let ghost nw = now as int;
    let mut d = RecordsByKind {
        answers: Vec::new(),
        name_servers: Vec::new(),
        soa: Vec::new(),
        additionals: Vec::new(),
    };
    let mut i: usize = 0;
    proof {
        assert(ms.subrange(0, 0) =~= Seq::<RecordModel>::empty());
        assert(Seq::<RecordModel>::empty().filter(bucket_pred(qname, Bucket::Answers)) =~= Seq::<
            RecordModel,
        >::empty()) by {
            reveal(Seq::filter);
        }
        assert(Seq::<RecordModel>::empty().filter(bucket_pred(qname, Bucket::NameServers)) =~= Seq::<
            RecordModel,
        >::empty()) by {
            reveal(Seq::filter);
        }
        assert(Seq::<RecordModel>::empty().filter(bucket_pred(qname, Bucket::Soa)) =~= Seq::<
            RecordModel,
        >::empty()) by {
            reveal(Seq::filter);
        }
        assert(Seq::<RecordModel>::empty().filter(bucket_pred(qname, Bucket::Additionals)) =~= Seq::<
            RecordModel,
        >::empty()) by {
            reveal(Seq::filter);
        }
        assert(Seq::<RecordModel>::empty().map_values(rewrite_fn(ra, nw)) =~= Seq::<
            RecordModel,
        >::empty());
        assert(models(Seq::<DnsRecord>::empty()) =~= Seq::<RecordModel>::empty());
    }
    while i < records.len()
        invariant
            0 <= i <= records@.len(),
            ms == models(records@),
            ms.len() == records@.len(),
            qname == request.query_name@,
            0 <= received_at,
            received_at + 0xFFFF_FFFF <= i64::MAX,
            0 <= now,
            ra == received_at as int,
            nw == now as int,
            models(d.answers@) == ms.subrange(0, i as int).filter(
                bucket_pred(qname, Bucket::Answers),
            ).map_values(rewrite_fn(ra, nw)),
            models(d.name_servers@) == ms.subrange(0, i as int).filter(
                bucket_pred(qname, Bucket::NameServers),
            ).map_values(rewrite_fn(ra, nw)),
            models(d.soa@) == ms.subrange(0, i as int).filter(
                bucket_pred(qname, Bucket::Soa),
            ).map_values(rewrite_fn(ra, nw)),
            models(d.additionals@) == ms.subrange(0, i as int).filter(
                bucket_pred(qname, Bucket::Additionals),
            ).map_values(rewrite_fn(ra, nw)),
        decreases records@.len() - i,
    {
        let rec = &records[i];
        proof {
            assert(ms[i as int] == records@[i as int]@);
        }
        let out = rewrite_record(rec, received_at, now);
        let ghost prefix = ms.subrange(0, i as int);
        let ghost m = ms[i as int];
        proof {
            assert(ms.subrange(0, i + 1) =~= prefix.push(m));
            lemma_seq_properties_for_classify(prefix, m, qname, ra, nw);
        }
        if rec.rtype == TYPE_SOA {
            let ghost before = d.soa@;
            d.soa.push(out);
            proof {
                assert(d.soa@ =~= before.push(out));
                Seq::lemma_push_map_commute(before, record_view(), out);
                assert(spec_bucket_of(qname, m) == Bucket::Soa);
            }
        } else if rec.rtype == TYPE_NS {
            let ghost before = d.name_servers@;
            d.name_servers.push(out);
            proof {
                assert(d.name_servers@ =~= before.push(out));
                Seq::lemma_push_map_commute(before, record_view(), out);
                assert(spec_bucket_of(qname, m) == Bucket::NameServers);
            }
        } else if names_equal(&rec.name, &request.query_name) {
            let ghost before = d.answers@;
            d.answers.push(out);
            proof {
                assert(d.answers@ =~= before.push(out));
                Seq::lemma_push_map_commute(before, record_view(), out);
                assert(spec_bucket_of(qname, m) == Bucket::Answers);
            }
        } else {
            let ghost before = d.additionals@;
            d.additionals.push(out);
            proof {
                assert(d.additionals@ =~= before.push(out));
                Seq::lemma_push_map_commute(before, record_view(), out);
                assert(spec_bucket_of(qname, m) == Bucket::Additionals);
            }
        }
        i = i + 1;
    }
    proof {
        assert(ms.subrange(0, records@.len() as int) =~= ms);
        assert(d@ =~~= spec_classify(qname, ms, ra, nw));
    }
    d
}

/// Pushing a record onto a prefix extends exactly the bucket the priority
/// rule picks, and leaves the other three buckets unchanged.
proof fn lemma_seq_properties_for_classify(
    prefix: Seq<RecordModel>,
    m: RecordModel,
    qname: Seq<u8>,
    ra: int,
    nw: int,
)
    ensures
        forall|b: Bucket|
            #[trigger] prefix.push(m).filter(bucket_pred(qname, b)).map_values(rewrite_fn(ra, nw))
                == (if spec_bucket_of(qname, m) == b {
                prefix.filter(bucket_pred(qname, b)).map_values(rewrite_fn(ra, nw)).push(
                    spec_rewrite(m, ra, nw),
                )
            } else {
                prefix.filter(bucket_pred(qname, b)).map_values(rewrite_fn(ra, nw))
            }),
{
    assert forall|b: Bucket|
        #[trigger] prefix.push(m).filter(bucket_pred(qname, b)).map_values(rewrite_fn(ra, nw)) == (
        if spec_bucket_of(qname, m) == b {
            prefix.filter(bucket_pred(qname, b)).map_values(rewrite_fn(ra, nw)).push(
                spec_rewrite(m, ra, nw),
            )
        } else {
            prefix.filter(bucket_pred(qname, b)).map_values(rewrite_fn(ra, nw))
        }) by {
        Seq::lemma_filter_push(prefix, m, bucket_pred(qname, b));
        if spec_bucket_of(qname, m) == b {
            assert(bucket_pred(qname, b)(m));
            Seq::lemma_push_map_commute(
                prefix.filter(bucket_pred(qname, b)),
                rewrite_fn(ra, nw),
                m,
            );
            assert(rewrite_fn(ra, nw)(m) == spec_rewrite(m, ra, nw));
        } else {
            assert(!bucket_pred(qname, b)(m));
        }
    }
}

/// Every record lands in exactly one bucket: the four buckets' lengths sum
/// to the input's length, and the record the priority rule assigns to a
/// bucket is found there with its TTL rewritten.
pub proof fn lemma_bucket_partition(qname: Seq<u8>, recs: Seq<RecordModel>, ra: int, nw: int)
    ensures
        spec_classify(qname, recs, ra, nw).answers.len() + spec_classify(
            qname,
            recs,
            ra,
            nw,
        ).name_servers.len() + spec_classify(qname, recs, ra, nw).soa.len() + spec_classify(
            qname,
            recs,
            ra,
            nw,
        ).additionals.len() == recs.len(),
        forall|j: int|
            0 <= j < recs.len() ==> bucket_seq_of(
                spec_classify(qname, recs, ra, nw),
                spec_bucket_of(qname, #[trigger] recs[j]),
            ).contains(spec_rewrite(recs[j], ra, nw)),
    decreases recs.len(),
{
    let c = spec_classify(qname, recs, ra, nw);
    lemma_filter_sum(qname, recs);
    assert forall|j: int| 0 <= j < recs.len() implies bucket_seq_of(
        c,
        spec_bucket_of(qname, recs[j]),
    ).contains(spec_rewrite(recs[j], ra, nw)) by {
        let b = spec_bucket_of(qname, recs[j]);
        let p = bucket_pred(qname, b);
        assert(p(recs[j]));
        Seq::lemma_filter_contains(recs, p, j);
        let f = recs.filter(p);
        let k = choose|k: int| 0 <= k < f.len() && f[k] == recs[j];
        assert(f.map_values(rewrite_fn(ra, nw))[k] == spec_rewrite(recs[j], ra, nw));
    }
}

/// The bucket of a classification named by its `Bucket` tag.
pub open spec fn bucket_seq_of(c: ClassifiedModel, b: Bucket) -> Seq<RecordModel> {
    match b {
        Bucket::Answers => c.answers,
        Bucket::NameServers => c.name_servers,
        Bucket::Soa => c.soa,
        Bucket::Additionals => c.additionals,
    }
}

proof fn lemma_filter_sum(qname: Seq<u8>, recs: Seq<RecordModel>)
    ensures
        recs.filter(bucket_pred(qname, Bucket::Answers)).len() + recs.filter(
            bucket_pred(qname, Bucket::NameServers),
        ).len() + recs.filter(bucket_pred(qname, Bucket::Soa)).len() + recs.filter(
            bucket_pred(qname, Bucket::Additionals),
        ).len() == recs.len(),
    decreases recs.len(),
{
    reveal(Seq::filter);
    if recs.len() > 0 {
        lemma_filter_sum(qname, recs.drop_last());
        let m = recs.last();
        assert(spec_bucket_of(qname, m) == Bucket::Answers || spec_bucket_of(qname, m)
            == Bucket::NameServers || spec_bucket_of(qname, m) == Bucket::Soa || spec_bucket_of(
            qname,
            m,
        ) == Bucket::Additionals);
    }
}

/// A response under construction: the header fields the handler sets, and
/// the four record sections in emission order.
#[derive(Debug, PartialEq, Eq)]
pub struct DnsResponse {
    pub id: u16,
    pub message_type: MessageType,
    pub response_code: u16,
    pub answer_count: u16,
    pub name_server_count: u16,
    pub additional_count: u16,
    pub answers: Vec<DnsRecord>,
    pub name_servers: Vec<DnsRecord>,
    pub soa: Vec<DnsRecord>,
    pub additionals: Vec<DnsRecord>,
}

#[verifier::ext_equal]
pub ghost struct ResponseModel {
    pub id: u16,
    pub message_type: MessageType,
    pub response_code: u16,
    pub answer_count: u16,
    pub name_server_count: u16,
    pub additional_count: u16,
    pub answers: Seq<RecordModel>,
    pub name_servers: Seq<RecordModel>,
    pub soa: Seq<RecordModel>,
    pub additionals: Seq<RecordModel>,
}

impl View for DnsResponse {
    type V = ResponseModel;

    open spec fn view(&self) -> ResponseModel {
        ResponseModel {
            id: self.id,
            message_type: self.message_type,
            response_code: self.response_code,
            answer_count: self.answer_count,
            name_server_count: self.name_server_count,
            additional_count: self.additional_count,
            answers: models(self.answers@),
            name_servers: models(self.name_servers@),
            soa: models(self.soa@),
            additionals: models(self.additionals@),
        }
    }
}

/// The response a classification yields: the request's id, a success code,
/// counts taken from the bucket lengths as the 16-bit wire fields hold
/// them, and the buckets in emission order.
pub open spec fn spec_make_response(c: ClassifiedModel, req: RequestModel) -> ResponseModel {
    ResponseModel {
        id: req.id,
        message_type: MessageType::Response,
        response_code: RCODE_NOERROR,
        answer_count: (c.answers.len() % 0x10000) as u16,
        name_server_count: (c.name_servers.len() % 0x10000) as u16,
        additional_count: (c.additionals.len() % 0x10000) as u16,
        answers: c.answers,
        name_servers: c.name_servers,
        soa: c.soa,
        additionals: c.additionals,
    }
}

/// A reply with no records: id, the given response code, empty sections.
pub open spec fn spec_empty_reply(id: u16, rcode: u16) -> ResponseModel {
    ResponseModel {
        id,
        message_type: MessageType::Response,
        response_code: rcode,
        answer_count: 0u16,
        name_server_count: 0u16,
        additional_count: 0u16,
        answers: Seq::empty(),
        name_servers: Seq::empty(),
        soa: Seq::empty(),
        additionals: Seq::empty(),
    }
}

fn truncate16(n: usize) -> (r: u16)
    ensures
        r as int == n as int % 0x10000,
{
    (n % 0x10000) as u16
}

pub(crate) fn clone_records(v: &Vec<DnsRecord>) -> (r: Vec<DnsRecord>)
    ensures
        models(r@) == models(v@),
{
    let mut r: Vec<DnsRecord> = Vec::new();
    let mut i: usize = 0;
    proof {
        assert(models(r@) =~= models(v@).subrange(0, 0));
    }
    while i < v.len()
        invariant
            0 <= i <= v@.len(),
            models(r@) == models(v@).subrange(0, i as int),
        decreases v@.len() - i,
    {
        let d = v[i].duplicate();
        let ghost before = r@;
        r.push(d);
        proof {
            assert(r@ =~= before.push(d));
            Seq::lemma_push_map_commute(before, record_view(), d);
            assert(models(v@)[i as int] == v@[i as int]@);
            assert(models(r@) =~= models(v@).subrange(0, i + 1));
        }
        i = i + 1;
    }
    proof {
        assert(models(v@).subrange(0, models(v@).len() as int) =~= models(v@));
        assert(models(v@).len() == v@.len());
    }
    r
}

impl RecordsByKind {
    /// Builds the response for a classified batch: the request's id, the
    /// response message type, counts from the bucket lengths, and the
    /// buckets in emission order.
    pub fn make_response(&self, request: &DnsRequest) -> (r: DnsResponse)
        ensures
            r@ == spec_make_response(self@, request@),
    {
        let r = DnsResponse {
            id: request.id,
            message_type: MessageType::Response,
            response_code: RCODE_NOERROR,
            answer_count: truncate16(self.answers.len()),
            name_server_count: truncate16(self.name_servers.len()),
            additional_count: truncate16(self.additionals.len()),
            answers: clone_records(&self.answers),
            name_servers: clone_records(&self.name_servers),
            soa: clone_records(&self.soa),
            additionals: clone_records(&self.additionals),
        };
        proof {
            assert(models(self.answers@).len() == self.answers@.len());
            assert(models(self.name_servers@).len() == self.name_servers@.len());
            assert(models(self.additionals@).len() == self.additionals@.len());
            assert(r@ =~~= spec_make_response(self@, request@));
        }
        r
    }
}

/// A reply with no records and the given response code.
pub fn empty_reply(id: u16, rcode: u16) -> (r: DnsResponse)
    ensures
        r@ == spec_empty_reply(id, rcode),
{
    let r = DnsResponse {
        id,
        message_type: MessageType::Response,
        response_code: rcode,
        answer_count: 0,
        name_server_count: 0,
        additional_count: 0,
        answers: Vec::new(),
        name_servers: Vec::new(),
        soa: Vec::new(),
        additionals: Vec::new(),
    };
    proof {
        assert(models(Seq::<DnsRecord>::empty()) =~= Seq::<RecordModel>::empty());
        assert(r@ =~~= spec_empty_reply(id, rcode));
    }
    r
}

/// True when `x` is some record of `recs` with its TTL rewritten for the
/// instants `ra` and `nw`.
pub open spec fn is_rewritten_input(x: RecordModel, recs: Seq<RecordModel>, ra: int, nw: int) -> bool {
    exists|j: int| 0 <= j < recs.len() && x == spec_rewrite(#[trigger] recs[j], ra, nw)
}

/// Every record a classification emits is some input record with its TTL
/// rewritten to `max(0, received_at + ttl - now)`, truncated to 32 bits;
/// the rewrite touches nothing but the TTL.
pub proof fn lemma_rewritten_ttl(qname: Seq<u8>, recs: Seq<RecordModel>, ra: int, nw: int)
    ensures
        (forall|b: Bucket, i: int|
            #![trigger bucket_seq_of(spec_classify(qname, recs, ra, nw), b)[i]]
            0 <= i < bucket_seq_of(spec_classify(qname, recs, ra, nw), b).len()
                ==> is_rewritten_input(
                bucket_seq_of(spec_classify(qname, recs, ra, nw), b)[i],
                recs,
                ra,
                nw,
            )),
        (forall|r: RecordModel|
            #[trigger] spec_rewrite(r, ra, nw) == (RecordModel {
                ttl: spec_rewrite_ttl(r.ttl, ra, nw),
                ..r
            })),
{
    assert forall|b: Bucket, i: int|
        #![trigger bucket_seq_of(spec_classify(qname, recs, ra, nw), b)[i]]
        0 <= i < bucket_seq_of(spec_classify(qname, recs, ra, nw), b).len() implies is_rewritten_input(
        bucket_seq_of(spec_classify(qname, recs, ra, nw), b)[i],
        recs,
        ra,
        nw,
    ) by {
        let c = spec_classify(qname, recs, ra, nw);
        let p = bucket_pred(qname, b);
        let f = recs.filter(p);
        assert(bucket_seq_of(c, b) == f.map_values(rewrite_fn(ra, nw)));
        assert(bucket_seq_of(c, b)[i] == rewrite_fn(ra, nw)(f[i]));
        assert(f.contains(f[i]));
        Seq::lemma_filter_contains_rev(recs, p, f[i]);
        let j = choose|j: int| 0 <= j < recs.len() && recs[j] == f[i];
        assert(bucket_seq_of(c, b)[i] == spec_rewrite(recs[j], ra, nw));
    }
}

} // verus!
