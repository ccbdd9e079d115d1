//! The per-request decision machine.  A request is first dispatched: an
//! inbound response message is refused outright.  A query goes to the
//! upstream resolver; its outcome decides between a fresh reply with a
//! detached cache write, a negative reply forwarding the upstream's code
//! and SOA, a server-failure reply, and a cache fallback.  The caller
//! performs the lookup, the cache read and the send, and hands the results
//! back as plain values; every decision here is a pure function of them.

use vstd::prelude::*;

use crate::codec::serialize_records;
use crate::codec::spec_decode;
use crate::codec::spec_encode;
use crate::codec::wf_batch;
use crate::codec::lemma_encode_round_trip;
use crate::records::classify;
use crate::records::copy_bytes;
use crate::records::models;
use crate::records::spec_classify;
use crate::records::spec_empty_reply;
use crate::records::spec_make_response;
use crate::records::DnsRecord;
use crate::records::DnsRequest;
use crate::records::DnsResponse;
use crate::records::MessageType;
use crate::records::RecordModel;
use crate::records::RequestModel;
use crate::records::ResponseModel;
use crate::records::RCODE_NOERROR;
use crate::records::RCODE_REFUSED;
use crate::records::RCODE_SERVFAIL;
use crate::records::empty_reply;

verus! {

/// A detached cache write: the row the caller should upsert, keyed by the
/// query name and type, carrying the encoded record batch and the two
/// timestamps.
#[derive(Debug)]
pub struct CacheWrite {
    pub record_name: Vec<u8>,
    pub record_type: u16,
    pub content: Vec<u8>,
    pub data_received_at_unix: i64,
    pub last_query_at_unix: i64,
}

#[verifier::ext_equal]
pub ghost struct CacheWriteModel {
    pub record_name: Seq<u8>,
    pub record_type: u16,
    pub content: Seq<u8>,
    pub data_received_at_unix: i64,
    pub last_query_at_unix: i64,
}

impl View for CacheWrite {
    type V = CacheWriteModel;

    open spec fn view(&self) -> CacheWriteModel {
        CacheWriteModel {
            record_name: self.record_name@,
            record_type: self.record_type,
            content: self.content@,
            data_received_at_unix: self.data_received_at_unix,
            last_query_at_unix: self.last_query_at_unix,
        }
    }
}

/// What the upstream resolver came back with.
#[derive(Debug)]
pub enum UpstreamOutcome {
    /// A batch of records.
    Success(Vec<DnsRecord>),
    /// No upstream servers are configured or reachable at the library
    /// level: a configuration error.
    NoConnections,
    /// An authoritative negative answer, with the upstream's response code
    /// and its SOA record when it sent one.
    NoRecordsFound { response_code: u16, soa: Option<DnsRecord> },
    /// Any other failure: a timeout, a protocol error, a network error.
    OtherFailure,
}

#[verifier::ext_equal]
pub ghost enum OutcomeModel {
    Success(Seq<RecordModel>),
    NoConnections,
    NoRecordsFound { response_code: u16, soa: Option<RecordModel> },
    OtherFailure,
}

impl View for UpstreamOutcome {
    type V = OutcomeModel;

    open spec fn view(&self) -> OutcomeModel {
        match self {
            UpstreamOutcome::Success(recs) => OutcomeModel::Success(models(recs@)),
            UpstreamOutcome::NoConnections => OutcomeModel::NoConnections,
            UpstreamOutcome::NoRecordsFound { response_code, soa } => OutcomeModel::NoRecordsFound {
                response_code: *response_code,
                soa: match soa {
                    Some(r) => Some(r@),
                    None => None,
                },
            },
            UpstreamOutcome::OtherFailure => OutcomeModel::OtherFailure,
        }
    }
}

/// What to do after the upstream outcome: send a reply (with a detached
/// cache write on the success path), or consult the cache first.
#[derive(Debug)]
pub enum UpstreamDecision {
    Reply(DnsResponse, Option<CacheWrite>),
    ConsultCache,
}

#[verifier::ext_equal]
pub ghost enum DecisionModel {
    Reply(ResponseModel, Option<CacheWriteModel>),
    ConsultCache,
}

impl View for UpstreamDecision {
    type V = DecisionModel;

    open spec fn view(&self) -> DecisionModel {
        match self {
            UpstreamDecision::Reply(resp, w) => DecisionModel::Reply(
                resp@,
                match w {
                    Some(cw) => Some(cw@),
                    None => None,
                },
            ),
            UpstreamDecision::ConsultCache => DecisionModel::ConsultCache,
        }
    }
}

/// Dispatch: an inbound response message is answered with a refused reply
/// carrying the request's id; a query proceeds to the upstream lookup.
pub open spec fn spec_dispatch(req: RequestModel) -> Option<ResponseModel> {
    match req.message_type {
        MessageType::Response => Some(spec_empty_reply(req.id, RCODE_REFUSED)),
        MessageType::Query => None,
    }
}

pub fn dispatch(req: &DnsRequest) -> (r: Option<DnsResponse>)
    ensures
        r is Some <==> spec_dispatch(req@) is Some,
        (r matches Some(resp) ==> spec_dispatch(req@) == Some(resp@)),
{
    match req.message_type {
        MessageType::Response => Some(empty_reply(req.id, RCODE_REFUSED)),
        MessageType::Query => None,
    }
}

/// The negative reply: the request's id, the upstream's response code, the
/// upstream's SOA record verbatim as the sole authority entry, and nothing
/// else.
pub open spec fn spec_negative_reply(id: u16, rcode: u16, soa: Option<RecordModel>) -> ResponseModel {
    ResponseModel {
        soa: match soa {
            Some(r) => seq![r],
            None => Seq::empty(),
        },
        ..spec_empty_reply(id, rcode)
    }
}

/// The row the success path writes through to the cache: keyed by the
/// query, holding the encoded batch, both timestamps the same instant.
pub open spec fn spec_success_write(req: RequestModel, recs: Seq<RecordModel>, now: i64) -> CacheWriteModel {
    CacheWriteModel {
        record_name: req.query_name,
        record_type: req.query_type,
        content: spec_encode(recs),
        data_received_at_unix: now,
        last_query_at_unix: now,
    }
}

/// The decision after the upstream outcome, per the failure taxonomy:
/// success replies fresh and writes through; `NoConnections` and an
/// authoritative negative reply at once, never touching the cache; any
/// other failure falls back to the cache.
pub open spec fn spec_on_upstream(req: RequestModel, o: OutcomeModel, now: i64) -> DecisionModel {
    match o {
        OutcomeModel::Success(recs) => DecisionModel::Reply(
            spec_make_response(spec_classify(req.query_name, recs, now as int, now as int), req),
            Some(spec_success_write(req, recs, now)),
        ),
        OutcomeModel::NoConnections => DecisionModel::Reply(
            spec_empty_reply(req.id, RCODE_SERVFAIL),
            None,
        ),
        OutcomeModel::NoRecordsFound { response_code, soa } => DecisionModel::Reply(
            spec_negative_reply(req.id, response_code, soa),
            None,
        ),
        OutcomeModel::OtherFailure => DecisionModel::ConsultCache,
    }
}

/// Acts on the upstream outcome for a query.
pub fn on_upstream_outcome(req: &DnsRequest, outcome: UpstreamOutcome, now_unix: i64) -> (d:
    UpstreamDecision)
    requires
        0 <= now_unix,
        now_unix + 0xFFFF_FFFF <= i64::MAX,
        (outcome matches UpstreamOutcome::Success(recs) ==> wf_batch(models(recs@))),
    ensures
        d@ == spec_on_upstream(req@, outcome@, now_unix),
{
    match outcome {
        UpstreamOutcome::Success(recs) => {
            let classified = classify(req, &recs, now_unix, now_unix);
            let response = classified.make_response(req);
            let content = serialize_records(&recs);
            let w = CacheWrite {
                record_name: copy_bytes(&req.query_name),
                record_type: req.query_type,
                content,
                data_received_at_unix: now_unix,
                last_query_at_unix: now_unix,
            };
            proof {
                assert(w@ =~~= spec_success_write(req@, models(recs@), now_unix));
            }
            UpstreamDecision::Reply(response, Some(w))
        },
        UpstreamOutcome::NoConnections => UpstreamDecision::Reply(
            empty_reply(req.id, RCODE_SERVFAIL),
            None,
        ),
        UpstreamOutcome::NoRecordsFound { response_code, soa } => {
            let mut soa_vec: Vec<DnsRecord> = Vec::new();
            let ghost soa_model = (match &soa {
                Some(r) => Some(r@),
                None => None::<RecordModel>,
            });
            match soa {
                Some(r) => {
                    soa_vec.push(r);
                },
                None => {},
            }
            let resp = DnsResponse {
                id: req.id,
                message_type: MessageType::Response,
                response_code,
                answer_count: 0,
                name_server_count: 0,
                additional_count: 0,
                answers: Vec::new(),
                name_servers: Vec::new(),
                soa: soa_vec,
                additionals: Vec::new(),
            };
            proof {
                assert(models(Seq::<DnsRecord>::empty()) =~= Seq::<RecordModel>::empty());
                match soa_model {
                    Some(m) => {
                        assert(models(resp.soa@) =~= seq![m]);
                    },
                    None => {
                        assert(models(resp.soa@) =~= Seq::<RecordModel>::empty());
                    },
                }
                assert(resp@ =~~= spec_negative_reply(req@.id, response_code, soa_model));
            }
            UpstreamDecision::Reply(resp, None)
        },
        UpstreamOutcome::OtherFailure => UpstreamDecision::ConsultCache,
    }
}

/// The model of what a cache read handed back: the decoded batch and the
/// instant it was originally received, or nothing.
pub open spec fn cache_hit_model(hit: Option<(Vec<DnsRecord>, i64)>) -> Option<
    (Seq<RecordModel>, i64),
> {
    match hit {
        Some(h) => Some((models(h.0@), h.1)),
        None => None,
    }
}

/// The reply after a cache read: a hit is classified against the stored
/// receive instant, so its TTLs reflect true age; a miss is a server
/// failure.
pub open spec fn spec_on_cache(
    req: RequestModel,
    hit: Option<(Seq<RecordModel>, i64)>,
    now: i64,
) -> ResponseModel {
    match hit {
        Some(h) => spec_make_response(
            spec_classify(req.query_name, h.0, h.1 as int, now as int),
            req,
        ),
        None => spec_empty_reply(req.id, RCODE_SERVFAIL),
    }
}

/// Acts on the result of the cache fallback read.
pub fn on_cache_result(req: &DnsRequest, hit: Option<(Vec<DnsRecord>, i64)>, now_unix: i64) -> (r:
    DnsResponse)
    requires
        0 <= now_unix,
        (hit matches Some(h) ==> 0 <= h.1 && h.1 + 0xFFFF_FFFF <= i64::MAX),
    ensures
        r@ == spec_on_cache(req@, cache_hit_model(hit), now_unix),
{
    match hit {
        Some((recs, received_at)) => {
            let classified = classify(req, &recs, received_at, now_unix);
            classified.make_response(req)
        },
        None => empty_reply(req.id, RCODE_SERVFAIL),
    }
}

/// The whole handling of one request, as a function of the request, the
/// upstream outcome and the cache read result the caller observed.
pub open spec fn spec_handle(
    req: RequestModel,
    o: OutcomeModel,
    hit: Option<(Seq<RecordModel>, i64)>,
    now: i64,
) -> ResponseModel {
    match spec_dispatch(req) {
        Some(r) => r,
        None => match spec_on_upstream(req, o, now) {
            DecisionModel::Reply(resp, w) => resp,
            DecisionModel::ConsultCache => spec_on_cache(req, hit, now),
        },
    }
}

/// Every request is answered by exactly one response — `spec_handle` is a
/// total function of the request and the observed outcomes — and that
/// response carries the request's id.
pub proof fn lemma_one_response_with_request_id(
    req: RequestModel,
    o: OutcomeModel,
    hit: Option<(Seq<RecordModel>, i64)>,
    now: i64,
)
    ensures
        spec_handle(req, o, hit, now).id == req.id,
{
}

/// A configuration failure is answered with a server-failure reply at
/// once: the decision is a reply, not a cache consultation, so no cache
/// read happens, and nothing is written.
pub proof fn lemma_no_connections_skips_cache(req: RequestModel, now: i64)
    ensures
        spec_on_upstream(req, OutcomeModel::NoConnections, now) == DecisionModel::Reply(
            spec_empty_reply(req.id, RCODE_SERVFAIL),
            None::<CacheWriteModel>,
        ),
{
}

/// An authoritative negative answer is forwarded with the upstream's
/// response code and its SOA record verbatim, with empty answer, name
/// server and additional sections; the decision is a reply with no cache
/// write, so the cache is neither read nor written.
pub proof fn lemma_negative_forwarded(
    req: RequestModel,
    rcode: u16,
    soa: Option<RecordModel>,
    now: i64,
)
    ensures
        spec_on_upstream(
            req,
            OutcomeModel::NoRecordsFound { response_code: rcode, soa },
            now,
        ) == DecisionModel::Reply(spec_negative_reply(req.id, rcode, soa), None::<CacheWriteModel>),
        spec_negative_reply(req.id, rcode, soa).response_code == rcode,
        spec_negative_reply(req.id, rcode, soa).answers.len() == 0,
        spec_negative_reply(req.id, rcode, soa).name_servers.len() == 0,
        spec_negative_reply(req.id, rcode, soa).additionals.len() == 0,
        spec_negative_reply(req.id, rcode, soa).soa == (match soa {
            Some(r) => seq![r],
            None => Seq::<RecordModel>::empty(),
        }),
{
}

/// Any upstream failure other than `NoConnections` and an authoritative
/// negative falls back to the cache, and a hit is answered from the cached
/// batch — classified with TTLs rewritten against the stored receive
/// instant — with a success code, never with a server failure.
pub proof fn lemma_fallback_uses_cache(
    req: RequestModel,
    recs: Seq<RecordModel>,
    received_at: i64,
    now: i64,
)
    ensures
        spec_on_upstream(req, OutcomeModel::OtherFailure, now) == DecisionModel::ConsultCache,
        spec_on_cache(req, Some((recs, received_at)), now) == spec_make_response(
            spec_classify(req.query_name, recs, received_at as int, now as int),
            req,
        ),
        spec_on_cache(req, Some((recs, received_at)), now).response_code == RCODE_NOERROR,
{
}

/// The success path's detached write carries the query's key, one instant
/// as both timestamps, and a blob that decodes back to exactly the record
/// batch that was answered.
pub proof fn lemma_success_write_round_trips(req: RequestModel, recs: Seq<RecordModel>, now: i64)
    requires
        wf_batch(recs),
    ensures
        spec_on_upstream(req, OutcomeModel::Success(recs), now) == DecisionModel::Reply(
            spec_make_response(spec_classify(req.query_name, recs, now as int, now as int), req),
            Some(spec_success_write(req, recs, now)),
        ),
        spec_success_write(req, recs, now).data_received_at_unix == spec_success_write(
            req,
            recs,
            now,
        ).last_query_at_unix,
        spec_success_write(req, recs, now).record_name == req.query_name,
        spec_success_write(req, recs, now).record_type == req.query_type,
        spec_decode(spec_success_write(req, recs, now).content) == Some(recs),
{
    lemma_encode_round_trip(recs);
}

} // verus!
