use dns_supercache::codec::deserialize_records;
use dns_supercache::handler::dispatch;
use dns_supercache::handler::on_cache_result;
use dns_supercache::handler::on_upstream_outcome;
use dns_supercache::handler::UpstreamDecision;
use dns_supercache::handler::UpstreamOutcome;
use dns_supercache::records::DnsRecord;
use dns_supercache::records::DnsRequest;
use dns_supercache::records::MessageType;
use dns_supercache::records::RCODE_NOERROR;
use dns_supercache::records::RCODE_NXDOMAIN;
use dns_supercache::records::RCODE_REFUSED;
use dns_supercache::records::RCODE_SERVFAIL;
use dns_supercache::records::TYPE_SOA;

fn record(name: &str, rtype: u16, ttl: u32, rdata: &[u8]) -> DnsRecord {
    DnsRecord {
        name: name.as_bytes().to_vec(),
        rtype,
        class: 1,
        ttl,
        rdata: rdata.to_vec(),
    }
}

fn query(name: &str) -> DnsRequest {
    DnsRequest {
        id: 7777,
        message_type: MessageType::Query,
        query_name: name.as_bytes().to_vec(),
        query_type: 1,
    }
}

#[test]
fn inbound_response_is_refused() {
    let req = DnsRequest {
        id: 31337,
        message_type: MessageType::Response,
        query_name: b"example.com.".to_vec(),
        query_type: 1,
    };
    let resp = dispatch(&req).unwrap();
    assert_eq!(resp.id, 31337);
    assert_eq!(resp.response_code, RCODE_REFUSED);
    assert_eq!(resp.answers.len(), 0);
    assert_eq!(resp.name_servers.len(), 0);
    assert_eq!(resp.soa.len(), 0);
    assert_eq!(resp.additionals.len(), 0);
}

#[test]
fn query_proceeds_to_upstream() {
    let req = query("example.com.");
    assert!(dispatch(&req).is_none());
}

#[test]
fn success_replies_fresh_and_writes_through() {
    let req = query("example.com.");
    let recs = vec![record("example.com.", 1, 300, &[1, 2, 3, 4])];
    match on_upstream_outcome(&req, UpstreamOutcome::Success(recs), 100) {
        UpstreamDecision::Reply(resp, Some(w)) => {
            assert_eq!(resp.id, 7777);
            assert_eq!(resp.response_code, RCODE_NOERROR);
            assert_eq!(resp.answer_count, 1);
            assert_eq!(resp.answers.len(), 1);
            assert_eq!(resp.answers[0].ttl, 300);
            // The detached write carries the query key and one instant as
            // both timestamps.
            assert_eq!(w.record_name, b"example.com.".to_vec());
            assert_eq!(w.record_type, 1);
            assert_eq!(w.data_received_at_unix, 100);
            assert_eq!(w.last_query_at_unix, 100);
            // The blob reads back as the batch that was answered.
            let back = deserialize_records(&w.content).unwrap();
            assert_eq!(back.len(), 1);
            assert_eq!(back[0], record("example.com.", 1, 300, &[1, 2, 3, 4]));
        },
        _ => panic!("expected a fresh reply with a cache write"),
    }
}

#[test]
fn no_connections_is_servfail_without_cache_read() {
    let req = query("example.com.");
    match on_upstream_outcome(&req, UpstreamOutcome::NoConnections, 100) {
        UpstreamDecision::Reply(resp, w) => {
            assert_eq!(resp.id, 7777);
            assert_eq!(resp.response_code, RCODE_SERVFAIL);
            assert_eq!(resp.answers.len(), 0);
            assert!(w.is_none());
        },
        UpstreamDecision::ConsultCache => panic!("a configuration error must not reach the cache"),
    }
}

#[test]
fn nxdomain_is_forwarded_with_soa_and_no_cache() {
    let req = query("nope.example.");
    let soa = record("example.", TYPE_SOA, 900, b"soa-rdata");
    let outcome = UpstreamOutcome::NoRecordsFound {
        response_code: RCODE_NXDOMAIN,
        soa: Some(soa),
    };
    match on_upstream_outcome(&req, outcome, 100) {
        UpstreamDecision::Reply(resp, w) => {
            assert_eq!(resp.id, 7777);
            assert_eq!(resp.response_code, RCODE_NXDOMAIN);
            assert_eq!(resp.answers.len(), 0);
            assert_eq!(resp.name_servers.len(), 0);
            assert_eq!(resp.additionals.len(), 0);
            assert_eq!(resp.soa.len(), 1);
            assert_eq!(resp.soa[0], record("example.", TYPE_SOA, 900, b"soa-rdata"));
            assert!(w.is_none());
        },
        UpstreamDecision::ConsultCache => panic!("an authoritative negative must not reach the cache"),
    }
}

#[test]
fn nxdomain_without_soa_has_empty_authority() {
    let req = query("nope.example.");
    let outcome = UpstreamOutcome::NoRecordsFound { response_code: RCODE_NXDOMAIN, soa: None };
    match on_upstream_outcome(&req, outcome, 100) {
        UpstreamDecision::Reply(resp, w) => {
            assert_eq!(resp.response_code, RCODE_NXDOMAIN);
            assert_eq!(resp.soa.len(), 0);
            assert!(w.is_none());
        },
        UpstreamDecision::ConsultCache => panic!("an authoritative negative must not reach the cache"),
    }
}

#[test]
fn other_failures_consult_the_cache() {
    let req = query("example.com.");
    match on_upstream_outcome(&req, UpstreamOutcome::OtherFailure, 200) {
        UpstreamDecision::ConsultCache => {},
        UpstreamDecision::Reply(_, _) => panic!("a transient failure must fall back to the cache"),
    }
}

#[test]
fn cache_hit_is_served_with_aged_ttl() {
    let req = query("example.com.");
    let cached = vec![record("example.com.", 1, 300, &[1, 2, 3, 4])];
    let resp = on_cache_result(&req, Some((cached, 100)), 200);
    assert_eq!(resp.id, 7777);
    assert_eq!(resp.response_code, RCODE_NOERROR);
    assert_eq!(resp.answers.len(), 1);
    assert_eq!(resp.answers[0].ttl, 200);
    assert_eq!(resp.answers[0].rdata, vec![1, 2, 3, 4]);
}

#[test]
fn stale_cache_hit_is_served_with_zero_ttl() {
    let req = query("example.com.");
    let cached = vec![record("example.com.", 1, 300, &[1, 2, 3, 4])];
    let resp = on_cache_result(&req, Some((cached, 100)), 5000);
    assert_eq!(resp.response_code, RCODE_NOERROR);
    assert_eq!(resp.answers.len(), 1);
    assert_eq!(resp.answers[0].ttl, 0);
}

#[test]
fn cache_miss_is_servfail() {
    let req = query("example.com.");
    let resp = on_cache_result(&req, None, 200);
    assert_eq!(resp.id, 7777);
    assert_eq!(resp.response_code, RCODE_SERVFAIL);
    assert_eq!(resp.answers.len(), 0);
}
