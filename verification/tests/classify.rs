use dns_supercache::records::classify;
use dns_supercache::records::names_equal;
use dns_supercache::records::DnsRecord;
use dns_supercache::records::DnsRequest;
use dns_supercache::records::MessageType;
use dns_supercache::records::RCODE_NOERROR;
use dns_supercache::records::TYPE_NS;
use dns_supercache::records::TYPE_SOA;

fn record(name: &str, rtype: u16, ttl: u32, rdata: &[u8]) -> DnsRecord {
    DnsRecord {
        name: name.as_bytes().to_vec(),
        rtype,
        class: 1,
        ttl,
        rdata: rdata.to_vec(),
    }
}

fn query(name: &str) -> DnsRequest {
    DnsRequest {
        id: 4242,
        message_type: MessageType::Query,
        query_name: name.as_bytes().to_vec(),
        query_type: 1,
    }
}

#[test]
fn fresh_record_keeps_its_ttl() {
    let req = query("example.com.");
    let recs = vec![record("example.com.", 1, 300, &[1, 2, 3, 4])];
    let c = classify(&req, &recs, 100, 100);
    assert_eq!(c.answers.len(), 1);
    assert_eq!(c.answers[0].ttl, 300);
    assert_eq!(c.answers[0].rdata, vec![1, 2, 3, 4]);
}

#[test]
fn aged_record_ttl_counts_down() {
    let req = query("example.com.");
    let recs = vec![record("example.com.", 1, 300, &[1, 2, 3, 4])];
    let c = classify(&req, &recs, 100, 200);
    assert_eq!(c.answers.len(), 1);
    assert_eq!(c.answers[0].ttl, 200);
}

#[test]
fn expired_record_emerges_with_zero_ttl() {
    let req = query("example.com.");
    let recs = vec![record("example.com.", 1, 300, &[1, 2, 3, 4])];
    let c = classify(&req, &recs, 100, 5000);
    assert_eq!(c.answers.len(), 1);
    assert_eq!(c.answers[0].ttl, 0);
    assert_eq!(c.answers[0].rdata, vec![1, 2, 3, 4]);
}

#[test]
fn partition_into_four_buckets() {
    let req = query("example.com.");
    let recs = vec![
        record("example.com.", TYPE_SOA, 60, &[7]),
        record("example.com.", TYPE_NS, 60, &[8]),
        record("example.com.", 1, 60, &[9]),
        record("other.example.", 1, 60, &[10]),
    ];
    let c = classify(&req, &recs, 0, 0);
    assert_eq!(c.soa.len(), 1);
    assert_eq!(c.name_servers.len(), 1);
    assert_eq!(c.answers.len(), 1);
    assert_eq!(c.additionals.len(), 1);
    assert_eq!(c.soa[0].rdata, vec![7]);
    assert_eq!(c.name_servers[0].rdata, vec![8]);
    assert_eq!(c.answers[0].rdata, vec![9]);
    assert_eq!(c.additionals[0].rdata, vec![10]);
}

#[test]
fn soa_and_ns_take_priority_over_name_match() {
    let req = query("example.com.");
    let recs = vec![
        record("example.com.", TYPE_SOA, 60, &[1]),
        record("example.com.", TYPE_NS, 60, &[2]),
    ];
    let c = classify(&req, &recs, 0, 0);
    assert_eq!(c.answers.len(), 0);
    assert_eq!(c.soa.len(), 1);
    assert_eq!(c.name_servers.len(), 1);
}

#[test]
fn name_match_is_case_insensitive() {
    let req = query("EXAMPLE.com.");
    let recs = vec![record("example.COM.", 1, 60, &[1])];
    let c = classify(&req, &recs, 0, 0);
    assert_eq!(c.answers.len(), 1);
    assert_eq!(c.additionals.len(), 0);
}

#[test]
fn order_within_buckets_is_source_order() {
    let req = query("example.com.");
    let recs = vec![
        record("example.com.", 1, 60, &[1]),
        record("example.com.", 28, 60, &[2]),
        record("example.com.", 1, 60, &[3]),
    ];
    let c = classify(&req, &recs, 0, 0);
    assert_eq!(c.answers.len(), 3);
    assert_eq!(c.answers[0].rdata, vec![1]);
    assert_eq!(c.answers[1].rdata, vec![2]);
    assert_eq!(c.answers[2].rdata, vec![3]);
}

#[test]
fn make_response_copies_id_and_counts() {
    let req = query("example.com.");
    let recs = vec![
        record("example.com.", 1, 60, &[1]),
        record("example.com.", TYPE_NS, 60, &[2]),
        record("glue.example.", 1, 60, &[3]),
    ];
    let c = classify(&req, &recs, 0, 0);
    let resp = c.make_response(&req);
    assert_eq!(resp.id, 4242);
    assert_eq!(resp.message_type, MessageType::Response);
    assert_eq!(resp.response_code, RCODE_NOERROR);
    assert_eq!(resp.answer_count, 1);
    assert_eq!(resp.name_server_count, 1);
    assert_eq!(resp.additional_count, 1);
    assert_eq!(resp.answers.len(), 1);
    assert_eq!(resp.name_servers.len(), 1);
    assert_eq!(resp.soa.len(), 0);
    assert_eq!(resp.additionals.len(), 1);
}

#[test]
fn maximum_ttl_survives_rewrite() {
    let req = query("example.com.");
    let recs = vec![record("example.com.", 1, u32::MAX, &[1])];
    let c = classify(&req, &recs, 0, 0);
    assert_eq!(c.answers[0].ttl, u32::MAX);
}

#[test]
fn future_receive_instant_extends_ttl() {
    // A receive instant ahead of `now` (clock skew) adds the difference.
    let req = query("example.com.");
    let recs = vec![record("example.com.", 1, 300, &[1])];
    let c = classify(&req, &recs, 200, 100);
    assert_eq!(c.answers[0].ttl, 400);
}

#[test]
fn names_equal_ignores_ascii_case_only() {
    assert!(names_equal(&b"Example.COM.".to_vec(), &b"eXAMPLE.com.".to_vec()));
    assert!(!names_equal(&b"example.com.".to_vec(), &b"example.org.".to_vec()));
    assert!(!names_equal(&b"example.com.".to_vec(), &b"example.com".to_vec()));
    assert!(names_equal(&b"".to_vec(), &b"".to_vec()));
}
