use dns_supercache::codec::deserialize_records;
use dns_supercache::codec::serialize_records;
use dns_supercache::records::DnsRecord;

fn record(name: &str, rtype: u16, ttl: u32, rdata: &[u8]) -> DnsRecord {
    DnsRecord {
        name: name.as_bytes().to_vec(),
        rtype,
        class: 1,
        ttl,
        rdata: rdata.to_vec(),
    }
}

#[test]
fn round_trip_preserves_records() {
    let recs = vec![
        record("example.com.", 1, 300, &[1, 2, 3, 4]),
        record("example.com.", 28, 60, &[0; 16]),
        record("ns1.example.com.", 2, 86400, b"ns1"),
    ];
    let blob = serialize_records(&recs);
    let back = deserialize_records(&blob).unwrap();
    assert_eq!(back, recs);
}

#[test]
fn round_trip_empty_batch() {
    let recs: Vec<DnsRecord> = vec![];
    let blob = serialize_records(&recs);
    let back = deserialize_records(&blob).unwrap();
    assert_eq!(back.len(), 0);
}

#[test]
fn round_trip_empty_fields() {
    let recs = vec![record("", 16, 0, &[])];
    let blob = serialize_records(&recs);
    let back = deserialize_records(&blob).unwrap();
    assert_eq!(back, recs);
}

#[test]
fn garbage_is_rejected() {
    assert!(deserialize_records(&vec![]).is_none());
    assert!(deserialize_records(&vec![7]).is_none());
    // Count says one record, but no record follows.
    assert!(deserialize_records(&vec![0, 1]).is_none());
    // A valid blob with trailing bytes is rejected.
    let recs = vec![record("a", 1, 1, &[1])];
    let mut blob = serialize_records(&recs);
    blob.push(0);
    assert!(deserialize_records(&blob).is_none());
    // A valid blob with a byte missing is rejected.
    let mut blob = serialize_records(&recs);
    blob.pop();
    assert!(deserialize_records(&blob).is_none());
}

#[test]
fn encoding_starts_with_count() {
    let recs = vec![record("a", 1, 1, &[1]), record("b", 1, 1, &[2])];
    let blob = serialize_records(&recs);
    assert_eq!(blob[0], 0);
    assert_eq!(blob[1], 2);
}
