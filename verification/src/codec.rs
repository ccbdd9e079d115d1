//! Binary codec for the cached record blobs.  A record batch is stored as
//! a two-byte big-endian count followed by the records, each a sequence of
//! length-prefixed fields.  Decoding inverts encoding exactly, so a blob
//! written on the success path reads back as the same record batch.

use vstd::prelude::*;

use crate::records::DnsRecord;
use crate::records::RecordModel;
use crate::records::models;
use crate::records::record_view;
use crate::records::wf_record;

verus! {

/// Big-endian two-byte encoding of a value below 2^16.
pub open spec fn be16(v: int) -> Seq<u8> {
    seq![((v / 256) % 256) as u8, (v % 256) as u8]
}

/// Big-endian four-byte encoding of a value below 2^32.
pub open spec fn be32(v: int) -> Seq<u8> {
    be16(v / 0x10000) + be16(v % 0x10000)
}

/// Value read back from two big-endian bytes.
pub open spec fn read16(b: Seq<u8>, at: int) -> int {
    b[at] * 256 + b[at + 1]
}

/// Value read back from four big-endian bytes.
pub open spec fn read32(b: Seq<u8>, at: int) -> int {
    read16(b, at) * 0x10000 + read16(b, at + 2)
}

pub proof fn lemma_read16_be16(v: int, b: Seq<u8>, at: int)
    requires
        0 <= v < 0x10000,
        0 <= at,
        at + 2 <= b.len(),
        b[at] == be16(v)[0],
        b[at + 1] == be16(v)[1],
    ensures
        read16(b, at) == v,
{
    assert(v / 256 < 256);
    assert((v / 256) % 256 == v / 256);
    assert(v / 256 * 256 + v % 256 == v);
}

pub proof fn lemma_read32_be32(v: int, b: Seq<u8>, at: int)
    requires
        0 <= v < 0x1_0000_0000,
        0 <= at,
        at + 4 <= b.len(),
        b[at] == be32(v)[0],
        b[at + 1] == be32(v)[1],
        b[at + 2] == be32(v)[2],
        b[at + 3] == be32(v)[3],
    ensures
        read32(b, at) == v,
{
    assert(v / 0x10000 < 0x10000);
    assert(be32(v)[0] == be16(v / 0x10000)[0]);
    assert(be32(v)[1] == be16(v / 0x10000)[1]);
    assert(be32(v)[2] == be16(v % 0x10000)[0]);
    assert(be32(v)[3] == be16(v % 0x10000)[1]);
    lemma_read16_be16(v / 0x10000, b, at);
    lemma_read16_be16(v % 0x10000, b, at + 2);
    assert(v / 0x10000 * 0x10000 + v % 0x10000 == v);
}

/// Encoding of one record: length-prefixed name, the fixed fields, and the
/// length-prefixed RDATA.
#[verifier::opaque]
pub open spec fn spec_encode_record(r: RecordModel) -> Seq<u8> {
    be16(r.name.len() as int) + r.name + be16(r.rtype as int) + be16(r.class as int) + be32(
        r.ttl as int,
    ) + be16(r.rdata.len() as int) + r.rdata
}

pub open spec fn spec_encode_list(rs: Seq<RecordModel>) -> Seq<u8>
    decreases rs.len(),
{
    if rs.len() == 0 {
        Seq::empty()
    } else {
        spec_encode_record(rs[0]) + spec_encode_list(rs.drop_first())
    }
}

/// Encoding of a batch: the record count, then the records in order.
pub open spec fn spec_encode(rs: Seq<RecordModel>) -> Seq<u8> {
    be16(rs.len() as int) + spec_encode_list(rs)
}

/// A batch the codec can hold: the count and every length fit the two-byte
/// prefixes.
pub open spec fn wf_batch(rs: Seq<RecordModel>) -> bool {
    rs.len() <= 0xFFFF && (forall|i: int| 0 <= i < rs.len() ==> wf_record(#[trigger] rs[i]))
}

/// Decoding of one record from the front of `b`: the record and the number
/// of bytes consumed, or nothing when `b` does not start with one.
pub open spec fn spec_decode_record(b: Seq<u8>) -> Option<(RecordModel, int)> {
    if b.len() < 2 {
        None
    } else {
        let nl = read16(b, 0);
        if b.len() < 12 + nl {
            None
        } else {
            let dl = read16(b, 10 + nl);
            if b.len() < 12 + nl + dl {
                None
            } else {
                Some(
                    (
                        RecordModel {
                            name: b.subrange(2, 2 + nl),
                            rtype: read16(b, 2 + nl) as u16,
                            class: read16(b, 4 + nl) as u16,
                            ttl: read32(b, 6 + nl) as u32,
                            rdata: b.subrange(12 + nl, 12 + nl + dl),
                        },
                        12 + nl + dl,
                    ),
                )
            }
        }
    }
}

pub open spec fn spec_decode_records(b: Seq<u8>, n: nat) -> Option<Seq<RecordModel>>
    decreases n,
{
    if n == 0 {
        if b.len() == 0 {
            Some(Seq::empty())
        } else {
            None
        }
    } else {
        match spec_decode_record(b) {
            None => None,
            Some((r, used)) => match spec_decode_records(b.skip(used), (n - 1) as nat) {
                None => None,
                Some(rest) => Some(seq![r] + rest),
            },
        }
    }
}

/// Decoding of a whole blob: the batch, or nothing when the blob is not an
/// encoding (wrong count, short fields, trailing bytes).
pub open spec fn spec_decode(b: Seq<u8>) -> Option<Seq<RecordModel>> {
    if b.len() < 2 {
        None
    } else {
        spec_decode_records(b.skip(2), read16(b, 0) as nat)
    }
}

pub proof fn lemma_decode_encode_record(r: RecordModel, tail: Seq<u8>)
    requires
        wf_record(r),
    ensures
        spec_decode_record(spec_encode_record(r) + tail) == Some(
            (r, spec_encode_record(r).len() as int),
        ),
{
    reveal(spec_encode_record);
    let e = spec_encode_record(r);
    let b = e + tail;
    let nl = r.name.len() as int;
    let dl = r.rdata.len() as int;
    assert(e.len() == 12 + nl + dl);
    assert forall|k: int| 0 <= k < e.len() implies b[k] == e[k] by {}
    lemma_read16_be16(nl, b, 0);
    assert(b.len() >= 12 + nl);
    lemma_read16_be16(r.rtype as int, b, 2 + nl);
    lemma_read16_be16(r.class as int, b, 4 + nl);
    lemma_read32_be32(r.ttl as int, b, 6 + nl);
    lemma_read16_be16(dl, b, 10 + nl);
    assert(b.subrange(2, 2 + nl) =~= r.name);
    assert(b.subrange(12 + nl, 12 + nl + dl) =~= r.rdata);
    let d = spec_decode_record(b);
    assert(d is Some);
    assert(d.unwrap().0 =~= r);
    assert(d.unwrap().1 == e.len() as int);
}

proof fn lemma_decode_records_step(b: Seq<u8>, r0: RecordModel, used: int, rest: Seq<RecordModel>, n: nat)
    requires
        n >= 1,
        spec_decode_record(b) == Some((r0, used)),
        spec_decode_records(b.skip(used), (n - 1) as nat) == Some(rest),
    ensures
        spec_decode_records(b, n) == Some(seq![r0] + rest),
{
}

#[verifier::rlimit(100)]
pub proof fn lemma_decode_encode_list(rs: Seq<RecordModel>)
    requires
        forall|i: int| 0 <= i < rs.len() ==> wf_record(#[trigger] rs[i]),
    ensures
        spec_decode_records(spec_encode_list(rs), rs.len()) == Some(rs),
    decreases rs.len(),
{
    if rs.len() == 0 {
        assert(spec_encode_list(rs).len() == 0);
        assert(Seq::<RecordModel>::empty() =~= rs);
    } else {
        let e0 = spec_encode_record(rs[0]);
        let etail = spec_encode_list(rs.drop_first());
        let b = e0 + etail;
        assert(spec_encode_list(rs) == b);
        lemma_decode_encode_record(rs[0], etail);
        assert(b.skip(e0.len() as int) =~= etail);
        assert(forall|i: int|
            0 <= i < rs.drop_first().len() ==> wf_record(#[trigger] rs.drop_first()[i]));
        lemma_decode_encode_list(rs.drop_first());
        assert(rs.drop_first().len() == (rs.len() - 1) as nat);
        lemma_decode_records_step(b, rs[0], e0.len() as int, rs.drop_first(), rs.len());
        assert(seq![rs[0]] + rs.drop_first() =~= rs);
    }
}

/// Round trip: decoding an encoded batch gives back exactly that batch.
pub proof fn lemma_encode_round_trip(rs: Seq<RecordModel>)
    requires
        wf_batch(rs),
    ensures
        spec_decode(spec_encode(rs)) == Some(rs),
{
    let b = spec_encode(rs);
    let e = spec_encode_list(rs);
    assert(b.len() >= 2);
    assert(b[0] == be16(rs.len() as int)[0]);
    assert(b[1] == be16(rs.len() as int)[1]);
    lemma_read16_be16(rs.len() as int, b, 0);
    assert(b.skip(2) =~= e);
    lemma_decode_encode_list(rs);
}

fn push_be16(out: &mut Vec<u8>, v: u16)
    ensures
        final(out)@ == old(out)@ + be16(v as int),
{
    out.push((v / 256) as u8);
    out.push((v % 256) as u8);
    proof {
        assert((v as int) / 256 < 256);
        assert(out@ =~= old(out)@ + be16(v as int));
    }
}

fn push_be32(out: &mut Vec<u8>, v: u32)
    ensures
        final(out)@ == old(out)@ + be32(v as int),
{
    let ghost before = out@;
    push_be16(out, (v / 0x10000) as u16);
    push_be16(out, (v % 0x10000) as u16);
    proof {
        assert((v as int) / 0x10000 < 0x10000);
        assert((v / 0x10000) as u16 as int == (v as int) / 0x10000);
        assert((v % 0x10000) as u16 as int == (v as int) % 0x10000);
        assert(out@ =~= before + be32(v as int));
    }
}

fn append_bytes(out: &mut Vec<u8>, src: &Vec<u8>)
    ensures
        final(out)@ == old(out)@ + src@,
{
    let mut i: usize = 0;
    while i < src.len()
        invariant
            0 <= i <= src@.len(),
            out@ =~= old(out)@ + src@.subrange(0, i as int),
        decreases src@.len() - i,
    {
        out.push(src[i]);
        proof {
            assert(out@ =~= old(out)@ + src@.subrange(0, i + 1));
        }
        i = i + 1;
    }
    proof {
        assert(out@ =~= old(out)@ + src@);
    }
}

proof fn lemma_encode_list_snoc(rs: Seq<RecordModel>, r: RecordModel)
    ensures
        spec_encode_list(rs.push(r)) == spec_encode_list(rs) + spec_encode_record(r),
    decreases rs.len(),
{
    if rs.len() == 0 {
        let p = rs.push(r);
        assert(p.len() == 1);
        assert(p[0] == r);
        assert(p.drop_first() =~= Seq::<RecordModel>::empty());
        assert(p.drop_first().len() == 0);
        assert(spec_encode_list(p.drop_first()).len() == 0);
        assert(spec_encode_list(p) == spec_encode_record(p[0]) + spec_encode_list(p.drop_first()));
        assert(spec_encode_list(p) =~= spec_encode_record(r));
        assert(spec_encode_list(rs).len() == 0);
        assert(spec_encode_list(rs) + spec_encode_record(r) =~= spec_encode_record(r));
    } else {
        assert(rs.push(r)[0] == rs[0]);
        assert(rs.push(r).drop_first() =~= rs.drop_first().push(r));
        lemma_encode_list_snoc(rs.drop_first(), r);
        assert(spec_encode_record(rs[0]) + (spec_encode_list(rs.drop_first())
            + spec_encode_record(r)) =~= (spec_encode_record(rs[0]) + spec_encode_list(
            rs.drop_first(),
        )) + spec_encode_record(r));
    }
}

/// Encodes a record batch into the cache blob form.
pub fn serialize_records(records: &Vec<DnsRecord>) -> (out: Vec<u8>)
    requires
        wf_batch(models(records@)),
    ensures
        out@ == spec_encode(models(records@)),
{
    let ghost ms = models(records@);
    proof {
        assert(ms.len() == records@.len());
    }
    let mut out: Vec<u8> = Vec::new();
    let ghost empty_out = out@;
    push_be16(&mut out, records.len() as u16);
    proof {
        assert(empty_out + be16(ms.len() as int) =~= be16(ms.len() as int));
        assert(ms.subrange(0, 0) =~= Seq::<RecordModel>::empty());
        assert(be16(ms.len() as int) + spec_encode_list(ms.subrange(0, 0)) =~= be16(
            ms.len() as int,
        ));
    }
    let mut i: usize = 0;
    while i < records.len()
        invariant
            0 <= i <= records@.len(),
            ms == models(records@),
            ms.len() == records@.len(),
            wf_batch(ms),
            out@ == be16(ms.len() as int) + spec_encode_list(ms.subrange(0, i as int)),
        decreases records@.len() - i,
    {
        let rec = &records[i];
        proof {
            assert(ms[i as int] == records@[i as int]@);
            assert(wf_record(ms[i as int]));
        }
        let ghost at_start = out@;
        push_be16(&mut out, rec.name.len() as u16);
        append_bytes(&mut out, &rec.name);
        push_be16(&mut out, rec.rtype);
        push_be16(&mut out, rec.class);
        push_be32(&mut out, rec.ttl);
        push_be16(&mut out, rec.rdata.len() as u16);
        append_bytes(&mut out, &rec.rdata);
        proof {
            reveal(spec_encode_record);
            let m = ms[i as int];
            assert(out@ =~= at_start + spec_encode_record(m));
            assert(ms.subrange(0, i + 1) =~= ms.subrange(0, i as int).push(m));
            lemma_encode_list_snoc(ms.subrange(0, i as int), m);
            assert(out@ =~= be16(ms.len() as int) + spec_encode_list(ms.subrange(0, i + 1)));
        }
        i = i + 1;
    }
    proof {
        assert(ms.subrange(0, ms.len() as int) =~= ms);
    }
    out
}

fn read_u16(b: &Vec<u8>, at: usize) -> (v: u16)
    requires
        at + 2 <= b@.len(),
    ensures
        v as int == read16(b@, at as int),
{
    let _n: usize = b.len();
    (b[at] as u16) * 256 + (b[at + 1] as u16)
}

fn read_u32(b: &Vec<u8>, at: usize) -> (v: u32)
    requires
        at + 4 <= b@.len(),
    ensures
        v as int == read32(b@, at as int),
{
    let _n: usize = b.len();
    let hi = read_u16(b, at);
    let lo = read_u16(b, at + 2);
    (hi as u32) * 0x10000 + (lo as u32)
}

fn copy_byte_range(b: &Vec<u8>, lo: usize, hi: usize) -> (out: Vec<u8>)
    requires
        lo <= hi <= b@.len(),
    ensures
        out@ == b@.subrange(lo as int, hi as int),
{
    let mut out: Vec<u8> = Vec::new();
    let mut j: usize = lo;
    while j < hi
        invariant
            lo <= j <= hi <= b@.len(),
            out@ =~= b@.subrange(lo as int, j as int),
        decreases hi - j,
    {
        out.push(b[j]);
        j = j + 1;
    }
    proof {
        assert(out@ =~= b@.subrange(lo as int, hi as int));
    }
    out
}

fn decode_record(b: &Vec<u8>, pos: usize) -> (r: Option<(DnsRecord, usize)>)
    requires
        pos <= b@.len(),
    ensures
        (match r {
            Some(p) => pos < p.1 <= b@.len() && spec_decode_record(b@.skip(pos as int)) == Some(
                (p.0@, p.1 - pos as int),
            ),
            None => spec_decode_record(b@.skip(pos as int)) is None,
        }),
{
    let ghost s = b@.skip(pos as int);
    proof {
        assert(s.len() == b@.len() - pos);
        assert(forall|k: int| 0 <= k < s.len() ==> s[k] == b@[pos + k]);
    }
    let rem = b.len() - pos;
    if rem < 2 {
        return None;
    }
    let nl = read_u16(b, pos) as usize;
    proof {
        assert(read16(s, 0) == read16(b@, pos as int));
    }
    if rem < 12 + nl {
        return None;
    }
    let name = copy_byte_range(b, pos + 2, pos + 2 + nl);
    let rtype = read_u16(b, pos + 2 + nl);
    let class = read_u16(b, pos + 4 + nl);
    let ttl = read_u32(b, pos + 6 + nl);
    let dl = read_u16(b, pos + 10 + nl) as usize;
    proof {
        assert(read16(s, 2 + nl) == read16(b@, pos + 2 + nl));
        assert(read16(s, 4 + nl) == read16(b@, pos + 4 + nl));
        assert(read32(s, 6 + nl) == read32(b@, pos + 6 + nl));
        assert(read16(s, 10 + nl) == read16(b@, pos + 10 + nl));
    }
    if rem - 12 - nl < dl {
        return None;
    }
    let rdata = copy_byte_range(b, pos + 12 + nl, pos + 12 + nl + dl);
    let rec = DnsRecord { name, rtype, class, ttl, rdata };
    proof {
        assert(s.subrange(2, 2 + nl) =~= b@.subrange(pos + 2, pos + 2 + nl));
        assert(s.subrange(12 + nl, 12 + nl + dl) =~= b@.subrange(
            pos + 12 + nl,
            pos + 12 + nl + dl,
        ));
        assert(spec_decode_record(s).unwrap().0 =~= rec@);
    }
    Some((rec, pos + 12 + nl + dl))
}

/// Decodes a cache blob back into a record batch, or nothing when the blob
/// is not a well-formed encoding.
pub fn deserialize_records(b: &Vec<u8>) -> (r: Option<Vec<DnsRecord>>)
    ensures
        (match r {
            Some(v) => spec_decode(b@) == Some(models(v@)),
            None => spec_decode(b@) is None,
        }),
{
    if b.len() < 2 {
        return None;
    }
    let n = read_u16(b, 0) as usize;
    let ghost total = n as nat;
    let mut acc: Vec<DnsRecord> = Vec::new();
    let mut pos: usize = 2;
    let mut i: usize = 0;
    proof {
        assert(models(acc@) =~= Seq::<RecordModel>::empty());
    }
    while i < n
        invariant
            0 <= i <= n,
            2 <= pos <= b@.len(),
            b@.len() >= 2,
            total == n as nat,
            n as int == read16(b@, 0),
            (spec_decode_records(b@.skip(2), total) == (match spec_decode_records(
                b@.skip(pos as int),
                (n - i) as nat,
            ) {
                None => None::<Seq<RecordModel>>,
                Some(rest) => Some(models(acc@) + rest),
            })),
        decreases n - i,
    {
        match decode_record(b, pos) {
            None => {
                proof {
                    assert(spec_decode_records(b@.skip(pos as int), (n - i) as nat) is None);
                    assert(spec_decode_records(b@.skip(2), total) is None);
                    assert(read16(b@, 0) == n as int);
                    assert(spec_decode(b@) == spec_decode_records(b@.skip(2), total));
                }
                return None;
            },
            Some((rec, np)) => {
                proof {
                    let used = np - pos as int;
                    assert(b@.skip(pos as int).skip(used) =~= b@.skip(np as int));
                    let inner = spec_decode_records(b@.skip(np as int), (n - i - 1) as nat);
                    assert(spec_decode_records(b@.skip(pos as int), (n - i) as nat) == (match inner {
                        None => None::<Seq<RecordModel>>,
                        Some(rest2) => Some(seq![rec@] + rest2),
                    }));
                    Seq::lemma_push_map_commute(acc@, record_view(), rec);
                    assert(models(acc@.push(rec)) == models(acc@).push(rec@));
                    if inner is Some {
                        assert(models(acc@) + (seq![rec@] + inner.unwrap()) =~= models(
                            acc@.push(rec),
                        ) + inner.unwrap());
                    }
                }
                acc.push(rec);
                pos = np;
            },
        }
        i = i + 1;
    }
    if pos == b.len() {
        proof {
            assert(b@.skip(pos as int).len() == 0);
            assert(spec_decode_records(b@.skip(pos as int), 0) == Some(Seq::<RecordModel>::empty()));
            assert(models(acc@) + Seq::<RecordModel>::empty() =~= models(acc@));
            assert(spec_decode_records(b@.skip(2), total) == Some(models(acc@)));
            assert(read16(b@, 0) == n as int);
            assert(spec_decode(b@) == spec_decode_records(b@.skip(2), total));
        }
        Some(acc)
    } else {
        proof {
            assert(b@.skip(pos as int).len() > 0);
            assert(spec_decode_records(b@.skip(pos as int), 0) is None);
            assert(spec_decode_records(b@.skip(2), total) is None);
            assert(read16(b@, 0) == n as int);
            assert(spec_decode(b@) == spec_decode_records(b@.skip(2), total));
        }
        None
    }
}

} // verus!
