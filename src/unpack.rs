//! Reading a pack back into its records, as the receiving side does.
use vstd::prelude::*;
use crate::bytes::{le_bytes, le_value, lemma_le_bytes_len, lemma_le_round_trip, lemma_pow256_values, read_le};
use crate::pack::{append_bytes, pack_bytes, record_bytes, record_fits, records_bytes, RecordModel};
use crate::packer::{concat_data, lemma_concat_data_append};

verus! {

/// Reads `n` records starting at offset `i`; they must end exactly at the end of `b`.
pub open spec fn parse_records(b: Seq<u8>, i: int, n: nat) -> Option<Seq<RecordModel>>
    decreases n,
{
    if n == 0 {
        if i == b.len() { Some(Seq::empty()) } else { None }
    } else if i < 0 || i + 2 > b.len() {
        None
    } else {
        let plen = le_value(b.subrange(i, i + 2));
        let pend = i + 2 + plen;
        if pend + 8 > b.len() {
            None
        } else {
            let dlen = le_value(b.subrange(pend, pend + 8));
            let dend = pend + 8 + dlen;
            if dend > b.len() {
                None
            } else {
                match parse_records(b, dend, (n - 1) as nat) {
                    Some(rest) => Some(seq![(b.subrange(i + 2, pend), b.subrange(pend + 8, dend))] + rest),
                    None => None,
                }
            }
        }
    }
}

/// The records of a pack, or `None` when it is not a well-formed pack.
pub open spec fn unpack_spec(b: Seq<u8>) -> Option<Seq<RecordModel>> {
    if b.len() < 4 { None } else { parse_records(b, 4, le_value(b.subrange(0, 4))) }
}

proof fn lemma_records_bytes_front(rs: Seq<RecordModel>)
    requires
        rs.len() > 0,
    ensures
        records_bytes(rs) == record_bytes(rs[0]) + records_bytes(rs.drop_first()),
    decreases rs.len(),
{
    if rs.len() == 1 {
        assert(rs.drop_last() =~= Seq::<RecordModel>::empty());
        assert(rs.drop_first() =~= Seq::<RecordModel>::empty());
        assert(records_bytes(Seq::<RecordModel>::empty()) =~= Seq::<u8>::empty());
        assert(records_bytes(rs) =~= record_bytes(rs[0]) + records_bytes(rs.drop_first()));
    } else {
        lemma_records_bytes_front(rs.drop_last());
        assert(rs.drop_last()[0] == rs[0]);
        assert(rs.drop_last().drop_first() =~= rs.drop_first().drop_last());
        assert(rs.drop_first().last() == rs.last());
        assert(records_bytes(rs) =~= record_bytes(rs[0]) + records_bytes(rs.drop_first()));
    }
}

proof fn lemma_parse_encoded(prefix: Seq<u8>, rs: Seq<RecordModel>)
    requires
        forall|k: int| 0 <= k < rs.len() ==> #[trigger] record_fits(rs[k]),
    ensures
        parse_records(prefix + records_bytes(rs), prefix.len() as int, rs.len()) == Some(rs),
    decreases rs.len(),
{
    let b = prefix + records_bytes(rs);
    if rs.len() == 0 {
        assert(records_bytes(rs) =~= Seq::<u8>::empty());
        assert(rs =~= Seq::<RecordModel>::empty());
    } else {
        lemma_records_bytes_front(rs);
        let r = rs[0];
        let rest = rs.drop_first();
        assert(record_fits(r));
        assert forall|k: int| 0 <= k < rest.len() implies #[trigger] record_fits(rest[k]) by {
            assert(rest[k] == rs[k + 1]);
        }
        let i = prefix.len() as int;
        lemma_le_bytes_len(r.0.len(), 2);
        lemma_le_bytes_len(r.1.len(), 8);
        lemma_pow256_values();
        let np = prefix + record_bytes(r);
        assert(b =~= np + records_bytes(rest));
        assert(b.subrange(i, i + 2) =~= le_bytes(r.0.len(), 2));
        lemma_le_round_trip(r.0.len(), 2);
        let pend = i + 2 + r.0.len();
        assert(b.subrange(pend, pend + 8) =~= le_bytes(r.1.len(), 8));
        lemma_le_round_trip(r.1.len(), 8);
        let dend = pend + 8 + r.1.len();
        assert(dend == np.len());
        assert(b.subrange(i + 2, pend) =~= r.0);
        assert(b.subrange(pend + 8, dend) =~= r.1);
        lemma_parse_encoded(np, rest);
        assert(seq![(r.0, r.1)] + rest =~= rs);
    }
}

/// Reading back an encoded pack gives exactly the records that went in.
pub proof fn lemma_unpack_round_trip(rs: Seq<RecordModel>)
    requires
        rs.len() < 4294967296,
        forall|k: int| 0 <= k < rs.len() ==> #[trigger] record_fits(rs[k]),
    ensures
        unpack_spec(pack_bytes(rs)) == Some(rs),
{
    lemma_le_bytes_len(rs.len(), 4);
    lemma_pow256_values();
    let b = pack_bytes(rs);
    assert(b.subrange(0, 4) =~= le_bytes(rs.len(), 4));
    lemma_le_round_trip(rs.len(), 4);
    lemma_parse_encoded(le_bytes(rs.len(), 4), rs);
}

/// Concatenating the data of consecutive records, within a pack and across packs,
/// gives the bytes that were fed in, in order: records `a` then records `b` carry
/// the data of `a` followed by the data of `b`.
pub proof fn lemma_round_trip_data(a: Seq<RecordModel>, b: Seq<RecordModel>)
    ensures
        concat_data(a + b) == concat_data(a) + concat_data(b),
{
    lemma_concat_data_append(a, b);
}

/// The models of decoded records.
pub open spec fn record_models(v: Seq<(Vec<u8>, Vec<u8>)>) -> Seq<RecordModel> {
    v.map_values(|r: (Vec<u8>, Vec<u8>)| (r.0@, r.1@))
}

fn copy_range(b: &[u8], i: usize, j: usize) -> (r: Vec<u8>)
    requires
        i <= j <= b@.len(),
    ensures
        r@ == b@.subrange(i as int, j as int),
{
    let mut out: Vec<u8> = Vec::new();
    append_bytes(&mut out, &b[i..j]);
    out
}

/// Splits a pack into its records: `(path bytes, data)` pairs in order, or
/// `None` when the bytes are not a well-formed pack.
pub fn unpack(b: &[u8]) -> (r: Option<Vec<(Vec<u8>, Vec<u8>)>>)
    ensures
        match r {
            Some(v) => unpack_spec(b@) == Some(record_models(v@)),
            None => unpack_spec(b@) is None,
        },
{
    let len = b.len();
    if len < 4 {
        return None;
    }
    let count = read_le(b, 0, 4);
    let mut out: Vec<(Vec<u8>, Vec<u8>)> = Vec::new();
    let mut off: usize = 4;
    let mut left: u64 = count;
    proof {
        assert(record_models(out@) =~= Seq::<RecordModel>::empty());
        assert forall|rest: Seq<RecordModel>| Seq::<RecordModel>::empty() + rest == rest by {
            assert(Seq::<RecordModel>::empty() + rest =~= rest);
        }
    }
    while left > 0
        invariant
            len == b@.len(),
            4 <= off <= len,
            left <= count,
            count as nat == le_value(b@.subrange(0, 4)),
            unpack_spec(b@) == match parse_records(b@, off as int, left as nat) {
                Some(rest) => Some(record_models(out@) + rest),
                None => None::<Seq<RecordModel>>,
            },
        decreases left,
    {
        proof {
            lemma_pow256_values();
            crate::pack::lemma_le_value_bound(b@.subrange(off as int, off + 2));
        }
        if len - off < 2 {
            return None;
        }
        let plen = read_le(b, off, 2) as usize;
        let pstart = off + 2;
        if len - pstart < plen || len - pstart - plen < 8 {
            return None;
        }
        let pend = pstart + plen;
        let dlen = read_le(b, pend, 8);
        let dstart = pend + 8;
        if ((len - dstart) as u64) < dlen {
            return None;
        }
        let dend = dstart + dlen as usize;
        let path = copy_range(b, pstart, pend);
        let data = copy_range(b, dstart, dend);
        let ghost before = record_models(out@);
        out.push((path, data));
        proof {
            assert(record_models(out@) =~= before.push((b@.subrange(pstart as int, pend as int), b@.subrange(dstart as int, dend as int))));
            assert forall|rest: Seq<RecordModel>| before + (seq![(b@.subrange(pstart as int, pend as int), b@.subrange(dstart as int, dend as int))] + rest)
                == record_models(out@) + rest by {
                assert(before + (seq![(b@.subrange(pstart as int, pend as int), b@.subrange(dstart as int, dend as int))] + rest)
                    =~= record_models(out@) + rest);
            }
        }
        off = dend;
        left = left - 1;
    }
    if off != len {
        return None;
    }
    proof {
        assert(record_models(out@) + Seq::<RecordModel>::empty() =~= record_models(out@));
    }
    Some(out)
}

} // verus!
