//! The pack buffer: a block of length-prefixed records behind a record count.
use vstd::prelude::*;
use vstd::string::StringSliceAdditionalSpecFns;
use crate::bytes::{le_bytes, le_value, lemma_le_bytes_len, lemma_le_round_trip, lemma_pow256_values, push_le, read_le};

verus! {

/// Largest size of a pack, count header included.
pub const PACK_BUFFER_SIZE: usize = 16777216;

/// Bytes that a record adds beside its path and its data: the two length fields.
pub const RECORD_OVERHEAD: usize = 10;

/// One record of a pack: the path bytes and the data bytes.
pub type RecordModel = (Seq<u8>, Seq<u8>);

/// `[u16 path_len][path][u64 data_len][data]`.
pub open spec fn record_bytes(r: RecordModel) -> Seq<u8> {
    le_bytes(r.0.len(), 2) + r.0 + le_bytes(r.1.len(), 8) + r.1
}

/// The records laid end to end.
pub open spec fn records_bytes(rs: Seq<RecordModel>) -> Seq<u8>
    decreases rs.len(),
{
    if rs.len() == 0 {
        Seq::empty()
    } else {
        records_bytes(rs.drop_last()) + record_bytes(rs.last())
    }
}

/// The whole pack: a 4-byte record count, then the records.
pub open spec fn pack_bytes(rs: Seq<RecordModel>) -> Seq<u8> {
    le_bytes(rs.len(), 4) + records_bytes(rs)
}

/// Sum of the data lengths of the records.
pub open spec fn data_total(rs: Seq<RecordModel>) -> nat
    decreases rs.len(),
{
    if rs.len() == 0 {
        0
    } else {
        data_total(rs.drop_last()) + rs.last().1.len()
    }
}

/// A record whose fields fit their length prefixes.
pub open spec fn record_fits(r: RecordModel) -> bool {
    r.0.len() < 65536 && r.1.len() < 18446744073709551616
}

pub proof fn lemma_record_bytes_len(r: RecordModel)
    ensures
        record_bytes(r).len() == 10 + r.0.len() + r.1.len(),
{
    lemma_le_bytes_len(r.0.len(), 2);
    lemma_le_bytes_len(r.1.len(), 8);
}

/// A pack closed and handed to the sender.
pub struct ReadyPack {
    pub buffer: Vec<u8>,
    pub bytes_in_pack: u64,
    pub files_in_pack: u32,
    /// The records that `buffer` encodes.
    pub records: Ghost<Seq<RecordModel>>,
}

impl ReadyPack {
    /// The buffer encodes its records, within the size limit, and the data count matches.
    pub open spec fn wf(&self) -> bool {
        &&& self.buffer@ == pack_bytes(self.records@)
        &&& self.buffer@.len() <= PACK_BUFFER_SIZE
        &&& self.bytes_in_pack as nat == data_total(self.records@)
    }
}

/// Accumulates records into one pack.
pub struct PackBuffer {
    buffer: Vec<u8>,
    bytes_added: u64,
    files_added: u32,
    records: Ghost<Seq<RecordModel>>,
}

impl PackBuffer {
    /// The records appended since the pack was last emptied.
    pub closed spec fn records(&self) -> Seq<RecordModel> {
        self.records@
    }

    pub closed spec fn bytes(&self) -> Seq<u8> {
        self.buffer@
    }

    pub closed spec fn spec_bytes_added(&self) -> nat {
        self.bytes_added as nat
    }

    pub closed spec fn spec_files_added(&self) -> nat {
        self.files_added as nat
    }

    /// The buffer holds exactly the encoding of the records, and the counters fit.
    pub closed spec fn wf(&self) -> bool {
        &&& self.buffer@ == pack_bytes(self.records@)
        &&& self.records@.len() < 4294967296
        &&& self.bytes_added as nat == data_total(self.records@)
        &&& self.files_added as nat <= self.records@.len()
        &&& forall|i: int| 0 <= i < self.records@.len() ==> #[trigger] record_fits(self.records@[i])
    }

    pub open spec fn spec_len(&self) -> nat {
        self.bytes().len()
    }

    pub open spec fn spec_can_fit(&self, path_len: nat, data_len: nat) -> bool {
        self.spec_len() + 2 + path_len + 8 + data_len <= PACK_BUFFER_SIZE
    }

    pub open spec fn is_empty_pack(&self) -> bool {
        &&& self.wf()
        &&& self.records().len() == 0
        &&& self.spec_bytes_added() == 0
        &&& self.spec_files_added() == 0
    }

    /// An empty pack: a zero count header and nothing else.
    pub fn new() -> (r: Self)
        ensures
            r.is_empty_pack(),
            r.bytes() == le_bytes(0, 4),
            r.spec_len() == 4,
    {
        let mut buffer: Vec<u8> = Vec::with_capacity(PACK_BUFFER_SIZE);
        push_le(&mut buffer, 0, 4);
        proof {
            lemma_le_bytes_len(0, 4);
            assert(records_bytes(Seq::<RecordModel>::empty()) =~= Seq::<u8>::empty());
            assert(buffer@ =~= pack_bytes(Seq::<RecordModel>::empty()));
        }
        PackBuffer { buffer, bytes_added: 0, files_added: 0, records: Ghost(Seq::empty()) }
    }

    /// Empties the pack, keeping a zero count header.
    pub fn reset(&mut self)
        ensures
            final(self).is_empty_pack(),
            final(self).spec_len() == 4,
    {
        self.buffer.clear();
        push_le(&mut self.buffer, 0, 4);
        self.bytes_added = 0;
        self.files_added = 0;
        self.records = Ghost(Seq::empty());
        proof {
            lemma_le_bytes_len(0, 4);
            assert(records_bytes(Seq::<RecordModel>::empty()) =~= Seq::<u8>::empty());
            assert(self.buffer@ =~= pack_bytes(Seq::<RecordModel>::empty()));
        }
    }

    /// Hands out the pack and its counters, leaving an empty pack behind.
    pub fn take_ready_pack(&mut self) -> (r: ReadyPack)
        ensures
            r.buffer@ == old(self).bytes(),
            r.bytes_in_pack as nat == old(self).spec_bytes_added(),
            r.files_in_pack as nat == old(self).spec_files_added(),
            r.records@ == old(self).records(),
            old(self).wf() && old(self).spec_len() <= PACK_BUFFER_SIZE ==> r.wf(),
            final(self).is_empty_pack(),
            final(self).spec_len() == 4,
    {
        let mut buffer: Vec<u8> = Vec::with_capacity(PACK_BUFFER_SIZE);
        push_le(&mut buffer, 0, 4);
        std::mem::swap(&mut self.buffer, &mut buffer);
        let ready = ReadyPack {
            buffer,
            bytes_in_pack: self.bytes_added,
            files_in_pack: self.files_added,
            records: Ghost(self.records@),
        };
        self.bytes_added = 0;
        self.files_added = 0;
        self.records = Ghost(Seq::empty());
        proof {
            lemma_le_bytes_len(0, 4);
            assert(records_bytes(Seq::<RecordModel>::empty()) =~= Seq::<u8>::empty());
            assert(self.buffer@ =~= pack_bytes(Seq::<RecordModel>::empty()));
        }
        ready
    }

    /// The count held in the 4-byte header.
    pub fn record_count(&self) -> (r: u32)
        requires
            self.spec_len() >= 4,
        ensures
            r as nat == le_value(self.bytes().subrange(0, 4)),
            self.wf() ==> r as nat == self.records().len(),
    {
        let v = read_le(self.buffer.as_slice(), 0, 4);
        proof {
            lemma_pow256_values();
            if self.wf() {
                lemma_le_bytes_len(self.records@.len(), 4);
                assert(self.buffer@.subrange(0, 4) =~= le_bytes(self.records@.len(), 4));
                lemma_le_round_trip(self.records@.len(), 4);
            }
            assert(v < 4294967296) by {
                lemma_le_value_bound(self.buffer@.subrange(0, 4));
            }
        }
        v as u32
    }

    /// Writes `count` into the 4-byte header, leaving the records as they are.
    fn set_record_count(&mut self, count: u32)
        requires
            old(self).buffer@.len() >= 4,
        ensures
            final(self).buffer@ == le_bytes(count as nat, 4) + old(self).buffer@.subrange(4, old(self).buffer@.len() as int),
            final(self).bytes_added == old(self).bytes_added,
            final(self).files_added == old(self).files_added,
            final(self).records == old(self).records,
    {
        let mut head: Vec<u8> = Vec::new();
        push_le(&mut head, count as u64, 4);
        proof { lemma_le_bytes_len(count as nat, 4); }
        let mut i: usize = 0;
        while i < 4
            invariant
                i <= 4,
                head@ == le_bytes(count as nat, 4),
                head@.len() == 4,
                old(self).buffer@.len() >= 4,
                self.buffer@.len() == old(self).buffer@.len(),
                forall|j: int| 0 <= j < i ==> self.buffer@[j] == head@[j],
                forall|j: int| 4 <= j < self.buffer@.len() ==> self.buffer@[j] == old(self).buffer@[j],
                self.bytes_added == old(self).bytes_added,
                self.files_added == old(self).files_added,
                self.records == old(self).records,
            decreases 4 - i,
        {
            self.buffer.set(i, head[i]);
            i = i + 1;
        }
        assert(self.buffer@ =~= le_bytes(count as nat, 4) + old(self).buffer@.subrange(4, old(self).buffer@.len() as int));
    }

    /// Whether a record with a path of `path_len` bytes and `data_len` data bytes
    /// keeps the pack within its size limit.
    pub fn can_fit(&self, path_len: usize, data_len: usize) -> (r: bool)
        ensures
            r == self.spec_can_fit(path_len as nat, data_len as nat),
    {
        let len = self.buffer.len();
        if len > PACK_BUFFER_SIZE || path_len > PACK_BUFFER_SIZE || data_len > PACK_BUFFER_SIZE {
            false
        } else {
            len + 2 + path_len + 8 + data_len <= PACK_BUFFER_SIZE
        }
    }

    /// Appends one record and counts it in the header.
    pub fn add_record(&mut self, rel_path: &str, data: &[u8])
        requires
            old(self).wf(),
            rel_path.spec_bytes().len() < 65536,
            old(self).records().len() + 1 < 4294967296,
            old(self).spec_bytes_added() + data@.len() < 18446744073709551616,
            old(self).spec_len() + 10 + rel_path.spec_bytes().len() + data@.len() <= usize::MAX,
        ensures
            final(self).wf(),
            final(self).records() == old(self).records().push((rel_path.spec_bytes(), data@)),
            final(self).spec_bytes_added() == old(self).spec_bytes_added() + data@.len(),
            final(self).spec_files_added() == old(self).spec_files_added(),
            final(self).spec_len() == old(self).spec_len() + 10 + rel_path.spec_bytes().len() + data@.len(),
            old(self).spec_can_fit(rel_path.spec_bytes().len(), data@.len()) ==> final(self).spec_len() <= PACK_BUFFER_SIZE,
    {
        let path_bytes = rel_path.as_bytes();
        let path_len = path_bytes.len();
        let data_len = data.len();
        let ghost rec: RecordModel = (path_bytes@, data@);
        let ghost old_rs = self.records@;
        let ghost old_buf = self.buffer@;
        proof {
            lemma_le_bytes_len(old_rs.len(), 4);
            lemma_pow256_values();
        }

        push_le(&mut self.buffer, path_len as u64, 2);
        append_bytes(&mut self.buffer, path_bytes);
        push_le(&mut self.buffer, data_len as u64, 8);
        append_bytes(&mut self.buffer, data);
        assert(self.buffer@ =~= old_buf + record_bytes(rec));

        let count = self.record_count();
        proof {
            lemma_le_bytes_len(old_rs.len(), 4);
            assert(self.buffer@.subrange(0, 4) =~= old_buf.subrange(0, 4));
            assert(old_buf.subrange(0, 4) =~= le_bytes(old_rs.len(), 4));
            lemma_le_round_trip(old_rs.len(), 4);
        }
        self.set_record_count(count + 1);
        self.bytes_added = self.bytes_added + data_len as u64;
        self.records = Ghost(old_rs.push(rec));
        proof {
            let new_rs = old_rs.push(rec);
            lemma_record_bytes_len(rec);
            lemma_le_bytes_len(new_rs.len(), 4);
            assert(new_rs.drop_last() =~= old_rs);
            assert(self.buffer@ =~= pack_bytes(new_rs));
            assert forall|i: int| 0 <= i < new_rs.len() implies #[trigger] record_fits(new_rs[i]) by {
                if i < old_rs.len() {
                    assert(new_rs[i] == old_rs[i]);
                }
            }
            lemma_record_bytes_len(rec);
        }
    }

    /// Facts that hold of every well-formed pack.
    pub proof fn lemma_wf_bytes(&self)
        requires
            self.wf(),
        ensures
            self.bytes() == pack_bytes(self.records()),
            self.spec_bytes_added() == data_total(self.records()),
            self.spec_files_added() <= self.records().len(),
            self.records().len() < 4294967296,
    {
    }

    /// Counts one more file as completely appended.
    pub fn count_file(&mut self)
        requires
            old(self).wf(),
            old(self).spec_files_added() < old(self).records().len(),
        ensures
            final(self).spec_files_added() == old(self).spec_files_added() + 1,
            final(self).records() == old(self).records(),
            final(self).bytes() == old(self).bytes(),
            final(self).spec_bytes_added() == old(self).spec_bytes_added(),
            final(self).wf(),
    {
        self.files_added = self.files_added + 1;
    }

    /// Current size of the pack in bytes, header included.
    pub fn len(&self) -> (r: usize)
        ensures
            r == self.spec_len(),
    {
        self.buffer.len()
    }

    pub fn bytes_added(&self) -> (r: u64)
        ensures
            r as nat == self.spec_bytes_added(),
    {
        self.bytes_added
    }

    pub fn files_added(&self) -> (r: u32)
        ensures
            r as nat == self.spec_files_added(),
    {
        self.files_added
    }

    /// The encoded pack.
    pub fn as_bytes(&self) -> (r: &[u8])
        ensures
            r@ == self.bytes(),
    {
        self.buffer.as_slice()
    }
}

/// Whatever was done to a pack, its first four bytes are the little-endian count
/// of the records appended since it was last emptied.
pub proof fn lemma_count_header(pack: &PackBuffer)
    requires
        pack.wf(),
    ensures
        pack.bytes().len() >= 4,
        pack.bytes().subrange(0, 4) == le_bytes(pack.records().len(), 4),
        le_value(pack.bytes().subrange(0, 4)) == pack.records().len(),
{
    pack.lemma_wf_bytes();
    lemma_le_bytes_len(pack.records().len(), 4);
    lemma_pow256_values();
    assert(pack.bytes().subrange(0, 4) =~= le_bytes(pack.records().len(), 4));
    lemma_le_round_trip(pack.records().len(), 4);
}

pub proof fn lemma_le_value_bound(s: Seq<u8>)
    ensures
        le_value(s) < crate::bytes::pow256(s.len()),
    decreases s.len(),
{
    if s.len() > 0 {
        lemma_le_value_bound(s.drop_first());
        let t = s.drop_first();
        assert(le_value(s) == s[0] as nat + 256 * le_value(t));
        assert(s[0] as nat + 256 * le_value(t) < 256 * crate::bytes::pow256(t.len())) by (nonlinear_arith)
            requires
                le_value(t) < crate::bytes::pow256(t.len()),
                s[0] < 256,
        ;
    }
}

/// Appends `data` to `out`.
pub fn append_bytes(out: &mut Vec<u8>, data: &[u8])
    ensures
        final(out)@ == old(out)@ + data@,
{
    let n = data.len();
    let mut i: usize = 0;
    while i < n
        invariant
            i <= n,
            n == data@.len(),
            out@ == old(out)@ + data@.subrange(0, i as int),
        decreases n - i,
    {
        out.push(data[i]);
        assert(data@.subrange(0, i + 1) =~= data@.subrange(0, i as int).push(data@[i as int]));
        i = i + 1;
    }
    assert(data@.subrange(0, n as int) =~= data@);
}

} // verus!
