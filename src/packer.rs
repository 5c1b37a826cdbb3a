//! Feeding file data into packs: splitting a file across packs when it does not fit.
use vstd::prelude::*;
use vstd::string::StringSliceAdditionalSpecFns;
use crate::bytes::lemma_le_bytes_len;
use crate::pack::{
    data_total, lemma_record_bytes_len, records_bytes, PackBuffer, ReadyPack, RecordModel,
    PACK_BUFFER_SIZE, RECORD_OVERHEAD,
};

verus! {

/// The data of the records laid end to end.
pub open spec fn concat_data(rs: Seq<RecordModel>) -> Seq<u8>
    decreases rs.len(),
{
    if rs.len() == 0 {
        Seq::empty()
    } else {
        concat_data(rs.drop_last()) + rs.last().1
    }
}

/// The records of the closed packs, in order.
pub open spec fn ready_records(ready: Seq<ReadyPack>) -> Seq<RecordModel>
    decreases ready.len(),
{
    if ready.len() == 0 {
        Seq::empty()
    } else {
        ready_records(ready.drop_last()) + ready.last().records@
    }
}

/// The files counted in the closed packs.
pub open spec fn ready_files(ready: Seq<ReadyPack>) -> nat
    decreases ready.len(),
{
    if ready.len() == 0 {
        0
    } else {
        ready_files(ready.drop_last()) + ready.last().files_in_pack as nat
    }
}

/// Every record has the path `p`.
pub open spec fn all_at_path(rs: Seq<RecordModel>, p: Seq<u8>) -> bool {
    forall|i: int| 0 <= i < rs.len() ==> (#[trigger] rs[i]).0 == p
}

/// What the packer has produced so far: the closed packs' records, then the open pack's.
pub open spec fn emitted(ready: Seq<ReadyPack>, pack: PackBuffer) -> Seq<RecordModel> {
    ready_records(ready) + pack.records()
}

/// Every closed pack is well formed.
pub open spec fn all_ready_wf(ready: Seq<ReadyPack>) -> bool {
    forall|i: int| 0 <= i < ready.len() ==> (#[trigger] ready[i]).wf()
}

/// The open pack is well formed and within the size limit.
pub open spec fn pack_ok(pack: PackBuffer) -> bool {
    pack.wf() && pack.spec_len() <= PACK_BUFFER_SIZE
}

pub proof fn lemma_concat_data_push(rs: Seq<RecordModel>, r: RecordModel)
    ensures
        concat_data(rs.push(r)) == concat_data(rs) + r.1,
{
    assert(rs.push(r).drop_last() =~= rs);
}

pub proof fn lemma_concat_data_append(a: Seq<RecordModel>, b: Seq<RecordModel>)
    ensures
        concat_data(a + b) == concat_data(a) + concat_data(b),
    decreases b.len(),
{
    if b.len() == 0 {
        assert(a + b =~= a);
        assert(concat_data(a) + Seq::<u8>::empty() =~= concat_data(a));
    } else {
        lemma_concat_data_append(a, b.drop_last());
        assert((a + b).drop_last() =~= a + b.drop_last());
        assert((a + b).last() == b.last());
        assert(concat_data(a + b) =~= concat_data(a) + concat_data(b));
    }
}

pub proof fn lemma_ready_push(ready: Seq<ReadyPack>, r: ReadyPack)
    ensures
        ready_records(ready.push(r)) == ready_records(ready) + r.records@,
        ready_files(ready.push(r)) == ready_files(ready) + r.files_in_pack as nat,
{
    assert(ready.push(r).drop_last() =~= ready);
}

/// A record costs at least its two length fields and its data.
pub proof fn lemma_records_bytes_bound(rs: Seq<RecordModel>)
    ensures
        records_bytes(rs).len() >= 10 * rs.len() + data_total(rs),
    decreases rs.len(),
{
    if rs.len() > 0 {
        lemma_records_bytes_bound(rs.drop_last());
        lemma_record_bytes_len(rs.last());
    }
}

/// A pack within the size limit holds few records and little data.
pub proof fn lemma_pack_counts(pack: PackBuffer)
    requires
        pack_ok(pack),
    ensures
        pack.records().len() <= PACK_BUFFER_SIZE / 10,
        pack.spec_bytes_added() <= PACK_BUFFER_SIZE,
        pack.spec_len() >= 4,
{
    pack.lemma_wf_bytes();
    lemma_records_bytes_bound(pack.records());
    lemma_le_bytes_len(pack.records().len(), 4);
}

/// Room left in the pack for data under a path of `path_len` bytes, or 0 when a
/// record would not fit.
pub fn room_for(pack: &PackBuffer, path_len: usize) -> (r: usize)
    requires
        pack.spec_len() <= PACK_BUFFER_SIZE,
    ensures
        pack.spec_len() + RECORD_OVERHEAD + path_len < PACK_BUFFER_SIZE ==> r == PACK_BUFFER_SIZE - pack.spec_len() - RECORD_OVERHEAD - path_len,
        pack.spec_len() + RECORD_OVERHEAD + path_len >= PACK_BUFFER_SIZE ==> r == 0,
{
    let remaining = PACK_BUFFER_SIZE - pack.len();
    if path_len >= PACK_BUFFER_SIZE || remaining <= RECORD_OVERHEAD + path_len {
        0
    } else {
        remaining - (RECORD_OVERHEAD + path_len)
    }
}

/// How many bytes of a file with `file_remaining` bytes left to read go into the
/// next record: all the room left, or the room of a fresh pack when the open one is full.
pub fn next_chunk_len(pack: &PackBuffer, path_len: usize, file_remaining: u64) -> (r: usize)
    requires
        pack.spec_len() <= PACK_BUFFER_SIZE,
        path_len < 65536,
    ensures
        r as nat <= file_remaining,
        file_remaining > 0 ==> r > 0,
        ({
            let room = if pack.spec_len() + RECORD_OVERHEAD + path_len < PACK_BUFFER_SIZE {
                PACK_BUFFER_SIZE - pack.spec_len() - RECORD_OVERHEAD - path_len
            } else {
                PACK_BUFFER_SIZE - 4 - RECORD_OVERHEAD - path_len
            };
            r as int == if file_remaining < room { file_remaining as int } else { room }
        }),
{
    let mut room = room_for(pack, path_len);
    if room == 0 {
        room = PACK_BUFFER_SIZE - 4 - (RECORD_OVERHEAD + path_len);
    }
    if file_remaining < room as u64 {
        file_remaining as usize
    } else {
        room
    }
}

/// Closes the open pack into `ready` and starts a new one.
pub fn flush(pack: &mut PackBuffer, ready: &mut Vec<ReadyPack>)
    requires
        pack_ok(*old(pack)),
        all_ready_wf(old(ready)@),
    ensures
        final(pack).is_empty_pack(),
        final(pack).spec_len() == 4,
        final(ready)@ == old(ready)@.push(final(ready)@.last()),
        final(ready)@.last().buffer@ == old(pack).bytes(),
        emitted(final(ready)@, *final(pack)) == emitted(old(ready)@, *old(pack)),
        ready_files(final(ready)@) + final(pack).spec_files_added() == ready_files(old(ready)@) + old(pack).spec_files_added(),
        all_ready_wf(final(ready)@),
{
    let r = pack.take_ready_pack();
    let ghost rg = r;
    ready.push(r);
    proof {
        lemma_ready_push(old(ready)@, rg);
        assert(emitted(ready@, *pack) =~= emitted(old(ready)@, *old(pack)));
        assert forall|i: int| 0 <= i < ready@.len() implies (#[trigger] ready@[i]).wf() by {
            if i < old(ready)@.len() {
                assert(ready@[i] == old(ready)@[i]);
            }
        }
    }
}

/// Appends `data` under `rel_path`, as many records as it takes: whenever the open
/// pack has no room for another record, it is closed into `ready` first.
pub fn pack_chunk(pack: &mut PackBuffer, rel_path: &str, data: &[u8], ready: &mut Vec<ReadyPack>)
    requires
        pack_ok(*old(pack)),
        all_ready_wf(old(ready)@),
        rel_path.spec_bytes().len() < 65536,
    ensures
        pack_ok(*final(pack)),
        all_ready_wf(final(ready)@),
        final(ready)@.len() >= old(ready)@.len(),
        final(ready)@.subrange(0, old(ready)@.len() as int) == old(ready)@,
        ({
            let before = emitted(old(ready)@, *old(pack));
            let after = emitted(final(ready)@, *final(pack));
            let added = after.subrange(before.len() as int, after.len() as int);
            &&& after.subrange(0, before.len() as int) == before
            &&& all_at_path(added, rel_path.spec_bytes())
            &&& concat_data(added) == data@
        }),
        ready_files(final(ready)@) + final(pack).spec_files_added() == ready_files(old(ready)@) + old(pack).spec_files_added(),
        data@.len() > 0 ==> final(pack).spec_files_added() < final(pack).records().len(),
        data@.len() == 0 ==> *final(pack) == *old(pack) && final(ready)@ == old(ready)@,
{
    let path = rel_path.as_bytes();
    let path_len = path.len();
    let n = data.len();
    let mut offset: usize = 0;
    let ghost before = emitted(old(ready)@, *old(pack));
    let ghost p = path@;
    proof {
        assert(emitted(ready@, *pack).subrange(before.len() as int, before.len() as int) =~= Seq::<RecordModel>::empty());
        assert(emitted(ready@, *pack).subrange(0, before.len() as int) =~= before);
    }
    while offset < n
        invariant
            offset <= n,
            n == data@.len(),
            path_len == p.len(),
            p == rel_path.spec_bytes(),
            path_len < 65536,
            pack_ok(*pack),
            all_ready_wf(ready@),
            ready@.len() >= old(ready)@.len(),
            ready@.subrange(0, old(ready)@.len() as int) == old(ready)@,
            emitted(ready@, *pack).len() >= before.len(),
            emitted(ready@, *pack).subrange(0, before.len() as int) == before,
            all_at_path(emitted(ready@, *pack).subrange(before.len() as int, emitted(ready@, *pack).len() as int), p),
            concat_data(emitted(ready@, *pack).subrange(before.len() as int, emitted(ready@, *pack).len() as int)) == data@.subrange(0, offset as int),
            ready_files(ready@) + pack.spec_files_added() == ready_files(old(ready)@) + old(pack).spec_files_added(),
            offset > 0 ==> pack.spec_files_added() < pack.records().len(),
            offset == 0 ==> *pack == *old(pack) && ready@ == old(ready)@,
        decreases n - offset,
    {
        let ghost e0 = emitted(ready@, *pack);
        let ghost r0 = ready@;
        if room_for(pack, path_len) == 0 {
            flush(pack, ready);
            proof {
                assert(ready@.subrange(0, old(ready)@.len() as int) =~= r0.subrange(0, old(ready)@.len() as int));
            }
        }
        let room = room_for(pack, path_len);
        proof {
            lemma_pack_counts(*pack);
            pack.lemma_wf_bytes();
        }
        let chunk = if room < n - offset { room } else { n - offset };
        let ghost e1 = emitted(ready@, *pack);
        let ghost piece = data@.subrange(offset as int, offset + chunk);
        pack.add_record(rel_path, &data[offset..offset + chunk]);
        proof {
            let e2 = emitted(ready@, *pack);
            assert(e2 =~= e1.push((p, piece)));
            let a1 = e1.subrange(before.len() as int, e1.len() as int);
            let a2 = e2.subrange(before.len() as int, e2.len() as int);
            assert(a2 =~= a1.push((p, piece)));
            lemma_concat_data_push(a1, (p, piece));
            assert(data@.subrange(0, offset + chunk) =~= data@.subrange(0, offset as int) + piece);
            assert(e2.subrange(0, before.len() as int) =~= e1.subrange(0, before.len() as int));
            assert forall|i: int| 0 <= i < a2.len() implies (#[trigger] a2[i]).0 == p by {
                if i < a1.len() {
                    assert(a2[i] == a1[i]);
                }
            }
        }
        offset = offset + chunk;
    }
    proof {
        assert(data@.subrange(0, n as int) =~= data@);
    }
}

/// Marks the end of a file. A file that gave no data gets one empty record, so
/// that the remote side still creates it; either way the file is counted in the open pack.
pub fn finish_file(pack: &mut PackBuffer, rel_path: &str, had_data: bool, ready: &mut Vec<ReadyPack>)
    requires
        pack_ok(*old(pack)),
        all_ready_wf(old(ready)@),
        rel_path.spec_bytes().len() < 65536,
        had_data ==> old(pack).spec_files_added() < old(pack).records().len(),
    ensures
        pack_ok(*final(pack)),
        all_ready_wf(final(ready)@),
        final(ready)@.len() >= old(ready)@.len(),
        final(ready)@.subrange(0, old(ready)@.len() as int) == old(ready)@,
        had_data ==> emitted(final(ready)@, *final(pack)) == emitted(old(ready)@, *old(pack)),
        !had_data ==> emitted(final(ready)@, *final(pack)) == emitted(old(ready)@, *old(pack)).push((rel_path.spec_bytes(), Seq::<u8>::empty())),
        ready_files(final(ready)@) + final(pack).spec_files_added() == ready_files(old(ready)@) + old(pack).spec_files_added() + 1,
{
    let ghost r0 = ready@;
    if !had_data {
        proof {
            lemma_pack_counts(*pack);
        }
        if !pack.can_fit(rel_path.len(), 0) {
            flush(pack, ready);
        }
        let ghost e1 = emitted(ready@, *pack);
        let ghost r1 = ready@;
        proof {
            lemma_pack_counts(*pack);
            pack.lemma_wf_bytes();
        }
        let empty: [u8; 0] = [];
        pack.add_record(rel_path, &empty);
        proof {
            assert(empty@ =~= Seq::<u8>::empty());
            assert(emitted(ready@, *pack) =~= e1.push((rel_path.spec_bytes(), Seq::<u8>::empty())));
        }
    }
    let ghost r2 = ready@;
    pack.count_file();
    proof {
        assert(ready@.subrange(0, old(ready)@.len() as int) =~= r2.subrange(0, old(ready)@.len() as int));
    }
}

} // verus!
