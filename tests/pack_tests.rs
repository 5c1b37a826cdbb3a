use ps5upload::pack::{PackBuffer, PACK_BUFFER_SIZE};
use ps5upload::packer::{finish_file, flush, next_chunk_len, pack_chunk, room_for};
use ps5upload::ReadyPack;

fn le32(b: &[u8]) -> u32 {
    u32::from_le_bytes([b[0], b[1], b[2], b[3]])
}

/// Splits a pack into (path, data) records, checking the layout as it goes.
fn decode(buf: &[u8]) -> Vec<(Vec<u8>, Vec<u8>)> {
    let count = le32(&buf[0..4]) as usize;
    let mut out = Vec::new();
    let mut i = 4;
    for _ in 0..count {
        let plen = u16::from_le_bytes([buf[i], buf[i + 1]]) as usize;
        i += 2;
        let path = buf[i..i + plen].to_vec();
        i += plen;
        let mut l = [0u8; 8];
        l.copy_from_slice(&buf[i..i + 8]);
        let dlen = u64::from_le_bytes(l) as usize;
        i += 8;
        let data = buf[i..i + dlen].to_vec();
        i += dlen;
        out.push((path, data));
    }
    assert_eq!(i, buf.len());
    out
}

#[test]
fn new_pack_is_count_header_only() {
    let p = PackBuffer::new();
    assert_eq!(p.len(), 4);
    assert_eq!(p.as_bytes(), &[0u8, 0, 0, 0][..]);
    assert_eq!(p.record_count(), 0);
    assert_eq!(p.bytes_added(), 0);
    assert_eq!(p.files_added(), 0);
}

#[test]
fn single_hello_record_layout() {
    let mut p = PackBuffer::new();
    p.add_record("a.txt", b"hello");
    p.count_file();
    let mut expected = vec![1u8, 0, 0, 0, 5, 0];
    expected.extend_from_slice(b"a.txt");
    expected.extend_from_slice(&5u64.to_le_bytes());
    expected.extend_from_slice(b"hello");
    assert_eq!(p.as_bytes(), &expected[..]);
    assert_eq!(p.record_count(), 1);
    assert_eq!(p.bytes_added(), 5);
    assert_eq!(p.files_added(), 1);
    assert_eq!(p.len(), 4 + 2 + 5 + 8 + 5);
}

#[test]
fn count_header_follows_records() {
    let mut p = PackBuffer::new();
    for k in 0..300u32 {
        p.add_record("f", &[k as u8]);
        assert_eq!(le32(&p.as_bytes()[0..4]), k + 1);
    }
    assert_eq!(p.record_count(), 300);
    p.reset();
    assert_eq!(p.as_bytes(), &[0u8, 0, 0, 0][..]);
}

#[test]
fn can_fit_edge() {
    let p = PackBuffer::new();
    let room = PACK_BUFFER_SIZE - 4 - 10 - 3;
    assert!(p.can_fit(3, room));
    assert!(!p.can_fit(3, room + 1));
    assert_eq!(room_for(&p, 3), room);
}

#[test]
fn records_respecting_can_fit_stay_within_limit() {
    let mut p = PackBuffer::new();
    let chunk = vec![7u8; 1_000_000];
    while p.can_fit(4, chunk.len()) {
        p.add_record("data", &chunk);
    }
    assert!(p.len() <= PACK_BUFFER_SIZE);
    let rest = room_for(&p, 4);
    assert!(p.can_fit(4, rest));
    p.add_record("data", &chunk[..rest]);
    assert_eq!(p.len(), PACK_BUFFER_SIZE);
    assert_eq!(room_for(&p, 4), 0);
}

#[test]
fn take_ready_pack_hands_out_and_resets() {
    let mut p = PackBuffer::new();
    p.add_record("x", b"abc");
    p.count_file();
    let before = p.as_bytes().to_vec();
    let r = p.take_ready_pack();
    assert_eq!(r.buffer, before);
    assert_eq!(r.bytes_in_pack, 3);
    assert_eq!(r.files_in_pack, 1);
    assert_eq!(p.len(), 4);
    assert_eq!(p.record_count(), 0);
    assert_eq!(p.files_added(), 0);
}

#[test]
fn big_file_spans_packs_and_round_trips() {
    let size = 20 * 1024 * 1024 + 17;
    let data: Vec<u8> = (0..size).map(|i| (i * 31 % 251) as u8).collect();
    let mut pack = PackBuffer::new();
    let mut ready: Vec<ReadyPack> = Vec::new();
    for piece in data.chunks(1024 * 1024) {
        pack_chunk(&mut pack, "dir/x", piece, &mut ready);
    }
    finish_file(&mut pack, "dir/x", true, &mut ready);
    assert!(!ready.is_empty());
    flush(&mut pack, &mut ready);
    assert!(ready.len() >= 2);
    let mut joined = Vec::new();
    let mut files = 0;
    for r in &ready {
        assert!(r.buffer.len() <= PACK_BUFFER_SIZE);
        files += r.files_in_pack;
        for (path, d) in decode(&r.buffer) {
            assert_eq!(path, b"dir/x".to_vec());
            joined.extend_from_slice(&d);
        }
    }
    assert_eq!(files, 1);
    assert_eq!(joined, data);
    assert_eq!(ready[0].buffer.len(), PACK_BUFFER_SIZE);
}

#[test]
fn empty_file_gets_empty_record() {
    let mut pack = PackBuffer::new();
    let mut ready: Vec<ReadyPack> = Vec::new();
    pack_chunk(&mut pack, "empty.bin", &[], &mut ready);
    assert_eq!(pack.record_count(), 0);
    finish_file(&mut pack, "empty.bin", false, &mut ready);
    assert!(ready.is_empty());
    let recs = decode(pack.as_bytes());
    assert_eq!(recs, vec![(b"empty.bin".to_vec(), Vec::new())]);
    assert_eq!(pack.files_added(), 1);
}

#[test]
fn chunk_length_follows_room() {
    let mut pack = PackBuffer::new();
    assert_eq!(next_chunk_len(&pack, 5, 5), 5);
    assert_eq!(next_chunk_len(&pack, 5, 0), 0);
    let room = (PACK_BUFFER_SIZE - 4 - 10 - 5) as u64;
    assert_eq!(next_chunk_len(&pack, 5, room + 100) as u64, room);
    let fill = vec![0u8; room as usize];
    pack.add_record("a.txt", &fill);
    assert_eq!(room_for(&pack, 5), 0);
    assert_eq!(next_chunk_len(&pack, 5, 10), 10);
}
