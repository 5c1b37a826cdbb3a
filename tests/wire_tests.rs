use ps5upload::pack::PackBuffer;
use ps5upload::packer::{finish_file, flush, pack_chunk};
use ps5upload::retry::{after_write, before_write, WriteEvent, WriteStep, WRITE_IDLE_TIMEOUT_MS};
use ps5upload::unpack::unpack;
use ps5upload::compress::compress_pack;
use ps5upload::frame::{decode_frame_header, encode_frame_header};
use ps5upload::response::parse_upload_response;
use ps5upload::{CompressionMode, FrameType, ReadyPack};

#[test]
fn unpack_reads_what_was_packed() {
    let mut p = PackBuffer::new();
    p.add_record("a.txt", b"hello");
    p.add_record("dir/b", b"");
    p.add_record("dir/c", &[1, 2, 3]);
    let recs = unpack(p.as_bytes()).unwrap();
    assert_eq!(
        recs,
        vec![
            (b"a.txt".to_vec(), b"hello".to_vec()),
            (b"dir/b".to_vec(), vec![]),
            (b"dir/c".to_vec(), vec![1, 2, 3]),
        ]
    );
    assert_eq!(unpack(PackBuffer::new().as_bytes()), Some(vec![]));
}

#[test]
fn unpack_refuses_malformed() {
    assert_eq!(unpack(&[1, 0, 0]), None);
    assert_eq!(unpack(&[1, 0, 0, 0]), None);
    let mut p = PackBuffer::new();
    p.add_record("a", b"xyz");
    let mut bytes = p.as_bytes().to_vec();
    bytes.push(0);
    assert_eq!(unpack(&bytes), None);
    bytes.pop();
    bytes.pop();
    assert_eq!(unpack(&bytes), None);
    let mut wrong_count = p.as_bytes().to_vec();
    wrong_count[0] = 2;
    assert_eq!(unpack(&wrong_count), None);
}

#[test]
fn files_reassemble_across_packs() {
    let a: Vec<u8> = (0..9_000_000u32).map(|i| (i % 255) as u8).collect();
    let b: Vec<u8> = (0..12_000_000u32).map(|i| (i % 253) as u8).collect();
    let mut pack = PackBuffer::new();
    let mut ready: Vec<ReadyPack> = Vec::new();
    pack_chunk(&mut pack, "a", &a, &mut ready);
    finish_file(&mut pack, "a", true, &mut ready);
    pack_chunk(&mut pack, "b", &b, &mut ready);
    finish_file(&mut pack, "b", true, &mut ready);
    finish_file(&mut pack, "c", false, &mut ready);
    flush(&mut pack, &mut ready);
    let mut files: Vec<(Vec<u8>, Vec<u8>)> = Vec::new();
    for r in &ready {
        for (path, data) in unpack(&r.buffer).unwrap() {
            match files.last_mut() {
                Some((p, d)) if *p == path => d.extend_from_slice(&data),
                _ => files.push((path, data)),
            }
        }
    }
    assert_eq!(files.len(), 3);
    assert_eq!(files[0], (b"a".to_vec(), a));
    assert_eq!(files[1], (b"b".to_vec(), b));
    assert_eq!(files[2], (b"c".to_vec(), vec![]));
    assert_eq!(ready.iter().map(|r| r.files_in_pack).sum::<u32>(), 3);
}

#[test]
fn write_steps() {
    assert_eq!(before_write(10, 10, true, 0), WriteStep::Done);
    assert_eq!(before_write(0, 10, true, 0), WriteStep::Cancelled);
    assert_eq!(before_write(0, 10, false, WRITE_IDLE_TIMEOUT_MS), WriteStep::TimedOut);
    assert_eq!(before_write(3, 10, false, 5), WriteStep::Write { offset: 3 });
    assert_eq!(after_write(3, 10, WriteEvent::Wrote(0)), WriteStep::Closed);
    assert_eq!(after_write(3, 10, WriteEvent::Wrote(4)), WriteStep::Write { offset: 7 });
    assert_eq!(after_write(3, 10, WriteEvent::Wrote(7)), WriteStep::Done);
    assert_eq!(after_write(3, 10, WriteEvent::Transient), WriteStep::Wait { offset: 3 });
    assert_eq!(after_write(3, 10, WriteEvent::Failed), WriteStep::Failed);
}

#[test]
fn single_small_file_upload_stream() {
    let mut pack = PackBuffer::new();
    let mut ready: Vec<ReadyPack> = Vec::new();
    pack_chunk(&mut pack, "a.txt", b"hello", &mut ready);
    finish_file(&mut pack, "a.txt", true, &mut ready);
    assert!(ready.is_empty());
    flush(&mut pack, &mut ready);
    assert_eq!(ready.len(), 1);

    let mut wire = Vec::new();
    for r in ready {
        assert_eq!(r.bytes_in_pack, 5);
        assert_eq!(r.files_in_pack, 1);
        let (t, payload) = compress_pack(CompressionMode::Uncompressed, r.buffer);
        wire.extend_from_slice(&encode_frame_header(t, payload.len() as u64));
        wire.extend_from_slice(&payload);
    }
    wire.extend_from_slice(&encode_frame_header(FrameType::Finish, 0));

    let (t, len) = decode_frame_header(&wire).unwrap();
    assert_eq!((t, len), (FrameType::Pack, 4 + 2 + 5 + 8 + 5));
    let body = &wire[16..16 + len as usize];
    assert_eq!(unpack(body).unwrap(), vec![(b"a.txt".to_vec(), b"hello".to_vec())]);
    assert_eq!(&body[4..6], &5u16.to_le_bytes());
    assert_eq!(&body[11..19], &5u64.to_le_bytes());
    let rest = &wire[16 + len as usize..];
    assert_eq!(decode_frame_header(rest), Some((FrameType::Finish, 0)));
    assert_eq!(rest.len(), 16);
    assert_eq!(parse_upload_response("SUCCESS 1 5\n"), Ok((1, 5)));
}
