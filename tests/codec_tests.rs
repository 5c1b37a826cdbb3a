use ps5upload::compress::{compress_pack, frame_payload};
use ps5upload::frame::{approx_progress, chunk_end, decode_frame_header, encode_frame_header, SEND_CHUNK_SIZE};
use ps5upload::response::{parse_upload_response, UploadResponseError};
use ps5upload::settings::{archive_kind, best_of_sizes, choose_best_compression, parse_compression_mode, parse_resume_mode, ArchiveKind, CompressionChoice};
use ps5upload::resume::ResumeMode;
use ps5upload::{CompressionMode, FrameType};

fn noise(n: usize) -> Vec<u8> {
    let mut x: u64 = 0x9E3779B97F4A7C15;
    (0..n)
        .map(|_| {
            x ^= x << 13;
            x ^= x >> 7;
            x ^= x << 17;
            (x >> 24) as u8
        })
        .collect()
}

#[test]
fn pack_header_is_sixteen_bytes() {
    let h = encode_frame_header(FrameType::Pack, 25);
    let mut expected = vec![0x46, 0x54, 0x58, 0x31, 4, 0, 0, 0];
    expected.extend_from_slice(&25u64.to_le_bytes());
    assert_eq!(h, expected);
    assert_eq!(&h[0..4], b"FTX1");
}

#[test]
fn finish_frame_header() {
    let h = encode_frame_header(FrameType::Finish, 0);
    assert_eq!(h.len(), 16);
    assert_eq!(&h[4..8], &[6, 0, 0, 0]);
    assert_eq!(&h[8..16], &[0u8; 8]);
}

#[test]
fn frame_tags() {
    assert_eq!(FrameType::Pack.tag(), 4);
    assert_eq!(FrameType::Finish.tag(), 6);
    assert_eq!(FrameType::PackLz4.tag(), 8);
    assert_eq!(FrameType::PackZstd.tag(), 9);
    assert_eq!(FrameType::PackLzma.tag(), 10);
    assert_eq!(FrameType::from_tag(9), Some(FrameType::PackZstd));
    assert_eq!(FrameType::from_tag(5), None);
}

#[test]
fn header_decodes_back() {
    let h = encode_frame_header(FrameType::PackLzma, 123456789);
    assert_eq!(decode_frame_header(&h), Some((FrameType::PackLzma, 123456789)));
    let mut bad = h.clone();
    bad[0] = 0;
    assert_eq!(decode_frame_header(&bad), None);
    assert_eq!(decode_frame_header(&h[..15]), None);
    let mut unknown = h.clone();
    unknown[4] = 7;
    assert_eq!(decode_frame_header(&unknown), None);
}

#[test]
fn lz4_on_zeros_compresses() {
    let raw = vec![0u8; 10 * 1024 * 1024];
    let (t, payload) = compress_pack(CompressionMode::Lz4, raw.clone());
    assert_eq!(t, FrameType::PackLz4);
    assert!(payload.len() < 1024 * 1024);
    assert_eq!(&payload[0..4], &(raw.len() as u32).to_le_bytes());
    assert_eq!(lz4_flex::block::decompress_size_prepended(&payload).unwrap(), raw);
}

#[test]
fn lz4_on_noise_falls_back() {
    let raw = noise(10 * 1024 * 1024);
    let (t, payload) = compress_pack(CompressionMode::Lz4, raw.clone());
    assert_eq!(t, FrameType::Pack);
    assert_eq!(payload, raw);
}

#[test]
fn zstd_and_lzma_envelopes() {
    let raw = vec![1u8; 100_000];
    let (t, payload) = compress_pack(CompressionMode::Zstd, raw.clone());
    assert_eq!(t, FrameType::PackZstd);
    assert_eq!(&payload[0..4], &100_000u32.to_le_bytes());
    assert_eq!(zstd::bulk::decompress(&payload[4..], 200_000).unwrap(), raw);
    let (t, payload) = compress_pack(CompressionMode::Lzma, raw.clone());
    assert_eq!(t, FrameType::PackLzma);
    assert_eq!(&payload[0..4], &100_000u32.to_le_bytes());
    assert!(payload.len() < raw.len());
}

#[test]
fn tiny_pack_is_never_compressed() {
    let raw = b"abc".to_vec();
    for mode in [CompressionMode::Lz4, CompressionMode::Zstd, CompressionMode::Lzma, CompressionMode::Uncompressed] {
        let (t, payload) = compress_pack(mode, raw.clone());
        assert_eq!(t, FrameType::Pack);
        assert_eq!(payload, raw);
    }
}

#[test]
fn fallback_rules_exact() {
    let raw = vec![9u8; 10];
    assert_eq!(frame_payload(CompressionMode::Lz4, raw.clone(), Some(vec![0; 10])), (FrameType::Pack, raw.clone()));
    assert_eq!(frame_payload(CompressionMode::Lz4, raw.clone(), Some(vec![0; 9])), (FrameType::PackLz4, vec![0; 9]));
    assert_eq!(frame_payload(CompressionMode::Zstd, raw.clone(), Some(vec![0; 6])), (FrameType::Pack, raw.clone()));
    assert_eq!(frame_payload(CompressionMode::Zstd, raw.clone(), Some(vec![])), (FrameType::Pack, raw.clone()));
    assert_eq!(frame_payload(CompressionMode::Zstd, raw.clone(), None), (FrameType::Pack, raw.clone()));
    assert_eq!(frame_payload(CompressionMode::Zstd, raw.clone(), Some(vec![5; 5])), (FrameType::PackZstd, vec![10, 0, 0, 0, 5, 5, 5, 5, 5]));
    assert_eq!(frame_payload(CompressionMode::Lzma, raw.clone(), Some(vec![5; 5])), (FrameType::PackLzma, vec![10, 0, 0, 0, 5, 5, 5, 5, 5]));
    assert_eq!(frame_payload(CompressionMode::Lzma, raw.clone(), None), (FrameType::Pack, raw.clone()));
}

#[test]
fn payload_slices() {
    assert_eq!(chunk_end(0, 10), 10);
    assert_eq!(chunk_end(0, 10 * 1024 * 1024), SEND_CHUNK_SIZE);
    assert_eq!(chunk_end(8 * 1024 * 1024, 10 * 1024 * 1024), 10 * 1024 * 1024);
    assert_eq!(approx_progress(1000, 50, 100), 500);
    assert_eq!(approx_progress(1000, 100, 100), 1000);
    assert_eq!(approx_progress(7, 1, 3), 2);
    assert_eq!(approx_progress(7, 0, 0), 0);
}

#[test]
fn upload_response_lines() {
    assert_eq!(parse_upload_response("SUCCESS 1 5\n"), Ok((1, 5)));
    assert_eq!(parse_upload_response("  SUCCESS\t2   20972544 \r\n"), Ok((2, 20972544)));
    assert_eq!(parse_upload_response("SUCCESS 0 0"), Ok((0, 0)));
    assert_eq!(parse_upload_response("ERROR: disk full"), Err(UploadResponseError::Remote));
    assert_eq!(parse_upload_response("SUCCESS 1"), Err(UploadResponseError::Malformed));
    assert_eq!(parse_upload_response("SUCCESS 1 x"), Err(UploadResponseError::Malformed));
    assert_eq!(parse_upload_response("SUCCESS 1 2 3"), Err(UploadResponseError::Malformed));
    assert_eq!(parse_upload_response("SUCCESS 1 18446744073709551616"), Err(UploadResponseError::Malformed));
    assert_eq!(parse_upload_response("SUCCESS 1 18446744073709551615"), Ok((1, u64::MAX)));
    assert_eq!(parse_upload_response(""), Err(UploadResponseError::Malformed));
}

#[test]
fn settings_text() {
    assert_eq!(parse_compression_mode("LZ4"), CompressionChoice::Fixed(CompressionMode::Lz4));
    assert_eq!(parse_compression_mode("Zstd"), CompressionChoice::Fixed(CompressionMode::Zstd));
    assert_eq!(parse_compression_mode("lzma"), CompressionChoice::Fixed(CompressionMode::Lzma));
    assert_eq!(parse_compression_mode("AUTO"), CompressionChoice::Auto);
    assert_eq!(parse_compression_mode("none"), CompressionChoice::Fixed(CompressionMode::Uncompressed));
    assert_eq!(parse_compression_mode("gzip"), CompressionChoice::Fixed(CompressionMode::Uncompressed));
    assert_eq!(parse_resume_mode("none"), Some(ResumeMode::Off));
    assert_eq!(parse_resume_mode("size"), Some(ResumeMode::Size));
    assert_eq!(parse_resume_mode("size_mtime"), Some(ResumeMode::SizeMtime));
    assert_eq!(parse_resume_mode("sha256"), Some(ResumeMode::Sha256));
    assert_eq!(parse_resume_mode("SIZE"), None);
    assert_eq!(archive_kind("/games/X.ZIP"), Some(ArchiveKind::Zip));
    assert_eq!(archive_kind("a.rar"), Some(ArchiveKind::Rar));
    assert_eq!(archive_kind("a.7z"), Some(ArchiveKind::SevenZip));
    assert_eq!(archive_kind("a.tar"), None);
}

#[test]
fn codec_choice_from_sizes() {
    assert_eq!(best_of_sizes(100, 50, Some(40), Some(45)), CompressionMode::Zstd);
    assert_eq!(best_of_sizes(100, 40, Some(40), Some(45)), CompressionMode::Lz4);
    assert_eq!(best_of_sizes(100, 90, None, Some(30)), CompressionMode::Lzma);
    assert_eq!(best_of_sizes(100, 120, None, None), CompressionMode::Uncompressed);
    assert_ne!(choose_best_compression(&vec![0u8; 1 << 20]), CompressionMode::Uncompressed);
    assert_eq!(choose_best_compression(&noise(1 << 16)), CompressionMode::Uncompressed);
}
