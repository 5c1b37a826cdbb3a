//! Compressing a pack and falling back to the raw pack when compression does not pay.
use vstd::prelude::*;
use crate::bytes::{le_bytes, lemma_le_bytes_len, push_le};
use crate::frame::{CompressionMode, FrameType, ZSTD_LEVEL};
use crate::pack::append_bytes;

verus! {

/// The LZ4 block that lz4_flex makes of `data`.
pub uninterp spec fn lz4_block(data: Seq<u8>) -> Seq<u8>;

/// The zstd stream that the zstd library makes of `data` at compression `level`.
pub uninterp spec fn zstd_stream(data: Seq<u8>, level: int) -> Seq<u8>;

/// The LZMA stream that lzma-rs makes of `data` with its default options.
pub uninterp spec fn lzma_stream(data: Seq<u8>) -> Seq<u8>;

/// Relies on `lz4_flex::block::compress_prepend_size`: the input length as a
/// little-endian `u32`, then the LZ4 block of the input.
#[verifier::external_body]
pub(crate) fn lz4_compress_prepend_size(input: &[u8]) -> (r: Vec<u8>)
    requires
        input@.len() < 4294967296,
    ensures
        r@ == le_bytes(input@.len(), 4) + lz4_block(input@),
{
    lz4_flex::block::compress_prepend_size(input)
}

/// Relies on `zstd::bulk::compress`: on success, the zstd stream of `data` at `level`.
#[verifier::external_body]
pub(crate) fn zstd_compress(data: &[u8], level: i32) -> (r: Option<Vec<u8>>)
    ensures
        r matches Some(v) ==> v@ == zstd_stream(data@, level as int),
{
    zstd::bulk::compress(data, level).ok()
}

/// Relies on `lzma_rs::lzma_compress`: on success, the LZMA stream of `data`.
#[verifier::external_body]
pub(crate) fn lzma_compress(data: &[u8]) -> (r: Option<Vec<u8>>)
    ensures
        r matches Some(v) ==> v@ == lzma_stream(data@),
{
    let mut out: Vec<u8> = Vec::new();
    let mut input = std::io::BufReader::new(std::io::Cursor::new(data));
    match lzma_rs::lzma_compress(&mut input, &mut out) {
        Ok(()) => Some(out),
        Err(_) => None,
    }
}

/// The frame that carries `raw` under `mode`, given what the codec returned
/// (`None` when it failed). LZ4's output carries its own size prefix; zstd and
/// LZMA output get one here. A compressed frame that would not be smaller than
/// the raw pack, or an empty or failed one, gives way to the raw pack.
pub open spec fn framed(mode: CompressionMode, raw: Seq<u8>, compressed: Option<Seq<u8>>) -> (FrameType, Seq<u8>) {
    match mode {
        CompressionMode::Uncompressed => (FrameType::Pack, raw),
        CompressionMode::Lz4 => match compressed {
            Some(c) if c.len() < raw.len() => (FrameType::PackLz4, c),
            _ => (FrameType::Pack, raw),
        },
        CompressionMode::Zstd => match compressed {
            Some(c) if c.len() > 0 && c.len() + 4 < raw.len() => (FrameType::PackZstd, le_bytes(raw.len(), 4) + c),
            _ => (FrameType::Pack, raw),
        },
        CompressionMode::Lzma => match compressed {
            Some(c) if c.len() + 4 < raw.len() => (FrameType::PackLzma, le_bytes(raw.len(), 4) + c),
            _ => (FrameType::Pack, raw),
        },
    }
}

/// What the codec of `mode` makes of `raw`, as far as it is named.
pub open spec fn codec_output(mode: CompressionMode, raw: Seq<u8>) -> Seq<u8> {
    match mode {
        CompressionMode::Uncompressed => raw,
        CompressionMode::Lz4 => le_bytes(raw.len(), 4) + lz4_block(raw),
        CompressionMode::Zstd => zstd_stream(raw, ZSTD_LEVEL as int),
        CompressionMode::Lzma => lzma_stream(raw),
    }
}

/// Frames a pack from the codec's result; see `framed`.
pub fn frame_payload(mode: CompressionMode, raw: Vec<u8>, compressed: Option<Vec<u8>>) -> (r: (FrameType, Vec<u8>))
    requires
        raw@.len() < 4294967296,
    ensures
        (r.0, r.1@) == framed(mode, raw@, match compressed { Some(c) => Some(c@), None => None }),
{
    match mode {
        CompressionMode::Uncompressed => (FrameType::Pack, raw),
        CompressionMode::Lz4 => match compressed {
            Some(c) => {
                if c.len() < raw.len() {
                    (FrameType::PackLz4, c)
                } else {
                    (FrameType::Pack, raw)
                }
            },
            None => (FrameType::Pack, raw),
        },
        CompressionMode::Zstd => match compressed {
            Some(c) => {
                if c.len() > 0 && raw.len() > 4 && c.len() < raw.len() - 4 {
                    (FrameType::PackZstd, size_prefixed(raw.len(), &c))
                } else {
                    (FrameType::Pack, raw)
                }
            },
            None => (FrameType::Pack, raw),
        },
        CompressionMode::Lzma => match compressed {
            Some(c) => {
                if raw.len() > 4 && c.len() < raw.len() - 4 {
                    (FrameType::PackLzma, size_prefixed(raw.len(), &c))
                } else {
                    (FrameType::Pack, raw)
                }
            },
            None => (FrameType::Pack, raw),
        },
    }
}

/// `size` as a little-endian `u32`, then `body`.
fn size_prefixed(size: usize, body: &Vec<u8>) -> (r: Vec<u8>)
    requires
        size < 4294967296,
    ensures
        r@ == le_bytes(size as nat, 4) + body@,
{
    let mut out: Vec<u8> = Vec::new();
    push_le(&mut out, size as u64, 4);
    append_bytes(&mut out, body.as_slice());
    out
}

/// Compresses a pack under `mode` and frames it, falling back to the raw pack as
/// `framed` says.
pub fn compress_pack(mode: CompressionMode, raw: Vec<u8>) -> (r: (FrameType, Vec<u8>))
    requires
        raw@.len() < 4294967296,
    ensures
        mode == CompressionMode::Uncompressed ==> r.0 == FrameType::Pack && r.1@ == raw@,
        mode != CompressionMode::Uncompressed ==> (
            (r.0, r.1@) == framed(mode, raw@, Some(codec_output(mode, raw@)))
            || (r.0, r.1@) == framed(mode, raw@, None)
        ),
        mode == CompressionMode::Lz4 ==> (r.0, r.1@) == framed(mode, raw@, Some(codec_output(mode, raw@))),
{
    match mode {
        CompressionMode::Uncompressed => frame_payload(mode, raw, None),
        CompressionMode::Lz4 => {
            let c = lz4_compress_prepend_size(raw.as_slice());
            frame_payload(mode, raw, Some(c))
        },
        CompressionMode::Zstd => {
            let c = zstd_compress(raw.as_slice(), ZSTD_LEVEL);
            frame_payload(mode, raw, c)
        },
        CompressionMode::Lzma => {
            let c = lzma_compress(raw.as_slice());
            frame_payload(mode, raw, c)
        },
    }
}

/// Whenever compression does not pay (the codec failed, or its frame would not be
/// smaller than the raw pack), the raw pack goes out unchanged as a plain `Pack` frame.
pub proof fn lemma_compression_fallback(mode: CompressionMode, raw: Seq<u8>, compressed: Option<Seq<u8>>)
    requires
        mode != CompressionMode::Uncompressed,
        match compressed {
            None => true,
            Some(c) => match mode {
                CompressionMode::Lz4 => c.len() >= raw.len(),
                _ => c.len() + 4 >= raw.len(),
            },
        },
    ensures
        framed(mode, raw, compressed) == (FrameType::Pack, raw),
{
}

} // verus!
