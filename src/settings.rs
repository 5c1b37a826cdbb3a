//! Reading the upload settings that arrive as text, and picking a codec.
use vstd::prelude::*;
use crate::compress::{lz4_block, lzma_stream, zstd_stream};
use crate::frame::{CompressionMode, ZSTD_LEVEL};
use crate::resume::ResumeMode;
use crate::text::{ends_with, has_suffix, lower_of, lowercase, same_text};

verus! {

/// The compression the user asked for: one codec, or a choice made by sampling.
#[derive(Debug, Clone, Copy, PartialEq, Eq, Structural)]
pub enum CompressionChoice {
    Fixed(CompressionMode),
    Auto,
}

/// The choice named by an already lower-cased setting; anything unknown means
/// no compression.
pub open spec fn choice_of_lower(s: Seq<char>) -> CompressionChoice {
    if s == "auto"@ {
        CompressionChoice::Auto
    } else if s == "lz4"@ {
        CompressionChoice::Fixed(CompressionMode::Lz4)
    } else if s == "zstd"@ {
        CompressionChoice::Fixed(CompressionMode::Zstd)
    } else if s == "lzma"@ {
        CompressionChoice::Fixed(CompressionMode::Lzma)
    } else {
        CompressionChoice::Fixed(CompressionMode::Uncompressed)
    }
}

/// The choice named by a lower-cased setting; see `choice_of_lower`.
pub fn compression_choice_from_lower(lower: &str) -> (r: CompressionChoice)
    ensures
        r == choice_of_lower(lower@),
{
    if same_text(lower, "auto") {
        CompressionChoice::Auto
    } else if same_text(lower, "lz4") {
        CompressionChoice::Fixed(CompressionMode::Lz4)
    } else if same_text(lower, "zstd") {
        CompressionChoice::Fixed(CompressionMode::Zstd)
    } else if same_text(lower, "lzma") {
        CompressionChoice::Fixed(CompressionMode::Lzma)
    } else {
        CompressionChoice::Fixed(CompressionMode::Uncompressed)
    }
}

/// Reads a compression setting, ignoring case.
pub fn parse_compression_mode(mode: &str) -> (r: CompressionChoice)
    ensures
        r == choice_of_lower(lower_of(mode@)),
{
    let lower = lowercase(mode);
    compression_choice_from_lower(lower.as_str())
}

/// Reads a resume setting: `none` or `off`, `size`, `size_mtime`, `sha256`;
/// anything else is refused.
pub fn parse_resume_mode(mode: &str) -> (r: Option<ResumeMode>)
    ensures
        r == if mode@ == "none"@ || mode@ == "off"@ {
            Some(ResumeMode::Off)
        } else if mode@ == "size"@ {
            Some(ResumeMode::Size)
        } else if mode@ == "size_mtime"@ {
            Some(ResumeMode::SizeMtime)
        } else if mode@ == "sha256"@ {
            Some(ResumeMode::Sha256)
        } else {
            None
        },
{
    if same_text(mode, "none") || same_text(mode, "off") {
        Some(ResumeMode::Off)
    } else if same_text(mode, "size") {
        Some(ResumeMode::Size)
    } else if same_text(mode, "size_mtime") {
        Some(ResumeMode::SizeMtime)
    } else if same_text(mode, "sha256") {
        Some(ResumeMode::Sha256)
    } else {
        None
    }
}

/// The archive formats an upload can start from.
#[derive(Debug, Clone, Copy, PartialEq, Eq, Structural)]
pub enum ArchiveKind {
    Rar,
    Zip,
    SevenZip,
}

/// The archive kind that an already lower-cased path names by its extension.
pub open spec fn archive_of_lower(s: Seq<char>) -> Option<ArchiveKind> {
    if has_suffix(s, ".rar"@) {
        Some(ArchiveKind::Rar)
    } else if has_suffix(s, ".zip"@) {
        Some(ArchiveKind::Zip)
    } else if has_suffix(s, ".7z"@) {
        Some(ArchiveKind::SevenZip)
    } else {
        None
    }
}

/// The archive kind of a source path, by its extension in any case.
pub fn archive_kind(path: &str) -> (r: Option<ArchiveKind>)
    ensures
        r == archive_of_lower(lower_of(path@)),
{
    let lower = lowercase(path);
    if ends_with(lower.as_str(), ".rar") {
        Some(ArchiveKind::Rar)
    } else if ends_with(lower.as_str(), ".zip") {
        Some(ArchiveKind::Zip)
    } else if ends_with(lower.as_str(), ".7z") {
        Some(ArchiveKind::SevenZip)
    } else {
        None
    }
}

/// The codec whose frame is smallest, given the frame size each would give
/// (`None` where a codec failed); ties go to the earlier of LZ4, zstd, LZMA.
/// When no frame is smaller than the raw sample, no compression.
pub open spec fn best_of(raw: nat, lz4: nat, zstd: Option<nat>, lzma: Option<nat>) -> CompressionMode {
    let z = match zstd { Some(v) => v, None => raw };
    let l = match lzma { Some(v) => v, None => raw };
    if lz4 < raw && lz4 <= z && lz4 <= l {
        CompressionMode::Lz4
    } else if z < raw && z <= l {
        CompressionMode::Zstd
    } else if l < raw {
        CompressionMode::Lzma
    } else {
        CompressionMode::Uncompressed
    }
}

/// Picks a codec from the frame sizes that each gave on a sample; see `best_of`.
pub fn best_of_sizes(raw: usize, lz4: usize, zstd: Option<usize>, lzma: Option<usize>) -> (r: CompressionMode)
    ensures
        r == best_of(raw as nat, lz4 as nat, match zstd { Some(v) => Some(v as nat), None => None }, match lzma { Some(v) => Some(v as nat), None => None }),
{
    let z = match zstd { Some(v) => v, None => raw };
    let l = match lzma { Some(v) => v, None => raw };
    if lz4 < raw && lz4 <= z && lz4 <= l {
        CompressionMode::Lz4
    } else if z < raw && z <= l {
        CompressionMode::Zstd
    } else if l < raw {
        CompressionMode::Lzma
    } else {
        CompressionMode::Uncompressed
    }
}

/// The size of an enveloped (size-prefixed) codec output, when the codec gave one.
pub open spec fn envelope(c: Option<Seq<u8>>) -> Option<nat> {
    match c {
        Some(v) if v.len() > 0 => Some(v.len() + 4),
        _ => None,
    }
}

/// Tries every codec on a sample of the upload and picks the one that shrinks
/// it most (see `best_of`).
pub fn choose_best_compression(sample: &Vec<u8>) -> (r: CompressionMode)
    requires
        sample@.len() < 4294967296,
    ensures
        exists|z: Option<Seq<u8>>, l: Option<Seq<u8>>|
            (z matches Some(v) ==> v == zstd_stream(sample@, ZSTD_LEVEL as int))
            && (l matches Some(v) ==> v == lzma_stream(sample@))
            && r == #[trigger] best_of(sample@.len(), 4 + lz4_block(sample@).len(), envelope(z), envelope(l)),
{
    let raw = sample.len();
    let lz = crate::compress::lz4_compress_prepend_size(sample.as_slice());
    let zs = crate::compress::zstd_compress(sample.as_slice(), ZSTD_LEVEL);
    let lm = crate::compress::lzma_compress(sample.as_slice());
    let ghost zg = match &zs { Some(v) => Some(v@), None => None::<Seq<u8>> };
    let ghost lg = match &lm { Some(v) => Some(v@), None => None::<Seq<u8>> };
    proof {
        crate::bytes::lemma_le_bytes_len(sample@.len(), 4);
    }
    let z: Option<usize> = match &zs {
        Some(v) => if v.len() > 0 && raw >= 4 && v.len() < raw - 4 { Some(v.len() + 4) } else if v.len() > 0 { Some(raw) } else { None },
        None => None,
    };
    let l: Option<usize> = match &lm {
        Some(v) => if v.len() > 0 && raw >= 4 && v.len() < raw - 4 { Some(v.len() + 4) } else if v.len() > 0 { Some(raw) } else { None },
        None => None,
    };
    let r = best_of_sizes(raw, lz.len(), z, l);
    proof {
        assert(r == best_of(sample@.len(), 4 + lz4_block(sample@).len(), envelope(zg), envelope(lg)));
    }
    r
}

} // verus!
