//! FTX1 frames: header layout, frame types, and the choice of payload encoding.
use vstd::prelude::*;
use crate::bytes::{le_bytes, le_value, lemma_le_bytes_len, lemma_le_round_trip, lemma_pow256_values, push_le, read_le};

verus! {

/// `FTX1` read as a little-endian `u32`.
pub const MAGIC_FTX1: u32 = 0x31585446;

/// Bytes in a frame header: magic, type, payload length.
pub const FRAME_HEADER_LEN: usize = 16;

/// Largest slice of a payload written in one go.
pub const SEND_CHUNK_SIZE: usize = 4194304;

/// Compression level used for zstd packs.
pub const ZSTD_LEVEL: i32 = 19;

/// The kinds of frame sent on an upload connection.
#[derive(Debug, Clone, Copy, PartialEq, Eq, Structural)]
pub enum FrameType {
    Pack,
    Finish,
    PackLz4,
    PackZstd,
    PackLzma,
}

/// How packs are compressed before they are framed.
#[derive(Debug, Clone, Copy, PartialEq, Eq, Structural)]
pub enum CompressionMode {
    Uncompressed,
    Lz4,
    Zstd,
    Lzma,
}

pub open spec fn spec_tag(t: FrameType) -> u32 {
    match t {
        FrameType::Pack => 4,
        FrameType::Finish => 6,
        FrameType::PackLz4 => 8,
        FrameType::PackZstd => 9,
        FrameType::PackLzma => 10,
    }
}

impl FrameType {
    /// The type tag written on the wire.
    pub fn tag(&self) -> (r: u32)
        ensures
            r == spec_tag(*self),
    {
        match self {
            FrameType::Pack => 4,
            FrameType::Finish => 6,
            FrameType::PackLz4 => 8,
            FrameType::PackZstd => 9,
            FrameType::PackLzma => 10,
        }
    }

    /// The frame type with tag `tag`, if there is one.
    pub fn from_tag(tag: u32) -> (r: Option<FrameType>)
        ensures
            r matches Some(t) ==> spec_tag(t) == tag,
            r is None <==> (tag != 4 && tag != 6 && tag != 8 && tag != 9 && tag != 10),
    {
        match tag {
            4 => Some(FrameType::Pack),
            6 => Some(FrameType::Finish),
            8 => Some(FrameType::PackLz4),
            9 => Some(FrameType::PackZstd),
            10 => Some(FrameType::PackLzma),
            _ => None,
        }
    }
}

/// The 16 header bytes of a frame.
pub open spec fn header_bytes(t: FrameType, len: nat) -> Seq<u8> {
    le_bytes(MAGIC_FTX1 as nat, 4) + le_bytes(spec_tag(t) as nat, 4) + le_bytes(len, 8)
}

/// Encodes the header of a frame of type `t` with a payload of `len` bytes.
pub fn encode_frame_header(t: FrameType, len: u64) -> (r: Vec<u8>)
    ensures
        r@ == header_bytes(t, len as nat),
        r@.len() == FRAME_HEADER_LEN,
{
    let mut out: Vec<u8> = Vec::with_capacity(FRAME_HEADER_LEN);
    push_le(&mut out, MAGIC_FTX1 as u64, 4);
    push_le(&mut out, t.tag() as u64, 4);
    push_le(&mut out, len, 8);
    proof {
        lemma_le_bytes_len(MAGIC_FTX1 as nat, 4);
        lemma_le_bytes_len(spec_tag(t) as nat, 4);
        lemma_le_bytes_len(len as nat, 8);
    }
    assert(out@ =~= header_bytes(t, len as nat));
    out
}

/// Reads a frame header: its type and payload length, or `None` when the magic or
/// the type is wrong or fewer than 16 bytes are given.
pub fn decode_frame_header(b: &[u8]) -> (r: Option<(FrameType, u64)>)
    ensures
        r matches Some((t, len)) ==> b@.len() >= FRAME_HEADER_LEN && b@.subrange(0, 16) == header_bytes(t, len as nat),
        r is None ==> (b@.len() < FRAME_HEADER_LEN || forall|t: FrameType, len: u64| b@.subrange(0, 16) != #[trigger] header_bytes(t, len as nat)),
{
    if b.len() < FRAME_HEADER_LEN {
        return None;
    }
    let magic = read_le(b, 0, 4);
    let tag = read_le(b, 4, 4);
    let len = read_le(b, 8, 8);
    proof {
        lemma_pow256_values();
        lemma_le_bytes_len(MAGIC_FTX1 as nat, 4);
        crate::pack::lemma_le_value_bound(b@.subrange(4, 8));
        assert forall|t: FrameType, l: u64| b@.subrange(0, 16) == #[trigger] header_bytes(t, l as nat)
            implies magic == MAGIC_FTX1 && tag == spec_tag(t) && len == l by {
            let h = header_bytes(t, l as nat);
            lemma_le_bytes_len(spec_tag(t) as nat, 4);
            lemma_le_bytes_len(l as nat, 8);
            assert(b@.subrange(0, 4) =~= h.subrange(0, 4));
            assert(h.subrange(0, 4) =~= le_bytes(MAGIC_FTX1 as nat, 4));
            assert(b@.subrange(4, 8) =~= h.subrange(4, 8));
            assert(h.subrange(4, 8) =~= le_bytes(spec_tag(t) as nat, 4));
            assert(b@.subrange(8, 16) =~= h.subrange(8, 16));
            assert(h.subrange(8, 16) =~= le_bytes(l as nat, 8));
            lemma_le_round_trip(MAGIC_FTX1 as nat, 4);
            lemma_le_round_trip(spec_tag(t) as nat, 4);
            lemma_le_round_trip(l as nat, 8);
        }
    }
    if magic != MAGIC_FTX1 as u64 {
        return None;
    }
    match FrameType::from_tag(tag as u32) {
        None => None,
        Some(t) => {
            proof {
                lemma_le_round_trip(tag as nat, 4);
                lemma_le_round_trip(len as nat, 8);
                lemma_le_round_trip(magic as nat, 4);
                lemma_le_bytes_len(tag as nat, 4);
                lemma_le_bytes_len(len as nat, 8);
                crate::pack::lemma_le_value_bound(b@.subrange(0, 4));
                crate::pack::lemma_le_value_bound(b@.subrange(8, 16));
                lemma_le_value_injective(b@.subrange(0, 4), le_bytes(MAGIC_FTX1 as nat, 4));
                lemma_le_value_injective(b@.subrange(4, 8), le_bytes(tag as nat, 4));
                lemma_le_value_injective(b@.subrange(8, 16), le_bytes(len as nat, 8));
                assert(b@.subrange(0, 16) =~= b@.subrange(0, 4) + b@.subrange(4, 8) + b@.subrange(8, 16));
            }
            Some((t, len))
        }
    }
}

/// Two byte strings of the same length that denote the same number are equal.
pub proof fn lemma_le_value_injective(a: Seq<u8>, b: Seq<u8>)
    requires
        a.len() == b.len(),
        le_value(a) == le_value(b),
    ensures
        a == b,
    decreases a.len(),
{
    if a.len() > 0 {
        let ta = a.drop_first();
        let tb = b.drop_first();
        assert(le_value(a) == a[0] as nat + 256 * le_value(ta));
        assert(le_value(b) == b[0] as nat + 256 * le_value(tb));
        assert(a[0] == b[0] && le_value(ta) == le_value(tb)) by (nonlinear_arith)
            requires
                a[0] as nat + 256 * le_value(ta) == b[0] as nat + 256 * le_value(tb),
                a[0] < 256,
                b[0] < 256,
        ;
        lemma_le_value_injective(ta, tb);
        assert(a =~= seq![a[0]] + ta);
        assert(b =~= seq![b[0]] + tb);
    } else {
        assert(a =~= b);
    }
}

/// Where a slice of a payload that starts at `sent` ends.
pub fn chunk_end(sent: usize, len: usize) -> (r: usize)
    requires
        sent < len,
    ensures
        sent < r <= len,
        r == if len - sent < SEND_CHUNK_SIZE { len as int } else { sent + SEND_CHUNK_SIZE },
{
    if len - sent < SEND_CHUNK_SIZE {
        len
    } else {
        sent + SEND_CHUNK_SIZE
    }
}

/// The file bytes a partly written pack stands for: `bytes_in_pack` scaled by the
/// share `sent / len` of the payload written, rounded down.
pub fn approx_progress(bytes_in_pack: u64, sent: usize, len: usize) -> (r: u64)
    requires
        sent <= len,
    ensures
        len == 0 ==> r == 0,
        len > 0 ==> r as int == (bytes_in_pack as int * sent as int) / (len as int),
        r <= bytes_in_pack,
{
    if len == 0 {
        return 0;
    }
    assert((bytes_in_pack as int) * (sent as int) <= 340282366920938463463374607431768211455) by (nonlinear_arith)
        requires
            bytes_in_pack <= 18446744073709551615,
            sent <= 18446744073709551615,
    ;
    let prod: u128 = bytes_in_pack as u128 * sent as u128;
    let q: u128 = prod / len as u128;
    assert(q <= bytes_in_pack) by (nonlinear_arith)
        requires
            q == (bytes_in_pack as int * sent as int) / (len as int),
            sent <= len,
            len > 0,
    {
        assert(bytes_in_pack as int * sent as int <= bytes_in_pack as int * len as int);
    }
    q as u64
}

} // verus!
