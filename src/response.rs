//! The remote's end-of-upload line: `SUCCESS <files> <bytes>`, or a line that
//! starts with `ERROR`. Whitespace around and between the words is tolerated.
use vstd::prelude::*;
use vstd::string::StringSliceAdditionalSpecFns;

verus! {

/// Why an end-of-upload response was not a success.
#[derive(Debug, Clone, Copy, PartialEq, Eq, Structural)]
pub enum UploadResponseError {
    /// The remote reported a failure.
    Remote,
    /// The line is not a response.
    Malformed,
}

pub open spec fn is_ws(c: u8) -> bool {
    c == 0x20 || c == 0x09 || c == 0x0a || c == 0x0d
}

pub open spec fn is_digit(c: u8) -> bool {
    0x30 <= c <= 0x39
}

/// First position at or after `i` that is not whitespace, or the length.
pub open spec fn skip_ws(b: Seq<u8>, i: int) -> int
    decreases b.len() - i,
{
    if i >= b.len() || !is_ws(b[i]) { if i >= b.len() { b.len() as int } else { i } } else { skip_ws(b, i + 1) }
}

/// First position at or after `i` that is whitespace, or the length.
pub open spec fn word_end(b: Seq<u8>, i: int) -> int
    decreases b.len() - i,
{
    if i >= b.len() { b.len() as int } else if is_ws(b[i]) { i } else { word_end(b, i + 1) }
}

/// The number that a string of decimal digits denotes.
pub open spec fn dec_value(s: Seq<u8>) -> nat
    decreases s.len(),
{
    if s.len() == 0 { 0 } else { dec_value(s.drop_last()) * 10 + (s.last() - 0x30) as nat }
}

pub open spec fn all_digits(s: Seq<u8>) -> bool {
    s.len() > 0 && forall|k: int| 0 <= k < s.len() ==> is_digit(#[trigger] s[k])
}

/// A word that is a number fitting in a `u64`.
pub open spec fn number_word(s: Seq<u8>) -> bool {
    all_digits(s) && dec_value(s) <= u64::MAX
}

pub open spec fn success_word() -> Seq<u8> {
    seq![0x53u8, 0x55, 0x43, 0x43, 0x45, 0x53, 0x53]
}

pub open spec fn error_word() -> Seq<u8> {
    seq![0x45u8, 0x52, 0x52, 0x4f, 0x52]
}

/// What the response `b` says: the files and bytes received, or why not.
pub open spec fn response_spec(b: Seq<u8>) -> Result<(u64, u64), UploadResponseError> {
    let i0 = skip_ws(b, 0);
    let e0 = word_end(b, i0);
    let i1 = skip_ws(b, e0);
    let e1 = word_end(b, i1);
    let i2 = skip_ws(b, e1);
    let e2 = word_end(b, i2);
    if b.subrange(i0, e0) == success_word() {
        if number_word(b.subrange(i1, e1)) && number_word(b.subrange(i2, e2)) && skip_ws(b, e2) == b.len() {
            Ok((dec_value(b.subrange(i1, e1)) as u64, dec_value(b.subrange(i2, e2)) as u64))
        } else {
            Err(UploadResponseError::Malformed)
        }
    } else if e0 - i0 >= 5 && b.subrange(i0, i0 + 5) == error_word() {
        Err(UploadResponseError::Remote)
    } else {
        Err(UploadResponseError::Malformed)
    }
}

proof fn lemma_skip_ws(b: Seq<u8>, i: int)
    requires
        0 <= i <= b.len(),
    ensures
        i <= skip_ws(b, i) <= b.len(),
    decreases b.len() - i,
{
    if i < b.len() && is_ws(b[i]) {
        lemma_skip_ws(b, i + 1);
    }
}

proof fn lemma_word_end(b: Seq<u8>, i: int)
    requires
        0 <= i <= b.len(),
    ensures
        i <= word_end(b, i) <= b.len(),
    decreases b.len() - i,
{
    if i < b.len() && !is_ws(b[i]) {
        lemma_word_end(b, i + 1);
    }
}

fn is_ws_byte(c: u8) -> (r: bool)
    ensures
        r == is_ws(c),
{
    c == 0x20 || c == 0x09 || c == 0x0a || c == 0x0d
}

fn skip_ws_at(b: &[u8], i: usize) -> (r: usize)
    requires
        i <= b@.len(),
    ensures
        r == skip_ws(b@, i as int),
{
    let mut j = i;
    while j < b.len() && is_ws_byte(b[j])
        invariant
            i <= j <= b@.len(),
            skip_ws(b@, i as int) == skip_ws(b@, j as int),
        decreases b@.len() - j,
    {
        j = j + 1;
    }
    j
}

fn word_end_at(b: &[u8], i: usize) -> (r: usize)
    requires
        i <= b@.len(),
    ensures
        r == word_end(b@, i as int),
{
    let mut j = i;
    while j < b.len() && !is_ws_byte(b[j])
        invariant
            i <= j <= b@.len(),
            word_end(b@, i as int) == word_end(b@, j as int),
        decreases b@.len() - j,
    {
        j = j + 1;
    }
    j
}

/// The number written in `b[i..j]`, if it is all digits, not empty, and fits.
fn parse_number(b: &[u8], i: usize, j: usize) -> (r: Option<u64>)
    requires
        i <= j <= b@.len(),
    ensures
        r is Some <==> number_word(b@.subrange(i as int, j as int)),
        r matches Some(v) ==> v as nat == dec_value(b@.subrange(i as int, j as int)),
{
    if i == j {
        return None;
    }
    let mut acc: u64 = 0;
    let mut k = i;
    while k < j
        invariant
            i <= k <= j <= b@.len(),
            acc as nat == dec_value(b@.subrange(i as int, k as int)),
            all_digits(b@.subrange(i as int, k as int)) || k == i,
        decreases j - k,
    {
        let c = b[k];
        let ghost prefix = b@.subrange(i as int, k as int);
        let ghost next = b@.subrange(i as int, k + 1);
        assert(next.drop_last() =~= prefix);
        if !(0x30 <= c && c <= 0x39) {
            assert(!is_digit(b@.subrange(i as int, j as int)[k - i]));
            return None;
        }
        if acc > 1844674407370955161 || (acc == 1844674407370955161 && c > 0x35) {
            proof {
                if all_digits(b@.subrange(i as int, j as int)) {
                    lemma_dec_value_grows(b@.subrange(i as int, j as int), (k + 1 - i) as nat);
                    assert(b@.subrange(i as int, j as int).subrange(0, k + 1 - i) =~= next);
                }
            }
            return None;
        }
        acc = acc * 10 + (c - 0x30) as u64;
        k = k + 1;
        assert forall|q: int| 0 <= q < next.len() implies is_digit(#[trigger] next[q]) by {
            if q < prefix.len() {
                assert(next[q] == prefix[q]);
            }
        }
    }
    proof {
        let s = b@.subrange(i as int, j as int);
        assert(s.subrange(0, s.len() as int) =~= s);
    }
    Some(acc)
}

/// A number word keeps growing as digits are added: a too-large prefix means a too-large word.
proof fn lemma_dec_value_grows(s: Seq<u8>, m: nat)
    requires
        m <= s.len(),
        all_digits(s),
    ensures
        dec_value(s.subrange(0, m as int)) <= dec_value(s),
    decreases s.len() - m,
{
    if m < s.len() {
        lemma_dec_value_grows(s, m + 1);
        assert(s.subrange(0, (m + 1) as int).drop_last() =~= s.subrange(0, m as int));
    } else {
        assert(s.subrange(0, m as int) =~= s);
    }
}

fn bytes_equal(b: &[u8], i: usize, j: usize, w: &[u8]) -> (r: bool)
    requires
        i <= j <= b@.len(),
    ensures
        r == (b@.subrange(i as int, j as int) == w@),
{
    if j - i != w.len() {
        return false;
    }
    let mut k: usize = 0;
    while k < w.len()
        invariant
            j - i == w@.len(),
            i <= j <= b@.len(),
            k <= w@.len(),
            forall|q: int| 0 <= q < k ==> b@[i + q] == w@[q],
        decreases w@.len() - k,
    {
        if b[i + k] != w[k] {
            assert(b@.subrange(i as int, j as int)[k as int] != w@[k as int]);
            return false;
        }
        k = k + 1;
    }
    assert(b@.subrange(i as int, j as int) =~= w@);
    true
}

/// Reads the remote's end-of-upload response: `(files_received, bytes_received)`
/// on success; see `response_spec`.
pub fn parse_upload_response(text: &str) -> (r: Result<(u64, u64), UploadResponseError>)
    ensures
        r == response_spec(text.spec_bytes()),
{
    let b = text.as_bytes();
    let success: [u8; 7] = [0x53, 0x55, 0x43, 0x43, 0x45, 0x53, 0x53];
    let error: [u8; 5] = [0x45, 0x52, 0x52, 0x4f, 0x52];
    assert(success@ =~= success_word());
    assert(error@ =~= error_word());
    let i0 = skip_ws_at(b, 0);
    proof { lemma_skip_ws(b@, 0); }
    let e0 = word_end_at(b, i0);
    proof { lemma_word_end(b@, i0 as int); }
    let i1 = skip_ws_at(b, e0);
    proof { lemma_skip_ws(b@, e0 as int); }
    let e1 = word_end_at(b, i1);
    proof { lemma_word_end(b@, i1 as int); }
    let i2 = skip_ws_at(b, e1);
    proof { lemma_skip_ws(b@, e1 as int); }
    let e2 = word_end_at(b, i2);
    proof { lemma_word_end(b@, i2 as int); }
    if bytes_equal(b, i0, e0, &success) {
        let files = parse_number(b, i1, e1);
        let bytes = parse_number(b, i2, e2);
        let end = skip_ws_at(b, e2);
        match (files, bytes) {
            (Some(f), Some(n)) => {
                if end == b.len() { Ok((f, n)) } else { Err(UploadResponseError::Malformed) }
            },
            _ => Err(UploadResponseError::Malformed),
        }
    } else if e0 - i0 >= 5 && bytes_equal(b, i0, i0 + 5, &error) {
        Err(UploadResponseError::Remote)
    } else {
        Err(UploadResponseError::Malformed)
    }
}

} // verus!
