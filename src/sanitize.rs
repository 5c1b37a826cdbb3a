//! Archive entry paths: normalising them and refusing those that would leave the
//! destination directory.
use vstd::prelude::*;
use vstd::string::StringSliceAdditionalSpecFns;
use vstd::utf8::{
    encode_utf8, encode_utf8_valid_utf8, is_char_boundary_iff_not_is_continuation_byte,
    is_char_boundary_start_end_of_seq, valid_utf8, valid_utf8_concat, valid_utf8_split,
};
use crate::pack::append_bytes;

verus! {

/// Why an archive path was refused.
#[derive(Debug, Clone, Copy, PartialEq, Eq, Structural)]
pub enum ArchivePathError {
    /// A `..` component, a root, or a drive prefix.
    Unsafe,
    /// Nothing is left once `.` and empty components are dropped.
    Empty,
}

impl ArchivePathError {
    /// The message shown for this error.
    pub fn message(&self) -> (r: String)
        ensures
            *self == ArchivePathError::Unsafe ==> r@ == "Unsafe path in archive"@,
            *self == ArchivePathError::Empty ==> r@ == "Empty path in archive"@,
    {
        match self {
            ArchivePathError::Unsafe => String::from_str("Unsafe path in archive"),
            ArchivePathError::Empty => String::from_str("Empty path in archive"),
        }
    }
}

pub open spec fn is_sep(c: u8) -> bool {
    c == 0x2f || c == 0x5c
}

pub open spec fn is_dot(s: Seq<u8>) -> bool {
    s == seq![0x2eu8]
}

pub open spec fn is_dot_dot(s: Seq<u8>) -> bool {
    s == seq![0x2eu8, 0x2eu8]
}

/// A Windows drive prefix such as `C:`.
pub open spec fn is_drive(s: Seq<u8>) -> bool {
    s.len() >= 2 && s[1] == 0x3a && ((0x41 <= s[0] <= 0x5a) || (0x61 <= s[0] <= 0x7a))
}

/// The state of a left-to-right scan: what is kept so far, or the refusal.
pub type ScanState = Result<Seq<u8>, ArchivePathError>;

/// Takes in the component `seg`, which starts at `start` in the input; `more`
/// says whether a separator follows it.
pub open spec fn take_component(st: ScanState, seg: Seq<u8>, start: int, more: bool) -> ScanState {
    match st {
        Err(e) => Err(e),
        Ok(out) => {
            if seg.len() == 0 {
                if start == 0 && more { Err(ArchivePathError::Unsafe) } else { Ok(out) }
            } else if is_dot(seg) {
                Ok(out)
            } else if is_dot_dot(seg) {
                Err(ArchivePathError::Unsafe)
            } else if start == 0 && is_drive(seg) {
                Err(ArchivePathError::Unsafe)
            } else if out.len() == 0 {
                Ok(seg)
            } else {
                Ok(out + seq![0x2fu8] + seg)
            }
        },
    }
}

/// Position of the first separator at or after `from`, or the length.
pub open spec fn next_sep(b: Seq<u8>, from: int) -> int
    decreases b.len() - from,
{
    if from >= b.len() {
        b.len() as int
    } else if is_sep(b[from]) {
        from
    } else {
        next_sep(b, from + 1)
    }
}

/// Scans the components that start at or after `from` (a component start).
pub open spec fn scan_from(b: Seq<u8>, from: int, st: ScanState) -> ScanState
    decreases b.len() - from,
    when 0 <= from <= b.len()
    via scan_from_decreases
{
    let end = next_sep(b, from);
    let st2 = take_component(st, b.subrange(from, end), from, end < b.len());
    if end >= b.len() {
        st2
    } else {
        scan_from(b, end + 1, st2)
    }
}

#[via_fn]
proof fn scan_from_decreases(b: Seq<u8>, from: int, st: ScanState) {
    lemma_next_sep(b, from);
}

/// The sanitised form of an archive path: `\` and `/` both separate components,
/// empty and `.` components are dropped, and a leading separator, a `..`
/// component or a leading drive prefix refuses the path (as unsafe), as does a path with no
/// component left. Components are joined with `/`.
pub open spec fn sanitized(b: Seq<u8>) -> ScanState {
    match scan_from(b, 0, Ok(Seq::empty())) {
        Ok(out) => if out.len() == 0 { Err(ArchivePathError::Empty) } else { Ok(out) },
        Err(e) => Err(e),
    }
}

/// `s[i..j]` is a whole component of `s`.
pub open spec fn is_component(s: Seq<u8>, i: int, j: int) -> bool {
    &&& 0 <= i <= j <= s.len()
    &&& (i == 0 || s[i - 1] == 0x2f)
    &&& (j == s.len() || s[j] == 0x2f)
    &&& forall|k: int| i <= k < j ==> s[k] != 0x2f
}

/// A path that stays inside the directory it is joined to: relative, with only
/// ordinary components, each of them non-empty and neither `.` nor `..`.
pub open spec fn safe_relative(s: Seq<u8>) -> bool {
    &&& s.len() > 0
    &&& forall|k: int| 0 <= k < s.len() ==> s[k] != 0x5c
    &&& forall|i: int, j: int| #[trigger] is_component(s, i, j) ==> i < j && !is_dot(s.subrange(i, j)) && !is_dot_dot(s.subrange(i, j))
}

proof fn lemma_next_sep(b: Seq<u8>, from: int)
    requires
        0 <= from <= b.len(),
    ensures
        from <= next_sep(b, from) <= b.len(),
        next_sep(b, from) < b.len() ==> is_sep(b[next_sep(b, from)]),
        forall|k: int| from <= k < next_sep(b, from) ==> !is_sep(b[k]),
    decreases b.len() - from,
{
    if from < b.len() && !is_sep(b[from]) {
        lemma_next_sep(b, from + 1);
    }
}

/// Appending a good component to a safe path (or starting one) keeps it safe.
proof fn lemma_safe_extend(out: Seq<u8>, seg: Seq<u8>)
    requires
        out.len() == 0 || safe_relative(out),
        seg.len() > 0,
        !is_dot(seg),
        !is_dot_dot(seg),
        forall|k: int| 0 <= k < seg.len() ==> !is_sep(seg[k]),
    ensures
        safe_relative(if out.len() == 0 { seg } else { out + seq![0x2fu8] + seg }),
{
    if out.len() == 0 {
        assert forall|i: int, j: int| #[trigger] is_component(seg, i, j) implies i < j && !is_dot(seg.subrange(i, j)) && !is_dot_dot(seg.subrange(i, j)) by {
            assert(i == 0) by {
                if i > 0 {
                    assert(seg[i - 1] == 0x2f);
                }
            }
            assert(j == seg.len()) by {
                if j < seg.len() {
                    assert(seg[j] == 0x2f);
                }
            }
            assert(seg.subrange(i, j) =~= seg);
        }
    } else {
        let s = out + seq![0x2fu8] + seg;
        let m = out.len() as int;
        assert forall|k: int| 0 <= k < s.len() implies s[k] != 0x5c by {
            if k < m {
                assert(s[k] == out[k]);
            } else if k > m {
                assert(s[k] == seg[k - m - 1]);
            }
        }
        assert forall|i: int, j: int| #[trigger] is_component(s, i, j) implies i < j && !is_dot(s.subrange(i, j)) && !is_dot_dot(s.subrange(i, j)) by {
            if i <= m {
                assert(j <= m) by {
                    if j > m {
                        assert(s[m] == 0x2f);
                    }
                }
                assert forall|k: int| i <= k < j implies out[k] != 0x2f by {
                    assert(s[k] == out[k]);
                }
                if i > 0 {
                    assert(out[i - 1] == s[i - 1]);
                }
                if j < m {
                    assert(out[j] == s[j]);
                }
                assert(is_component(out, i, j));
                assert(s.subrange(i, j) =~= out.subrange(i, j));
            } else {
                assert(i == m + 1) by {
                    if i > m + 1 {
                        assert(s[i - 1] == seg[i - 1 - m - 1]);
                    }
                }
                assert(j == s.len()) by {
                    if j < s.len() {
                        assert(s[j] == seg[j - m - 1]);
                    }
                }
                assert(s.subrange(i, j) =~= seg);
            }
        }
    }
}

/// Components taken in keep the path safe.
proof fn lemma_take_component_safe(st: ScanState, seg: Seq<u8>, start: int, more: bool)
    requires
        st matches Ok(out) ==> out.len() == 0 || safe_relative(out),
        forall|k: int| 0 <= k < seg.len() ==> !is_sep(seg[k]),
    ensures
        take_component(st, seg, start, more) matches Ok(out) ==> out.len() == 0 || safe_relative(out),
{
    if let Ok(out) = st {
        if seg.len() > 0 && !is_dot(seg) && !is_dot_dot(seg) && !(start == 0 && is_drive(seg)) {
            lemma_safe_extend(out, seg);
        }
    }
}

proof fn lemma_scan_safe(b: Seq<u8>, from: int, st: ScanState)
    requires
        0 <= from <= b.len(),
        st matches Ok(out) ==> out.len() == 0 || safe_relative(out),
    ensures
        scan_from(b, from, st) matches Ok(out) ==> out.len() == 0 || safe_relative(out),
    decreases b.len() - from,
{
    let end = next_sep(b, from);
    lemma_next_sep(b, from);
    let seg = b.subrange(from, end);
    assert forall|k: int| 0 <= k < seg.len() implies !is_sep(seg[k]) by {
        assert(seg[k] == b[from + k]);
    }
    lemma_take_component_safe(st, seg, from, end < b.len());
    if end < b.len() {
        lemma_scan_safe(b, end + 1, take_component(st, seg, from, true));
    }
}

/// Every path that sanitising accepts is relative and made only of ordinary
/// components, so joined to the destination root it stays inside it.
pub proof fn lemma_sanitized_is_safe(b: Seq<u8>)
    ensures
        sanitized(b) matches Ok(out) ==> safe_relative(out),
{
    lemma_scan_safe(b, 0, Ok(Seq::empty()));
}

proof fn lemma_sep_valid()
    ensures
        valid_utf8(seq![0x2fu8]),
{
    let t = seq![0x2fu8];
    assert(t.subrange(1, 1) =~= Seq::<u8>::empty());
    reveal_with_fuel(valid_utf8, 2);
}

proof fn lemma_ascii_first(t: Seq<u8>)
    requires
        valid_utf8(t),
        t.len() > 0,
        t[0] <= 0x7f,
    ensures
        valid_utf8(t.subrange(1, t.len() as int)),
{
    reveal_with_fuel(valid_utf8, 1);
}

/// The component that starts at `from` is valid text when the rest of the input
/// from `from` is; so is what follows its separator.
proof fn lemma_component_valid(b: Seq<u8>, from: int)
    requires
        0 <= from <= b.len(),
        valid_utf8(b.subrange(from, b.len() as int)),
    ensures
        valid_utf8(b.subrange(from, next_sep(b, from))),
        next_sep(b, from) < b.len() ==> valid_utf8(b.subrange(next_sep(b, from) + 1, b.len() as int)),
{
    lemma_next_sep(b, from);
    let t = b.subrange(from, b.len() as int);
    let end = next_sep(b, from);
    let e = end - from;
    if e < t.len() {
        assert(t[e] == b[end]);
        is_char_boundary_iff_not_is_continuation_byte(t, e);
    } else {
        is_char_boundary_start_end_of_seq(t);
    }
    valid_utf8_split(t, e);
    assert(t.subrange(0, e) =~= b.subrange(from, end));
    if end < b.len() {
        let u = t.subrange(e, t.len() as int);
        assert(u =~= b.subrange(end, b.len() as int));
        assert(u[0] == b[end]);
        lemma_ascii_first(u);
        assert(u.subrange(1, u.len() as int) =~= b.subrange(end + 1, b.len() as int));
    }
}

proof fn lemma_scan_valid(b: Seq<u8>, from: int, st: ScanState)
    requires
        0 <= from <= b.len(),
        valid_utf8(b.subrange(from, b.len() as int)),
        st matches Ok(out) ==> valid_utf8(out),
    ensures
        scan_from(b, from, st) matches Ok(out) ==> valid_utf8(out),
    decreases b.len() - from,
{
    let end = next_sep(b, from);
    lemma_next_sep(b, from);
    lemma_component_valid(b, from);
    let seg = b.subrange(from, end);
    let st2 = take_component(st, seg, from, end < b.len());
    if let Ok(out) = st {
        lemma_sep_valid();
        valid_utf8_concat(out, seq![0x2fu8]);
        valid_utf8_concat(out + seq![0x2fu8], seg);
    }
    if end < b.len() {
        lemma_scan_valid(b, end + 1, st2);
    }
}

/// What sanitising accepts from valid text is valid text.
pub proof fn lemma_sanitized_is_text(b: Seq<u8>)
    requires
        valid_utf8(b),
    ensures
        sanitized(b) matches Ok(out) ==> valid_utf8(out),
{
    assert(b.subrange(0, b.len() as int) =~= b);
    reveal_with_fuel(valid_utf8, 1);
    lemma_scan_valid(b, 0, Ok(Seq::empty()));
}

/// Whether `b[i..j]` is `.`, `..`, or a drive prefix.
fn seg_kind(b: &[u8], i: usize, j: usize) -> (r: (bool, bool, bool))
    requires
        i <= j <= b@.len(),
    ensures
        r.0 == is_dot(b@.subrange(i as int, j as int)),
        r.1 == is_dot_dot(b@.subrange(i as int, j as int)),
        r.2 == is_drive(b@.subrange(i as int, j as int)),
{
    let ghost seg = b@.subrange(i as int, j as int);
    let len = j - i;
    let dot = len == 1 && b[i] == 0x2e;
    let dot_dot = len == 2 && b[i] == 0x2e && b[i + 1] == 0x2e;
    let drive = len >= 2 && b[i + 1] == 0x3a && ((0x41 <= b[i] && b[i] <= 0x5a) || (0x61 <= b[i] && b[i] <= 0x7a));
    proof {
        if seg.len() == 1 && seg[0] == 0x2e {
            assert(seg =~= seq![0x2eu8]);
        }
        if seg.len() == 2 && seg[0] == 0x2e && seg[1] == 0x2e {
            assert(seg =~= seq![0x2eu8, 0x2eu8]);
        }
        if len >= 1 {
            assert(seg[0] == b@[i as int]);
        }
        if len >= 2 {
            assert(seg[1] == b@[i + 1]);
        }
    }
    (dot, dot_dot, drive)
}

/// Sanitises the bytes of an archive path; see `sanitized`.
pub fn sanitize_path_bytes(b: &[u8]) -> (r: Result<Vec<u8>, ArchivePathError>)
    ensures
        match (r, sanitized(b@)) {
            (Ok(v), Ok(s)) => v@ == s,
            (Err(e1), Err(e2)) => e1 == e2,
            _ => false,
        },
{
    let n = b.len();
    let mut out: Vec<u8> = Vec::new();
    let mut start: usize = 0;
    let ghost mut st: ScanState = Ok(Seq::<u8>::empty());
    loop
        invariant
            n == b@.len(),
            start <= n,
            st == Ok::<Seq<u8>, ArchivePathError>(out@),
            scan_from(b@, 0, Ok(Seq::empty())) == scan_from(b@, start as int, st),
        decreases n - start,
    {
        let mut end: usize = start;
        while end < n && !(b[end] == 0x2f || b[end] == 0x5c)
            invariant
                start <= end <= n,
                n == b@.len(),
                forall|k: int| start <= k < end ==> !is_sep(b@[k]),
            decreases n - end,
        {
            end = end + 1;
        }
        proof {
            lemma_next_sep(b@, start as int);
            lemma_next_sep_is(b@, start as int, end as int);
        }
        let ghost seg = b@.subrange(start as int, end as int);
        let ghost st2 = take_component(st, seg, start as int, end < n);
        let ghost old_out = out@;
        proof {
            assert(scan_from(b@, start as int, st) == if end >= n { st2 } else { scan_from(b@, end + 1, st2) });
            if end < n {
                lemma_scan_err(b@, end + 1, st2);
            }
        }
        let (dot, dot_dot, drive) = seg_kind(b, start, end);
        if end == start {
            if start == 0 && end < n {
                return Err(ArchivePathError::Unsafe);
            }
        } else if dot {
        } else if dot_dot {
            return Err(ArchivePathError::Unsafe);
        } else if start == 0 && drive {
            return Err(ArchivePathError::Unsafe);
        } else {
            if out.len() > 0 {
                out.push(0x2f);
            }
            append_bytes(&mut out, &b[start..end]);
            assert(old_out.len() == 0 ==> out@ =~= seg);
            assert(old_out.len() > 0 ==> out@ =~= old_out + seq![0x2fu8] + seg);
        }
        assert(st2 == Ok::<Seq<u8>, ArchivePathError>(out@));
        if end >= n {
            if out.len() == 0 {
                return Err(ArchivePathError::Empty);
            }
            return Ok(out);
        }
        proof {
            st = st2;
        }
        start = end + 1;
    }
}

proof fn lemma_scan_err(b: Seq<u8>, from: int, st: ScanState)
    requires
        0 <= from <= b.len(),
    ensures
        st matches Err(e) ==> scan_from(b, from, st) == st,
    decreases b.len() - from,
{
    lemma_next_sep(b, from);
    let end = next_sep(b, from);
    if end < b.len() {
        lemma_scan_err(b, end + 1, take_component(st, b.subrange(from, end), from, true));
    }
}

proof fn lemma_next_sep_is(b: Seq<u8>, from: int, end: int)
    requires
        0 <= from <= end <= b.len(),
        end == b.len() || is_sep(b[end]),
        forall|k: int| from <= k < end ==> !is_sep(b[k]),
    ensures
        next_sep(b, from) == end,
    decreases end - from,
{
    if from < end {
        lemma_next_sep_is(b, from + 1, end);
    }
}

/// Relies on `String::from_utf8`: the string whose UTF-8 encoding is `v`, or
/// `None` when `v` is not valid UTF-8.
#[verifier::external_body]
fn string_from_utf8(v: Vec<u8>) -> (r: Option<String>)
    ensures
        r matches Some(s) ==> encode_utf8(s@) == v@,
        r is None <==> !valid_utf8(v@),
{
    String::from_utf8(v).ok()
}

/// Sanitises an archive entry path (see `sanitized`). An accepted path is safe to
/// join to the destination root.
pub fn sanitize_archive_rel_path(rel: &str) -> (r: Result<String, ArchivePathError>)
    ensures
        r matches Ok(s) ==> sanitized(rel.spec_bytes()) == Ok::<Seq<u8>, ArchivePathError>(encode_utf8(s@)) && safe_relative(encode_utf8(s@)),
        r matches Err(e) ==> sanitized(rel.spec_bytes()) == Err::<Seq<u8>, ArchivePathError>(e),
        sanitized(rel.spec_bytes()) is Ok ==> r is Ok,
{
    proof {
        lemma_sanitized_is_safe(rel.spec_bytes());
        encode_utf8_valid_utf8(rel@);
        lemma_sanitized_is_text(rel.spec_bytes());
    }
    match sanitize_path_bytes(rel.as_bytes()) {
        Err(e) => Err(e),
        Ok(v) => match string_from_utf8(v) {
            Some(s) => Ok(s),
            None => Err(ArchivePathError::Unsafe),
        },
    }
}

} // verus!
