//! Small text helpers: byte counts for people, remote path joining, and the
//! string primitives they rest on.
use vstd::prelude::*;

verus! {

/// The decimal digit for `d < 10`.
pub open spec fn digit_char(d: nat) -> char {
    if d == 0 { '0' } else if d == 1 { '1' } else if d == 2 { '2' } else if d == 3 { '3' } else if d == 4 { '4' }
    else if d == 5 { '5' } else if d == 6 { '6' } else if d == 7 { '7' } else if d == 8 { '8' } else { '9' }
}

/// `n` in decimal, without leading zeros.
pub open spec fn dec_digits(n: nat) -> Seq<char>
    decreases n,
{
    if n < 10 {
        seq![digit_char(n)]
    } else {
        dec_digits(n / 10) + seq![digit_char(n % 10)]
    }
}

/// Relies on `u64`'s `Display` (through `to_string`): `n` in decimal.
#[verifier::external_body]
pub(crate) fn decimal(n: u64) -> (r: String)
    ensures
        r@ == dec_digits(n as nat),
{
    n.to_string()
}

/// The lower-case form of a string, as `str::to_lowercase` gives it.
pub uninterp spec fn lower_of(s: Seq<char>) -> Seq<char>;

/// Relies on `str::to_lowercase`: the result depends on the characters alone.
#[verifier::external_body]
pub(crate) fn lowercase(s: &str) -> (r: String)
    ensures
        r@ == lower_of(s@),
{
    s.to_lowercase()
}

/// `suffix` ends `s`.
pub open spec fn has_suffix(s: Seq<char>, suffix: Seq<char>) -> bool {
    suffix.len() <= s.len() && s.subrange(s.len() - suffix.len(), s.len() as int) == suffix
}

/// Relies on `str::ends_with` with a string pattern: whether `suffix` is a suffix of `s`.
#[verifier::external_body]
pub(crate) fn ends_with(s: &str, suffix: &str) -> (r: bool)
    ensures
        r == has_suffix(s@, suffix@),
{
    s.ends_with(suffix)
}

/// `a` and `b` hold the same characters.
pub(crate) fn same_text(a: &str, b: &str) -> (r: bool)
    ensures
        r == (a@ == b@),
{
    let x = String::from_str(a);
    let y = String::from_str(b);
    x == y
}

/// `name` under the remote directory `base`, with exactly the one `/` that
/// `base` may already end with.
pub fn join_remote_path(base: &str, name: &str) -> (r: String)
    ensures
        has_suffix(base@, "/"@) ==> r@ == base@ + name@,
        !has_suffix(base@, "/"@) ==> r@ == base@ + "/"@ + name@,
{
    let mut out = String::from_str(base);
    if !ends_with(base, "/") {
        out.append("/");
    }
    out.append(name);
    out
}

/// `x / unit` rounded to the nearest integer, ties to even.
pub open spec fn div_round_even(x: nat, unit: nat) -> nat
    recommends
        unit > 0,
{
    let q = x / unit;
    let rem = x % unit;
    if 2 * rem > unit || (2 * rem == unit && q % 2 == 1) { q + 1 } else { q }
}

/// `h` hundredths written with two decimals.
pub open spec fn hundredths_text(h: nat) -> Seq<char> {
    dec_digits(h / 100) + seq!['.'] + (if h % 100 < 10 { seq!['0'] } else { Seq::empty() }) + dec_digits(h % 100)
}

pub open spec fn format_bytes_spec(bytes: nat) -> Seq<char> {
    if bytes >= 1073741824 {
        hundredths_text(div_round_even(bytes * 100, 1073741824)) + " GB"@
    } else if bytes >= 1048576 {
        hundredths_text(div_round_even(bytes * 100, 1048576)) + " MB"@
    } else if bytes >= 1024 {
        hundredths_text(div_round_even(bytes * 100, 1024)) + " KB"@
    } else {
        dec_digits(bytes) + " B"@
    }
}

/// `x / unit`, rounded to the nearest integer with ties to even.
fn round_even(x: u128, unit: u128) -> (r: u128)
    requires
        0 < unit <= 1073741824,
        x < 10000000000000000000000,
    ensures
        r == div_round_even(x as nat, unit as nat),
{
    let q = x / unit;
    let rem = x % unit;
    if 2 * rem > unit || (2 * rem == unit && q % 2 == 1) { q + 1 } else { q }
}

/// `h` hundredths with two decimals, as in `12.05`.
fn hundredths(h: u128) -> (r: String)
    requires
        h / 100 <= u64::MAX,
    ensures
        r@ == hundredths_text(h as nat),
{
    let whole = (h / 100) as u64;
    let frac = (h % 100) as u64;
    let mut out = decimal(whole);
    out.append(".");
    if frac < 10 {
        out.append("0");
    }
    let f = decimal(frac);
    out.append(f.as_str());
    proof {
        reveal_strlit(".");
        reveal_strlit("0");
        assert(out@ =~= hundredths_text(h as nat));
    }
    out
}

/// A byte count for people: bytes below 1 KiB, else KiB, MiB or GiB with two
/// decimals (rounded to nearest, ties to even), as in `1.50 MB`.
pub fn format_bytes(bytes: u64) -> (r: String)
    ensures
        r@ == format_bytes_spec(bytes as nat),
{
    let x: u128 = bytes as u128 * 100;
    if bytes >= 1073741824 {
        let mut out = hundredths(round_even(x, 1073741824));
        out.append(" GB");
        out
    } else if bytes >= 1048576 {
        let mut out = hundredths(round_even(x, 1048576));
        out.append(" MB");
        out
    } else if bytes >= 1024 {
        let mut out = hundredths(round_even(x, 1024));
        out.append(" KB");
        out
    } else {
        let mut out = decimal(bytes);
        out.append(" B");
        out
    }
}

} // verus!
