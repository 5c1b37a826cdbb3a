//! Resume planning: which local files still have to be sent, given what the
//! destination already holds.
use vstd::prelude::*;
use crate::entry::{models, FileEntry, FileModel};
use vstd::string::StringSliceAdditionalSpecFns;

verus! {

/// How local files are compared with what the destination holds.
#[derive(Debug, Clone, Copy, PartialEq, Eq, Structural)]
pub enum ResumeMode {
    /// Send everything.
    Off,
    /// Skip a file whose remote size equals the local size.
    Size,
    /// Skip a file whose remote size and modification second both match.
    SizeMtime,
    /// Skip a file whose remote size matches and whose content hashes match.
    Sha256,
}

/// One file of the remote listing.
#[derive(Debug, Clone)]
pub struct RemoteFile {
    pub rel_path: String,
    pub size: u64,
    pub mtime: Option<i64>,
}

/// The size and modification time of the first remote file at path `p`.
pub open spec fn remote_lookup(inv: Seq<RemoteFile>, p: Seq<char>) -> Option<(u64, Option<i64>)>
    decreases inv.len(),
{
    if inv.len() == 0 {
        None
    } else if inv[0].rel_path@ == p {
        Some((inv[0].size, inv[0].mtime))
    } else {
        remote_lookup(inv.drop_first(), p)
    }
}

/// Whether a local file is skipped: there is a remote file at its path and it
/// matches under `mode`. `hash_match` says whether the content hashes agreed; it
/// matters only for `Sha256`.
pub open spec fn skip_spec(mode: ResumeMode, f: FileModel, remote: Option<(u64, Option<i64>)>, hash_match: bool) -> bool {
    match remote {
        None => false,
        Some((size, mtime)) => match mode {
            ResumeMode::Off => false,
            ResumeMode::Size => size == f.size,
            ResumeMode::SizeMtime => size == f.size && mtime is Some && f.mtime is Some && mtime == f.mtime,
            ResumeMode::Sha256 => size == f.size && hash_match,
        },
    }
}

/// The files among the first `n` that are kept, in order.
pub open spec fn kept_upto(mode: ResumeMode, fs: Seq<FileModel>, inv: Seq<RemoteFile>, hm: Seq<bool>, n: nat) -> Seq<FileModel>
    decreases n,
{
    if n == 0 {
        Seq::empty()
    } else {
        let prev = kept_upto(mode, fs, inv, hm, (n - 1) as nat);
        let f = fs[n - 1];
        if skip_spec(mode, f, remote_lookup(inv, f.rel_path), hm[n - 1]) {
            prev
        } else {
            prev.push(f)
        }
    }
}

/// Count and total size of the files among the first `n` that are skipped.
pub open spec fn skipped_upto(mode: ResumeMode, fs: Seq<FileModel>, inv: Seq<RemoteFile>, hm: Seq<bool>, n: nat) -> (nat, nat)
    decreases n,
{
    if n == 0 {
        (0, 0)
    } else {
        let prev = skipped_upto(mode, fs, inv, hm, (n - 1) as nat);
        let f = fs[n - 1];
        if skip_spec(mode, f, remote_lookup(inv, f.rel_path), hm[n - 1]) {
            (prev.0 + 1, prev.1 + f.size as nat)
        } else {
            prev
        }
    }
}

/// The outcome of resume planning.
pub struct ResumePlan {
    pub kept: Vec<FileEntry>,
    pub skipped_files: u64,
    /// Bytes of the skipped files, saturating at `u64::MAX`.
    pub skipped_bytes: u64,
}

/// Index of the first remote file at path `p`.
pub fn find_remote(inv: &Vec<RemoteFile>, p: &String) -> (r: Option<usize>)
    ensures
        r is None ==> remote_lookup(inv@, p@) is None,
        r matches Some(i) ==> i < inv@.len() && remote_lookup(inv@, p@) == Some((inv@[i as int].size, inv@[i as int].mtime)),
{
    let mut i: usize = 0;
    assert(inv@.subrange(0, inv@.len() as int) =~= inv@);
    while i < inv.len()
        invariant
            i <= inv@.len(),
            remote_lookup(inv@, p@) == remote_lookup(inv@.subrange(i as int, inv@.len() as int), p@),
        decreases inv@.len() - i,
    {
        let ghost rest = inv@.subrange(i as int, inv@.len() as int);
        assert(rest.drop_first() =~= inv@.subrange(i + 1, inv@.len() as int));
        if inv[i].rel_path == *p {
            return Some(i);
        }
        i = i + 1;
    }
    None
}

/// ASCII letters folded to lower case; other bytes unchanged.
pub open spec fn ascii_lower(c: u8) -> u8 {
    if 0x41 <= c <= 0x5a { (c + 0x20) as u8 } else { c }
}

/// Two hex digests agree when they are equal up to ASCII case.
pub open spec fn digests_agree(a: Seq<u8>, b: Seq<u8>) -> bool {
    a.len() == b.len() && forall|i: int| 0 <= i < a.len() ==> ascii_lower(#[trigger] a[i]) == ascii_lower(b[i])
}

/// Whether a local and a remote content digest (hex text) agree, ignoring ASCII case.
pub fn hashes_match(local: &str, remote: &str) -> (r: bool)
    ensures
        r == digests_agree(local.spec_bytes(), remote.spec_bytes()),
{
    let a = local.as_bytes();
    let b = remote.as_bytes();
    if a.len() != b.len() {
        return false;
    }
    let mut i: usize = 0;
    while i < a.len()
        invariant
            a@ == local.spec_bytes(),
            b@ == remote.spec_bytes(),
            a@.len() == b@.len(),
            i <= a@.len(),
            forall|k: int| 0 <= k < i ==> ascii_lower(#[trigger] a@[k]) == ascii_lower(b@[k]),
        decreases a@.len() - i,
    {
        let x = if 0x41 <= a[i] && a[i] <= 0x5a { a[i] + 0x20 } else { a[i] };
        let y = if 0x41 <= b[i] && b[i] <= 0x5a { b[i] + 0x20 } else { b[i] };
        assert(x == ascii_lower(a@[i as int]));
        assert(y == ascii_lower(b@[i as int]));
        if x != y {
            return false;
        }
        i = i + 1;
    }
    true
}

/// Whether the file needs its content hashed before it can be judged: only in
/// `Sha256` mode, and only when a remote file of the same size is at its path.
pub fn needs_hash(mode: ResumeMode, f: &FileEntry, inv: &Vec<RemoteFile>) -> (r: bool)
    ensures
        r == (mode == ResumeMode::Sha256 && match remote_lookup(inv@, f.rel_path@) {
            Some((size, _)) => size == f.size,
            None => false,
        }),
{
    match mode {
        ResumeMode::Sha256 => match find_remote(inv, &f.rel_path) {
            Some(i) => inv[i].size == f.size,
            None => false,
        },
        _ => false,
    }
}

/// Whether the file is skipped; see `skip_spec`.
pub fn should_skip(mode: ResumeMode, f: &FileEntry, inv: &Vec<RemoteFile>, hash_match: bool) -> (r: bool)
    ensures
        r == skip_spec(mode, f@, remote_lookup(inv@, f.rel_path@), hash_match),
{
    match find_remote(inv, &f.rel_path) {
        None => false,
        Some(i) => {
            let size = inv[i].size;
            let mtime = inv[i].mtime;
            match mode {
                ResumeMode::Off => false,
                ResumeMode::Size => size == f.size,
                ResumeMode::SizeMtime => {
                    size == f.size && match (mtime, f.mtime) {
                        (Some(rm), Some(lm)) => rm == lm,
                        _ => false,
                    }
                },
                ResumeMode::Sha256 => size == f.size && hash_match,
            }
        },
    }
}

/// Splits the local files into those still to send and those the destination
/// already has. `hash_matches[i]` says whether file `i`'s content hash agreed
/// with the remote one (see `needs_hash`).
pub fn plan_resume(mode: ResumeMode, files: &Vec<FileEntry>, inv: &Vec<RemoteFile>, hash_matches: &Vec<bool>) -> (r: ResumePlan)
    requires
        hash_matches@.len() == files@.len(),
    ensures
        models(r.kept@) == kept_upto(mode, models(files@), inv@, hash_matches@, files@.len() as nat),
        r.skipped_files as nat == skipped_upto(mode, models(files@), inv@, hash_matches@, files@.len() as nat).0,
        r.skipped_bytes as nat == if skipped_upto(mode, models(files@), inv@, hash_matches@, files@.len() as nat).1 > u64::MAX {
            u64::MAX as nat
        } else {
            skipped_upto(mode, models(files@), inv@, hash_matches@, files@.len() as nat).1
        },
{
    let ghost fs = models(files@);
    let mut kept: Vec<FileEntry> = Vec::new();
    let mut skipped_files: u64 = 0;
    let mut skipped_bytes: u64 = 0;
    let mut i: usize = 0;
    while i < files.len()
        invariant
            i <= files@.len(),
            hash_matches@.len() == files@.len(),
            fs == models(files@),
            models(kept@) == kept_upto(mode, fs, inv@, hash_matches@, i as nat),
            skipped_files as nat == skipped_upto(mode, fs, inv@, hash_matches@, i as nat).0,
            skipped_files as nat <= i,
            skipped_bytes as nat == if skipped_upto(mode, fs, inv@, hash_matches@, i as nat).1 > u64::MAX {
                u64::MAX as nat
            } else {
                skipped_upto(mode, fs, inv@, hash_matches@, i as nat).1
            },
        decreases files@.len() - i,
    {
        let f = &files[i];
        assert(fs[i as int] == f@);
        if should_skip(mode, f, inv, hash_matches[i]) {
            skipped_files = skipped_files + 1;
            skipped_bytes = skipped_bytes.saturating_add(f.size);
        } else {
            let c = f.copy_entry();
            kept.push(c);
            assert(models(kept@) =~= kept_upto(mode, fs, inv@, hash_matches@, i as nat).push(f@));
        }
        i = i + 1;
    }
    ResumePlan { kept, skipped_files, skipped_bytes }
}

/// In `Size` mode every kept file either has no remote counterpart or differs
/// from it in size.
pub proof fn lemma_size_mode_kept(fs: Seq<FileModel>, inv: Seq<RemoteFile>, hm: Seq<bool>, n: nat)
    requires
        n <= fs.len(),
        hm.len() == fs.len(),
    ensures
        forall|k: int| 0 <= k < kept_upto(ResumeMode::Size, fs, inv, hm, n).len() ==> {
            let f = #[trigger] kept_upto(ResumeMode::Size, fs, inv, hm, n)[k];
            match remote_lookup(inv, f.rel_path) {
                None => true,
                Some((size, _)) => size != f.size,
            }
        },
    decreases n,
{
    if n > 0 {
        lemma_size_mode_kept(fs, inv, hm, (n - 1) as nat);
        let prev = kept_upto(ResumeMode::Size, fs, inv, hm, (n - 1) as nat);
        let cur = kept_upto(ResumeMode::Size, fs, inv, hm, n);
        assert forall|k: int| 0 <= k < cur.len() implies {
            let f = #[trigger] cur[k];
            match remote_lookup(inv, f.rel_path) {
                None => true,
                Some((size, _)) => size != f.size,
            }
        } by {
            if k < prev.len() {
                assert(cur[k] == prev[k]);
            }
        }
    }
}

} // verus!
