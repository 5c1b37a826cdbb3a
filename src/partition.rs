//! Splitting a file list into size-balanced buckets, one per connection.
use vstd::prelude::*;
use crate::entry::{models, FileEntry, FileModel};

verus! {

/// Pairs in ascending tuple order.
pub open spec fn pairs_sorted(v: Seq<(u64, usize)>) -> bool {
    forall|i: int, j: int| 0 <= i < j < v.len() ==> #[trigger] v[i].0 < #[trigger] v[j].0 || (v[i].0 == v[j].0 && v[i].1 <= v[j].1)
}

/// Relies on `slice::sort_unstable`: the same pairs, in ascending tuple order.
#[verifier::external_body]
fn sort_pairs(v: &mut Vec<(u64, usize)>)
    ensures
        final(v)@.to_multiset() == old(v)@.to_multiset(),
        final(v)@.len() == old(v)@.len(),
        pairs_sorted(final(v)@),
{
    v.sort_unstable()
}

/// Total size of the files among the first `m` that are assigned to bucket `b`.
pub open spec fn load_upto(sizes: Seq<u64>, assign: Seq<usize>, b: int, m: nat) -> nat
    decreases m,
{
    if m == 0 {
        0
    } else {
        load_upto(sizes, assign, b, (m - 1) as nat) + if assign[m - 1] == b { sizes[m - 1] as nat } else { 0 }
    }
}

/// Total size of the files assigned to bucket `b`.
pub open spec fn bucket_load(sizes: Seq<u64>, assign: Seq<usize>, b: int) -> nat {
    load_upto(sizes, assign, b, sizes.len())
}

/// The largest file size (0 for no files).
pub open spec fn max_size(sizes: Seq<u64>) -> nat
    decreases sizes.len(),
{
    if sizes.len() == 0 {
        0
    } else {
        let m = max_size(sizes.drop_last());
        if sizes.last() as nat > m { sizes.last() as nat } else { m }
    }
}

proof fn lemma_max_size(sizes: Seq<u64>, i: int)
    requires
        0 <= i < sizes.len(),
    ensures
        sizes[i] as nat <= max_size(sizes),
    decreases sizes.len(),
{
    if i < sizes.len() - 1 {
        lemma_max_size(sizes.drop_last(), i);
    }
}

proof fn lemma_load_update(sizes: Seq<u64>, a: Seq<usize>, idx: int, t: usize, b: int, m: nat)
    requires
        a.len() == sizes.len(),
        m <= sizes.len(),
        0 <= idx < sizes.len(),
        a[idx] as int != b,
        a[idx] as int != t as int,
    ensures
        load_upto(sizes, a.update(idx, t), b, m) == load_upto(sizes, a, b, m) + if idx < m && t as int == b { sizes[idx] as nat } else { 0 },
    decreases m,
{
    if m > 0 {
        lemma_load_update(sizes, a, idx, t, b, (m - 1) as nat);
    }
}

proof fn lemma_load_zero(sizes: Seq<u64>, a: Seq<usize>, b: int, m: nat)
    requires
        m <= a.len(),
        forall|i: int| 0 <= i < m ==> a[i] as int != b,
    ensures
        load_upto(sizes, a, b, m) == 0,
    decreases m,
{
    if m > 0 {
        lemma_load_zero(sizes, a, b, (m - 1) as nat);
    }
}

/// The position of the first least value of `loads`.
fn lightest(loads: &Vec<u128>) -> (r: usize)
    requires
        loads@.len() > 0,
    ensures
        r < loads@.len(),
        forall|j: int| 0 <= j < loads@.len() ==> loads@[r as int] <= #[trigger] loads@[j],
{
    let mut best: usize = 0;
    let mut i: usize = 1;
    while i < loads.len()
        invariant
            1 <= i <= loads@.len(),
            best < i,
            forall|j: int| 0 <= j < i ==> loads@[best as int] <= #[trigger] loads@[j],
        decreases loads@.len() - i,
    {
        if loads[i] < loads[best] {
            best = i;
        }
        i = i + 1;
    }
    best
}

/// Greedy longest-first partition into `n` buckets: files are taken by descending
/// size (ties by ascending index) and each goes to the currently lightest bucket.
/// Returns the bucket of each file. Every file gets a bucket, and no bucket ends
/// up heavier than another by more than the largest file.
pub fn assign_buckets(sizes: &Vec<u64>, n: usize) -> (r: Vec<usize>)
    requires
        n >= 1,
        sizes@.len() < usize::MAX,
    ensures
        r@.len() == sizes@.len(),
        forall|i: int| 0 <= i < r@.len() ==> #[trigger] r@[i] < n,
        forall|b1: int, b2: int| 0 <= b1 < n && 0 <= b2 < n ==>
            #[trigger] bucket_load(sizes@, r@, b1) <= #[trigger] bucket_load(sizes@, r@, b2) + max_size(sizes@),
{
    broadcast use vstd::seq_lib::group_to_multiset_ensures;
    let len = sizes.len();
    let mut pairs: Vec<(u64, usize)> = Vec::with_capacity(len);
    let mut assign: Vec<usize> = Vec::with_capacity(len);
    let mut i: usize = 0;
    while i < len
        invariant
            i <= len,
            len == sizes@.len(),
            len < usize::MAX,
            pairs@.len() == i,
            assign@.len() == i,
            forall|j: int| 0 <= j < i ==> #[trigger] pairs@[j] == (sizes@[j], (usize::MAX - j) as usize),
            forall|j: int| 0 <= j < i ==> #[trigger] assign@[j] == n,
        decreases len - i,
    {
        pairs.push((sizes[i], usize::MAX - i));
        assign.push(n);
        i = i + 1;
    }
    let ghost unsorted = pairs@;
    sort_pairs(&mut pairs);
    proof {
        assert forall|j: int| 0 <= j < len implies pairs@.contains(#[trigger] unsorted[j]) by {
            assert(unsorted.contains(unsorted[j]));
            assert(unsorted.to_multiset().count(unsorted[j]) > 0);
        }
        assert forall|q: int| 0 <= q < len implies usize::MAX - (#[trigger] pairs@[q]).1 < len
            && pairs@[q].0 == sizes@[usize::MAX - pairs@[q].1] by {
            assert(pairs@.contains(pairs@[q]));
            assert(pairs@.to_multiset().count(pairs@[q]) > 0);
            assert(unsorted.contains(pairs@[q]));
        }
        assert forall|b: int| 0 <= b < n implies #[trigger] load_upto(sizes@, assign@, b, len as nat) == 0 by {
            lemma_load_zero(sizes@, assign@, b, len as nat);
        }
    }

    let mut loads: Vec<u128> = Vec::with_capacity(n);
    let mut b: usize = 0;
    while b < n
        invariant
            b <= n,
            loads@.len() == b,
            forall|x: int| 0 <= x < b ==> #[trigger] loads@[x] == 0,
        decreases n - b,
    {
        loads.push(0);
        b = b + 1;
    }

    let mut k: usize = len;
    while k > 0
        invariant
            k <= len,
            len == sizes@.len(),
            len < usize::MAX,
            pairs@.len() == len,
            assign@.len() == len,
            loads@.len() == n,
            n >= 1,
            unsorted.len() == len,
            forall|j: int| 0 <= j < len ==> pairs@.contains(#[trigger] unsorted[j]),
            forall|j: int| 0 <= j < len ==> #[trigger] unsorted[j] == (sizes@[j], (usize::MAX - j) as usize),
            forall|q: int| 0 <= q < len ==> usize::MAX - (#[trigger] pairs@[q]).1 < len
                && pairs@[q].0 == sizes@[usize::MAX - pairs@[q].1],
            forall|j: int| 0 <= j < len ==> #[trigger] assign@[j] <= n,
            forall|q: int| k <= q < len ==> #[trigger] assign@[usize::MAX - pairs@[q].1] < n,
            forall|x: int| 0 <= x < n ==> #[trigger] loads@[x] == bucket_load(sizes@, assign@, x),
            forall|x: int| 0 <= x < n ==> #[trigger] loads@[x] <= u64::MAX as int * (len - k),
            forall|x1: int, x2: int| 0 <= x1 < n && 0 <= x2 < n ==> #[trigger] loads@[x1] <= #[trigger] loads@[x2] + max_size(sizes@),
        decreases k,
    {
        let (size, tag) = pairs[k - 1];
        let idx = usize::MAX - tag;
        if assign[idx] == n {
            let target = lightest(&loads);
            assert(loads@[target as int] + size as int <= u64::MAX as int * (len - k + 1)) by (nonlinear_arith)
                requires
                    loads@[target as int] <= u64::MAX as int * (len - k),
                    size <= u64::MAX,
            ;
            assert(u64::MAX as int * (len - k + 1) <= 340282366920938463463374607431768211455) by (nonlinear_arith)
                requires
                    len - k + 1 <= len,
                    len < 18446744073709551616,
            ;
            let ghost old_assign = assign@;
            let ghost old_loads = loads@;
            let newload = loads[target] + size as u128;
            loads.set(target, newload);
            assign.set(idx, target);
            proof {
                lemma_max_size(sizes@, idx as int);
                assert forall|x: int| 0 <= x < n implies #[trigger] loads@[x] == bucket_load(sizes@, assign@, x) by {
                    lemma_load_update(sizes@, old_assign, idx as int, target, x, len as nat);
                }
                assert forall|x: int| 0 <= x < n implies #[trigger] loads@[x] <= u64::MAX as int * (len - (k - 1)) by {
                    assert(u64::MAX as int * (len - k) <= u64::MAX as int * (len - (k - 1))) by (nonlinear_arith)
                        requires k >= 1;
                }
                assert forall|x1: int, x2: int| 0 <= x1 < n && 0 <= x2 < n implies #[trigger] loads@[x1] <= #[trigger] loads@[x2] + max_size(sizes@) by {
                    assert(old_loads[target as int] <= old_loads[x2]);
                    assert(old_loads[target as int] <= old_loads[x1]);
                }
            }
        }
        k = k - 1;
    }
    proof {
        assert forall|i: int| 0 <= i < assign@.len() implies #[trigger] assign@[i] < n by {
            assert(pairs@.contains(unsorted[i]));
            let q = choose|q: int| 0 <= q < pairs@.len() && pairs@[q] == unsorted[i];
            assert(usize::MAX - pairs@[q].1 == i);
        }
        assert forall|b1: int, b2: int| 0 <= b1 < n && 0 <= b2 < n implies
            #[trigger] bucket_load(sizes@, assign@, b1) <= #[trigger] bucket_load(sizes@, assign@, b2) + max_size(sizes@) by {
            assert(loads@[b1] == bucket_load(sizes@, assign@, b1));
            assert(loads@[b2] == bucket_load(sizes@, assign@, b2));
            assert(loads@[b1] <= loads@[b2] + max_size(sizes@));
        }
    }
    assign
}

/// The sizes of the files.
pub open spec fn sizes_of(fs: Seq<FileEntry>) -> Seq<u64> {
    fs.map_values(|f: FileEntry| f.size)
}

/// The files assigned to bucket `b`, in input order.
pub open spec fn bucket_files(fs: Seq<FileModel>, assign: Seq<usize>, b: int, m: nat) -> Seq<FileModel>
    decreases m,
{
    if m == 0 {
        Seq::empty()
    } else {
        let prev = bucket_files(fs, assign, b, (m - 1) as nat);
        if assign[m - 1] == b { prev.push(fs[m - 1]) } else { prev }
    }
}

/// Splits the files into `n` buckets by `assign_buckets`; each bucket keeps the
/// files' input order. Returns the buckets and the bucket of each file.
pub fn partition_files_by_size(files: &Vec<FileEntry>, n: usize) -> (r: (Vec<Vec<FileEntry>>, Vec<usize>))
    requires
        n >= 1,
        files@.len() < usize::MAX,
    ensures
        r.0@.len() == n,
        r.1@.len() == files@.len(),
        forall|i: int| 0 <= i < r.1@.len() ==> #[trigger] r.1@[i] < n,
        forall|b: int| 0 <= b < n ==> models((#[trigger] r.0@[b])@) == bucket_files(models(files@), r.1@, b, files@.len() as nat),
        forall|b1: int, b2: int| 0 <= b1 < n && 0 <= b2 < n ==>
            #[trigger] bucket_load(sizes_of(files@), r.1@, b1) <= #[trigger] bucket_load(sizes_of(files@), r.1@, b2) + max_size(sizes_of(files@)),
{
    let len = files.len();
    let mut sizes: Vec<u64> = Vec::with_capacity(len);
    let mut i: usize = 0;
    while i < len
        invariant
            i <= len,
            len == files@.len(),
            sizes@ == sizes_of(files@).subrange(0, i as int),
        decreases len - i,
    {
        sizes.push(files[i].size);
        assert(sizes@ =~= sizes_of(files@).subrange(0, i + 1));
        i = i + 1;
    }
    assert(sizes@ =~= sizes_of(files@));
    let assign = assign_buckets(&sizes, n);
    let ghost fs = models(files@);
    let mut buckets: Vec<Vec<FileEntry>> = Vec::with_capacity(n);
    let mut b: usize = 0;
    while b < n
        invariant
            b <= n,
            len == files@.len(),
            assign@.len() == len,
            fs == models(files@),
            buckets@.len() == b,
            forall|x: int| 0 <= x < b ==> models((#[trigger] buckets@[x])@) == bucket_files(fs, assign@, x, len as nat),
        decreases n - b,
    {
        let mut bucket: Vec<FileEntry> = Vec::new();
        let mut j: usize = 0;
        while j < len
            invariant
                j <= len,
                len == files@.len(),
                assign@.len() == len,
                fs == models(files@),
                models(bucket@) == bucket_files(fs, assign@, b as int, j as nat),
            decreases len - j,
        {
            if assign[j] == b {
                let c = files[j].copy_entry();
                bucket.push(c);
                assert(models(bucket@) =~= bucket_files(fs, assign@, b as int, j as nat).push(fs[j as int]));
            }
            j = j + 1;
        }
        buckets.push(bucket);
        b = b + 1;
    }
    proof {
        let w = assign@;
        assert(sizes@ == sizes_of(files@));
    }
    (buckets, assign)
}

} // verus!
