use vstd::prelude::*;
use std::collections::HashMap;
use crate::key::FileInfo;

verus! {

broadcast use vstd::std_specs::hash::group_hash_axioms;

/// The files of `fs` whose size is `s`, in their order in `fs`.
pub open spec fn with_size(fs: Seq<FileInfo>, s: u64) -> Seq<FileInfo>
    decreases fs.len(),
{
    if fs.len() == 0 {
        Seq::empty()
    } else {
        let rest = with_size(fs.drop_last(), s);
        if fs.last().key.size == s {
            rest.push(fs.last())
        } else {
            rest
        }
    }
}

/// Every file of `with_size(fs, s)` has size `s`.
pub proof fn lemma_with_size_sizes(fs: Seq<FileInfo>, s: u64)
    ensures
        forall|j: int|
            0 <= j < with_size(fs, s).len() ==> (#[trigger] with_size(fs, s)[j]).key.size == s,
    decreases fs.len(),
{
    if fs.len() > 0 {
        lemma_with_size_sizes(fs.drop_last(), s);
    }
}

/// Each file of `fs` is among the files of its own size.
pub proof fn lemma_with_size_contains(fs: Seq<FileInfo>, i: int)
    requires
        0 <= i < fs.len(),
    ensures
        with_size(fs, fs[i].key.size).contains(fs[i]),
    decreases fs.len(),
{
    let s = fs[i].key.size;
    if i == fs.len() - 1 {
        let w = with_size(fs, s);
        assert(w[w.len() - 1] == fs[i]);
    } else {
        lemma_with_size_contains(fs.drop_last(), i);
        let r = with_size(fs.drop_last(), s);
        let k = choose|k: int| 0 <= k < r.len() && r[k] == fs[i];
        assert(with_size(fs, s)[k] == fs[i]);
    }
}

/// A file that is not among the files of size `s` has another size.
proof fn lemma_with_size_empty(fs: Seq<FileInfo>, s: u64)
    requires
        with_size(fs, s).len() == 0,
    ensures
        forall|i: int| 0 <= i < fs.len() ==> (#[trigger] fs[i]).key.size != s,
{
    assert forall|i: int| 0 <= i < fs.len() implies (#[trigger] fs[i]).key.size != s by {
        if fs[i].key.size == s {
            lemma_with_size_contains(fs, i);
        }
    }
}

/// `bs` are the size buckets of `fs` with two or more files: each is the whole
/// list of files of its size, and each size shared by two or more files has
/// its bucket.
pub open spec fn buckets_by_size(fs: Seq<FileInfo>, bs: Seq<Vec<FileInfo>>) -> bool {
    &&& forall|m: int|
        0 <= m < bs.len() ==> {
            &&& (#[trigger] bs[m])@.len() >= 2
            &&& bs[m]@ == with_size(fs, bs[m]@[0].key.size)
        }
    &&& forall|i: int|
        0 <= i < fs.len() && with_size(fs, (#[trigger] fs[i]).key.size).len() >= 2 ==> exists|
            m: int,
        | 0 <= m < bs.len() && (#[trigger] bs[m])@ == with_size(fs, fs[i].key.size)
}

spec fn is_large_bucket(all: Seq<Vec<FileInfo>>, b: Vec<FileInfo>) -> bool {
    exists|k: int| 0 <= k < all.len() && b == all[k] && all[k]@.len() >= 2
}

/// Partitions `files` by size and keeps the buckets with two or more files.
/// Each bucket lists all the files of its size in their input order; buckets
/// come in no particular order.
pub fn group_by_size(files: Vec<FileInfo>) -> (r: Vec<Vec<FileInfo>>)
    ensures
        buckets_by_size(files@, r@),
{
    let ghost orig = files@;
    let n = files.len();
    let mut files = files;
    let mut rev: Vec<FileInfo> = Vec::new();
    while files.len() > 0
        invariant
            files@.len() + rev@.len() == n,
            n == orig.len(),
            files@ == orig.take(files@.len() as int),
            forall|k: int| 0 <= k < rev@.len() ==> #[trigger] rev@[k] == orig[n - 1 - k],
        decreases files@.len(),
    {
        let f = files.pop().unwrap();
        rev.push(f);
    }
    let mut index: HashMap<u64, usize> = HashMap::new();
    let mut buckets: Vec<Vec<FileInfo>> = Vec::new();
    let ghost mut sizes: Seq<u64> = Seq::empty();
    let mut i: usize = 0;
    while i < n
        invariant
            i <= n,
            n == orig.len(),
            rev@.len() == n - i,
            forall|k: int| 0 <= k < rev@.len() ==> #[trigger] rev@[k] == orig[n - 1 - k],
            buckets@.len() == sizes.len(),
            forall|k: int|
                0 <= k < buckets@.len() ==> {
                    &&& (#[trigger] buckets@[k])@ == with_size(orig.take(i as int), sizes[k])
                    &&& index@.contains_key(sizes[k])
                    &&& index@[sizes[k]] == k
                    &&& buckets@[k]@.len() >= 1
                },
            forall|s: u64|
                #[trigger] index@.contains_key(s) ==> index@[s] < buckets@.len() && sizes[index@[
                    s] as int] == s,
            forall|s: u64|
                !(#[trigger] index@.contains_key(s)) ==> with_size(orig.take(i as int), s).len()
                    == 0,
        decreases n - i,
    {
        assert(orig.take(i as int + 1).drop_last() =~= orig.take(i as int));
        let f = rev.pop().unwrap();
        assert(f == orig[i as int]);
        assert(orig.take(i as int + 1).last() == f);
        let s = f.key.size;
        match index.get(&s) {
            Some(k) => {
                let k: usize = *k;
                let ghost old_buckets = buckets@;
                buckets[k].push(f);
                assert forall|j: int| 0 <= j < buckets@.len() implies {
                    &&& (#[trigger] buckets@[j])@ == with_size(orig.take(i as int + 1), sizes[j])
                    &&& buckets@[j]@.len() >= 1
                } by {
                    if j != k {
                        assert(buckets@[j] == old_buckets[j]);
                        assert(index@[sizes[j]] != index@[s]);
                    }
                }
            },
            None => {
                let k: usize = buckets.len();
                let ghost old_buckets = buckets@;
                let ghost old_sizes = sizes;
                index.insert(s, k);
                let mut nb: Vec<FileInfo> = Vec::new();
                nb.push(f);
                buckets.push(nb);
                proof {
                    sizes = sizes.push(s);
                }
                assert(nb@ =~= with_size(orig.take(i as int), s).push(f));
                assert forall|j: int| 0 <= j < buckets@.len() implies {
                    &&& (#[trigger] buckets@[j])@ == with_size(orig.take(i as int + 1), sizes[j])
                    &&& index@.contains_key(sizes[j])
                    &&& index@[sizes[j]] == j
                    &&& buckets@[j]@.len() >= 1
                } by {
                    if j != k {
                        assert(buckets@[j] == old_buckets[j]);
                        assert(sizes[j] == old_sizes[j]);
                        assert(sizes[j] != s);
                    } else {
                        assert(sizes[j] == s);
                    }
                }
                assert forall|t: u64| #[trigger] index@.contains_key(t) implies index@[t]
                    < buckets@.len() && sizes[index@[t] as int] == t by {
                    if t != s {
                        assert(sizes[index@[t] as int] == old_sizes[index@[t] as int]);
                    }
                }
            },
        }
        i = i + 1;
    }
    assert(orig.take(n as int) =~= orig);
    let ghost all = buckets@;
    let mut out: Vec<Vec<FileInfo>> = Vec::new();
    while buckets.len() > 0
        invariant
            buckets@.len() <= all.len(),
            buckets@ == all.take(buckets@.len() as int),
            all.len() == sizes.len(),
            forall|k: int|
                0 <= k < all.len() ==> {
                    &&& (#[trigger] all[k])@ == with_size(orig, sizes[k])
                    &&& index@.contains_key(sizes[k])
                    &&& index@[sizes[k]] == k
                    &&& all[k]@.len() >= 1
                },
            forall|m: int| 0 <= m < out@.len() ==> is_large_bucket(all, #[trigger] out@[m]),
            forall|k: int|
                buckets@.len() <= k < all.len() && (#[trigger] all[k])@.len() >= 2 ==> exists|m: int|
                    0 <= m < out@.len() && out@[m] == all[k],
        decreases buckets@.len(),
    {
        let b = buckets.pop().unwrap();
        let ghost kb = buckets@.len() as int;
        assert(b == all[kb]);
        assert(buckets@ =~= all.take(buckets@.len() as int));
        let ghost old_out = out@;
        if b.len() >= 2 {
            out.push(b);
            assert(out@[out@.len() - 1] == all[kb]);
        }
        proof {
            assert forall|m: int| 0 <= m < out@.len() implies is_large_bucket(
                all,
                #[trigger] out@[m],
            ) by {
                if m < old_out.len() {
                    assert(is_large_bucket(all, old_out[m]));
                    let k = choose|k: int|
                        0 <= k < all.len() && old_out[m] == all[k] && all[k]@.len() >= 2;
                    assert(out@[m] == all[k]);
                    assert(0 <= k < all.len() && out@[m] == all[k] && all[k]@.len() >= 2);
                } else {
                    assert(out@[m] == all[kb]);
                    assert(all[kb]@.len() >= 2);
                    assert(0 <= kb < all.len() && out@[m] == all[kb] && all[kb]@.len() >= 2);
                }
            }
            assert forall|k: int|
                buckets@.len() <= k < all.len() && (#[trigger] all[k])@.len() >= 2 implies exists|
                m: int,
            | 0 <= m < out@.len() && out@[m] == all[k] by {
                if k == kb {
                    assert(out@[out@.len() - 1] == all[k]);
                } else {
                    let m = choose|m: int| 0 <= m < old_out.len() && old_out[m] == all[k];
                    assert(out@[m] == old_out[m]);
                }
            }
        }
    }
    proof {
        assert forall|m: int| 0 <= m < out@.len() implies {
            &&& (#[trigger] out@[m])@.len() >= 2
            &&& out@[m]@ == with_size(orig, out@[m]@[0].key.size)
        } by {
            assert(is_large_bucket(all, out@[m]));
            let k = choose|k: int| 0 <= k < all.len() && out@[m] == all[k] && all[k]@.len() >= 2;
            lemma_with_size_sizes(orig, sizes[k]);
            assert(all[k]@[0].key.size == sizes[k]);
        }
        assert forall|i: int|
            0 <= i < orig.len() && with_size(orig, (#[trigger] orig[i]).key.size).len()
                >= 2 implies exists|m: int|
            0 <= m < out@.len() && (#[trigger] out@[m])@ == with_size(orig, orig[i].key.size) by {
            let s = orig[i].key.size;
            if !index@.contains_key(s) {
                lemma_with_size_empty(orig, s);
            }
            let k = index@[s] as int;
            assert(all[k]@.len() >= 2);
            let m = choose|m: int| 0 <= m < out@.len() && out@[m] == all[k];
            assert(out@[m]@ == with_size(orig, s));
        }
    }
    out
}

} // verus!
