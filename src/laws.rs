//! Properties of the pipeline that hold across its stages or across runs.

use vstd::prelude::*;
use crate::bucket::{buckets_by_size, lemma_with_size_contains, with_size};
use crate::confirm::{
    class_paths, confirms, has_duplicate, in_class, lemma_class_paths_complete,
    lemma_class_paths_source, DuplicateGroup,
};
use crate::config::WalkFilter;
use crate::key::FileInfo;
use crate::walk::{passes, selected, DirEntryInfo};

verus! {

/// A walk keeps a path with a size exactly when some entry with that path and
/// size passes every filter: depth, size, regular file, and hidden names.
pub proof fn lemma_filter_correct(es: Seq<DirEntryInfo>, f: WalkFilter, p: Seq<char>, size: u64)
    ensures
        selected(es, f).contains((p, size)) <==> exists|i: int|
            0 <= i < es.len() && (#[trigger] es[i]).path@ == p && es[i].size == Some(size)
                && passes(es[i], f),
    decreases es.len(),
{
    if es.len() > 0 {
        let init = es.drop_last();
        lemma_filter_correct(init, f, p, size);
        let rest = selected(init, f);
        let e = es.last();
        if selected(es, f).contains((p, size)) {
            let k = choose|k: int| 0 <= k < selected(es, f).len() && selected(es, f)[k] == (p, size);
            if k < rest.len() {
                assert(rest.contains((p, size)));
                let i = choose|i: int|
                    0 <= i < init.len() && (#[trigger] init[i]).path@ == p && init[i].size == Some(
                        size,
                    ) && passes(init[i], f);
                assert(es[i] == init[i]);
            } else {
                assert(es[es.len() - 1] == e);
            }
        }
        if exists|i: int|
            0 <= i < es.len() && (#[trigger] es[i]).path@ == p && es[i].size == Some(size)
                && passes(es[i], f) {
            let i = choose|i: int|
                0 <= i < es.len() && (#[trigger] es[i]).path@ == p && es[i].size == Some(size)
                    && passes(es[i], f);
            if i < es.len() - 1 {
                assert(init[i] == es[i]);
                let k = choose|k: int| 0 <= k < rest.len() && rest[k] == (p, size);
                if passes(e, f) {
                    assert(selected(es, f)[k] == (p, size));
                }
            } else {
                let s = selected(es, f);
                assert(s[s.len() - 1] == (p, size));
            }
        }
    }
}

/// Two distinct files of one class make the class at least two paths long.
proof fn lemma_class_two(fs: Seq<FileInfo>, s: u64, h: Seq<u8>, i: int, j: int)
    requires
        0 <= i < j < fs.len(),
        in_class(fs[i], s, h),
        in_class(fs[j], s, h),
    ensures
        class_paths(fs, s, h).len() >= 2,
    decreases fs.len(),
{
    let init = fs.drop_last();
    assert(init[i] == fs[i]);
    if j == fs.len() - 1 {
        lemma_class_paths_complete(init, s, h, i);
    } else {
        assert(init[j] == fs[j]);
        lemma_class_two(init, s, h, i, j);
    }
}

/// A class of at least two paths has two distinct files behind it.
proof fn lemma_class_two_sources(fs: Seq<FileInfo>, s: u64, h: Seq<u8>) -> (r: (int, int))
    requires
        class_paths(fs, s, h).len() >= 2,
    ensures
        0 <= r.0 < r.1 < fs.len(),
        in_class(fs[r.0], s, h),
        in_class(fs[r.1], s, h),
    decreases fs.len(),
{
    let init = fs.drop_last();
    if in_class(fs.last(), s, h) {
        lemma_class_paths_source(init, s, h, 0);
        let i = choose|i: int| 0 <= i < init.len() && in_class(#[trigger] init[i], s, h)
            && init[i].path@ == class_paths(init, s, h)[0];
        assert(fs[i] == init[i]);
        (i, fs.len() - 1)
    } else {
        let (a, b) = lemma_class_two_sources(init, s, h);
        assert(fs[a] == init[a] && fs[b] == init[b]);
        (a, b)
    }
}

/// Every member path of a confirmed group is the path of a file whose size is
/// the group's size and whose digest is the group's digest.
pub proof fn lemma_members_share_size_and_digest(
    files: Seq<FileInfo>,
    groups: Seq<DuplicateGroup>,
    m: int,
    k: int,
)
    requires
        confirms(files, groups),
        0 <= m < groups.len(),
        0 <= k < groups[m].members@.len(),
    ensures
        exists|j: int|
            0 <= j < files.len() && (#[trigger] files[j]).path@ == groups[m].members@[k]@
                && files[j].key.size == groups[m].size && files[j].key.hash_view() == Some(
                groups[m].hash@,
            ),
{
    let g = groups[m];
    assert(g.member_paths()[k] == g.members@[k]@);
    lemma_class_paths_source(files, g.size, g.hash@, k);
}

/// No confirmed group has fewer than two members.
pub proof fn lemma_groups_have_two_members(files: Seq<FileInfo>, groups: Seq<DuplicateGroup>)
    requires
        confirms(files, groups),
    ensures
        forall|m: int| 0 <= m < groups.len() ==> (#[trigger] groups[m]).members@.len() >= 2,
{
}

/// Two distinct files of one size share a size bucket.
pub proof fn lemma_same_size_same_bucket(
    files: Seq<FileInfo>,
    buckets: Seq<Vec<FileInfo>>,
    i: int,
    j: int,
)
    requires
        buckets_by_size(files, buckets),
        0 <= i < files.len(),
        0 <= j < files.len(),
        i != j,
        files[i].key.size == files[j].key.size,
    ensures
        exists|m: int|
            0 <= m < buckets.len() && (#[trigger] buckets[m])@.contains(files[i])
                && buckets[m]@.contains(files[j]),
    decreases files.len(),
{
    let s = files[i].key.size;
    lemma_size_two(files, s, if i < j { i } else { j }, if i < j { j } else { i });
    let m = choose|m: int| 0 <= m < buckets.len() && (#[trigger] buckets[m])@ == with_size(files, s);
    lemma_with_size_contains(files, i);
    lemma_with_size_contains(files, j);
}

/// Two distinct files of size `s` make their bucket at least two files long.
proof fn lemma_size_two(fs: Seq<FileInfo>, s: u64, i: int, j: int)
    requires
        0 <= i < j < fs.len(),
        fs[i].key.size == s,
        fs[j].key.size == s,
    ensures
        with_size(fs, s).len() >= 2,
    decreases fs.len(),
{
    let init = fs.drop_last();
    assert(init[i] == fs[i]);
    if j == fs.len() - 1 {
        lemma_with_size_contains(init, i);
    } else {
        assert(init[j] == fs[j]);
        lemma_size_two(init, s, i, j);
    }
}

/// Two distinct files with the same size and the same digest end up in the
/// same confirmed group.
pub proof fn lemma_no_false_negatives(
    files: Seq<FileInfo>,
    groups: Seq<DuplicateGroup>,
    i: int,
    j: int,
)
    requires
        confirms(files, groups),
        0 <= i < files.len(),
        0 <= j < files.len(),
        i != j,
        files[i].key.hash_view().is_some(),
        files[i].key.size == files[j].key.size,
        files[i].key.hash_view() == files[j].key.hash_view(),
    ensures
        exists|m: int|
            0 <= m < groups.len() && (#[trigger] groups[m]).member_paths().contains(
                files[i].path@,
            ) && groups[m].member_paths().contains(files[j].path@),
{
    let s = files[i].key.size;
    let h = files[i].key.hash_view().unwrap();
    if i < j {
        lemma_class_two(files, s, h, i, j);
    } else {
        lemma_class_two(files, s, h, j, i);
    }
    assert(has_duplicate(files, i));
    let m = choose|m: int| 0 <= m < groups.len() && (#[trigger] groups[m]).size == s
        && groups[m].hash@ == h;
    assert(crate::confirm::is_class_group(files, groups[m]));
    lemma_class_paths_complete(files, s, h, i);
    lemma_class_paths_complete(files, s, h, j);
}

/// Some group of `gs` has the size, the digest and the set of member paths
/// of `g`.
pub open spec fn has_matching_group(gs: Seq<DuplicateGroup>, g: DuplicateGroup) -> bool {
    exists|n: int|
        0 <= n < gs.len() && (#[trigger] gs[n]).size == g.size && gs[n].hash@ == g.hash@
            && gs[n].member_paths().to_set() == g.member_paths().to_set()
}

/// One direction of `lemma_rerun_same_groups`.
proof fn lemma_rerun_group_found(
    a: Seq<FileInfo>,
    b: Seq<FileInfo>,
    ga: Seq<DuplicateGroup>,
    gb: Seq<DuplicateGroup>,
    m: int,
)
    requires
        confirms(a, ga),
        confirms(b, gb),
        a.no_duplicates(),
        b.no_duplicates(),
        a.to_set() == b.to_set(),
        0 <= m < ga.len(),
    ensures
        has_matching_group(gb, ga[m]),
{
    let s = ga[m].size;
    let h = ga[m].hash@;
    assert(crate::confirm::is_class_group(a, ga[m]));
    let (i1, i2) = lemma_class_two_sources(a, s, h);
    assert(a.to_set().contains(a[i1]) && a.to_set().contains(a[i2]));
    assert(b.contains(a[i1]) && b.contains(a[i2]));
    let j1 = choose|j: int| 0 <= j < b.len() && b[j] == a[i1];
    let j2 = choose|j: int| 0 <= j < b.len() && b[j] == a[i2];
    assert(j1 != j2);
    if j1 < j2 {
        lemma_class_two(b, s, h, j1, j2);
    } else {
        lemma_class_two(b, s, h, j2, j1);
    }
    assert(has_duplicate(b, j1));
    let n = choose|n: int| 0 <= n < gb.len() && (#[trigger] gb[n]).size == s && gb[n].hash@ == h;
    assert(crate::confirm::is_class_group(b, gb[n]));
    assert forall|p: Seq<char>|
        class_paths(a, s, h).contains(p) implies class_paths(b, s, h).contains(p) by {
        let k = choose|k: int| 0 <= k < class_paths(a, s, h).len() && class_paths(a, s, h)[k] == p;
        lemma_class_paths_source(a, s, h, k);
        let j = choose|j: int|
            0 <= j < a.len() && in_class(#[trigger] a[j], s, h) && a[j].path@ == class_paths(
                a,
                s,
                h,
            )[k];
        assert(a.to_set().contains(a[j]));
        let l = choose|l: int| 0 <= l < b.len() && b[l] == a[j];
        lemma_class_paths_complete(b, s, h, l);
    }
    assert forall|p: Seq<char>|
        class_paths(b, s, h).contains(p) implies class_paths(a, s, h).contains(p) by {
        let k = choose|k: int| 0 <= k < class_paths(b, s, h).len() && class_paths(b, s, h)[k] == p;
        lemma_class_paths_source(b, s, h, k);
        let j = choose|j: int|
            0 <= j < b.len() && in_class(#[trigger] b[j], s, h) && b[j].path@ == class_paths(
                b,
                s,
                h,
            )[k];
        assert(b.to_set().contains(b[j]));
        let l = choose|l: int| 0 <= l < a.len() && a[l] == b[j];
        lemma_class_paths_complete(a, s, h, l);
    }
    assert(gb[n].member_paths().to_set() =~= ga[m].member_paths().to_set());
}

/// Confirming the same files, listed once each but in any order, yields the
/// same groups: each group of one run has a group of the other run with the
/// same size, the same digest and the same set of member paths.
pub proof fn lemma_rerun_same_groups(
    a: Seq<FileInfo>,
    b: Seq<FileInfo>,
    ga: Seq<DuplicateGroup>,
    gb: Seq<DuplicateGroup>,
)
    requires
        confirms(a, ga),
        confirms(b, gb),
        a.no_duplicates(),
        b.no_duplicates(),
        a.to_set() == b.to_set(),
    ensures
        forall|m: int| 0 <= m < ga.len() ==> has_matching_group(gb, #[trigger] ga[m]),
        forall|n: int| 0 <= n < gb.len() ==> has_matching_group(ga, #[trigger] gb[n]),
{
    assert forall|m: int| 0 <= m < ga.len() implies has_matching_group(gb, #[trigger] ga[m]) by {
        lemma_rerun_group_found(a, b, ga, gb, m);
    }
    assert forall|n: int| 0 <= n < gb.len() implies has_matching_group(ga, #[trigger] gb[n]) by {
        lemma_rerun_group_found(b, a, gb, ga, n);
    }
}

} // verus!
