use vstd::prelude::*;
use crate::key::{same_digest, Digest, FileInfo};

verus! {

broadcast use vstd::std_specs::vec::group_vec_axioms;

/// Files confirmed to share one size and one digest.
pub struct DuplicateGroup {
    pub size: u64,
    pub hash: Vec<u8>,
    pub members: Vec<String>,
}

impl DuplicateGroup {
    /// The member paths as character sequences.
    pub open spec fn member_paths(&self) -> Seq<Seq<char>> {
        self.members@.map_values(|p: String| p@)
    }
}

/// Whether `f` has size `s` and carries digest `h`.
pub open spec fn in_class(f: FileInfo, s: u64, h: Seq<u8>) -> bool {
    f.key.size == s && f.key.hash_view() == Some(h)
}

/// The paths of the files of `fs` with size `s` and digest `h`, in order.
pub open spec fn class_paths(fs: Seq<FileInfo>, s: u64, h: Seq<u8>) -> Seq<Seq<char>>
    decreases fs.len(),
{
    if fs.len() == 0 {
        Seq::empty()
    } else {
        let rest = class_paths(fs.drop_last(), s, h);
        if in_class(fs.last(), s, h) {
            rest.push(fs.last().path@)
        } else {
            rest
        }
    }
}

/// Whether file `i` of `fs` has a digest that at least one other file shares
/// along with its size.
pub open spec fn has_duplicate(fs: Seq<FileInfo>, i: int) -> bool {
    match fs[i].key.hash_view() {
        Some(h) => class_paths(fs, fs[i].key.size, h).len() >= 2,
        None => false,
    }
}

/// The group of `fs` with size `s` and digest `h`.
pub open spec fn is_class_group(fs: Seq<FileInfo>, g: DuplicateGroup) -> bool {
    &&& g.members@.len() >= 2
    &&& g.member_paths() == class_paths(fs, g.size, g.hash@)
}

pub open spec fn group_for(gs: Seq<DuplicateGroup>, s: u64, h: Seq<u8>) -> bool {
    exists|m: int| 0 <= m < gs.len() && (#[trigger] gs[m]).size == s && gs[m].hash@ == h
}

/// `gs` are the duplicate groups of `fs`: each is the whole class of its size
/// and digest with two or more members, each file that shares its class with
/// another has its class among them, and no class comes twice.
pub open spec fn confirms(fs: Seq<FileInfo>, gs: Seq<DuplicateGroup>) -> bool {
    &&& forall|m: int| 0 <= m < gs.len() ==> is_class_group(fs, #[trigger] gs[m])
    &&& forall|i: int|
        0 <= i < fs.len() && #[trigger] has_duplicate(fs, i) ==> group_for(
            gs,
            fs[i].key.size,
            fs[i].key.hash_view().unwrap(),
        )
    &&& forall|a: int, b: int|
        0 <= a < b < gs.len() ==> !((#[trigger] gs[a]).size == (#[trigger] gs[b]).size
            && gs[a].hash@ == gs[b].hash@)
}

/// Each path of `class_paths(fs, s, h)` is the path of a file of `fs` with
/// size `s` and digest `h`.
pub proof fn lemma_class_paths_source(fs: Seq<FileInfo>, s: u64, h: Seq<u8>, k: int)
    requires
        0 <= k < class_paths(fs, s, h).len(),
    ensures
        exists|j: int|
            0 <= j < fs.len() && in_class(#[trigger] fs[j], s, h) && fs[j].path@ == class_paths(
                fs,
                s,
                h,
            )[k],
    decreases fs.len(),
{
    let rest = class_paths(fs.drop_last(), s, h);
    if k < rest.len() {
        lemma_class_paths_source(fs.drop_last(), s, h, k);
        let j = choose|j: int|
            0 <= j < fs.drop_last().len() && in_class(#[trigger] fs.drop_last()[j], s, h)
                && fs.drop_last()[j].path@ == rest[k];
        assert(fs[j] == fs.drop_last()[j]);
    } else {
        assert(fs[fs.len() - 1] == fs.last());
    }
}

/// Each file of `fs` with size `s` and digest `h` has its path in
/// `class_paths(fs, s, h)`.
pub proof fn lemma_class_paths_complete(fs: Seq<FileInfo>, s: u64, h: Seq<u8>, j: int)
    requires
        0 <= j < fs.len(),
        in_class(fs[j], s, h),
    ensures
        class_paths(fs, s, h).contains(fs[j].path@),
    decreases fs.len(),
{
    let c = class_paths(fs, s, h);
    if j == fs.len() - 1 {
        assert(c[c.len() - 1] == fs[j].path@);
    } else {
        lemma_class_paths_complete(fs.drop_last(), s, h, j);
        let rest = class_paths(fs.drop_last(), s, h);
        let k = choose|k: int| 0 <= k < rest.len() && rest[k] == fs.drop_last()[j].path@;
        assert(c[k] == fs[j].path@);
    }
}

/// Whether `f` has size `s` and a digest equal to `h`.
fn file_in_class(f: &FileInfo, s: u64, h: &Vec<u8>) -> (r: bool)
    ensures
        r == in_class(*f, s, h@),
{
    if f.key.size != s {
        return false;
    }
    match &f.key.hash {
        Digest::Computed(d) => same_digest(d, h),
        _ => false,
    }
}

/// The paths of all files of `files` with size `s` and digest `h`.
fn collect_class(files: &Vec<FileInfo>, s: u64, h: &Vec<u8>) -> (r: Vec<String>)
    ensures
        r@.map_values(|p: String| p@) == class_paths(files@, s, h@),
{
    let mut out: Vec<String> = Vec::new();
    let mut k: usize = 0;
    while k < files.len()
        invariant
            k <= files@.len(),
            out@.map_values(|p: String| p@) == class_paths(files@.take(k as int), s, h@),
        decreases files@.len() - k,
    {
        assert(files@.take(k as int + 1).drop_last() =~= files@.take(k as int));
        let ghost before = out@;
        if file_in_class(&files[k], s, h) {
            out.push(files[k].path.clone());
            assert(out@.map_values(|p: String| p@) =~= before.map_values(|p: String| p@).push(
                files@[k as int].path@,
            ));
        }
        k = k + 1;
    }
    assert(files@.take(files@.len() as int) =~= files@);
    out
}

/// Whether a file before position `i` has size `s` and digest `h`.
fn seen_before(files: &Vec<FileInfo>, i: usize, s: u64, h: &Vec<u8>) -> (r: bool)
    requires
        i <= files@.len(),
    ensures
        r == exists|j: int| 0 <= j < i && in_class(#[trigger] files@[j], s, h@),
{
    let mut j: usize = 0;
    while j < i
        invariant
            i <= files@.len(),
            j <= i,
            forall|l: int| 0 <= l < j ==> !in_class(#[trigger] files@[l], s, h@),
        decreases i - j,
    {
        if file_in_class(&files[j], s, h) {
            return true;
        }
        j = j + 1;
    }
    false
}

/// Splits hashed files into groups of two or more that share size and digest.
/// Files without a computed digest (pending, or unreadable) join no group. Each
/// group lists the paths of all files of its class in input order; no two
/// groups share a class.
pub fn confirm_bucket(files: &Vec<FileInfo>) -> (r: Vec<DuplicateGroup>)
    ensures
        confirms(files@, r@),
{
    let mut out: Vec<DuplicateGroup> = Vec::new();
    let mut i: usize = 0;
    while i < files.len()
        invariant
            i <= files@.len(),
            forall|m: int| 0 <= m < out@.len() ==> is_class_group(files@, #[trigger] out@[m]),
            forall|m: int|
                0 <= m < out@.len() ==> exists|j: int|
                    0 <= j < i && in_class(
                        #[trigger] files@[j],
                        (#[trigger] out@[m]).size,
                        out@[m].hash@,
                    ),
            forall|j: int|
                0 <= j < i && #[trigger] has_duplicate(files@, j) ==> group_for(
                    out@,
                    files@[j].key.size,
                    files@[j].key.hash_view().unwrap(),
                ),
            forall|a: int, b: int|
                0 <= a < b < out@.len() ==> !((#[trigger] out@[a]).size == (#[trigger] out@[
                    b]).size && out@[a].hash@ == out@[b].hash@),
        decreases files@.len() - i,
    {
        let f = &files[i];
        let s = f.key.size;
        match &f.key.hash {
            Digest::Pending | Digest::Unreadable => {
                assert(!has_duplicate(files@, i as int));
            },
            Digest::Computed(h) => {
                assert(in_class(files@[i as int], s, h@));
                if seen_before(files, i, s, h) {
                    proof {
                        let j = choose|j: int| 0 <= j < i && in_class(#[trigger] files@[j], s, h@);
                        assert(files@[j].key.hash_view() == Some(h@));
                        assert(has_duplicate(files@, i as int) ==> has_duplicate(files@, j));
                    }
                } else {
                    let members = collect_class(files, s, h);
                    if members.len() >= 2 {
                        let ghost old_out = out@;
                        out.push(DuplicateGroup { size: s, hash: h.clone(), members });
                        proof {
                            let g = out@[out@.len() - 1];
                            assert(g.hash@ == h@);
                            assert forall|m: int| 0 <= m < out@.len() implies exists|j: int|
                                0 <= j < i + 1 && in_class(
                                    #[trigger] files@[j],
                                    (#[trigger] out@[m]).size,
                                    out@[m].hash@,
                                ) by {
                                if m < old_out.len() {
                                    assert(out@[m] == old_out[m]);
                                    let j = choose|j: int|
                                        0 <= j < i && in_class(
                                            #[trigger] files@[j],
                                            old_out[m].size,
                                            old_out[m].hash@,
                                        );
                                } else {
                                    assert(in_class(files@[i as int], out@[m].size, out@[m].hash@));
                                }
                            }
                            assert forall|j: int|
                                0 <= j < i + 1 && #[trigger] has_duplicate(
                                    files@,
                                    j,
                                ) implies group_for(
                                out@,
                                files@[j].key.size,
                                files@[j].key.hash_view().unwrap(),
                            ) by {
                                if j < i {
                                    let m = choose|m: int|
                                        0 <= m < old_out.len() && (#[trigger] old_out[m]).size
                                            == files@[j].key.size && old_out[m].hash@
                                            == files@[j].key.hash_view().unwrap();
                                    assert(out@[m] == old_out[m]);
                                } else {
                                    assert(out@[out@.len() - 1].size == s);
                                }
                            }
                            assert forall|a: int, b: int| 0 <= a < b < out@.len() implies !((
                            #[trigger] out@[a]).size == (#[trigger] out@[b]).size && out@[a].hash@
                                == out@[b].hash@) by {
                                assert(out@[a] == old_out[a]);
                                if b == out@.len() - 1 {
                                    let j = choose|j: int|
                                        0 <= j < i && in_class(
                                            #[trigger] files@[j],
                                            old_out[a].size,
                                            old_out[a].hash@,
                                        );
                                    if out@[a].size == s && out@[a].hash@ == h@ {
                                        assert(in_class(files@[j], s, h@));
                                    }
                                } else {
                                    assert(out@[b] == old_out[b]);
                                }
                            }
                        }
                    } else {
                        assert(members@.map_values(|p: String| p@).len() == members@.len());
                        assert(!has_duplicate(files@, i as int));
                    }
                }
            },
        }
        i = i + 1;
    }
    out
}

} // verus!
