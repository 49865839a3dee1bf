use vstd::prelude::*;
use crate::config::WalkFilter;
use crate::key::{Digest, FileInfo, Key};

verus! {

/// What the traversal saw of one entry below the root.
pub struct DirEntryInfo {
    /// The path to report for the entry.
    pub path: String,
    /// The entry's path relative to the root, one name per level.
    pub components: Vec<Vec<u8>>,
    /// Whether the entry is a regular file.
    pub is_file: bool,
    /// The length in bytes, or `None` where its metadata could not be read.
    pub size: Option<u64>,
}

/// A name that starts with a dot.
pub open spec fn is_hidden_name(name: Seq<u8>) -> bool {
    name.len() > 0 && name[0] == 46u8
}

pub open spec fn has_hidden_component(cs: Seq<Vec<u8>>) -> bool {
    exists|i: int| 0 <= i < cs.len() && is_hidden_name(#[trigger] cs[i]@)
}

/// Whether the walk keeps an entry: its depth (the number of names below the
/// root) and its size are in range, it is a readable regular file, and, when
/// hidden entries are omitted, no name on its path is hidden.
pub open spec fn passes(e: DirEntryInfo, f: WalkFilter) -> bool {
    &&& f.min_depth <= e.components@.len() <= f.max_depth
    &&& e.is_file
    &&& match e.size {
        Some(s) => f.min_size <= s <= f.max_size,
        None => false,
    }
    &&& !(f.omit_hidden && has_hidden_component(e.components@))
}

/// Path and size of each kept entry, in the order of the entries.
pub open spec fn selected(es: Seq<DirEntryInfo>, f: WalkFilter) -> Seq<(Seq<char>, u64)>
    decreases es.len(),
{
    if es.len() == 0 {
        Seq::empty()
    } else {
        let rest = selected(es.drop_last(), f);
        let e = es.last();
        if passes(e, f) {
            rest.push((e.path@, e.size.unwrap()))
        } else {
            rest
        }
    }
}

pub fn is_hidden(components: &Vec<Vec<u8>>) -> (r: bool)
    ensures
        r == has_hidden_component(components@),
{
    let mut i: usize = 0;
    while i < components.len()
        invariant
            i <= components@.len(),
            forall|j: int| 0 <= j < i ==> !is_hidden_name(#[trigger] components@[j]@),
        decreases components@.len() - i,
    {
        let c = &components[i];
        if c.len() > 0 && c[0] == 46u8 {
            return true;
        }
        i = i + 1;
    }
    false
}

/// Whether one entry passes the walk's filters.
pub fn entry_passes(e: &DirEntryInfo, f: &WalkFilter) -> (r: bool)
    ensures
        r == passes(*e, *f),
{
    let depth = e.components.len();
    if depth < f.min_depth || depth > f.max_depth || !e.is_file {
        return false;
    }
    match e.size {
        Some(s) => {
            if s < f.min_size || s > f.max_size {
                return false;
            }
        },
        None => {
            return false;
        },
    }
    !(f.omit_hidden && is_hidden(&e.components))
}

/// The file record of each entry that passes, with its size and its digest pending.
pub fn select_files(entries: &Vec<DirEntryInfo>, f: &WalkFilter) -> (r: Vec<FileInfo>)
    ensures
        r@.len() == selected(entries@, *f).len(),
        forall|k: int|
            0 <= k < r@.len() ==> {
                &&& (#[trigger] r@[k]).path@ == selected(entries@, *f)[k].0
                &&& r@[k].key.size == selected(entries@, *f)[k].1
                &&& r@[k].key.hash is Pending
            },
{
    let mut out: Vec<FileInfo> = Vec::new();
    let mut i: usize = 0;
    while i < entries.len()
        invariant
            i <= entries@.len(),
            out@.len() == selected(entries@.take(i as int), *f).len(),
            forall|k: int|
                0 <= k < out@.len() ==> {
                    &&& (#[trigger] out@[k]).path@ == selected(entries@.take(i as int), *f)[k].0
                    &&& out@[k].key.size == selected(entries@.take(i as int), *f)[k].1
                    &&& out@[k].key.hash is Pending
                },
        decreases entries@.len() - i,
    {
        assert(entries@.take(i as int + 1).drop_last() =~= entries@.take(i as int));
        let e = &entries[i];
        if entry_passes(e, f) {
            let size: u64 = match e.size {
                Some(s) => s,
                None => 0,
            };
            out.push(FileInfo { key: Key::new(size, Digest::Pending), path: e.path.clone() });
        }
        i = i + 1;
    }
    assert(entries@.take(entries@.len() as int) =~= entries@);
    out
}

} // verus!
