use vstd::prelude::*;

verus! {

/// Where a file stands with respect to its content digest.
pub enum Digest {
    /// Not computed yet: the file has only been measured.
    Pending,
    /// Computed from the file's bytes.
    Computed(Vec<u8>),
    /// The file could not be read when its digest was due.
    Unreadable,
}

/// Fingerprint of a file: its length and, once computed, its content digest.
pub struct Key {
    pub size: u64,
    pub hash: Digest,
}

impl Key {
    pub fn new(size: u64, hash: Digest) -> (r: Key)
        ensures
            r.size == size,
            r.hash == hash,
    {
        Key { size, hash }
    }

    /// The digest as a byte sequence, where one was computed.
    pub open spec fn hash_view(&self) -> Option<Seq<u8>> {
        match self.hash {
            Digest::Computed(h) => Some(h@),
            _ => None,
        }
    }
}

/// A file that passed the walk's filters, with its key.
pub struct FileInfo {
    pub key: Key,
    pub path: String,
}

impl FileInfo {
    /// Records the outcome of reading the file for its digest: the digest,
    /// or `None` where the file could not be read.
    pub fn with_hash(self, hash: Option<Vec<u8>>) -> (r: FileInfo)
        ensures
            r.path == self.path,
            r.key.size == self.key.size,
            r.key.hash == match hash {
                Some(h) => Digest::Computed(h),
                None => Digest::Unreadable,
            },
    {
        let digest = match hash {
            Some(h) => Digest::Computed(h),
            None => Digest::Unreadable,
        };
        FileInfo { key: Key::new(self.key.size, digest), path: self.path }
    }
}

/// Whether two digests hold the same bytes.
pub fn same_digest(a: &Vec<u8>, b: &Vec<u8>) -> (r: bool)
    ensures
        r == (a@ == b@),
{
    if a.len() != b.len() {
        return false;
    }
    let mut i: usize = 0;
    while i < a.len()
        invariant
            a@.len() == b@.len(),
            i <= a@.len(),
            forall|j: int| 0 <= j < i ==> a@[j] == b@[j],
        decreases a@.len() - i,
    {
        if a[i] != b[i] {
            return false;
        }
        i = i + 1;
    }
    assert(a@ =~= b@);
    true
}

} // verus!
