//! The directory index: content hash to file name.
//!
//! The server builds the index at startup by hashing every regular file of
//! one directory; reading the directory and the files is the caller's
//! concern, the mapping itself lives here.  Hashes are unique in the index:
//! inserting a hash again replaces its entry.

use vstd::prelude::*;
use vstd::slice::slice_to_vec;

verus! {

/// One indexed file: its content hash and its name in the directory.
#[derive(Debug)]
pub struct FileEntry {
    /// The file's name, as bytes of its directory entry.
    pub name: Vec<u8>,
    /// The hex lowercase SHA-256 digest of the file's bytes.
    pub hash: Vec<u8>,
}

impl View for FileEntry {
    type V = (Seq<u8>, Seq<u8>);

    open spec fn view(&self) -> (Seq<u8>, Seq<u8>) {
        (self.hash@, self.name@)
    }
}

/// The first position of `hash` in a sequence of entries, or the length if
/// it is absent.
pub open spec fn spec_find_hash(s: Seq<(Seq<u8>, Seq<u8>)>, hash: Seq<u8>) -> int
    decreases s.len(),
{
    if s.len() == 0 {
        0
    } else if s[0].0 == hash {
        0
    } else {
        1 + spec_find_hash(s.drop_first(), hash)
    }
}

/// The found position is in range exactly when the hash is present, and it
/// is the first such position.
pub proof fn lemma_find_hash(s: Seq<(Seq<u8>, Seq<u8>)>, hash: Seq<u8>)
    ensures
        0 <= spec_find_hash(s, hash) <= s.len(),
        spec_find_hash(s, hash) < s.len() ==> s[spec_find_hash(s, hash)].0 == hash,
        forall|i: int| 0 <= i < spec_find_hash(s, hash) ==> (#[trigger] s[i]).0 != hash,
    decreases s.len(),
{
    if s.len() > 0 && s[0].0 != hash {
        lemma_find_hash(s.drop_first(), hash);
        assert(forall|i: int| 1 <= i < s.len() ==> s[i] == s.drop_first()[i - 1]);
    }
}

/// A block index mapping content hashes to file names.
pub struct DirectoryIndex {
    entries: Vec<FileEntry>,
}

impl View for DirectoryIndex {
    type V = Seq<(Seq<u8>, Seq<u8>)>;

    closed spec fn view(&self) -> Seq<(Seq<u8>, Seq<u8>)> {
        self.entries@.map_values(|e: FileEntry| e@)
    }
}

impl DirectoryIndex {
    /// No two entries carry the same hash.
    pub open spec fn wf(&self) -> bool {
        forall|i: int, j: int|
            0 <= i < j < self@.len() ==> (#[trigger] self@[i]).0 != (#[trigger] self@[j]).0
    }

    /// An empty index, to be filled from a directory scan.
    pub fn new() -> (r: DirectoryIndex)
        ensures
            r@ == Seq::<(Seq<u8>, Seq<u8>)>::empty(),
            r.wf(),
    {
        let r = DirectoryIndex { entries: Vec::new() };
        proof {
            assert(r@ =~= Seq::<(Seq<u8>, Seq<u8>)>::empty());
        }
        r
    }

    /// How many files are indexed.
    pub fn len(&self) -> (r: usize)
        ensures
            r == self@.len(),
    {
        self.entries.len()
    }

    /// Record one scanned file.  A hash seen before has its name replaced,
    /// as re-inserting under a hash map key would; a new hash is appended.
    pub fn insert(&mut self, hash: Vec<u8>, name: Vec<u8>)
        requires
            old(self).wf(),
        ensures
            final(self).wf(),
            final(self)@ == if spec_find_hash(old(self)@, hash@) < old(self)@.len() {
                old(self)@.update(spec_find_hash(old(self)@, hash@), (hash@, name@))
            } else {
                old(self)@.push((hash@, name@))
            },
    {
        let ghost pos = spec_find_hash(old(self)@, hash@);
        proof {
            lemma_find_hash(old(self)@, hash@);
        }
        let mut i: usize = 0;
        while i < self.entries.len()
            invariant
                *self == *old(self),
                old(self).wf(),
                0 <= i <= self@.len(),
                forall|j: int| 0 <= j < i ==> (#[trigger] self@[j]).0 != hash@,
                pos == spec_find_hash(old(self)@, hash@),
                pos >= i,
            decreases self@.len() - i,
        {
            if crate::bytes::bytes_eq(self.entries[i].hash.as_slice(), hash.as_slice()) {
                proof {
                    assert(self@[i as int].0 == hash@);
                    assert(pos == i) by {
                        lemma_find_hash(old(self)@, hash@);
                        if pos > i {
                            assert((old(self)@[i as int]).0 != hash@);
                        }
                    }
                }
                self.entries[i] = FileEntry { name, hash };
                proof {
                    assert(self@ =~= old(self)@.update(pos, (hash@, name@)));
                    assert forall|a: int, b: int|
                        0 <= a < b < self@.len() implies (#[trigger] self@[a]).0 != (
                    #[trigger] self@[b]).0 by {
                        assert((old(self)@[a]).0 != (old(self)@[b]).0);
                        if a == pos {
                            assert((old(self)@[pos]).0 == hash@);
                        } else if b == pos {
                            assert((old(self)@[pos]).0 == hash@);
                        }
                    }
                }
                return ;
            }
            proof {
                lemma_find_hash(old(self)@, hash@);
                assert(self@[i as int].0 != hash@);
                assert(pos != i);
            }
            i = i + 1;
        }
        proof {
            assert(pos >= self@.len());
        }
        self.entries.push(FileEntry { name, hash });
        proof {
            assert(self@ =~= old(self)@.push((hash@, name@)));
            assert forall|a: int, b: int|
                0 <= a < b < self@.len() implies (#[trigger] self@[a]).0 != (
            #[trigger] self@[b]).0 by {
                if b < self@.len() - 1 {
                    assert((old(self)@[a]).0 != (old(self)@[b]).0);
                } else {
                    assert((old(self)@[a]).0 != hash@);
                }
            }
        }
    }

    /// The name filed under a hash, if the index holds it.
    pub fn lookup(&self, hash: &[u8]) -> (r: Option<&Vec<u8>>)
        ensures
            r is Some <==> spec_find_hash(self@, hash@) < self@.len(),
            r is Some ==> r->0@ == self@[spec_find_hash(self@, hash@)].1,
    {
        proof {
            lemma_find_hash(self@, hash@);
        }
        let ghost pos = spec_find_hash(self@, hash@);
        let mut i: usize = 0;
        while i < self.entries.len()
            invariant
                0 <= i <= self@.len(),
                forall|j: int| 0 <= j < i ==> (#[trigger] self@[j]).0 != hash@,
                pos == spec_find_hash(self@, hash@),
                pos >= i,
            decreases self@.len() - i,
        {
            if crate::bytes::bytes_eq(self.entries[i].hash.as_slice(), hash) {
                proof {
                    assert(self@[i as int].0 == hash@);
                    if pos > i {
                        lemma_find_hash(self@, hash@);
                        assert((self@[i as int]).0 != hash@);
                    }
                }
                return Some(&self.entries[i].name);
            }
            proof {
                lemma_find_hash(self@, hash@);
                assert(self@[i as int].0 != hash@);
                assert(pos != i);
            }
            i = i + 1;
        }
        None
    }

    /// All entries, in index order.
    pub fn list(&self) -> (r: Vec<FileEntry>)
        ensures
            r@.map_values(|e: FileEntry| e@) == self@,
    {
        let mut out: Vec<FileEntry> = Vec::new();
        let mut i: usize = 0;
        while i < self.entries.len()
            invariant
                0 <= i <= self@.len(),
                out@.len() == i,
                forall|j: int| 0 <= j < i ==> (#[trigger] out@[j])@ == self@[j],
            decreases self@.len() - i,
        {
            let e = FileEntry {
                name: slice_to_vec(self.entries[i].name.as_slice()),
                hash: slice_to_vec(self.entries[i].hash.as_slice()),
            };
            proof {
                assert(e@ == self@[i as int]);
            }
            out.push(e);
            i = i + 1;
        }
        proof {
            assert(out@.map_values(|e: FileEntry| e@) =~= self@);
        }
        out
    }
}

} // verus!
