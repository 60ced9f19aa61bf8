//! The persisted record of a transfer session.
//!
//! One `TransferManifest` document exists per session. Every file holds a
//! set of chunks keyed by chunk index — re-writing an index replaces the
//! prior entry, no history is kept — and a whole-file hash that is present
//! only once every chunk of the file was produced in one run. The document
//! is modelled as a map from chunk index to the recorded hash and size
//! (`chunk_map`); all engine contracts speak over that map.

use vstd::prelude::*;

verus! {

/// One recorded chunk: its ordinal position in the file, the lowercase
/// hexadecimal blake3 digest of its plaintext bytes, and its byte length.
#[derive(Clone, Debug)]
pub struct ChunkInfo {
    pub index: u64,
    pub hash: String,
    pub size: u64,
}

/// The recorded state of one file: its path, the chunk set, the whole-file
/// hash (absent while the file is partially transferred), and the size the
/// file declared when the entry was created.
#[derive(Clone, Debug)]
pub struct FileManifest {
    pub path: String,
    pub chunks: Vec<ChunkInfo>,
    pub final_hash: Option<String>,
    pub size: u64,
}

/// The per-session document: session id, whether chunks were sealed, and
/// one entry per file path.
#[derive(Clone, Debug)]
pub struct TransferManifest {
    pub session_id: String,
    pub encrypted: bool,
    pub files: Vec<FileManifest>,
}

/// What a chunk set records: hash and size by chunk index.
pub open spec fn chunk_map(chunks: Seq<ChunkInfo>) -> Map<u64, (Seq<char>, u64)>
    decreases chunks.len(),
{
    if chunks.len() == 0 {
        Map::empty()
    } else {
        chunk_map(chunks.drop_last()).insert(
            chunks.last().index,
            (chunks.last().hash@, chunks.last().size),
        )
    }
}

/// Whether some chunk in the sequence carries the given index.
pub open spec fn has_index(chunks: Seq<ChunkInfo>, index: u64) -> bool {
    exists|i: int| 0 <= i < chunks.len() && (#[trigger] chunks[i]).index == index
}

/// The sum of the recorded chunk sizes.
pub open spec fn spec_chunk_total(chunks: Seq<ChunkInfo>) -> nat
    decreases chunks.len(),
{
    if chunks.len() == 0 {
        0
    } else {
        (spec_chunk_total(chunks.drop_last()) + chunks.last().size) as nat
    }
}

/// The chunk map has a key exactly where some chunk carries the index, and
/// under a well-formed chunk set each chunk is its index's value.
pub proof fn lemma_chunk_map_complete(chunks: Seq<ChunkInfo>)
    requires
        unique_indices(chunks),
    ensures
        forall|k: u64| chunk_map(chunks).contains_key(k) <==> has_index(chunks, k),
        forall|i: int|
            0 <= i < chunks.len() ==> chunk_map(chunks)[(#[trigger] chunks[i]).index] == (
            chunks[i].hash@,
            chunks[i].size,
            ),
    decreases chunks.len(),
{
    if chunks.len() > 0 {
        let prefix = chunks.drop_last();
        assert(unique_indices(prefix));
        lemma_chunk_map_complete(prefix);
        assert forall|k: u64| chunk_map(chunks).contains_key(k) <==> has_index(chunks, k) by {
            assert(chunk_map(chunks) == chunk_map(prefix).insert(
                chunks.last().index,
                (chunks.last().hash@, chunks.last().size),
            ));
            if chunk_map(chunks).contains_key(k) {
                if k == chunks.last().index {
                    assert(chunks[chunks.len() - 1].index == k);
                    assert(has_index(chunks, k));
                } else {
                    assert(chunk_map(prefix).contains_key(k));
                    assert(has_index(prefix, k));
                    let i = choose|i: int|
                        0 <= i < prefix.len() && (#[trigger] prefix[i]).index == k;
                    assert(chunks[i] == prefix[i]);
                    assert(chunks[i].index == k);
                    assert(has_index(chunks, k));
                }
            }
            if has_index(chunks, k) {
                let i = choose|i: int| 0 <= i < chunks.len() && (#[trigger] chunks[i]).index == k;
                if i < chunks.len() - 1 {
                    assert(chunks[i] == prefix[i]);
                    assert(prefix[i].index == k);
                    assert(has_index(prefix, k));
                    assert(chunk_map(prefix).contains_key(k));
                    assert(chunk_map(chunks).contains_key(k));
                } else {
                    assert(k == chunks.last().index);
                    assert(chunk_map(chunks).contains_key(k));
                }
            }
        }
        assert forall|i: int|
            0 <= i < chunks.len() implies chunk_map(chunks)[(#[trigger] chunks[i]).index] == (
        chunks[i].hash@,
        chunks[i].size,
        ) by {
            assert(chunk_map(chunks) == chunk_map(prefix).insert(
                chunks.last().index,
                (chunks.last().hash@, chunks.last().size),
            ));
            if i < chunks.len() - 1 {
                assert(chunks[i] == prefix[i]);
                assert(chunks[i].index != chunks.last().index);
                assert(chunk_map(prefix)[prefix[i].index] == (prefix[i].hash@, prefix[i].size));
            }
        }
    }
}

/// No two chunks share an index.
pub open spec fn unique_indices(chunks: Seq<ChunkInfo>) -> bool {
    forall|i: int, j: int|
        0 <= i < j < chunks.len() ==> (#[trigger] chunks[i]).index != (#[trigger] chunks[j]).index
}

/// Replacing the chunk at a position by one with the same index updates
/// the chunk map at that one key.
proof fn lemma_chunk_map_update(chunks: Seq<ChunkInfo>, pos: int, info: ChunkInfo)
    requires
        unique_indices(chunks),
        0 <= pos < chunks.len(),
        chunks[pos].index == info.index,
    ensures
        chunk_map(chunks.update(pos, info)) =~= chunk_map(chunks).insert(
            info.index,
            (info.hash@, info.size),
        ),
    decreases chunks.len(),
{
    let updated = chunks.update(pos, info);
    if pos == chunks.len() - 1 {
        assert(updated.drop_last() =~= chunks.drop_last());
        assert(updated.last() == info);
    } else {
        let prefix = chunks.drop_last();
        assert(unique_indices(prefix));
        lemma_chunk_map_update(prefix, pos, info);
        assert(updated.drop_last() =~= prefix.update(pos, info));
        assert(updated.last() == chunks.last());
        assert(chunks.last().index != info.index);
    }
}

/// Appending a chunk whose index is new extends the chunk map at that key.
proof fn lemma_chunk_map_push(chunks: Seq<ChunkInfo>, info: ChunkInfo)
    ensures
        chunk_map(chunks.push(info)) =~= chunk_map(chunks).insert(
            info.index,
            (info.hash@, info.size),
        ),
{
    assert(chunks.push(info).drop_last() =~= chunks);
    assert(chunks.push(info).last() == info);
}

impl FileManifest {
    /// Well-formed: chunk indices are unique, so the chunk set really is a
    /// map keyed by index.
    pub open spec fn wf(&self) -> bool {
        unique_indices(self.chunks@)
    }

    /// A fresh entry for a path: no chunks, no whole-file hash yet.
    pub fn new(path: String, size: u64) -> (r: FileManifest)
        ensures
            r.wf(),
            r.path@ == path@,
            r.size == size,
            r.chunks@.len() == 0,
            r.final_hash is None,
            chunk_map(r.chunks@) =~= Map::<u64, (Seq<char>, u64)>::empty(),
    {
        FileManifest { path, chunks: Vec::new(), final_hash: None, size }
    }

    /// The position of the chunk recorded at `index`, if any.
    pub fn find_chunk(&self, index: u64) -> (r: Option<usize>)
        ensures
            match r {
                Some(pos) => pos < self.chunks@.len() && self.chunks@[pos as int].index == index,
                None => !has_index(self.chunks@, index),
            },
    {
        let mut i: usize = 0;
        while i < self.chunks.len()
            invariant
                i <= self.chunks@.len(),
                forall|k: int| 0 <= k < i ==> (#[trigger] self.chunks@[k]).index != index,
            decreases self.chunks@.len() - i,
        {
            if self.chunks[i].index == index {
                return Some(i);
            }
            i = i + 1;
        }
        None
    }

    /// Whether the chunk set records `index` with exactly this hash and
    /// size — the dedup test resume relies on.
    pub fn chunk_matches(&self, index: u64, hash: &String, size: u64) -> (r: bool)
        requires
            self.wf(),
        ensures
            r == (chunk_map(self.chunks@).contains_key(index) && chunk_map(self.chunks@)[index]
                == (hash@, size)),
    {
        proof {
            lemma_chunk_map_complete(self.chunks@);
        }
        match self.find_chunk(index) {
            Some(pos) => {
                let c = &self.chunks[pos];
                proof {
                    assert(has_index(self.chunks@, index));
                    assert(chunk_map(self.chunks@)[self.chunks@[pos as int].index] == (
                    self.chunks@[pos as int].hash@,
                    self.chunks@[pos as int].size,
                    ));
                }
                c.hash == *hash && c.size == size
            },
            None => false,
        }
    }

    /// Records a chunk: replaces any prior entry at the same index, else
    /// appends. The chunk map gains exactly this one binding.
    pub fn set_chunk(&mut self, info: ChunkInfo)
        requires
            old(self).wf(),
        ensures
            final(self).wf(),
            chunk_map(final(self).chunks@) =~= chunk_map(old(self).chunks@).insert(
                info.index,
                (info.hash@, info.size),
            ),
            final(self).path == old(self).path,
            final(self).size == old(self).size,
            final(self).final_hash == old(self).final_hash,
    {
        let ghost before = self.chunks@;
        match self.find_chunk(info.index) {
            Some(pos) => {
                proof {
                    lemma_chunk_map_update(before, pos as int, info);
                }
                self.chunks[pos] = info;
                assert(self.chunks@ == before.update(pos as int, info));
                assert forall|i: int, j: int|
                    0 <= i < j < self.chunks@.len() implies (#[trigger] self.chunks@[i]).index != (
                #[trigger] self.chunks@[j]).index by {
                    assert(before[i].index != before[j].index);
                    assert(self.chunks@[i].index == before[i].index);
                    assert(self.chunks@[j].index == before[j].index);
                }
            },
            None => {
                proof {
                    lemma_chunk_map_push(before, info);
                }
                self.chunks.push(info);
                assert forall|i: int, j: int|
                    0 <= i < j < self.chunks@.len() implies (#[trigger] self.chunks@[i]).index != (
                #[trigger] self.chunks@[j]).index by {
                    if j == self.chunks@.len() - 1 {
                        assert(!has_index(before, self.chunks@[j].index));
                        assert(before[i].index != self.chunks@[j].index);
                    }
                }
            },
        }
    }

    /// Marks the file complete under the given whole-file hash.
    pub fn set_final_hash(&mut self, hash: String)
        ensures
            final(self).final_hash matches Some(h) && h@ == hash@,
            final(self).chunks == old(self).chunks,
            final(self).path == old(self).path,
            final(self).size == old(self).size,
    {
        self.final_hash = Some(hash);
    }

    /// The bytes already recorded for this file: the sum of its chunk
    /// sizes, saturated at `u64::MAX`. Reported as pre-existing progress
    /// when a session resumes.
    pub fn reused_bytes(&self) -> (r: u64)
        ensures
            r == spec_saturate_u64(spec_chunk_total(self.chunks@)),
    {
        let mut total: u64 = 0;
        let mut i: usize = 0;
        while i < self.chunks.len()
            invariant
                i <= self.chunks@.len(),
                total == spec_saturate_u64(spec_chunk_total(self.chunks@.take(i as int))),
            decreases self.chunks@.len() - i,
        {
            proof {
                assert(self.chunks@.take(i + 1 as int).drop_last() =~= self.chunks@.take(i as int));
            }
            let size = self.chunks[i].size;
            if total <= u64::MAX - size {
                total = total + size;
            } else {
                total = u64::MAX;
            }
            i = i + 1;
        }
        proof {
            assert(self.chunks@.take(self.chunks@.len() as int) =~= self.chunks@);
        }
        total
    }
}

/// A natural number clamped into `u64`.
pub open spec fn spec_saturate_u64(n: nat) -> u64 {
    if n <= u64::MAX {
        n as u64
    } else {
        u64::MAX
    }
}

impl TransferManifest {
    /// Well-formed: file paths are unique and every entry is well-formed.
    pub open spec fn wf(&self) -> bool {
        &&& forall|i: int, j: int|
            0 <= i < j < self.files@.len() ==> (#[trigger] self.files@[i]).path@ != (
            #[trigger] self.files@[j]).path@
        &&& forall|i: int| 0 <= i < self.files@.len() ==> (#[trigger] self.files@[i]).wf()
    }

    /// A fresh document for a session.
    pub fn new(session_id: String, encrypted: bool) -> (r: TransferManifest)
        ensures
            r.wf(),
            r.session_id@ == session_id@,
            r.encrypted == encrypted,
            r.files@.len() == 0,
    {
        TransferManifest { session_id, encrypted, files: Vec::new() }
    }

    /// The position of the entry for a path, if any.
    pub fn find_file(&self, path: &String) -> (r: Option<usize>)
        ensures
            match r {
                Some(pos) => pos < self.files@.len() && self.files@[pos as int].path@ == path@,
                None => forall|i: int|
                    0 <= i < self.files@.len() ==> (#[trigger] self.files@[i]).path@ != path@,
            },
    {
        let mut i: usize = 0;
        while i < self.files.len()
            invariant
                i <= self.files@.len(),
                forall|k: int| 0 <= k < i ==> (#[trigger] self.files@[k]).path@ != path@,
            decreases self.files@.len() - i,
        {
            if self.files[i].path == *path {
                return Some(i);
            }
            i = i + 1;
        }
        None
    }

    /// Returns the position of the entry for a path, creating a fresh one
    /// (declared at the given size) if the document has none.
    pub fn ensure_file(&mut self, path: &String, size: u64) -> (r: usize)
        requires
            old(self).wf(),
        ensures
            final(self).wf(),
            r < final(self).files@.len(),
            final(self).files@[r as int].path@ == path@,
            final(self).session_id == old(self).session_id,
            final(self).encrypted == old(self).encrypted,
            has_file(old(self).files@, path@) ==> final(self).files@ == old(self).files@,
            !has_file(old(self).files@, path@) ==> {
                &&& final(self).files@.len() == old(self).files@.len() + 1
                &&& r == old(self).files@.len()
                &&& final(self).files@.subrange(0, old(self).files@.len() as int) == old(
                    self,
                ).files@
                &&& final(self).files@[r as int].chunks@.len() == 0
                &&& final(self).files@[r as int].final_hash is None
                &&& final(self).files@[r as int].size == size
            },
    {
        match self.find_file(path) {
            Some(pos) => {
                assert(has_file(self.files@, path@));
                pos
            },
            None => {
                let ghost before = self.files@;
                let entry = FileManifest::new(path.clone(), size);
                self.files.push(entry);
                proof {
                    assert(self.files@.subrange(0, before.len() as int) =~= before);
                    assert forall|i: int, j: int|
                        0 <= i < j < self.files@.len() implies (#[trigger] self.files@[i]).path@
                        != (#[trigger] self.files@[j]).path@ by {
                        if j == self.files@.len() - 1 {
                            assert(before[i].path@ != path@);
                        } else {
                            assert(before[i].path@ != before[j].path@);
                        }
                    }
                }
                self.files.len() - 1
            },
        }
    }
}

/// Whether the document has an entry for a path.
pub open spec fn has_file(files: Seq<FileManifest>, path: Seq<char>) -> bool {
    exists|i: int| 0 <= i < files.len() && (#[trigger] files[i]).path@ == path
}

} // verus!
