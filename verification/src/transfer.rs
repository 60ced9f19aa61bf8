//! The transfer engine: chunked, content-addressed, resumable, optionally
//! encrypted processing of a file set.
//!
//! A file is cut into fixed-size windows (the last may be shorter). Every
//! window is hashed; a window whose index, hash and size are already in the
//! session's manifest is reused — no re-encryption, no manifest rewrite,
//! only a hash comparison, which is what makes resuming cheap. A fresh
//! window is sealed (when the session encrypts) and recorded in the
//! manifest, replacing any prior entry at its index. The caller persists
//! the manifest after every recorded chunk and before counters advance, so
//! a resumed run never claims credit for unpersisted chunks. After a file's
//! last window the whole-file hash is recorded and the file's progress is
//! marked done.

use vstd::prelude::*;

use crate::crypto::{chacha_seal, chunk_nonce, MAX_SEAL_BYTES};
use crate::errors::TransferError;
use crate::hashing::{content_hash, spec_content_hash};
use crate::manifest::{chunk_map, FileManifest, ChunkInfo, TransferManifest, has_file};
use crate::progress::{TransferManager, TransferState, is_status_at, has_status, is_first_fp};

verus! {

/// One file of the transfer set, as the file listing reports it: path,
/// display name, size in bytes, whether it is a directory, and the
/// whole-file checksum computed for regular files.
#[derive(Clone, Debug)]
pub struct FileEntry {
    pub path: String,
    pub name: String,
    pub size: u64,
    pub is_dir: bool,
    pub checksum: Option<String>,
}

/// Per-transfer options: whether to seal chunks, and the password the
/// session key is derived from.
#[derive(Clone, Debug)]
pub struct SendOptions {
    pub encrypt: bool,
    pub password: Option<String>,
}

/// What one window's processing amounted to.
#[derive(Clone, Copy, Debug, PartialEq, Eq, Structural)]
pub enum ChunkOutcome {
    /// The manifest already recorded this index with the same hash and
    /// size: nothing was sealed, nothing needs persisting.
    Reused,
    /// The chunk was (re)recorded; the manifest must be persisted before
    /// counters advance.
    Written,
}

/// The windows a byte string is cut into: `chunk_size` bytes each, the
/// last shorter if the length is not a multiple.
pub open spec fn spec_chunks_of(data: Seq<u8>, cs: nat) -> Seq<Seq<u8>>
    recommends
        cs >= 1,
    decreases data.len(),
    when cs >= 1
{
    if data.len() == 0 {
        Seq::empty()
    } else if data.len() <= cs {
        seq![data]
    } else {
        seq![data.take(cs as int)] + spec_chunks_of(data.skip(cs as int), cs)
    }
}

/// There are no more windows than bytes.
pub proof fn lemma_chunks_len_le(data: Seq<u8>, cs: nat)
    requires
        cs >= 1,
    ensures
        spec_chunks_of(data, cs).len() <= data.len(),
    decreases data.len(),
{
    if data.len() > cs {
        lemma_chunks_len_le(data.skip(cs as int), cs);
    }
}

/// What a full run records for a file's content: hash and size of every
/// window, keyed by window index.
pub open spec fn spec_file_chunk_map(data: Seq<u8>, cs: nat) -> Map<u64, (Seq<char>, u64)> {
    Map::new(
        |k: u64| (k as nat) < spec_chunks_of(data, cs).len(),
        |k: u64|
            (
                spec_content_hash(spec_chunks_of(data, cs)[k as int]),
                spec_chunks_of(data, cs)[k as int].len() as u64,
            ),
    )
}

/// Whether the recorded map lets window `k` be reused: it holds `k` with
/// exactly the window's hash and size.
pub open spec fn spec_chunk_reusable(
    m: Map<u64, (Seq<char>, u64)>,
    chunks: Seq<Seq<u8>>,
    k: int,
) -> bool {
    &&& m.contains_key(k as u64)
    &&& m[k as u64] == (spec_content_hash(chunks[k]), chunks[k].len() as u64)
}

/// How many of the first `n` windows are not reusable against `m`: the
/// windows a rerun must seal and record again.
pub open spec fn spec_fresh_count(m: Map<u64, (Seq<char>, u64)>, chunks: Seq<Seq<u8>>, n: int) -> nat
    decreases n,
{
    if n <= 0 {
        0
    } else {
        spec_fresh_count(m, chunks, n - 1) + (if spec_chunk_reusable(m, chunks, n - 1) {
            0nat
        } else {
            1nat
        })
    }
}

/// Counts over what a run writes for one file.
#[derive(Clone, Copy, Debug)]
pub struct FileRunStats {
    /// Windows the file was cut into.
    pub chunk_count: u64,
    /// Windows reused from the manifest (dedup short-circuit).
    pub reused_chunks: u64,
    /// Windows sealed and recorded anew.
    pub written_chunks: u64,
}

/// Copies the byte window `start..end` out of a buffer.
fn vec_window(data: &Vec<u8>, start: usize, end: usize) -> (r: Vec<u8>)
    requires
        start <= end <= data@.len(),
    ensures
        r@ == data@.subrange(start as int, end as int),
{
    let mut r: Vec<u8> = Vec::new();
    let mut j: usize = start;
    while j < end
        invariant
            start <= j <= end <= data@.len(),
            r@ == data@.subrange(start as int, j as int),
        decreases end - j,
    {
        r.push(data[j]);
        proof {
            assert(r@ =~= data@.subrange(start as int, j + 1 as int));
        }
        j = j + 1;
    }
    r
}

/// Processes one window against a file's manifest entry: hash it, reuse it
/// if the entry already records exactly this index, hash and size
/// (skipping re-encryption), otherwise seal it (when a key is given) and
/// record it, replacing any prior entry at this index.
///
/// The outcome is `Reused` exactly where the prior map matched, and then
/// the entry is untouched; in every case the entry's chunk map afterwards
/// holds this window under its index. The window bound keeps the seal
/// within the cipher's plaintext limit, so processing a chunk cannot fail.
pub fn process_chunk(
    entry: &mut FileManifest,
    index: u64,
    data: &Vec<u8>,
    key: Option<&Vec<u8>>,
) -> (r: ChunkOutcome)
    requires
        old(entry).wf(),
        key matches Some(k) ==> k@.len() == 32 && data@.len() < MAX_SEAL_BYTES,
        data@.len() <= u64::MAX,
    ensures
        final(entry).wf(),
        final(entry).path == old(entry).path,
        final(entry).size == old(entry).size,
        final(entry).final_hash == old(entry).final_hash,
        chunk_map(final(entry).chunks@) =~= chunk_map(old(entry).chunks@).insert(
            index,
            (spec_content_hash(data@), data@.len() as u64),
        ),
        r == ChunkOutcome::Reused <==> (chunk_map(old(entry).chunks@).contains_key(index)
            && chunk_map(old(entry).chunks@)[index] == (
        spec_content_hash(data@),
        data@.len() as u64,
        )),
        r == ChunkOutcome::Reused ==> *final(entry) == *old(entry),
{
    let hash = content_hash(data);
    let size = data.len() as u64;
    if entry.chunk_matches(index, &hash, size) {
        proof {
            assert(chunk_map(entry.chunks@) =~= chunk_map(entry.chunks@).insert(
                index,
                (spec_content_hash(data@), data@.len() as u64),
            ));
        }
        return ChunkOutcome::Reused;
    }
    if let Some(k) = key {
        let nonce = chunk_nonce(index);
        let _sealed = chacha_seal(k, &nonce, data);
    }
    entry.set_chunk(ChunkInfo { index, hash, size });
    ChunkOutcome::Written
}


/// What a full run records for the first `upto` windows.
spec fn spec_partial_chunk_map(data: Seq<u8>, cs: nat, upto: int) -> Map<u64, (Seq<char>, u64)> {
    Map::new(
        |k: u64| (k as int) < upto && (k as nat) < spec_chunks_of(data, cs).len(),
        |k: u64|
            (
                spec_content_hash(spec_chunks_of(data, cs)[k as int]),
                spec_chunks_of(data, cs)[k as int].len() as u64,
            ),
    )
}

/// How a finished file rewrites a session's status: identity, state and
/// estimate are untouched, the file's progress entry ends done and fully
/// counted. The session's byte counter and rate track the running totals
/// while chunks process and are pinned when the session completes.
pub open spec fn spec_file_done_update(
    st: crate::progress::TransferStatus,
    st2: crate::progress::TransferStatus,
    path: Seq<char>,
) -> bool {
    &&& st2.session_id == st.session_id
    &&& st2.total_bytes == st.total_bytes
    &&& st2.started_at_ms == st.started_at_ms
    &&& st2.state == st.state
    &&& st2.eta_seconds == st.eta_seconds
    &&& st2.file_progress@.len() == st.file_progress@.len()
    &&& forall|q: int|
        crate::progress::is_first_fp(st.file_progress@, path, q)
            ==> st2.file_progress@ == st.file_progress@.update(
            q,
            crate::progress::spec_fp_done(st.file_progress@[q]),
        )
    &&& !crate::progress::has_fp(st.file_progress@, path) ==> st2.file_progress@
        == st.file_progress@
}

/// Runs one file's bytes through the engine: every window is hashed,
/// reused where the manifest already records it, sealed and recorded where
/// it does not; afterwards the whole-file hash is recorded and the file's
/// progress entry is marked done. The manifest entry ends holding exactly
/// the prior map overridden by this content's windows, with the exact
/// count of windows that were fresh work; the window bound keeps every
/// seal within the cipher's plaintext limit, so the run cannot fail.
#[verifier::rlimit(50)]
pub fn transfer_file(
    entry: &mut FileManifest,
    data: &Vec<u8>,
    chunk_size: u64,
    key: Option<&Vec<u8>>,
    manager: &mut TransferManager,
    session_id: &String,
    file_path: &String,
    now_ms: u64,
) -> (stats: FileRunStats)
    requires
        old(entry).wf(),
        old(manager).wf(),
        chunk_size >= 1,
        key matches Some(k) ==> k@.len() == 32 && chunk_size < MAX_SEAL_BYTES,
        data@.len() + chunk_size <= usize::MAX,
    ensures
        final(entry).wf(),
        final(manager).wf(),
        final(entry).path == old(entry).path,
        final(entry).size == old(entry).size,
        final(manager)@.len() == old(manager)@.len(),
        !has_status(old(manager)@, session_id@) ==> final(manager)@ == old(manager)@,
        chunk_map(final(entry).chunks@) =~= chunk_map(old(entry).chunks@).union_prefer_right(
            spec_file_chunk_map(data@, chunk_size as nat),
        ),
        final(entry).final_hash matches Some(h) && h@ == spec_content_hash(data@),
        stats.chunk_count == spec_chunks_of(data@, chunk_size as nat).len(),
        stats.written_chunks == spec_fresh_count(
            chunk_map(old(entry).chunks@),
            spec_chunks_of(data@, chunk_size as nat),
            spec_chunks_of(data@, chunk_size as nat).len() as int,
        ),
        stats.reused_chunks + stats.written_chunks == stats.chunk_count,
        forall|p: int|
            is_status_at(old(manager)@, session_id@, p) ==> final(manager)@ == old(
                manager,
            )@.update(p, final(manager)@[p]) && spec_file_done_update(
                old(manager)@[p],
                final(manager)@[p],
                file_path@,
            ),
{
    let ghost chunks = spec_chunks_of(data@, chunk_size as nat);
    let ghost old_map = chunk_map(old(entry).chunks@);
    let ghost old_mgr = old(manager)@;
    let len = data.len();
    let cs = chunk_size as usize;
    let mut start: usize = 0;
    let mut index: u64 = 0;
    let mut reused: u64 = 0;
    let mut written: u64 = 0;
    proof {
        lemma_chunks_len_le(data@, chunk_size as nat);
        assert(data@.skip(0) =~= data@);
        assert(chunks.skip(0) =~= chunks);
        assert(chunk_map(entry.chunks@) =~= old_map.union_prefer_right(
            spec_partial_chunk_map(data@, chunk_size as nat, 0),
        ));
    }
    while start < len
        invariant
            entry.wf(),
            manager.wf(),
            chunk_size >= 1,
            cs == chunk_size as usize,
            key matches Some(k) ==> k@.len() == 32 && chunk_size < MAX_SEAL_BYTES,
            len == data@.len(),
            data@.len() + chunk_size <= usize::MAX,
            chunks == spec_chunks_of(data@, chunk_size as nat),
            old_map == chunk_map(old(entry).chunks@),
            old_mgr == old(manager)@,
            chunks.len() <= data@.len(),
            start <= len,
            index <= chunks.len(),
            spec_chunks_of(data@.skip(start as int), chunk_size as nat) == chunks.skip(
                index as int,
            ),
            (start < len) <==> (index < chunks.len()),
            entry.path == old(entry).path,
            entry.size == old(entry).size,
            entry.final_hash == old(entry).final_hash,
            chunk_map(entry.chunks@) =~= old_map.union_prefer_right(
                spec_partial_chunk_map(data@, chunk_size as nat, index as int),
            ),
            written == spec_fresh_count(old_map, chunks, index as int),
            reused + written == index,
            manager@.len() == old_mgr.len(),
            !has_status(old_mgr, session_id@) ==> manager@ == old_mgr,
            forall|p: int|
                is_status_at(old_mgr, session_id@, p) ==> manager@ == old_mgr.update(
                    p,
                    manager@[p],
                ) && spec_file_frame(old_mgr[p], manager@[p], file_path@),
        decreases len - start,
    {
        let end = if len - start > cs {
            start + cs
        } else {
            len
        };
        let window = vec_window(data, start, end);
        proof {
            let rest = data@.skip(start as int);
            assert(rest.len() > 0);
            assert(spec_chunks_of(rest, chunk_size as nat) == chunks.skip(index as int));
            if rest.len() <= chunk_size {
                assert(end == len);
                assert(window@ =~= rest);
                assert(chunks.skip(index as int)[0] == rest);
            } else {
                assert(end == start + cs);
                assert(window@ =~= rest.take(chunk_size as int));
                assert(chunks.skip(index as int)[0] == rest.take(chunk_size as int));
            }
            assert(chunks[index as int] == chunks.skip(index as int)[0]);
            assert(window@ == chunks[index as int]);
        }
        let ghost map_before = chunk_map(entry.chunks@);
        proof {
            if key is Some {
                assert(window@.len() <= chunk_size);
            }
        }
        let outcome = process_chunk(entry, index, &window, key);
        proof {
            let partial = spec_partial_chunk_map(data@, chunk_size as nat, index as int);
            let partial2 = spec_partial_chunk_map(data@, chunk_size as nat, index + 1);
            assert(!partial.contains_key(index));
            assert(chunk_map(entry.chunks@) =~= old_map.union_prefer_right(partial2));
            if old_map.contains_key(index) {
                assert(old_map.union_prefer_right(partial)[index] == old_map[index]);
            }
            assert(spec_chunk_reusable(old_map, chunks, index as int) == (outcome
                == ChunkOutcome::Reused));
        }
        if matches!(outcome, ChunkOutcome::Reused) {
            reused = reused + 1;
        } else {
            written = written + 1;
        }
        let wlen = (end - start) as u64;
        let ghost mgr_before = manager@;
        manager.update_progress(session_id, file_path, wlen, now_ms);
        proof {
            assert forall|p: int| is_status_at(old_mgr, session_id@, p) implies manager@
                == old_mgr.update(p, manager@[p]) && spec_file_frame(
                old_mgr[p],
                manager@[p],
                file_path@,
            ) by {
                assert(is_status_at(mgr_before, session_id@, p));
                lemma_file_frame_chunk(
                    old_mgr[p],
                    mgr_before[p],
                    manager@[p],
                    file_path@,
                    wlen,
                    now_ms,
                );
                assert(manager@ =~= old_mgr.update(p, manager@[p]));
            }
            if !has_status(old_mgr, session_id@) {
                assert(!has_status(mgr_before, session_id@));
            }
            let rest = data@.skip(start as int);
            assert(data@.skip(end as int) =~= rest.skip((end - start) as int));
            if rest.len() > chunk_size {
                assert(spec_chunks_of(rest, chunk_size as nat) == seq![rest.take(chunk_size as int)]
                    + spec_chunks_of(rest.skip(chunk_size as int), chunk_size as nat));
                assert(end - start == chunk_size);
                assert(data@.skip(end as int) =~= rest.skip(chunk_size as int));
                assert(spec_chunks_of(rest.skip(chunk_size as int), chunk_size as nat)
                    =~~= spec_chunks_of(rest, chunk_size as nat).skip(1));
                assert(chunks.skip(index as int).skip(1) =~~= chunks.skip(index + 1));
                assert(spec_chunks_of(data@.skip(end as int), chunk_size as nat) =~~= chunks.skip(
                    index + 1,
                ));
            } else {
                assert(end == len);
                assert(chunks.skip(index as int).len() == 1);
                assert(chunks.len() == index + 1);
                assert(data@.skip(end as int) =~= Seq::<u8>::empty());
                assert(spec_chunks_of(data@.skip(end as int), chunk_size as nat)
                    == Seq::<Seq<u8>>::empty());
                assert(chunks.skip(index + 1).len() == 0);
                assert(spec_chunks_of(data@.skip(end as int), chunk_size as nat).len() == 0);
                assert(spec_chunks_of(data@.skip(end as int), chunk_size as nat) =~~= chunks.skip(
                    index + 1,
                ));
            }
        }
        start = end;
        index = index + 1;
    }
    proof {
        assert(index == chunks.len());
        assert(spec_partial_chunk_map(data@, chunk_size as nat, index as int)
            =~= spec_file_chunk_map(data@, chunk_size as nat));
    }
    let final_hash = content_hash(data);
    entry.set_final_hash(final_hash);
    let ghost mgr_before = manager@;
    manager.mark_file_done(session_id, file_path);
    proof {
        assert forall|p: int| is_status_at(old_mgr, session_id@, p) implies final(manager)@
            == old_mgr.update(p, manager@[p]) && spec_file_done_update(
            old_mgr[p],
            manager@[p],
            file_path@,
        ) by {
            assert(is_status_at(mgr_before, session_id@, p));
            lemma_file_frame_done(old_mgr[p], mgr_before[p], manager@[p], file_path@);
            assert(manager@ =~= old_mgr.update(p, manager@[p]));
        }
    }
    FileRunStats { chunk_count: index, reused_chunks: reused, written_chunks: written }
}

/// The status facts the chunk loop maintains: identity, state and estimate
/// untouched; only the file's own progress entry moves, and only its
/// transferred counter.
spec fn spec_file_frame(
    st: crate::progress::TransferStatus,
    st2: crate::progress::TransferStatus,
    path: Seq<char>,
) -> bool {
    &&& st2.session_id == st.session_id
    &&& st2.total_bytes == st.total_bytes
    &&& st2.started_at_ms == st.started_at_ms
    &&& st2.state == st.state
    &&& st2.eta_seconds == st.eta_seconds
    &&& st2.file_progress@.len() == st.file_progress@.len()
    &&& forall|q2: int|
        0 <= q2 < st.file_progress@.len() && !crate::progress::is_first_fp(
            st.file_progress@,
            path,
            q2,
        ) ==> st2.file_progress@[q2] == st.file_progress@[q2]
    &&& forall|q2: int|
        crate::progress::is_first_fp(st.file_progress@, path, q2) ==> {
            &&& (#[trigger] st2.file_progress@[q2]).path == st.file_progress@[q2].path
            &&& st2.file_progress@[q2].total == st.file_progress@[q2].total
            &&& st2.file_progress@[q2].done == st.file_progress@[q2].done
        }
}

/// A chunk update preserves the file frame.
#[verifier::rlimit(100)]
#[verifier::spinoff_prover]
proof fn lemma_file_frame_chunk(
    st0: crate::progress::TransferStatus,
    st1: crate::progress::TransferStatus,
    st2: crate::progress::TransferStatus,
    path: Seq<char>,
    c: u64,
    n: u64,
)
    requires
        spec_file_frame(st0, st1, path),
        crate::progress::spec_chunk_update(st1, st2, path, c, n),
    ensures
        spec_file_frame(st0, st2, path),
{
    let fps0 = st0.file_progress@;
    let fps1 = st1.file_progress@;
    let fps2 = st2.file_progress@;
    if crate::progress::has_fp(fps0, path) {
        let w = choose|w: int| 0 <= w < fps0.len() && (#[trigger] fps0[w]).path@ == path;
        let q = lemma_fps_first(fps0, path, w);
        lemma_fps_match_carries(fps0, fps1, path, q);
        assert(fps2 == fps1.update(q, crate::progress::spec_fp_bumped(fps1[q], c)));
        assert forall|q2: int|
            0 <= q2 < fps0.len() && !crate::progress::is_first_fp(fps0, path, q2) implies fps2[q2]
            == fps0[q2] by {
            assert(q2 != q);
            assert(fps2[q2] == fps1[q2]);
            assert(fps1[q2] == fps0[q2]);
        }
        assert forall|q2: int| crate::progress::is_first_fp(fps0, path, q2) implies {
            &&& (#[trigger] fps2[q2]).path == fps0[q2].path
            &&& fps2[q2].total == fps0[q2].total
            &&& fps2[q2].done == fps0[q2].done
        } by {
            lemma_first_fp_same(fps0, path, q, q2);
            assert(fps2[q] == crate::progress::spec_fp_bumped(fps1[q], c));
            assert(fps1[q].path == fps0[q].path);
            assert(fps1[q].total == fps0[q].total);
            assert(fps1[q].done == fps0[q].done);
        }
    } else {
        assert forall|q2: int| 0 <= q2 < fps1.len() implies (#[trigger] fps1[q2]).path@ != path by {
            assert(!crate::progress::is_first_fp(fps0, path, q2));
            assert(fps1[q2] == fps0[q2]);
            assert(fps0[q2].path@ != path);
        }
        assert(!crate::progress::has_fp(fps1, path));
        assert(fps2 == fps1);
        assert forall|q2: int|
            0 <= q2 < fps0.len() && !crate::progress::is_first_fp(fps0, path, q2) implies fps2[q2]
            == fps0[q2] by {
            assert(fps1[q2] == fps0[q2]);
        }
        assert forall|q2: int| crate::progress::is_first_fp(fps0, path, q2) implies {
            &&& (#[trigger] fps2[q2]).path == fps0[q2].path
            &&& fps2[q2].total == fps0[q2].total
            &&& fps2[q2].done == fps0[q2].done
        } by {
            assert(fps0[q2].path@ == path);
            assert(crate::progress::has_fp(fps0, path));
        }
    }
}

/// A finished-file update composed onto the file frame yields the
/// finished-file relation against the status the file run began from.
#[verifier::rlimit(100)]
#[verifier::spinoff_prover]
proof fn lemma_file_frame_done(
    st0: crate::progress::TransferStatus,
    st1: crate::progress::TransferStatus,
    st2: crate::progress::TransferStatus,
    path: Seq<char>,
)
    requires
        spec_file_frame(st0, st1, path),
        crate::progress::spec_done_update(st1, st2, path),
    ensures
        spec_file_done_update(st0, st2, path),
{
    let fps0 = st0.file_progress@;
    let fps1 = st1.file_progress@;
    let fps2 = st2.file_progress@;
    if crate::progress::has_fp(fps0, path) {
        let w = choose|w: int| 0 <= w < fps0.len() && (#[trigger] fps0[w]).path@ == path;
        let q = lemma_fps_first(fps0, path, w);
        lemma_fps_match_carries(fps0, fps1, path, q);
        assert(fps2 == fps1.update(q, crate::progress::spec_fp_done(fps1[q])));
        assert(fps1[q].path == fps0[q].path && fps1[q].total == fps0[q].total);
        assert(crate::progress::spec_fp_done(fps1[q]) == crate::progress::spec_fp_done(fps0[q]));
        assert forall|q2: int|
            0 <= q2 < fps0.len() && q2 != q implies fps1[q2] == fps0[q2] by {
            assert(!crate::progress::is_first_fp(fps0, path, q2));
        }
        assert(fps2 =~= fps0.update(q, crate::progress::spec_fp_done(fps0[q])));
        assert forall|q2: int|
            crate::progress::is_first_fp(fps0, path, q2) implies fps2 == fps0.update(
            q2,
            crate::progress::spec_fp_done(fps0[q2]),
        ) by {
            lemma_first_fp_same(fps0, path, q, q2);
        }
    } else {
        assert forall|q2: int| 0 <= q2 < fps0.len() implies fps1[q2] == fps0[q2] by {
            assert(!crate::progress::is_first_fp(fps0, path, q2)) by {
                if crate::progress::is_first_fp(fps0, path, q2) {
                    assert(crate::progress::has_fp(fps0, path));
                }
            }
        }
        assert forall|q2: int| 0 <= q2 < fps1.len() implies (#[trigger] fps1[q2]).path@ != path by {
            assert(fps1[q2] == fps0[q2]);
            assert(fps0[q2].path@ != path);
        }
        assert(!crate::progress::has_fp(fps1, path));
        assert(fps2 == fps1);
        assert(fps2 =~= fps0);
    }
}

/// A position carrying the path yields the first such position.
proof fn lemma_fps_first(
    fps: Seq<crate::progress::FileProgress>,
    path: Seq<char>,
    w: int,
) -> (q: int)
    requires
        0 <= w < fps.len(),
        fps[w].path@ == path,
    ensures
        crate::progress::is_first_fp(fps, path, q),
    decreases w,
{
    if exists|k: int| 0 <= k < w && (#[trigger] fps[k]).path@ == path {
        let k = choose|k: int| 0 <= k < w && (#[trigger] fps[k]).path@ == path;
        lemma_fps_first(fps, path, k)
    } else {
        assert forall|k: int| 0 <= k < w implies (#[trigger] fps[k]).path@ != path by {}
        w
    }
}

/// Under the file frame, the first match keeps its position.
proof fn lemma_fps_match_carries(
    fps0: Seq<crate::progress::FileProgress>,
    fps1: Seq<crate::progress::FileProgress>,
    path: Seq<char>,
    q: int,
)
    requires
        fps1.len() == fps0.len(),
        crate::progress::is_first_fp(fps0, path, q),
        forall|q2: int|
            0 <= q2 < fps0.len() && !crate::progress::is_first_fp(fps0, path, q2) ==> fps1[q2]
                == fps0[q2],
        fps1[q].path == fps0[q].path,
    ensures
        crate::progress::is_first_fp(fps1, path, q),
{
    assert forall|k: int| 0 <= k < q implies (#[trigger] fps1[k]).path@ != path by {
        assert(fps0[k].path@ != path);
        assert(!crate::progress::is_first_fp(fps0, path, k));
        assert(fps1[k] == fps0[k]);
    }
}

/// Two first matches are the same position.
proof fn lemma_first_fp_same(
    fps: Seq<crate::progress::FileProgress>,
    path: Seq<char>,
    a: int,
    b: int,
)
    requires
        crate::progress::is_first_fp(fps, path, a),
        crate::progress::is_first_fp(fps, path, b),
    ensures
        a == b,
{
    if a < b {
        assert(fps[a].path@ != path);
    }
    if b < a {
        assert(fps[b].path@ != path);
    }
}


/// The position of the entry for `path`, as a named value.
pub open spec fn spec_path_pos(files: Seq<FileManifest>, path: Seq<char>) -> int {
    choose|e: int| 0 <= e < files.len() && (#[trigger] files[e]).path@ == path
}

/// What the manifest records for a path: the entry's chunk map, or the
/// empty map where the path has no entry yet.
pub open spec fn spec_path_chunk_map(files: Seq<FileManifest>, path: Seq<char>) -> Map<
    u64,
    (Seq<char>, u64),
> {
    if has_file(files, path) {
        chunk_map(files[spec_path_pos(files, path)].chunks@)
    } else {
        Map::empty()
    }
}

/// The whole-file hash the manifest records for a path, if any.
pub open spec fn spec_path_final_hash(files: Seq<FileManifest>, path: Seq<char>) -> Option<
    Seq<char>,
> {
    if has_file(files, path) {
        match files[spec_path_pos(files, path)].final_hash {
            Some(h) => Some(h@),
            None => None,
        }
    } else {
        None
    }
}

/// Unique paths in a file list.
pub open spec fn unique_paths(files: Seq<FileManifest>) -> bool {
    forall|i: int, j: int|
        0 <= i < j < files.len() ==> (#[trigger] files[i]).path@ != (#[trigger] files[j]).path@
}

/// Under unique paths, the entry holding a path is the chosen position.
proof fn lemma_path_pos(files: Seq<FileManifest>, path: Seq<char>, e: int)
    requires
        unique_paths(files),
        0 <= e < files.len(),
        files[e].path@ == path,
    ensures
        spec_path_pos(files, path) == e,
        has_file(files, path),
{
    let q = spec_path_pos(files, path);
    assert(0 <= q < files.len() && files[q].path@ == path);
    if q < e {
        assert(files[q].path@ != files[e].path@);
    }
    if e < q {
        assert(files[e].path@ != files[q].path@);
    }
}

/// Appending an entry for a new path leaves every other path's record
/// untouched.
proof fn lemma_path_frame_push(files: Seq<FileManifest>, entry: FileManifest, path: Seq<char>)
    requires
        unique_paths(files),
        unique_paths(files.push(entry)),
        path != entry.path@,
    ensures
        spec_path_chunk_map(files.push(entry), path) == spec_path_chunk_map(files, path),
        spec_path_final_hash(files.push(entry), path) == spec_path_final_hash(files, path),
        has_file(files.push(entry), path) == has_file(files, path),
{
    let files1 = files.push(entry);
    if has_file(files, path) {
        let e = choose|e: int| 0 <= e < files.len() && (#[trigger] files[e]).path@ == path;
        assert(files1[e].path@ == path);
        lemma_path_pos(files, path, e);
        lemma_path_pos(files1, path, e);
    } else {
        if has_file(files1, path) {
            let e = choose|e: int| 0 <= e < files1.len() && (#[trigger] files1[e]).path@ == path;
            assert(e == files.len());
            assert(false);
        }
    }
}

/// Replacing one path's entry leaves every other path's record untouched.
proof fn lemma_path_frame_update(
    files: Seq<FileManifest>,
    pos: int,
    entry: FileManifest,
    path: Seq<char>,
)
    requires
        unique_paths(files),
        0 <= pos < files.len(),
        entry.path@ == files[pos].path@,
        path != files[pos].path@,
    ensures
        unique_paths(files.update(pos, entry)),
        spec_path_chunk_map(files.update(pos, entry), path) == spec_path_chunk_map(files, path),
        spec_path_final_hash(files.update(pos, entry), path) == spec_path_final_hash(files, path),
        has_file(files.update(pos, entry), path) == has_file(files, path),
{
    let files1 = files.update(pos, entry);
    assert forall|i: int, j: int|
        0 <= i < j < files1.len() implies (#[trigger] files1[i]).path@ != (
    #[trigger] files1[j]).path@ by {
        assert(files[i].path@ != files[j].path@);
    }
    if has_file(files, path) {
        let e = choose|e: int| 0 <= e < files.len() && (#[trigger] files[e]).path@ == path;
        assert(e != pos);
        assert(files1[e].path@ == path);
        lemma_path_pos(files, path, e);
        lemma_path_pos(files1, path, e);
        assert(files1[e] == files[e]);
    } else {
        if has_file(files1, path) {
            let e = choose|e: int| 0 <= e < files1.len() && (#[trigger] files1[e]).path@ == path;
            assert(e != pos);
            assert(files[e].path@ == path);
            assert(false);
        }
    }
}

/// What one finished file leaves in the manifest: an entry for its path
/// whose chunk map is the prior record overridden by this content's
/// windows, and whose whole-file hash is this content's hash.
pub open spec fn spec_path_done(
    files: Seq<FileManifest>,
    old_files: Seq<FileManifest>,
    path: Seq<char>,
    data: Seq<u8>,
    cs: nat,
) -> bool {
    &&& has_file(files, path)
    &&& spec_path_chunk_map(files, path) =~= spec_path_chunk_map(
        old_files,
        path,
    ).union_prefer_right(spec_file_chunk_map(data, cs))
    &&& spec_path_final_hash(files, path) == Some(spec_content_hash(data))
}

/// Whether the options admit a session key: an unencrypted run needs
/// none, an encrypted one needs the password's UTF-8 form within the
/// hash's length bound. Success of a whole run turns on exactly this.
pub open spec fn spec_options_password_ok(options: SendOptions) -> bool {
    options.encrypt ==> crate::crypto::spec_password_within_limit(
        match options.password {
            Some(p) => p@,
            None => Seq::empty(),
        },
    )
}

/// Orchestrates one session's run over an in-memory file set: derives the
/// session key where asked, reports every file's pre-existing progress
/// (state `Resuming`) before any chunk work, publishes `Transferring`,
/// pushes every regular file through `transfer_file`, and completes the
/// session. Each slot of `contents` holds the bytes of the matching file
/// (ignored for directories).
///
/// The run succeeds exactly where the options admit a key; a failed run —
/// always a `CryptoFailure`, before any work — leaves the manifest and the
/// registry untouched. On success every regular file's manifest entry
/// records exactly its content's windows over the prior record and its
/// whole-file hash; the returned counts say per file how many windows were
/// reused and how many were fresh work; the session's status ends
/// `Completed` with its counter equal to its byte total, rate zero,
/// nothing left to wait for, and every regular file's progress entry done
/// and fully counted.
#[verifier::rlimit(100)]
#[verifier::spinoff_prover]
pub fn execute_transfer(
    manager: &mut TransferManager,
    manifest: &mut TransferManifest,
    session_id: &String,
    files: &Vec<FileEntry>,
    contents: &Vec<Vec<u8>>,
    options: &SendOptions,
    chunk_size: u64,
    now_ms: u64,
) -> (r: Result<Vec<FileRunStats>, TransferError>)
    requires
        old(manager).wf(),
        old(manifest).wf(),
        files@.len() == contents@.len(),
        chunk_size >= 1,
        options.encrypt ==> chunk_size < MAX_SEAL_BYTES,
        forall|i: int|
            0 <= i < contents@.len() ==> (#[trigger] contents@[i])@.len() + chunk_size
                <= usize::MAX,
        forall|i: int, j: int|
            0 <= i < j < files@.len() ==> (#[trigger] files@[i]).path@ != (
            #[trigger] files@[j]).path@,
    ensures
        final(manager).wf(),
        final(manifest).wf(),
        final(manifest).session_id == old(manifest).session_id,
        final(manifest).encrypted == old(manifest).encrypted,
        final(manager)@.len() == old(manager)@.len(),
        !has_status(old(manager)@, session_id@) ==> final(manager)@ == old(manager)@,
        r is Ok <==> spec_options_password_ok(*options),
        r is Err ==> r->Err_0 == TransferError::CryptoFailure && *final(manifest) == *old(
            manifest,
        ) && final(manager)@ == old(manager)@,
        r matches Ok(stats) ==> {
            &&& stats@.len() == files@.len()
            &&& forall|i: int|
                0 <= i < files@.len() && !(#[trigger] files@[i]).is_dir ==> spec_path_done(
                    final(manifest).files@,
                    old(manifest).files@,
                    files@[i].path@,
                    contents@[i]@,
                    chunk_size as nat,
                ) && stats@[i].chunk_count == spec_chunks_of(
                    contents@[i]@,
                    chunk_size as nat,
                ).len() && stats@[i].written_chunks == spec_fresh_count(
                    spec_path_chunk_map(old(manifest).files@, files@[i].path@),
                    spec_chunks_of(contents@[i]@, chunk_size as nat),
                    spec_chunks_of(contents@[i]@, chunk_size as nat).len() as int,
                ) && stats@[i].reused_chunks + stats@[i].written_chunks == stats@[i].chunk_count
            &&& forall|i: int|
                0 <= i < files@.len() && (#[trigger] files@[i]).is_dir ==> stats@[i].chunk_count
                    == 0 && stats@[i].written_chunks == 0 && stats@[i].reused_chunks == 0
        },
        r is Ok ==> forall|p: int|
            is_status_at(old(manager)@, session_id@, p) ==> final(manager)@ == old(
                manager,
            )@.update(p, final(manager)@[p]) && {
                let st2 = final(manager)@[p];
                &&& st2.state == TransferState::Completed
                &&& st2.transferred_bytes == st2.total_bytes
                &&& st2.total_bytes == old(manager)@[p].total_bytes
                &&& st2.rate == 0
                &&& st2.eta_seconds == Some(0u64)
                &&& st2.session_id == old(manager)@[p].session_id
                &&& forall|i: int, q: int|
                    0 <= i < files@.len() && !files@[i].is_dir && #[trigger] is_first_fp(
                        st2.file_progress@,
                        (#[trigger] files@[i]).path@,
                        q,
                    ) ==> st2.file_progress@[q].done && st2.file_progress@[q].transferred
                        == st2.file_progress@[q].total
            },
{
    let ghost old_files = old(manifest).files@;
    let ghost old_mgr = old(manager)@;
    let key_vec: Option<Vec<u8>> = if options.encrypt {
        let pw: &str = match &options.password {
            Some(p) => p.as_str(),
            None => "",
        };
        proof {
            reveal_strlit("");
            assert(pw@ == (match options.password {
                Some(p) => p@,
                None => Seq::<char>::empty(),
            })) by {
                if options.password is None {
                    assert(pw@ =~= Seq::<char>::empty());
                }
            }
        }
        match crate::crypto::derive_key(pw, session_id.as_str()) {
            Ok(k) => Some(k),
            Err(e) => {
                return Err(e);
            },
        }
    } else {
        None
    };
    manager.set_state(session_id, TransferState::Resuming);
    proof {
        assert forall|p: int| is_status_at(old_mgr, session_id@, p) implies manager@
            == old_mgr.update(p, manager@[p]) && (#[trigger] manager@[p]).session_id
            == old_mgr[p].session_id && manager@[p].total_bytes == old_mgr[p].total_bytes by {
            assert(manager@ == old_mgr.update(
                p,
                crate::progress::TransferStatus { state: TransferState::Resuming, ..old_mgr[p] },
            ));
            assert(manager@[p] == crate::progress::TransferStatus {
                state: TransferState::Resuming,
                ..old_mgr[p]
            });
        }
    }
    let mut i: usize = 0;
    while i < files.len()
        invariant
            manager.wf(),
            manifest.wf(),
            i <= files@.len(),
            forall|a: int, b: int|
                0 <= a < b < files@.len() ==> (#[trigger] files@[a]).path@ != (
                #[trigger] files@[b]).path@,
            old_files == old(manifest).files@,
            old_mgr == old(manager)@,
            unique_paths(old_files),
            manifest.session_id == old(manifest).session_id,
            manifest.encrypted == old(manifest).encrypted,
            unique_paths(manifest.files@),
            manager@.len() == old_mgr.len(),
            !has_status(old_mgr, session_id@) ==> manager@ == old_mgr,
            forall|p: int|
                is_status_at(old_mgr, session_id@, p) ==> manager@ == old_mgr.update(
                    p,
                    manager@[p],
                ) && (#[trigger] manager@[p]).session_id == old_mgr[p].session_id
                    && manager@[p].total_bytes == old_mgr[p].total_bytes,
            forall|j: int|
                0 <= j < files@.len() ==> {
                    &&& spec_path_chunk_map(manifest.files@, (#[trigger] files@[j]).path@)
                        == spec_path_chunk_map(old_files, files@[j].path@)
                    &&& spec_path_final_hash(manifest.files@, files@[j].path@)
                        == spec_path_final_hash(old_files, files@[j].path@)
                    &&& has_file(old_files, files@[j].path@) ==> has_file(
                        manifest.files@,
                        files@[j].path@,
                    )
                },
            forall|j: int|
                0 <= j < i && !(#[trigger] files@[j]).is_dir ==> has_file(
                    manifest.files@,
                    files@[j].path@,
                ),
        decreases files@.len() - i,
    {
        let f = &files[i];
        if !f.is_dir {
            let ghost path_i = f.path@;
            let ghost files_before = manifest.files@;
            let pos = manifest.ensure_file(&f.path, f.size);
            let ghost files_mid = manifest.files@;
            proof {
                if !has_file(files_before, path_i) {
                    assert(files_mid =~= files_before.push(files_mid[pos as int]));
                    assert(!has_file(old_files, path_i));
                    lemma_path_pos(files_mid, path_i, pos as int);
                    assert(files_mid[pos as int].chunks@ =~= Seq::<ChunkInfo>::empty());
                    assert(chunk_map(files_mid[pos as int].chunks@) =~= Map::<
                        u64,
                        (Seq<char>, u64),
                    >::empty());
                    assert(spec_path_chunk_map(files_mid, path_i) =~= spec_path_chunk_map(
                        old_files,
                        path_i,
                    ));
                    assert(spec_path_final_hash(files_mid, path_i) == spec_path_final_hash(
                        old_files,
                        path_i,
                    ));
                } else {
                    assert(files_mid == files_before);
                }
                assert forall|j: int| 0 <= j < files@.len() implies {
                    &&& spec_path_chunk_map(files_mid, (#[trigger] files@[j]).path@)
                        == spec_path_chunk_map(old_files, files@[j].path@)
                    &&& spec_path_final_hash(files_mid, files@[j].path@) == spec_path_final_hash(
                        old_files,
                        files@[j].path@,
                    )
                    &&& has_file(old_files, files@[j].path@) ==> has_file(
                        files_mid,
                        files@[j].path@,
                    )
                } by {
                    if files@[j].path@ != path_i {
                        if !has_file(files_before, path_i) {
                            lemma_path_frame_push(
                                files_before,
                                files_mid[pos as int],
                                files@[j].path@,
                            );
                        }
                    }
                }
            }
            let reused = manifest.files[pos].reused_bytes();
            let ghost mgr_prev = manager@;
            manager.begin_resume(session_id, &f.path, reused);
            proof {
                lemma_session_step(old_mgr, mgr_prev, manager@, session_id@);
            }
        }
        i = i + 1;
    }
    let ghost mgr_resumed = manager@;
    manager.set_state(session_id, TransferState::Transferring);
    proof {
        assert forall|p: int| is_status_at(mgr_resumed, session_id@, p) implies manager@
            == mgr_resumed.update(p, manager@[p]) && (#[trigger] manager@[p]).session_id
            == mgr_resumed[p].session_id && manager@[p].total_bytes
            == mgr_resumed[p].total_bytes by {
            assert(manager@ == mgr_resumed.update(
                p,
                crate::progress::TransferStatus {
                    state: TransferState::Transferring,
                    ..mgr_resumed[p]
                },
            ));
            assert(manager@[p] == crate::progress::TransferStatus {
                state: TransferState::Transferring,
                ..mgr_resumed[p]
            });
        }
        lemma_session_step(old_mgr, mgr_resumed, manager@, session_id@);
    }
    let ghost base_files = manifest.files@;
    let mut stats: Vec<FileRunStats> = Vec::new();
    let mut i: usize = 0;
    while i < files.len()
        invariant
            manager.wf(),
            manifest.wf(),
            chunk_size >= 1,
            i <= files@.len(),
            files@.len() == contents@.len(),
            forall|j: int|
                0 <= j < contents@.len() ==> (#[trigger] contents@[j])@.len() + chunk_size
                    <= usize::MAX,
            forall|a: int, b: int|
                0 <= a < b < files@.len() ==> (#[trigger] files@[a]).path@ != (
                #[trigger] files@[b]).path@,
            key_vec matches Some(k) ==> k@.len() == 32 && chunk_size < MAX_SEAL_BYTES,
            old_files == old(manifest).files@,
            old_mgr == old(manager)@,
            unique_paths(old_files),
            unique_paths(base_files),
            manifest.session_id == old(manifest).session_id,
            manifest.encrypted == old(manifest).encrypted,
            unique_paths(manifest.files@),
            stats@.len() == i,
            manager@.len() == old_mgr.len(),
            !has_status(old_mgr, session_id@) ==> manager@ == old_mgr,
            forall|p: int|
                is_status_at(old_mgr, session_id@, p) ==> manager@ == old_mgr.update(
                    p,
                    manager@[p],
                ) && (#[trigger] manager@[p]).session_id == old_mgr[p].session_id
                    && manager@[p].total_bytes == old_mgr[p].total_bytes,
            forall|p: int, j: int, q: int|
                is_status_at(old_mgr, session_id@, p) && 0 <= j < i && !files@[j].is_dir
                    && #[trigger] is_first_fp(
                    (#[trigger] manager@[p]).file_progress@,
                    (#[trigger] files@[j]).path@,
                    q,
                ) ==> manager@[p].file_progress@[q].done && manager@[p].file_progress@[q].transferred
                    == manager@[p].file_progress@[q].total,
            forall|j: int|
                0 <= j < files@.len() ==> {
                    &&& #[trigger] spec_path_chunk_map(base_files, files@[j].path@)
                        == spec_path_chunk_map(old_files, files@[j].path@)
                    &&& spec_path_final_hash(base_files, files@[j].path@) == spec_path_final_hash(
                        old_files,
                        files@[j].path@,
                    )
                },
            forall|j: int|
                0 <= j < files@.len() && !(#[trigger] files@[j]).is_dir ==> has_file(
                    base_files,
                    files@[j].path@,
                ),
            forall|j: int|
                i <= j < files@.len() ==> {
                    &&& spec_path_chunk_map(manifest.files@, (#[trigger] files@[j]).path@)
                        == spec_path_chunk_map(base_files, files@[j].path@)
                    &&& spec_path_final_hash(manifest.files@, files@[j].path@)
                        == spec_path_final_hash(base_files, files@[j].path@)
                    &&& has_file(manifest.files@, files@[j].path@) == has_file(
                        base_files,
                        files@[j].path@,
                    )
                },
            forall|j: int|
                0 <= j < i && !(#[trigger] files@[j]).is_dir ==> spec_path_done(
                    manifest.files@,
                    old_files,
                    files@[j].path@,
                    contents@[j]@,
                    chunk_size as nat,
                ) && stats@[j].chunk_count == spec_chunks_of(
                    contents@[j]@,
                    chunk_size as nat,
                ).len() && stats@[j].written_chunks == spec_fresh_count(
                    spec_path_chunk_map(old_files, files@[j].path@),
                    spec_chunks_of(contents@[j]@, chunk_size as nat),
                    spec_chunks_of(contents@[j]@, chunk_size as nat).len() as int,
                ) && stats@[j].reused_chunks + stats@[j].written_chunks == stats@[j].chunk_count,
            forall|j: int|
                0 <= j < i && (#[trigger] files@[j]).is_dir ==> stats@[j].chunk_count == 0
                    && stats@[j].written_chunks == 0 && stats@[j].reused_chunks == 0,
        decreases files@.len() - i,
    {
        let f = &files[i];
        if f.is_dir {
            stats.push(FileRunStats { chunk_count: 0, reused_chunks: 0, written_chunks: 0 });
        } else {
            let ghost path_i = f.path@;
            let ghost files_before = manifest.files@;
            let pos = manifest.ensure_file(&f.path, f.size);
            proof {
                assert(has_file(files_before, path_i));
                assert(manifest.files@ == files_before);
                lemma_path_pos(files_before, path_i, pos as int);
                assert(chunk_map(files_before[pos as int].chunks@) == spec_path_chunk_map(
                    old_files,
                    path_i,
                ));
            }
            let key_ref: Option<&Vec<u8>> = match &key_vec {
                Some(k) => Some(k),
                None => None,
            };
            let ghost mgr_prev = manager@;
            let entry = &mut manifest.files[pos];
            let file_stats = transfer_file(
                entry,
                &contents[i],
                chunk_size,
                key_ref,
                manager,
                session_id,
                &f.path,
                now_ms,
            );
            stats.push(file_stats);
            proof {
                lemma_session_step(old_mgr, mgr_prev, manager@, session_id@);
                let files_after = manifest.files@;
                assert(files_after == files_before.update(pos as int, files_after[pos as int]));
                assert(files_after[pos as int].path@ == path_i);
                assert forall|a: int, b: int|
                    0 <= a < b < files_after.len() implies (#[trigger] files_after[a]).path@ != (
                #[trigger] files_after[b]).path@ by {
                    assert(files_before[a].path@ != files_before[b].path@);
                }
                assert forall|e: int| 0 <= e < files_after.len() implies (
                #[trigger] files_after[e]).wf() by {
                    if e != pos as int {
                        assert(files_after[e] == files_before[e]);
                    }
                }
                lemma_path_pos(files_after, path_i, pos as int);
                assert(spec_path_done(
                    files_after,
                    old_files,
                    path_i,
                    contents@[i as int]@,
                    chunk_size as nat,
                ));
                assert forall|j: int| i + 1 <= j < files@.len() implies {
                    &&& spec_path_chunk_map(files_after, (#[trigger] files@[j]).path@)
                        == spec_path_chunk_map(base_files, files@[j].path@)
                    &&& spec_path_final_hash(files_after, files@[j].path@)
                        == spec_path_final_hash(base_files, files@[j].path@)
                    &&& has_file(files_after, files@[j].path@) == has_file(
                        base_files,
                        files@[j].path@,
                    )
                } by {
                    let pj = files@[j].path@;
                    assert(files@[i as int].path@ != files@[j].path@);
                    lemma_path_frame_update(
                        files_before,
                        pos as int,
                        files_after[pos as int],
                        pj,
                    );
                }
                assert forall|j: int|
                    0 <= j < i + 1 && !(#[trigger] files@[j]).is_dir implies spec_path_done(
                    files_after,
                    old_files,
                    files@[j].path@,
                    contents@[j]@,
                    chunk_size as nat,
                ) by {
                    if j < i {
                        let pj = files@[j].path@;
                        assert(pj != path_i);
                        lemma_path_frame_update(
                            files_before,
                            pos as int,
                            files_after[pos as int],
                            pj,
                        );
                    }
                }
                assert forall|p: int, j: int, q: int|
                    is_status_at(old_mgr, session_id@, p) && 0 <= j < i + 1 && !files@[j].is_dir
                        && #[trigger] is_first_fp(
                        (#[trigger] manager@[p]).file_progress@,
                        (#[trigger] files@[j]).path@,
                        q,
                    ) implies manager@[p].file_progress@[q].done
                    && manager@[p].file_progress@[q].transferred
                    == manager@[p].file_progress@[q].total by {
                    assert(is_status_at(mgr_prev, session_id@, p));
                    lemma_done_step(
                        mgr_prev[p],
                        manager@[p],
                        files@[j].path@,
                        path_i,
                        q,
                        j == i as int,
                    );
                }
            }
        }
        i = i + 1;
    }
    let ghost mgr_last = manager@;
    manager.complete(session_id);
    proof {
        if !has_status(old_mgr, session_id@) {
            assert(!has_status(mgr_last, session_id@));
        }
        assert forall|p: int| is_status_at(old_mgr, session_id@, p) implies manager@
            == old_mgr.update(p, manager@[p]) && {
            let st2 = manager@[p];
            &&& st2.state == TransferState::Completed
            &&& st2.transferred_bytes == st2.total_bytes
            &&& st2.total_bytes == old_mgr[p].total_bytes
            &&& st2.rate == 0
            &&& st2.eta_seconds == Some(0u64)
            &&& st2.session_id == old_mgr[p].session_id
            &&& forall|i2: int, q: int|
                0 <= i2 < files@.len() && !files@[i2].is_dir && #[trigger] is_first_fp(
                    st2.file_progress@,
                    (#[trigger] files@[i2]).path@,
                    q,
                ) ==> st2.file_progress@[q].done && st2.file_progress@[q].transferred
                    == st2.file_progress@[q].total
        } by {
            assert(is_status_at(mgr_last, session_id@, p));
            assert(crate::progress::spec_complete_update(mgr_last[p], manager@[p]));
            assert(manager@ =~= old_mgr.update(p, manager@[p]));
            assert(manager@[p].file_progress@ == mgr_last[p].file_progress@);
        }
    }
    Ok(stats)
}

/// One transfer step keeps the finished files finished: the step rewrote
/// at most the first progress entry of its own path, so every other
/// first-match entry — and, where the step's path is the one just
/// finished, that entry too — ends done and fully counted.
proof fn lemma_done_step(
    st1: crate::progress::TransferStatus,
    st2: crate::progress::TransferStatus,
    path_j: Seq<char>,
    path_i: Seq<char>,
    q: int,
    current: bool,
)
    requires
        spec_file_done_update(st1, st2, path_i),
        crate::progress::is_first_fp(st2.file_progress@, path_j, q),
        current ==> path_j == path_i,
        !current ==> crate::progress::is_first_fp(st1.file_progress@, path_j, q)
            ==> st1.file_progress@[q].done && st1.file_progress@[q].transferred
            == st1.file_progress@[q].total,
        !current ==> path_j != path_i,
    ensures
        st2.file_progress@[q].done,
        st2.file_progress@[q].transferred == st2.file_progress@[q].total,
{
    let fps1 = st1.file_progress@;
    let fps2 = st2.file_progress@;
    if crate::progress::has_fp(fps1, path_i) {
        let w = choose|w: int| 0 <= w < fps1.len() && (#[trigger] fps1[w]).path@ == path_i;
        let r = lemma_fps_first(fps1, path_i, w);
        assert(fps2 == fps1.update(r, crate::progress::spec_fp_done(fps1[r])));
        if current {
            assert(fps2[q].path@ == path_i);
            assert forall|k: int| 0 <= k < fps1.len() implies (#[trigger] fps1[k]).path@
                == fps2[k].path@ by {
                if k != r {
                    assert(fps1[k] == fps2[k]);
                }
            }
            lemma_fps_match_carries(fps2, fps1, path_i, q);
            lemma_first_fp_same(fps1, path_i, q, r);
        } else {
            assert(fps2[q].path@ == path_j);
            assert(fps1[r].path@ == path_i);
            assert(q != r);
            assert(fps2[q] == fps1[q]);
            assert forall|k: int| 0 <= k < q implies (#[trigger] fps1[k]).path@ != path_j by {
                if k == r {
                    assert(fps1[k].path@ == path_i);
                } else {
                    assert(fps1[k] == fps2[k]);
                    assert(fps2[k].path@ != path_j);
                }
            }
            assert(crate::progress::is_first_fp(fps1, path_j, q));
        }
    } else {
        assert(fps2 == fps1);
        if current {
            assert(fps2[q].path@ == path_i);
            assert(crate::progress::has_fp(fps1, path_i));
            assert(false);
        } else {
            assert(crate::progress::is_first_fp(fps1, path_j, q));
        }
    }
}

/// A keyed registry operation seen from the start of the run: the session's
/// position is rewritten in place, its identity fields kept.
proof fn lemma_session_step(
    base: Seq<crate::progress::TransferStatus>,
    prev: Seq<crate::progress::TransferStatus>,
    cur: Seq<crate::progress::TransferStatus>,
    sid: Seq<char>,
)
    requires
        prev.len() == base.len(),
        cur.len() == prev.len(),
        !has_status(base, sid) ==> prev == base,
        forall|p: int|
            is_status_at(base, sid, p) ==> prev == base.update(p, prev[p]) && (
            #[trigger] prev[p]).session_id == base[p].session_id && prev[p].total_bytes
                == base[p].total_bytes,
        forall|p: int|
            is_status_at(prev, sid, p) ==> cur == prev.update(p, cur[p]) && (
            #[trigger] cur[p]).session_id == prev[p].session_id && cur[p].total_bytes
                == prev[p].total_bytes,
        !has_status(prev, sid) ==> cur == prev,
    ensures
        !has_status(base, sid) ==> cur == base,
        forall|p: int|
            is_status_at(base, sid, p) ==> cur == base.update(p, cur[p]) && (
            #[trigger] cur[p]).session_id == base[p].session_id && cur[p].total_bytes
                == base[p].total_bytes,
{
    if !has_status(base, sid) {
        assert(prev == base);
        if has_status(prev, sid) {
            let p = choose|p: int| is_status_at(prev, sid, p);
            assert(is_status_at(base, sid, p));
        }
        assert(cur == prev);
    }
    assert forall|p: int| is_status_at(base, sid, p) implies cur == base.update(p, cur[p]) && (
    #[trigger] cur[p]).session_id == base[p].session_id && cur[p].total_bytes
        == base[p].total_bytes by {
        assert(prev == base.update(p, prev[p]));
        assert(is_status_at(prev, sid, p));
        assert(cur == prev.update(p, cur[p]));
        assert(cur =~= base.update(p, cur[p]));
    }
}


/// No window of the first `n` counts as fresh when the map records them
/// all exactly.
proof fn lemma_fresh_zero(m: Map<u64, (Seq<char>, u64)>, data: Seq<u8>, cs: nat, n: int)
    requires
        spec_chunks_of(data, cs).len() <= u64::MAX,
        cs >= 1,
        0 <= n <= spec_chunks_of(data, cs).len(),
        forall|k: u64|
            spec_file_chunk_map(data, cs).contains_key(k) ==> #[trigger] m.contains_key(k) && m[k]
                == spec_file_chunk_map(data, cs)[k],
    ensures
        spec_fresh_count(m, spec_chunks_of(data, cs), n) == 0,
    decreases n,
{
    if n > 0 {
        lemma_fresh_zero(m, data, cs, n - 1);
        assert(spec_file_chunk_map(data, cs).contains_key((n - 1) as u64));
        assert(spec_chunk_reusable(m, spec_chunks_of(data, cs), n - 1));
    }
}

/// Idempotent dedup: a rerun over unmodified content whose manifest
/// already records every window of that content reuses every chunk — no
/// window counts as fresh, so nothing is sealed or rewritten — and leaves
/// the recorded map unchanged. The whole-file hash, a function of the
/// content alone, recomputes identically.
pub proof fn lemma_idempotent_dedup(m: Map<u64, (Seq<char>, u64)>, data: Seq<u8>, cs: nat)
    requires
        spec_chunks_of(data, cs).len() <= u64::MAX,
        cs >= 1,
        forall|k: u64|
            spec_file_chunk_map(data, cs).contains_key(k) ==> #[trigger] m.contains_key(k) && m[k]
                == spec_file_chunk_map(data, cs)[k],
    ensures
        spec_fresh_count(
            m,
            spec_chunks_of(data, cs),
            spec_chunks_of(data, cs).len() as int,
        ) == 0,
        m.union_prefer_right(spec_file_chunk_map(data, cs)) =~= m,
{
    lemma_fresh_zero(m, data, cs, spec_chunks_of(data, cs).len() as int);
}

/// The number of fresh windows among the first `n`, with exactly the
/// first `k` recorded.
proof fn lemma_fresh_split(m: Map<u64, (Seq<char>, u64)>, data: Seq<u8>, cs: nat, k: int, n: int)
    requires
        spec_chunks_of(data, cs).len() <= u64::MAX,
        cs >= 1,
        0 <= k <= spec_chunks_of(data, cs).len(),
        0 <= n <= spec_chunks_of(data, cs).len(),
        forall|j: u64|
            #[trigger] m.contains_key(j) <==> (j as int) < k && spec_file_chunk_map(
                data,
                cs,
            ).contains_key(j),
        forall|j: u64| m.contains_key(j) ==> m[j] == spec_file_chunk_map(data, cs)[j],
    ensures
        spec_fresh_count(m, spec_chunks_of(data, cs), n) == if n <= k {
            0int
        } else {
            n - k
        },
    decreases n,
{
    if n > 0 {
        lemma_fresh_split(m, data, cs, k, n - 1);
        assert(spec_file_chunk_map(data, cs).contains_key((n - 1) as u64));
        if n - 1 < k {
            assert(m.contains_key((n - 1) as u64));
            assert(spec_chunk_reusable(m, spec_chunks_of(data, cs), n - 1));
        } else {
            assert(!m.contains_key((n - 1) as u64));
            assert(!spec_chunk_reusable(m, spec_chunks_of(data, cs), n - 1));
        }
    }
}

/// Resume correctness: with exactly the first `k` windows of the content
/// recorded, a rerun reuses those `k`, freshly records the remaining
/// windows, and ends with the same recorded map — and hence the same
/// whole-file hash — as a from-scratch run over the same content.
pub proof fn lemma_resume_completes(m: Map<u64, (Seq<char>, u64)>, data: Seq<u8>, cs: nat, k: int)
    requires
        spec_chunks_of(data, cs).len() <= u64::MAX,
        cs >= 1,
        0 <= k <= spec_chunks_of(data, cs).len(),
        forall|j: u64|
            #[trigger] m.contains_key(j) <==> (j as int) < k && spec_file_chunk_map(
                data,
                cs,
            ).contains_key(j),
        forall|j: u64| m.contains_key(j) ==> m[j] == spec_file_chunk_map(data, cs)[j],
    ensures
        spec_fresh_count(m, spec_chunks_of(data, cs), spec_chunks_of(data, cs).len() as int)
            == spec_chunks_of(data, cs).len() - k,
        m.union_prefer_right(spec_file_chunk_map(data, cs)) =~= spec_file_chunk_map(data, cs),
        Map::<u64, (Seq<char>, u64)>::empty().union_prefer_right(spec_file_chunk_map(data, cs))
            =~= spec_file_chunk_map(data, cs),
{
    lemma_fresh_split(m, data, cs, k, spec_chunks_of(data, cs).len() as int);
}

/// The fresh-window count is monotone in the prefix length.
proof fn lemma_fresh_mono(m: Map<u64, (Seq<char>, u64)>, chunks: Seq<Seq<u8>>, a: int, b: int)
    requires
        0 <= a <= b,
    ensures
        spec_fresh_count(m, chunks, a) <= spec_fresh_count(m, chunks, b),
    decreases b - a,
{
    if a < b {
        lemma_fresh_mono(m, chunks, a, b - 1);
    }
}

/// Chunk tamper detection: a window whose recorded hash or size no longer
/// matches its bytes is not reusable, so a rerun counts it as fresh work —
/// it is re-sealed and re-recorded — and the rerun's map holds the new
/// hash at that index.
pub proof fn lemma_tamper_forces_rewrite(
    m: Map<u64, (Seq<char>, u64)>,
    data: Seq<u8>,
    cs: nat,
    i: int,
)
    requires
        spec_chunks_of(data, cs).len() <= u64::MAX,
        cs >= 1,
        0 <= i < spec_chunks_of(data, cs).len(),
        !spec_chunk_reusable(m, spec_chunks_of(data, cs), i),
    ensures
        spec_fresh_count(m, spec_chunks_of(data, cs), spec_chunks_of(data, cs).len() as int) >= 1,
        m.union_prefer_right(spec_file_chunk_map(data, cs))[i as u64] == spec_file_chunk_map(
            data,
            cs,
        )[i as u64],
{
    let chunks = spec_chunks_of(data, cs);
    assert(spec_fresh_count(m, chunks, i + 1) >= 1);
    lemma_fresh_mono(m, chunks, i + 1, chunks.len() as int);
    assert(spec_file_chunk_map(data, cs).contains_key(i as u64));
}

} // verus!
