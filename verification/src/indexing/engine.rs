//! The bookkeeping of an indexing run and the decisions it makes about
//! files that were indexed before.
use vstd::prelude::*;

use crate::indexing::files::FileInfo;
use crate::strings::{str_eq, views};

verus! {

/// What an indexing run did.
#[derive(Debug)]
pub struct IndexingStats {
    pub directories_processed: usize,
    pub files_processed: usize,
    pub files_skipped: usize,
    pub files_errored: usize,
    pub chunks_created: usize,
}

impl IndexingStats {
    /// A run that has done nothing yet.
    pub fn new() -> (s: Self)
        ensures
            s.directories_processed == 0,
            s.files_processed == 0,
            s.files_skipped == 0,
            s.files_errored == 0,
            s.chunks_created == 0,
    {
        IndexingStats {
            directories_processed: 0,
            files_processed: 0,
            files_skipped: 0,
            files_errored: 0,
            chunks_created: 0,
        }
    }

    /// Counts a directory that was indexed, with what its own run did.
    pub fn add_directory(&mut self, dir: &IndexingStats)
        requires
            old(self).directories_processed + 1 <= usize::MAX,
            old(self).files_processed + dir.files_processed <= usize::MAX,
            old(self).files_skipped + dir.files_skipped <= usize::MAX,
            old(self).files_errored + dir.files_errored <= usize::MAX,
            old(self).chunks_created + dir.chunks_created <= usize::MAX,
        ensures
            final(self).directories_processed == old(self).directories_processed + 1,
            final(self).files_processed == old(self).files_processed + dir.files_processed,
            final(self).files_skipped == old(self).files_skipped + dir.files_skipped,
            final(self).files_errored == old(self).files_errored + dir.files_errored,
            final(self).chunks_created == old(self).chunks_created + dir.chunks_created,
    {
        self.directories_processed = self.directories_processed + 1;
        self.files_processed = self.files_processed + dir.files_processed;
        self.files_skipped = self.files_skipped + dir.files_skipped;
        self.files_errored = self.files_errored + dir.files_errored;
        self.chunks_created = self.chunks_created + dir.chunks_created;
    }

    /// Counts a directory whose indexing failed as one error.
    pub fn add_failed_directory(&mut self)
        requires
            old(self).files_errored + 1 <= usize::MAX,
        ensures
            final(self).files_errored == old(self).files_errored + 1,
            final(self).directories_processed == old(self).directories_processed,
            final(self).files_processed == old(self).files_processed,
            final(self).files_skipped == old(self).files_skipped,
            final(self).chunks_created == old(self).chunks_created,
    {
        self.files_errored = self.files_errored + 1;
    }

    /// Counts a file that was processed into `chunks` chunks.
    pub fn add_processed_file(&mut self, chunks: usize)
        requires
            old(self).files_processed + 1 <= usize::MAX,
            old(self).chunks_created + chunks <= usize::MAX,
        ensures
            final(self).files_processed == old(self).files_processed + 1,
            final(self).chunks_created == old(self).chunks_created + chunks,
            final(self).directories_processed == old(self).directories_processed,
            final(self).files_skipped == old(self).files_skipped,
            final(self).files_errored == old(self).files_errored,
    {
        self.files_processed = self.files_processed + 1;
        self.chunks_created = self.chunks_created + chunks;
    }

    /// Counts a file that could not be processed.
    pub fn add_failed_file(&mut self)
        requires
            old(self).files_errored + 1 <= usize::MAX,
        ensures
            final(self).files_errored == old(self).files_errored + 1,
            final(self).directories_processed == old(self).directories_processed,
            final(self).files_processed == old(self).files_processed,
            final(self).files_skipped == old(self).files_skipped,
            final(self).chunks_created == old(self).chunks_created,
    {
        self.files_errored = self.files_errored + 1;
    }

    /// Marks the run of one directory as done: it counts one directory.
    pub fn finish_directory(&mut self)
        ensures
            final(self).directories_processed == 1,
            final(self).files_processed == old(self).files_processed,
            final(self).files_skipped == old(self).files_skipped,
            final(self).files_errored == old(self).files_errored,
            final(self).chunks_created == old(self).chunks_created,
    {
        self.directories_processed = 1;
    }
}

/// The database claims indexed files while the vector store holds no
/// vectors: the database's state must be cleared so the files are indexed
/// again.
pub fn needs_state_reset(file_count: i64, points_count: u64) -> (r: bool)
    ensures
        r == (file_count > 0 && points_count == 0),
{
    file_count > 0 && points_count == 0
}

/// A file indexed before is unchanged: same content hash and same
/// modification time (seconds, taken as an `i64`).
pub fn file_unchanged(stored_hash: &str, stored_modified: i64, hash: &str, modified: u64) -> (r: bool)
    ensures
        r == (stored_hash@ == hash@ && stored_modified == modified as i64),
{
    str_eq(stored_hash, hash) && stored_modified == modified as i64
}

/// The batches of chunk positions `start..count` that are embedded
/// together: consecutive ranges of `size` positions, the last one possibly
/// shorter.
pub open spec fn batch_ranges(start: int, count: int, size: int) -> Seq<(int, int)>
    decreases count - start,
{
    if size <= 0 || start >= count {
        Seq::empty()
    } else if count - start <= size {
        seq![(start, count)]
    } else {
        seq![(start, start + size)] + batch_ranges(start + size, count, size)
    }
}

/// The batches cover `start..count` in order, without gaps or overlaps,
/// each holding at least one and at most `size` positions.
pub proof fn lemma_batch_ranges(start: int, count: int, size: int)
    requires
        size > 0,
        0 <= start <= count,
    ensures
        ({
            let b = batch_ranges(start, count, size);
            &&& start < count ==> b.len() > 0 && b[0].0 == start && b.last().1 == count
            &&& start == count ==> b.len() == 0
            &&& forall|i: int| 0 <= i < b.len() ==> (#[trigger] b[i]).0 < b[i].1 <= b[i].0 + size
            &&& forall|i: int| 0 <= i < b.len() - 1 ==> #[trigger] b[i + 1].0 == b[i].1
        }),
    decreases count - start,
{
    if start < count && count - start > size {
        lemma_batch_ranges(start + size, count, size);
        let rest = batch_ranges(start + size, count, size);
        let b = batch_ranges(start, count, size);
        assert(b == seq![(start, start + size)] + rest);
        assert forall|i: int| 0 <= i < b.len() - 1 implies #[trigger] b[i + 1].0 == b[i].1 by {
            if i > 0 {
                assert(b[i] == rest[i - 1]);
                assert(b[i + 1] == rest[i]);
                assert(rest[(i - 1) + 1].0 == rest[i - 1].1);
            } else {
                assert(b[1] == rest[0]);
            }
        }
    }
}

/// The batches in which the chunks of a file are embedded: positions
/// `0..count` in consecutive ranges of `size`. The chunk at position `p` is
/// stored under id `p`.
pub fn chunk_batches(count: usize, size: usize) -> (batches: Vec<(usize, usize)>)
    requires
        size > 0,
    ensures
        batches@.map_values(|b: (usize, usize)| (b.0 as int, b.1 as int)) == batch_ranges(
            0,
            count as int,
            size as int,
        ),
{
    let mut batches: Vec<(usize, usize)> = Vec::new();
    let mut start: usize = 0;
    while start < count
        invariant
            size > 0,
            start <= count,
            batches@.map_values(|b: (usize, usize)| (b.0 as int, b.1 as int)) + batch_ranges(
                start as int,
                count as int,
                size as int,
            ) == batch_ranges(0, count as int, size as int),
        decreases count - start,
    {
        let end = if count - start <= size {
            count
        } else {
            start + size
        };
        let ghost before = batches@.map_values(|b: (usize, usize)| (b.0 as int, b.1 as int));
        let ghost rest = batch_ranges(start as int, count as int, size as int);
        batches.push((start, end));
        proof {
            let now = batches@.map_values(|b: (usize, usize)| (b.0 as int, b.1 as int));
            assert(now =~= before.push((start as int, end as int)));
            if end == count {
                assert(rest == seq![(start as int, count as int)]);
                assert(batch_ranges(end as int, count as int, size as int).len() == 0);
                assert(now + batch_ranges(end as int, count as int, size as int) =~= before + rest);
            } else {
                assert(rest == seq![(start as int, end as int)] + batch_ranges(
                    end as int,
                    count as int,
                    size as int,
                ));
                assert(now + batch_ranges(end as int, count as int, size as int) =~= before + rest);
            }
        }
        start = end;
    }
    proof {
        assert(batch_ranges(start as int, count as int, size as int).len() == 0);
        assert(batches@.map_values(|b: (usize, usize)| (b.0 as int, b.1 as int)) + batch_ranges(
            start as int,
            count as int,
            size as int,
        ) =~= batches@.map_values(|b: (usize, usize)| (b.0 as int, b.1 as int)));
    }
    batches
}

/// The ids of the chunks of one batch that were embedded: the batch starts
/// at chunk `start`, and `embedded[i]` tells whether chunk `start + i` got a
/// vector. The ids come in chunk order.
pub open spec fn embedded_ids(start: int, embedded: Seq<bool>) -> Seq<int>
    decreases embedded.len(),
{
    if embedded.len() == 0 {
        Seq::empty()
    } else {
        embedded_ids(start, embedded.drop_last()) + if embedded.last() {
            seq![start + embedded.len() - 1]
        } else {
            Seq::<int>::empty()
        }
    }
}

/// What is stored with the vector of one chunk: the file it comes from, the
/// chunk's position in the file, and the file's parent directories.
#[derive(Debug)]
pub struct ChunkPoint {
    pub file_path: String,
    pub chunk_id: usize,
    pub parent_directories: Vec<String>,
}

/// A copy of a list of texts.
pub fn copy_strings(v: &Vec<String>) -> (r: Vec<String>)
    ensures
        views(r@) == views(v@),
{
    let mut r: Vec<String> = Vec::new();
    let mut i: usize = 0;
    while i < v.len()
        invariant
            i <= v@.len(),
            r@.len() == i,
            forall|j: int| 0 <= j < i ==> r@[j]@ == v@[j]@,
        decreases v.len() - i,
    {
        r.push(v[i].clone());
        i = i + 1;
    }
    assert(views(r@) =~= views(v@));
    r
}

/// The points of one embedded batch: one for each chunk that got a vector,
/// in chunk order, each carrying the chunk's id, the file's normalized path
/// and its parent directories. Chunks whose embedding failed get none.
pub fn chunk_points(file_path: &str, parent_dirs: &Vec<String>, batch_start: usize, embedded: &Vec<bool>) -> (points: Vec<ChunkPoint>)
    requires
        batch_start + embedded@.len() <= usize::MAX,
    ensures
        points@.len() == embedded_ids(batch_start as int, embedded@).len(),
        forall|i: int|
            0 <= i < points@.len() ==> {
                &&& #[trigger] points@[i].chunk_id == embedded_ids(batch_start as int, embedded@)[i]
                &&& points@[i].file_path@ == file_path@
                &&& views(points@[i].parent_directories@) == views(parent_dirs@)
            },
{
    let mut points: Vec<ChunkPoint> = Vec::new();
    let mut i: usize = 0;
    while i < embedded.len()
        invariant
            i <= embedded@.len(),
            batch_start + embedded@.len() <= usize::MAX,
            points@.len() == embedded_ids(batch_start as int, embedded@.take(i as int)).len(),
            forall|j: int|
                0 <= j < points@.len() ==> {
                    &&& #[trigger] points@[j].chunk_id == embedded_ids(
                        batch_start as int,
                        embedded@.take(i as int),
                    )[j]
                    &&& points@[j].file_path@ == file_path@
                    &&& views(points@[j].parent_directories@) == views(parent_dirs@)
                },
        decreases embedded.len() - i,
    {
        let ghost before = embedded_ids(batch_start as int, embedded@.take(i as int));
        assert(embedded@.take(i + 1).drop_last() =~= embedded@.take(i as int));
        assert(embedded@.take(i + 1).last() == embedded@[i as int]);
        if embedded[i] {
            let id = batch_start + i;
            points.push(
                ChunkPoint {
                    file_path: file_path.to_string(),
                    chunk_id: id,
                    parent_directories: copy_strings(parent_dirs),
                },
            );
            assert(embedded_ids(batch_start as int, embedded@.take(i + 1)) == before + seq![id as int]);
        } else {
            assert(embedded_ids(batch_start as int, embedded@.take(i + 1)) =~= before);
        }
        i = i + 1;
    }
    assert(embedded@.take(embedded@.len() as int) =~= embedded@);
    points
}

/// The record of an indexed file, as the database keeps it.
#[derive(Debug)]
pub struct IndexedFile {
    pub path: String,
    pub size: i64,
    pub modified_time: i64,
    pub hash: String,
    pub parent_dirs: Vec<String>,
    pub chunks: Vec<String>,
}

/// The record stored for a file once its chunks are embedded: its
/// normalized path, its size and modification time (taken as `i64`), the
/// content hash, its parent directories and its chunks.
pub fn indexed_file(file: &FileInfo, normalized_path: &str, hash: &str, chunks: &Vec<String>) -> (r: IndexedFile)
    ensures
        r.path@ == normalized_path@,
        r.size == file.size as i64,
        r.modified_time == file.modified_time as i64,
        r.hash@ == hash@,
        views(r.parent_dirs@) == views(file.parent_dirs@),
        views(r.chunks@) == views(chunks@),
{
    IndexedFile {
        path: normalized_path.to_string(),
        size: file.size as i64,
        modified_time: file.modified_time as i64,
        hash: hash.to_string(),
        parent_dirs: copy_strings(&file.parent_dirs),
        chunks: copy_strings(chunks),
    }
}

} // verus!
