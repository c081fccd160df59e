//! What the scanner and the processor decide about files: which are skipped,
//! which directories a file belongs to, and how a file's text is processed.
use vstd::prelude::*;

use crate::strings::{append_str, concat, u64_to_decimal, decimal, views};
use crate::utils::{
    calculate_file_hash, chunk_ranges, chunkable, detect_file_type, file_type_of_path,
    hex_lower, ignored, join_paths, lemma_empty_path_components, normalize_path, normalized_path, path_components,
    path_components_of, path_join, path_parent, path_parent_of, path_strip_prefix,
    sha256_of, should_ignore_file, strip_path_prefix, chunk_text, FileType,
};
use crate::strings::utf8;

verus! {

/// What the scanner records of a file.
#[derive(Debug)]
pub struct FileInfo {
    pub path: String,
    pub size: u64,
    pub modified_time: u64,
    pub hash: String,
    pub parent_dirs: Vec<String>,
    pub content: Option<String>,
    pub errors: Option<String>,
}

/// The default size limit: 10 MiB.
pub open spec fn default_max_file_size() -> u64 {
    10485760u64
}

/// The patterns ignored by default.
pub open spec fn default_ignore_patterns() -> Seq<Seq<char>> {
    seq![".git"@, "node_modules"@, "target"@]
}

/// The default ignore patterns.
pub fn default_patterns() -> (v: Vec<String>)
    ensures
        views(v@) == default_ignore_patterns(),
{
    let mut v: Vec<String> = Vec::new();
    v.push(".git".to_owned());
    v.push("node_modules".to_owned());
    v.push("target".to_owned());
    assert(views(v@) =~= default_ignore_patterns());
    v
}

/// The directories of a path below `base`: `base` joined with the first `k`
/// components.
pub open spec fn join_components(base: Seq<char>, comps: Seq<Seq<char>>) -> Seq<char>
    decreases comps.len(),
{
    if comps.len() == 0 {
        base
    } else {
        path_join(join_components(base, comps.drop_last()), comps.last())
    }
}

/// The normalized root followed by every directory between the root and the
/// file, as the scanner lists them.
pub open spec fn scanner_parent_dirs(file: Seq<char>, root: Seq<char>, cwd: Seq<char>) -> Seq<Seq<char>> {
    let first = seq![normalized_path(root, cwd)];
    let fc = path_components(file);
    let rc = path_components(root);
    if !rc.is_prefix_of(fc) {
        first
    } else {
        let comps = dirs_between(fc.skip(rc.len() as int));
        first + Seq::new(
            comps.len(),
            |i: int| normalized_path(join_components(root, comps.take(i + 1)), cwd),
        )
    }
}

/// The directory components of a relative path's components: all but the
/// last, or none when there is no last component below a root.
pub open spec fn dirs_between(rest: Seq<Seq<char>>) -> Seq<Seq<char>> {
    if rest.len() > 0 && rest.last() != seq!['/'] {
        rest.drop_last()
    } else {
        Seq::empty()
    }
}

/// Scans directories for files, skipping ignored ones and refusing to read
/// files over a size limit.
pub struct FileScanner {
    max_file_size: u64,
    ignore_patterns: Vec<String>,
}

impl FileScanner {
    /// The size limit.
    pub closed spec fn max_size(&self) -> u64 {
        self.max_file_size
    }

    /// The ignore patterns.
    pub closed spec fn patterns(&self) -> Seq<String> {
        self.ignore_patterns@
    }

    /// A scanner with a 10 MiB limit that ignores `.git`, `node_modules` and
    /// `target`.
    pub fn new() -> (s: Self)
        ensures
            s.max_size() == default_max_file_size(),
            views(s.patterns()) == default_ignore_patterns(),
    {
        FileScanner { max_file_size: 10 * 1024 * 1024, ignore_patterns: default_patterns() }
    }

    /// A scanner with a 10 MiB limit and the given ignore patterns.
    pub fn with_ignore_patterns(ignore_patterns: Vec<String>) -> (s: Self)
        ensures
            s.max_size() == default_max_file_size(),
            s.patterns() == ignore_patterns@,
    {
        FileScanner { max_file_size: 10 * 1024 * 1024, ignore_patterns }
    }

    /// A scanner with the given limit and no ignore patterns.
    pub fn with_max_size(max_size: u64) -> (s: Self)
        ensures
            s.max_size() == max_size,
            s.patterns() == Seq::<String>::empty(),
    {
        FileScanner { max_file_size: max_size, ignore_patterns: Vec::new() }
    }

    /// The size limit.
    pub fn max_file_size(&self) -> (m: u64)
        ensures
            m == self.max_size(),
    {
        self.max_file_size
    }

    /// The ignore patterns.
    pub fn ignore_patterns(&self) -> (p: &Vec<String>)
        ensures
            p@ == self.patterns(),
    {
        &self.ignore_patterns
    }

    /// Whether a path is skipped because a pattern matches it.
    pub fn is_ignored(&self, path: &str) -> (r: bool)
        ensures
            r == ignored(path@, self.patterns()),
    {
        should_ignore_file(path, self.ignore_patterns.as_slice())
    }

    /// The error recorded instead of the content of a file over the limit.
    pub fn size_error(&self, size: u64) -> (e: Option<String>)
        ensures
            size > self.max_size() ==> (e matches Some(m) && m@ == "File too large: "@ + decimal(
                size as nat,
            ) + " bytes (max: "@ + decimal(self.max_size() as nat) + ")"@),
            size <= self.max_size() ==> e is None,
    {
        if size > self.max_file_size {
            let mut m = concat("File too large: ", u64_to_decimal(size).as_str());
            append_str(&mut m, " bytes (max: ");
            append_str(&mut m, u64_to_decimal(self.max_file_size).as_str());
            append_str(&mut m, ")");
            Some(m)
        } else {
            None
        }
    }

    /// The normalized root, then each directory between the root and the file.
    pub fn extract_parent_directories(&self, file_path: &str, root_dir: &str, cwd: &str) -> (dirs: Vec<String>)
        ensures
            views(dirs@) == scanner_parent_dirs(file_path@, root_dir@, cwd@),
    {
        let mut dirs: Vec<String> = Vec::new();
        dirs.push(normalize_path(root_dir, cwd));
        let ghost first = seq![normalized_path(root_dir@, cwd@)];
        assert(views(dirs@) =~= first);
        let rel = match strip_path_prefix(file_path, root_dir) {
            Some(r) => r,
            None => {
                return dirs;
            },
        };
        let parent = match path_parent_of(rel.as_str()) {
            Some(p) => p,
            None => {
                proof {
                    lemma_empty_path_components();
                }
                String::new()
            },
        };
        let comps = path_components_of(parent.as_str());
        let ghost cs = path_components(parent@);
        assert(cs == dirs_between(
            path_components(file_path@).skip(path_components(root_dir@).len() as int),
        ));
        let mut current = root_dir.to_owned();
        let mut i: usize = 0;
        while i < comps.len()
            invariant
                views(comps@) == cs,
                i <= comps@.len(),
                current@ == join_components(root_dir@, cs.take(i as int)),
                views(dirs@) == first + Seq::new(
                    i as nat,
                    |k: int| normalized_path(join_components(root_dir@, cs.take(k + 1)), cwd@),
                ),
            decreases comps.len() - i,
        {
            assert(cs.take(i + 1).drop_last() == cs.take(i as int));
            assert(cs.take(i + 1).last() == comps@[i as int]@);
            current = join_paths(current.as_str(), comps[i].as_str());
            assert(current@ == join_components(root_dir@, cs.take(i + 1)));
            let ghost before = views(dirs@);
            dirs.push(normalize_path(current.as_str(), cwd));
            assert(views(dirs@) == before.push(normalized_path(current@, cwd@)));
            assert(views(dirs@) =~= first + Seq::new(
                (i + 1) as nat,
                |k: int| normalized_path(join_components(root_dir@, cs.take(k + 1)), cwd@),
            ));
            i = i + 1;
        }
        dirs
    }
}

/// The index of the first root that `file` lies below, or -1.
pub open spec fn first_root(file: Seq<char>, roots: Seq<String>) -> int
    decreases roots.len(),
{
    if roots.len() == 0 {
        -1
    } else {
        let k = first_root(file, roots.drop_last());
        if k >= 0 {
            k
        } else if path_components(roots.last()@).is_prefix_of(path_components(file)) {
            roots.len() - 1
        } else {
            -1
        }
    }
}

proof fn lemma_first_root(file: Seq<char>, roots: Seq<String>)
    ensures
        -1 <= first_root(file, roots) < roots.len(),
        first_root(file, roots) >= 0 ==> path_components(roots[first_root(file, roots)]@).is_prefix_of(
            path_components(file),
        ),
        forall|j: int|
            0 <= j < roots.len() && (first_root(file, roots) < 0 || j < first_root(file, roots))
                ==> !path_components((#[trigger] roots[j])@).is_prefix_of(path_components(file)),
    decreases roots.len(),
{
    if roots.len() > 0 {
        let t = roots.drop_last();
        lemma_first_root(file, t);
        assert forall|j: int|
            0 <= j < roots.len() && (first_root(file, roots) < 0 || j < first_root(file, roots))
                implies !path_components((#[trigger] roots[j])@).is_prefix_of(path_components(file)) by {
            if j < t.len() {
                assert(roots[j] == t[j]);
            }
        }
    }
}

/// The directories the processor records for a file: for the first root the
/// file lies below, the normalized directory of the file, then the root.
pub open spec fn processor_parent_dirs(file: Seq<char>, roots: Seq<String>, cwd: Seq<char>) -> Seq<Seq<char>> {
    let k = first_root(file, roots);
    if k < 0 {
        Seq::empty()
    } else {
        let root = roots[k]@;
        let rel = path_strip_prefix(file, root)->0;
        let dir = match path_parent(rel) {
            Some(p) => seq![normalized_path(path_join(root, p), cwd)],
            None => Seq::empty(),
        };
        dir + seq![normalized_path(root, cwd)]
    }
}

/// A file's text, cut into chunks.
#[derive(Debug)]
pub struct ProcessedFile {
    pub path: String,
    pub content: String,
    pub chunks: Vec<String>,
    pub file_type: Option<FileType>,
    pub size: u64,
    pub hash: String,
}

/// What the processor records of a file found while walking.
#[derive(Debug)]
pub struct FileMetadata {
    pub path: String,
    pub size: u64,
    pub modified_time: u64,
    pub file_type: Option<FileType>,
}

/// Processes files: a size limit, ignore patterns, and how text is chunked.
pub struct FileProcessor {
    max_file_size: u64,
    ignore_patterns: Vec<String>,
    chunk_size: usize,
    overlap: usize,
}

impl FileProcessor {
    /// The size limit.
    pub closed spec fn max_size(&self) -> u64 {
        self.max_file_size
    }

    /// The ignore patterns.
    pub closed spec fn patterns(&self) -> Seq<String> {
        self.ignore_patterns@
    }

    /// The chunk size, in bytes.
    pub closed spec fn size_of_chunks(&self) -> usize {
        self.chunk_size
    }

    /// The overlap between chunks, in bytes.
    pub closed spec fn chunk_overlap(&self) -> usize {
        self.overlap
    }

    /// A processor with the given settings.
    pub fn new(max_file_size: u64, ignore_patterns: Vec<String>, chunk_size: usize, overlap: usize) -> (p: Self)
        ensures
            p.max_size() == max_file_size,
            p.patterns() == ignore_patterns@,
            p.size_of_chunks() == chunk_size,
            p.chunk_overlap() == overlap,
    {
        FileProcessor { max_file_size, ignore_patterns, chunk_size, overlap }
    }

    /// Whether a path is skipped because a pattern matches it.
    pub fn is_ignored(&self, path: &str) -> (r: bool)
        ensures
            r == ignored(path@, self.patterns()),
    {
        should_ignore_file(path, self.ignore_patterns.as_slice())
    }

    /// The chunk size, in bytes.
    pub fn chunk_size(&self) -> (n: usize)
        ensures
            n == self.size_of_chunks(),
    {
        self.chunk_size
    }

    /// The overlap between chunks, in bytes.
    pub fn overlap(&self) -> (n: usize)
        ensures
            n == self.chunk_overlap(),
    {
        self.overlap
    }

    /// Whether a file of this size is within the limit (larger ones are
    /// skipped).
    pub fn within_size_limit(&self, size: u64) -> (r: bool)
        ensures
            r == (size <= self.max_size()),
    {
        size <= self.max_file_size
    }

    /// What is recorded of a file found while walking.
    pub fn file_metadata(&self, path: String, size: u64, modified_time: u64) -> (m: FileMetadata)
        ensures
            m.path == path,
            m.size == size,
            m.modified_time == modified_time,
            m.file_type == file_type_of_path(path@),
    {
        let file_type = detect_file_type(path.as_str());
        FileMetadata { path, size, modified_time, file_type }
    }

    /// Processes the text of a file: chunks it, detects its type and hashes it.
    pub fn process_content(&self, path: String, content: String, size: u64) -> (p: ProcessedFile)
        requires
            chunkable(content@, self.size_of_chunks() as int, self.chunk_overlap() as int),
        ensures
            p.path == path,
            p.content == content,
            p.size == size,
            p.file_type == file_type_of_path(path@),
            p.hash@ == hex_lower(sha256_of(utf8(content@))),
            p.chunks@.len() == chunk_ranges(utf8(content@).len() as int, self.size_of_chunks() as int, self.chunk_overlap() as int).len(),
            forall|i: int|
                0 <= i < p.chunks@.len() ==> utf8(#[trigger] p.chunks@[i]@) == utf8(content@).subrange(
                    chunk_ranges(utf8(content@).len() as int, self.size_of_chunks() as int, self.chunk_overlap() as int)[i].0,
                    chunk_ranges(utf8(content@).len() as int, self.size_of_chunks() as int, self.chunk_overlap() as int)[i].1,
                ),
    {
        let chunks = chunk_text(content.as_str(), self.chunk_size, self.overlap);
        let file_type = detect_file_type(path.as_str());
        let hash = calculate_file_hash(content.as_str().as_bytes());
        ProcessedFile { path, content, chunks, file_type, size, hash }
    }

    /// Whether a file of this type is processed: every known type is.
    pub fn should_process_file(&self, file_type: &Option<FileType>) -> (r: bool)
        ensures
            r == (*file_type is Some),
    {
        match file_type {
            Some(FileType::Text) | Some(FileType::Code) | Some(FileType::Data) | Some(
                FileType::Markup,
            ) | Some(FileType::Config) => true,
            None => false,
        }
    }

    /// For the first root that the file lies below: the normalized directory
    /// of the file, then the normalized root.
    pub fn extract_parent_directories(&self, file_path: &str, root_dirs: &[String], cwd: &str) -> (dirs: Vec<String>)
        ensures
            views(dirs@) == processor_parent_dirs(file_path@, root_dirs@, cwd@),
    {
        let mut dirs: Vec<String> = Vec::new();
        let mut i: usize = 0;
        proof {
            lemma_first_root(file_path@, root_dirs@);
        }
        while i < root_dirs.len()
            invariant
                i <= root_dirs@.len(),
                dirs@.len() == 0,
                -1 <= first_root(file_path@, root_dirs@) < root_dirs@.len(),
                first_root(file_path@, root_dirs@) >= 0 ==> path_components(
                    root_dirs@[first_root(file_path@, root_dirs@)]@,
                ).is_prefix_of(path_components(file_path@)),
                forall|j: int|
                    0 <= j < root_dirs@.len() && (first_root(file_path@, root_dirs@) < 0 || j
                        < first_root(file_path@, root_dirs@)) ==> !path_components(
                        (#[trigger] root_dirs@[j])@,
                    ).is_prefix_of(path_components(file_path@)),
                first_root(file_path@, root_dirs@) < 0 || i <= first_root(file_path@, root_dirs@),
            decreases root_dirs.len() - i,
        {
            let root = root_dirs[i].as_str();
            match strip_path_prefix(file_path, root) {
                Some(rel) => {
                    assert(first_root(file_path@, root_dirs@) == i);
                    match path_parent_of(rel.as_str()) {
                        Some(parent) => {
                            let joined = join_paths(root, parent.as_str());
                            dirs.push(normalize_path(joined.as_str(), cwd));
                        },
                        None => {},
                    }
                    dirs.push(normalize_path(root, cwd));
                    assert(views(dirs@) =~= processor_parent_dirs(file_path@, root_dirs@, cwd@));
                    return dirs;
                },
                None => {},
            }
            i = i + 1;
        }
        assert(views(dirs@) =~= processor_parent_dirs(file_path@, root_dirs@, cwd@));
        dirs
    }
}

} // verus!
