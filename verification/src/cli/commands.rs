//! The decisions the commands make: chunk ranges, argument checks and what
//! the commands report.
use vstd::prelude::*;

use crate::error::{is_invalid_input, is_not_found, IndexerError, Result};
use crate::indexing::engine::IndexingStats;
use crate::search::engine::SearchResult;
use crate::storage::qdrant::CollectionInfo;
use crate::strings::{
    append_str, concat, contains_char, decimal, i64_to_decimal, is_blank, is_blank_seq, join_spec,
    join_strings, lemma_parse_decimal, lemma_split_contains, lemma_split_pair, parse_usize, parse_usize_spec, replace_char,
    replace_char_spec, signed_decimal, split_char, split_spec, str_eq, str_slice, to_owned_string,
    u64_to_decimal, usize_to_decimal, utf8, views,
};
use vstd::string::StringSliceAdditionalSpecFns;
use vstd::utf8::is_char_boundary;

verus! {

/// Why a chunk selection such as `"3"` or `"2-5"` is refused, or `None` when it
/// is accepted.
pub open spec fn chunk_range_error(s: Seq<char>) -> Option<Seq<char>> {
    if s.contains('-') {
        let parts = split_spec(s, '-');
        if parts.len() != 2 {
            Some("Invalid chunk range format. Use 'start-end' (e.g., '1-5')"@)
        } else if parse_usize_spec(parts[0]) is None {
            Some("Invalid start chunk number"@)
        } else if parse_usize_spec(parts[1]) is None {
            Some("Invalid end chunk number"@)
        } else {
            let start = parse_usize_spec(parts[0])->0;
            let end = parse_usize_spec(parts[1])->0;
            if start == 0 || end == 0 {
                Some("Chunk numbers must be greater than 0"@)
            } else if start > end {
                Some("Start chunk must be less than or equal to end chunk"@)
            } else {
                None
            }
        }
    } else {
        match parse_usize_spec(s) {
            None => Some("Invalid chunk number"@),
            Some(n) => if n == 0 {
                Some("Chunk number must be greater than 0"@)
            } else {
                None
            },
        }
    }
}

/// The numbers of a chunk selection can be read: both ends of a range, or the
/// single chunk number.
pub open spec fn chunk_range_readable(s: Seq<char>) -> bool {
    if s.contains('-') {
        parse_usize_spec(split_spec(s, '-')[0]) is Some && parse_usize_spec(
            split_spec(s, '-')[1],
        ) is Some
    } else {
        parse_usize_spec(s) is Some
    }
}

/// The first and last chunk that a readable selection names.
pub open spec fn chunk_range_bounds(s: Seq<char>) -> (usize, usize) {
    if s.contains('-') {
        (
            parse_usize_spec(split_spec(s, '-')[0])->0,
            parse_usize_spec(split_spec(s, '-')[1])->0,
        )
    } else {
        (parse_usize_spec(s)->0, parse_usize_spec(s)->0)
    }
}

/// Checks a chunk selection: a chunk number, or `start-end` with
/// `0 < start <= end`.
pub fn validate_chunk_range(chunk_str: &str) -> (r: Result<()>)
    ensures
        match r {
            Ok(_) => chunk_range_error(chunk_str@) is None,
            Err(e) => chunk_range_error(chunk_str@) matches Some(m) && is_invalid_input(e, m),
        },
{
    if contains_char(chunk_str, '-') {
        let parts = split_char(chunk_str, '-');
        if parts.len() != 2 {
            return Err(
                IndexerError::invalid_input(
                    "Invalid chunk range format. Use 'start-end' (e.g., '1-5')",
                ),
            );
        }
        assert(parts@[0]@ == split_spec(chunk_str@, '-')[0]);
        assert(parts@[1]@ == split_spec(chunk_str@, '-')[1]);
        let start = match parse_usize(parts[0].as_str()) {
            Some(n) => n,
            None => {
                return Err(IndexerError::invalid_input("Invalid start chunk number"));
            },
        };
        let end = match parse_usize(parts[1].as_str()) {
            Some(n) => n,
            None => {
                return Err(IndexerError::invalid_input("Invalid end chunk number"));
            },
        };
        if start == 0 || end == 0 {
            return Err(IndexerError::invalid_input("Chunk numbers must be greater than 0"));
        }
        if start > end {
            return Err(
                IndexerError::invalid_input("Start chunk must be less than or equal to end chunk"),
            );
        }
    } else {
        let chunk = match parse_usize(chunk_str) {
            Some(n) => n,
            None => {
                return Err(IndexerError::invalid_input("Invalid chunk number"));
            },
        };
        if chunk == 0 {
            return Err(IndexerError::invalid_input("Chunk number must be greater than 0"));
        }
    }
    Ok(())
}

/// Reads the first and last chunk of a selection; a single number `n` stands
/// for the range `n-n`.
pub fn parse_chunk_range(chunk_str: &str) -> (r: Result<(usize, usize)>)
    requires
        chunk_range_readable(chunk_str@),
    ensures
        r matches Ok(p) && p == chunk_range_bounds(chunk_str@),
{
    if contains_char(chunk_str, '-') {
        let parts = split_char(chunk_str, '-');
        proof {
            lemma_split_contains(chunk_str@, '-');
        }
        assert(parts@[0]@ == split_spec(chunk_str@, '-')[0]);
        assert(parts@[1]@ == split_spec(chunk_str@, '-')[1]);
        let start = parse_usize(parts[0].as_str()).unwrap();
        let end = parse_usize(parts[1].as_str()).unwrap();
        Ok((start, end))
    } else {
        let chunk = parse_usize(chunk_str).unwrap();
        Ok((chunk, chunk))
    }
}

/// Every range that validation accepts can be read, and names chunks
/// `start <= end`, both at least 1.
pub proof fn lemma_accepted_range_is_readable(s: Seq<char>)
    requires
        chunk_range_error(s) is None,
    ensures
        chunk_range_readable(s),
        1 <= chunk_range_bounds(s).0 <= chunk_range_bounds(s).1,
{
}

/// Writing a range back as text and reading it gives the same chunks: for
/// `1 <= x <= y`, `"x-y"` is accepted and names `x` to `y`, and `"x"` is
/// accepted and names `x` to `x`.
pub proof fn lemma_range_round_trip(x: usize, y: usize)
    requires
        1 <= x <= y,
    ensures
        chunk_range_error(decimal(x as nat) + seq!['-'] + decimal(y as nat)) is None,
        chunk_range_bounds(decimal(x as nat) + seq!['-'] + decimal(y as nat)) == (x, y),
        chunk_range_error(decimal(x as nat)) is None,
        chunk_range_bounds(decimal(x as nat)) == (x, x),
{
    lemma_parse_decimal(x);
    lemma_parse_decimal(y);
    lemma_split_pair(decimal(x as nat), decimal(y as nat), '-');
}

} // verus!

verus! {

/// What a path on disk is, as the caller found it.
#[derive(Debug, Clone, Copy, PartialEq, Eq)]
pub enum PathKind {
    /// Nothing exists at the path.
    Missing,
    Directory,
    File,
    /// Something that is neither a directory nor a regular file.
    Other,
}

/// `e` is the error for a path that should be a directory and is not.
pub open spec fn not_a_directory_error(e: IndexerError, path: Seq<char>, kind: PathKind) -> bool {
    if kind == PathKind::Missing {
        is_not_found(e, "Directory not found: "@ + path)
    } else {
        is_invalid_input(e, "Path is not a directory: "@ + path)
    }
}

/// Checks the directories an index command names, in order: there must be
/// one, and each must be a directory; the first that is not is reported.
pub fn check_index_paths(paths: &Vec<String>, kinds: &Vec<PathKind>) -> (r: Result<()>)
    requires
        kinds@.len() == paths@.len(),
    ensures
        paths@.len() == 0 ==> (r matches Err(e) && is_invalid_input(
            e,
            "At least one directory path is required"@,
        )),
        paths@.len() > 0 ==> match r {
            Ok(_) => forall|j: int| 0 <= j < kinds@.len() ==> kinds@[j] == PathKind::Directory,
            Err(e) => exists|k: int|
                0 <= k < kinds@.len() && (forall|j: int| 0 <= j < k ==> kinds@[j] == PathKind::Directory)
                    && kinds@[k] != PathKind::Directory && not_a_directory_error(
                    e,
                    paths@[k]@,
                    #[trigger] kinds@[k],
                ),
        },
{
    if paths.len() == 0 {
        return Err(IndexerError::invalid_input("At least one directory path is required"));
    }
    let mut i: usize = 0;
    while i < paths.len()
        invariant
            kinds@.len() == paths@.len(),
            i <= paths@.len(),
            forall|j: int| 0 <= j < i ==> kinds@[j] == PathKind::Directory,
        decreases paths.len() - i,
    {
        match kinds[i] {
            PathKind::Directory => {},
            PathKind::Missing => {
                let m = concat("Directory not found: ", paths[i].as_str());
                let e = IndexerError::not_found(m.as_str());
                assert(not_a_directory_error(e, paths@[i as int]@, kinds@[i as int]));
                return Err(e);
            },
            _ => {
                let m = concat("Path is not a directory: ", paths[i].as_str());
                let e = IndexerError::invalid_input(m.as_str());
                assert(not_a_directory_error(e, paths@[i as int]@, kinds@[i as int]));
                return Err(e);
            },
        }
        i = i + 1;
    }
    Ok(())
}

/// Checks the file a command names: it must exist and be a regular file.
pub fn check_file_path(file: &str, kind: PathKind) -> (r: Result<()>)
    ensures
        kind == PathKind::File ==> r is Ok,
        kind == PathKind::Missing ==> (r matches Err(e) && is_not_found(e, "File not found: "@ + file@)),
        kind != PathKind::File && kind != PathKind::Missing ==> (r matches Err(e) && is_invalid_input(
            e,
            "Path is not a file: "@ + file@,
        )),
{
    match kind {
        PathKind::File => Ok(()),
        PathKind::Missing => {
            let m = concat("File not found: ", file);
            Err(IndexerError::not_found(m.as_str()))
        },
        _ => {
            let m = concat("Path is not a file: ", file);
            Err(IndexerError::invalid_input(m.as_str()))
        },
    }
}

/// Checks the arguments of a search command: the query is not blank, and the
/// directory it is scoped to, if any, exists.
pub fn check_search_arguments(query: &str, path: Option<&str>, path_exists: bool) -> (r: Result<()>)
    ensures
        is_blank_seq(query@) ==> (r matches Err(e) && is_invalid_input(
            e,
            "Search query cannot be empty"@,
        )),
        !is_blank_seq(query@) && path is Some && !path_exists ==> (r matches Err(e) && is_not_found(
            e,
            "Directory not found: "@ + path->0@,
        )),
        !is_blank_seq(query@) && (path is None || path_exists) ==> r is Ok,
{
    if is_blank(query) {
        return Err(IndexerError::invalid_input("Search query cannot be empty"));
    }
    if let Some(p) = path {
        if !path_exists {
            let m = concat("Directory not found: ", p);
            return Err(IndexerError::not_found(m.as_str()));
        }
    }
    Ok(())
}

/// The lines an index command prints before it starts.
pub fn index_plan_lines(paths: &Vec<String>) -> (lines: Vec<String>)
    ensures
        views(lines@) == seq!["Indexing "@ + decimal(paths@.len()) + " directories"@] + views(
            paths@,
        ).map_values(|p: Seq<char>| "  "@ + p),
{
    let mut lines: Vec<String> = Vec::new();
    let mut first = concat("Indexing ", usize_to_decimal(paths.len()).as_str());
    append_str(&mut first, " directories");
    lines.push(first);
    let mut i: usize = 0;
    while i < paths.len()
        invariant
            i <= paths@.len(),
            views(lines@) == seq!["Indexing "@ + decimal(paths@.len()) + " directories"@] + views(
                paths@.take(i as int),
            ).map_values(|p: Seq<char>| "  "@ + p),
        decreases paths.len() - i,
    {
        let ghost before = views(lines@);
        lines.push(concat("  ", paths[i].as_str()));
        proof {
            let f = |p: Seq<char>| "  "@ + p;
            assert(views(paths@.take(i + 1)) =~= views(paths@.take(i as int)).push(paths@[i as int]@));
            assert(views(paths@.take(i + 1)).map_values(f) =~= views(paths@.take(i as int)).map_values(
                f,
            ).push(f(paths@[i as int]@)));
            assert(views(lines@) =~= before.push("  "@ + paths@[i as int]@));
        }
        i = i + 1;
    }
    assert(paths@.take(i as int) == paths@);
    lines
}

/// The lines an index command prints when it is done.
pub fn index_summary_lines(stats: &IndexingStats) -> (lines: Vec<String>)
    ensures
        views(lines@) == seq![
            "Indexing completed!"@,
            "  Directories processed: "@ + decimal(stats.directories_processed as nat),
            "  Files processed: "@ + decimal(stats.files_processed as nat),
            "  Files skipped: "@ + decimal(stats.files_skipped as nat),
            "  Files with errors: "@ + decimal(stats.files_errored as nat),
            "  Chunks created: "@ + decimal(stats.chunks_created as nat),
        ],
{
    let mut lines: Vec<String> = Vec::new();
    lines.push(to_owned_string("Indexing completed!"));
    lines.push(concat("  Directories processed: ", usize_to_decimal(stats.directories_processed).as_str()));
    lines.push(concat("  Files processed: ", usize_to_decimal(stats.files_processed).as_str()));
    lines.push(concat("  Files skipped: ", usize_to_decimal(stats.files_skipped).as_str()));
    lines.push(concat("  Files with errors: ", usize_to_decimal(stats.files_errored).as_str()));
    lines.push(concat("  Chunks created: ", usize_to_decimal(stats.chunks_created).as_str()));
    assert(views(lines@) =~= seq![
        "Indexing completed!"@,
        "  Directories processed: "@ + decimal(stats.directories_processed as nat),
        "  Files processed: "@ + decimal(stats.files_processed as nat),
        "  Files skipped: "@ + decimal(stats.files_skipped as nat),
        "  Files with errors: "@ + decimal(stats.files_errored as nat),
        "  Chunks created: "@ + decimal(stats.chunks_created as nat),
    ]);
    lines
}

/// The preview of a chunk: its first 200 bytes followed by `...` when it is
/// longer, all of it otherwise, with line breaks shown as spaces.
pub open spec fn preview_of(chunk: Seq<char>, preview: Seq<char>) -> bool {
    if utf8(chunk).len() > 200 {
        exists|head: Seq<char>|
            utf8(head) == utf8(chunk).take(200) && preview == replace_char_spec(
                head + "..."@,
                '\n',
                ' ',
            )
    } else {
        preview == replace_char_spec(chunk, '\n', ' ')
    }
}

/// The preview printed for a chunk. A chunk longer than 200 bytes must have
/// a character boundary there.
pub fn preview_text(chunk: &str) -> (p: String)
    requires
        chunk.spec_bytes().len() > 200 ==> is_char_boundary(chunk.spec_bytes(), 200),
    ensures
        preview_of(chunk@, p@),
{
    broadcast use vstd::utf8::encode_utf8_valid_utf8;

    if chunk.as_bytes().len() > 200 {
        proof {
            vstd::utf8::is_char_boundary_start_end_of_seq(chunk.spec_bytes());
        }
        let head = str_slice(chunk, 0, 200);
        let cut = concat(head, "...");
        let p = replace_char(cut.as_str(), '\n', ' ');
        assert(utf8(head@) == utf8(chunk@).take(200));
        p
    } else {
        replace_char(chunk, '\n', ' ')
    }
}

/// The preview of the stored chunk a hit points at, if the chunk is stored.
pub fn chunk_preview(chunks: &Vec<String>, chunk_id: usize) -> (p: Option<String>)
    requires
        chunk_id < chunks@.len() ==> (utf8(chunks@[chunk_id as int]@).len() > 200
            ==> is_char_boundary(utf8(chunks@[chunk_id as int]@), 200)),
    ensures
        chunk_id < chunks@.len() ==> (p matches Some(t) && preview_of(chunks@[chunk_id as int]@, t@)),
        chunk_id >= chunks@.len() ==> p is None,
{
    if chunk_id < chunks.len() {
        Some(preview_text(chunks[chunk_id].as_str()))
    } else {
        None
    }
}

/// The lines a status command prints in the format `json` or `text`;
/// another format is refused. The database size is shown in whole MiB.
pub fn status_lines(
    format: &str,
    directories: i64,
    files: i64,
    chunks: i64,
    info: &Option<CollectionInfo>,
    database_bytes: u64,
) -> (r: Result<Vec<String>>)
    ensures
        format@ == "json"@ ==> (r matches Ok(lines) && views(lines@) == seq![
            "{"@,
            "  \"indexed_directories\": "@ + signed_decimal(directories as int) + ","@,
            "  \"indexed_files\": "@ + signed_decimal(files as int) + ","@,
            "  \"total_chunks\": "@ + signed_decimal(chunks as int) + ","@,
            "  \"vector_points\": "@ + decimal(
                match info {
                    Some(i) => i.points_count as nat,
                    None => 0,
                },
            ) + ","@,
            "  \"indexed_vectors\": "@ + decimal(
                match info {
                    Some(i) => i.indexed_vectors_count as nat,
                    None => 0,
                },
            ) + ","@,
            "  \"database_size_mb\": "@ + decimal((database_bytes / 1048576u64) as nat),
            "}"@,
        ]),
        format@ == "text"@ ==> (r matches Ok(lines) && views(lines@) == seq![
            "Directory Indexer Status"@,
            "  Indexed directories: "@ + signed_decimal(directories as int),
            "  Indexed files: "@ + signed_decimal(files as int),
            "  Total chunks: "@ + signed_decimal(chunks as int),
            match info {
                Some(i) => "  Vector points: "@ + decimal(i.points_count as nat),
                None => "  Vector points: 0 (collection not created)"@,
            },
            match info {
                Some(i) => "  Indexed vectors: "@ + decimal(i.indexed_vectors_count as nat),
                None => "  Indexed vectors: 0"@,
            },
            "  Database size: "@ + decimal((database_bytes / 1048576u64) as nat) + " MB"@,
        ]),
        format@ != "json"@ && format@ != "text"@ ==> (r matches Err(e) && is_invalid_input(
            e,
            "Unsupported format: "@ + format@ + ". Use 'text' or 'json'"@,
        )),
{
    proof {
        reveal_strlit("json");
        reveal_strlit("text");
        assert("json"@[0] != "text"@[0]);
    }
    let mb = database_bytes / (1024 * 1024);
    let (points, indexed): (u64, u64) = match info {
        Some(i) => (i.points_count, i.indexed_vectors_count),
        None => (0, 0),
    };
    let mut lines: Vec<String> = Vec::new();
    if str_eq(format, "json") {
        lines.push(to_owned_string("{"));
        let mut l = concat("  \"indexed_directories\": ", i64_to_decimal(directories).as_str());
        append_str(&mut l, ",");
        lines.push(l);
        let mut l = concat("  \"indexed_files\": ", i64_to_decimal(files).as_str());
        append_str(&mut l, ",");
        lines.push(l);
        let mut l = concat("  \"total_chunks\": ", i64_to_decimal(chunks).as_str());
        append_str(&mut l, ",");
        lines.push(l);
        let mut l = concat("  \"vector_points\": ", u64_to_decimal(points).as_str());
        append_str(&mut l, ",");
        lines.push(l);
        let mut l = concat("  \"indexed_vectors\": ", u64_to_decimal(indexed).as_str());
        append_str(&mut l, ",");
        lines.push(l);
        lines.push(concat("  \"database_size_mb\": ", u64_to_decimal(mb).as_str()));
        lines.push(to_owned_string("}"));
        Ok(lines)
    } else if str_eq(format, "text") {
        lines.push(to_owned_string("Directory Indexer Status"));
        lines.push(concat("  Indexed directories: ", i64_to_decimal(directories).as_str()));
        lines.push(concat("  Indexed files: ", i64_to_decimal(files).as_str()));
        lines.push(concat("  Total chunks: ", i64_to_decimal(chunks).as_str()));
        match info {
            Some(i) => {
                lines.push(concat("  Vector points: ", u64_to_decimal(i.points_count).as_str()));
                lines.push(
                    concat("  Indexed vectors: ", u64_to_decimal(i.indexed_vectors_count).as_str()),
                );
            },
            None => {
                lines.push(to_owned_string("  Vector points: 0 (collection not created)"));
                lines.push(to_owned_string("  Indexed vectors: 0"));
            },
        }
        let mut l = concat("  Database size: ", u64_to_decimal(mb).as_str());
        append_str(&mut l, " MB");
        lines.push(l);
        Ok(lines)
    } else {
        let mut m = concat("Unsupported format: ", format);
        append_str(&mut m, ". Use 'text' or 'json'");
        Err(IndexerError::invalid_input(m.as_str()))
    }
}

/// The lines a get command prints after the content header: a title, the
/// chunk range if one was asked for, and the content.
pub fn content_lines(chunk_range: Option<(usize, usize)>, content: &str) -> (lines: Vec<String>)
    ensures
        views(lines@) == seq!["\nFile Content:"@, "============="@] + match chunk_range {
            Some((s, e)) => seq!["Chunks "@ + decimal(s as nat) + "-"@ + decimal(e as nat) + ":"@],
            None => Seq::<Seq<char>>::empty(),
        } + seq![content@],
{
    let mut lines: Vec<String> = Vec::new();
    lines.push(to_owned_string("\nFile Content:"));
    lines.push(to_owned_string("============="));
    if let Some((s, e)) = chunk_range {
        let mut l = concat("Chunks ", usize_to_decimal(s).as_str());
        append_str(&mut l, "-");
        append_str(&mut l, usize_to_decimal(e).as_str());
        append_str(&mut l, ":");
        lines.push(l);
    }
    lines.push(to_owned_string(content));
    assert(views(lines@) =~= seq!["\nFile Content:"@, "============="@] + match chunk_range {
        Some((s, e)) => seq!["Chunks "@ + decimal(s as nat) + "-"@ + decimal(e as nat) + ":"@],
        None => Seq::<Seq<char>>::empty(),
    } + seq![content@]);
    lines
}


/// The preview line of a hit, if it has a preview.
pub open spec fn preview_line(preview: Option<String>) -> Seq<Seq<char>> {
    match preview {
        Some(p) => seq!["   Preview: "@ + p@],
        None => Seq::<Seq<char>>::empty(),
    }
}

/// The lines a search command prints for hit `i` (numbered from 1).
pub open spec fn search_hit_lines(i: int, r: SearchResult, score: Seq<char>, preview: Option<String>) -> Seq<
    Seq<char>,
> {
    seq![
        "\n"@ + decimal((i + 1) as nat) + ". "@ + r.file_path@ + " (score: "@ + score + ")"@,
        "   Chunk: "@ + decimal(r.chunk_id as nat),
    ] + (if r.parent_directories@.len() == 0 {
        Seq::<Seq<char>>::empty()
    } else {
        seq!["   Path: "@ + join_spec(views(r.parent_directories@), " > "@)]
    }) + preview_line(preview)
}

/// The lines a similar command prints for file `i` (numbered from 1).
pub open spec fn similar_hit_lines(i: int, r: SearchResult, score: Seq<char>, preview: Option<String>) -> Seq<
    Seq<char>,
> {
    seq![
        "\n"@ + decimal((i + 1) as nat) + ". "@ + r.file_path@ + " (score: "@ + score + ")"@,
        "   Best matching chunk: "@ + decimal(r.chunk_id as nat),
    ] + preview_line(preview)
}

/// The lines of all hits, in order (search lines, or similar-file lines).
pub open spec fn hits_lines(
    rs: Seq<SearchResult>,
    scores: Seq<String>,
    previews: Seq<Option<String>>,
    similar: bool,
) -> Seq<Seq<char>>
    decreases rs.len(),
{
    if rs.len() == 0 || scores.len() != rs.len() || previews.len() != rs.len() {
        Seq::<Seq<char>>::empty()
    } else {
        hits_lines(rs.drop_last(), scores.drop_last(), previews.drop_last(), similar) + if similar {
            similar_hit_lines(rs.len() - 1, rs.last(), scores.last()@, previews.last())
        } else {
            search_hit_lines(rs.len() - 1, rs.last(), scores.last()@, previews.last())
        }
    }
}

fn push_hit_lines(
    lines: &mut Vec<String>,
    i: usize,
    r: &SearchResult,
    score: &str,
    preview: &Option<String>,
    similar: bool,
)
    requires
        i < usize::MAX,
    ensures
        views(final(lines)@) == views(old(lines)@) + if similar {
            similar_hit_lines(i as int, *r, score@, *preview)
        } else {
            search_hit_lines(i as int, *r, score@, *preview)
        },
{
    let ghost start = views(lines@);
    let mut first = concat("\n", usize_to_decimal(i + 1).as_str());
    append_str(&mut first, ". ");
    append_str(&mut first, r.file_path.as_str());
    append_str(&mut first, " (score: ");
    append_str(&mut first, score);
    append_str(&mut first, ")");
    lines.push(first);
    if similar {
        lines.push(concat("   Best matching chunk: ", usize_to_decimal(r.chunk_id).as_str()));
    } else {
        lines.push(concat("   Chunk: ", usize_to_decimal(r.chunk_id).as_str()));
        if r.parent_directories.len() > 0 {
            let path = join_strings(
                r.parent_directories.as_slice(),
                0,
                r.parent_directories.len(),
                " > ",
            );
            proof {
                assert(r.parent_directories@.subrange(0, r.parent_directories@.len() as int)
                    == r.parent_directories@);
            }
            lines.push(concat("   Path: ", path.as_str()));
        }
    }
    if let Some(p) = preview {
        lines.push(concat("   Preview: ", p.as_str()));
    }
    proof {
        let expected = if similar {
            similar_hit_lines(i as int, *r, score@, *preview)
        } else {
            search_hit_lines(i as int, *r, score@, *preview)
        };
        assert(views(lines@) =~= start + expected);
    }
}

fn push_all_hit_lines(
    lines: &mut Vec<String>,
    results: &Vec<SearchResult>,
    scores: &Vec<String>,
    previews: &Vec<Option<String>>,
    similar: bool,
)
    requires
        scores@.len() == results@.len(),
        previews@.len() == results@.len(),
    ensures
        views(final(lines)@) == views(old(lines)@) + hits_lines(results@, scores@, previews@, similar),
{
    let ghost head = views(lines@);
    let mut i: usize = 0;
    while i < results.len()
        invariant
            scores@.len() == results@.len(),
            previews@.len() == results@.len(),
            i <= results@.len(),
            views(lines@) == head + hits_lines(
                results@.take(i as int),
                scores@.take(i as int),
                previews@.take(i as int),
                similar,
            ),
        decreases results.len() - i,
    {
        push_hit_lines(lines, i, &results[i], scores[i].as_str(), &previews[i], similar);
        proof {
            let rs = results@.take(i + 1);
            let ss = scores@.take(i + 1);
            let ps = previews@.take(i + 1);
            assert(rs.drop_last() == results@.take(i as int));
            assert(ss.drop_last() == scores@.take(i as int));
            assert(ps.drop_last() == previews@.take(i as int));
            assert(rs.last() == results@[i as int]);
            assert(ss.last() == scores@[i as int]);
            assert(ps.last() == previews@[i as int]);
            assert(views(lines@) =~= head + hits_lines(rs, ss, ps, similar));
        }
        i = i + 1;
    }
    proof {
        assert(results@.take(i as int) == results@);
        assert(scores@.take(i as int) == scores@);
        assert(previews@.take(i as int) == previews@);
    }
}

/// The lines a search command prints before it searches: the query, and the
/// scope and limit when given.
pub fn search_header_lines(query: &str, path: Option<&str>, limit: Option<usize>) -> (lines: Vec<
    String,
>)
    ensures
        views(lines@) == seq!["Searching for: '"@ + query@ + "'"@] + match path {
            Some(p) => seq!["  Scope: "@ + p@],
            None => Seq::<Seq<char>>::empty(),
        } + match limit {
            Some(l) => seq!["  Limit: "@ + decimal(l as nat)],
            None => Seq::<Seq<char>>::empty(),
        },
{
    let mut lines: Vec<String> = Vec::new();
    let mut first = concat("Searching for: '", query);
    append_str(&mut first, "'");
    lines.push(first);
    if let Some(p) = path {
        lines.push(concat("  Scope: ", p));
    }
    if let Some(l) = limit {
        lines.push(concat("  Limit: ", usize_to_decimal(l).as_str()));
    }
    assert(views(lines@) =~= seq!["Searching for: '"@ + query@ + "'"@] + match path {
        Some(p) => seq!["  Scope: "@ + p@],
        None => Seq::<Seq<char>>::empty(),
    } + match limit {
        Some(l) => seq!["  Limit: "@ + decimal(l as nat)],
        None => Seq::<Seq<char>>::empty(),
    });
    lines
}

/// The lines a search command prints for its hits, with their scores as the
/// caller rendered them and the previews of their chunks where stored.
pub fn search_result_lines(
    query: &str,
    results: &Vec<SearchResult>,
    scores: &Vec<String>,
    previews: &Vec<Option<String>>,
) -> (lines: Vec<String>)
    requires
        scores@.len() == results@.len(),
        previews@.len() == results@.len(),
    ensures
        views(lines@) == if results@.len() == 0 {
            seq!["No results found for query: '"@ + query@ + "'"@]
        } else {
            seq!["\nSearch Results:"@, "=============="@] + hits_lines(results@, scores@, previews@, false)
        },
{
    let mut lines: Vec<String> = Vec::new();
    if results.len() == 0 {
        let mut l = concat("No results found for query: '", query);
        append_str(&mut l, "'");
        lines.push(l);
        assert(views(lines@) =~= seq!["No results found for query: '"@ + query@ + "'"@]);
    } else {
        lines.push(to_owned_string("\nSearch Results:"));
        lines.push(to_owned_string("=============="));
        assert(views(lines@) =~= seq!["\nSearch Results:"@, "=============="@]);
        push_all_hit_lines(&mut lines, results, scores, previews, false);
    }
    lines
}

/// The lines a similar command prints before it searches.
pub fn similar_header_lines(file: &str, limit: usize) -> (lines: Vec<String>)
    ensures
        views(lines@) == seq!["Finding files similar to: "@ + file@, "  Limit: "@ + decimal(limit as nat)],
{
    let mut lines: Vec<String> = Vec::new();
    lines.push(concat("Finding files similar to: ", file));
    lines.push(concat("  Limit: ", usize_to_decimal(limit).as_str()));
    assert(views(lines@) =~= seq!["Finding files similar to: "@ + file@, "  Limit: "@ + decimal(limit as nat)]);
    lines
}

/// The lines a similar command prints for the files it found.
pub fn similar_result_lines(
    file: &str,
    results: &Vec<SearchResult>,
    scores: &Vec<String>,
    previews: &Vec<Option<String>>,
) -> (lines: Vec<String>)
    requires
        scores@.len() == results@.len(),
        previews@.len() == results@.len(),
    ensures
        views(lines@) == if results@.len() == 0 {
            seq!["No similar files found for: "@ + file@]
        } else {
            seq!["\nSimilar Files:"@, "=============="@] + hits_lines(results@, scores@, previews@, true)
        },
{
    let mut lines: Vec<String> = Vec::new();
    if results.len() == 0 {
        lines.push(concat("No similar files found for: ", file));
        assert(views(lines@) =~= seq!["No similar files found for: "@ + file@]);
    } else {
        lines.push(to_owned_string("\nSimilar Files:"));
        lines.push(to_owned_string("=============="));
        assert(views(lines@) =~= seq!["\nSimilar Files:"@, "=============="@]);
        push_all_hit_lines(&mut lines, results, scores, previews, true);
    }
    lines
}

/// The lines a get command prints before it reads the content.
pub fn content_header_lines(file: &str, chunks: Option<&str>) -> (lines: Vec<String>)
    ensures
        views(lines@) == seq!["Getting content from: "@ + file@] + match chunks {
            Some(c) => seq!["  Chunks: "@ + c@],
            None => Seq::<Seq<char>>::empty(),
        },
{
    let mut lines: Vec<String> = Vec::new();
    lines.push(concat("Getting content from: ", file));
    if let Some(c) = chunks {
        lines.push(concat("  Chunks: ", c));
    }
    assert(views(lines@) =~= seq!["Getting content from: "@ + file@] + match chunks {
        Some(c) => seq!["  Chunks: "@ + c@],
        None => Seq::<Seq<char>>::empty(),
    });
    lines
}

} // verus!
