//! What a file's content request answers: the stored chunks or the lines of
//! the file, all of them or a range of chunks, and the text a similarity
//! search starts from.
use vstd::prelude::*;

use crate::error::{is_invalid_input, is_not_found, IndexerError, Result};
use crate::search::engine::SearchEngine;
use crate::strings::{
    append_str, concat, decimal, join_spec, join_strings, lines_of, lines_spec, str_slice,
    to_owned_string, usize_to_decimal, utf8, views,
};
use vstd::string::StringSliceAdditionalSpecFns;
use vstd::utf8::is_char_boundary;

verus! {

/// The first index of a one-based chunk number (`start.saturating_sub(1)`).
pub open spec fn first_index(start: usize) -> int {
    if start == 0 {
        0
    } else {
        start - 1
    }
}

/// The smaller of two integers.
pub open spec fn min_int(a: int, b: int) -> int {
    if a <= b {
        a
    } else {
        b
    }
}

/// The message for a chunk range that starts past the stored chunks.
pub open spec fn chunk_range_message(start: usize, end: usize, available: nat) -> Seq<char> {
    "Chunk range "@ + decimal(start as nat) + "-"@ + decimal(end as nat)
        + " exceeds available chunks ("@ + decimal(available) + ")"@
}

/// A range of stored chunks can be cut: it starts past the chunks (and is
/// refused) or it does not end before it starts.
pub open spec fn stored_range_cuttable(len: nat, start: usize, end: usize) -> bool {
    first_index(start) >= len || first_index(start) <= min_int(end as int, len as int)
}

/// The lines one estimated chunk of a file with `n` lines holds: a tenth of
/// them, rounded up.
pub open spec fn lines_per_chunk(n: int) -> int {
    n / 10 + if n % 10 == 0 {
        0int
    } else {
        1int
    }
}

/// How many estimated chunks a file with `n` lines has.
pub open spec fn estimated_chunks(n: int) -> int {
    let l = lines_per_chunk(n);
    n / l + if n % l == 0 {
        0int
    } else {
        1int
    }
}

/// The message for a chunk number past the estimated chunks of a file.
pub open spec fn line_chunk_message(start: usize, total: int) -> Seq<char> {
    "Chunk "@ + decimal(start as nat) + " is out of range. File has "@ + decimal(total as nat)
        + " estimated chunks"@
}

/// A chunk range can be read from a file with `n` lines: the file has a line,
/// the last line asked for fits in a `usize`, and an accepted range does not
/// end before it starts.
pub open spec fn line_range_readable(n: int, start: usize, end: usize) -> bool {
    &&& n > 0
    &&& end * lines_per_chunk(n) <= usize::MAX
    &&& (start > estimated_chunks(n) || start == 0 || start <= end + 1)
}

/// The message when a file has no stored chunks.
pub open spec fn no_chunks_message(file: Seq<char>) -> Seq<char> {
    "No chunks found for file: "@ + file
}

proof fn lemma_lines_per_chunk(n: int)
    requires
        n > 0,
    ensures
        lines_per_chunk(n) >= 1,
        lines_per_chunk(n) <= n,
{
}

proof fn lemma_estimated_chunks(n: int)
    requires
        n > 0,
    ensures
        1 <= estimated_chunks(n) <= n,
{
    let l = lines_per_chunk(n);
    lemma_lines_per_chunk(n);
    let q = n / l;
    let r = n % l;
    vstd::arithmetic::div_mod::lemma_fundamental_div_mod(n, l);
    assert(0 <= r < l);
    assert(q >= 0) by (nonlinear_arith)
        requires
            n > 0,
            l > 0,
            q == n / l,
    ;
    if r > 0 {
        assert(q * l <= n - 1) by (nonlinear_arith)
            requires
                n == l * q + r,
                r >= 1,
        ;
        assert(q <= n - 1) by (nonlinear_arith)
            requires
                q * l <= n - 1,
                l >= 1,
                q >= 0,
        ;
    } else {
        assert(q >= 1) by (nonlinear_arith)
            requires
                n == l * q,
                n > 0,
                l > 0,
        ;
        assert(q <= n) by (nonlinear_arith)
            requires
                n == l * q,
                l >= 1,
                q >= 0,
        ;
    }
}

proof fn lemma_chunk_start(n: int, l: int, start: int)
    requires
        n > 0,
        l > 0,
        1 <= start <= n / l + if n % l == 0 {
            0int
        } else {
            1int
        },
    ensures
        (start - 1) * l < n,
{
    let q = n / l;
    let r = n % l;
    vstd::arithmetic::div_mod::lemma_fundamental_div_mod(n, l);
    assert(n == l * q + r);
    assert(0 <= r < l);
    if r == 0 {
        assert(start - 1 <= q - 1);
        assert((start - 1) * l <= (q - 1) * l) by (nonlinear_arith)
            requires
                start - 1 <= q - 1,
                l > 0,
        ;
        assert((q - 1) * l == l * q - l) by (nonlinear_arith);
    } else {
        assert(start - 1 <= q);
        assert((start - 1) * l <= q * l) by (nonlinear_arith)
            requires
                start - 1 <= q,
                l > 0,
        ;
        assert(q * l == l * q) by (nonlinear_arith);
    }
}

/// What a request for stored chunks answers: all of them joined by newlines,
/// or those of the one-based range `start..=end` (the end clipped to the
/// chunks there are); a range that starts past the chunks is refused.
pub open spec fn stored_chunks_answer(
    chunks: Seq<Seq<char>>,
    chunk_range: Option<(usize, usize)>,
    r: Result<String>,
) -> bool {
    match chunk_range {
        None => r matches Ok(t) && t@ == join_spec(chunks, "\n"@),
        Some((start, end)) => {
            let s = first_index(start);
            let e = min_int(end as int, chunks.len() as int);
            if s >= chunks.len() {
                r matches Err(err) && is_invalid_input(err, chunk_range_message(start, end, chunks.len()))
            } else {
                r matches Ok(t) && t@ == join_spec(chunks.subrange(s, e), "\n"@)
            }
        },
    }
}

/// What a request for a file's lines answers: all of the file, or the lines
/// of the one-based estimated chunks `start..=end` joined by newlines; a
/// chunk number of 0 or past the estimated chunks is refused.
pub open spec fn line_chunks_answer(content: Seq<char>, chunk_range: Option<(usize, usize)>, r: Result<String>) -> bool {
    match chunk_range {
        None => r matches Ok(t) && t@ == content,
        Some((start, end)) => {
            let lines = lines_spec(content);
            let n = lines.len() as int;
            let l = lines_per_chunk(n);
            let total = estimated_chunks(n);
            if start > total || start == 0 {
                r matches Err(err) && is_invalid_input(err, line_chunk_message(start, total))
            } else {
                r matches Ok(t) && t@ == join_spec(lines.subrange((start - 1) * l, min_int(end * l, n)), "\n"@)
            }
        },
    }
}

/// Asking a file with at least one line for every estimated chunk,
/// `1..=total`, answers all of its lines joined by newlines.
pub proof fn lemma_all_line_chunks(content: Seq<char>, total: usize, r: Result<String>)
    requires
        lines_spec(content).len() > 0,
        total == estimated_chunks(lines_spec(content).len() as int),
        line_chunks_answer(content, Some((1usize, total)), r),
    ensures
        r matches Ok(t) && t@ == join_spec(lines_spec(content), "\n"@),
{
    let lines = lines_spec(content);
    let n = lines.len() as int;
    let l = lines_per_chunk(n);
    lemma_lines_per_chunk(n);
    lemma_estimated_chunks(n);
    let q = n / l;
    let rem = n % l;
    vstd::arithmetic::div_mod::lemma_fundamental_div_mod(n, l);
    assert(0 <= rem < l);
    if rem == 0 {
        assert(total * l == n) by (nonlinear_arith)
            requires
                total == q,
                n == l * q,
        ;
    } else {
        assert(total * l >= n) by (nonlinear_arith)
            requires
                total == q + 1,
                n == l * q + rem,
                rem < l,
        ;
    }
    assert(min_int(total * l, n) == n);
    assert((1 - 1) * l == 0);
    assert(lines.subrange(0, n) == lines);
}

/// An estimated chunk holds a tenth of the file's lines, rounded up: for a
/// file of `n > 0` lines, `lines_per_chunk(n)` is the least number whose ten
/// times reach `n`. So a file of at most ten lines has one estimated chunk
/// per line.
pub proof fn lemma_lines_per_chunk_is_ceiling(n: int)
    requires
        n > 0,
    ensures
        lines_per_chunk(n) * 10 >= n,
        (lines_per_chunk(n) - 1) * 10 < n,
        n <= 10 ==> lines_per_chunk(n) == 1 && estimated_chunks(n) == n,
        estimated_chunks(n) * lines_per_chunk(n) >= n,
        (estimated_chunks(n) - 1) * lines_per_chunk(n) < n,
{
    let l = lines_per_chunk(n);
    lemma_lines_per_chunk(n);
    let q = n / l;
    let rem = n % l;
    vstd::arithmetic::div_mod::lemma_fundamental_div_mod(n, l);
    assert(0 <= rem < l);
    if rem == 0 {
        assert(estimated_chunks(n) * l >= n && (estimated_chunks(n) - 1) * l < n) by (nonlinear_arith)
            requires
                estimated_chunks(n) == q,
                n == l * q,
                l >= 1,
        ;
    } else {
        assert(estimated_chunks(n) * l >= n && (estimated_chunks(n) - 1) * l < n) by (nonlinear_arith)
            requires
                estimated_chunks(n) == q + 1,
                n == l * q + rem,
                0 < rem < l,
        ;
    }
    if n <= 10 {
        assert(lines_per_chunk(n) == 1);
        assert(n / 1 == n && n % 1 == 0);
    }
}

/// In a file of at most ten lines, estimated chunk `k` (one-based) is line
/// `k`, and a chunk number past the lines or 0 is refused.
pub proof fn lemma_short_file_chunks(content: Seq<char>, k: usize, r: Result<String>)
    requires
        0 < lines_spec(content).len() <= 10,
        line_chunks_answer(content, Some((k, k)), r),
    ensures
        1 <= k <= lines_spec(content).len() ==> (r matches Ok(t) && t@ == lines_spec(content)[k - 1]),
        (k == 0 || k > lines_spec(content).len()) ==> r is Err,
{
    let lines = lines_spec(content);
    let n = lines.len() as int;
    lemma_lines_per_chunk_is_ceiling(n);
    if 1 <= k <= n {
        assert(lines.subrange(k - 1, min_int(k * 1, n)) =~= seq![lines[k - 1]]);
        assert(join_spec(seq![lines[k - 1]], "\n"@) == lines[k - 1]);
    }
}

/// Chunk numbers start at 1: asking for the range `1..=n` of `n` stored
/// chunks answers the same text as asking for all of them.
pub proof fn lemma_full_range_is_whole(chunks: Seq<Seq<char>>, all: Result<String>, range: Result<String>)
    requires
        0 < chunks.len() <= usize::MAX,
        stored_chunks_answer(chunks, None, all),
        stored_chunks_answer(chunks, Some((1usize, chunks.len() as usize)), range),
    ensures
        all matches Ok(a) && range matches Ok(b) && a@ == b@,
{
    assert(chunks.subrange(0, chunks.len() as int) == chunks);
}

impl SearchEngine {
    /// The text of stored chunks: all of them, or those of a one-based range
    /// `start..=end` (the end clipped to the chunks there are), joined by
    /// newlines. A range that starts past the chunks is refused.
    pub fn select_stored_chunks(chunks: &Vec<String>, chunk_range: Option<(usize, usize)>) -> (r:
        Result<String>)
        requires
            chunk_range matches Some((start, end)) ==> stored_range_cuttable(
                chunks@.len(),
                start,
                end,
            ),
        ensures
            stored_chunks_answer(views(chunks@), chunk_range, r),
    {
        match chunk_range {
            None => {
                let t = join_strings(chunks.as_slice(), 0, chunks.len(), "\n");
                proof {
                    assert(chunks@.subrange(0, chunks@.len() as int) == chunks@);
                }
                Ok(t)
            },
            Some((start, end)) => {
                let s = if start == 0 {
                    0
                } else {
                    start - 1
                };
                let e = if end < chunks.len() {
                    end
                } else {
                    chunks.len()
                };
                if s >= chunks.len() {
                    let mut m = concat("Chunk range ", usize_to_decimal(start).as_str());
                    append_str(&mut m, "-");
                    append_str(&mut m, usize_to_decimal(end).as_str());
                    append_str(&mut m, " exceeds available chunks (");
                    append_str(&mut m, usize_to_decimal(chunks.len()).as_str());
                    append_str(&mut m, ")");
                    return Err(IndexerError::invalid_input(m.as_str()));
                }
                let t = join_strings(chunks.as_slice(), s, e, "\n");
                proof {
                    assert(views(chunks@.subrange(s as int, e as int)) =~= views(chunks@).subrange(
                        s as int,
                        e as int,
                    ));
                }
                Ok(t)
            },
        }
    }

    /// Whether a chunk range can be read from the lines of `content` (see
    /// `select_line_chunks`).
    pub fn line_range_is_readable(content: &str, start: usize, end: usize) -> (r: bool)
        ensures
            r == line_range_readable(lines_spec(content@).len() as int, start, end),
    {
        let n = lines_of(content).len();
        if n == 0 {
            return false;
        }
        proof {
            lemma_lines_per_chunk(n as int);
            lemma_estimated_chunks(n as int);
        }
        let l = n / 10 + if n % 10 == 0 {
            0
        } else {
            1
        };
        let total = n / l + if n % l == 0 {
            0
        } else {
            1
        };
        let fits = match end.checked_mul(l) {
            Some(_) => true,
            None => false,
        };
        fits && (start > total || start == 0 || start - 1 <= end)
    }

    /// The text of a file read from disk: all of it, or the lines of the
    /// one-based estimated chunks `start..=end` joined by newlines, where an
    /// estimated chunk is a tenth of the lines, rounded up. A chunk number of
    /// 0 or past the estimated chunks is refused.
    pub fn select_line_chunks(content: &str, chunk_range: Option<(usize, usize)>) -> (r: Result<
        String,
    >)
        requires
            chunk_range matches Some((start, end)) ==> line_range_readable(
                lines_spec(content@).len() as int,
                start,
                end,
            ),
        ensures
            line_chunks_answer(content@, chunk_range, r),
    {
        match chunk_range {
            None => Ok(to_owned_string(content)),
            Some((start, end)) => {
                let lines = lines_of(content);
                let n = lines.len();
                proof {
                    lemma_lines_per_chunk(n as int);
                    lemma_estimated_chunks(n as int);
                }
                let l = n / 10 + if n % 10 == 0 {
                    0
                } else {
                    1
                };
                let total = n / l + if n % l == 0 {
                    0
                } else {
                    1
                };
                if start > total || start == 0 {
                    let mut m = concat("Chunk ", usize_to_decimal(start).as_str());
                    append_str(&mut m, " is out of range. File has ");
                    append_str(&mut m, usize_to_decimal(total).as_str());
                    append_str(&mut m, " estimated chunks");
                    return Err(IndexerError::invalid_input(m.as_str()));
                }
                proof {
                    lemma_chunk_start(n as int, l as int, start as int);
                    assert((start - 1) * l <= end * l) by (nonlinear_arith)
                        requires
                            start - 1 <= end,
                            l > 0,
                    ;
                }
                let first = (start - 1) * l;
                let upto = end * l;
                let last = if upto < n {
                    upto
                } else {
                    n
                };
                let t = join_strings(lines.as_slice(), first, last, "\n");
                proof {
                    assert(views(lines@.subrange(first as int, last as int)) =~= views(
                        lines@,
                    ).subrange(first as int, last as int));
                }
                Ok(t)
            },
        }
    }

    /// The chunk a similarity search for a file starts from: its first
    /// stored chunk. A file with no stored chunks is not found.
    pub fn representative_chunk(chunks: &Option<Vec<String>>, file_display: &str) -> (r: Result<
        String,
    >)
        ensures
            match chunks {
                Some(cs) if cs@.len() > 0 => r matches Ok(t) && t@ == cs@[0]@,
                _ => r matches Err(e) && is_not_found(e, no_chunks_message(file_display@)),
            },
    {
        match chunks {
            Some(cs) => {
                if cs.len() > 0 {
                    Ok(to_owned_string(cs[0].as_str()))
                } else {
                    let m = concat("No chunks found for file: ", file_display);
                    Err(IndexerError::not_found(m.as_str()))
                }
            },
            None => {
                let m = concat("No chunks found for file: ", file_display);
                Err(IndexerError::not_found(m.as_str()))
            },
        }
    }

    /// The text a similarity search for a file that is not indexed starts
    /// from: its first 512 bytes, or all of it when it is shorter.
    pub fn representative_content(content: &str) -> (r: &str)
        requires
            content.spec_bytes().len() > 512 ==> is_char_boundary(content.spec_bytes(), 512),
        ensures
            r.spec_bytes() == if content.spec_bytes().len() > 512 {
                content.spec_bytes().take(512)
            } else {
                content.spec_bytes()
            },
    {
        broadcast use vstd::utf8::encode_utf8_valid_utf8;

        if content.as_bytes().len() > 512 {
            proof {
                vstd::utf8::is_char_boundary_start_end_of_seq(content.spec_bytes());
            }
            let r = str_slice(content, 0, 512);
            assert(r.spec_bytes() =~= content.spec_bytes().take(512));
            r
        } else {
            content
        }
    }
}

/// The text a similarity search for a file starts from: the first stored
/// chunk when the file is indexed (`stored` is `Some`, holding its stored
/// chunks if any), else the first 512 bytes of the file as read from disk.
pub open spec fn similar_query_ok(
    stored: Option<Option<Vec<String>>>,
    file_text: Option<Seq<char>>,
    display: Seq<char>,
    r: Result<String>,
) -> bool {
    match stored {
        Some(Some(cs)) if cs@.len() > 0 => r matches Ok(t) && t@ == cs@[0]@,
        Some(_) => r matches Err(e) && is_not_found(e, no_chunks_message(display)),
        None => r matches Ok(t) && utf8(t@) == if utf8(file_text->0).len() > 512 {
            utf8(file_text->0).take(512)
        } else {
            utf8(file_text->0)
        },
    }
}

impl SearchEngine {
    /// The text a similarity search for a file starts from. `stored` is what
    /// the database holds for the file (`None` when it is not indexed, else
    /// its stored chunks if any); `file_text` is the file as read from disk,
    /// which is needed only when the file is not indexed.
    pub fn similar_query_text(
        stored: &Option<Option<Vec<String>>>,
        file_text: Option<&str>,
        file_display: &str,
    ) -> (r: Result<String>)
        requires
            stored is None ==> file_text is Some,
            stored is None ==> (utf8(file_text->0@).len() > 512 ==> is_char_boundary(
                utf8(file_text->0@),
                512,
            )),
        ensures
            similar_query_ok(
                *stored,
                match file_text {
                    Some(t) => Some(t@),
                    None => None,
                },
                file_display@,
                r,
            ),
    {
        match stored {
            Some(chunks) => Self::representative_chunk(chunks, file_display),
            None => {
                let text = file_text.unwrap();
                Ok(to_owned_string(Self::representative_content(text)))
            },
        }
    }

    /// The content a get request answers, from what the database holds for
    /// the file (`None` when it is not indexed, else its stored chunks if
    /// any) and the file as read from disk, which is needed when no chunks
    /// are stored.
    pub fn content_from_sources(
        stored: &Option<Option<Vec<String>>>,
        file_text: Option<&str>,
        chunk_range: Option<(usize, usize)>,
    ) -> (r: Result<String>)
        requires
            stored matches Some(Some(cs)) ==> (chunk_range matches Some((start, end))
                ==> stored_range_cuttable(cs@.len(), start, end)),
            !(stored matches Some(Some(_))) ==> file_text is Some,
            !(stored matches Some(Some(_))) ==> (chunk_range matches Some((start, end))
                ==> line_range_readable(lines_spec(file_text->0@).len() as int, start, end)),
        ensures
            stored matches Some(Some(cs)) ==> stored_chunks_answer(views(cs@), chunk_range, r),
            !(stored matches Some(Some(_))) ==> line_chunks_answer(file_text->0@, chunk_range, r),
    {
        match stored {
            Some(Some(cs)) => Self::select_stored_chunks(cs, chunk_range),
            _ => Self::select_line_chunks(file_text.unwrap(), chunk_range),
        }
    }
}

} // verus!
