//! Text chunking, file types, paths and content hashes.
use vstd::prelude::*;
use vstd::string::StringSliceAdditionalSpecFns;
use vstd::utf8::*;

use crate::strings::{
    append_str, chars_of, concat, contains, ends_with, is_prefix, is_suffix, contains_seq,
    push_char, split_char, split_spec, starts_with, str_eq, str_slice, string_from_chars,
    to_owned_string, utf8, views, lemma_split_append, lemma_split_nonempty, lemma_split_without,
};

verus! {

broadcast use vstd::utf8::encode_utf8_valid_utf8, vstd::utf8::is_char_boundary_start_end_of_seq;

/// The byte ranges of the chunks that follow the one starting at `start`:
/// each chunk holds at most `size` bytes and the next one starts `overlap`
/// bytes before the end of the previous one.
pub open spec fn chunk_bounds(n: int, start: int, size: int, overlap: int) -> Seq<(int, int)>
    decreases n - start,
{
    if size <= overlap || overlap < 0 || start < 0 || start >= n {
        Seq::empty()
    } else if n - start <= size {
        seq![(start, n)]
    } else {
        seq![(start, start + size)] + chunk_bounds(n, start + size - overlap, size, overlap)
    }
}

/// The byte ranges that `chunk_text` cuts a text of `n` bytes into.
pub open spec fn chunk_ranges(n: int, size: int, overlap: int) -> Seq<(int, int)> {
    if n <= size {
        seq![(0, n)]
    } else {
        chunk_bounds(n, 0, size, overlap)
    }
}

/// Both ends of a range fall on character boundaries of `bytes`.
pub open spec fn boundary_pair(bytes: Seq<u8>, r: (int, int)) -> bool {
    is_char_boundary(bytes, r.0) && is_char_boundary(bytes, r.1)
}

/// Every cut falls on a character boundary of `bytes`.
pub open spec fn cuts_on_boundaries(bytes: Seq<u8>, ranges: Seq<(int, int)>) -> bool {
    forall|i: int|
        0 <= i < ranges.len() ==> #[trigger] boundary_pair(bytes, ranges[i])
}

proof fn lemma_cut_at(bytes: Seq<u8>, ranges: Seq<(int, int)>, k: int)
    requires
        cuts_on_boundaries(bytes, ranges),
        0 <= k < ranges.len(),
    ensures
        is_char_boundary(bytes, ranges[k].0),
        is_char_boundary(bytes, ranges[k].1),
{
    assert(boundary_pair(bytes, ranges[k]));
}

/// The inputs on which chunking terminates without cutting a character:
/// either the text fits in one chunk, or chunks advance (`overlap < size`),
/// and every cut falls on a character boundary.
pub open spec fn chunkable(text: Seq<char>, size: int, overlap: int) -> bool {
    &&& (utf8(text).len() <= size || overlap < size)
    &&& cuts_on_boundaries(utf8(text), chunk_ranges(utf8(text).len() as int, size, overlap))
}

/// The ranges of a chunk sequence start at `start`, end at `n`, hold at most
/// `size` bytes each and each begins `overlap` bytes before the previous end.
pub open spec fn well_shaped(ranges: Seq<(int, int)>, start: int, n: int, size: int, overlap: int) -> bool {
    &&& ranges.len() >= 1
    &&& ranges[0].0 == start
    &&& ranges.last().1 == n
    &&& forall|i: int|
        0 <= i < ranges.len() ==> #[trigger] ranges[i].0 <= ranges[i].1 <= ranges[i].0 + size
            && 0 <= ranges[i].0 && ranges[i].1 <= n
    &&& forall|i: int|
        0 <= i < ranges.len() - 1 ==> #[trigger] ranges[i + 1].0 == ranges[i].1 - overlap
            && ranges[i].1 < n
}

/// The chunk ranges cover the text from its first to its last byte, each
/// chunk holds at most `size` bytes, and consecutive chunks overlap by
/// exactly `overlap` bytes.
pub proof fn lemma_chunk_bounds_shape(n: int, start: int, size: int, overlap: int)
    requires
        0 <= overlap < size,
        0 <= start < n,
    ensures
        well_shaped(chunk_bounds(n, start, size, overlap), start, n, size, overlap),
    decreases n - start,
{
    let r = chunk_bounds(n, start, size, overlap);
    if n - start <= size {
    } else {
        let next = start + size - overlap;
        lemma_chunk_bounds_shape(n, next, size, overlap);
        let rest = chunk_bounds(n, next, size, overlap);
        assert(r == seq![(start, start + size)] + rest);
        assert forall|i: int| 0 <= i < r.len() - 1 implies #[trigger] r[i + 1].0 == r[i].1 - overlap
            && r[i].1 < n by {
            assert(r[i + 1] == rest[i]);
            if i > 0 {
                assert(r[i] == rest[i - 1]);
                let j = i - 1;
                assert(0 <= j < rest.len() - 1);
                assert(well_shaped(rest, next, n, size, overlap));
                assert(rest[j + 1].0 == rest[j].1 - overlap);
            }
        }
        assert forall|i: int| 0 <= i < r.len() implies #[trigger] r[i].0 <= r[i].1 <= r[i].0 + size
            && 0 <= r[i].0 && r[i].1 <= n by {
            if i > 0 {
                assert(r[i] == rest[i - 1]);
            }
        }
    }
}

/// The shape of the ranges of a whole text.
pub proof fn lemma_chunk_ranges_shape(n: int, size: int, overlap: int)
    requires
        0 <= n,
        0 <= overlap,
        n <= size || overlap < size,
    ensures
        well_shaped(chunk_ranges(n, size, overlap), 0, n, size, overlap),
{
    if n > size {
        lemma_chunk_bounds_shape(n, 0, size, overlap);
    }
}

/// Whether `chunk_text` can cut `text`: the text fits in one chunk or the
/// chunks advance, and every cut falls on a character boundary.
pub fn is_chunkable(text: &str, chunk_size: usize, overlap: usize) -> (r: bool)
    ensures
        r == chunkable(text@, chunk_size as int, overlap as int),
{
    let n = text.as_bytes().len();
    let ghost bytes = utf8(text@);
    if n <= chunk_size {
        proof {
            assert(chunk_ranges(n as int, chunk_size as int, overlap as int) == seq![(0int, n as int)]);
            assert(boundary_pair(bytes, (0int, n as int)));
        }
        return true;
    }
    if overlap >= chunk_size {
        return false;
    }
    let ghost all = chunk_ranges(n as int, chunk_size as int, overlap as int);
    proof {
        lemma_chunk_ranges_shape(n as int, chunk_size as int, overlap as int);
    }
    let mut start: usize = 0;
    let mut k: usize = 0;
    loop
        invariant
            n == bytes.len(),
            bytes == text.spec_bytes(),
            n > chunk_size,
            overlap < chunk_size,
            all == chunk_ranges(n as int, chunk_size as int, overlap as int),
            all == chunk_bounds(n as int, 0, chunk_size as int, overlap as int),
            well_shaped(all, 0, n as int, chunk_size as int, overlap as int),
            k < all.len(),
            k <= start < n,
            chunk_bounds(n as int, start as int, chunk_size as int, overlap as int)
                == all.subrange(k as int, all.len() as int),
            forall|i: int| 0 <= i < k ==> #[trigger] boundary_pair(bytes, all[i]),
        decreases n - start,
    {
        let end = if chunk_size < n - start {
            start + chunk_size
        } else {
            n
        };
        let ghost rest = chunk_bounds(n as int, start as int, chunk_size as int, overlap as int);
        assert(rest[0] == all[k as int]);
        assert(all[k as int] == (start as int, end as int));
        if !(text.is_char_boundary(start) && text.is_char_boundary(end)) {
            assert(!boundary_pair(bytes, all[k as int]));
            return false;
        }
        assert(boundary_pair(bytes, all[k as int]));
        if end == n {
            assert(rest.len() == 1);
            assert(k + 1 == all.len());
            assert(cuts_on_boundaries(bytes, all));
            return true;
        }
        let ghost next = chunk_bounds(n as int, end - overlap, chunk_size as int, overlap as int);
        assert(rest == seq![(start as int, end as int)] + next);
        assert(rest.subrange(1, rest.len() as int) =~= next);
        assert(all.subrange(k + 1, all.len() as int) =~= rest.subrange(1, rest.len() as int));
        start = end - overlap;
        k = k + 1;
    }
}

/// Splits text into chunks of at most `chunk_size` bytes, where each chunk
/// after the first repeats the last `overlap` bytes of the one before it.
pub fn chunk_text(text: &str, chunk_size: usize, overlap: usize) -> (chunks: Vec<String>)
    requires
        chunkable(text@, chunk_size as int, overlap as int),
    ensures
        chunks@.len() == chunk_ranges(utf8(text@).len() as int, chunk_size as int, overlap as int).len(),
        forall|i: int|
            0 <= i < chunks@.len() ==> utf8(#[trigger] chunks@[i]@) == utf8(text@).subrange(
                chunk_ranges(utf8(text@).len() as int, chunk_size as int, overlap as int)[i].0,
                chunk_ranges(utf8(text@).len() as int, chunk_size as int, overlap as int)[i].1,
            ),
        well_shaped(
            chunk_ranges(utf8(text@).len() as int, chunk_size as int, overlap as int),
            0,
            utf8(text@).len() as int,
            chunk_size as int,
            overlap as int,
        ),
{
    let n = text.as_bytes().len();
    let ghost bytes = utf8(text@);
    let ghost all = chunk_ranges(n as int, chunk_size as int, overlap as int);
    proof {
        lemma_chunk_ranges_shape(n as int, chunk_size as int, overlap as int);
    }
    if n <= chunk_size {
        let whole = to_owned_string(text);
        let mut chunks: Vec<String> = Vec::new();
        chunks.push(whole);
        assert(bytes.subrange(0, n as int) =~= bytes);
        return chunks;
    }
    let mut chunks: Vec<String> = Vec::new();
    let mut start: usize = 0;
    loop
        invariant
            n == bytes.len(),
            bytes == text.spec_bytes(),
            n > chunk_size,
            overlap < chunk_size,
            all == chunk_ranges(n as int, chunk_size as int, overlap as int),
            all == chunk_bounds(n as int, 0, chunk_size as int, overlap as int),
            cuts_on_boundaries(bytes, all),
            well_shaped(all, 0, n as int, chunk_size as int, overlap as int),
            chunks@.len() < all.len(),
            start < n,
            chunk_bounds(n as int, start as int, chunk_size as int, overlap as int)
                == all.subrange(chunks@.len() as int, all.len() as int),
            forall|i: int|
                0 <= i < chunks@.len() ==> utf8(#[trigger] chunks@[i]@) == bytes.subrange(
                    all[i].0,
                    all[i].1,
                ),
        decreases n - start,
    {
        let k = chunks.len();
        let end = if chunk_size < n - start {
            start + chunk_size
        } else {
            n
        };
        let ghost rest = chunk_bounds(n as int, start as int, chunk_size as int, overlap as int);
        assert(rest[0] == all[k as int]);
        assert(all[k as int] == (start as int, end as int));
        proof {
            lemma_cut_at(bytes, all, k as int);
        }
        let piece = str_slice(text, start, end);
        let chunk = to_owned_string(piece);
        chunks.push(chunk);
        if end == n {
            assert(rest.len() == 1);
            assert(chunks@.len() == all.len());
            return chunks;
        }
        let ghost next = chunk_bounds(n as int, end - overlap, chunk_size as int, overlap as int);
        assert(rest == seq![(start as int, end as int)] + next);
        assert(rest.subrange(1, rest.len() as int) =~= next);
        assert(all.subrange(chunks@.len() as int, all.len() as int) =~= rest.subrange(1, rest.len() as int));
        start = end - overlap;
    }
}

} // verus!

verus! {

/// What `Path::file_name` gives for a path: its last component when that is
/// a normal one (not the root, `.` or `..`), else nothing.
pub open spec fn path_file_name(path: Seq<char>) -> Option<Seq<char>> {
    let c = path_components(path);
    if c.len() > 0 && c.last() != seq!['/'] && c.last() != seq!['.'] && c.last() != seq!['.', '.'] {
        Some(c.last())
    } else {
        None
    }
}

/// What `Path::parent` gives for a path: the path without its last component,
/// or nothing for a root or an empty path.
pub uninterp spec fn path_parent(path: Seq<char>) -> Option<Seq<char>>;

/// What `str::to_lowercase` gives: the Unicode lowercase of a text.
pub uninterp spec fn unicode_lowercase(s: Seq<char>) -> Seq<char>;

/// The ASCII lowercase of a character: `A`..`Z` become `a`..`z`, any other
/// character stays.
pub open spec fn ascii_lower(c: char) -> char {
    if 'A' <= c <= 'Z' {
        ((c as u32) + 32) as char
    } else {
        c
    }
}

/// Every character of `s` is ASCII.
pub open spec fn all_ascii(s: Seq<char>) -> bool {
    forall|i: int| 0 <= i < s.len() ==> (#[trigger] s[i] as u32) < 128
}

/// The lowercase of a text: the ASCII lowercase of an ASCII text, the
/// Unicode lowercase of any other.
pub open spec fn lowercase_text(s: Seq<char>) -> Seq<char> {
    if all_ascii(s) {
        s.map_values(|c: char| ascii_lower(c))
    } else {
        unicode_lowercase(s)
    }
}

/// What SHA-256 gives for a byte sequence.
pub uninterp spec fn sha256_of(data: Seq<u8>) -> Seq<u8>;

/// `std::path::Path::file_name`, read as text: the last component of the
/// path when it is a normal one (`path_file_name`, stated over the Unix
/// components of `path_components`).
#[verifier::external_body]
fn file_name_of(path: &str) -> (r: Option<String>)
    ensures
        r.deep_view() == path_file_name(path@),
{
    std::path::Path::new(path).file_name().map(|n| n.to_string_lossy().to_string())
}

/// `std::path::Path::parent`, read as text. The text is named by
/// `path_parent`; what is claimed of it is what the documentation gives: there
/// is a parent unless the path is empty or ends in the root, and the parent
/// is the path without its final component. Which separators and `.` pieces
/// of the original text the parent keeps is left to the name.
#[verifier::external_body]
fn parent_of(path: &str) -> (r: Option<String>)
    ensures
        r.deep_view() == path_parent(path@),
        r is Some <==> (path_components(path@).len() > 0 && path_components(path@).last() != seq!['/']),
        r matches Some(q) ==> path_components(q@) == path_components(path@).drop_last(),
{
    std::path::Path::new(path).parent().map(|p| p.to_string_lossy().to_string())
}

/// `str::to_lowercase`. The result is named by `unicode_lowercase`; of an
/// ASCII text it is the ASCII lowercase, character by character. The Unicode
/// mappings of other characters are left to the name.
#[verifier::external_body]
fn lowercase_of(s: &str) -> (r: String)
    ensures
        r@ == unicode_lowercase(s@),
        all_ascii(s@) ==> r@ == s@.map_values(|c: char| ascii_lower(c)),
{
    s.to_lowercase()
}

/// `sha2::Sha256::digest`: the 32-byte SHA-256 digest of `data`, named by
/// `sha256_of`.
#[verifier::external_body]
fn sha256_digest(data: &[u8]) -> (r: Vec<u8>)
    ensures
        r@ == sha256_of(data@),
        r@.len() == 32,
{
    <sha2::Sha256 as sha2::Digest>::digest(data).to_vec()
}

/// A lowercase hexadecimal digit.
pub open spec fn hex_digit(d: nat) -> char {
    if d < 10 {
        (d + '0' as u32) as char
    } else {
        (d - 10 + 'a' as u32) as char
    }
}

/// The lowercase hexadecimal text of a byte sequence, two digits a byte.
pub open spec fn hex_lower(data: Seq<u8>) -> Seq<char>
    decreases data.len(),
{
    if data.len() == 0 {
        Seq::empty()
    } else {
        hex_lower(data.drop_last()) + seq![
            hex_digit((data.last() / 16) as nat),
            hex_digit((data.last() % 16) as nat),
        ]
    }
}

fn hex_char(d: u8) -> (c: char)
    requires
        d < 16,
    ensures
        c == hex_digit(d as nat),
{
    if d < 10 {
        (d + 48u8) as char
    } else {
        (d - 10 + 97u8) as char
    }
}

/// The lowercase hexadecimal SHA-256 digest of a file's content.
pub fn calculate_file_hash(content: &[u8]) -> (hash: String)
    ensures
        hash@ == hex_lower(sha256_of(content@)),
        hash@.len() == 64,
{
    let digest = sha256_digest(content);
    let mut hash = String::new();
    let mut i: usize = 0;
    while i < digest.len()
        invariant
            i <= digest@.len(),
            digest@.len() == 32,
            hash@ == hex_lower(digest@.subrange(0, i as int)),
            hash@.len() == 2 * i,
        decreases digest.len() - i,
    {
        let b = digest[i];
        assert(digest@.subrange(0, i + 1).drop_last() == digest@.subrange(0, i as int));
        push_char(&mut hash, hex_char(b / 16));
        push_char(&mut hash, hex_char(b % 16));
        i = i + 1;
    }
    assert(digest@.subrange(0, i as int) == digest@);
    hash
}

/// The kinds of files the indexer reads.
#[derive(Debug, Clone, Copy, PartialEq, Eq)]
pub enum FileType {
    Text,
    Code,
    Data,
    Markup,
    Config,
}

/// The name of a file type.
pub open spec fn file_type_name(t: FileType) -> Seq<char> {
    match t {
        FileType::Text => "text"@,
        FileType::Code => "code"@,
        FileType::Data => "data"@,
        FileType::Markup => "markup"@,
        FileType::Config => "config"@,
    }
}

impl FileType {
    /// The name of the file type.
    pub fn as_str(&self) -> (s: &'static str)
        ensures
            s@ == file_type_name(*self),
    {
        match self {
            FileType::Text => "text",
            FileType::Code => "code",
            FileType::Data => "data",
            FileType::Markup => "markup",
            FileType::Config => "config",
        }
    }
}

/// The file type of a (lowercase) file extension.
pub open spec fn file_type_of_extension(e: Seq<char>) -> Option<FileType> {
    if e == "md"@ || e == "txt"@ || e == "rst"@ || e == "org"@ {
        Some(FileType::Text)
    } else if e == "rs"@ || e == "py"@ || e == "js"@ || e == "ts"@ || e == "go"@ || e == "java"@
        || e == "cpp"@ || e == "c"@ || e == "h"@ {
        Some(FileType::Code)
    } else if e == "json"@ || e == "yaml"@ || e == "yml"@ || e == "toml"@ || e == "csv"@ {
        Some(FileType::Data)
    } else if e == "html"@ || e == "xml"@ {
        Some(FileType::Markup)
    } else if e == "env"@ || e == "conf"@ || e == "ini"@ || e == "cfg"@ {
        Some(FileType::Config)
    } else {
        None
    }
}

fn is_one_of(e: &str, names: &[&str]) -> (r: bool)
    ensures
        r == exists|i: int| 0 <= i < names@.len() && e@ == (#[trigger] names@[i])@,
{
    let mut i: usize = 0;
    while i < names.len()
        invariant
            i <= names@.len(),
            forall|j: int| 0 <= j < i ==> e@ != (#[trigger] names@[j])@,
        decreases names.len() - i,
    {
        if str_eq(e, names[i]) {
            return true;
        }
        i = i + 1;
    }
    false
}

/// The supported extensions and their types: `md`, `txt`, `rst`, `org` are
/// text; `rs`, `py`, `js`, `ts`, `go`, `java`, `cpp`, `c`, `h` are code;
/// `json`, `yaml`, `yml`, `toml`, `csv` are data; `html`, `xml` are markup;
/// `env`, `conf`, `ini`, `cfg` are configuration. An empty extension has no
/// type.
pub proof fn lemma_extension_table()
    ensures
        file_type_of_extension(seq!['m', 'd']) == Some(FileType::Text),
        file_type_of_extension(seq!['t', 'x', 't']) == Some(FileType::Text),
        file_type_of_extension(seq!['r', 's', 't']) == Some(FileType::Text),
        file_type_of_extension(seq!['o', 'r', 'g']) == Some(FileType::Text),
        file_type_of_extension(seq!['r', 's']) == Some(FileType::Code),
        file_type_of_extension(seq!['p', 'y']) == Some(FileType::Code),
        file_type_of_extension(seq!['j', 's']) == Some(FileType::Code),
        file_type_of_extension(seq!['t', 's']) == Some(FileType::Code),
        file_type_of_extension(seq!['g', 'o']) == Some(FileType::Code),
        file_type_of_extension(seq!['j', 'a', 'v', 'a']) == Some(FileType::Code),
        file_type_of_extension(seq!['c', 'p', 'p']) == Some(FileType::Code),
        file_type_of_extension(seq!['c']) == Some(FileType::Code),
        file_type_of_extension(seq!['h']) == Some(FileType::Code),
        file_type_of_extension(seq!['j', 's', 'o', 'n']) == Some(FileType::Data),
        file_type_of_extension(seq!['y', 'a', 'm', 'l']) == Some(FileType::Data),
        file_type_of_extension(seq!['y', 'm', 'l']) == Some(FileType::Data),
        file_type_of_extension(seq!['t', 'o', 'm', 'l']) == Some(FileType::Data),
        file_type_of_extension(seq!['c', 's', 'v']) == Some(FileType::Data),
        file_type_of_extension(seq!['h', 't', 'm', 'l']) == Some(FileType::Markup),
        file_type_of_extension(seq!['x', 'm', 'l']) == Some(FileType::Markup),
        file_type_of_extension(seq!['e', 'n', 'v']) == Some(FileType::Config),
        file_type_of_extension(seq!['c', 'o', 'n', 'f']) == Some(FileType::Config),
        file_type_of_extension(seq!['i', 'n', 'i']) == Some(FileType::Config),
        file_type_of_extension(seq!['c', 'f', 'g']) == Some(FileType::Config),
        file_type_of_extension(Seq::<char>::empty()) == None::<FileType>,
{
    reveal_strlit("md");
    assert(seq!['m', 'd'] =~= "md"@);
    reveal_strlit("txt");
    assert(seq!['t', 'x', 't'] =~= "txt"@);
    reveal_strlit("rst");
    assert(seq!['r', 's', 't'] =~= "rst"@);
    reveal_strlit("org");
    assert(seq!['o', 'r', 'g'] =~= "org"@);
    reveal_strlit("rs");
    assert(seq!['r', 's'] =~= "rs"@);
    reveal_strlit("py");
    assert(seq!['p', 'y'] =~= "py"@);
    reveal_strlit("js");
    assert(seq!['j', 's'] =~= "js"@);
    reveal_strlit("ts");
    assert(seq!['t', 's'] =~= "ts"@);
    reveal_strlit("go");
    assert(seq!['g', 'o'] =~= "go"@);
    reveal_strlit("java");
    assert(seq!['j', 'a', 'v', 'a'] =~= "java"@);
    reveal_strlit("cpp");
    assert(seq!['c', 'p', 'p'] =~= "cpp"@);
    reveal_strlit("c");
    assert(seq!['c'] =~= "c"@);
    reveal_strlit("h");
    assert(seq!['h'] =~= "h"@);
    reveal_strlit("json");
    assert(seq!['j', 's', 'o', 'n'] =~= "json"@);
    reveal_strlit("yaml");
    assert(seq!['y', 'a', 'm', 'l'] =~= "yaml"@);
    reveal_strlit("yml");
    assert(seq!['y', 'm', 'l'] =~= "yml"@);
    reveal_strlit("toml");
    assert(seq!['t', 'o', 'm', 'l'] =~= "toml"@);
    reveal_strlit("csv");
    assert(seq!['c', 's', 'v'] =~= "csv"@);
    reveal_strlit("html");
    assert(seq!['h', 't', 'm', 'l'] =~= "html"@);
    reveal_strlit("xml");
    assert(seq!['x', 'm', 'l'] =~= "xml"@);
    reveal_strlit("env");
    assert(seq!['e', 'n', 'v'] =~= "env"@);
    reveal_strlit("conf");
    assert(seq!['c', 'o', 'n', 'f'] =~= "conf"@);
    reveal_strlit("ini");
    assert(seq!['i', 'n', 'i'] =~= "ini"@);
    reveal_strlit("cfg");
    assert(seq!['c', 'f', 'g'] =~= "cfg"@);
}

/// The file type of a lowercase extension.
pub fn classify_extension(e: &str) -> (t: Option<FileType>)
    ensures
        t == file_type_of_extension(e@),
{
    proof {
        reveal_strlit("md");
        reveal_strlit("txt");
        reveal_strlit("rst");
        reveal_strlit("org");
        reveal_strlit("rs");
        reveal_strlit("py");
        reveal_strlit("js");
        reveal_strlit("ts");
        reveal_strlit("go");
        reveal_strlit("java");
        reveal_strlit("cpp");
        reveal_strlit("c");
        reveal_strlit("h");
        reveal_strlit("json");
        reveal_strlit("yaml");
        reveal_strlit("yml");
        reveal_strlit("toml");
        reveal_strlit("csv");
        reveal_strlit("html");
        reveal_strlit("xml");
        reveal_strlit("env");
        reveal_strlit("conf");
        reveal_strlit("ini");
        reveal_strlit("cfg");
    }
    let text = ["md", "txt", "rst", "org"];
    let code = ["rs", "py", "js", "ts", "go", "java", "cpp", "c", "h"];
    let data = ["json", "yaml", "yml", "toml", "csv"];
    let markup = ["html", "xml"];
    let config = ["env", "conf", "ini", "cfg"];
    if is_one_of(e, &text) {
        Some(FileType::Text)
    } else if is_one_of(e, &code) {
        Some(FileType::Code)
    } else if is_one_of(e, &data) {
        Some(FileType::Data)
    } else if is_one_of(e, &markup) {
        Some(FileType::Markup)
    } else if is_one_of(e, &config) {
        Some(FileType::Config)
    } else {
        None
    }
}

} // verus!

verus! {

/// The position of the last `c` in `s`, or -1 when there is none.
pub open spec fn last_index_of(s: Seq<char>, c: char) -> int
    decreases s.len(),
{
    if s.len() == 0 {
        -1
    } else if s.last() == c {
        s.len() - 1
    } else {
        last_index_of(s.drop_last(), c)
    }
}

proof fn lemma_last_index_of(s: Seq<char>, c: char)
    ensures
        -1 <= last_index_of(s, c) < s.len(),
        last_index_of(s, c) >= 0 ==> s[last_index_of(s, c)] == c,
        forall|j: int| last_index_of(s, c) < j < s.len() ==> s[j] != c,
    decreases s.len(),
{
    if s.len() > 0 && s.last() != c {
        lemma_last_index_of(s.drop_last(), c);
        assert forall|j: int| last_index_of(s, c) < j < s.len() implies s[j] != c by {
            if j < s.len() - 1 {
                assert(s[j] == s.drop_last()[j]);
            }
        }
    }
}

/// The extension of a file name (`Path::extension`): the text after the final
/// `.`, unless there is no `.` or the only `.` begins the name.
pub open spec fn extension_of_name(name: Seq<char>) -> Option<Seq<char>> {
    let k = last_index_of(name, '.');
    if k <= 0 {
        None
    } else {
        Some(name.subrange(k + 1, name.len() as int))
    }
}

fn extension_of(name: &str) -> (r: Option<String>)
    ensures
        r.deep_view() == extension_of_name(name@),
{
    let v = chars_of(name);
    let mut k = v.len();
    while k > 0
        invariant
            v@ == name@,
            k <= v@.len(),
            forall|j: int| k <= j < v@.len() ==> v@[j] != '.',
        decreases k,
    {
        if v[k - 1] == '.' {
            proof {
                lemma_last_index_of(name@, '.');
                assert(last_index_of(name@, '.') == k - 1);
            }
            if k == 1 {
                return None;
            }
            return Some(string_from_chars(v.as_slice(), k, v.len()));
        }
        k = k - 1;
    }
    proof {
        lemma_last_index_of(name@, '.');
    }
    None
}

/// The file type that a path's extension names, compared without case.
pub open spec fn file_type_of_path(path: Seq<char>) -> Option<FileType> {
    match path_file_name(path) {
        None => None,
        Some(name) => match extension_of_name(name) {
            None => None,
            Some(e) => file_type_of_extension(lowercase_text(e)),
        },
    }
}

/// Detects the file type of a path from its extension.
pub fn detect_file_type(path: &str) -> (t: Option<FileType>)
    ensures
        t == file_type_of_path(path@),
{
    let name = match file_name_of(path) {
        Some(n) => n,
        None => {
            return None;
        },
    };
    let ext = match extension_of(name.as_str()) {
        Some(e) => e,
        None => {
            return None;
        },
    };
    let lower = lowercase_of(ext.as_str());
    classify_extension(lower.as_str())
}

/// The file name of a path for matching ignore patterns: empty when the path
/// has none.
pub open spec fn name_for_ignore(path: Seq<char>) -> Seq<char> {
    match path_file_name(path) {
        Some(n) => n,
        None => Seq::empty(),
    }
}

/// One ignore pattern matches: it occurs in the path, or it is `.*` and the
/// file is hidden, or it is `*suffix` and the file name ends with `suffix`, or
/// it is the file name.
pub open spec fn pattern_matches(path: Seq<char>, name: Seq<char>, pattern: Seq<char>) -> bool {
    ||| contains_seq(path, pattern)
    ||| pattern == ".*"@ && name.len() > 0 && name[0] == '.'
    ||| pattern.len() > 0 && pattern[0] == '*' && is_suffix(pattern.drop_first(), name)
    ||| name == pattern
}

/// Whether a path is ignored: some pattern matches it.
pub open spec fn ignored(path: Seq<char>, patterns: Seq<String>) -> bool {
    exists|i: int|
        0 <= i < patterns.len() && pattern_matches(
            path,
            name_for_ignore(path),
            #[trigger] patterns[i]@,
        )
}

/// Whether a file should be ignored, given the ignore patterns.
pub fn should_ignore_file(path: &str, ignore_patterns: &[String]) -> (r: bool)
    ensures
        r == ignored(path@, ignore_patterns@),
{
    let name = match file_name_of(path) {
        Some(n) => n,
        None => String::new(),
    };
    proof {
        reveal_strlit(".*");
    }
    let mut i: usize = 0;
    while i < ignore_patterns.len()
        invariant
            i <= ignore_patterns@.len(),
            name@ == name_for_ignore(path@),
            forall|j: int|
                0 <= j < i ==> !pattern_matches(
                    path@,
                    name@,
                    #[trigger] ignore_patterns@[j]@,
                ),
        decreases ignore_patterns.len() - i,
    {
        let pattern = ignore_patterns[i].as_str();
        let pc = chars_of(pattern);
        let nc = chars_of(name.as_str());
        if contains(path, pattern) {
            return true;
        }
        if str_eq(pattern, ".*") && nc.len() > 0 && nc[0] == '.' {
            return true;
        }
        if pc.len() > 0 && pc[0] == '*' {
            let rest = string_from_chars(pc.as_slice(), 1, pc.len());
            assert(rest@ == pattern@.drop_first());
            if ends_with(name.as_str(), rest.as_str()) {
                return true;
            }
        }
        if str_eq(name.as_str(), pattern) {
            return true;
        }
        i = i + 1;
    }
    false
}

/// The last `/`-separated piece of a path.
pub open spec fn last_piece(path: Seq<char>) -> Seq<char> {
    split_spec(path, '/').last()
}

/// The file name of a normalized path: the text after its last `/` (empty
/// when the path ends with `/`).
pub fn get_filename_from_path(path: &str) -> (r: Option<String>)
    ensures
        r matches Some(s) && s@ == last_piece(path@),
{
    let mut parts = split_char(path, '/');
    let last = parts.pop().unwrap();
    Some(last)
}

/// `path` with every backslash turned into a forward slash.
pub open spec fn forward_slashes(path: Seq<char>) -> Seq<char> {
    path.map_values(|c: char| if c == '\\' { '/' } else { c })
}

/// `PathBuf::join` of a relative path onto a base: a separator goes between
/// them unless the base is empty or already ends with one.
pub open spec fn join_relative(base: Seq<char>, rel: Seq<char>) -> Seq<char> {
    if base.len() == 0 || base.last() == '/' {
        base + rel
    } else {
        base + seq!['/'] + rel
    }
}

/// The absolute form of a path given the working directory.
pub open spec fn absolute_path(path: Seq<char>, cwd: Seq<char>) -> Seq<char> {
    if path.len() > 0 && path[0] == '/' {
        path
    } else {
        join_relative(cwd, path)
    }
}

/// The normalized form of a path: forward slashes, and relative paths made
/// absolute against the working directory.
pub open spec fn normalized_path(path: Seq<char>, cwd: Seq<char>) -> Seq<char> {
    let r = forward_slashes(path);
    if r.len() > 0 && r[0] == '/' {
        r
    } else {
        forward_slashes(join_relative(cwd, path))
    }
}

/// Normalizing is idempotent when the working directory is absolute: a
/// normalized path normalizes to itself, so stored paths compare equal to
/// paths normalized again.
pub proof fn lemma_normalize_idempotent(path: Seq<char>, cwd: Seq<char>)
    requires
        cwd.len() > 0 && cwd[0] == '/',
    ensures
        normalized_path(normalized_path(path, cwd), cwd) == normalized_path(path, cwd),
{
    let n = normalized_path(path, cwd);
    let r = forward_slashes(path);
    if !(r.len() > 0 && r[0] == '/') {
        let j = join_relative(cwd, path);
        assert(j[0] == cwd[0]);
        assert(forward_slashes(j)[0] == '/');
    }
    assert(n.len() > 0 && n[0] == '/');
    assert(forward_slashes(n) =~= n);
}

fn replace_backslashes(s: &str) -> (r: String)
    ensures
        r@ == forward_slashes(s@),
{
    let v = chars_of(s);
    let mut r = String::new();
    let mut i: usize = 0;
    while i < v.len()
        invariant
            v@ == s@,
            i <= v@.len(),
            r@ == forward_slashes(s@.subrange(0, i as int)),
        decreases v.len() - i,
    {
        let c = if v[i] == '\\' {
            '/'
        } else {
            v[i]
        };
        push_char(&mut r, c);
        assert(forward_slashes(s@.subrange(0, i + 1)) =~= forward_slashes(s@.subrange(0, i as int)).push(c));
        i = i + 1;
    }
    assert(s@.subrange(0, i as int) == s@);
    r
}

fn join_path(base: &str, rel: &str) -> (r: String)
    ensures
        r@ == join_relative(base@, rel@),
{
    let b = chars_of(base);
    let mut r = to_owned_string(base);
    if b.len() > 0 && b[b.len() - 1] != '/' {
        push_char(&mut r, '/');
    }
    append_str(&mut r, rel);
    r
}

/// The absolute form of a path, given the working directory.
pub fn to_absolute_path(path: &str, cwd: &str) -> (r: String)
    ensures
        r@ == absolute_path(path@, cwd@),
{
    let p = chars_of(path);
    if p.len() > 0 && p[0] == '/' {
        to_owned_string(path)
    } else {
        join_path(cwd, path)
    }
}

/// Normalizes a path for storage and comparison: forward slashes as
/// separators, and a relative path made absolute against `cwd`.
pub fn normalize_path(path: &str, cwd: &str) -> (r: String)
    ensures
        r@ == normalized_path(path@, cwd@),
{
    let normalized = replace_backslashes(path);
    let nc = chars_of(normalized.as_str());
    if nc.len() > 0 && nc[0] == '/' {
        normalized
    } else {
        let joined = join_path(cwd, path);
        replace_backslashes(joined.as_str())
    }
}

/// Whether two paths are the same once normalized.
pub fn paths_equal(path1: &str, path2: &str, cwd: &str) -> (r: bool)
    ensures
        r == (normalized_path(path1@, cwd@) == normalized_path(path2@, cwd@)),
{
    let p1 = normalize_path(path1, cwd);
    let p2 = normalize_path(path2, cwd);
    str_eq(p1.as_str(), p2.as_str())
}

/// Whether a path lies at or below a directory: once both are normalized,
/// the directory's components are the leading components of the path, so
/// `/home/user/docs2/a.md` is not below `/home/user/docs`.
pub fn path_starts_with(path: &str, prefix: &str, cwd: &str) -> (r: bool)
    ensures
        r == path_components(normalized_path(prefix@, cwd@)).is_prefix_of(
            path_components(normalized_path(path@, cwd@)),
        ),
{
    let p = normalize_path(path, cwd);
    let pre = normalize_path(prefix, cwd);
    let cp = components_of(p.as_str());
    let cpre = components_of(pre.as_str());
    seqs_prefix(&cpre, &cp)
}

/// The normalized parent directory of a path, if it has one.
pub fn get_parent_path(path: &str, cwd: &str) -> (r: Option<String>)
    ensures
        r.deep_view() == match path_parent(absolute_path(path@, cwd@)) {
            Some(p) => Some(normalized_path(p, cwd@)),
            None => None,
        },
{
    let abs = to_absolute_path(path, cwd);
    match parent_of(abs.as_str()) {
        Some(parent) => Some(normalize_path(parent.as_str(), cwd)),
        None => None,
    }
}

} // verus!

verus! {

/// What `Path::components` gives for a path on Unix, each component as
/// text: `/` first for a path that starts with `/`, `.` first for a path
/// whose first piece is `.`, then the pieces between `/` separators that are
/// neither empty nor `.` (`..` stays).
pub open spec fn path_components(path: Seq<char>) -> Seq<Seq<char>> {
    let pieces = split_spec(path, '/');
    (if path.len() > 0 && path[0] == '/' {
        seq![seq!['/']]
    } else {
        Seq::<Seq<char>>::empty()
    }) + (if pieces[0] == seq!['.'] {
        seq![seq!['.']]
    } else {
        Seq::<Seq<char>>::empty()
    }) + pieces.filter(|c: Seq<char>| c.len() > 0 && c != seq!['.'])
}

/// What `Path::strip_prefix` gives: the rest of `path` after the components
/// of `base`, when `base` is a prefix of it.
pub uninterp spec fn path_strip_prefix(path: Seq<char>, base: Seq<char>) -> Option<Seq<char>>;

/// A plain name (no `/`, not empty, not `.`) is its own single component,
/// and its own file name unless it is `..`.
pub proof fn lemma_plain_name(name: Seq<char>)
    requires
        !name.contains('/'),
        name.len() > 0,
        name != seq!['.'],
    ensures
        path_components(name) == seq![name],
        name != seq!['.', '.'] ==> path_file_name(name) == Some(name),
{
    lemma_split_without(name, '/');
    assert(name[0] != '/');
    let f = |c: Seq<char>| c.len() > 0 && c != seq!['.'];
    reveal_with_fuel(Seq::<Seq<char>>::filter, 2);
    assert(seq![name].drop_last() =~= Seq::<Seq<char>>::empty());
    assert(seq![name].filter(f) =~= seq![name]);
    assert(path_components(name) =~= seq![name]);
}

/// The empty path has no components.
pub proof fn lemma_empty_path_components()
    ensures
        path_components(Seq::<char>::empty()) == Seq::<Seq<char>>::empty(),
{
    let e = Seq::<char>::empty();
    let pieces = split_spec(e, '/');
    assert(pieces == seq![e]);
    assert(pieces[0] != seq!['.']) by {
        assert(pieces[0].len() == 0);
    }
    let f = |c: Seq<char>| c.len() > 0 && c != seq!['.'];
    reveal_with_fuel(Seq::<Seq<char>>::filter, 2);
    assert(pieces.drop_last() =~= Seq::<Seq<char>>::empty());
    assert(pieces.filter(f) =~= Seq::<Seq<char>>::empty());
    assert(path_components(e) =~= Seq::<Seq<char>>::empty());
}

/// A file in a directory: the file name of `dir/name` is `name` when `name`
/// is a plain name (no `/`, not empty, not `.` or `..`), whatever `dir` is.
pub proof fn lemma_file_name_in_dir(dir: Seq<char>, name: Seq<char>)
    requires
        !name.contains('/'),
        name.len() > 0,
        name != seq!['.'],
        name != seq!['.', '.'],
    ensures
        path_file_name(dir + seq!['/'] + name) == Some(name),
{
    let p = dir + seq!['/'] + name;
    lemma_split_append(dir, name, '/');
    lemma_split_nonempty(dir, '/');
    let pieces = split_spec(dir, '/');
    let f = |c: Seq<char>| c.len() > 0 && c != seq!['.'];
    reveal_with_fuel(Seq::<Seq<char>>::filter, 1);
    assert(pieces.push(name).drop_last() =~= pieces);
    assert(pieces.push(name).filter(f) == pieces.filter(f).push(name));
    assert(path_components(p).last() == name);
}

/// `std::path::Path::components`, each component as text
/// (`path_components`).
#[verifier::external_body]
fn components_of(path: &str) -> (r: Vec<String>)
    ensures
        views(r@) == path_components(path@),
{
    std::path::Path::new(path).components().map(|c| c.as_os_str().to_string_lossy().to_string()).collect()
}

/// `std::path::Path::strip_prefix`, read as text. The text is named by
/// `path_strip_prefix`; what is claimed of it is what the documentation
/// gives: there is a rest exactly when the components of `base` are the
/// leading components of `path`, and the rest holds the components that
/// follow them. Which separators of the original text the rest keeps is left
/// to the name.
#[verifier::external_body]
fn strip_prefix_of(path: &str, base: &str) -> (r: Option<String>)
    ensures
        r.deep_view() == path_strip_prefix(path@, base@),
        r is Some <==> path_components(base@).is_prefix_of(path_components(path@)),
        r matches Some(q) ==> path_components(q@) == path_components(path@).skip(
            path_components(base@).len() as int,
        ),
{
    std::path::Path::new(path).strip_prefix(base).ok().map(|p| p.to_string_lossy().to_string())
}

/// Two paths are equal as `Path`s: they have the same components.
pub open spec fn same_path(a: Seq<char>, b: Seq<char>) -> bool {
    path_components(a) == path_components(b)
}

fn seqs_equal(a: &Vec<String>, b: &Vec<String>) -> (r: bool)
    ensures
        r == (views(a@) == views(b@)),
{
    if a.len() != b.len() {
        assert(views(a@).len() != views(b@).len());
        return false;
    }
    let mut i: usize = 0;
    while i < a.len()
        invariant
            a@.len() == b@.len(),
            i <= a@.len(),
            forall|j: int| 0 <= j < i ==> a@[j]@ == b@[j]@,
        decreases a.len() - i,
    {
        if !str_eq(a[i].as_str(), b[i].as_str()) {
            assert(views(a@)[i as int] != views(b@)[i as int]);
            return false;
        }
        i = i + 1;
    }
    assert(views(a@) =~= views(b@));
    true
}

/// Whether the texts of `a` are the leading texts of `b`.
fn seqs_prefix(a: &Vec<String>, b: &Vec<String>) -> (r: bool)
    ensures
        r == views(a@).is_prefix_of(views(b@)),
{
    if a.len() > b.len() {
        return false;
    }
    let mut i: usize = 0;
    while i < a.len()
        invariant
            a@.len() <= b@.len(),
            i <= a@.len(),
            forall|j: int| 0 <= j < i ==> a@[j]@ == b@[j]@,
        decreases a.len() - i,
    {
        if !str_eq(a[i].as_str(), b[i].as_str()) {
            assert(views(a@)[i as int] != views(b@).subrange(0, a@.len() as int)[i as int]);
            return false;
        }
        i = i + 1;
    }
    assert(views(a@) =~= views(b@).subrange(0, a@.len() as int));
    true
}

/// Whether two paths are equal as `Path`s (component by component).
pub fn path_eq(a: &str, b: &str) -> (r: bool)
    ensures
        r == same_path(a@, b@),
{
    let ca = components_of(a);
    let cb = components_of(b);
    seqs_equal(&ca, &cb)
}

/// `PathBuf::join`: an absolute path replaces the base, a relative one is
/// appended to it.
pub open spec fn path_join(base: Seq<char>, rel: Seq<char>) -> Seq<char> {
    if rel.len() > 0 && rel[0] == '/' {
        rel
    } else {
        join_relative(base, rel)
    }
}

/// Joins a path onto a base the way `PathBuf::join` does.
pub fn join_paths(base: &str, rel: &str) -> (r: String)
    ensures
        r@ == path_join(base@, rel@),
{
    let rc = chars_of(rel);
    if rc.len() > 0 && rc[0] == '/' {
        to_owned_string(rel)
    } else {
        join_path(base, rel)
    }
}

/// The rest of `path` below `base`, if `base` is a prefix of it.
pub fn strip_path_prefix(path: &str, base: &str) -> (r: Option<String>)
    ensures
        r.deep_view() == path_strip_prefix(path@, base@),
        r is Some <==> path_components(base@).is_prefix_of(path_components(path@)),
        r matches Some(q) ==> path_components(q@) == path_components(path@).skip(
            path_components(base@).len() as int,
        ),
{
    strip_prefix_of(path, base)
}

/// The parent of a path, if it has one.
pub fn path_parent_of(path: &str) -> (r: Option<String>)
    ensures
        r.deep_view() == path_parent(path@),
        r is Some <==> (path_components(path@).len() > 0 && path_components(path@).last() != seq!['/']),
        r matches Some(q) ==> path_components(q@) == path_components(path@).drop_last(),
{
    parent_of(path)
}

/// The components of a path, each as text.
pub fn path_components_of(path: &str) -> (r: Vec<String>)
    ensures
        views(r@) == path_components(path@),
{
    components_of(path)
}

} // verus!
