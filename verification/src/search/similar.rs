//! Files similar to a given file: the hits of a search for its content,
//! grouped by file with the best score of each, the file itself left out.
use vstd::prelude::*;

use crate::search::engine::{by_score, first_n, scores_are_numbers, SearchEngine, SearchResult};
use crate::search::ranking::{lemma_sort_desc, sort_desc, sorted_desc};
use crate::search::score::{bits_gt, float_gt, is_nan, order_key, zero_bits};
use crate::strings::{str_eq, views};

verus! {

broadcast use vstd::seq_lib::group_to_multiset_ensures;

/// What is kept of a file while the hits are read: its path, the best score
/// seen, and the chunk that scored it.
pub open spec fn hit_view(r: SearchResult) -> (Seq<char>, u32, usize) {
    (r.file_path@, r.score, r.chunk_id)
}

/// The path of a kept file.
pub open spec fn entry_path(e: (Seq<char>, u32, usize)) -> Seq<char> {
    e.0
}

/// The ordering key of a kept file: its best score.
pub open spec fn by_entry_score() -> spec_fn((Seq<char>, u32, usize)) -> int {
    |e: (Seq<char>, u32, usize)| order_key(e.1)
}

/// The paths of the kept files.
pub open spec fn paths_of(es: Seq<(Seq<char>, u32, usize)>) -> Seq<Seq<char>> {
    es.map_values(|e: (Seq<char>, u32, usize)| entry_path(e))
}

/// The last position of `p` in `ps`, or -1.
pub open spec fn path_position(ps: Seq<Seq<char>>, p: Seq<char>) -> int
    decreases ps.len(),
{
    if ps.len() == 0 {
        -1
    } else if ps.last() == p {
        ps.len() - 1
    } else {
        path_position(ps.drop_last(), p)
    }
}

/// A position found is a position of `p`; -1 means `p` does not occur.
pub proof fn lemma_path_position(ps: Seq<Seq<char>>, p: Seq<char>)
    ensures
        -1 <= path_position(ps, p) < ps.len(),
        path_position(ps, p) >= 0 ==> ps[path_position(ps, p)] == p,
        path_position(ps, p) == -1 ==> !ps.contains(p),
        path_position(ps, p) >= 0 ==> forall|j: int| path_position(ps, p) < j < ps.len() ==> ps[j] != p,
    decreases ps.len(),
{
    if ps.len() > 0 && ps.last() != p {
        lemma_path_position(ps.drop_last(), p);
        let k = path_position(ps, p);
        assert forall|j: int| k < j < ps.len() implies ps[j] != p by {
            if j < ps.len() - 1 {
                assert(ps.drop_last()[j] == ps[j]);
            }
        }
        if k == -1 {
            assert forall|j: int| 0 <= j < ps.len() implies ps[j] != p by {
                if j < ps.len() - 1 {
                    assert(ps.drop_last()[j] == ps[j]);
                }
            }
        }
    }
}

/// The kept files after one more hit: a hit of the file itself is skipped; a
/// hit of a new file starts it at score `0.0`, chunk 0; a hit that scores
/// higher than its file's best replaces score and chunk.
pub open spec fn record_hit(es: Seq<(Seq<char>, u32, usize)>, r: SearchResult, exclude: Seq<char>) -> Seq<
    (Seq<char>, u32, usize),
> {
    if r.file_path@ == exclude {
        es
    } else {
        let k = path_position(paths_of(es), r.file_path@);
        if k < 0 {
            if float_gt(r.score, zero_bits()) {
                es.push((r.file_path@, r.score, r.chunk_id))
            } else {
                es.push((r.file_path@, zero_bits(), 0))
            }
        } else if float_gt(r.score, es[k].1) {
            es.update(k, (es[k].0, r.score, r.chunk_id))
        } else {
            es
        }
    }
}

/// The kept files after reading all hits, in the order they were first hit.
pub open spec fn best_hits(rs: Seq<SearchResult>, exclude: Seq<char>) -> Seq<(Seq<char>, u32, usize)>
    decreases rs.len(),
{
    if rs.len() == 0 {
        Seq::empty()
    } else {
        record_hit(best_hits(rs.drop_last(), exclude), rs.last(), exclude)
    }
}

/// The similar files: the kept files by descending best score (files with
/// equal scores in the order they were first hit), at most `limit` of them.
pub open spec fn similar_files(rs: Seq<SearchResult>, exclude: Seq<char>, limit: int) -> Seq<
    (Seq<char>, u32, usize),
> {
    first_n(sort_desc(best_hits(rs, exclude), by_entry_score()), limit)
}

/// The kept files given as three parallel sequences.
pub open spec fn entries_of(paths: Seq<String>, scores: Seq<u32>, chunks: Seq<usize>) -> Seq<
    (Seq<char>, u32, usize),
> {
    Seq::new(paths.len(), |j: int| (paths[j]@, scores[j], chunks[j]))
}

/// No kept score is a NaN.
pub open spec fn entry_scores_are_numbers(es: Seq<(Seq<char>, u32, usize)>) -> bool {
    forall|i: int| 0 <= i < es.len() ==> !is_nan(#[trigger] es[i].1)
}

proof fn lemma_best_hits_numbers(rs: Seq<SearchResult>, exclude: Seq<char>)
    ensures
        entry_scores_are_numbers(best_hits(rs, exclude)),
    decreases rs.len(),
{
    if rs.len() > 0 {
        lemma_best_hits_numbers(rs.drop_last(), exclude);
        let es = best_hits(rs.drop_last(), exclude);
        let t = best_hits(rs, exclude);
        assert(t == record_hit(es, rs.last(), exclude));
        let r = rs.last();
        assert(!is_nan(zero_bits()));
        assert forall|i: int| 0 <= i < t.len() implies !is_nan(#[trigger] t[i].1) by {
            if r.file_path@ != exclude {
                let ps = paths_of(es);
                let k = path_position(ps, r.file_path@);
                lemma_path_position(ps, r.file_path@);
                if k >= 0 && float_gt(r.score, es[k].1) && i == k {
                    assert(t[i].1 == r.score);
                } else if i < es.len() {
                    assert(t[i] == es[i]);
                    assert(!is_nan(es[i].1));
                }
            } else {
                assert(!is_nan(es[i].1));
            }
        }
    }
}

/// What the kept files owe to the hits `rs`: one entry per file, never the
/// excluded file, every entry a file that was hit (with score `0.0` and chunk
/// 0, or a hit's own score and chunk), and no hit of a kept file scoring
/// higher than its entry.
pub open spec fn kept_files_sound(
    rs: Seq<SearchResult>,
    exclude: Seq<char>,
    es: Seq<(Seq<char>, u32, usize)>,
) -> bool {
    &&& forall|i: int, j: int| 0 <= i < j < es.len() ==> (#[trigger] es[i]).0 != (#[trigger] es[j]).0
    &&& forall|i: int| 0 <= i < es.len() ==> (#[trigger] es[i]).0 != exclude
    &&& forall|i: int|
        0 <= i < es.len() ==> exists|h: int|
            0 <= h < rs.len() && (#[trigger] rs[h]).file_path@ == (#[trigger] es[i]).0 && ((es[i].1
                == zero_bits() && es[i].2 == 0) || hit_view(rs[h]) == es[i])
    &&& forall|h: int|
        0 <= h < rs.len() && (#[trigger] rs[h]).file_path@ != exclude ==> {
            let k = path_position(paths_of(es), rs[h].file_path@);
            0 <= k < es.len() && !float_gt(rs[h].score, es[k].1)
        }
}

proof fn lemma_position_push(ps: Seq<Seq<char>>, p: Seq<char>, q: Seq<char>)
    ensures
        path_position(ps.push(p), q) == if q == p {
            ps.len() as int
        } else {
            path_position(ps, q)
        },
{
    assert(ps.push(p).drop_last() == ps);
}

proof fn lemma_record_hit_sound(
    rs: Seq<SearchResult>,
    r: SearchResult,
    exclude: Seq<char>,
    es: Seq<(Seq<char>, u32, usize)>,
)
    requires
        kept_files_sound(rs, exclude, es),
    ensures
        kept_files_sound(rs.push(r), exclude, record_hit(es, r, exclude)),
{
    let rs2 = rs.push(r);
    let es2 = record_hit(es, r, exclude);
    let n = rs.len() as int;
    let p = r.file_path@;
    let ps = paths_of(es);
    assert(rs2[n] == r);
    assert forall|h: int| 0 <= h < n implies rs2[h] == rs[h] by {}
    lemma_path_position(ps, p);
    let k = path_position(ps, p);
    if p == exclude {
        assert forall|i: int| 0 <= i < es2.len() implies exists|h: int|
            0 <= h < rs2.len() && (#[trigger] rs2[h]).file_path@ == (#[trigger] es2[i]).0 && ((es2[i].1
                == zero_bits() && es2[i].2 == 0) || hit_view(rs2[h]) == es2[i]) by {
            let h = choose|h: int|
                0 <= h < rs.len() && (#[trigger] rs[h]).file_path@ == es[i].0 && ((es[i].1
                    == zero_bits() && es[i].2 == 0) || hit_view(rs[h]) == es[i]);
            assert(rs2[h] == rs[h]);
        }
        assert forall|h: int| 0 <= h < rs2.len() && (#[trigger] rs2[h]).file_path@ != exclude implies {
            let k = path_position(paths_of(es2), rs2[h].file_path@);
            0 <= k < es2.len() && !float_gt(rs2[h].score, es2[k].1)
        } by {
            assert(rs[h] == rs2[h]);
        }
    } else if k < 0 {
        let e = if float_gt(r.score, zero_bits()) {
            (p, r.score, r.chunk_id)
        } else {
            (p, zero_bits(), 0usize)
        };
        assert(es2 == es.push(e));
        assert(paths_of(es2) =~= ps.push(p));
        assert(!ps.contains(p));
        assert forall|i: int| 0 <= i < es.len() implies (#[trigger] es[i]).0 != p by {
            assert(ps[i] == es[i].0);
        }
        assert forall|i: int, j: int| 0 <= i < j < es2.len() implies (#[trigger] es2[i]).0 != (
        #[trigger] es2[j]).0 by {
            if j < es.len() {
                assert(es2[i] == es[i] && es2[j] == es[j]);
            } else {
                assert(es2[i] == es[i]);
            }
        }
        assert forall|i: int| 0 <= i < es2.len() implies exists|h: int|
            0 <= h < rs2.len() && (#[trigger] rs2[h]).file_path@ == (#[trigger] es2[i]).0 && ((es2[i].1
                == zero_bits() && es2[i].2 == 0) || hit_view(rs2[h]) == es2[i]) by {
            if i < es.len() {
                let h = choose|h: int|
                    0 <= h < rs.len() && (#[trigger] rs[h]).file_path@ == es[i].0 && ((es[i].1
                        == zero_bits() && es[i].2 == 0) || hit_view(rs[h]) == es[i]);
                assert(rs2[h] == rs[h] && es2[i] == es[i]);
            } else {
                assert(rs2[n].file_path@ == es2[i].0);
            }
        }
        assert forall|h: int| 0 <= h < rs2.len() && (#[trigger] rs2[h]).file_path@ != exclude implies {
            let k = path_position(paths_of(es2), rs2[h].file_path@);
            0 <= k < es2.len() && !float_gt(rs2[h].score, es2[k].1)
        } by {
            let q = rs2[h].file_path@;
            lemma_position_push(ps, p, q);
            if h < n {
                assert(rs[h] == rs2[h]);
                let kq = path_position(ps, q);
                assert(ps[kq] == es[kq].0);
                assert(es2[kq] == es[kq]);
            }
        }
    } else {
        assert(ps[k] == es[k].0);
        if float_gt(r.score, es[k].1) {
            let e = (es[k].0, r.score, r.chunk_id);
            assert(es2 == es.update(k, e));
            assert(paths_of(es2) =~= ps);
            assert forall|i: int, j: int| 0 <= i < j < es2.len() implies (#[trigger] es2[i]).0 != (
            #[trigger] es2[j]).0 by {
                assert(es2[i].0 == es[i].0 && es2[j].0 == es[j].0);
            }
            assert forall|i: int| 0 <= i < es2.len() implies (#[trigger] es2[i]).0 != exclude by {
                assert(es2[i].0 == es[i].0);
            }
            assert forall|i: int| 0 <= i < es2.len() implies exists|h: int|
                0 <= h < rs2.len() && (#[trigger] rs2[h]).file_path@ == (#[trigger] es2[i]).0 && ((
                es2[i].1 == zero_bits() && es2[i].2 == 0) || hit_view(rs2[h]) == es2[i]) by {
                if i == k {
                    assert(hit_view(rs2[n]) == es2[i]);
                } else {
                    let h = choose|h: int|
                        0 <= h < rs.len() && (#[trigger] rs[h]).file_path@ == es[i].0 && ((es[i].1
                            == zero_bits() && es[i].2 == 0) || hit_view(rs[h]) == es[i]);
                    assert(rs2[h] == rs[h] && es2[i] == es[i]);
                }
            }
            assert forall|h: int| 0 <= h < rs2.len() && (#[trigger] rs2[h]).file_path@ != exclude implies {
                let k = path_position(paths_of(es2), rs2[h].file_path@);
                0 <= k < es2.len() && !float_gt(rs2[h].score, es2[k].1)
            } by {
                if h < n {
                    assert(rs[h] == rs2[h]);
                    let kq = path_position(ps, rs[h].file_path@);
                    if kq != k {
                        assert(es2[kq] == es[kq]);
                    }
                }
            }
        } else {
            assert(es2 == es);
            assert forall|i: int| 0 <= i < es2.len() implies exists|h: int|
                0 <= h < rs2.len() && (#[trigger] rs2[h]).file_path@ == (#[trigger] es2[i]).0 && ((
                es2[i].1 == zero_bits() && es2[i].2 == 0) || hit_view(rs2[h]) == es2[i]) by {
                let h = choose|h: int|
                    0 <= h < rs.len() && (#[trigger] rs[h]).file_path@ == es[i].0 && ((es[i].1
                        == zero_bits() && es[i].2 == 0) || hit_view(rs[h]) == es[i]);
                assert(rs2[h] == rs[h]);
            }
            assert forall|h: int| 0 <= h < rs2.len() && (#[trigger] rs2[h]).file_path@ != exclude implies {
                let k = path_position(paths_of(es2), rs2[h].file_path@);
                0 <= k < es2.len() && !float_gt(rs2[h].score, es2[k].1)
            } by {
                if h < n {
                    assert(rs[h] == rs2[h]);
                }
            }
        }
    }
}

/// Reading the hits one by one keeps the kept files sound.
pub proof fn lemma_best_hits_sound(rs: Seq<SearchResult>, exclude: Seq<char>)
    ensures
        kept_files_sound(rs, exclude, best_hits(rs, exclude)),
    decreases rs.len(),
{
    if rs.len() > 0 {
        lemma_best_hits_sound(rs.drop_last(), exclude);
        lemma_record_hit_sound(rs.drop_last(), rs.last(), exclude, best_hits(rs.drop_last(), exclude));
        assert(rs.drop_last().push(rs.last()) == rs);
    }
}

/// The similar files found from the hits `rs` for the file `exclude`: at
/// most `limit` of them, by descending best score, one entry per file, never
/// `exclude` itself, every one a file that was hit with either score `0.0`
/// and chunk 0 or the score and chunk of one of its hits, and no hit of a
/// listed file scoring higher than the score listed for it.
pub proof fn lemma_similar_files(rs: Seq<SearchResult>, exclude: Seq<char>, limit: int)
    requires
        limit >= 0,
    ensures
        ({
            let out = similar_files(rs, exclude, limit);
            &&& out.len() <= limit
            &&& sorted_desc(out, by_entry_score())
            &&& forall|i: int, j: int| 0 <= i < j < out.len() ==> (#[trigger] out[i]).0 != (#[trigger] out[j]).0
            &&& forall|i: int| 0 <= i < out.len() ==> (#[trigger] out[i]).0 != exclude
            &&& forall|i: int|
                0 <= i < out.len() ==> exists|h: int|
                    0 <= h < rs.len() && (#[trigger] rs[h]).file_path@ == (#[trigger] out[i]).0 && ((
                    out[i].1 == zero_bits() && out[i].2 == 0) || hit_view(rs[h]) == out[i])
            &&& forall|i: int, h: int|
                0 <= i < out.len() && 0 <= h < rs.len() && (#[trigger] rs[h]).file_path@ == (#[trigger] out[i]).0
                    ==> !float_gt(rs[h].score, out[i].1)
        }),
{
    let b = best_hits(rs, exclude);
    let key = by_entry_score();
    let srt = sort_desc(b, key);
    let out = similar_files(rs, exclude, limit);
    lemma_best_hits_sound(rs, exclude);
    lemma_sort_desc(b, key);
    assert(b.no_duplicates()) by {
        assert forall|i: int, j: int| 0 <= i < b.len() && 0 <= j < b.len() && i != j implies b[i] != b[j] by {
            if i < j {
                assert(b[i].0 != b[j].0);
            } else {
                assert(b[j].0 != b[i].0);
            }
        }
    }
    b.lemma_multiset_has_no_duplicates();
    srt.lemma_multiset_has_no_duplicates_conv();
    // Every sorted entry is an entry of `b`.
    assert forall|i: int| 0 <= i < srt.len() implies exists|m: int| 0 <= m < b.len() && b[m] == #[trigger] srt[i] by {
        assert(srt.contains(srt[i]));
        assert(srt.to_multiset().count(srt[i]) > 0);
        assert(b.contains(srt[i]));
    }
    assert forall|i: int| 0 <= i < out.len() implies out[i] == #[trigger] srt[i] by {}
    assert forall|i: int, j: int| 0 <= i < j < out.len() implies (#[trigger] out[i]).0 != (#[trigger] out[j]).0 by {
        assert(out[i] == srt[i] && out[j] == srt[j]);
        let mi = choose|m: int| 0 <= m < b.len() && b[m] == srt[i];
        let mj = choose|m: int| 0 <= m < b.len() && b[m] == srt[j];
        if mi < mj {
            assert(b[mi].0 != b[mj].0);
        } else if mj < mi {
            assert(b[mj].0 != b[mi].0);
        } else {
            assert(srt[i] != srt[j]);
        }
    }
    assert forall|i: int| 0 <= i < out.len() implies (#[trigger] out[i]).0 != exclude by {
        assert(out[i] == srt[i]);
        let m = choose|m: int| 0 <= m < b.len() && b[m] == srt[i];
        assert(b[m].0 != exclude);
    }
    assert forall|i: int| 0 <= i < out.len() implies exists|h: int|
        0 <= h < rs.len() && (#[trigger] rs[h]).file_path@ == (#[trigger] out[i]).0 && ((out[i].1
            == zero_bits() && out[i].2 == 0) || hit_view(rs[h]) == out[i]) by {
        assert(out[i] == srt[i]);
        let m = choose|m: int| 0 <= m < b.len() && b[m] == srt[i];
        assert(exists|h: int|
            0 <= h < rs.len() && (#[trigger] rs[h]).file_path@ == (#[trigger] b[m]).0 && ((b[m].1
                == zero_bits() && b[m].2 == 0) || hit_view(rs[h]) == b[m]));
    }
    assert forall|i: int, h: int|
        0 <= i < out.len() && 0 <= h < rs.len() && (#[trigger] rs[h]).file_path@ == (#[trigger] out[i]).0
        implies !float_gt(rs[h].score, out[i].1) by {
        assert(out[i] == srt[i]);
        let m = choose|m: int| 0 <= m < b.len() && b[m] == srt[i];
        let ps = paths_of(b);
        let k = path_position(ps, rs[h].file_path@);
        lemma_path_position(ps, rs[h].file_path@);
        assert(ps[m] == b[m].0);
        assert(ps[k] == b[k].0);
        if k != m {
            if k < m {
                assert(b[k].0 != b[m].0);
            } else {
                assert(b[m].0 != b[k].0);
            }
        }
    }
    assert forall|i: int, j: int| 0 <= i < j < out.len() implies key(#[trigger] out[i]) >= key(#[trigger] out[j]) by {
        assert(out[i] == srt[i] && out[j] == srt[j]);
    }
}

/// The last position of `p` among the strings `paths`, if it occurs.
fn position_of(paths: &Vec<String>, p: &str) -> (k: Option<usize>)
    ensures
        match k {
            Some(j) => j < paths@.len() && j == path_position(views(paths@), p@),
            None => path_position(views(paths@), p@) == -1,
        },
{
    let ghost ps = views(paths@);
    let mut k = paths.len();
    assert(ps.take(k as int) == ps);
    while k > 0 && !str_eq(paths[k - 1].as_str(), p)
        invariant
            ps == views(paths@),
            k <= paths@.len(),
            path_position(ps, p@) == path_position(ps.take(k as int), p@),
        decreases k,
    {
        proof {
            assert(ps.take(k as int).drop_last() == ps.take(k - 1));
        }
        k = k - 1;
    }
    if k == 0 {
        proof {
            assert(ps.take(0).len() == 0);
        }
        None
    } else {
        proof {
            assert(ps.take(k as int).last() == ps[k - 1]);
        }
        Some(k - 1)
    }
}

proof fn lemma_sort_keeps_property(
    s: Seq<SearchResult>,
    key: spec_fn(SearchResult) -> int,
    p: spec_fn(SearchResult) -> bool,
)
    requires
        forall|i: int| 0 <= i < s.len() ==> #[trigger] p(s[i]),
    ensures
        forall|i: int| 0 <= i < sort_desc(s, key).len() ==> #[trigger] p(sort_desc(s, key)[i]),
{
    lemma_sort_desc(s, key);
    let t = sort_desc(s, key);
    assert forall|i: int| 0 <= i < t.len() implies #[trigger] p(t[i]) by {
        assert(t.contains(t[i]));
        assert(t.to_multiset().count(t[i]) > 0);
        assert(s.contains(t[i]));
        let j = choose|j: int| 0 <= j < s.len() && s[j] == t[i];
        assert(p(s[j]));
    }
}

impl SearchEngine {
    /// The files similar to `file_path` from the hits of a search for its
    /// content: hits of `file_path` itself are skipped; each other file gets
    /// the best score among its hits (starting from `0.0`) and the chunk that
    /// scored it; the files come by descending score, at most `limit` of them,
    /// with no parent directories.
    pub fn similar_files_from_hits(hits: Vec<SearchResult>, file_path: &str, limit: usize) -> (files: Vec<
        SearchResult,
    >)
        ensures
            files@.map_values(|r: SearchResult| hit_view(r)) == similar_files(
                hits@,
                file_path@,
                limit as int,
            ),
            forall|i: int| 0 <= i < files@.len() ==> (#[trigger] files@[i]).parent_directories@.len() == 0,
    {
        let ghost rs = hits@;
        let ghost exclude = file_path@;
        let mut paths: Vec<String> = Vec::new();
        let mut scores: Vec<u32> = Vec::new();
        let mut chunks: Vec<usize> = Vec::new();
        for r in it: hits.into_iter()
            invariant
                it.seq() == rs,
                exclude == file_path@,
                paths@.len() == scores@.len() == chunks@.len(),
                entries_of(paths@, scores@, chunks@) == best_hits(rs.take(it.index() as int), exclude),
        {
            let ghost i = it.index() as int;
            let ghost es = entries_of(paths@, scores@, chunks@);
            proof {
                assert(rs.take(i + 1).drop_last() == rs.take(i));
                assert(paths_of(es) =~= views(paths@));
            }
            if !str_eq(r.file_path.as_str(), file_path) {
                match position_of(&paths, r.file_path.as_str()) {
                    None => {
                        if bits_gt(r.score, 0) {
                            scores.push(r.score);
                            chunks.push(r.chunk_id);
                        } else {
                            scores.push(0);
                            chunks.push(0);
                        }
                        paths.push(r.file_path);
                        proof {
                            assert(entries_of(paths@, scores@, chunks@) =~= record_hit(es, r, exclude));
                        }
                    },
                    Some(k) => {
                        if bits_gt(r.score, scores[k]) {
                            scores.set(k, r.score);
                            chunks.set(k, r.chunk_id);
                        }
                        proof {
                            assert(entries_of(paths@, scores@, chunks@) =~= record_hit(es, r, exclude));
                        }
                    },
                }
            }
        }
        proof {
            assert(rs.take(rs.len() as int) == rs);
            lemma_best_hits_numbers(rs, exclude);
        }
        let ghost es = entries_of(paths@, scores@, chunks@);
        let mut groups: Vec<SearchResult> = Vec::new();
        let mut j: usize = 0;
        for p in pit: paths.into_iter()
            invariant
                j == pit.index(),
                pit.seq().len() == scores@.len() == chunks@.len(),
                es == entries_of(pit.seq(), scores@, chunks@),
                entry_scores_are_numbers(es),
                groups@.len() == j,
                forall|m: int| 0 <= m < j ==> hit_view(#[trigger] groups@[m]) == es[m],
                forall|m: int| 0 <= m < j ==> (#[trigger] groups@[m]).parent_directories@.len() == 0,
        {
            assert(es[j as int].0 == p@);
            assert(j < chunks.len());
            groups.push(SearchResult {
                file_path: p,
                chunk_id: chunks[j],
                score: scores[j],
                parent_directories: Vec::new(),
            });
            j = j + 1;
        }
        proof {
            assert(groups@.map_values(|r: SearchResult| hit_view(r)) =~= es);
            assert forall|m: int| 0 <= m < groups@.len() implies !is_nan(#[trigger] groups@[m].score) by {
                assert(hit_view(groups@[m]) == es[m]);
                assert(!is_nan(es[m].1));
            }
            assert(scores_are_numbers(groups@));
        }
        let ghost gs = groups@;
        let mut ranked = SearchEngine::rank_results_static(groups);
        proof {
            let hv = |r: SearchResult| hit_view(r);
            assert forall|a: SearchResult| #[trigger] by_entry_score()(hv(a)) == by_score()(a) by {}
            crate::search::ranking::lemma_sort_desc_map(gs, hv, by_score(), by_entry_score());
            assert(gs.map_values(hv) == es);
            let pd = |r: SearchResult| r.parent_directories@.len() == 0;
            assert forall|m: int| 0 <= m < gs.len() implies #[trigger] pd(gs[m]) by {}
            lemma_sort_keeps_property(gs, by_score(), pd);
        }
        let ghost before_cut = ranked@;
        ranked.truncate(limit);
        proof {
            let hv = |r: SearchResult| hit_view(r);
            assert(ranked@.map_values(hv) =~= first_n(before_cut.map_values(hv), limit as int));
            let pd = |r: SearchResult| r.parent_directories@.len() == 0;
            assert forall|m: int| 0 <= m < ranked@.len() implies (#[trigger] ranked@[m]).parent_directories@.len() == 0 by {
                assert(pd(before_cut[m]));
            }
        }
        ranked
    }
}

} // verus!
