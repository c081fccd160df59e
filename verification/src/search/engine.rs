//! Search queries and their results: the checks a query must pass and the
//! steps that turn the vector store's hits into the answer.
use vstd::prelude::*;

use crate::error::{is_invalid_input, IndexerError, Result};
use crate::search::ranking::{lemma_insert_desc_at, lemma_sort_desc, sort_desc, sorted_desc};
use crate::search::score::{bits_ge, bits_order_key, float_ge, in_unit_range, is_nan, order_key};
use crate::strings::{is_blank, is_blank_seq, is_prefix, starts_with};

verus! {

/// A search request. The similarity threshold is the bit pattern of an `f32`
/// (`f32::to_bits`).
#[derive(Debug, Clone)]
pub struct SearchQuery {
    pub text: String,
    pub directory_filter: Option<String>,
    pub limit: usize,
    pub similarity_threshold: Option<u32>,
}

/// One hit: a chunk of a file and its similarity score, the bit pattern of an
/// `f32` (`f32::to_bits`).
#[derive(Debug, Clone)]
pub struct SearchResult {
    pub file_path: String,
    pub chunk_id: usize,
    pub score: u32,
    pub parent_directories: Vec<String>,
}

/// The rules of the search engine. The stores and the embedding provider it
/// works with live with the caller, which hands their answers in.
pub struct SearchEngine {}

/// Why a query is refused, or `None` when it is accepted. `directory_exists`
/// tells whether the directory filter, if any, names an existing path.
pub open spec fn query_error(q: SearchQuery, directory_exists: bool) -> Option<Seq<char>> {
    if is_blank_seq(q.text@) {
        Some("Search query cannot be empty"@)
    } else if q.limit == 0 {
        Some("Search limit must be greater than 0"@)
    } else if q.similarity_threshold is Some && !in_unit_range(q.similarity_threshold->0) {
        Some("Similarity threshold must be between 0.0 and 1.0"@)
    } else if q.directory_filter is Some && !directory_exists {
        Some("Directory filter must be a valid directory path"@)
    } else {
        None
    }
}

/// The ordering key of a hit: its score.
pub open spec fn by_score() -> spec_fn(SearchResult) -> int {
    |r: SearchResult| order_key(r.score)
}

/// The hit lies under the directory `dir`: its path starts with it.
pub open spec fn under_dir(dir: Seq<char>) -> spec_fn(SearchResult) -> bool {
    |r: SearchResult| is_prefix(dir, r.file_path@)
}

/// The hit scores at least `min` (never true of a NaN).
pub open spec fn scores_at_least(min: u32) -> spec_fn(SearchResult) -> bool {
    |r: SearchResult| float_ge(r.score, min)
}

/// The first `n` items of `s`, or all of them when there are fewer.
pub open spec fn first_n<A>(s: Seq<A>, n: int) -> Seq<A> {
    if n < s.len() {
        s.take(n)
    } else {
        s
    }
}

/// No hit has a NaN score.
pub open spec fn scores_are_numbers(s: Seq<SearchResult>) -> bool {
    forall|i: int| 0 <= i < s.len() ==> !is_nan(#[trigger] s[i].score)
}

/// The hits kept by a directory filter, if there is one.
pub open spec fn filtered_by_directory(s: Seq<SearchResult>, filter: Option<String>) -> Seq<
    SearchResult,
> {
    match filter {
        Some(dir) => s.filter(under_dir(dir@)),
        None => s,
    }
}

/// The hits kept by a similarity threshold, if there is one.
pub open spec fn filtered_by_threshold(s: Seq<SearchResult>, threshold: Option<u32>) -> Seq<
    SearchResult,
> {
    match threshold {
        Some(t) => s.filter(scores_at_least(t)),
        None => s,
    }
}

/// The answer to a query from the vector store's hits: filtered by directory,
/// then by score, ordered by descending score, and cut to the limit.
pub open spec fn refined(s: Seq<SearchResult>, q: SearchQuery) -> Seq<SearchResult> {
    first_n(
        sort_desc(
            filtered_by_threshold(filtered_by_directory(s, q.directory_filter), q.similarity_threshold),
            by_score(),
        ),
        q.limit as int,
    )
}

impl SearchEngine {
    /// A search engine.
    pub fn new() -> (e: Self) {
        SearchEngine {  }
    }

    /// Checks a query (see `validate_query_static`).
    pub fn validate_query(&self, query: &SearchQuery, directory_exists: bool) -> (r: Result<()>)
        ensures
            match r {
                Ok(_) => query_error(*query, directory_exists) is None,
                Err(e) => query_error(*query, directory_exists) matches Some(m) && is_invalid_input(
                    e,
                    m,
                ),
            },
    {
        Self::validate_query_static(query, directory_exists)
    }

    /// Checks a query: its text is not blank, its limit is positive, its
    /// threshold lies in `0.0..=1.0`, and its directory filter exists.
    pub fn validate_query_static(query: &SearchQuery, directory_exists: bool) -> (r: Result<()>)
        ensures
            match r {
                Ok(_) => query_error(*query, directory_exists) is None,
                Err(e) => query_error(*query, directory_exists) matches Some(m) && is_invalid_input(
                    e,
                    m,
                ),
            },
    {
        if is_blank(query.text.as_str()) {
            return Err(IndexerError::invalid_input("Search query cannot be empty"));
        }
        if query.limit == 0 {
            return Err(IndexerError::invalid_input("Search limit must be greater than 0"));
        }
        if let Some(threshold) = query.similarity_threshold {
            if !(bits_ge(threshold, 0) && bits_ge(0x3f80_0000, threshold)) {
                return Err(
                    IndexerError::invalid_input("Similarity threshold must be between 0.0 and 1.0"),
                );
            }
        }
        if query.directory_filter.is_some() && !directory_exists {
            return Err(
                IndexerError::invalid_input("Directory filter must be a valid directory path"),
            );
        }
        Ok(())
    }

    /// The hits whose path starts with the directory filter; all of them when
    /// there is no filter.
    pub fn filter_results_by_directory(
        &self,
        results: Vec<SearchResult>,
        directory_filter: &Option<String>,
    ) -> (kept: Vec<SearchResult>)
        ensures
            kept@ == filtered_by_directory(results@, *directory_filter),
    {
        Self::filter_results_by_directory_static(results, directory_filter)
    }

    /// The hits whose path starts with the directory filter, in their order;
    /// all of them when there is no filter.
    pub fn filter_results_by_directory_static(
        results: Vec<SearchResult>,
        directory_filter: &Option<String>,
    ) -> (kept: Vec<SearchResult>)
        ensures
            kept@ == filtered_by_directory(results@, *directory_filter),
    {
        match directory_filter {
            None => results,
            Some(dir) => {
                let ghost rs = results@;
                let ghost pred = under_dir(dir@);
                let mut kept: Vec<SearchResult> = Vec::new();
                for r in it: results.into_iter()
                    invariant
                        it.seq() == rs,
                        pred == under_dir(dir@),
                        kept@ == rs.take(it.index() as int).filter(pred),
                {
                    let ghost i = it.index() as int;
                    proof {
                        assert(rs.take(i + 1) == rs.take(i).push(r));
                        rs.take(i).lemma_filter_push(r, pred);
                    }
                    let keep = starts_with(r.file_path.as_str(), dir.as_str());
                    if keep {
                        kept.push(r);
                    }
                }
                proof {
                    assert(rs.take(rs.len() as int) == rs);
                }
                kept
            },
        }
    }

    /// The hits that score at least the threshold (see
    /// `apply_similarity_threshold_static`).
    pub fn apply_similarity_threshold(&self, results: Vec<SearchResult>, threshold: Option<u32>) -> (kept: Vec<
        SearchResult,
    >)
        ensures
            kept@ == filtered_by_threshold(results@, threshold),
    {
        Self::apply_similarity_threshold_static(results, threshold)
    }

    /// The hits whose score is at least the threshold, in their order; all of
    /// them when there is no threshold. A NaN score never passes a threshold.
    pub fn apply_similarity_threshold_static(results: Vec<SearchResult>, threshold: Option<u32>) -> (kept: Vec<
        SearchResult,
    >)
        ensures
            kept@ == filtered_by_threshold(results@, threshold),
    {
        match threshold {
            None => results,
            Some(min) => {
                let ghost rs = results@;
                let ghost pred = scores_at_least(min);
                let mut kept: Vec<SearchResult> = Vec::new();
                for r in it: results.into_iter()
                    invariant
                        it.seq() == rs,
                        pred == scores_at_least(min),
                        kept@ == rs.take(it.index() as int).filter(pred),
                {
                    let ghost i = it.index() as int;
                    proof {
                        assert(rs.take(i + 1) == rs.take(i).push(r));
                        rs.take(i).lemma_filter_push(r, pred);
                    }
                    let keep = bits_ge(r.score, min);
                    if keep {
                        kept.push(r);
                    }
                }
                proof {
                    assert(rs.take(rs.len() as int) == rs);
                }
                kept
            },
        }
    }

    /// The hits by descending score (see `rank_results_static`).
    pub fn rank_results(&self, results: Vec<SearchResult>) -> (ranked: Vec<SearchResult>)
        requires
            scores_are_numbers(results@),
        ensures
            ranked@ == sort_desc(results@, by_score()),
    {
        Self::rank_results_static(results)
    }

    /// The hits ordered by descending score; hits with equal scores keep their
    /// order. Scores must not be NaN, which do not compare.
    pub fn rank_results_static(results: Vec<SearchResult>) -> (ranked: Vec<SearchResult>)
        requires
            scores_are_numbers(results@),
        ensures
            ranked@ == sort_desc(results@, by_score()),
    {
        let ghost rs = results@;
        let mut ranked: Vec<SearchResult> = Vec::new();
        for r in it: results.into_iter()
            invariant
                it.seq() == rs,
                ranked@ == sort_desc(rs.take(it.index() as int), by_score()),
        {
            let ghost i = it.index() as int;
            let ghost before = ranked@;
            let key = bits_order_key(r.score);
            let mut p = ranked.len();
            while p > 0 && bits_order_key(ranked[p - 1].score) < key
                invariant
                    ranked@ == before,
                    p <= before.len(),
                    key == order_key(r.score),
                    forall|j: int| p <= j < before.len() ==> order_key(#[trigger] before[j].score) < key,
                decreases p,
            {
                p = p - 1;
            }
            proof {
                let k = by_score();
                assert forall|j: int| p <= j < before.len() implies #[trigger] k(before[j]) < k(r) by {
                    assert(order_key(before[j].score) < key);
                }
                lemma_insert_desc_at(before, r, k, p as int);
                assert(rs.take(i + 1).drop_last() == rs.take(i));
            }
            ranked.insert(p, r);
        }
        proof {
            assert(rs.take(rs.len() as int) == rs);
        }
        ranked
    }

    /// At most `limit` hits (see `limit_results_static`).
    pub fn limit_results(&self, results: Vec<SearchResult>, limit: usize) -> (kept: Vec<SearchResult>)
        ensures
            kept@ == first_n(results@, limit as int),
    {
        Self::limit_results_static(results, limit)
    }

    /// The first `limit` hits, or all of them when there are fewer.
    pub fn limit_results_static(results: Vec<SearchResult>, limit: usize) -> (kept: Vec<SearchResult>)
        ensures
            kept@ == first_n(results@, limit as int),
    {
        let mut kept = results;
        kept.truncate(limit);
        kept
    }

    /// The answer to a query from the hits the vector store found for it:
    /// filtered by directory, then by similarity threshold, ordered by
    /// descending score and cut to the query's limit.
    pub fn refine_results(&self, query: &SearchQuery, results: Vec<SearchResult>) -> (answer: Vec<
        SearchResult,
    >)
        requires
            scores_are_numbers(results@),
        ensures
            answer@ == refined(results@, *query),
    {
        let filtered = self.filter_results_by_directory(results, &query.directory_filter);
        let kept = self.apply_similarity_threshold(filtered, query.similarity_threshold);
        proof {
            lemma_filters_keep_numbers(results@, query.directory_filter, query.similarity_threshold);
        }
        let ranked = self.rank_results(kept);
        self.limit_results(ranked, query.limit)
    }
}

/// The answer to a query: at most `limit` hits, by descending score, every one
/// a hit of the vector store, under the directory filter if there is one and
/// scoring at least the threshold if there is one.
pub proof fn lemma_refined_answer(s: Seq<SearchResult>, q: SearchQuery)
    ensures
        ({
            let a = refined(s, q);
            &&& a.len() <= q.limit
            &&& sorted_desc(a, by_score())
            &&& forall|i: int| 0 <= i < a.len() ==> s.contains(#[trigger] a[i])
            &&& forall|i: int|
                0 <= i < a.len() && q.directory_filter is Some ==> is_prefix(
                    q.directory_filter->0@,
                    (#[trigger] a[i]).file_path@,
                )
            &&& forall|i: int|
                0 <= i < a.len() && q.similarity_threshold is Some ==> float_ge(
                    (#[trigger] a[i]).score,
                    q.similarity_threshold->0,
                )
        }),
{
    broadcast use vstd::seq_lib::group_filter_ensures;
    broadcast use vstd::seq_lib::group_to_multiset_ensures;

    let f = filtered_by_directory(s, q.directory_filter);
    let t = filtered_by_threshold(f, q.similarity_threshold);
    let srt = sort_desc(t, by_score());
    let a = refined(s, q);
    lemma_sort_desc(t, by_score());
    assert forall|i: int| 0 <= i < a.len() implies a[i] == #[trigger] srt[i] by {}
    assert forall|i: int| 0 <= i < a.len() implies t.contains(#[trigger] a[i]) by {
        assert(a[i] == srt[i]);
        assert(srt.contains(srt[i]));
        assert(srt.to_multiset().count(srt[i]) > 0);
    }
    assert forall|x: SearchResult| t.contains(x) implies f.contains(x) && (
    q.similarity_threshold is Some ==> float_ge(x.score, q.similarity_threshold->0)) by {
        if let Some(m) = q.similarity_threshold {
            f.lemma_filter_contains_rev(scores_at_least(m), x);
            let k = choose|k: int| 0 <= k < t.len() && t[k] == x;
            assert(scores_at_least(m)(t[k]));
        }
    }
    assert forall|x: SearchResult| f.contains(x) implies s.contains(x) && (
    q.directory_filter is Some ==> is_prefix(q.directory_filter->0@, x.file_path@)) by {
        if let Some(d) = q.directory_filter {
            s.lemma_filter_contains_rev(under_dir(d@), x);
            let k = choose|k: int| 0 <= k < f.len() && f[k] == x;
            assert(under_dir(d@)(f[k]));
        }
    }
    assert forall|i: int, j: int| 0 <= i < j < a.len() implies by_score()(#[trigger] a[i]) >= by_score()(
        #[trigger] a[j],
    ) by {
        assert(a[i] == srt[i] && a[j] == srt[j]);
    }
}

/// The directory filter keeps exactly the hits under the directory, in their
/// order: every hit whose path starts with the filter is kept, every kept
/// hit is such a hit, and without a filter every hit is kept.
pub proof fn lemma_directory_filter(s: Seq<SearchResult>, filter: Option<String>)
    ensures
        forall|i: int|
            0 <= i < s.len() && (filter is None || is_prefix(filter->0@, s[i].file_path@))
                ==> #[trigger] filtered_by_directory(s, filter).contains(s[i]),
        forall|x: SearchResult|
            #[trigger] filtered_by_directory(s, filter).contains(x) ==> s.contains(x) && (
            filter is None || is_prefix(filter->0@, x.file_path@)),
        filter is None ==> filtered_by_directory(s, filter) == s,
{
    broadcast use vstd::seq_lib::group_filter_ensures;

    if let Some(d) = filter {
        let f = filtered_by_directory(s, filter);
        assert forall|i: int|
            0 <= i < s.len() && is_prefix(d@, s[i].file_path@) implies #[trigger] f.contains(s[i]) by {
            assert(under_dir(d@)(s[i]));
            s.lemma_filter_contains(under_dir(d@), i);
        }
        assert forall|x: SearchResult| #[trigger] f.contains(x) implies s.contains(x) && is_prefix(
            d@,
            x.file_path@,
        ) by {
            s.lemma_filter_contains_rev(under_dir(d@), x);
            let k = choose|k: int| 0 <= k < f.len() && f[k] == x;
            assert(under_dir(d@)(f[k]));
        }
    } else {
        assert forall|i: int| 0 <= i < s.len() implies #[trigger] s.contains(s[i]) by {}
    }
}

/// Nothing that qualifies is lost: when the vector store found no more hits
/// than the limit, every hit under the directory filter (if any) that scores
/// at least the threshold (if any) is in the answer.
pub proof fn lemma_refined_keeps_qualifying(s: Seq<SearchResult>, q: SearchQuery, i: int)
    requires
        s.len() <= q.limit,
        0 <= i < s.len(),
        q.directory_filter is Some ==> is_prefix(q.directory_filter->0@, s[i].file_path@),
        q.similarity_threshold is Some ==> float_ge(s[i].score, q.similarity_threshold->0),
    ensures
        refined(s, q).contains(s[i]),
{
    broadcast use vstd::seq_lib::group_filter_ensures;
    broadcast use vstd::seq_lib::group_to_multiset_ensures;

    lemma_directory_filter(s, q.directory_filter);
    let f = filtered_by_directory(s, q.directory_filter);
    assert(f.contains(s[i]));
    let k = choose|k: int| 0 <= k < f.len() && f[k] == s[i];
    let t = filtered_by_threshold(f, q.similarity_threshold);
    if let Some(m) = q.similarity_threshold {
        assert(scores_at_least(m)(f[k]));
        f.lemma_filter_contains(scores_at_least(m), k);
    }
    assert(t.contains(s[i]));
    assert(f.len() <= s.len());
    assert(t.len() <= f.len());
    let srt = sort_desc(t, by_score());
    lemma_sort_desc(t, by_score());
    assert(t.to_multiset().count(s[i]) > 0);
    assert(srt.to_multiset().count(s[i]) > 0);
    assert(srt.contains(s[i]));
    assert(srt.len() == t.len()) by {
        assert(srt.to_multiset().len() == t.to_multiset().len());
    }
    assert(refined(s, q) == srt);
}

proof fn lemma_filter_keeps_numbers(s: Seq<SearchResult>, pred: spec_fn(SearchResult) -> bool)
    requires
        scores_are_numbers(s),
    ensures
        scores_are_numbers(s.filter(pred)),
{
    broadcast use vstd::seq_lib::group_filter_ensures;

    assert forall|i: int| 0 <= i < s.filter(pred).len() implies !is_nan(
        #[trigger] s.filter(pred)[i].score,
    ) by {
        let x = s.filter(pred)[i];
        assert(s.filter(pred).contains(x));
        s.lemma_filter_contains_rev(pred, x);
        let k = choose|k: int| 0 <= k < s.len() && s[k] == x;
        assert(!is_nan(s[k].score));
    }
}

proof fn lemma_filters_keep_numbers(s: Seq<SearchResult>, dir: Option<String>, t: Option<u32>)
    requires
        scores_are_numbers(s),
    ensures
        scores_are_numbers(filtered_by_threshold(filtered_by_directory(s, dir), t)),
{
    if let Some(d) = dir {
        lemma_filter_keeps_numbers(s, under_dir(d@));
    }
    let f = filtered_by_directory(s, dir);
    if let Some(m) = t {
        lemma_filter_keeps_numbers(f, scores_at_least(m));
    }
}

} // verus!
