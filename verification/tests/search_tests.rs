use directory_indexer::search::engine::{SearchEngine, SearchQuery, SearchResult};
use directory_indexer::IndexerError;

fn bits(f: f32) -> u32 {
    f.to_bits()
}

fn score_of(r: &SearchResult) -> f32 {
    f32::from_bits(r.score)
}

fn hit(path: &str, chunk: usize, score: f32, parent: &str) -> SearchResult {
    SearchResult {
        file_path: path.to_string(),
        chunk_id: chunk,
        score: bits(score),
        parent_directories: vec![parent.to_string()],
    }
}

fn create_sample_search_results() -> Vec<SearchResult> {
    vec![
        hit("/home/user/docs/readme.md", 0, 0.9, "docs"),
        hit("/home/user/code/main.rs", 1, 0.8, "code"),
        hit("/home/user/docs/api.md", 0, 0.7, "docs"),
        hit("/home/user/other/test.txt", 0, 0.5, "other"),
    ]
}

fn query(text: &str, limit: usize, threshold: Option<f32>) -> SearchQuery {
    SearchQuery {
        text: text.to_string(),
        directory_filter: None,
        limit,
        similarity_threshold: threshold.map(bits),
    }
}

fn message(e: IndexerError) -> String {
    e.display()
}

#[test]
fn test_validate_query_success() {
    let valid_query = query("test search", 10, Some(0.5));
    assert!(SearchEngine::validate_query_static(&valid_query, true).is_ok());
}

#[test]
fn test_validate_query_empty_text() {
    let result = SearchEngine::validate_query_static(&query("", 10, None), true);
    assert!(result.is_err());
    assert!(message(result.unwrap_err()).contains("cannot be empty"));
}

#[test]
fn test_validate_query_whitespace_only_text() {
    let result = SearchEngine::validate_query_static(&query("   \t\n  ", 10, None), true);
    assert!(result.is_err());
    assert!(message(result.unwrap_err()).contains("cannot be empty"));
}

#[test]
fn test_validate_query_zero_limit() {
    let result = SearchEngine::validate_query_static(&query("test", 0, None), true);
    assert!(result.is_err());
    assert!(message(result.unwrap_err()).contains("must be greater than 0"));
}

#[test]
fn test_validate_query_invalid_similarity_threshold() {
    for q in [query("test", 10, Some(-0.1)), query("test", 10, Some(1.1))] {
        let result = SearchEngine::validate_query_static(&q, true);
        assert!(result.is_err());
        assert!(message(result.unwrap_err()).contains("between 0.0 and 1.0"));
    }
}

#[test]
fn test_validate_query_valid_similarity_threshold() {
    for threshold in [0.0, 0.5, 1.0] {
        let q = query("test", 10, Some(threshold));
        assert!(SearchEngine::validate_query_static(&q, true).is_ok());
    }
}

#[test]
fn test_filter_results_by_directory_with_filter() {
    let results = create_sample_search_results();
    let filter_dir = Some("/home/user/docs".to_string());
    let filtered = SearchEngine::filter_results_by_directory_static(results, &filter_dir);
    assert_eq!(filtered.len(), 2);
    assert!(filtered.iter().all(|r| r.file_path.starts_with("/home/user/docs")));
}

#[test]
fn test_filter_results_by_directory_no_filter() {
    let results = create_sample_search_results();
    let original_count = results.len();
    let filtered = SearchEngine::filter_results_by_directory_static(results, &None);
    assert_eq!(filtered.len(), original_count);
}

#[test]
fn test_filter_results_by_directory_no_matches() {
    let results = create_sample_search_results();
    let filter_dir = Some("/nonexistent/path".to_string());
    let filtered = SearchEngine::filter_results_by_directory_static(results, &filter_dir);
    assert_eq!(filtered.len(), 0);
}

#[test]
fn test_apply_similarity_threshold_with_threshold() {
    let results = create_sample_search_results();
    let filtered = SearchEngine::apply_similarity_threshold_static(results, Some(bits(0.75)));
    assert_eq!(filtered.len(), 2);
    assert!(filtered.iter().all(|r| score_of(r) >= 0.75));
}

#[test]
fn test_apply_similarity_threshold_no_threshold() {
    let results = create_sample_search_results();
    let original_count = results.len();
    let filtered = SearchEngine::apply_similarity_threshold_static(results, None);
    assert_eq!(filtered.len(), original_count);
}

#[test]
fn test_apply_similarity_threshold_no_matches() {
    let results = create_sample_search_results();
    let filtered = SearchEngine::apply_similarity_threshold_static(results, Some(bits(0.95)));
    assert_eq!(filtered.len(), 0);
}

#[test]
fn test_rank_results() {
    let results = create_sample_search_results();
    let ranked = SearchEngine::rank_results_static(results);
    assert_eq!(ranked.len(), 4);
    assert_eq!(score_of(&ranked[0]), 0.9);
    assert_eq!(score_of(&ranked[1]), 0.8);
    assert_eq!(score_of(&ranked[2]), 0.7);
    assert_eq!(score_of(&ranked[3]), 0.5);
    for i in 1..ranked.len() {
        assert!(score_of(&ranked[i - 1]) >= score_of(&ranked[i]));
    }
}

#[test]
fn test_rank_results_empty() {
    let ranked = SearchEngine::rank_results_static(vec![]);
    assert_eq!(ranked.len(), 0);
}

#[test]
fn test_limit_results() {
    let limited = SearchEngine::limit_results_static(create_sample_search_results(), 2);
    assert_eq!(limited.len(), 2);
}

#[test]
fn test_limit_results_larger_than_available() {
    let results = create_sample_search_results();
    let original_count = results.len();
    let limited = SearchEngine::limit_results_static(results, 10);
    assert_eq!(limited.len(), original_count);
}

#[test]
fn test_limit_results_zero() {
    let limited = SearchEngine::limit_results_static(create_sample_search_results(), 0);
    assert_eq!(limited.len(), 0);
}

#[test]
fn test_search_query_creation() {
    let q = SearchQuery {
        text: "test query".to_string(),
        directory_filter: Some("/test/dir".to_string()),
        limit: 5,
        similarity_threshold: Some(bits(0.8)),
    };
    assert_eq!(q.text, "test query");
    assert_eq!(q.directory_filter, Some("/test/dir".to_string()));
    assert_eq!(q.limit, 5);
    assert_eq!(q.similarity_threshold, Some(bits(0.8)));
}

#[test]
fn test_search_result_creation() {
    let result = SearchResult {
        file_path: "/test/file.txt".to_string(),
        chunk_id: 1,
        score: bits(0.85),
        parent_directories: vec!["test".to_string()],
    };
    assert_eq!(result.file_path, "/test/file.txt");
    assert_eq!(result.chunk_id, 1);
    assert_eq!(score_of(&result), 0.85);
    assert_eq!(result.parent_directories, vec!["test".to_string()]);
}

#[test]
fn validate_query_reports_missing_directory_last() {
    let mut q = query("find me", 3, Some(0.2));
    q.directory_filter = Some("/nowhere".to_string());
    let e = SearchEngine::validate_query_static(&q, false).unwrap_err();
    assert_eq!(message(e), "Invalid input: Directory filter must be a valid directory path");
    assert!(SearchEngine::validate_query_static(&q, true).is_ok());
    let mut blank = q.clone();
    blank.text = " ".to_string();
    let e = SearchEngine::validate_query_static(&blank, false).unwrap_err();
    assert_eq!(message(e), "Invalid input: Search query cannot be empty");
}

#[test]
fn validate_query_refuses_nan_threshold() {
    let q = query("x", 1, Some(f32::NAN));
    assert!(SearchEngine::validate_query_static(&q, true).is_err());
    let q = query("x", 1, Some(-0.0));
    assert!(SearchEngine::validate_query_static(&q, true).is_ok());
}

#[test]
fn ranking_is_stable_for_equal_scores() {
    let results = vec![
        hit("/a", 0, 0.5, "x"),
        hit("/b", 1, 0.9, "x"),
        hit("/c", 2, 0.5, "x"),
        hit("/d", 3, 0.9, "x"),
        hit("/e", 4, -0.25, "x"),
    ];
    let ranked = SearchEngine::rank_results_static(results);
    let order: Vec<&str> = ranked.iter().map(|r| r.file_path.as_str()).collect();
    assert_eq!(order, vec!["/b", "/d", "/a", "/c", "/e"]);
}

#[test]
fn refine_filters_ranks_and_limits() {
    let engine = SearchEngine::new();
    let q = SearchQuery {
        text: "q".to_string(),
        directory_filter: Some("/home/user/docs".to_string()),
        limit: 1,
        similarity_threshold: Some(bits(0.6)),
    };
    let mut results = create_sample_search_results();
    results.reverse();
    let answer = engine.refine_results(&q, results);
    assert_eq!(answer.len(), 1);
    assert_eq!(answer[0].file_path, "/home/user/docs/readme.md");
}

#[test]
fn similar_files_group_by_file_and_skip_the_file_itself() {
    let hits = vec![
        hit("/me.txt", 0, 0.99, "x"),
        hit("/a.txt", 2, 0.4, "x"),
        hit("/b.txt", 1, 0.7, "x"),
        hit("/a.txt", 5, 0.8, "x"),
        hit("/c.txt", 3, -0.5, "x"),
        hit("/b.txt", 4, 0.6, "x"),
    ];
    let files = SearchEngine::similar_files_from_hits(hits, "/me.txt", 10);
    let summary: Vec<(String, usize, f32)> =
        files.iter().map(|r| (r.file_path.clone(), r.chunk_id, score_of(r))).collect();
    assert_eq!(
        summary,
        vec![
            ("/a.txt".to_string(), 5, 0.8),
            ("/b.txt".to_string(), 1, 0.7),
            ("/c.txt".to_string(), 0, 0.0),
        ]
    );
    assert!(files.iter().all(|r| r.parent_directories.is_empty()));
}

#[test]
fn similar_files_respect_the_limit() {
    let hits = vec![hit("/a", 0, 0.1, "x"), hit("/b", 0, 0.3, "x"), hit("/c", 0, 0.2, "x")];
    let files = SearchEngine::similar_files_from_hits(hits, "/z", 2);
    let names: Vec<&str> = files.iter().map(|r| r.file_path.as_str()).collect();
    assert_eq!(names, vec!["/b", "/c"]);
    let none = SearchEngine::similar_files_from_hits(vec![hit("/z", 0, 0.9, "x")], "/z", 5);
    assert!(none.is_empty());
}
