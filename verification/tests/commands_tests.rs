use directory_indexer::cli::commands::{
    check_file_path, check_index_paths, check_search_arguments, chunk_preview, content_header_lines,
    content_lines, index_plan_lines, index_summary_lines, parse_chunk_range, preview_text,
    search_header_lines, search_result_lines, similar_header_lines, similar_result_lines,
    status_lines, validate_chunk_range, PathKind,
};
use directory_indexer::indexing::engine::IndexingStats;
use directory_indexer::search::engine::SearchResult;
use directory_indexer::storage::qdrant::CollectionInfo;
use directory_indexer::IndexerError;

#[test]
fn test_validate_chunk_range_valid_single() {
    assert!(validate_chunk_range("5").is_ok());
    assert!(validate_chunk_range("1").is_ok());
    assert!(validate_chunk_range("100").is_ok());
}

#[test]
fn test_validate_chunk_range_valid_range() {
    assert!(validate_chunk_range("1-5").is_ok());
    assert!(validate_chunk_range("2-10").is_ok());
    assert!(validate_chunk_range("1-1").is_ok());
}

#[test]
fn test_validate_chunk_range_invalid() {
    // Zero values
    assert!(validate_chunk_range("0").is_err());
    assert!(validate_chunk_range("1-0").is_err());
    assert!(validate_chunk_range("0-5").is_err());

    // Invalid range order
    assert!(validate_chunk_range("5-1").is_err());
    assert!(validate_chunk_range("10-5").is_err());

    // Invalid format
    assert!(validate_chunk_range("a").is_err());
    assert!(validate_chunk_range("1-a").is_err());
    assert!(validate_chunk_range("a-5").is_err());
    assert!(validate_chunk_range("1-2-3").is_err());
    assert!(validate_chunk_range("").is_err());
    assert!(validate_chunk_range("-").is_err());
    assert!(validate_chunk_range("1-").is_err());
    assert!(validate_chunk_range("-5").is_err());
}

#[test]
fn test_validate_chunk_range_error_messages() {
    let message = |s: &str| match validate_chunk_range(s) {
        Err(IndexerError::InvalidInput { message }) => message,
        _ => panic!("expected an invalid-input error for {s}"),
    };
    assert_eq!(message("1-2-3"), "Invalid chunk range format. Use 'start-end' (e.g., '1-5')");
    assert_eq!(message("x-2"), "Invalid start chunk number");
    assert_eq!(message("2-x"), "Invalid end chunk number");
    assert_eq!(message("0-2"), "Chunk numbers must be greater than 0");
    assert_eq!(message("3-2"), "Start chunk must be less than or equal to end chunk");
    assert_eq!(message("abc"), "Invalid chunk number");
    assert_eq!(message("0"), "Chunk number must be greater than 0");
    assert_eq!(message("99999999999999999999999"), "Invalid chunk number");
    assert!(validate_chunk_range("+3").is_ok());
}

#[test]
fn test_parse_chunk_range_single() {
    assert_eq!(parse_chunk_range("5").unwrap(), (5, 5));
    assert_eq!(parse_chunk_range("1").unwrap(), (1, 1));
    assert_eq!(parse_chunk_range("42").unwrap(), (42, 42));
}

#[test]
fn test_parse_chunk_range_range() {
    assert_eq!(parse_chunk_range("1-5").unwrap(), (1, 5));
    assert_eq!(parse_chunk_range("2-10").unwrap(), (2, 10));
    assert_eq!(parse_chunk_range("1-1").unwrap(), (1, 1));
}

#[test]
fn test_chunk_validation_and_parsing_integration() {
    let test_cases = vec![
        ("1", (1, 1)),
        ("5", (5, 5)),
        ("1-5", (1, 5)),
        ("2-10", (2, 10)),
        ("42-42", (42, 42)),
    ];

    for (input, expected) in test_cases {
        validate_chunk_range(input).unwrap();
        let result = parse_chunk_range(input).unwrap();
        assert_eq!(result, expected);
    }
}

#[test]
fn test_index_command_validation() {
    let empty_paths: Vec<String> = vec![];
    assert!(empty_paths.is_empty());
    let e = check_index_paths(&empty_paths, &vec![]).unwrap_err();
    assert_eq!(e.display(), "Invalid input: At least one directory path is required");
}

#[test]
fn test_search_query_validation() {
    let empty_query = "";
    let whitespace_query = "   ";
    let valid_query = "test query";
    assert!(check_search_arguments(empty_query, None, true).is_err());
    assert!(check_search_arguments(whitespace_query, None, true).is_err());
    assert!(check_search_arguments(valid_query, None, true).is_ok());
}

#[test]
fn test_error_message_construction() {
    let path = "/nonexistent/path";
    let error_msg = check_index_paths(&vec![path.to_string()], &vec![PathKind::Missing])
        .unwrap_err()
        .display();
    assert!(error_msg.contains("/nonexistent/path"));

    let file = "test.txt";
    let error_msg = check_file_path(file, PathKind::Directory).unwrap_err().display();
    assert!(error_msg.contains("test.txt"));

    let query = "test";
    let lines = search_result_lines(query, &vec![], &vec![], &vec![]);
    assert!(lines[0].contains("'test'"));
}

#[test]
fn test_format_validation() {
    for format in ["text", "json"] {
        assert!(status_lines(format, 0, 0, 0, &None, 0).is_ok());
    }
    for format in ["xml", "yaml", "csv", ""] {
        assert!(status_lines(format, 0, 0, 0, &None, 0).is_err());
    }
}

#[test]
fn test_path_collection_logic() {
    let paths = vec!["./test1".to_string(), "/home/user/test2".to_string()];
    let path_bufs: Vec<std::path::PathBuf> = paths.iter().map(std::path::PathBuf::from).collect();
    assert_eq!(path_bufs.len(), 2);
    assert_eq!(path_bufs[0], std::path::PathBuf::from("./test1"));
    assert_eq!(path_bufs[1], std::path::PathBuf::from("/home/user/test2"));
    let plan = index_plan_lines(&paths);
    assert_eq!(plan, vec!["Indexing 2 directories", "  ./test1", "  /home/user/test2"]);
}

#[test]
fn test_limit_handling() {
    let default_limit = 10;
    let custom_limit = Some(25);
    let no_limit: Option<usize> = None;
    assert_eq!(custom_limit.unwrap_or(default_limit), 25);
    assert_eq!(no_limit.unwrap_or(default_limit), 10);
    let search_limit = custom_limit.unwrap_or(10);
    assert_eq!(search_limit, 25);
    let search_limit = no_limit.unwrap_or(10);
    assert_eq!(search_limit, 10);
    assert_eq!(search_header_lines("q", None, custom_limit), vec!["Searching for: 'q'", "  Limit: 25"]);
}

#[test]
fn test_content_preview_logic() {
    let short_content = "Short content";
    let long_content = "A".repeat(300);
    let short_preview = preview_text(short_content);
    assert_eq!(short_preview, "Short content");
    let long_preview = preview_text(&long_content);
    assert!(long_preview.ends_with("..."));
    assert_eq!(long_preview.len(), 203);
}

#[test]
fn index_paths_report_the_first_bad_path() {
    let paths = vec!["/ok".to_string(), "/file".to_string(), "/gone".to_string()];
    let kinds = vec![PathKind::Directory, PathKind::File, PathKind::Missing];
    let e = check_index_paths(&paths, &kinds).unwrap_err();
    assert_eq!(e.display(), "Invalid input: Path is not a directory: /file");
    let kinds = vec![PathKind::Directory, PathKind::Missing, PathKind::File];
    let e = check_index_paths(&paths, &kinds).unwrap_err();
    assert_eq!(e.display(), "Resource not found: Directory not found: /file");
    let kinds = vec![PathKind::Directory; 3];
    assert!(check_index_paths(&paths, &kinds).is_ok());
}

#[test]
fn file_and_search_argument_errors() {
    assert!(check_file_path("/f", PathKind::File).is_ok());
    assert_eq!(
        check_file_path("/f", PathKind::Missing).unwrap_err().display(),
        "Resource not found: File not found: /f"
    );
    assert_eq!(
        check_file_path("/d", PathKind::Other).unwrap_err().display(),
        "Invalid input: Path is not a file: /d"
    );
    assert_eq!(
        check_search_arguments("q", Some("/x"), false).unwrap_err().display(),
        "Resource not found: Directory not found: /x"
    );
    assert!(check_search_arguments("q", Some("/x"), true).is_ok());
}

#[test]
fn summary_and_status_lines() {
    let mut stats = IndexingStats::new();
    stats.add_processed_file(4);
    stats.add_failed_file();
    let lines = index_summary_lines(&stats);
    assert_eq!(lines[0], "Indexing completed!");
    assert_eq!(lines[2], "  Files processed: 1");
    assert_eq!(lines[4], "  Files with errors: 1");
    assert_eq!(lines[5], "  Chunks created: 4");

    let info = Some(CollectionInfo { points_count: 7, indexed_vectors_count: 3 });
    let json = status_lines("json", 2, -1, 5, &info, 3 * 1024 * 1024 + 5).unwrap();
    assert_eq!(
        json,
        vec![
            "{",
            "  \"indexed_directories\": 2,",
            "  \"indexed_files\": -1,",
            "  \"total_chunks\": 5,",
            "  \"vector_points\": 7,",
            "  \"indexed_vectors\": 3,",
            "  \"database_size_mb\": 3",
            "}",
        ]
    );
    let text = status_lines("text", 1, 2, 3, &None, 0).unwrap();
    assert_eq!(text[4], "  Vector points: 0 (collection not created)");
    assert_eq!(text[6], "  Database size: 0 MB");
    let e = status_lines("xml", 0, 0, 0, &None, 0).unwrap_err();
    assert_eq!(e.display(), "Invalid input: Unsupported format: xml. Use 'text' or 'json'");
}

#[test]
fn result_lines_and_previews() {
    let r = SearchResult {
        file_path: "/d/a.md".to_string(),
        chunk_id: 2,
        score: 0.5f32.to_bits(),
        parent_directories: vec!["/".to_string(), "/d".to_string()],
    };
    let chunks = vec!["x".to_string(), "y".to_string(), "line one\nline two".to_string()];
    let preview = chunk_preview(&chunks, 2);
    assert_eq!(preview, Some("line one line two".to_string()));
    assert_eq!(chunk_preview(&chunks, 3), None);
    let lines = search_result_lines("q", &vec![r.clone()], &vec!["0.500".to_string()], &vec![preview.clone()]);
    assert_eq!(
        lines,
        vec![
            "\nSearch Results:",
            "==============",
            "\n1. /d/a.md (score: 0.500)",
            "   Chunk: 2",
            "   Path: / > /d",
            "   Preview: line one line two",
        ]
    );
    let lines = similar_result_lines("/me", &vec![r], &vec!["0.500".to_string()], &vec![None]);
    assert_eq!(lines, vec!["\nSimilar Files:", "==============", "\n1. /d/a.md (score: 0.500)", "   Best matching chunk: 2"]);
    assert_eq!(similar_result_lines("/me", &vec![], &vec![], &vec![]), vec!["No similar files found for: /me"]);
    assert_eq!(similar_header_lines("/me", 4), vec!["Finding files similar to: /me", "  Limit: 4"]);
    assert_eq!(content_header_lines("/f", Some("1-2")), vec!["Getting content from: /f", "  Chunks: 1-2"]);
    assert_eq!(
        content_lines(Some((1, 2)), "body"),
        vec!["\nFile Content:", "=============", "Chunks 1-2:", "body"]
    );
}

#[test]
fn chunk_range_text_round_trip() {
    for (x, y) in [(1usize, 1usize), (2, 5), (7, 120), (1, usize::MAX)] {
        let s = format!("{x}-{y}");
        assert!(validate_chunk_range(&s).is_ok());
        assert_eq!(parse_chunk_range(&s).unwrap(), (x, y));
        let single = x.to_string();
        assert!(validate_chunk_range(&single).is_ok());
        assert_eq!(parse_chunk_range(&single).unwrap(), (x, x));
    }
}
