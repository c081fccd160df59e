use directory_indexer::utils::{
    calculate_file_hash, chunk_text, detect_file_type, get_filename_from_path, get_parent_path,
    normalize_path, path_components_of, path_parent_of, paths_equal, path_starts_with,
    should_ignore_file, strip_path_prefix, to_absolute_path, FileType,
};

const CWD: &str = "/home/user/project";

#[test]
fn test_chunk_text() {
    let text = "This is a test text that should be chunked properly.";
    let chunks = chunk_text(text, 20, 5);

    assert!(!chunks.is_empty());
    assert!(chunks[0].len() <= 20);
}

#[test]
fn test_chunk_text_overlapping_chunks() {
    let text = "abcdefghijklmnopqrstuvwxyz";
    let chunks = chunk_text(text, 10, 3);
    assert_eq!(chunks, vec!["abcdefghij", "hijklmnopq", "opqrstuvwx", "vwxyz"]);
}

#[test]
fn test_chunk_text_short_text_is_one_chunk() {
    assert_eq!(chunk_text("short", 512, 50), vec!["short"]);
    assert_eq!(chunk_text("", 0, 0), vec![""]);
}

#[test]
fn test_chunk_text_without_overlap() {
    assert_eq!(chunk_text("aaaabbbbcc", 4, 0), vec!["aaaa", "bbbb", "cc"]);
}

#[test]
fn test_file_type_detection() {
    assert_eq!(detect_file_type("test.md"), Some(FileType::Text));
    assert_eq!(detect_file_type("main.rs"), Some(FileType::Code));
    assert_eq!(detect_file_type("data.json"), Some(FileType::Data));
    assert_eq!(detect_file_type("unknown.xyz"), None);
}

#[test]
fn test_file_type_detection_edge_cases() {
    assert_eq!(detect_file_type("README.MD"), Some(FileType::Text));
    assert_eq!(detect_file_type("/a/b/page.html"), Some(FileType::Markup));
    assert_eq!(detect_file_type("settings.ini"), Some(FileType::Config));
    assert_eq!(detect_file_type(".env"), None);
    assert_eq!(detect_file_type("Makefile"), None);
    assert_eq!(FileType::Markup.as_str(), "markup");
}

#[test]
fn test_should_ignore_file() {
    let patterns = vec![".git".to_string(), "node_modules".to_string()];

    assert!(should_ignore_file("path/.git/config", &patterns));
    assert!(should_ignore_file("project/node_modules/package", &patterns));
    assert!(!should_ignore_file("src/main.rs", &patterns));
}

#[test]
fn test_should_ignore_file_wildcards() {
    let patterns = vec![".*".to_string(), "*~".to_string()];
    assert!(should_ignore_file("dir/.hidden", &patterns));
    assert!(should_ignore_file("dir/notes.txt~", &patterns));
    assert!(!should_ignore_file("dir/notes.txt", &patterns));
}

#[test]
fn test_normalize_path() {
    let normalized = normalize_path("./test.txt", CWD);
    assert!(normalized.ends_with("/test.txt"));
    assert!(!normalized.contains("\\"));

    let normalized = normalize_path("src/main.rs", CWD);
    assert!(normalized.contains("/src/main.rs"));
    assert!(!normalized.contains("\\"));
}

#[test]
fn test_normalize_path_exact() {
    assert_eq!(normalize_path("src\\main.rs", CWD), "/home/user/project/src/main.rs");
    assert_eq!(normalize_path("/home/user/documents", CWD), "/home/user/documents");
    assert_eq!(normalize_path("a", "/"), "/a");
    assert_eq!(to_absolute_path("docs", CWD), "/home/user/project/docs");
}

#[test]
fn test_get_filename_from_path() {
    assert_eq!(get_filename_from_path("/path/to/file.txt"), Some("file.txt".to_string()));
    assert_eq!(get_filename_from_path("file.txt"), Some("file.txt".to_string()));
    assert_eq!(get_filename_from_path("/path/to/"), Some("".to_string()));
    assert_eq!(get_filename_from_path(""), Some("".to_string()));
}

#[test]
fn test_paths_equal() {
    let path1 = "src/main.rs";
    let path2 = "src/main.rs";
    assert!(paths_equal(path1, path2, CWD));
}

#[test]
fn test_paths_equal_and_prefix() {
    assert!(paths_equal("src/main.rs", "/home/user/project/src/main.rs", CWD));
    assert!(!paths_equal("src/main.rs", "src/lib.rs", CWD));
    assert!(path_starts_with("src/main.rs", "/home/user", CWD));
    assert!(!path_starts_with("/var/log", "/home", CWD));
}

#[test]
fn path_prefix_is_by_whole_components() {
    assert!(path_starts_with("/home/user/docs/a.md", "/home/user/docs", CWD));
    assert!(path_starts_with("/home/user/docs", "/home/user/docs", CWD));
    assert!(!path_starts_with("/home/user/docs2/a.md", "/home/user/docs", CWD));
    assert!(!path_starts_with("/home/user", "/home/user/docs", CWD));
}

#[test]
fn test_get_parent_path() {
    assert_eq!(get_parent_path("/a/b/c.txt", CWD), Some("/a/b".to_string()));
    assert_eq!(get_parent_path("notes.md", CWD), Some("/home/user/project".to_string()));
    assert_eq!(get_parent_path("/", CWD), None);
}

#[test]
fn test_calculate_file_hash() {
    assert_eq!(
        calculate_file_hash(b"abc"),
        "ba7816bf8f01cfea414140de5dae2223b00361a396177a9cb410ff61f20015ad"
    );
    assert_eq!(calculate_file_hash(b"").len(), 64);
}

#[test]
fn normalizing_twice_changes_nothing() {
    let cwd = "/home/user/project";
    for p in ["docs\\a.md", "/abs/x", "./rel", ""] {
        let once = normalize_path(p, cwd);
        assert_eq!(normalize_path(&once, cwd), once);
    }
}

#[test]
fn unix_path_components() {
    let c = |p: &str| path_components_of(p);
    assert_eq!(c(""), Vec::<String>::new());
    assert_eq!(c("/"), vec!["/"]);
    assert_eq!(c("//a//b/"), vec!["/", "a", "b"]);
    assert_eq!(c("./a/./b"), vec![".", "a", "b"]);
    assert_eq!(c("."), vec!["."]);
    assert_eq!(c("/./a"), vec!["/", "a"]);
    assert_eq!(c("a/../b"), vec!["a", "..", "b"]);
    assert_eq!(c(".hidden/x"), vec![".hidden", "x"]);
}

#[test]
fn parents_and_prefixes_by_components() {
    assert_eq!(path_parent_of("/a/b"), Some("/a".to_string()));
    assert_eq!(path_parent_of("/a"), Some("/".to_string()));
    assert_eq!(path_parent_of("/"), None);
    assert_eq!(path_parent_of(""), None);
    assert_eq!(path_parent_of("a"), Some("".to_string()));
    assert_eq!(strip_path_prefix("/docs/notes/a.md", "/docs"), Some("notes/a.md".to_string()));
    assert_eq!(strip_path_prefix("/docs2/a.md", "/docs"), None);
    assert_eq!(strip_path_prefix("/docs", "/docs"), Some("".to_string()));
}

#[test]
fn file_types_of_plain_names() {
    assert_eq!(detect_file_type("test.md"), Some(FileType::Text));
    assert_eq!(detect_file_type("/x/MAIN.RS"), Some(FileType::Code));
    assert_eq!(detect_file_type("/x/.."), None);
}
