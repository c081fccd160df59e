use directory_indexer::indexing::files::{FileProcessor, FileScanner};
use directory_indexer::utils::{
    join_paths, path_components_of, path_eq, path_parent_of, strip_path_prefix, FileType,
};

#[test]
fn scanner_defaults_and_limits() {
    let scanner = FileScanner::new();
    assert_eq!(scanner.max_file_size(), 10 * 1024 * 1024);
    assert_eq!(scanner.ignore_patterns(), &vec![".git".to_string(), "node_modules".to_string(), "target".to_string()]);
    assert!(scanner.is_ignored("/repo/.git/config"));
    assert!(scanner.is_ignored("/repo/node_modules/x/index.js"));
    assert!(!scanner.is_ignored("/repo/src/main.rs"));
    let small = FileScanner::with_max_size(100);
    assert!(small.ignore_patterns().is_empty());
    assert_eq!(small.size_error(100), None);
    assert_eq!(small.size_error(101), Some("File too large: 101 bytes (max: 100)".to_string()));
    let custom = FileScanner::with_ignore_patterns(vec!["*.log".to_string()]);
    assert!(custom.is_ignored("/var/app.log"));
    assert_eq!(custom.max_file_size(), 10 * 1024 * 1024);
}

#[test]
fn scanner_parent_directories() {
    let scanner = FileScanner::new();
    let dirs = scanner.extract_parent_directories("/root/a/b/f.txt", "/root", "/cwd");
    assert_eq!(dirs, vec!["/root", "/root/a", "/root/a/b"]);
    let dirs = scanner.extract_parent_directories("/elsewhere/f.txt", "/root", "/cwd");
    assert_eq!(dirs, vec!["/root"]);
    let dirs = scanner.extract_parent_directories("docs/x/f.md", "docs", "/home/u");
    assert_eq!(dirs, vec!["/home/u/docs", "/home/u/docs/x"]);
}

#[test]
fn processor_decisions() {
    let p = FileProcessor::new(1000, vec!["target".to_string()], 20, 5);
    assert_eq!(p.chunk_size(), 20);
    assert_eq!(p.overlap(), 5);
    assert!(p.within_size_limit(1000));
    assert!(!p.within_size_limit(1001));
    assert!(p.is_ignored("/x/target/debug"));
    assert!(p.should_process_file(&Some(FileType::Config)));
    assert!(!p.should_process_file(&None));
    let m = p.file_metadata("/d/notes.md".to_string(), 12, 34);
    assert_eq!(m.file_type, Some(FileType::Text));
    assert_eq!((m.size, m.modified_time), (12, 34));
    let content = "abcdefghijklmnopqrstuvwxyz".to_string();
    let done = p.process_content("/d/a.txt".to_string(), content.clone(), 26);
    assert_eq!(done.chunks, vec!["abcdefghijklmnopqrst", "pqrstuvwxyz"]);
    assert_eq!(done.file_type, Some(FileType::Text));
    assert_eq!(done.hash.len(), 64);
    assert_eq!(done.content, content);
}

#[test]
fn processor_parent_directories() {
    let p = FileProcessor::new(1000, vec![], 20, 5);
    let roots = vec!["/other".to_string(), "/root".to_string()];
    assert_eq!(p.extract_parent_directories("/root/a/f.txt", &roots, "/cwd"), vec!["/root/a", "/root"]);
    assert_eq!(p.extract_parent_directories("/root/f.txt", &roots, "/cwd"), vec!["/root/", "/root"]);
    assert!(p.extract_parent_directories("/none/f.txt", &roots, "/cwd").is_empty());
}

#[test]
fn path_helpers() {
    assert!(path_eq("/a/b", "/a//b"));
    assert!(path_eq("/a/b/", "/a/b"));
    assert!(!path_eq("/a/b", "/a/c"));
    assert_eq!(path_components_of("/a/./b"), vec!["/", "a", "b"]);
    assert_eq!(strip_path_prefix("/a/b/c", "/a"), Some("b/c".to_string()));
    assert_eq!(strip_path_prefix("/a/b/c", "/x"), None);
    assert_eq!(path_parent_of("/a/b"), Some("/a".to_string()));
    assert_eq!(path_parent_of("/"), None);
    assert_eq!(join_paths("/a", "b"), "/a/b");
    assert_eq!(join_paths("/a/", "b"), "/a/b");
    assert_eq!(join_paths("/a", "/b"), "/b");
}

#[test]
fn processed_text_file() {
    let p = FileProcessor::new(1024 * 1024, vec![], 20, 5);
    let content = "This is a test file content that should be chunked.".to_string();
    let done = p.process_content("/tmp/run/test.txt".to_string(), content.clone(), 51);
    assert_eq!(done.content, content);
    assert_eq!(done.chunks, directory_indexer::utils::chunk_text(&content, 20, 5));
    assert!(!done.chunks.is_empty());
    assert_eq!(done.file_type, Some(FileType::Text));
    assert_eq!(done.size, 51);
    assert_eq!(done.hash, directory_indexer::utils::calculate_file_hash(content.as_bytes()));
}
