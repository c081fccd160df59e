use directory_indexer::indexing::engine::{chunk_points, indexed_file};
use directory_indexer::indexing::files::FileInfo;

#[test]
fn points_only_for_embedded_chunks() {
    let parents = vec!["/docs".to_string(), "/docs/notes".to_string()];
    let points = chunk_points("/docs/notes/a.md", &parents, 10, &vec![true, false, true, true]);
    let ids: Vec<usize> = points.iter().map(|p| p.chunk_id).collect();
    assert_eq!(ids, vec![10, 12, 13]);
    for p in &points {
        assert_eq!(p.file_path, "/docs/notes/a.md");
        assert_eq!(p.parent_directories, parents);
    }
    assert!(chunk_points("/x", &parents, 0, &vec![false, false]).is_empty());
    assert!(chunk_points("/x", &parents, 0, &vec![]).is_empty());
}

#[test]
fn record_of_an_indexed_file() {
    let file = FileInfo {
        path: "notes/a.md".to_string(),
        size: 51,
        modified_time: 1_700_000_000,
        hash: "old".to_string(),
        parent_dirs: vec!["/docs".to_string()],
        content: None,
        errors: None,
    };
    let chunks = vec!["first".to_string(), "second".to_string()];
    let r = indexed_file(&file, "/docs/notes/a.md", "abc123", &chunks);
    assert_eq!(r.path, "/docs/notes/a.md");
    assert_eq!(r.size, 51);
    assert_eq!(r.modified_time, 1_700_000_000);
    assert_eq!(r.hash, "abc123");
    assert_eq!(r.parent_dirs, vec!["/docs".to_string()]);
    assert_eq!(r.chunks, chunks);
}
