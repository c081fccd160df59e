use directory_indexer::search::engine::SearchEngine;

fn chunks(items: &[&str]) -> Vec<String> {
    items.iter().map(|s| s.to_string()).collect()
}

#[test]
fn stored_chunks_all_and_ranges() {
    let c = chunks(&["one", "two", "three"]);
    assert_eq!(SearchEngine::select_stored_chunks(&c, None).unwrap(), "one\ntwo\nthree");
    assert_eq!(SearchEngine::select_stored_chunks(&c, Some((2, 3))).unwrap(), "two\nthree");
    assert_eq!(SearchEngine::select_stored_chunks(&c, Some((2, 9))).unwrap(), "two\nthree");
    assert_eq!(SearchEngine::select_stored_chunks(&c, Some((0, 1))).unwrap(), "one");
}

#[test]
fn stored_chunks_range_past_the_end() {
    let c = chunks(&["one", "two"]);
    let e = SearchEngine::select_stored_chunks(&c, Some((3, 4))).unwrap_err();
    assert_eq!(e.display(), "Invalid input: Chunk range 3-4 exceeds available chunks (2)");
}

#[test]
fn line_chunks_of_a_file() {
    let content: String = (1..=25).map(|i| format!("line{i}\n")).collect();
    // 25 lines: 3 lines per estimated chunk, 9 chunks.
    assert_eq!(
        SearchEngine::select_line_chunks(&content, Some((2, 2))).unwrap(),
        "line4\nline5\nline6"
    );
    assert_eq!(
        SearchEngine::select_line_chunks(&content, Some((9, 12))).unwrap(),
        "line25"
    );
    let e = SearchEngine::select_line_chunks(&content, Some((10, 10))).unwrap_err();
    assert_eq!(e.display(), "Invalid input: Chunk 10 is out of range. File has 9 estimated chunks");
    let e = SearchEngine::select_line_chunks(&content, Some((0, 1))).unwrap_err();
    assert!(e.display().contains("Chunk 0 is out of range"));
    assert_eq!(SearchEngine::select_line_chunks(&content, None).unwrap(), content);
}

#[test]
fn line_chunks_strip_carriage_returns() {
    let content = "a\r\nb\r\nc\r";
    assert_eq!(SearchEngine::select_line_chunks(content, Some((1, 3))).unwrap(), "a\nb\nc\r");
}

#[test]
fn representative_chunk_and_content() {
    let c = Some(chunks(&["first", "second"]));
    assert_eq!(SearchEngine::representative_chunk(&c, "/f").unwrap(), "first");
    let e = SearchEngine::representative_chunk(&Some(vec![]), "/f").unwrap_err();
    assert_eq!(e.display(), "Resource not found: No chunks found for file: /f");
    assert!(SearchEngine::representative_chunk(&None, "/f").is_err());
    let long = "x".repeat(600);
    assert_eq!(SearchEngine::representative_content(&long).len(), 512);
    assert_eq!(SearchEngine::representative_content("short"), "short");
}

#[test]
fn content_from_the_right_source() {
    let stored = Some(Some(chunks(&["a", "b", "c"])));
    assert_eq!(SearchEngine::content_from_sources(&stored, None, Some((2, 2))).unwrap(), "b");
    let unindexed: Option<Option<Vec<String>>> = None;
    assert_eq!(
        SearchEngine::content_from_sources(&unindexed, Some("x\ny\n"), Some((2, 2))).unwrap(),
        "y"
    );
    let no_chunks = Some(None);
    assert_eq!(SearchEngine::content_from_sources(&no_chunks, Some("whole"), None).unwrap(), "whole");
}

#[test]
fn full_range_equals_all_chunks() {
    let c = chunks(&["a", "b", "c"]);
    let all = SearchEngine::select_stored_chunks(&c, None).unwrap();
    let range = SearchEngine::select_stored_chunks(&c, Some((1, 3))).unwrap();
    assert_eq!(all, range);
}

#[test]
fn similar_query_text_sources() {
    let stored = Some(Some(chunks(&["first chunk"])));
    assert_eq!(SearchEngine::similar_query_text(&stored, None, "/f").unwrap(), "first chunk");
    let empty = Some(Some(vec![]));
    assert!(SearchEngine::similar_query_text(&empty, None, "/f").is_err());
    let none: Option<Option<Vec<String>>> = None;
    let text = "y".repeat(700);
    assert_eq!(SearchEngine::similar_query_text(&none, Some(&text), "/f").unwrap().len(), 512);
}

#[test]
fn every_estimated_chunk_gives_every_line() {
    let content: String = (1..=25).map(|i| format!("line{i}\n")).collect();
    let all: Vec<String> = (1..=25).map(|i| format!("line{i}")).collect();
    assert_eq!(SearchEngine::select_line_chunks(&content, Some((1, 9))).unwrap(), all.join("\n"));
    assert!(SearchEngine::line_range_is_readable(&content, 1, 9));
    assert!(!SearchEngine::line_range_is_readable("", 1, 1));
}
