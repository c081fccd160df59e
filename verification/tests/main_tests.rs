use directory_indexer::get_log_level;

#[test]
fn test_get_log_level() {
    assert_eq!(get_log_level(true), "debug");
    assert_eq!(get_log_level(false), "info");
}
