use directory_indexer::cli::args::CommonArgs;

#[test]
fn test_common_args_default_values() {
    let args = CommonArgs { verbose: false, config: None };
    assert!(!args.verbose);
    assert!(args.config.is_none());
}

#[test]
fn test_common_args_with_values() {
    let args = CommonArgs { verbose: true, config: Some("/path/to/config.toml".to_string()) };
    assert!(args.verbose);
    assert_eq!(args.config, Some("/path/to/config.toml".to_string()));
}

#[test]
fn test_common_args_debug_format() {
    let args = CommonArgs { verbose: true, config: Some("test.toml".to_string()) };
    let debug_output = format!("{args:?}");
    assert!(debug_output.contains("verbose: true"));
    assert!(debug_output.contains("test.toml"));
}
