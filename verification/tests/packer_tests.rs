use packer::BuildError;
use packer::FileList;
use packer::cache::DiskCache;
use packer::cache::DynamicAssets;
use packer::config::ConfigItem;
use packer::config::resolve_config;
use packer::discover::WalkEntry;
use packer::discover::discover;
use packer::discover::plan_embedding;
use packer::embed::StaticAssets;
use packer::ignore::IgnoreFilter;

fn file(path: &str) -> WalkEntry {
    WalkEntry::File { path: path.to_string(), present: true }
}

fn dir(path: &str) -> WalkEntry {
    WalkEntry::Dir { path: path.to_string() }
}

#[test]
fn scenario_directory_with_ignored_binary() {
    let mut filter = IgnoreFilter::new();
    filter.add_pattern("*.bin".to_string());
    let entries = vec![dir("."), file("a.txt"), dir("sub"), file("sub/b.bin")];
    let files = discover(&entries, &filter).unwrap();
    assert_eq!(files.paths, vec!["a.txt".to_string()]);

    let contents = vec![Some(b"hello".to_vec())];
    let table = StaticAssets::assemble(files, contents).unwrap();
    assert_eq!(table.list(), vec!["a.txt".to_string()]);
    assert_eq!(table.get("a.txt"), Some(b"hello".to_vec()));
    assert_eq!(table.get("sub/b.bin"), None);
}

#[test]
fn absent_key_yields_none_not_an_error() {
    let files = FileList { paths: vec!["a.txt".to_string()] };
    let table = StaticAssets::assemble(files, vec![Some(b"hello".to_vec())]).unwrap();
    assert_eq!(table.get("nonexistent.txt"), None);
    assert_eq!(table.get_str("nonexistent.txt"), None);

    let mut dynamic = DynamicAssets::new(FileList { paths: vec!["a.txt".to_string()] });
    assert_eq!(dynamic.get_from_read(None), None);
    assert_eq!(dynamic.get_str_from_read(None), None);
}

#[test]
fn invalid_utf8_bytes_are_fetched_raw_but_not_as_text() {
    let raw = vec![0xFFu8, 0xFE, 0x80];
    let files = FileList { paths: vec!["blob.bin".to_string()] };
    let table = StaticAssets::assemble(files, vec![Some(raw.clone())]).unwrap();
    assert_eq!(table.get("blob.bin"), Some(raw.clone()));
    assert_eq!(table.get_str("blob.bin"), None);

    let mut dynamic = DynamicAssets::new(FileList { paths: vec!["blob.bin".to_string()] });
    assert_eq!(dynamic.get_from_read(Some(raw.clone())), Some(raw));
    assert_eq!(dynamic.get_str_from_read(Some(vec![0xFFu8, 0xFE, 0x80])), None);
}

#[test]
fn valid_utf8_bytes_are_fetched_as_text() {
    let files = FileList { paths: vec!["a.txt".to_string(), "empty.txt".to_string()] };
    let contents = vec![Some(b"hello".to_vec()), Some(Vec::new())];
    let table = StaticAssets::assemble(files, contents).unwrap();
    assert_eq!(table.get_str("a.txt"), Some("hello".to_string()));
    assert_eq!(table.get_str("empty.txt"), Some(String::new()));

    let mut dynamic = DynamicAssets::new(FileList { paths: vec!["a.txt".to_string()] });
    assert_eq!(dynamic.get_str_from_read(Some(b"hello".to_vec())), Some("hello".to_string()));
}

#[test]
fn two_sources_fail_resolution() {
    let items = vec![
        ConfigItem::Source("static".to_string()),
        ConfigItem::Source("other".to_string()),
    ];
    assert!(matches!(resolve_config(&items), Err(BuildError::MultipleSources)));
    assert!(matches!(plan_embedding(&items), Err(BuildError::MultipleSources)));
}

#[test]
fn no_source_fails_resolution() {
    let items = vec![ConfigItem::Ignore("*.bin".to_string())];
    assert!(matches!(resolve_config(&items), Err(BuildError::MissingSource)));
    assert!(matches!(resolve_config(&Vec::new()), Err(BuildError::MissingSource)));
}

#[test]
fn resolution_keeps_source_and_patterns_in_order() {
    let items = vec![
        ConfigItem::Ignore("*.bin".to_string()),
        ConfigItem::Source("assets".to_string()),
        ConfigItem::Ignore("*.tmp".to_string()),
    ];
    let config = resolve_config(&items).unwrap();
    assert_eq!(config.source, "assets".to_string());
    assert_eq!(config.filter.patterns, vec!["*.bin".to_string(), "*.tmp".to_string()]);
}

#[test]
fn listing_twice_yields_equal_independent_lists() {
    let files = FileList { paths: vec!["a.txt".to_string(), "b.txt".to_string()] };
    let contents = vec![Some(b"a".to_vec()), Some(b"b".to_vec())];
    let table = StaticAssets::assemble(files, contents).unwrap();
    let first = table.list();
    let second = table.list();
    assert_eq!(first, second);

    let dynamic = DynamicAssets::new(FileList { paths: vec!["a.txt".to_string()] });
    assert_eq!(dynamic.list(), dynamic.list());
}

#[test]
fn promoting_equal_content_twice_stores_it_once() {
    let mut cache = DiskCache::new();
    let first = cache.promote(b"same bytes".to_vec());
    let second = cache.promote(b"same bytes".to_vec());
    assert_eq!(first, second);
    assert_eq!(cache.len(), 1);
    assert_eq!(cache.content(first), b"same bytes".to_vec());

    let third = cache.promote(b"other bytes".to_vec());
    assert_ne!(first, third);
    assert_eq!(cache.len(), 2);
}

#[test]
fn repeated_dynamic_reads_observe_the_same_cached_content() {
    let mut dynamic = DynamicAssets::new(FileList { paths: vec!["a.txt".to_string()] });
    let first = dynamic.get_from_read(Some(b"fresh content".to_vec()));
    let second = dynamic.get_from_read(Some(b"fresh content".to_vec()));
    assert_eq!(first, Some(b"fresh content".to_vec()));
    assert_eq!(first, second);
}

#[test]
fn both_modes_agree_on_unmodified_content() {
    let raw = vec![1u8, 2, 3, 0xFF];
    let files = FileList { paths: vec!["blob".to_string()] };
    let table = StaticAssets::assemble(files, vec![Some(raw.clone())]).unwrap();
    let mut dynamic = DynamicAssets::new(FileList { paths: vec!["blob".to_string()] });
    assert_eq!(table.get("blob"), dynamic.get_from_read(Some(raw)));
}

#[test]
fn duplicate_keys_answer_with_the_first_entry() {
    let files = FileList { paths: vec!["a.txt".to_string(), "a.txt".to_string()] };
    let contents = vec![Some(b"first".to_vec()), Some(b"second".to_vec())];
    let table = StaticAssets::assemble(files, contents).unwrap();
    assert_eq!(table.get("a.txt"), Some(b"first".to_vec()));
    assert_eq!(table.list().len(), 2);
}

#[test]
fn discovery_preserves_traversal_order() {
    let entries = vec![file("b.txt"), dir("sub"), file("sub/a.txt"), file("a.txt")];
    let filter = IgnoreFilter::new();
    let files = discover(&entries, &filter).unwrap();
    assert_eq!(
        files.paths,
        vec!["b.txt".to_string(), "sub/a.txt".to_string(), "a.txt".to_string()]
    );
}

#[test]
fn traversal_failure_is_fatal() {
    let entries = vec![
        file("a.txt"),
        WalkEntry::Failure { message: "broken link".to_string() },
        file("b.txt"),
    ];
    let filter = IgnoreFilter::new();
    match discover(&entries, &filter) {
        Err(BuildError::Walk(message)) => assert_eq!(message, "broken link".to_string()),
        other => panic!("expected a walk error, got {:?}", other.is_ok()),
    }
}

#[test]
fn vanished_file_is_fatal() {
    let entries = vec![
        file("a.txt"),
        WalkEntry::File { path: "gone.txt".to_string(), present: false },
    ];
    let filter = IgnoreFilter::new();
    match discover(&entries, &filter) {
        Err(BuildError::Vanished(path)) => assert_eq!(path, "gone.txt".to_string()),
        other => panic!("expected a vanished-path error, got {:?}", other.is_ok()),
    }
}

#[test]
fn unreadable_content_is_fatal_to_assembly() {
    let files = FileList { paths: vec!["a.txt".to_string(), "b.txt".to_string()] };
    let contents = vec![Some(b"a".to_vec()), None];
    match StaticAssets::assemble(files, contents) {
        Err(BuildError::Unreadable(path)) => assert_eq!(path, "b.txt".to_string()),
        other => panic!("expected an unreadable-content error, got {:?}", other.is_ok()),
    }
}

#[test]
fn empty_filter_ignores_nothing() {
    let filter = IgnoreFilter::default();
    assert!(!filter.should_ignore("a.txt"));
    assert!(!filter.should_ignore(""));
}

#[test]
fn patterns_decide_what_is_ignored() {
    let mut filter = IgnoreFilter::new();
    filter.add_pattern("*.bin".to_string());
    filter.add_pattern("secret/*".to_string());
    assert!(filter.should_ignore("x.bin"));
    assert!(filter.should_ignore("sub/deep/x.bin"));
    assert!(filter.should_ignore("secret/key.txt"));
    assert!(!filter.should_ignore("x.txt"));
    assert!(!filter.should_ignore("binder.txt"));
}

#[test]
fn walking_a_real_directory_selects_its_files() {
    let items = vec![ConfigItem::Source("src".to_string())];
    let (config, files) = plan_embedding(&items).unwrap();
    assert_eq!(config.source, "src".to_string());
    assert!(files.paths.iter().any(|p| p.ends_with("lib.rs")));
    assert!(files.paths.iter().all(|p| p.starts_with("src")));
}

#[test]
fn walking_a_real_file_selects_just_that_file() {
    let items = vec![ConfigItem::Source("src/lib.rs".to_string())];
    let (_config, files) = plan_embedding(&items).unwrap();
    assert_eq!(files.paths, vec!["src/lib.rs".to_string()]);
}

#[test]
fn ignore_patterns_apply_to_a_real_walk() {
    let items = vec![
        ConfigItem::Source("src".to_string()),
        ConfigItem::Ignore("*.rs".to_string()),
    ];
    let (_config, files) = plan_embedding(&items).unwrap();
    assert_eq!(files.paths, Vec::<String>::new());
}

#[test]
fn missing_source_path_fails_the_walk() {
    let items = vec![ConfigItem::Source("no_such_path_anywhere".to_string())];
    assert!(matches!(plan_embedding(&items), Err(BuildError::Walk(_))));
}
