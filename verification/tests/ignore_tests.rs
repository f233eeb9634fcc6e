use slideshow::ignore::{ExcludeKind, IgnoreFilter, exclusion_pattern};

#[test]
fn test_ignore_filter_basic() {
    let content = r#"
# コメント
*.tmp

# 特定のフォルダ
**/private/**
**/2023-05-15/**

# パターンマッチ
screenshot_*.png
"#;

    let filter = IgnoreFilter::from_content(content);
    assert!(filter.has_patterns());

    assert!(filter.is_ignored("/photos/test.tmp"));

    assert!(filter.is_ignored("/photos/private/image.jpg"));

    assert!(filter.is_ignored("/photos/2023-05-15/image.jpg"));

    assert!(filter.is_ignored("/photos/screenshot_001.png"));

    assert!(!filter.is_ignored("/photos/image.jpg"));
}

#[test]
fn test_empty_ignore_filter() {
    let content = r#"
# コメントのみ

"#;

    let filter = IgnoreFilter::from_content(content);
    assert!(!filter.has_patterns());
    assert!(!filter.is_ignored("/photos/image.jpg"));
}

#[test]
fn test_bare_folder_name_matches_component() {
    // a bare folder name excludes at any nesting depth, because every
    // path component is matched on its own
    let filter = IgnoreFilter::from_content("private\n");
    assert!(filter.has_patterns());
    assert!(filter.is_ignored("/photos/private/deep/nested/image.jpg"));
    assert!(filter.is_ignored("private"));
    assert!(!filter.is_ignored("/photos/public/image.jpg"));
}

#[test]
fn test_invalid_pattern_skipped() {
    // an unclosed character class is rejected by the glob engine and
    // skipped; the valid pattern still applies
    let filter = IgnoreFilter::from_content("[abc\n*.tmp\n");
    assert!(filter.has_patterns());
    assert!(filter.is_ignored("/photos/junk.tmp"));
    assert!(!filter.is_ignored("/photos/keep.jpg"));
}

#[test]
fn test_exclusion_pattern_date() {
    let pattern = exclusion_pattern(
        ExcludeKind::Date,
        "/photos/img.jpg",
        Some("2023:05:15 10:30:00"),
    );
    assert_eq!(pattern.unwrap(), "*2023-05-15*");

    let missing = exclusion_pattern(ExcludeKind::Date, "/photos/img.jpg", None);
    assert!(missing.is_err());
}

#[test]
fn test_exclusion_pattern_file_and_directory() {
    let by_file = exclusion_pattern(ExcludeKind::File, "/photos/img.jpg", None);
    assert_eq!(by_file.unwrap(), "/photos/img.jpg");

    let by_dir = exclusion_pattern(ExcludeKind::Directory, "/photos/2023/img.jpg", None);
    assert_eq!(by_dir.unwrap(), "/photos/2023/*");
}
