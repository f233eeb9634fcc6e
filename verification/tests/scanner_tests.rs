use slideshow::ignore::IgnoreFilter;
use slideshow::scanner::{FileMetadata, ImageScanner, diff_against_previous};

fn plain_scanner() -> ImageScanner {
    ImageScanner::new(IgnoreFilter::from_content(""))
}

#[test]
fn test_is_image_file() {
    let scanner = plain_scanner();

    assert!(scanner.is_image_file("test.jpg"));
    assert!(scanner.is_image_file("test.JPG"));
    assert!(scanner.is_image_file("test.png"));
    assert!(scanner.is_image_file("test.webp"));
    assert!(!scanner.is_image_file("test.txt"));
    assert!(!scanner.is_image_file("test"));
}

#[test]
fn test_hidden_and_odd_names() {
    let scanner = plain_scanner();
    // a leading dot opens a hidden file name, not an extension
    assert!(!scanner.is_image_file(".jpg"));
    assert!(!scanner.is_image_file("dir.png/file"));
    assert!(scanner.is_image_file("archive.tar.gif"));
    assert!(scanner.is_image_file("/photos/2023/img.TIFF"));
}

#[test]
fn test_scanner_accepts_honors_rules() {
    let scanner = ImageScanner::new(IgnoreFilter::from_content("private\n*.tmp\n"));
    assert!(scanner.accepts("/photos/keep.jpg"));
    assert!(!scanner.accepts("/photos/private/hide.jpg"));
    assert!(!scanner.accepts("/photos/notes.txt"));
}

fn file(path: &str, mtime: i64, size: i64) -> FileMetadata {
    FileMetadata { path: path.to_string(), modified_time: mtime, file_size: size }
}

#[test]
fn test_diff_classifies_files() {
    let previous = vec![
        ("/p/a.jpg".to_string(), 1i64, 10i64),
        ("/p/b.jpg".to_string(), 2i64, 20i64),
        ("/p/c.jpg".to_string(), 3i64, 30i64),
    ];
    let files = vec![
        file("/p/a.jpg", 1, 10),  // unchanged
        file("/p/b.jpg", 5, 21),  // modified: replaced whole, counts as new
        file("/p/d.jpg", 7, 40),  // newly observed
    ];
    let diff = diff_against_previous(files, previous, 12);

    assert_eq!(diff.new_files, vec!["/p/b.jpg", "/p/d.jpg"]);
    assert_eq!(diff.deleted_files, vec!["/p/c.jpg"]);
    assert_eq!(diff.unchanged_count, 1);
    assert_eq!(diff.total_count, 3);
    assert_eq!(diff.new_count, 2);
    assert_eq!(diff.deleted_count, 1);
    assert_eq!(diff.duration_ms, 12);

    // added and removed never share a path, and added plus unchanged
    // cover the observed files
    for added in &diff.new_files {
        assert!(!diff.deleted_files.contains(added));
    }
    assert_eq!(diff.new_count + diff.unchanged_count, diff.total_count);
}

#[test]
fn test_diff_first_scan_adds_everything() {
    let files = vec![file("/p/a.jpg", 1, 10), file("/p/b.jpg", 2, 20)];
    let diff = diff_against_previous(files, vec![], 0);
    assert_eq!(diff.new_files, vec!["/p/a.jpg", "/p/b.jpg"]);
    assert!(diff.deleted_files.is_empty());
    assert_eq!(diff.unchanged_count, 0);
}

#[test]
fn test_diff_empty_walk_removes_everything() {
    let previous = vec![
        ("/p/a.jpg".to_string(), 1i64, 10i64),
        ("/p/b.jpg".to_string(), 2i64, 20i64),
    ];
    let diff = diff_against_previous(vec![], previous, 0);
    assert!(diff.new_files.is_empty());
    assert_eq!(diff.deleted_files, vec!["/p/a.jpg", "/p/b.jpg"]);
    assert_eq!(diff.unchanged_count, 0);
    assert_eq!(diff.total_count, 0);
}

#[test]
fn test_scan_progress_summary() {
    let diff = diff_against_previous(vec![file("/p/a.jpg", 1, 10)], vec![], 99);
    let progress = diff.progress();
    assert_eq!(progress.total_files, 1);
    assert_eq!(progress.new_files, 1);
    assert_eq!(progress.deleted_files, 0);
    assert_eq!(progress.duration_ms, 99);
}
