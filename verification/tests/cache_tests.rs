use slideshow::cache::{
    CacheResolution, artifact_name, is_video_file, needs_optimization, resolve_display_source,
    should_write_artifact,
};

#[test]
fn test_image_dimensions() {
    // no sample image ships with the tests; dimension-dependent behavior
    // is exercised through the threshold and resolution checks below
}

#[test]
fn test_optimization_threshold() {
    // the boundary is exclusive: width > 3840 or height > 2160
    assert!(needs_optimization(4000, 3000, false));
    assert!(!needs_optimization(3840, 2160, false));
    assert!(needs_optimization(3841, 2160, false));
    assert!(needs_optimization(3840, 2161, false));
    assert!(!needs_optimization(1920, 1080, false));
    // videos report 0x0 and are never optimized, whatever is claimed
    assert!(!needs_optimization(4000, 3000, true));
}

#[test]
fn test_video_extension() {
    assert!(is_video_file("/media/clip.mp4"));
    assert!(is_video_file("/media/CLIP.MOV"));
    assert!(is_video_file("clip.webm"));
    assert!(!is_video_file("/media/photo.jpg"));
    assert!(!is_video_file("clip"));
}

#[test]
fn test_cache_key_idempotent() {
    let first = artifact_name("/photos/large.jpg");
    let second = artifact_name("/photos/large.jpg");
    assert_eq!(first, second);
    assert_ne!(artifact_name("/photos/other.jpg"), first);
}

#[test]
fn test_cache_key_value() {
    // the key is the MD5 digest of the path text with the artifact
    // extension; the digest of the empty text is well known
    assert_eq!(artifact_name(""), "d41d8cd98f00b204e9800998ecf8427e.jpg");
    assert_eq!(artifact_name("abc"), "900150983cd24fb0d6963f7d28e17f72.jpg");
}

#[test]
fn test_resolution_decision() {
    assert!(matches!(
        resolve_display_source(1920, 1080, false, false),
        CacheResolution::Original
    ));
    assert!(matches!(
        resolve_display_source(4000, 3000, true, false),
        CacheResolution::Original
    ));
    assert!(matches!(
        resolve_display_source(4000, 3000, false, true),
        CacheResolution::CachedArtifact
    ));
    assert!(matches!(
        resolve_display_source(4000, 3000, false, false),
        CacheResolution::ScheduleOptimization
    ));
}

#[test]
fn test_single_artifact_writer() {
    // two producers race for the same key; each checks existence right
    // before writing, so exactly one write happens
    let mut exists = false;
    let mut writes: usize = 0;
    let mut round: usize = 0;
    while round < 2 {
        if should_write_artifact(4000, 3000, false, exists) {
            writes += 1;
            exists = true;
        }
        round += 1;
    }
    assert_eq!(writes, 1);
}

#[test]
fn test_no_write_for_small_or_video() {
    assert!(!should_write_artifact(1920, 1080, false, false));
    assert!(!should_write_artifact(4000, 3000, true, false));
    assert!(!should_write_artifact(4000, 3000, false, true));
}
