use crate::text::{extension_spec, extension_range, lower_seq, range_lower_eq};
use vstd::prelude::*;

verus! {

/// Width of the resolution cap: wider images get a capped artifact.
pub const MAX_WIDTH_4K: u32 = 3840;

/// Height of the resolution cap: taller images get a capped artifact.
pub const MAX_HEIGHT_4K: u32 = 2160;

/// The recognized video container extensions, in lower case.
pub open spec fn is_video_ext(e: Seq<char>) -> bool {
    ||| e == "mp4"@
    ||| e == "mov"@
    ||| e == "avi"@
    ||| e == "mkv"@
    ||| e == "webm"@
    ||| e == "flv"@
    ||| e == "wmv"@
    ||| e == "m4v"@
}

/// Whether the path names a video container: its extension, taken to
/// lower case, is a recognized video extension.
pub open spec fn is_video_path(p: Seq<char>) -> bool {
    match extension_spec(p) {
        Some(e) => is_video_ext(lower_seq(e)),
        None => false,
    }
}

/// Whether the path names a video container; videos pass through the
/// cache untouched and are never optimized.
pub fn is_video_file(path: &str) -> (r: bool)
    ensures
        r == is_video_path(path@),
{
    match extension_range(path) {
        None => false,
        Some(range) => {
            let (a, b) = range;
            range_lower_eq(path, a, b, "mp4") || range_lower_eq(path, a, b, "mov")
                || range_lower_eq(path, a, b, "avi") || range_lower_eq(path, a, b, "mkv")
                || range_lower_eq(path, a, b, "webm") || range_lower_eq(path, a, b, "flv")
                || range_lower_eq(path, a, b, "wmv") || range_lower_eq(path, a, b, "m4v")
        },
    }
}

/// Whether an image with these reported dimensions is eligible for a
/// capped-resolution artifact: only a non-video strictly over the cap in
/// either direction. At exactly the cap nothing is produced.
pub open spec fn needs_optimization_spec(width: u32, height: u32, is_video: bool) -> bool {
    !is_video && (width > MAX_WIDTH_4K || height > MAX_HEIGHT_4K)
}

/// Whether an image with these reported dimensions is eligible for a
/// capped-resolution artifact.
pub fn needs_optimization(width: u32, height: u32, is_video: bool) -> (r: bool)
    ensures
        r == needs_optimization_spec(width, height, is_video),
{
    !is_video && (width > MAX_WIDTH_4K || height > MAX_HEIGHT_4K)
}

/// The lower-case hexadecimal MD5 digest of the text's bytes.
pub uninterp spec fn md5_hex(s: Seq<char>) -> Seq<char>;

/// Relies on md5::compute and the md5 crate's LowerHex formatting of a
/// digest: the result is a function of the input bytes alone, two
/// lower-case hex digits per digest byte.
#[verifier::external_body]
fn md5_hex_string(path: &str) -> (r: String)
    ensures
        r@ == md5_hex(path@),
{
    format!("{:x}", md5::compute(path.as_bytes()))
}

/// The artifact file name a source path is cached under.
pub open spec fn artifact_name_spec(p: Seq<char>) -> Seq<char> {
    md5_hex(p) + ".jpg"@
}

/// The cache key of a source path: the digest of the path text itself —
/// not of the file's content — with the artifact extension appended. A
/// file edited in place keeps its key; the cache lives only for the
/// session, so staleness ends with it.
pub fn artifact_name(path: &str) -> (r: String)
    ensures
        r@ == artifact_name_spec(path@),
{
    let h = md5_hex_string(path);
    h.concat(".jpg")
}

/// Law: the cache key is a function of the source path alone, so
/// resolving the same path twice names the same artifact.
pub proof fn lemma_cache_key_idempotent(p: Seq<char>, q: Seq<char>)
    requires
        p == q,
    ensures
        artifact_name_spec(p) == artifact_name_spec(q),
{
}

/// How a display request is served.
pub enum CacheResolution {
    /// The original file is shown: no artifact is called for.
    Original,
    /// The already-produced artifact is shown.
    CachedArtifact,
    /// The original is shown at once while the artifact is produced in
    /// the background.
    ScheduleOptimization,
}

/// Decide how to serve an image from its dimensions, whether it is a
/// video, and whether its artifact already exists: anything not oversized
/// keeps the original; an existing artifact is served; a missing one is
/// scheduled for background production while the original shows.
pub fn resolve_display_source(width: u32, height: u32, is_video: bool, artifact_exists: bool) -> (r:
    CacheResolution)
    ensures
        !needs_optimization_spec(width, height, is_video) ==> r is Original,
        needs_optimization_spec(width, height, is_video) && artifact_exists ==> r
            is CachedArtifact,
        needs_optimization_spec(width, height, is_video) && !artifact_exists ==> r
            is ScheduleOptimization,
{
    if !needs_optimization(width, height, is_video) {
        CacheResolution::Original
    } else if artifact_exists {
        CacheResolution::CachedArtifact
    } else {
        CacheResolution::ScheduleOptimization
    }
}

/// Whether a producer — foreground or prefetch — may write the artifact:
/// only for an eligible image whose artifact is not on disk yet. The
/// existence check happens before any write, so the first writer wins and
/// nothing overwrites an existing artifact.
pub fn should_write_artifact(width: u32, height: u32, is_video: bool, artifact_exists: bool) -> (r:
    bool)
    ensures
        r == (needs_optimization_spec(width, height, is_video) && !artifact_exists),
{
    needs_optimization(width, height, is_video) && !artifact_exists
}

} // verus!
