use vstd::prelude::*;

verus! {

/// Collection-wide viewing statistics, as the persistent store reports
/// them: how many images are known and how many have been shown.
pub struct Stats {
    pub total_images: i32,
    pub displayed_images: i32,
}

} // verus!
