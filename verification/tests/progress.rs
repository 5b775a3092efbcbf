//! What progress reporting shows.

use awsdiag::common::progress::{thousands, ProgressMode};

#[test]
fn thousands_separates_groups_of_three() {
    assert_eq!(thousands(0), "0");
    assert_eq!(thousands(999), "999");
    assert_eq!(thousands(1_000), "1,000");
    assert_eq!(thousands(12_400), "12,400");
    assert_eq!(thousands(1_234_567), "1,234,567");
}

#[test]
fn progress_is_automatic_by_default() {
    assert_eq!(ProgressMode::default(), ProgressMode::Auto);
}
