use lib::sliver_headers::{FloatingHeaderSnapMode, PersistentHeaderVariant, PinnedHeaderSliver, SliverPersistentHeader};

#[test]
fn pinned_and_floating_are_two_questions_and_so_there_are_four_answers() {
    assert_eq!(SliverPersistentHeader::with_flags(false, false).variant(), PersistentHeaderVariant::Scrolling);
    assert_eq!(SliverPersistentHeader::with_flags(true, false).variant(), PersistentHeaderVariant::Pinned);
    assert_eq!(SliverPersistentHeader::with_flags(false, true).variant(), PersistentHeaderVariant::Floating);
    assert_eq!(SliverPersistentHeader::with_flags(true, true).variant(), PersistentHeaderVariant::FloatingPinned);
    assert_eq!(
        SliverPersistentHeader::new().variant(),
        PersistentHeaderVariant::Scrolling,
        "and doing neither is the default"
    );
}

#[test]
fn snapping_is_ignored_unless_the_header_floats() {
    assert!(SliverPersistentHeader::with_flags(true, true).honours_snap_configuration());
    assert!(SliverPersistentHeader::with_flags(false, true).honours_snap_configuration());
    assert!(!SliverPersistentHeader::with_flags(true, false).honours_snap_configuration());
}

#[test]
fn a_floating_header_slides_in_over_the_content_by_default() {
    assert_eq!(FloatingHeaderSnapMode::default(), FloatingHeaderSnapMode::Overlay);
    assert_eq!(PinnedHeaderSliver::new(), PinnedHeaderSliver);
}
