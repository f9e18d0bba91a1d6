use lib::sliver_fill::{FillRemainingKind, SliverFillRemaining};

#[test]
fn two_booleans_give_three_render_objects_and_not_four() {
    assert_eq!(SliverFillRemaining::new().kind(), FillRemainingKind::WithScrollable);
    assert_eq!(
        SliverFillRemaining::new().filling_overscroll().kind(),
        FillRemainingKind::WithScrollable,
        "asking for it changes nothing while the body scrolls"
    );
    assert_eq!(SliverFillRemaining::new().without_scroll_body().kind(), FillRemainingKind::WithoutScrollable);
    assert_eq!(
        SliverFillRemaining::new().without_scroll_body().filling_overscroll().kind(),
        FillRemainingKind::WithoutScrollableAndFillingOverscroll
    );
}
