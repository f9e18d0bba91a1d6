use lib::sliver_tree::{TreeSliver, TreeSliverController, TreeSliverNode, TreeSliverStateMixin};

/// A tree:  1 -+- 2 -+- 4
///             |     +- 5
///             +- 3
///          6 (root, leaf)
fn tree() -> TreeSliver {
    TreeSliver::new(
        vec![
            TreeSliverNode::new(1, "one", vec![2, 3], false),
            TreeSliverNode::new(2, "two", vec![4, 5], false),
            TreeSliverNode::leaf(3, "three"),
            TreeSliverNode::leaf(4, "four"),
            TreeSliverNode::leaf(5, "five"),
            TreeSliverNode::leaf(6, "six"),
        ],
        vec![1, 6],
    )
}

#[test]
fn a_leaf_cannot_be_expanded_however_it_was_asked() {
    let leaf = TreeSliverNode::new(1, "one", Vec::new(), true);
    assert!(!leaf.is_expanded());

    let parent = TreeSliverNode::new(1, "one", vec![2], true);
    assert!(parent.is_expanded());
}

#[test]
fn one_controller_cannot_drive_two_trees() {
    let mut controller = TreeSliverController::new();
    assert!(controller.attach().is_ok());
    assert!(controller.attach().is_err());

    controller.detach();
    assert!(controller.attach().is_ok());
}

#[test]
fn a_fresh_node_says_it_has_not_been_placed_yet() {
    let leaf = TreeSliverNode::leaf(4, "four");
    assert_eq!(leaf.depth(), None);
    assert_eq!(leaf.parent(), None);
    assert_eq!(leaf.describe(), "TreeSliverNode: four, depth: null, leaf");
    let parent = TreeSliverNode::new(1, "one", vec![2, 3], false);
    assert_eq!(parent.describe(), "TreeSliverNode: one, depth: null, parent, expanded: false");
}

#[test]
fn a_node_describes_itself_by_which_of_the_three_kinds_it_is() {
    let mut tree = tree();
    tree.unpack_active_nodes();
    assert_eq!(
        tree.node(1).unwrap().describe(),
        "TreeSliverNode: one, depth: root, parent, expanded: false"
    );
    assert_eq!(tree.node(6).unwrap().describe(), "TreeSliverNode: six, depth: root, leaf");
}

#[test]
fn a_collapsed_tree_is_only_its_roots() {
    let tree = tree();
    assert_eq!(tree.active_nodes(), &[1, 6]);
}

#[test]
fn expanding_puts_the_children_in_row_order_beneath_their_parent() {
    let mut tree = tree();
    tree.toggle_node(1);
    assert_eq!(tree.active_nodes(), &[1, 2, 3, 6]);

    tree.toggle_node(2);
    assert_eq!(
        tree.active_nodes(),
        &[1, 2, 4, 5, 3, 6],
        "depth first, so 2's children come before 3"
    );
}

#[test]
fn depth_and_parent_are_derived_by_the_walk_rather_than_stored() {
    let mut tree = tree();
    tree.toggle_node(1);
    tree.toggle_node(2);

    assert_eq!(tree.node(1).unwrap().depth(), Some(0));
    assert_eq!(tree.node(2).unwrap().depth(), Some(1));
    assert_eq!(tree.node(4).unwrap().depth(), Some(2));
    assert_eq!(tree.node(4).unwrap().parent(), Some(2));
    assert_eq!(tree.node(1).unwrap().parent(), None);
}

#[test]
fn collapsing_a_parent_takes_every_descendant_out_of_the_list() {
    let mut tree = tree();
    tree.toggle_node(1);
    tree.toggle_node(2);
    assert_eq!(tree.active_nodes().len(), 6);

    tree.toggle_node(1);
    assert_eq!(tree.active_nodes(), &[1, 6]);
    assert!(tree.is_expanded(2), "though 2 remembers it was expanded, for when 1 opens again");

    tree.toggle_node(1);
    assert_eq!(tree.active_nodes(), &[1, 2, 4, 5, 3, 6], "and it did");
}

#[test]
fn a_collapsing_nodes_children_stay_in_the_list_while_it_animates() {
    let mut tree = tree();
    tree.animation_disabled = false;
    tree.toggle_node(1);
    assert_eq!(tree.active_nodes(), &[1, 2, 3, 6]);

    tree.toggle_node(1);
    assert!(tree.is_animating(1));
    assert!(!tree.is_expanded(1), "the flag flipped at once");
    assert_eq!(tree.active_nodes(), &[1, 2, 3, 6], "but the children are still there to animate out");

    tree.finish_toggle_animation(1);
    assert_eq!(tree.active_nodes(), &[1, 6]);
}

#[test]
fn an_expanding_nodes_children_appear_at_once_so_there_is_something_to_animate_in() {
    let mut tree = tree();
    tree.animation_disabled = false;
    tree.toggle_node(1);
    assert!(tree.is_animating(1));
    assert_eq!(tree.active_nodes(), &[1, 2, 3, 6]);

    tree.finish_toggle_animation(1);
    assert_eq!(tree.active_nodes(), &[1, 2, 3, 6], "and finishing changes nothing");
}

#[test]
fn a_zero_duration_is_no_animation_rather_than_a_very_short_one() {
    let mut tree = tree();
    tree.animation_disabled = true;
    tree.toggle_node(1);
    assert!(!tree.is_animating(1));
    assert_eq!(tree.active_nodes(), &[1, 2, 3, 6]);

    tree.toggle_node(1);
    assert_eq!(tree.active_nodes(), &[1, 6], "gone immediately");
}

#[test]
fn toggling_a_leaf_does_nothing_at_all() {
    let mut tree = tree();
    tree.toggle_node(6);
    assert!(tree.toggles().is_empty());
    assert_eq!(tree.active_nodes(), &[1, 6]);
}

#[test]
fn the_animating_row_range_is_recomputed_rather_than_recorded() {
    let mut tree = tree();
    tree.animation_disabled = false;
    tree.toggle_node(1);
    assert_eq!(tree.animation_range(1), Some((1, 2)), "rows 1..2");

    tree.toggle_node(2);
    assert_eq!(tree.animation_range(1), Some((1, 2)), "1's children are still at 1 and 2");
    assert_eq!(tree.animation_range(2), Some((2, 3)), "and 2's are below its own row");
}

#[test]
fn a_leaf_has_no_animating_range() {
    let tree = tree();
    assert_eq!(tree.animation_range(6), None);
}

#[test]
fn expanding_everything_reaches_nodes_nobody_can_see() {
    let mut tree = tree();
    tree.expand_all();
    assert_eq!(tree.active_nodes(), &[1, 2, 4, 5, 3, 6]);
    assert!(tree.is_expanded(1) && tree.is_expanded(2));
}

#[test]
fn a_hidden_node_has_its_flag_set_rather_than_being_toggled() {
    let mut tree = tree();
    tree.expand_all();
    assert_eq!(
        tree.toggles(),
        &[1],
        "only the one active node was toggled; 2 was hidden and set directly"
    );
}

#[test]
fn collapsing_everything_leaves_only_the_roots() {
    let mut tree = tree();
    tree.expand_all();
    tree.collapse_all();
    assert_eq!(tree.active_nodes(), &[1, 6]);
    assert!(!tree.is_expanded(1) && !tree.is_expanded(2));
}

#[test]
fn the_deferred_toggles_are_collected_deepest_first_and_run_shallowest_first() {
    let mut tree = tree();
    tree.animation_disabled = false;
    tree.expand_all();
    let before = tree.toggles().len();

    tree.collapse_all();
    let order = &tree.toggles()[before..];
    assert_eq!(order, &[1, 2], "shallowest first, after the reverse");
    assert!(
        tree.is_animating(1) && tree.is_animating(2),
        "and both are on their way out together"
    );
}

#[test]
fn expanding_an_already_expanded_tree_changes_nothing() {
    let mut tree = tree();
    tree.expand_all();
    let toggles = tree.toggles().len();
    tree.expand_all();
    assert_eq!(tree.toggles().len(), toggles);
}

#[test]
fn each_level_sits_one_step_deeper() {
    let mut tree = tree();
    tree.expand_all();
    assert_eq!(tree.depth_for(1), 0);
    assert_eq!(tree.depth_for(2), 1);
    assert_eq!(tree.depth_for(4), 2);
    assert_eq!(tree.depth_for(99), 0, "a node the tree does not hold sits at the left edge");
}

#[test]
fn active_is_not_the_same_question_as_visible() {
    let mut tree = tree();
    assert!(!tree.is_active(2), "inside a collapsed parent");

    tree.toggle_node(1);
    assert!(tree.is_active(2));
}

#[test]
fn a_node_with_no_row_has_no_row_index() {
    let mut tree = tree();
    assert_eq!(tree.get_active_index_for(2), None);

    tree.toggle_node(1);
    assert_eq!(tree.get_active_index_for(2), Some(1));
    assert_eq!(tree.get_active_index_for(6), Some(3));
}

#[test]
fn finding_a_node_searches_the_whole_tree_and_not_just_the_visible_rows() {
    let tree = tree();
    assert_eq!(tree.get_node_for("five"), Some(5));
    assert!(!tree.is_active(5));
    assert_eq!(tree.get_node_for("nothing"), None);
}

#[test]
fn expand_node_is_an_end_state_and_not_a_toggle() {
    let mut tree = tree();
    let mut controller = TreeSliverController::new();
    controller.attach().unwrap();

    controller.expand_node(&mut tree, 1);
    assert!(controller.is_expanded(&tree, 1));

    controller.expand_node(&mut tree, 1);
    assert!(controller.is_expanded(&tree, 1), "still expanded");
    assert_eq!(tree.toggles().len(), 1, "and it did not toggle twice");
}

#[test]
fn collapse_node_is_the_same_the_other_way() {
    let mut tree = tree();
    let mut controller = TreeSliverController::new();
    controller.attach().unwrap();

    controller.collapse_node(&mut tree, 1);
    assert_eq!(tree.toggles().len(), 0, "already collapsed");

    controller.expand_node(&mut tree, 1);
    controller.collapse_node(&mut tree, 1);
    assert!(!controller.is_expanded(&tree, 1));
}

#[test]
fn a_later_node_with_the_same_id_replaces_an_earlier_one() {
    let tree = TreeSliver::new(
        vec![TreeSliverNode::leaf(1, "first"), TreeSliverNode::leaf(1, "second")],
        vec![1],
    );
    assert_eq!(tree.node(1).unwrap().content, "second");
    assert_eq!(tree.get_node_for("first"), None);
}

#[test]
fn a_chain_that_leads_back_to_itself_ends_the_walk_instead_of_looping() {
    let tree = TreeSliver::new(
        vec![TreeSliverNode::new(1, "one", vec![2], true), TreeSliverNode::new(2, "two", vec![1], true)],
        vec![1],
    );
    assert_eq!(tree.active_nodes(), &[1, 2, 1], "one level for each node the tree holds");
    assert_eq!(tree.get_node_for("nothing"), None);
}

#[test]
fn a_default_tree_is_empty_and_animates() {
    let tree = TreeSliver::default();
    assert!(tree.active_nodes().is_empty());
    assert!(!tree.animation_disabled);
}
