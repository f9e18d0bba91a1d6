use lib::slotted::{
    SlotError, SlottedChild, SlottedContainerRenderObjectMixin,
    SlottedMultiChildRenderObjectWidget, SlottedRenderObjectElement,
};

#[derive(Clone, Copy, Debug, PartialEq, Eq, Hash)]
enum Slot {
    Leading,
    Title,
    Trailing,
}

struct Tile {
    slots: Vec<Slot>,
    leading: Option<SlottedChild>,
    title: Option<SlottedChild>,
    trailing: Option<SlottedChild>,
}

impl Tile {
    fn new() -> Tile {
        Tile {
            slots: vec![Slot::Leading, Slot::Title, Slot::Trailing],
            leading: None,
            title: None,
            trailing: None,
        }
    }

    fn with(mut self, slot: Slot, child: Option<SlottedChild>) -> Tile {
        match slot {
            Slot::Leading => self.leading = child,
            Slot::Title => self.title = child,
            Slot::Trailing => self.trailing = child,
        }
        self
    }
}

impl SlottedMultiChildRenderObjectWidget<Slot> for Tile {
    fn slots(&self) -> Vec<Slot> {
        self.slots.clone()
    }

    fn child_for_slot(&self, slot: &Slot) -> Option<SlottedChild> {
        match slot {
            Slot::Leading => self.leading,
            Slot::Title => self.title,
            Slot::Trailing => self.trailing,
        }
    }
}

#[test]
fn an_unkeyed_child_is_matched_by_the_slot_it_is_in() {
    let mut element = SlottedRenderObjectElement::new();
    let first = Tile::new().with(Slot::Title, Some(SlottedChild::new(10)));
    element.update_children(&first).unwrap();
    let title = element.child_in_slot(&Slot::Title).unwrap();
    assert_eq!(element.created(), &[title.element]);

    let second = Tile::new().with(Slot::Title, Some(SlottedChild::new(11)));
    element.update_children(&second).unwrap();
    assert_eq!(
        element.child_in_slot(&Slot::Title).unwrap().element,
        title.element,
        "the same element updated to the new widget"
    );
    assert_eq!(element.child_in_slot(&Slot::Title).unwrap().widget, 11);
}

#[test]
fn a_keyed_child_keeps_its_state_when_it_moves_between_slots() {
    let mut element = SlottedRenderObjectElement::new();
    let first = Tile::new().with(Slot::Leading, Some(SlottedChild::keyed(10, 7)));
    element.update_children(&first).unwrap();
    let moved = element.child_in_slot(&Slot::Leading).unwrap().element;

    let second = Tile::new().with(Slot::Trailing, Some(SlottedChild::keyed(10, 7)));
    element.update_children(&second).unwrap();

    assert_eq!(element.child_in_slot(&Slot::Trailing).unwrap().element, moved, "carried across");
    assert!(element.child_in_slot(&Slot::Leading).is_none());
    assert!(element.reused().contains(&moved), "reused rather than rebuilt");
    assert!(!element.deactivated().contains(&moved));
}

#[test]
fn a_keyed_old_child_in_the_slot_is_not_handed_to_a_different_widget() {
    let mut element = SlottedRenderObjectElement::new();
    let first = Tile::new().with(Slot::Title, Some(SlottedChild::keyed(10, 7)));
    element.update_children(&first).unwrap();
    let keyed = element.child_in_slot(&Slot::Title).unwrap().element;

    let second = Tile::new().with(Slot::Title, Some(SlottedChild::new(11)));
    element.update_children(&second).unwrap();

    assert_ne!(element.child_in_slot(&Slot::Title).unwrap().element, keyed, "a fresh element");
    assert!(element.deactivated().contains(&keyed));
}

#[test]
fn two_keyed_children_can_swap_slots_and_both_survive() {
    let mut element = SlottedRenderObjectElement::new();
    let first = Tile::new()
        .with(Slot::Leading, Some(SlottedChild::keyed(10, 1)))
        .with(Slot::Trailing, Some(SlottedChild::keyed(20, 2)));
    element.update_children(&first).unwrap();
    let one = element.child_in_slot(&Slot::Leading).unwrap().element;
    let two = element.child_in_slot(&Slot::Trailing).unwrap().element;

    let swapped = Tile::new()
        .with(Slot::Leading, Some(SlottedChild::keyed(20, 2)))
        .with(Slot::Trailing, Some(SlottedChild::keyed(10, 1)));
    element.update_children(&swapped).unwrap();

    assert_eq!(element.child_in_slot(&Slot::Leading).unwrap().element, two);
    assert_eq!(element.child_in_slot(&Slot::Trailing).unwrap().element, one);
    assert!(element.deactivated().is_empty(), "neither was rebuilt");
}

#[test]
fn an_emptied_slot_deactivates_whatever_was_in_it() {
    let mut element = SlottedRenderObjectElement::new();
    let first = Tile::new().with(Slot::Leading, Some(SlottedChild::new(10)));
    element.update_children(&first).unwrap();
    let leading = element.child_in_slot(&Slot::Leading).unwrap().element;

    element.update_children(&Tile::new()).unwrap();
    assert!(element.child_in_slot(&Slot::Leading).is_none());
    assert!(element.deactivated().contains(&leading));
}

#[test]
fn an_empty_slot_is_the_ordinary_case_and_not_an_error() {
    let mut element = SlottedRenderObjectElement::new();
    let tile = Tile::new().with(Slot::Title, Some(SlottedChild::new(10)));
    assert!(element.update_children(&tile).is_ok());
    assert!(element.child_in_slot(&Slot::Leading).is_none());
    assert!(element.child_in_slot(&Slot::Title).is_some());
}

#[test]
fn children_are_visited_in_the_declared_slot_order() {
    let mut element = SlottedRenderObjectElement::new();
    let tile = Tile::new()
        .with(Slot::Leading, Some(SlottedChild::new(10)))
        .with(Slot::Trailing, Some(SlottedChild::new(30)));
    element.update_children(&tile).unwrap();

    let order = [Slot::Leading, Slot::Title, Slot::Trailing];
    let visited = element.visit_children(&order);
    assert_eq!(visited.len(), 2, "the empty slot contributes nothing");
    assert_eq!(visited[0], element.child_in_slot(&Slot::Leading).unwrap().element);
}

#[test]
fn a_widget_whose_slots_changed_is_refused() {
    let mut element = SlottedRenderObjectElement::new();
    element.update_children(&Tile::new()).unwrap();

    let mut fewer = Tile::new();
    fewer.slots = vec![Slot::Leading, Slot::Title];
    assert_eq!(element.update_children(&fewer), Err(SlotError::SlotsChanged));
}

#[test]
fn a_repeated_slot_is_refused() {
    let mut element = SlottedRenderObjectElement::new();
    let mut doubled = Tile::new();
    doubled.slots = vec![Slot::Title, Slot::Title];
    assert_eq!(element.update_children(&doubled), Err(SlotError::DuplicateSlot));
}

#[test]
fn two_children_sharing_one_key_is_reported() {
    let mut element = SlottedRenderObjectElement::new();
    let clashing = Tile::new()
        .with(Slot::Leading, Some(SlottedChild::keyed(10, 7)))
        .with(Slot::Trailing, Some(SlottedChild::keyed(20, 7)));
    assert_eq!(element.update_children(&clashing), Err(SlotError::DuplicateKey(7)));
}

#[test]
fn forgetting_a_child_takes_its_key_with_it() {
    let mut element = SlottedRenderObjectElement::new();
    let tile = Tile::new().with(Slot::Title, Some(SlottedChild::keyed(10, 7)));
    element.update_children(&tile).unwrap();
    element.forget_child(&Slot::Title);
    assert!(element.child_in_slot(&Slot::Title).is_none());

    let again = Tile::new().with(Slot::Leading, Some(SlottedChild::keyed(11, 7)));
    element.update_children(&again).unwrap();
    assert_eq!(element.created().len(), 2);
}

fn render() -> SlottedContainerRenderObjectMixin<Slot> {
    SlottedContainerRenderObjectMixin::new(vec![Slot::Leading, Slot::Title, Slot::Trailing])
}

#[test]
fn setting_a_slot_drops_the_old_child_before_adopting_the_new_one() {
    let mut object = render();
    object.set_child(Slot::Title, Some(10));
    assert_eq!(object.adopted(), &[10]);
    assert!(object.dropped().is_empty());

    object.set_child(Slot::Title, Some(11));
    assert_eq!(object.dropped(), &[10]);
    assert_eq!(object.adopted(), &[10, 11]);
    assert_eq!(object.child_for_slot(&Slot::Title), Some(11));
}

#[test]
fn clearing_a_slot_drops_without_adopting() {
    let mut object = render();
    object.set_child(Slot::Title, Some(10));
    object.set_child(Slot::Title, None);
    assert_eq!(object.dropped(), &[10]);
    assert_eq!(object.child_for_slot(&Slot::Title), None);
}

#[test]
fn a_move_only_clears_the_old_slot_if_it_still_holds_that_child() {
    let mut object = render();
    object.set_child(Slot::Leading, Some(10));
    object.set_child(Slot::Trailing, Some(20));

    object.set_child(Slot::Leading, Some(20));
    let dropped_before = object.dropped().len();
    object.move_child(10, Slot::Trailing, Slot::Leading);

    assert_eq!(object.child_for_slot(&Slot::Leading), Some(20), "untouched");
    assert_eq!(object.child_for_slot(&Slot::Trailing), Some(10));
    assert_eq!(
        object.dropped().len(),
        dropped_before + 1,
        "only the trailing slot's old occupant went"
    );
}

#[test]
fn an_ordinary_move_clears_where_it_came_from() {
    let mut object = render();
    object.set_child(Slot::Leading, Some(10));
    object.move_child(10, Slot::Trailing, Slot::Leading);
    assert_eq!(object.child_for_slot(&Slot::Leading), None);
    assert_eq!(object.child_for_slot(&Slot::Trailing), Some(10));
}

#[test]
fn the_children_come_back_in_slot_order_which_hit_testing_needs() {
    let mut object = render();
    object.set_child(Slot::Trailing, Some(30));
    object.set_child(Slot::Leading, Some(10));
    assert_eq!(object.children(), vec![10, 30]);
}

#[test]
fn each_child_is_named_by_its_slot_in_diagnostics() {
    let mut object = render();
    object.set_child(Slot::Leading, Some(10));
    assert_eq!(object.describe_children(), vec![("Leading".to_string(), 10)]);
}

#[test]
fn attaching_and_detaching_the_container_is_carried_to_its_children() {
    let mut object = render();
    assert!(!object.is_attached());
    object.attach();
    assert!(object.is_attached());
    object.detach();
    assert!(!object.is_attached());
}

#[test]
fn a_slot_is_named_by_its_debug_text() {
    assert_eq!(SlottedContainerRenderObjectMixin::<Slot>::debug_name_for_slot(&Slot::Trailing), "Trailing");
}

#[test]
fn every_element_after_a_rebuild_is_kept_or_fresh_and_every_old_one_is_accounted_for() {
    let mut element = SlottedRenderObjectElement::new();
    let first = Tile::new()
        .with(Slot::Leading, Some(SlottedChild::keyed(1, 7)))
        .with(Slot::Title, Some(SlottedChild::new(2)))
        .with(Slot::Trailing, Some(SlottedChild::keyed(3, 8)));
    element.update_children(&first).unwrap();
    let old: Vec<u64> = [Slot::Leading, Slot::Title, Slot::Trailing]
        .iter()
        .map(|s| element.child_in_slot(s).unwrap().element)
        .collect();
    assert_eq!(element.created(), &old[..]);

    // The keyed children swap, the title loses its child and a key is new.
    let second = Tile::new()
        .with(Slot::Leading, Some(SlottedChild::keyed(3, 8)))
        .with(Slot::Trailing, Some(SlottedChild::keyed(4, 9)));
    let reused_before = element.reused().len();
    let created_before = element.created().len();
    let deactivated_before = element.deactivated().len();
    element.update_children(&second).unwrap();

    let reused = element.reused()[reused_before..].to_vec();
    let created = element.created()[created_before..].to_vec();
    let deactivated = element.deactivated()[deactivated_before..].to_vec();
    assert_eq!(reused, vec![old[2]]);
    assert_eq!(created, vec![old[2] + 1]);
    let mut gone = deactivated.clone();
    gone.sort();
    assert_eq!(gone, vec![old[0], old[1]]);

    let leading = element.child_in_slot(&Slot::Leading).unwrap();
    let trailing = element.child_in_slot(&Slot::Trailing).unwrap();
    assert_eq!((leading.element, leading.widget, leading.key), (old[2], 3, Some(8)));
    assert_eq!((trailing.element, trailing.widget, trailing.key), (old[2] + 1, 4, Some(9)));
    assert_eq!(element.child_in_slot(&Slot::Title), None);
}
