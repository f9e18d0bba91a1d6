//! Slotted children.
//!
//! Most render objects with several children keep them in a **list**, and a
//! child's identity is its position in it. That is wrong for a widget whose
//! children mean different things: a list tile's leading icon and its trailing
//! chevron are not "child 0" and "child 2", they are the leading one and the
//! trailing one, and either may be absent without the other shifting.
//!
//! So the children live in a **map from slot to child**, kept here as a list
//! of slot-child pairs in the order they were placed (so that what a rebuild
//! leaves over is deactivated in a known order), beside a hash map from key
//! to element. The interesting part is what happens when the map is rebuilt:
//! **a keyed child keeps its state when it moves between slots**.
//!
//! Slots are compared with `==`, which must be the slot type's structural
//! equality (`obeys_concrete_eq`), as it is for a derived one.

use std::collections::HashMap;
use vstd::prelude::*;

verus! {

broadcast use vstd::std_specs::hash::group_hash_axioms;

/// The widget side: which slots there are, in order, and what is in each.
///
/// `slots` is a **list rather than a set**, and the order is load-bearing: it
/// is the order children are visited and updated in. It must be static for a
/// given widget type; a type whose slots varied would have children appearing
/// and vanishing for reasons no caller asked for.
pub trait SlottedMultiChildRenderObjectWidget<Slot> {
    /// The slots this widget declares, in order. A widget answers the same
    /// each time it is asked; unless an implementation says which answer,
    /// it is a fixed one nothing more is known of.
    open spec fn slot_list(&self) -> Seq<Slot> {
        vstd::pervasive::arbitrary()
    }

    /// What this widget has in a slot, with the same consistency.
    open spec fn child_in(&self, slot: Slot) -> Option<SlottedChild> {
        vstd::pervasive::arbitrary()
    }

    fn slots(&self) -> (r: Vec<Slot>)
        ensures
            r@ == self.slot_list(),
    ;

    /// `None` for an empty slot, which is the ordinary case, not an error: a
    /// list tile with no icon has an empty leading slot every frame of its
    /// life.
    fn child_for_slot(&self, slot: &Slot) -> (r: Option<SlottedChild>)
        ensures
            r == self.child_in(*slot),
    ;
}

/// The same contract, reachable by mixing in rather than extending; two ways
/// to say one thing, of which the extending one needs no explanation.
pub trait SlottedMultiChildRenderObjectWidgetMixin<Slot>: SlottedMultiChildRenderObjectWidget<
    Slot,
> {

}

/// A child widget, reduced to what the matcher needs: an identity and an
/// optional key.
#[derive(Clone, Copy, Debug, PartialEq, Eq, Structural)]
pub struct SlottedChild {
    pub widget: u64,
    pub key: Option<u64>,
}

impl SlottedChild {
    pub fn new(widget: u64) -> (r: SlottedChild)
        ensures
            r == (SlottedChild { widget, key: None }),
    {
        SlottedChild { widget, key: None }
    }

    pub fn keyed(widget: u64, key: u64) -> (r: SlottedChild)
        ensures
            r == (SlottedChild { widget, key: Some(key) }),
    {
        SlottedChild { widget, key: Some(key) }
    }
}

/// The value of the last pair for `key`, if any.
pub open spec fn assoc_lookup<K, V>(list: Seq<(K, V)>, key: K) -> Option<V>
    decreases list.len(),
{
    if list.len() == 0 {
        None
    } else if list.last().0 == key {
        Some(list.last().1)
    } else {
        assoc_lookup(list.drop_last(), key)
    }
}

/// The pairs without those for `key`.
pub open spec fn assoc_remove<K, V>(list: Seq<(K, V)>, key: K) -> Seq<(K, V)>
    decreases list.len(),
{
    if list.len() == 0 {
        list
    } else if list.last().0 == key {
        assoc_remove(list.drop_last(), key)
    } else {
        assoc_remove(list.drop_last(), key).push(list.last())
    }
}

/// The pairs with `key` now holding `value`.
pub open spec fn assoc_insert<K, V>(list: Seq<(K, V)>, key: K, value: V) -> Seq<(K, V)> {
    assoc_remove(list, key).push((key, value))
}

/// After a key is removed, it has no value, and every other key keeps its
/// own.
pub proof fn lemma_assoc_remove_lookup<K, V>(list: Seq<(K, V)>, key: K, other: K)
    ensures
        assoc_lookup(assoc_remove(list, key), key) is None,
        other != key ==> assoc_lookup(assoc_remove(list, key), other) == assoc_lookup(list, other),
    decreases list.len(),
{
    if list.len() > 0 {
        lemma_assoc_remove_lookup(list.drop_last(), key, other);
        if list.last().0 != key {
            let shorter = assoc_remove(list.drop_last(), key);
            assert(shorter.push(list.last()).drop_last() =~= shorter);
        }
    }
}

/// What a read gives back of a write: a key just given a value reads back
/// that value, and every other key reads back what it held before.
pub proof fn lemma_assoc_insert_lookup<K, V>(list: Seq<(K, V)>, key: K, value: V, other: K)
    ensures
        assoc_lookup(assoc_insert(list, key, value), key) == Some(value),
        other != key ==> assoc_lookup(assoc_insert(list, key, value), other) == assoc_lookup(
            list,
            other,
        ),
{
    lemma_assoc_remove_lookup(list, key, other);
    let removed = assoc_remove(list, key);
    assert(removed.push((key, value)).drop_last() =~= removed);
}

/// `==` on a type whose equality is its structural equality.
fn same<K: PartialEq>(a: &K, b: &K) -> (r: bool)
    requires
        vstd::laws_eq::obeys_concrete_eq::<K>(),
    ensures
        r == (*a == *b),
{
    proof {
        reveal(vstd::laws_eq::obeys_concrete_eq);
    }
    a.eq(b)
}

fn lookup<K: Copy + PartialEq, V: Copy>(list: &Vec<(K, V)>, key: &K) -> (r: Option<V>)
    requires
        vstd::laws_eq::obeys_concrete_eq::<K>(),
    ensures
        r == assoc_lookup(list@, *key),
{
    let mut i: usize = list.len();
    assert(list@.subrange(0, i as int) =~= list@);
    while i > 0
        invariant
            vstd::laws_eq::obeys_concrete_eq::<K>(),
            i <= list@.len(),
            assoc_lookup(list@, *key) == assoc_lookup(list@.subrange(0, i as int), *key),
        decreases i,
    {
        let entry = list[i - 1];
        if same(&entry.0, key) {
            return Some(entry.1);
        }
        assert(list@.subrange(0, i as int).drop_last() =~= list@.subrange(0, i - 1));
        i = i - 1;
    }
    None
}

fn remove_key<K: Copy + PartialEq, V: Copy>(list: &mut Vec<(K, V)>, key: &K)
    requires
        vstd::laws_eq::obeys_concrete_eq::<K>(),
    ensures
        final(list)@ == assoc_remove(old(list)@, *key),
{
    let ghost start = list@;
    let mut kept: Vec<(K, V)> = Vec::new();
    let mut i: usize = 0;
    while i < list.len()
        invariant
            vstd::laws_eq::obeys_concrete_eq::<K>(),
            list@ == start,
            i <= start.len(),
            kept@ == assoc_remove(start.subrange(0, i as int), *key),
        decreases start.len() - i,
    {
        let entry = list[i];
        assert(start.subrange(0, i + 1).drop_last() =~= start.subrange(0, i as int));
        if !same(&entry.0, key) {
            kept.push(entry);
        }
        i = i + 1;
    }
    assert(start.subrange(0, start.len() as int) =~= start);
    *list = kept;
}

fn insert_key<K: Copy + PartialEq, V: Copy>(list: &mut Vec<(K, V)>, key: K, value: V)
    requires
        vstd::laws_eq::obeys_concrete_eq::<K>(),
    ensures
        final(list)@ == assoc_insert(old(list)@, key, value),
{
    remove_key(list, &key);
    list.push((key, value));
}

/// std's `format!` with `{:?}`: the slot's debug text.
#[verifier::external_body]
fn debug_text<Slot: std::fmt::Debug>(slot: &Slot) -> String {
    format!("{slot:?}")
}

/// The render object's side: the slot map, and the children it adopted and
/// dropped along the way.
pub struct ContainerView<Slot> {
    pub slots: Seq<(Slot, u64)>,
    pub order: Seq<Slot>,
    pub adopted: Seq<u64>,
    pub dropped: Seq<u64>,
    pub attached: bool,
}

/// The children of the slots in `order` that hold one, in that order.
pub open spec fn children_in_order<Slot, V>(slots: Seq<(Slot, V)>, order: Seq<Slot>) -> Seq<V>
    decreases order.len(),
{
    if order.len() == 0 {
        Seq::empty()
    } else {
        match assoc_lookup(slots, order.last()) {
            Some(child) => children_in_order(slots, order.drop_last()).push(child),
            None => children_in_order(slots, order.drop_last()),
        }
    }
}

/// The container after `slot` is set to `child`: the old child, if any, is
/// dropped **before** the new one is adopted.
pub open spec fn with_child<Slot>(v: ContainerView<Slot>, slot: Slot, child: Option<u64>) -> ContainerView<
    Slot,
> {
    let dropped = match assoc_lookup(v.slots, slot) {
        Some(old) => v.dropped.push(old),
        None => v.dropped,
    };
    match child {
        Some(c) => ContainerView {
            slots: assoc_insert(assoc_remove(v.slots, slot), slot, c),
            order: v.order,
            adopted: v.adopted.push(c),
            dropped,
            attached: v.attached,
        },
        None => ContainerView {
            slots: assoc_remove(v.slots, slot),
            order: v.order,
            adopted: v.adopted,
            dropped,
            attached: v.attached,
        },
    }
}

/// Setting a slot: the slot then holds exactly what was set, every other
/// slot holds what it held, the old occupant (if any) is the last one dropped,
/// and the new child (if any) is the last one adopted.
pub proof fn lemma_set_child_reads_back<Slot>(
    v: ContainerView<Slot>,
    slot: Slot,
    child: Option<u64>,
    other: Slot,
)
    ensures
        assoc_lookup(with_child(v, slot, child).slots, slot) == child,
        other != slot ==> assoc_lookup(with_child(v, slot, child).slots, other) == assoc_lookup(
            v.slots,
            other,
        ),
        assoc_lookup(v.slots, slot) matches Some(old) ==> with_child(v, slot, child).dropped
            == v.dropped.push(old),
        child matches Some(c) ==> with_child(v, slot, child).adopted == v.adopted.push(c),
{
    lemma_assoc_remove_lookup(v.slots, slot, other);
    match child {
        Some(c) => {
            let removed = assoc_remove(v.slots, slot);
            lemma_assoc_insert_lookup(removed, slot, c, other);
            lemma_assoc_remove_lookup(removed, slot, other);
        },
        None => {},
    }
}

/// The render object's side of slotted children. It carries state, the slot
/// map itself, and everything it does is a method over that map.
#[derive(Clone, Debug, PartialEq)]
pub struct SlottedContainerRenderObjectMixin<Slot> {
    slot_to_child: Vec<(Slot, u64)>,
    /// The declared slot order, so that `children` is deterministic.
    order: Vec<Slot>,
    adopted: Vec<u64>,
    dropped: Vec<u64>,
    attached: bool,
}

impl<Slot> View for SlottedContainerRenderObjectMixin<Slot> {
    type V = ContainerView<Slot>;

    closed spec fn view(&self) -> ContainerView<Slot> {
        ContainerView {
            slots: self.slot_to_child@,
            order: self.order@,
            adopted: self.adopted@,
            dropped: self.dropped@,
            attached: self.attached,
        }
    }
}

impl<Slot> Default for SlottedContainerRenderObjectMixin<Slot> {
    fn default() -> (r: SlottedContainerRenderObjectMixin<Slot>)
        ensures
            r@ == (ContainerView::<Slot> {
                slots: Seq::empty(),
                order: Seq::empty(),
                adopted: Seq::empty(),
                dropped: Seq::empty(),
                attached: false,
            }),
    {
        let r = SlottedContainerRenderObjectMixin {
            slot_to_child: Vec::new(),
            order: Vec::new(),
            adopted: Vec::new(),
            dropped: Vec::new(),
            attached: false,
        };
        assert(r@.slots =~= Seq::<(Slot, u64)>::empty());
        r
    }
}

impl<Slot: Copy + PartialEq> SlottedContainerRenderObjectMixin<Slot> {
    pub fn new(order: Vec<Slot>) -> (r: SlottedContainerRenderObjectMixin<Slot>)
        ensures
            r@ == (ContainerView::<Slot> {
                slots: Seq::empty(),
                order: order@,
                adopted: Seq::empty(),
                dropped: Seq::empty(),
                attached: false,
            }),
    {
        let r = SlottedContainerRenderObjectMixin {
            slot_to_child: Vec::new(),
            order,
            adopted: Vec::new(),
            dropped: Vec::new(),
            attached: false,
        };
        assert(r@.slots =~= Seq::<(Slot, u64)>::empty());
        r
    }

    /// The child in `slot`, if any.
    pub fn child_for_slot(&self, slot: &Slot) -> (r: Option<u64>)
        requires
            vstd::laws_eq::obeys_concrete_eq::<Slot>(),
        ensures
            r == assoc_lookup(self@.slots, *slot),
    {
        lookup(&self.slot_to_child, slot)
    }

    /// The children in the declared slot order, which is what hit testing
    /// needs: a hit test that visited children in map order would let the
    /// wrong one win.
    pub fn children(&self) -> (r: Vec<u64>)
        requires
            vstd::laws_eq::obeys_concrete_eq::<Slot>(),
        ensures
            r@ == children_in_order(self@.slots, self@.order),
    {
        let mut out: Vec<u64> = Vec::new();
        let mut i: usize = 0;
        while i < self.order.len()
            invariant
                vstd::laws_eq::obeys_concrete_eq::<Slot>(),
                i <= self@.order.len(),
                out@ == children_in_order(self@.slots, self@.order.subrange(0, i as int)),
            decreases self@.order.len() - i,
        {
            let slot = self.order[i];
            assert(self@.order.subrange(0, i + 1).drop_last() =~= self@.order.subrange(
                0,
                i as int,
            ));
            match lookup(&self.slot_to_child, &slot) {
                Some(child) => out.push(child),
                None => {},
            }
            i = i + 1;
        }
        assert(self@.order.subrange(0, self@.order.len() as int) =~= self@.order);
        out
    }

    pub fn adopted(&self) -> (r: &[u64])
        ensures
            r@ == self@.adopted,
    {
        self.adopted.as_slice()
    }

    pub fn dropped(&self) -> (r: &[u64])
        ensures
            r@ == self@.dropped,
    {
        self.dropped.as_slice()
    }

    pub fn is_attached(&self) -> (r: bool)
        ensures
            r == self@.attached,
    {
        self.attached
    }

    /// Sets `slot` to `child`, **dropping the old child before adopting the
    /// new one**: a child adopted while still parented elsewhere would have two
    /// parents for the length of one statement.
    pub fn set_child(&mut self, slot: Slot, child: Option<u64>)
        requires
            vstd::laws_eq::obeys_concrete_eq::<Slot>(),
        ensures
            final(self)@ == with_child(old(self)@, slot, child),
    {
        match lookup(&self.slot_to_child, &slot) {
            Some(old) => {
                remove_key(&mut self.slot_to_child, &slot);
                self.dropped.push(old);
            },
            None => {
                remove_key(&mut self.slot_to_child, &slot);
            },
        }
        match child {
            Some(c) => {
                insert_key(&mut self.slot_to_child, slot, c);
                self.adopted.push(c);
            },
            None => {},
        }
    }

    /// Moves `child` from `old_slot` to `slot`. The old slot is only cleared
    /// when it **still holds this child**: by the time a move runs, something
    /// else may already have taken that slot, and clearing it then would drop
    /// a child that had just arrived.
    pub fn move_child(&mut self, child: u64, slot: Slot, old_slot: Slot)
        requires
            vstd::laws_eq::obeys_concrete_eq::<Slot>(),
            slot != old_slot,
        ensures
            final(self)@ == with_child(
                if assoc_lookup(old(self)@.slots, old_slot) == Some(child) {
                    with_child(old(self)@, old_slot, None)
                } else {
                    old(self)@
                },
                slot,
                Some(child),
            ),
    {
        if lookup(&self.slot_to_child, &old_slot) == Some(child) {
            self.set_child(old_slot, None);
        }
        self.set_child(slot, Some(child));
    }

    pub fn attach(&mut self)
        ensures
            final(self)@ == (ContainerView { attached: true, ..old(self)@ }),
    {
        self.attached = true;
    }

    pub fn detach(&mut self)
        ensures
            final(self)@ == (ContainerView { attached: false, ..old(self)@ }),
    {
        self.attached = false;
    }
}

impl<Slot: Copy + PartialEq + std::fmt::Debug> SlottedContainerRenderObjectMixin<Slot> {
    /// The slot's name in diagnostics: its debug text. The slot is usually an
    /// enum precisely so that this reads as `Leading` rather than as an opaque
    /// instance.
    pub fn debug_name_for_slot(slot: &Slot) -> String {
        debug_text(slot)
    }

    /// Each child with the name of its slot, in the declared slot order.
    pub fn describe_children(&self) -> (r: Vec<(String, u64)>)
        requires
            vstd::laws_eq::obeys_concrete_eq::<Slot>(),
        ensures
            r@.map_values(|e: (String, u64)| e.1) == children_in_order(self@.slots, self@.order),
    {
        let mut out: Vec<(String, u64)> = Vec::new();
        let mut i: usize = 0;
        while i < self.order.len()
            invariant
                vstd::laws_eq::obeys_concrete_eq::<Slot>(),
                i <= self@.order.len(),
                out@.map_values(|e: (String, u64)| e.1) == children_in_order(
                    self@.slots,
                    self@.order.subrange(0, i as int),
                ),
            decreases self@.order.len() - i,
        {
            let slot = self.order[i];
            assert(self@.order.subrange(0, i + 1).drop_last() =~= self@.order.subrange(
                0,
                i as int,
            ));
            let ghost before = out@;
            match lookup(&self.slot_to_child, &slot) {
                Some(child) => {
                    out.push((debug_text(&slot), child));
                    assert(out@.map_values(|e: (String, u64)| e.1) =~= before.map_values(
                        |e: (String, u64)| e.1,
                    ).push(child));
                },
                None => {},
            }
            i = i + 1;
        }
        assert(self@.order.subrange(0, self@.order.len() as int) =~= self@.order);
        out
    }
}

/// Why a rebuild was refused.
#[derive(Clone, Copy, Debug, PartialEq, Eq, Structural)]
pub enum SlotError {
    /// The widget's slot list is not the one it had before.
    SlotsChanged,
    /// A slot is listed twice.
    DuplicateSlot,
    /// Two children in different slots carry the same key.
    DuplicateKey(u64),
}

/// An element in a slot, after a rebuild.
#[derive(Clone, Copy, Debug, PartialEq, Eq, Structural)]
pub struct SlottedElement {
    /// The element's identity: what survives a rebuild is what carries state
    /// with it.
    pub element: u64,
    pub widget: u64,
    pub key: Option<u64>,
}

/// The element side as the contracts see it.
pub struct ElementView<Slot> {
    pub slots: Seq<(Slot, SlottedElement)>,
    pub keyed: Map<u64, SlottedElement>,
    pub previous_slots: Option<Seq<Slot>>,
    pub next_element_id: u64,
    pub reused: Seq<u64>,
    pub created: Seq<u64>,
    pub deactivated: Seq<u64>,
}

/// The slot of the first pair holding `element`, if any.
pub open spec fn first_holding<Slot>(list: Seq<(Slot, SlottedElement)>, element: u64) -> Option<
    Slot,
>
    decreases list.len(),
{
    if list.len() == 0 {
        None
    } else if list[0].1.element == element {
        Some(list[0].0)
    } else {
        first_holding(list.drop_first(), element)
    }
}

/// Whether some slot is listed twice.
pub open spec fn has_repeated_slot<Slot>(slots: Seq<Slot>) -> bool {
    exists|i: int, j: int| 0 <= i < j < slots.len() && slots[i] == slots[j]
}

/// The old element a slot's new child takes over, and the old elements left
/// after it is taken out. Three choices, in order:
///
/// 1. **A key match anywhere wins**: the old element with the child's key is
///    taken out of whatever slot it was in, so a keyed widget moved from one
///    slot to another keeps its state.
/// 2. Otherwise **the same slot's old element is reused, but only if it had no
///    key**: a keyed old element that did not match is somebody else's.
/// 3. Otherwise nothing is reused.
pub open spec fn claimed_for<Slot>(
    remaining: Seq<(Slot, SlottedElement)>,
    old_keyed: Map<u64, SlottedElement>,
    slot: Slot,
    child: Option<SlottedChild>,
) -> (Option<SlottedElement>, Seq<(Slot, SlottedElement)>) {
    let keyed_match = match child {
        Some(c) => match c.key {
            Some(k) => if old_keyed.contains_key(k) {
                Some(old_keyed[k])
            } else {
                None
            },
            None => None,
        },
        None => None,
    };
    match keyed_match {
        Some(keyed) => match first_holding(remaining, keyed.element) {
            Some(its_slot) => (assoc_lookup(remaining, its_slot), assoc_remove(remaining, its_slot)),
            None => (None, remaining),
        },
        None => match assoc_lookup(remaining, slot) {
            Some(old) => if old.key is None {
                (Some(old), assoc_remove(remaining, slot))
            } else {
                (None, remaining)
            },
            None => (None, remaining),
        },
    }
}

/// The state of a rebuild part way through the slots.
pub struct Rebuild<Slot> {
    /// Old elements not yet taken over.
    pub remaining: Seq<(Slot, SlottedElement)>,
    pub placed: Seq<(Slot, SlottedElement)>,
    pub keyed: Map<u64, SlottedElement>,
    pub next_element_id: nat,
    pub reused: Seq<u64>,
    pub created: Seq<u64>,
    pub deactivated: Seq<u64>,
    pub duplicate_key: Option<u64>,
}

/// One slot of a rebuild. An empty slot deactivates whatever it took over;
/// a child reuses what it took over or gets a fresh element, goes into its
/// slot, and, if keyed, into the key map, where finding its key already there
/// records a duplicate.
pub open spec fn rebuild_step<Slot>(
    state: Rebuild<Slot>,
    old_keyed: Map<u64, SlottedElement>,
    slot: Slot,
    child: Option<SlottedChild>,
) -> Rebuild<Slot> {
    let (from, remaining) = claimed_for(state.remaining, old_keyed, slot, child);
    match child {
        None => Rebuild {
            remaining,
            deactivated: match from {
                Some(gone) => state.deactivated.push(gone.element),
                None => state.deactivated,
            },
            ..state
        },
        Some(c) => {
            let element_id: nat = match from {
                Some(existing) => existing.element as nat,
                None => state.next_element_id,
            };
            let element = SlottedElement { element: element_id as u64, widget: c.widget, key: c.key };
            Rebuild {
                remaining,
                placed: assoc_insert(state.placed, slot, element),
                keyed: match c.key {
                    Some(k) => state.keyed.insert(k, element),
                    None => state.keyed,
                },
                next_element_id: if from is Some {
                    state.next_element_id
                } else {
                    state.next_element_id + 1
                },
                reused: if from is Some {
                    state.reused.push(element_id as u64)
                } else {
                    state.reused
                },
                created: if from is Some {
                    state.created
                } else {
                    state.created.push(element_id as u64)
                },
                deactivated: state.deactivated,
                duplicate_key: match c.key {
                    Some(k) => if state.keyed.contains_key(k) {
                        Some(k)
                    } else {
                        state.duplicate_key
                    },
                    None => state.duplicate_key,
                },
            }
        },
    }
}

/// **A keyed child keeps its element when it moves between slots**: when
/// the old element with the child's key is still held in some slot, the
/// child's slot ends up holding that element, updated to the new widget.
pub proof fn lemma_keyed_child_keeps_its_element<Slot>(
    state: Rebuild<Slot>,
    old_keyed: Map<u64, SlottedElement>,
    slot: Slot,
    child: SlottedChild,
    keyed: SlottedElement,
    its_slot: Slot,
    held: SlottedElement,
)
    requires
        child.key matches Some(k) && old_keyed.contains_key(k) && old_keyed[k] == keyed,
        first_holding(state.remaining, keyed.element) == Some(its_slot),
        assoc_lookup(state.remaining, its_slot) == Some(held),
    ensures
        assoc_lookup(rebuild_step(state, old_keyed, slot, Some(child)).placed, slot) == Some(
            SlottedElement { element: held.element, widget: child.widget, key: child.key },
        ),
        rebuild_step(state, old_keyed, slot, Some(child)).reused == state.reused.push(
            held.element,
        ),
{
    let element = SlottedElement { element: held.element, widget: child.widget, key: child.key };
    lemma_assoc_insert_lookup(state.placed, slot, element, slot);
    assert((held.element as nat) as u64 == held.element);
}

/// An unkeyed child with an unkeyed old element in its own slot takes that
/// element over; a keyed old element there is never handed to an unkeyed
/// child.
pub proof fn lemma_unkeyed_child_in_its_slot<Slot>(
    state: Rebuild<Slot>,
    old_keyed: Map<u64, SlottedElement>,
    slot: Slot,
    child: SlottedChild,
    old: SlottedElement,
)
    requires
        child.key is None,
        assoc_lookup(state.remaining, slot) == Some(old),
    ensures
        old.key is None ==> assoc_lookup(rebuild_step(state, old_keyed, slot, Some(child)).placed, slot)
            == Some(SlottedElement { element: old.element, widget: child.widget, key: None }),
        old.key is Some ==> rebuild_step(state, old_keyed, slot, Some(child)).created
            == state.created.push(state.next_element_id as u64),
{
    if old.key is None {
        let element = SlottedElement { element: old.element, widget: child.widget, key: None };
        lemma_assoc_insert_lookup(state.placed, slot, element, slot);
        assert((old.element as nat) as u64 == old.element);
    }
}

/// The rebuild after the first `n` slots.
pub open spec fn rebuild_through<Slot>(
    start: Rebuild<Slot>,
    old_keyed: Map<u64, SlottedElement>,
    slots: Seq<Slot>,
    children: Seq<Option<SlottedChild>>,
    n: int,
) -> Rebuild<Slot>
    decreases n,
{
    if n <= 0 {
        start
    } else {
        rebuild_step(
            rebuild_through(start, old_keyed, slots, children, n - 1),
            old_keyed,
            slots[n - 1],
            children[n - 1],
        )
    }
}

/// The elements of the pairs, in order.
pub open spec fn elements_of<Slot>(list: Seq<(Slot, SlottedElement)>) -> Seq<u64> {
    list.map_values(|e: (Slot, SlottedElement)| e.1.element)
}

/// A rebuild of `v` before any slot: all its old elements still left.
pub open spec fn rebuild_start<Slot>(v: ElementView<Slot>) -> Rebuild<Slot> {
    Rebuild {
        remaining: v.slots,
        placed: Seq::empty(),
        keyed: Map::empty(),
        next_element_id: v.next_element_id as nat,
        reused: v.reused,
        created: v.created,
        deactivated: v.deactivated,
        duplicate_key: None,
    }
}

/// The element side after a rebuild against `slots` and the children in
/// them, and whether it was refused.
///
/// A slot list that differs from the first one seen is refused with nothing
/// changed; a repeated slot is refused (the first slot list is remembered
/// either way). Otherwise every slot is rebuilt in order, whatever old element
/// was not taken over is deactivated, and a key carried by two children is
/// reported after the rebuild.
pub open spec fn rebuilt<Slot>(
    v: ElementView<Slot>,
    slots: Seq<Slot>,
    children: Seq<Option<SlottedChild>>,
) -> (ElementView<Slot>, Result<(), SlotError>) {
    if v.previous_slots is Some && v.previous_slots->0 != slots {
        (v, Err(SlotError::SlotsChanged))
    } else {
        let remembered = ElementView {
            previous_slots: Some(
                match v.previous_slots {
                    Some(previous) => previous,
                    None => slots,
                },
            ),
            ..v
        };
        if has_repeated_slot(slots) {
            (remembered, Err(SlotError::DuplicateSlot))
        } else {
            let done = rebuild_through(rebuild_start(v), v.keyed, slots, children, slots.len() as int);
            (
                ElementView {
                    slots: done.placed,
                    keyed: done.keyed,
                    previous_slots: remembered.previous_slots,
                    next_element_id: done.next_element_id as u64,
                    reused: done.reused,
                    created: done.created,
                    deactivated: done.deactivated + elements_of(done.remaining),
                },
                match done.duplicate_key {
                    Some(k) => Err(SlotError::DuplicateKey(k)),
                    None => Ok(()),
                },
            )
        }
    }
}

/// The element id a rebuild of `v` goes on from once it is done, counting
/// every fresh id it hands out on the way.
pub open spec fn ids_after<Slot>(
    v: ElementView<Slot>,
    slots: Seq<Slot>,
    children: Seq<Option<SlottedChild>>,
) -> nat {
    rebuild_through(rebuild_start(v), v.keyed, slots, children, slots.len() as int).next_element_id
}

/// Whether a rebuild of `v` finds the fresh element ids it needs: a refused
/// rebuild needs none, and one that goes through needs every id it hands
/// out to fit in a `u64`.
pub open spec fn rebuild_fits<Slot>(
    v: ElementView<Slot>,
    slots: Seq<Slot>,
    children: Seq<Option<SlottedChild>>,
) -> bool {
    ||| v.previous_slots is Some && v.previous_slots->0 != slots
    ||| has_repeated_slot(slots)
    ||| ids_after(v, slots, children) <= u64::MAX
}

/// The id a rebuild goes on from never goes back.
proof fn lemma_rebuild_next_grows<Slot>(
    start: Rebuild<Slot>,
    old_keyed: Map<u64, SlottedElement>,
    slots: Seq<Slot>,
    children: Seq<Option<SlottedChild>>,
    m: int,
    n: int,
)
    requires
        0 <= m <= n,
    ensures
        rebuild_through(start, old_keyed, slots, children, m).next_element_id <= rebuild_through(
            start,
            old_keyed,
            slots,
            children,
            n,
        ).next_element_id,
    decreases n,
{
    if m < n {
        lemma_rebuild_next_grows(start, old_keyed, slots, children, m, n - 1);
    }
}

/// What the widget has in each of its slots, in slot order.
pub open spec fn widget_children<Slot, W: SlottedMultiChildRenderObjectWidget<Slot>>(widget: &W) -> Seq<
    Option<SlottedChild>,
> {
    widget.slot_list().map_values(|s: Slot| widget.child_in(s))
}

/// The element side of slotted children.
#[derive(Clone, Debug, PartialEq)]
pub struct SlottedRenderObjectElement<Slot> {
    slot_to_child: Vec<(Slot, SlottedElement)>,
    keyed_children: HashMap<u64, SlottedElement>,
    debug_previous_slots: Option<Vec<Slot>>,
    next_element_id: u64,
    reused: Vec<u64>,
    created: Vec<u64>,
    deactivated: Vec<u64>,
}

impl<Slot> View for SlottedRenderObjectElement<Slot> {
    type V = ElementView<Slot>;

    closed spec fn view(&self) -> ElementView<Slot> {
        ElementView {
            slots: self.slot_to_child@,
            keyed: self.keyed_children@,
            previous_slots: match self.debug_previous_slots {
                Some(previous) => Some(previous@),
                None => None,
            },
            next_element_id: self.next_element_id,
            reused: self.reused@,
            created: self.created@,
            deactivated: self.deactivated@,
        }
    }
}

impl<Slot> Default for SlottedRenderObjectElement<Slot> {
    fn default() -> (r: SlottedRenderObjectElement<Slot>)
        ensures
            r@ == (ElementView::<Slot> {
                slots: Seq::empty(),
                keyed: Map::empty(),
                previous_slots: None,
                next_element_id: 0,
                reused: Seq::empty(),
                created: Seq::empty(),
                deactivated: Seq::empty(),
            }),
    {
        let r = SlottedRenderObjectElement {
            slot_to_child: Vec::new(),
            keyed_children: HashMap::new(),
            debug_previous_slots: None,
            next_element_id: 0,
            reused: Vec::new(),
            created: Vec::new(),
            deactivated: Vec::new(),
        };
        assert(r@.slots =~= Seq::<(Slot, SlottedElement)>::empty());
        r
    }
}

/// The slot of the first pair holding `element`.
fn find_holder<Slot: Copy>(list: &Vec<(Slot, SlottedElement)>, element: u64) -> (r: Option<Slot>)
    ensures
        r == first_holding(list@, element),
{
    let mut i: usize = 0;
    assert(list@.subrange(0, list@.len() as int) =~= list@);
    while i < list.len()
        invariant
            i <= list@.len(),
            first_holding(list@, element) == first_holding(
                list@.subrange(i as int, list@.len() as int),
                element,
            ),
        decreases list@.len() - i,
    {
        let entry = list[i];
        if entry.1.element == element {
            return Some(entry.0);
        }
        assert(list@.subrange(i as int, list@.len() as int).drop_first() =~= list@.subrange(
            i + 1,
            list@.len() as int,
        ));
        i = i + 1;
    }
    None
}

/// Takes out of `remaining` the old element the child in `slot` takes over.
fn claim<Slot: Copy + PartialEq>(
    remaining: &mut Vec<(Slot, SlottedElement)>,
    old_keyed: &HashMap<u64, SlottedElement>,
    slot: Slot,
    child: Option<SlottedChild>,
) -> (r: Option<SlottedElement>)
    requires
        vstd::laws_eq::obeys_concrete_eq::<Slot>(),
    ensures
        (r, final(remaining)@) == claimed_for(old(remaining)@, old_keyed@, slot, child),
{
    let keyed_match = match child {
        Some(c) => match c.key {
            Some(k) => match old_keyed.get(&k) {
                Some(found) => Some(*found),
                None => None,
            },
            None => None,
        },
        None => None,
    };
    match keyed_match {
        Some(keyed) => match find_holder(remaining, keyed.element) {
            Some(its_slot) => {
                let found = lookup(remaining, &its_slot);
                remove_key(remaining, &its_slot);
                found
            },
            None => None,
        },
        None => match lookup(remaining, &slot) {
            Some(old) => {
                if old.key.is_none() {
                    remove_key(remaining, &slot);
                    Some(old)
                } else {
                    None
                }
            },
            None => None,
        },
    }
}

impl<Slot: Copy + PartialEq> SlottedRenderObjectElement<Slot> {
    pub fn new() -> (r: SlottedRenderObjectElement<Slot>)
        ensures
            r@ == (ElementView::<Slot> {
                slots: Seq::empty(),
                keyed: Map::empty(),
                previous_slots: None,
                next_element_id: 1,
                reused: Seq::empty(),
                created: Seq::empty(),
                deactivated: Seq::empty(),
            }),
    {
        let r = SlottedRenderObjectElement {
            slot_to_child: Vec::new(),
            keyed_children: HashMap::new(),
            debug_previous_slots: None,
            next_element_id: 1,
            reused: Vec::new(),
            created: Vec::new(),
            deactivated: Vec::new(),
        };
        assert(r@.slots =~= Seq::<(Slot, SlottedElement)>::empty());
        r
    }

    pub fn child_in_slot(&self, slot: &Slot) -> (r: Option<SlottedElement>)
        requires
            vstd::laws_eq::obeys_concrete_eq::<Slot>(),
        ensures
            r == assoc_lookup(self@.slots, *slot),
    {
        lookup(&self.slot_to_child, slot)
    }

    pub fn reused(&self) -> (r: &[u64])
        ensures
            r@ == self@.reused,
    {
        self.reused.as_slice()
    }

    pub fn created(&self) -> (r: &[u64])
        ensures
            r@ == self@.created,
    {
        self.created.as_slice()
    }

    pub fn deactivated(&self) -> (r: &[u64])
        ensures
            r@ == self@.deactivated,
    {
        self.deactivated.as_slice()
    }

    /// The elements of the slots in `order` that hold one, in that order.
    pub fn visit_children(&self, order: &[Slot]) -> (r: Vec<u64>)
        requires
            vstd::laws_eq::obeys_concrete_eq::<Slot>(),
        ensures
            r@ == children_in_order(self@.slots, order@).map_values(|e: SlottedElement| e.element),
    {
        let mut out: Vec<u64> = Vec::new();
        let mut i: usize = 0;
        while i < order.len()
            invariant
                vstd::laws_eq::obeys_concrete_eq::<Slot>(),
                i <= order@.len(),
                out@ == children_in_order(self@.slots, order@.subrange(0, i as int)).map_values(
                    |e: SlottedElement| e.element,
                ),
            decreases order@.len() - i,
        {
            let slot = order[i];
            assert(order@.subrange(0, i + 1).drop_last() =~= order@.subrange(0, i as int));
            match lookup(&self.slot_to_child, &slot) {
                Some(child) => {
                    out.push(child.element);
                },
                None => {},
            }
            i = i + 1;
            assert(out@ =~= children_in_order(self@.slots, order@.subrange(0, i as int)).map_values(
                |e: SlottedElement| e.element,
            ));
        }
        assert(order@.subrange(0, order@.len() as int) =~= order@);
        out
    }

    /// Forgets the child in `slot`, and its key with it, so that a new child
    /// claiming that key builds fresh rather than finding a ghost. The slot
    /// must hold a child: forgetting an empty slot would leave the real
    /// occupant behind.
    pub fn forget_child(&mut self, slot: &Slot)
        requires
            vstd::laws_eq::obeys_concrete_eq::<Slot>(),
            assoc_lookup(old(self)@.slots, *slot) is Some,
        ensures
            final(self)@ == (ElementView {
                slots: assoc_remove(old(self)@.slots, *slot),
                keyed: match assoc_lookup(old(self)@.slots, *slot)->0.key {
                    Some(k) => old(self)@.keyed.remove(k),
                    None => old(self)@.keyed,
                },
                ..old(self)@
            }),
    {
        match lookup(&self.slot_to_child, slot) {
            Some(child) => {
                remove_key(&mut self.slot_to_child, slot);
                match child.key {
                    Some(k) => {
                        self.keyed_children.remove(&k);
                    },
                    None => {},
                }
            },
            None => {},
        }
    }

    /// Rebuilds against `slots` and the children in them; see `rebuilt`.
    pub fn update_children_from(
        &mut self,
        slots: &Vec<Slot>,
        children: &Vec<Option<SlottedChild>>,
    ) -> (r: Result<(), SlotError>)
        requires
            vstd::laws_eq::obeys_concrete_eq::<Slot>(),
            children@.len() == slots@.len(),
            rebuild_fits(old(self)@, slots@, children@),
        ensures
            (final(self)@, r) == rebuilt(old(self)@, slots@, children@),
            elements_sound(old(self)@) ==> elements_sound(final(self)@),
    {
        let ghost v0 = self@;
        proof {
            if elements_sound(v0) {
                lemma_rebuild_keeps_elements_sound(v0, slots@, children@);
            }
        }
        match &self.debug_previous_slots {
            Some(previous) => {
                if !same_slots(previous, slots) {
                    return Err(SlotError::SlotsChanged);
                }
            },
            None => {
                self.debug_previous_slots = Some(copy_slots(slots));
            },
        }
        let ghost remembered = self@;
        assert(remembered == (ElementView {
            previous_slots: Some(
                match v0.previous_slots {
                    Some(previous) => previous,
                    None => slots@,
                },
            ),
            ..v0
        }));
        // Every slot once.
        let mut i: usize = 0;
        while i < slots.len()
            invariant
                vstd::laws_eq::obeys_concrete_eq::<Slot>(),
                self@ == remembered,
                old(self)@ == v0,
                !(v0.previous_slots is Some && v0.previous_slots->0 != slots@),
                remembered == (ElementView {
                    previous_slots: Some(
                        match v0.previous_slots {
                            Some(previous) => previous,
                            None => slots@,
                        },
                    ),
                    ..v0
                }),
                i <= slots@.len(),
                forall|a: int, b: int| 0 <= a < b < i ==> slots@[a] != slots@[b],
            decreases slots@.len() - i,
        {
            let mut j: usize = 0;
            while j < i
                invariant
                    vstd::laws_eq::obeys_concrete_eq::<Slot>(),
                    self@ == remembered,
                    old(self)@ == v0,
                    !(v0.previous_slots is Some && v0.previous_slots->0 != slots@),
                    remembered == (ElementView {
                        previous_slots: Some(
                            match v0.previous_slots {
                                Some(previous) => previous,
                                None => slots@,
                            },
                        ),
                        ..v0
                    }),
                    i < slots@.len(),
                    j <= i,
                    forall|a: int| 0 <= a < j ==> slots@[a] != slots@[i as int],
                decreases i - j,
            {
                if same(&slots[j], &slots[i]) {
                    assert(has_repeated_slot(slots@));
                    return Err(SlotError::DuplicateSlot);
                }
                j = j + 1;
            }
            i = i + 1;
        }
        assert(!has_repeated_slot(slots@));
        let mut old_keyed: HashMap<u64, SlottedElement> = HashMap::new();
        std::mem::swap(&mut old_keyed, &mut self.keyed_children);
        let mut remaining: Vec<(Slot, SlottedElement)> = Vec::new();
        std::mem::swap(&mut remaining, &mut self.slot_to_child);
        let mut duplicate_key: Option<u64> = None;
        let ghost start = rebuild_start(v0);
        assert(self.slot_to_child@ =~= Seq::<(Slot, SlottedElement)>::empty());
        let mut n: usize = 0;
        while n < slots.len()
            invariant
                vstd::laws_eq::obeys_concrete_eq::<Slot>(),
                children@.len() == slots@.len(),
                ids_after(v0, slots@, children@) <= u64::MAX,
                start == rebuild_start(v0),
                old_keyed@ == v0.keyed,
                n <= slots@.len(),
                ({
                    let now = rebuild_through(start, v0.keyed, slots@, children@, n as int);
                    &&& remaining@ == now.remaining
                    &&& self.slot_to_child@ == now.placed
                    &&& self.keyed_children@ == now.keyed
                    &&& self.next_element_id == now.next_element_id
                    &&& self.reused@ == now.reused
                    &&& self.created@ == now.created
                    &&& self.deactivated@ == now.deactivated
                    &&& duplicate_key == now.duplicate_key
                }),
                self.next_element_id <= v0.next_element_id + n,
                self@.previous_slots == remembered.previous_slots,
            decreases slots@.len() - n,
        {
            let slot = slots[n];
            let child = children[n];
            let ghost now = rebuild_through(start, v0.keyed, slots@, children@, n as int);
            proof {
                lemma_rebuild_next_grows(start, v0.keyed, slots@, children@, n + 1, slots@.len() as int);
                assert(rebuild_through(start, v0.keyed, slots@, children@, n + 1) == rebuild_step(
                    now,
                    v0.keyed,
                    slot,
                    child,
                ));
            }
            let from = claim(&mut remaining, &old_keyed, slot, child);
            match child {
                None => {
                    match from {
                        Some(gone) => self.deactivated.push(gone.element),
                        None => {},
                    }
                },
                Some(c) => {
                    let element_id = match from {
                        Some(existing) => {
                            self.reused.push(existing.element);
                            existing.element
                        },
                        None => {
                            let id = self.next_element_id;
                            self.next_element_id = self.next_element_id + 1;
                            self.created.push(id);
                            id
                        },
                    };
                    let element = SlottedElement { element: element_id, widget: c.widget, key: c.key };
                    insert_key(&mut self.slot_to_child, slot, element);
                    match c.key {
                        Some(k) => {
                            if self.keyed_children.contains_key(&k) {
                                duplicate_key = Some(k);
                            }
                            self.keyed_children.insert(k, element);
                        },
                        None => {},
                    }
                },
            }
            n = n + 1;
        }
        // Whatever was not taken over is gone.
        let ghost before = self.deactivated@;
        let ghost done = rebuild_through(start, v0.keyed, slots@, children@, slots@.len() as int);
        let mut o: usize = 0;
        while o < remaining.len()
            invariant
                o <= remaining@.len(),
                self.deactivated@ == before + elements_of(remaining@.subrange(0, o as int)),
                remaining@ == done.remaining,
                self.slot_to_child@ == done.placed,
                self.keyed_children@ == done.keyed,
                self.next_element_id == done.next_element_id,
                self.reused@ == done.reused,
                self.created@ == done.created,
                before == done.deactivated,
                self@.previous_slots == remembered.previous_slots,
            decreases remaining@.len() - o,
        {
            self.deactivated.push(remaining[o].1.element);
            o = o + 1;
            assert(self.deactivated@ =~= before + elements_of(remaining@.subrange(0, o as int)));
        }
        assert(remaining@.subrange(0, remaining@.len() as int) =~= remaining@);
        assert(self@.previous_slots == remembered.previous_slots);
        match duplicate_key {
            Some(k) => Err(SlotError::DuplicateKey(k)),
            None => Ok(()),
        }
    }

    /// Rebuilds against the widget: its slots, and what it has in each. What
    /// the widget answers is its own; whatever it answers, the rebuild is the
    /// one `update_children_from` describes, on the same condition: the fresh
    /// element ids it hands out must fit in a `u64`.
    pub fn update_children<W: SlottedMultiChildRenderObjectWidget<Slot>>(&mut self, widget: &W) -> (r:
        Result<(), SlotError>)
        requires
            vstd::laws_eq::obeys_concrete_eq::<Slot>(),
            rebuild_fits(old(self)@, widget.slot_list(), widget_children(widget)),
        ensures
            (final(self)@, r) == rebuilt(old(self)@, widget.slot_list(), widget_children(widget)),
            elements_sound(old(self)@) ==> elements_sound(final(self)@),
    {
        let slots = widget.slots();
        let mut children: Vec<Option<SlottedChild>> = Vec::new();
        let mut i: usize = 0;
        while i < slots.len()
            invariant
                i <= slots@.len(),
                slots@ == widget.slot_list(),
                children@ == widget_children(widget).take(i as int),
            decreases slots@.len() - i,
        {
            children.push(widget.child_for_slot(&slots[i]));
            i = i + 1;
            assert(children@ =~= widget_children(widget).take(i as int));
        }
        assert(children@ =~= widget_children(widget));
        self.update_children_from(&slots, &children)
    }
}

/// Whether two slot lists are the same list.
fn same_slots<Slot: Copy + PartialEq>(a: &Vec<Slot>, b: &Vec<Slot>) -> (r: bool)
    requires
        vstd::laws_eq::obeys_concrete_eq::<Slot>(),
    ensures
        r == (a@ == b@),
{
    if a.len() != b.len() {
        return false;
    }
    let mut i: usize = 0;
    while i < a.len()
        invariant
            vstd::laws_eq::obeys_concrete_eq::<Slot>(),
            a@.len() == b@.len(),
            i <= a@.len(),
            forall|j: int| 0 <= j < i ==> a@[j] == b@[j],
        decreases a@.len() - i,
    {
        if !same(&a[i], &b[i]) {
            return false;
        }
        i = i + 1;
    }
    assert(a@ =~= b@);
    true
}

/// A copy of a slot list.
fn copy_slots<Slot: Copy>(slots: &Vec<Slot>) -> (r: Vec<Slot>)
    ensures
        r@ == slots@,
{
    let mut out: Vec<Slot> = Vec::new();
    let mut i: usize = 0;
    while i < slots.len()
        invariant
            i <= slots@.len(),
            out@ == slots@.subrange(0, i as int),
        decreases slots@.len() - i,
    {
        out.push(slots[i]);
        i = i + 1;
        assert(out@ =~= slots@.subrange(0, i as int));
    }
    assert(out@ =~= slots@);
    out
}

/// **A widget whose slots changed is refused**, and a slot listed twice is
/// refused too, in both cases before any child is touched: the children,
/// the key map and the element records are all as they were.
pub proof fn lemma_refused_rebuilds_touch_nothing<Slot>(
    v: ElementView<Slot>,
    slots: Seq<Slot>,
    children: Seq<Option<SlottedChild>>,
)
    ensures
        v.previous_slots is Some && v.previous_slots->0 != slots ==> rebuilt(v, slots, children)
            == (v, Err::<(), SlotError>(SlotError::SlotsChanged)),
        (v.previous_slots is None || v.previous_slots->0 == slots) && has_repeated_slot(slots) ==> {
            let (after, r) = rebuilt(v, slots, children);
            &&& r == Err::<(), SlotError>(SlotError::DuplicateSlot)
            &&& after.slots == v.slots
            &&& after.keyed == v.keyed
            &&& after.next_element_id == v.next_element_id
            &&& after.reused == v.reused
            &&& after.created == v.created
            &&& after.deactivated == v.deactivated
            &&& after.previous_slots == Some(slots)
        },
{
}

/// No two pairs share a key.
pub open spec fn keys_distinct<K, V>(l: Seq<(K, V)>) -> bool {
    forall|a: int, b: int| 0 <= a < b < l.len() ==> #[trigger] l[a].0 != #[trigger] l[b].0
}

proof fn lemma_assoc_absent<K, V>(l: Seq<(K, V)>, k: K)
    requires
        forall|i: int| 0 <= i < l.len() ==> #[trigger] l[i].0 != k,
    ensures
        assoc_lookup(l, k) is None,
        assoc_remove(l, k) == l,
    decreases l.len(),
{
    if l.len() > 0 {
        assert(l[l.len() - 1].0 != k);
        lemma_assoc_absent(l.drop_last(), k);
        assert(l.drop_last().push(l.last()) =~= l);
    }
}

proof fn lemma_assoc_at<K, V>(l: Seq<(K, V)>, k: K, i: int)
    requires
        0 <= i < l.len(),
        l[i].0 == k,
        keys_distinct(l),
    ensures
        assoc_lookup(l, k) == Some(l[i].1),
        assoc_remove(l, k) == l.remove(i),
    decreases l.len(),
{
    let n = l.len() - 1;
    if i == n {
        assert forall|j: int| 0 <= j < l.drop_last().len() implies #[trigger] l.drop_last()[j].0
            != k by {
            assert(l[j].0 != l[n].0);
        }
        lemma_assoc_absent(l.drop_last(), k);
        assert(l.remove(i) =~= l.drop_last());
    } else {
        assert(l[i].0 != l[n].0);
        lemma_assoc_at(l.drop_last(), k, i);
        assert(l.remove(i) =~= l.drop_last().remove(i).push(l.last()));
    }
}

proof fn lemma_assoc_lookup_found<K, V>(l: Seq<(K, V)>, k: K)
    ensures
        assoc_lookup(l, k) matches Some(e) ==> exists|i: int| 0 <= i < l.len() && #[trigger] l[i] == (
        k,
        e,
        ),
    decreases l.len(),
{
    if l.len() > 0 {
        lemma_assoc_lookup_found(l.drop_last(), k);
        if l.last().0 == k {
            assert(l[l.len() - 1] == (k, l.last().1));
        } else if let Some(e) = assoc_lookup(l, k) {
            let i = choose|i: int| 0 <= i < l.drop_last().len() && #[trigger] l.drop_last()[i] == (k, e);
            assert(l[i] == (k, e));
        }
    }
}

proof fn lemma_first_holding_found<Slot>(l: Seq<(Slot, SlottedElement)>, x: u64)
    ensures
        first_holding(l, x) matches Some(s) ==> exists|i: int|
            0 <= i < l.len() && #[trigger] l[i].0 == s && l[i].1.element == x,
    decreases l.len(),
{
    if l.len() > 0 && l[0].1.element != x {
        lemma_first_holding_found(l.drop_first(), x);
        if let Some(s) = first_holding(l, x) {
            let i = choose|i: int|
                0 <= i < l.drop_first().len() && #[trigger] l.drop_first()[i].0 == s
                    && l.drop_first()[i].1.element == x;
            assert(l[i + 1] == l.drop_first()[i]);
        }
    }
}

/// What a slot's child takes over is one of the old elements still left,
/// taken out of them; or nothing, with the old elements left as they were.
proof fn lemma_claimed<Slot>(
    remaining: Seq<(Slot, SlottedElement)>,
    old_keyed: Map<u64, SlottedElement>,
    slot: Slot,
    child: Option<SlottedChild>,
)
    requires
        keys_distinct(remaining),
    ensures
        ({
            let (from, rest) = claimed_for(remaining, old_keyed, slot, child);
            ||| (from is None && rest == remaining)
            ||| exists|i: int|
                0 <= i < remaining.len() && from == Some(#[trigger] remaining[i].1) && rest
                    == remaining.remove(i)
        }),
{
    let keyed_match = match child {
        Some(c) => match c.key {
            Some(k) => if old_keyed.contains_key(k) {
                Some(old_keyed[k])
            } else {
                None
            },
            None => None,
        },
        None => None,
    };
    match keyed_match {
        Some(keyed) => {
            lemma_first_holding_found(remaining, keyed.element);
            if let Some(its_slot) = first_holding(remaining, keyed.element) {
                let i = choose|i: int|
                    0 <= i < remaining.len() && #[trigger] remaining[i].0 == its_slot
                        && remaining[i].1.element == keyed.element;
                lemma_assoc_at(remaining, its_slot, i);
            }
        },
        None => {
            lemma_assoc_lookup_found(remaining, slot);
            if let Some(old) = assoc_lookup(remaining, slot) {
                let i = choose|i: int| 0 <= i < remaining.len() && #[trigger] remaining[i] == (slot, old);
                lemma_assoc_at(remaining, slot, i);
            }
        },
    }
}

/// No two pairs hold the same element.
pub open spec fn elements_distinct<Slot>(l: Seq<(Slot, SlottedElement)>) -> bool {
    forall|a: int, b: int| 0 <= a < b < l.len() ==> #[trigger] l[a].1.element != #[trigger] l[b].1.element
}

/// Whether some pair holds `element`.
pub open spec fn holds_element<Slot>(l: Seq<(Slot, SlottedElement)>, element: u64) -> bool {
    exists|i: int| 0 <= i < l.len() && #[trigger] l[i].1.element == element
}

/// The element side is sound: each slot once, each element in one slot
/// only, and every element one that was already handed out.
pub open spec fn elements_sound<Slot>(v: ElementView<Slot>) -> bool {
    &&& keys_distinct(v.slots)
    &&& elements_distinct(v.slots)
    &&& forall|i: int| 0 <= i < v.slots.len() ==> #[trigger] v.slots[i].1.element < v.next_element_id
}

/// What holds part way through a rebuild of `v` that started from its slots.
spec fn rebuild_sound<Slot>(
    v: ElementView<Slot>,
    slots: Seq<Slot>,
    st: Rebuild<Slot>,
    n: int,
) -> bool {
    &&& keys_distinct(st.remaining)
    &&& elements_distinct(st.remaining)
    &&& forall|k: int|
        0 <= k < st.remaining.len() ==> holds_element(v.slots, #[trigger] st.remaining[k].1.element)
            && st.remaining[k].1.element < v.next_element_id
    &&& keys_distinct(st.placed)
    &&& elements_distinct(st.placed)
    &&& forall|k: int|
        0 <= k < st.placed.len() ==> exists|j: int| 0 <= j < n && slots[j] == #[trigger] st.placed[k].0
    &&& forall|k: int, m: int|
        0 <= k < st.placed.len() && 0 <= m < st.remaining.len() ==> #[trigger] st.placed[k].1.element
            != #[trigger] st.remaining[m].1.element
    &&& forall|k: int|
        0 <= k < st.placed.len() ==> (holds_element(v.slots, #[trigger] st.placed[k].1.element)
            || v.next_element_id <= st.placed[k].1.element) && st.placed[k].1.element
            < st.next_element_id
    &&& v.next_element_id <= st.next_element_id <= v.next_element_id + n
}

proof fn lemma_rebuild_step_sound<Slot>(
    v: ElementView<Slot>,
    slots: Seq<Slot>,
    children: Seq<Option<SlottedChild>>,
    st: Rebuild<Slot>,
    n: int,
)
    requires
        0 <= n < slots.len(),
        children.len() == slots.len(),
        rebuild_step(st, v.keyed, slots[n], children[n]).next_element_id <= u64::MAX,
        !has_repeated_slot(slots),
        rebuild_sound(v, slots, st, n),
    ensures
        rebuild_sound(v, slots, rebuild_step(st, v.keyed, slots[n], children[n]), n + 1),
{
    let slot = slots[n];
    let child = children[n];
    let next = rebuild_step(st, v.keyed, slot, child);
    let (from, rest) = claimed_for(st.remaining, v.keyed, slot, child);
    lemma_claimed(st.remaining, v.keyed, slot, child);
    if from is Some {
        let i = choose|i: int|
            0 <= i < st.remaining.len() && from == Some(#[trigger] st.remaining[i].1) && rest
                == st.remaining.remove(i);
        st.remaining.remove_ensures(i);
        assert(forall|k: int|
            0 <= k < rest.len() ==> #[trigger] rest[k] == st.remaining[if k < i {
                k
            } else {
                k + 1
            }]);
    }
    assert(keys_distinct(rest));
    assert(elements_distinct(rest));
    if let Some(c) = child {
        assert forall|k: int| 0 <= k < st.placed.len() implies #[trigger] st.placed[k].0 != slot by {
            let j = choose|j: int| 0 <= j < n && slots[j] == st.placed[k].0;
            assert(slots[j] != slots[n]);
        }
        lemma_assoc_absent(st.placed, slot);
        let element_id: nat = match from {
            Some(existing) => existing.element as nat,
            None => st.next_element_id,
        };
        let element = SlottedElement { element: element_id as u64, widget: c.widget, key: c.key };
        assert(next.placed == st.placed.push((slot, element)));
        assert(element.element == element_id);
        assert(forall|k: int| 0 <= k < st.placed.len() ==> #[trigger] next.placed[k] == st.placed[k]);
        assert(next.placed[st.placed.len() as int] == (slot, element));
        assert forall|k: int| 0 <= k < next.placed.len() implies exists|j: int|
            0 <= j < n + 1 && slots[j] == #[trigger] next.placed[k].0 by {
            if k < st.placed.len() {
                let j = choose|j: int| 0 <= j < n && slots[j] == st.placed[k].0;
                assert(slots[j] == next.placed[k].0);
            } else {
                assert(slots[n] == next.placed[k].0);
            }
        }
        assert(rebuild_sound(v, slots, next, n + 1));
    } else {
        assert forall|k: int| 0 <= k < next.placed.len() implies exists|j: int|
            0 <= j < n + 1 && slots[j] == #[trigger] next.placed[k].0 by {
            let j = choose|j: int| 0 <= j < n && slots[j] == st.placed[k].0;
            assert(slots[j] == next.placed[k].0);
        }
    }
}

proof fn lemma_rebuild_through_sound<Slot>(
    v: ElementView<Slot>,
    slots: Seq<Slot>,
    children: Seq<Option<SlottedChild>>,
    n: int,
)
    requires
        elements_sound(v),
        0 <= n <= slots.len(),
        children.len() == slots.len(),
        ids_after(v, slots, children) <= u64::MAX,
        !has_repeated_slot(slots),
    ensures
        rebuild_sound(v, slots, rebuild_through(rebuild_start(v), v.keyed, slots, children, n), n),
    decreases n,
{
    if n == 0 {
        let st = rebuild_start(v);
        assert forall|k: int| 0 <= k < st.remaining.len() implies holds_element(
            v.slots,
            #[trigger] st.remaining[k].1.element,
        ) by {
            assert(v.slots[k].1.element == st.remaining[k].1.element);
        }
    } else {
        lemma_rebuild_through_sound(v, slots, children, n - 1);
        lemma_rebuild_next_grows(rebuild_start(v), v.keyed, slots, children, n, slots.len() as int);
        lemma_rebuild_step_sound(
            v,
            slots,
            children,
            rebuild_through(rebuild_start(v), v.keyed, slots, children, n - 1),
            n - 1,
        );
    }
}

/// **Element ids stay sound across a rebuild**: afterwards no slot is
/// listed twice, no element sits in two slots, and every element in a slot is
/// either one the slots held before or one this rebuild handed out fresh.
pub proof fn lemma_rebuild_keeps_elements_sound<Slot>(
    v: ElementView<Slot>,
    slots: Seq<Slot>,
    children: Seq<Option<SlottedChild>>,
)
    requires
        elements_sound(v),
        children.len() == slots.len(),
        rebuild_fits(v, slots, children),
    ensures
        ({
            let after = rebuilt(v, slots, children).0;
            &&& elements_sound(after)
            &&& v.next_element_id <= after.next_element_id
            &&& forall|i: int|
                0 <= i < after.slots.len() ==> holds_element(v.slots, #[trigger] after.slots[i].1.element)
                    || v.next_element_id <= after.slots[i].1.element
        }),
{
    if !(v.previous_slots is Some && v.previous_slots->0 != slots) && !has_repeated_slot(slots) {
        lemma_rebuild_through_sound(v, slots, children, slots.len() as int);
    }
}

/// Whether what a slot holds answers to the child given for it: nothing for
/// no child, and otherwise an element with the child's widget and key.
pub open spec fn answers_to(held: Option<SlottedElement>, child: Option<SlottedChild>) -> bool {
    match child {
        None => held is None,
        Some(c) => held matches Some(e) && e.widget == c.widget && e.key == c.key,
    }
}

/// The ids handed out fresh from `from` up to `to`, in order.
pub open spec fn fresh_ids(from: nat, to: nat) -> Seq<u64> {
    Seq::new((to - from) as nat, |k: int| (from + k) as u64)
}

/// The part of `s` after its first `n` entries.
pub open spec fn appended<T>(s: Seq<T>, n: nat) -> Seq<T> {
    s.skip(n as int)
}

/// Where every element went part way through a rebuild of `v`: each slot
/// so far answers to its child; the records only grew; the new `created`
/// ids are the fresh ones in order; every old element is reused, deactivated
/// or still left, once; and the placed elements are the reused and the
/// created ones.
spec fn rebuild_accounted<Slot>(
    v: ElementView<Slot>,
    slots: Seq<Slot>,
    children: Seq<Option<SlottedChild>>,
    st: Rebuild<Slot>,
    n: int,
) -> bool {
    &&& forall|j: int| 0 <= j < n ==> answers_to(assoc_lookup(st.placed, #[trigger] slots[j]), children[j])
    &&& v.reused.len() <= st.reused.len() && st.reused.take(v.reused.len() as int) == v.reused
    &&& v.deactivated.len() <= st.deactivated.len() && st.deactivated.take(v.deactivated.len() as int)
        == v.deactivated
    &&& st.created == v.created + fresh_ids(v.next_element_id as nat, st.next_element_id)
    &&& appended(st.reused, v.reused.len()).to_multiset().add(
        appended(st.deactivated, v.deactivated.len()).to_multiset(),
    ).add(elements_of(st.remaining).to_multiset()) == elements_of(v.slots).to_multiset()
    &&& elements_of(st.placed).to_multiset() == appended(st.reused, v.reused.len()).to_multiset().add(
        fresh_ids(v.next_element_id as nat, st.next_element_id).to_multiset(),
    )
}

proof fn lemma_rebuild_step_accounted<Slot>(
    v: ElementView<Slot>,
    slots: Seq<Slot>,
    children: Seq<Option<SlottedChild>>,
    st: Rebuild<Slot>,
    n: int,
)
    requires
        0 <= n < slots.len(),
        children.len() == slots.len(),
        rebuild_step(st, v.keyed, slots[n], children[n]).next_element_id <= u64::MAX,
        !has_repeated_slot(slots),
        rebuild_sound(v, slots, st, n),
        rebuild_accounted(v, slots, children, st, n),
    ensures
        rebuild_accounted(v, slots, children, rebuild_step(st, v.keyed, slots[n], children[n]), n + 1),
{
    broadcast use vstd::multiset::group_multiset_axioms;
    broadcast use vstd::seq_lib::to_multiset_build, vstd::seq_lib::to_multiset_remove, vstd::seq_lib::to_multiset_contains;

    let slot = slots[n];
    let child = children[n];
    let next = rebuild_step(st, v.keyed, slot, child);
    let (from, rest) = claimed_for(st.remaining, v.keyed, slot, child);
    lemma_claimed(st.remaining, v.keyed, slot, child);
    let rl = v.reused.len();
    let dl = v.deactivated.len();
    let old_fresh = fresh_ids(v.next_element_id as nat, st.next_element_id);
    assert forall|k: int| 0 <= k < st.placed.len() implies #[trigger] st.placed[k].0 != slot by {
        let j = choose|j: int| 0 <= j < n && slots[j] == st.placed[k].0;
        assert(slots[j] != slots[n]);
    }
    lemma_assoc_absent(st.placed, slot);
    if from is Some {
        let i = choose|i: int|
            0 <= i < st.remaining.len() && from == Some(#[trigger] st.remaining[i].1) && rest
                == st.remaining.remove(i);
        assert(elements_of(rest) =~= elements_of(st.remaining).remove(i));
        assert(elements_of(st.remaining)[i] == from->0.element);
        assert(elements_of(st.remaining).contains(from->0.element));
        assert(elements_of(st.remaining).to_multiset().count(from->0.element) > 0);
    } else {
        assert(rest == st.remaining);
    }
    match child {
        None => {
            assert(next.placed == st.placed);
            assert forall|j: int| 0 <= j < n + 1 implies answers_to(
                assoc_lookup(next.placed, #[trigger] slots[j]),
                children[j],
            ) by {}
            if let Some(gone) = from {
                assert(appended(next.deactivated, dl) =~= appended(st.deactivated, dl).push(
                    gone.element,
                ));
                assert(next.deactivated.take(dl as int) =~= st.deactivated.take(dl as int));
            }
            assert(next.reused == st.reused);
            assert(appended(next.reused, rl).to_multiset().add(
                appended(next.deactivated, dl).to_multiset(),
            ).add(elements_of(next.remaining).to_multiset()) =~= elements_of(v.slots).to_multiset());
        },
        Some(c) => {
            let element_id: nat = match from {
                Some(existing) => existing.element as nat,
                None => st.next_element_id,
            };
            let element = SlottedElement { element: element_id as u64, widget: c.widget, key: c.key };
            assert(next.placed == st.placed.push((slot, element)));
            assert(elements_of(next.placed) =~= elements_of(st.placed).push(element.element));
            assert forall|j: int| 0 <= j < n + 1 implies answers_to(
                assoc_lookup(next.placed, #[trigger] slots[j]),
                children[j],
            ) by {
                lemma_assoc_insert_lookup(st.placed, slot, element, slots[j]);
                if j < n {
                    assert(slots[j] != slots[n]);
                }
            }
            if let Some(existing) = from {
                assert(appended(next.reused, rl) =~= appended(st.reused, rl).push(existing.element));
                assert(next.reused.take(rl as int) =~= st.reused.take(rl as int));
                assert(appended(next.reused, rl).to_multiset().add(
                    appended(next.deactivated, dl).to_multiset(),
                ).add(elements_of(next.remaining).to_multiset()) =~= elements_of(v.slots).to_multiset());
                assert(elements_of(next.placed).to_multiset() =~= appended(next.reused, rl).to_multiset().add(
                    fresh_ids(v.next_element_id as nat, next.next_element_id).to_multiset(),
                ));
            } else {
                let fresh = fresh_ids(v.next_element_id as nat, next.next_element_id);
                assert(fresh =~= old_fresh.push(st.next_element_id as u64));
                assert(next.created =~= st.created.push(st.next_element_id as u64));
                assert(next.created =~= v.created + fresh);
                assert(elements_of(next.placed).to_multiset() =~= appended(next.reused, rl).to_multiset().add(
                    fresh.to_multiset(),
                ));
            }
        },
    }
}

proof fn lemma_rebuild_through_accounted<Slot>(
    v: ElementView<Slot>,
    slots: Seq<Slot>,
    children: Seq<Option<SlottedChild>>,
    n: int,
)
    requires
        elements_sound(v),
        0 <= n <= slots.len(),
        children.len() == slots.len(),
        ids_after(v, slots, children) <= u64::MAX,
        !has_repeated_slot(slots),
    ensures
        rebuild_accounted(
            v,
            slots,
            children,
            rebuild_through(rebuild_start(v), v.keyed, slots, children, n),
            n,
        ),
    decreases n,
{
    broadcast use vstd::multiset::group_multiset_axioms;

    if n == 0 {
        let st = rebuild_start(v);
        assert(Seq::<u64>::empty().to_multiset() =~= vstd::multiset::Multiset::<u64>::empty()) by {
            vstd::seq_lib::to_multiset_len(Seq::<u64>::empty());
            vstd::multiset::lemma_multiset_empty_len(Seq::<u64>::empty().to_multiset());
        }
        assert(st.reused.take(v.reused.len() as int) =~= v.reused);
        assert(st.deactivated.take(v.deactivated.len() as int) =~= v.deactivated);
        assert(appended(st.reused, v.reused.len()) =~= Seq::<u64>::empty());
        assert(appended(st.deactivated, v.deactivated.len()) =~= Seq::<u64>::empty());
        assert(fresh_ids(v.next_element_id as nat, st.next_element_id) =~= Seq::<u64>::empty());
        assert(st.created =~= v.created + Seq::<u64>::empty());
        assert(elements_of(st.placed) =~= Seq::<u64>::empty());
        assert(appended(st.reused, v.reused.len()).to_multiset().add(
            appended(st.deactivated, v.deactivated.len()).to_multiset(),
        ).add(elements_of(st.remaining).to_multiset()) =~= elements_of(v.slots).to_multiset());
        assert(elements_of(st.placed).to_multiset() =~= appended(st.reused, v.reused.len()).to_multiset().add(
            fresh_ids(v.next_element_id as nat, st.next_element_id).to_multiset(),
        ));
    } else {
        lemma_rebuild_through_sound(v, slots, children, n - 1);
        lemma_rebuild_through_accounted(v, slots, children, n - 1);
        lemma_rebuild_next_grows(rebuild_start(v), v.keyed, slots, children, n, slots.len() as int);
        lemma_rebuild_step_accounted(
            v,
            slots,
            children,
            rebuild_through(rebuild_start(v), v.keyed, slots, children, n - 1),
            n - 1,
        );
    }
}

/// **Every element is accounted for after a rebuild that went through**:
/// each slot answers to the child given for it; the records only grow; of
/// the old elements each was either reused or deactivated, exactly once
/// between the two; the created ids are fresh ones, in increasing order; and
/// the elements now in the slots are exactly the reused and the created ones.
pub proof fn lemma_rebuild_accounts_for_every_element<Slot>(
    v: ElementView<Slot>,
    slots: Seq<Slot>,
    children: Seq<Option<SlottedChild>>,
)
    requires
        elements_sound(v),
        children.len() == slots.len(),
        rebuild_fits(v, slots, children),
    ensures
        ({
            let (after, r) = rebuilt(v, slots, children);
            (r is Ok || r matches Err(SlotError::DuplicateKey(_))) ==> {
                &&& forall|j: int|
                    0 <= j < slots.len() ==> answers_to(
                        assoc_lookup(after.slots, #[trigger] slots[j]),
                        children[j],
                    )
                &&& after.reused.take(v.reused.len() as int) == v.reused
                &&& after.deactivated.take(v.deactivated.len() as int) == v.deactivated
                &&& after.created == v.created + fresh_ids(
                    v.next_element_id as nat,
                    after.next_element_id as nat,
                )
                &&& appended(after.reused, v.reused.len()).to_multiset().add(
                    appended(after.deactivated, v.deactivated.len()).to_multiset(),
                ) == elements_of(v.slots).to_multiset()
                &&& elements_of(after.slots).to_multiset() == appended(
                    after.reused,
                    v.reused.len(),
                ).to_multiset().add(
                    fresh_ids(v.next_element_id as nat, after.next_element_id as nat).to_multiset(),
                )
            }
        }),
{
    broadcast use vstd::multiset::group_multiset_axioms;
    broadcast use vstd::seq_lib::lemma_multiset_commutative;

    if !(v.previous_slots is Some && v.previous_slots->0 != slots) && !has_repeated_slot(slots) {
        let len = slots.len() as int;
        lemma_rebuild_through_sound(v, slots, children, len);
        lemma_rebuild_through_accounted(v, slots, children, len);
        let done = rebuild_through(rebuild_start(v), v.keyed, slots, children, len);
        let after = rebuilt(v, slots, children).0;
        let dl = v.deactivated.len();
        assert(after.next_element_id as nat == done.next_element_id);
        assert(appended(after.deactivated, dl) =~= appended(done.deactivated, dl) + elements_of(
            done.remaining,
        ));
        assert(after.deactivated.take(dl as int) =~= done.deactivated.take(dl as int));
    }
}

} // verus!
