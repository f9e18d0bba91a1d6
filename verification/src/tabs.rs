//! The tab selection and the tab bar's scroll position.
//!
//! A tab selection can move two ways -- somebody taps a tab, or somebody
//! drags the pages -- and almost everything here is about keeping those two
//! apart. The controller keeps the index and *why* it is moving; the
//! animation value itself, a fraction of a page, is kept by the caller beside
//! it, and the controller says when that value settles on the index.
//!
//! The scroll position cannot know where to scroll until layout has told it
//! how wide the bar is.

use vstd::prelude::*;

verus! {

/// Why a call to change the tab index did nothing, or that it did something.
#[derive(Clone, Copy, Debug, PartialEq, Eq, Structural)]
pub enum ChangeOutcome {
    Changed,
    /// Already there.
    AlreadySelected,
    /// Fewer than two tabs.
    NothingToSwitchBetween,
}

/// The tab bar's scroll controller. **You cannot know where to scroll to
/// show tab five until you know how wide the bar is**, so the position is
/// created with no pixels and corrects itself once the dimensions arrive.
#[derive(Clone, Copy, Debug, PartialEq, Eq, Structural)]
pub struct TabBarScrollController {
    pub attached: bool,
    viewport_dimension_was_non_zero: bool,
    needs_pixels_correction: bool,
}

/// The controller as the contracts see it.
pub struct TabScrollView {
    pub attached: bool,
    pub viewport_dimension_was_non_zero: bool,
    pub needs_pixels_correction: bool,
}

impl View for TabBarScrollController {
    type V = TabScrollView;

    closed spec fn view(&self) -> TabScrollView {
        TabScrollView {
            attached: self.attached,
            viewport_dimension_was_non_zero: self.viewport_dimension_was_non_zero,
            needs_pixels_correction: self.needs_pixels_correction,
        }
    }
}

impl Default for TabBarScrollController {
    fn default() -> (r: TabBarScrollController)
        ensures
            r@ == (TabScrollView {
                attached: false,
                viewport_dimension_was_non_zero: false,
                needs_pixels_correction: false,
            }),
    {
        TabBarScrollController {
            attached: false,
            viewport_dimension_was_non_zero: false,
            needs_pixels_correction: false,
        }
    }
}

impl TabBarScrollController {
    /// A controller whose position has to be corrected at least once.
    pub fn new() -> (r: TabBarScrollController)
        ensures
            r@ == (TabScrollView {
                attached: false,
                viewport_dimension_was_non_zero: false,
                needs_pixels_correction: true,
            }),
    {
        TabBarScrollController {
            attached: false,
            viewport_dimension_was_non_zero: false,
            needs_pixels_correction: true,
        }
    }

    /// Whether a tab bar is there to ask.
    pub fn debug_check_has_tab_bar_state(&self) -> (r: bool)
        ensures
            r == self@.attached,
    {
        self.attached
    }

    /// The viewport's dimensions arrived; `viewport_is_non_zero` is whether
    /// its extent is not zero. Gives whether the pixels were corrected: while
    /// no non-zero extent has been seen the pixels are corrected every time,
    /// since the viewport may briefly report zero before its real size, and
    /// starting a scroll from that bogus position would fling the bar on its
    /// first layout.
    pub fn apply_content_dimensions(&mut self, viewport_is_non_zero: bool) -> (r: bool)
        ensures
            final(self)@.attached == old(self)@.attached,
            final(self)@.viewport_dimension_was_non_zero == (
            old(self)@.viewport_dimension_was_non_zero || viewport_is_non_zero),
            r == (!final(self)@.viewport_dimension_was_non_zero
                || old(self)@.needs_pixels_correction),
            final(self)@.needs_pixels_correction == (old(self)@.needs_pixels_correction && !r),
    {
        if !self.viewport_dimension_was_non_zero {
            self.viewport_dimension_was_non_zero = viewport_is_non_zero;
        }
        if !self.viewport_dimension_was_non_zero || self.needs_pixels_correction {
            self.needs_pixels_correction = false;
            return true;
        }
        false
    }

    /// Asks for the pixels to be corrected on the next dimensions.
    pub fn mark_needs_pixels_correction(&mut self)
        ensures
            final(self)@ == (TabScrollView { needs_pixels_correction: true, ..old(self)@ }),
    {
        self.needs_pixels_correction = true;
    }
}

/// How long a tap's move to another tab animates, in milliseconds.
pub const TAB_SCROLL_DURATION_MS: u64 = 300;

/// The selected tab, the previous one, and whether the selection is moving
/// because of a tap.
#[derive(Clone, Copy, Debug, PartialEq, Eq, Structural)]
pub struct TabController {
    length: usize,
    index: usize,
    previous_index: usize,
    /// **A count, not a flag**: tap tab three while the move to tab two is
    /// still running and two changes are in flight. A flag would be cleared by
    /// the first completion while the second was still going.
    index_is_changing_count: i32,
    disposed: bool,
}

/// The controller as the contracts see it.
pub struct TabControllerView {
    pub length: usize,
    pub index: usize,
    pub previous_index: usize,
    pub changing: i32,
    pub disposed: bool,
}

impl View for TabController {
    type V = TabControllerView;

    closed spec fn view(&self) -> TabControllerView {
        TabControllerView {
            length: self.length,
            index: self.index,
            previous_index: self.previous_index,
            changing: self.index_is_changing_count,
            disposed: self.disposed,
        }
    }
}

/// The message an out-of-range initial index is refused with.
pub open spec fn invalid_initial_index_message() -> Seq<char> {
    "initialIndex must be valid given length"@
}

/// Why a change of index would do nothing, if it would.
pub open spec fn change_outcome(c: TabControllerView, value: usize) -> ChangeOutcome {
    if value == c.index {
        ChangeOutcome::AlreadySelected
    } else if c.length < 2 {
        ChangeOutcome::NothingToSwitchBetween
    } else {
        ChangeOutcome::Changed
    }
}

/// The controller after a change of index. A tap's change leaves one more
/// animation in flight; a change without animation counts up and down around
/// one synchronous step, so it leaves no trace in the count.
pub open spec fn after_change(c: TabControllerView, value: usize, animated: bool) -> TabControllerView {
    if change_outcome(c, value) == ChangeOutcome::Changed {
        TabControllerView {
            previous_index: c.index,
            index: value,
            changing: if animated {
                (c.changing + 1) as i32
            } else {
                c.changing
            },
            ..c
        }
    } else {
        c
    }
}

/// The controller once a tap's animation completes or is cancelled: one
/// fewer in flight, **unless it was disposed in the meantime**, when nothing
/// changes -- a finished animation must not notify a dead controller.
pub open spec fn after_completion(c: TabControllerView) -> TabControllerView {
    if c.disposed {
        c
    } else {
        TabControllerView { changing: (c.changing - 1) as i32, ..c }
    }
}

impl TabController {
    /// A controller over `length` tabs at `initial_index`.
    ///
    /// **Zero tabs is legal**, and with zero tabs the range check is off
    /// entirely: a zero-tab controller reporting index 47 can be built, and
    /// nothing downstream ever repairs the value -- changing the index only
    /// stops it from moving.
    pub fn new(length: usize, initial_index: usize) -> (r: Result<TabController, &'static str>)
        ensures
            match r {
                Ok(c) => length == 0 || initial_index < length,
                Err(message) => length != 0 && initial_index >= length && message@
                    == invalid_initial_index_message(),
            },
            r matches Ok(c) ==> c@ == (TabControllerView {
                length,
                index: initial_index,
                previous_index: initial_index,
                changing: 0,
                disposed: false,
            }),
    {
        if length != 0 && initial_index >= length {
            return Err("initialIndex must be valid given length");
        }
        Ok(
            TabController {
                length,
                index: initial_index,
                previous_index: initial_index,
                index_is_changing_count: 0,
                disposed: false,
            },
        )
    }

    pub fn length(&self) -> (r: usize)
        ensures
            r == self@.length,
    {
        self.length
    }

    pub fn index(&self) -> (r: usize)
        ensures
            r == self@.index,
    {
        self.index
    }

    /// Initially the same as the index.
    pub fn previous_index(&self) -> (r: usize)
        ensures
            r == self@.previous_index,
    {
        self.previous_index
    }

    /// True while the selection moves **because of a tap**. It is named for
    /// the cause, not the fact: during a drag the index really does change and
    /// this stays false, because what callers need is not *whether* the
    /// selection is moving but *which of the two ways*.
    pub fn index_is_changing(&self) -> (r: bool)
        ensures
            r == (self@.changing != 0),
    {
        self.index_is_changing_count != 0
    }

    /// How many tap animations are in flight.
    pub fn changes_in_flight(&self) -> (r: i32)
        ensures
            r == self@.changing,
    {
        self.index_is_changing_count
    }

    pub fn is_disposed(&self) -> (r: bool)
        ensures
            r == self@.disposed,
    {
        self.disposed
    }

    /// Moves the selection to `value`, animated or not.
    ///
    /// The early return on **fewer than two tabs** is doing more than it looks
    /// like: it is what actually stops a zero-tab controller from accepting an
    /// arbitrary index. The guard that reads like an optimisation is the one
    /// holding the invariant.
    pub fn change_index(&mut self, value: usize, animated: bool) -> (r: ChangeOutcome)
        requires
            change_outcome(old(self)@, value) == ChangeOutcome::Changed ==> old(self)@.changing
                < i32::MAX,
        ensures
            r == change_outcome(old(self)@, value),
            final(self)@ == after_change(old(self)@, value, animated),
    {
        if value == self.index {
            return ChangeOutcome::AlreadySelected;
        }
        if self.length < 2 {
            return ChangeOutcome::NothingToSwitchBetween;
        }
        self.previous_index = self.index;
        self.index = value;
        if animated {
            self.index_is_changing_count = self.index_is_changing_count + 1;
        } else {
            // Listeners woken by the synchronous step see the count raised.
            self.index_is_changing_count = self.index_is_changing_count + 1;
            self.index_is_changing_count = self.index_is_changing_count - 1;
        }
        ChangeOutcome::Changed
    }

    /// A tap's move: a change of index with an animation.
    pub fn animate_to(&mut self, value: usize) -> (r: ChangeOutcome)
        requires
            change_outcome(old(self)@, value) == ChangeOutcome::Changed ==> old(self)@.changing
                < i32::MAX,
        ensures
            r == change_outcome(old(self)@, value),
            final(self)@ == after_change(old(self)@, value, true),
    {
        self.change_index(value, true)
    }

    /// A tap's animation completed or was cancelled. Returns whether the
    /// animation value now settles on the index, which it does unless the
    /// controller was disposed in the meantime.
    pub fn complete_animation(&mut self) -> (settles: bool)
        requires
            !old(self)@.disposed ==> old(self)@.changing > i32::MIN,
        ensures
            final(self)@ == after_completion(old(self)@),
            settles == !old(self)@.disposed,
    {
        if self.disposed {
            return false;
        }
        self.index_is_changing_count = self.index_is_changing_count - 1;
        true
    }

    /// Whether the pages may be dragged now: **not while a tap's animation is
    /// still running**, so the two ways of moving are not merely told apart,
    /// they exclude each other.
    pub fn may_drag(&self) -> (r: bool)
        ensures
            r == (self@.changing == 0),
    {
        !self.index_is_changing()
    }

    pub fn dispose(&mut self)
        ensures
            final(self)@ == (TabControllerView { disposed: true, ..old(self)@ }),
    {
        self.disposed = true;
    }

    /// A new controller for a changed length that **inherits the running
    /// animation** rather than starting one, so the tabs do not jump.
    pub fn copy_with(&self, length: usize, index: Option<usize>) -> (r: TabController)
        ensures
            r@ == (TabControllerView {
                length,
                index: match index {
                    Some(i) => i,
                    None => self@.index,
                },
                disposed: false,
                ..self@
            }),
    {
        TabController {
            length,
            index: match index {
                Some(i) => i,
                None => self.index,
            },
            previous_index: self.previous_index,
            index_is_changing_count: self.index_is_changing_count,
            disposed: false,
        }
    }
}

/// A controller found by the widgets below it without being handed one.
#[derive(Clone, Copy, Debug, PartialEq, Eq, Structural)]
pub struct DefaultTabController {
    pub controller: TabController,
    pub child: u64,
}

/// The index a changed length keeps: pulled back to the last tab when it
/// would fall off the end of a non-empty list, otherwise where it was.
pub open spec fn index_for_length(index: usize, length: usize) -> Option<usize> {
    if index >= length && length > 0 {
        Some((length - 1) as usize)
    } else {
        None
    }
}

impl DefaultTabController {
    /// A default controller, or `None` where the controller would be refused.
    pub fn new(length: usize, initial_index: usize, child: u64) -> (r: Option<DefaultTabController>)
        ensures
            match r {
                Some(d) => (length == 0 || initial_index < length) && d.child == child
                    && d.controller@ == (TabControllerView {
                    length,
                    index: initial_index,
                    previous_index: initial_index,
                    changing: 0,
                    disposed: false,
                }),
                None => length != 0 && initial_index >= length,
            },
    {
        match TabController::new(length, initial_index) {
            Ok(controller) => Some(DefaultTabController { controller, child }),
            Err(_) => None,
        }
    }

    /// A changed length reuses the running animation through
    /// [`TabController::copy_with`], pulling a selection that fell off the end
    /// back into range.
    pub fn update_length(&mut self, length: usize)
        ensures
            final(self).child == old(self).child,
            final(self).controller@ == (TabControllerView {
                length,
                index: match index_for_length(old(self).controller@.index, length) {
                    Some(i) => i,
                    None => old(self).controller@.index,
                },
                disposed: false,
                ..old(self).controller@
            }),
    {
        let index = if self.controller.index() >= length && length > 0 {
            Some(length - 1)
        } else {
            None
        };
        self.controller = self.controller.copy_with(length, index);
    }
}

/// The count is why a second tap during the first animation keeps the
/// selection marked as moving: after two taps and one completion one change
/// is still in flight, and only the second completion settles it.
pub proof fn lemma_overlapping_taps_keep_the_flag(c: TabControllerView, first: usize, second: usize)
    requires
        c.changing == 0,
        !c.disposed,
        c.length >= 2,
        first != c.index,
        second != first,
    ensures
        ({
            let tapped = after_change(after_change(c, first, true), second, true);
            &&& tapped.changing != 0
            &&& after_completion(tapped).changing != 0
            &&& after_completion(after_completion(tapped)).changing == 0
        }),
{
}

/// A change without animation leaves no trace of the flag afterwards.
pub proof fn lemma_an_unanimated_change_leaves_no_trace(c: TabControllerView, value: usize)
    ensures
        after_change(c, value, false).changing == c.changing,
{
}

/// With fewer than two tabs the index never moves -- which is also why
/// nothing ever repairs an out-of-range index on a zero-tab controller.
pub proof fn lemma_fewer_than_two_tabs_never_move(c: TabControllerView, value: usize, animated: bool)
    requires
        c.length < 2,
    ensures
        after_change(c, value, animated) == c,
{
}

/// A selection in range stays in range when moved to a tab in range, and a
/// changed length pulls it back into range.
pub proof fn lemma_the_index_stays_in_range(
    c: TabControllerView,
    value: usize,
    animated: bool,
    length: usize,
)
    requires
        c.index < c.length,
        value < c.length,
    ensures
        after_change(c, value, animated).index < c.length,
        length > 0 ==> (match index_for_length(c.index, length) {
            Some(i) => i,
            None => c.index,
        }) < length,
{
}

/// **A changed length keeps the nearest tab it can**: a selection still in
/// range stays where it is; one at or past the end of a non-empty list moves
/// to the last tab, the nearest one left; and an empty list leaves it alone.
pub proof fn lemma_a_changed_length_keeps_the_nearest_tab(index: usize, length: usize)
    ensures
        ({
            let kept = match index_for_length(index, length) {
                Some(i) => i,
                None => index,
            };
            &&& index < length ==> kept == index
            &&& index >= length && length > 0 ==> kept + 1 == length
            &&& length == 0 ==> kept == index
            &&& length > 0 ==> kept < length && kept <= index
        }),
{
}

/// **A change selects the tab asked for and remembers the one left**: with
/// at least two tabs and a different tab asked for, the index becomes that
/// tab, the previous index the one it was, the length stays, and one more
/// change is in flight exactly when it is animated; asking for the selected
/// tab, or having fewer than two, changes nothing.
pub proof fn lemma_a_change_selects_the_tab_asked_for(
    c: TabControllerView,
    value: usize,
    animated: bool,
)
    requires
        c.changing < i32::MAX,
    ensures
        ({
            let after = after_change(c, value, animated);
            &&& value != c.index && c.length >= 2 ==> {
                &&& after.index == value
                &&& after.previous_index == c.index
                &&& after.length == c.length
                &&& after.disposed == c.disposed
                &&& after.changing == c.changing + if animated {
                    1int
                } else {
                    0int
                }
            }
            &&& value == c.index || c.length < 2 ==> after == c
        }),
{
}

/// The message a tab with nothing in it is refused with.
pub open spec fn empty_tab_message() -> Seq<char> {
    "Tab requires at least one of text, child, or icon to be non-null."@
}

/// The message a tab with both text and a child is refused with.
pub open spec fn text_and_child_message() -> Seq<char> {
    "Provide either text or child, not both, when creating a Tab."@
}

/// What a tab holds. A tab needs something in it, and text is an
/// **alternative** to a child rather than a shorthand for one: offering both
/// is an error, not a precedence question.
pub fn validate_tab_content(has_text: bool, has_child: bool, has_icon: bool) -> (r: Result<
    (),
    &'static str,
>)
    ensures
        match r {
            Ok(()) => (has_text || has_child || has_icon) && !(has_text && has_child),
            Err(message) => if !has_text && !has_child && !has_icon {
                message@ == empty_tab_message()
            } else {
                has_text && has_child && message@ == text_and_child_message()
            },
        },
{
    if !has_text && !has_child && !has_icon {
        return Err("Tab requires at least one of text, child, or icon to be non-null.");
    }
    if has_text && has_child {
        return Err("Provide either text or child, not both, when creating a Tab.");
    }
    Ok(())
}

} // verus!
