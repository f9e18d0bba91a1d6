//! Small widgets that are each a single decision written down: a filter that
//! can be switched off, a key listener, a pot of shared values, and a
//! spell-check configuration.

use crate::text::{owned, same_text};
use vstd::prelude::*;

verus! {

/// Applies a filter to everything its child paints.
#[derive(Clone, Copy, Debug, PartialEq, Eq, Structural)]
pub struct ImageFiltered {
    /// Which filter, by identity.
    pub image_filter: u64,
    /// True by default.
    pub enabled: bool,
}

impl ImageFiltered {
    pub fn new(image_filter: u64) -> (r: ImageFiltered)
        ensures
            r == (ImageFiltered { image_filter, enabled: true }),
    {
        ImageFiltered { image_filter, enabled: true }
    }

    pub fn with_enabled(self, enabled: bool) -> (r: Self)
        ensures
            r == (ImageFiltered { enabled, ..self }),
    {
        ImageFiltered { enabled, ..self }
    }

    /// Whether a layer is made for the filter. A no-op filter is not free:
    /// the child is still rasterised into a layer and pushed through it, which
    /// is why switching the filter off, rather than passing a no-op one, skips
    /// the layer entirely.
    pub fn creates_layer(&self) -> (r: bool)
        ensures
            r == self.enabled,
    {
        self.enabled
    }
}

/// What a key handler decided.
#[derive(Clone, Copy, Debug, PartialEq, Eq, Structural)]
pub enum KeyEventResult {
    /// The key was used; nobody else should see it.
    Handled,
    /// Not mine, keep looking.
    Ignored,
    /// Stop asking, but do not claim the key either: nothing below should get
    /// it, which is different from using it.
    SkipRemainingHandlers,
}

impl Default for KeyEventResult {
    fn default() -> (r: KeyEventResult)
        ensures
            r == KeyEventResult::Ignored,
    {
        KeyEventResult::Ignored
    }
}

/// Raw key events, without focus traversal, shortcuts or actions.
#[derive(Clone, Copy, Debug, PartialEq, Eq, Structural)]
pub struct KeyboardListener {
    /// False by default: a listener that grabbed focus on build would take it
    /// from whatever the reader was using.
    pub autofocus: bool,
    /// True by default: something that takes key events is something a
    /// keyboard user can reach.
    pub include_semantics: bool,
}

impl Default for KeyboardListener {
    fn default() -> (r: KeyboardListener)
        ensures
            r == (KeyboardListener { autofocus: false, include_semantics: false }),
    {
        KeyboardListener { autofocus: false, include_semantics: false }
    }
}

impl KeyboardListener {
    pub fn new() -> (r: KeyboardListener)
        ensures
            r == (KeyboardListener { autofocus: false, include_semantics: true }),
    {
        KeyboardListener { autofocus: false, include_semantics: true }
    }

    /// A listener with no callback ignores the key, so an empty listener is
    /// transparent rather than a hole keys fall into; otherwise the key is
    /// handled exactly when the callback handled it.
    pub fn handle(&self, has_callback: bool, callback_handled: bool) -> (r: KeyEventResult)
        ensures
            r == (if has_callback && callback_handled {
                KeyEventResult::Handled
            } else {
                KeyEventResult::Ignored
            }),
    {
        if !has_callback {
            return KeyEventResult::Ignored;
        }
        if callback_handled {
            KeyEventResult::Handled
        } else {
            KeyEventResult::Ignored
        }
    }
}

/// The shared values as the contracts see them.
pub struct SharedDataView {
    pub values: Seq<(Seq<char>, Seq<char>)>,
    pub dependencies: Seq<Seq<char>>,
    pub rebuilds: usize,
}

/// The value held for `key`: the first pair with that key.
pub open spec fn value_for(values: Seq<(Seq<char>, Seq<char>)>, key: Seq<char>) -> Option<
    Seq<char>,
>
    decreases values.len(),
{
    if values.len() == 0 {
        None
    } else if values[0].0 == key {
        Some(values[0].1)
    } else {
        value_for(values.drop_first(), key)
    }
}

/// The values with the first pair for `key` now holding `value`, or a new
/// pair at the end when there is none.
pub open spec fn with_value(values: Seq<(Seq<char>, Seq<char>)>, key: Seq<char>, value: Seq<char>) -> Seq<
    (Seq<char>, Seq<char>),
>
    decreases values.len(),
{
    if values.len() == 0 {
        seq![(key, value)]
    } else if values[0].0 == key {
        values.update(0, (key, value))
    } else {
        seq![values[0]] + with_value(values.drop_first(), key, value)
    }
}

/// A small pot of values a package's own widgets can share, each one created
/// lazily by whoever asks first.
#[derive(Debug, PartialEq, Eq)]
pub struct SharedAppData {
    values: Vec<(String, String)>,
    /// The keys a dependency was created on, in order.
    dependencies: Vec<String>,
    rebuilds: usize,
}

/// The views of a list of strings.
pub open spec fn texts(v: Seq<String>) -> Seq<Seq<char>> {
    v.map_values(|s: String| s@)
}

/// The views of a list of string pairs.
pub open spec fn text_pairs(v: Seq<(String, String)>) -> Seq<(Seq<char>, Seq<char>)> {
    v.map_values(|e: (String, String)| (e.0@, e.1@))
}

impl View for SharedAppData {
    type V = SharedDataView;

    closed spec fn view(&self) -> SharedDataView {
        SharedDataView {
            values: text_pairs(self.values@),
            dependencies: texts(self.dependencies@),
            rebuilds: self.rebuilds,
        }
    }
}

impl SharedAppData {
    /// Each key appears at most once among the dependencies.
    #[verifier::type_invariant]
    spec fn dependencies_once(&self) -> bool {
        texts(self.dependencies@).no_duplicates()
    }
}

impl Default for SharedAppData {
    fn default() -> (r: SharedAppData)
        ensures
            r@.values == Seq::<(Seq<char>, Seq<char>)>::empty(),
            r@.dependencies == Seq::<Seq<char>>::empty(),
            r@.rebuilds == 0,
    {
        let dependencies: Vec<String> = Vec::new();
        assert(texts(dependencies@) =~= Seq::<Seq<char>>::empty());
        let r = SharedAppData { values: Vec::new(), dependencies, rebuilds: 0 };
        assert(r@.values =~= Seq::<(Seq<char>, Seq<char>)>::empty());
        assert(r@.dependencies =~= Seq::<Seq<char>>::empty());
        r
    }
}

impl SharedAppData {
    pub fn new() -> (r: SharedAppData)
        ensures
            r@.values == Seq::<(Seq<char>, Seq<char>)>::empty(),
            r@.dependencies == Seq::<Seq<char>>::empty(),
            r@.rebuilds == 0,
    {
        SharedAppData::default()
    }

    /// The keys a dependency was created on, in order, **each once**.
    pub fn dependencies(&self) -> (r: &[String])
        ensures
            texts(r@) == self@.dependencies,
            self@.dependencies.no_duplicates(),
    {
        proof {
            use_type_invariant(self);
        }
        self.dependencies.as_slice()
    }

    pub fn rebuilds(&self) -> (r: usize)
        ensures
            r == self@.rebuilds,
    {
        self.rebuilds
    }

    /// The value held for `key`, creating no dependency.
    pub fn peek(&self, key: &str) -> (r: Option<&str>)
        ensures
            match r {
                Some(value) => value_for(self@.values, key@) == Some(value@),
                None => value_for(self@.values, key@) is None,
            },
    {
        match self.position_of(key) {
            Some(i) => Some(self.values[i].1.as_str()),
            None => None,
        }
    }

    /// Where the first pair for `key` is.
    fn position_of(&self, key: &str) -> (r: Option<usize>)
        ensures
            match r {
                Some(i) => {
                    &&& i < self@.values.len()
                    &&& self@.values[i as int].0 == key@
                    &&& value_for(self@.values, key@) == Some(self@.values[i as int].1)
                    &&& forall|j: int| 0 <= j < i ==> #[trigger] self@.values[j].0 != key@
                },
                None => value_for(self@.values, key@) is None,
            },
    {
        let ghost values = self@.values;
        let mut i: usize = 0;
        while i < self.values.len()
            invariant
                values == self@.values,
                i <= values.len(),
                forall|j: int| 0 <= j < i ==> #[trigger] values[j].0 != key@,
            decreases values.len() - i,
        {
            if same_text(self.values[i].0.as_str(), key) {
                proof {
                    lemma_value_for_at(values, key@, i as int);
                }
                return Some(i);
            }
            i = i + 1;
        }
        proof {
            lemma_value_for_absent(values, key@);
        }
        None
    }

    /// The value for `key`, **creating a dependency on that key**, so that a
    /// widget reading one key is not rebuilt when another changes. `init` is
    /// called only when the key is absent, which is what makes the values
    /// lazily initialised.
    pub fn get_value<F: FnOnce() -> String>(&mut self, key: &str, init: F) -> (r: String)
        requires
            value_for(old(self)@.values, key@) is None ==> init.requires(()),
        ensures
            final(self)@.dependencies == (if old(self)@.dependencies.contains(key@) {
                old(self)@.dependencies
            } else {
                old(self)@.dependencies.push(key@)
            }),
            final(self)@.rebuilds == old(self)@.rebuilds,
            final(self)@.dependencies.no_duplicates(),
            match value_for(old(self)@.values, key@) {
                Some(value) => r@ == value && final(self)@.values == old(self)@.values,
                None => init.ensures((), r) && final(self)@.values == old(self)@.values.push(
                    (key@, r@),
                ),
            },
    {
        proof {
            use_type_invariant(&*self);
        }
        let ghost deps = self@.dependencies;
        let mut known = false;
        let mut i: usize = 0;
        while i < self.dependencies.len()
            invariant
                deps == texts(self.dependencies@),
                i <= deps.len(),
                known == exists|j: int| 0 <= j < i && #[trigger] deps[j] == key@,
            decreases deps.len() - i,
        {
            let equal = same_text(self.dependencies[i].as_str(), key);
            if equal {
                known = true;
                assert(deps[i as int] == key@);
            }
            i = i + 1;
        }
        if !known {
            let mut dependencies: Vec<String> = Vec::new();
            std::mem::swap(&mut dependencies, &mut self.dependencies);
            dependencies.push(owned(key));
            assert(texts(dependencies@) =~= deps.push(key@));
            assert(!deps.contains(key@));
            assert(texts(dependencies@).no_duplicates()) by {
                assert forall|a: int, b: int|
                    0 <= a < b < texts(dependencies@).len() implies texts(dependencies@)[a]
                    != texts(dependencies@)[b] by {
                    if b == deps.len() {
                        assert(deps[a] == texts(dependencies@)[a]);
                    }
                }
            }
            self.dependencies = dependencies;
        }
        match self.position_of(key) {
            Some(at) => {
                let value = owned(self.values[at].1.as_str());
                value
            },
            None => {
                let value = init();
                let ghost before = self.values@;
                let mut values: Vec<(String, String)> = Vec::new();
                std::mem::swap(&mut values, &mut self.values);
                values.push((owned(key), owned(value.as_str())));
                self.values = values;
                assert(text_pairs(self.values@) =~= text_pairs(before).push((key@, value@)));
                value
            },
        }
    }

    /// Writes the value for `key`, creating **no** dependency: a widget that
    /// writes a value should not be rebuilt by its own write. A value equal to
    /// the current one changes nothing and rebuilds nothing.
    pub fn set_value(&mut self, key: &str, value: &str)
        requires
            value_for(old(self)@.values, key@) != Some(value@) ==> old(self)@.rebuilds < usize::MAX,
        ensures
            final(self)@.dependencies == old(self)@.dependencies,
            value_for(old(self)@.values, key@) == Some(value@) ==> final(self)@ == old(self)@,
            value_for(old(self)@.values, key@) != Some(value@) ==> {
                &&& final(self)@.values == with_value(old(self)@.values, key@, value@)
                &&& final(self)@.rebuilds == old(self)@.rebuilds + 1
            },
    {
        proof {
            use_type_invariant(&*self);
        }
        let ghost values = self@.values;
        match self.position_of(key) {
            Some(at) => {
                if same_text(self.values[at].1.as_str(), value) {
                    return;
                }
                let mut held: Vec<(String, String)> = Vec::new();
                std::mem::swap(&mut held, &mut self.values);
                held.set(at, (owned(key), owned(value)));
                self.values = held;
                proof {
                    lemma_with_value_at(values, key@, value@, at as int);
                    assert(text_pairs(self.values@) =~= values.update(at as int, (key@, value@)));
                }
            },
            None => {
                let mut held: Vec<(String, String)> = Vec::new();
                std::mem::swap(&mut held, &mut self.values);
                held.push((owned(key), owned(value)));
                self.values = held;
                proof {
                    lemma_with_value_absent(values, key@, value@);
                    assert(text_pairs(self.values@) =~= values.push((key@, value@)));
                }
            },
        }
        self.rebuilds = self.rebuilds + 1;
    }

    /// Whether a change to `key` would rebuild a dependent.
    pub fn rebuilds_for(&self, key: &str) -> (r: bool)
        ensures
            r == self@.dependencies.contains(key@),
    {
        let ghost deps = self@.dependencies;
        let mut i: usize = 0;
        while i < self.dependencies.len()
            invariant
                deps == texts(self.dependencies@),
                i <= deps.len(),
                forall|j: int| 0 <= j < i ==> #[trigger] deps[j] != key@,
            decreases deps.len() - i,
        {
            if same_text(self.dependencies[i].as_str(), key) {
                assert(deps[i as int] == key@);
                return true;
            }
            i = i + 1;
        }
        false
    }
}

proof fn lemma_value_for_at(values: Seq<(Seq<char>, Seq<char>)>, key: Seq<char>, i: int)
    requires
        0 <= i < values.len(),
        values[i].0 == key,
        forall|j: int| 0 <= j < i ==> #[trigger] values[j].0 != key,
    ensures
        value_for(values, key) == Some(values[i].1),
    decreases i,
{
    if i > 0 {
        let rest = values.drop_first();
        assert forall|j: int| 0 <= j < i - 1 implies #[trigger] rest[j].0 != key by {
            assert(rest[j] == values[j + 1]);
        }
        lemma_value_for_at(rest, key, i - 1);
        assert(values[0].0 != key);
    }
}

proof fn lemma_value_for_absent(values: Seq<(Seq<char>, Seq<char>)>, key: Seq<char>)
    requires
        forall|j: int| 0 <= j < values.len() ==> #[trigger] values[j].0 != key,
    ensures
        value_for(values, key) is None,
    decreases values.len(),
{
    if values.len() > 0 {
        let rest = values.drop_first();
        assert forall|j: int| 0 <= j < rest.len() implies #[trigger] rest[j].0 != key by {
            assert(rest[j] == values[j + 1]);
        }
        lemma_value_for_absent(rest, key);
        assert(values[0].0 != key);
    }
}

proof fn lemma_with_value_at(
    values: Seq<(Seq<char>, Seq<char>)>,
    key: Seq<char>,
    value: Seq<char>,
    i: int,
)
    requires
        0 <= i < values.len(),
        values[i].0 == key,
        forall|j: int| 0 <= j < i ==> #[trigger] values[j].0 != key,
    ensures
        with_value(values, key, value) == values.update(i, (key, value)),
    decreases i,
{
    if i > 0 {
        let rest = values.drop_first();
        assert forall|j: int| 0 <= j < i - 1 implies #[trigger] rest[j].0 != key by {
            assert(rest[j] == values[j + 1]);
        }
        lemma_with_value_at(rest, key, value, i - 1);
        assert(values[0].0 != key);
        assert(seq![values[0]] + rest.update(i - 1, (key, value)) =~= values.update(
            i,
            (key, value),
        ));
    }
}

proof fn lemma_with_value_absent(values: Seq<(Seq<char>, Seq<char>)>, key: Seq<char>, value: Seq<char>)
    requires
        value_for(values, key) is None,
    ensures
        with_value(values, key, value) == values.push((key, value)),
    decreases values.len(),
{
    if values.len() > 0 {
        let rest = values.drop_first();
        lemma_with_value_absent(rest, key, value);
        assert(seq![values[0]] + rest.push((key, value)) =~= values.push((key, value)));
    } else {
        assert(seq![(key, value)] =~= values.push((key, value)));
    }
}

/// What a read gives back of a write: after a value is written for a key,
/// reading that key gives the value, and every other key reads as before.
pub proof fn lemma_written_value_reads_back(
    values: Seq<(Seq<char>, Seq<char>)>,
    key: Seq<char>,
    value: Seq<char>,
    other: Seq<char>,
)
    ensures
        value_for(with_value(values, key, value), key) == Some(value),
        other != key ==> value_for(with_value(values, key, value), other) == value_for(
            values,
            other,
        ),
    decreases values.len(),
{
    if values.len() == 0 {
        assert(seq![(key, value)][0] == (key, value));
        assert(seq![(key, value)].drop_first() =~= values);
    } else if values[0].0 == key {
        let updated = values.update(0, (key, value));
        assert(updated[0] == (key, value));
        assert(updated.drop_first() =~= values.drop_first());
    } else {
        lemma_written_value_reads_back(values.drop_first(), key, value, other);
        let tail = with_value(values.drop_first(), key, value);
        assert((seq![values[0]] + tail)[0] == values[0]);
        assert((seq![values[0]] + tail).drop_first() =~= tail);
    }
}

/// How a text field checks spelling, as the contracts see it.
pub struct SpellCheckView {
    pub has_service: bool,
    pub has_misspelled_style: bool,
    pub has_toolbar_builder: bool,
    pub enabled: bool,
}

/// The configuration that says spell checking is off.
pub open spec fn disabled_view() -> SpellCheckView {
    SpellCheckView {
        has_service: false,
        has_misspelled_style: false,
        has_toolbar_builder: false,
        enabled: false,
    }
}

/// A copy with the given fields replaced; **a disabled configuration copies
/// into a disabled one**, whatever was passed.
pub open spec fn copied(
    v: SpellCheckView,
    has_service: Option<bool>,
    has_misspelled_style: Option<bool>,
    has_toolbar_builder: Option<bool>,
) -> SpellCheckView {
    if !v.enabled {
        disabled_view()
    } else {
        SpellCheckView {
            has_service: match has_service {
                Some(b) => b,
                None => v.has_service,
            },
            has_misspelled_style: match has_misspelled_style {
                Some(b) => b,
                None => v.has_misspelled_style,
            },
            has_toolbar_builder: match has_toolbar_builder {
                Some(b) => b,
                None => v.has_toolbar_builder,
            },
            enabled: true,
        }
    }
}

/// How a text field checks spelling. Disabled is a **kind** of configuration,
/// made by its own constructor, not a field a caller can flip.
#[derive(Clone, Debug, PartialEq, Eq)]
pub struct SpellCheckConfiguration {
    pub has_service: bool,
    pub has_misspelled_style: bool,
    pub has_toolbar_builder: bool,
    enabled: bool,
}

impl View for SpellCheckConfiguration {
    type V = SpellCheckView;

    closed spec fn view(&self) -> SpellCheckView {
        SpellCheckView {
            has_service: self.has_service,
            has_misspelled_style: self.has_misspelled_style,
            has_toolbar_builder: self.has_toolbar_builder,
            enabled: self.enabled,
        }
    }
}

impl Default for SpellCheckConfiguration {
    fn default() -> (r: SpellCheckConfiguration)
        ensures
            r@ == disabled_view(),
    {
        SpellCheckConfiguration::disabled()
    }
}

impl SpellCheckConfiguration {
    pub fn new() -> (r: SpellCheckConfiguration)
        ensures
            r@ == (SpellCheckView {
                has_service: false,
                has_misspelled_style: false,
                has_toolbar_builder: false,
                enabled: true,
            }),
    {
        SpellCheckConfiguration {
            has_service: false,
            has_misspelled_style: false,
            has_toolbar_builder: false,
            enabled: true,
        }
    }

    pub fn disabled() -> (r: SpellCheckConfiguration)
        ensures
            r@ == disabled_view(),
    {
        SpellCheckConfiguration {
            has_service: false,
            has_misspelled_style: false,
            has_toolbar_builder: false,
            enabled: false,
        }
    }

    pub fn spell_check_enabled(&self) -> (r: bool)
        ensures
            r == self@.enabled,
    {
        self.enabled
    }

    /// A copy with the given fields replaced. **A disabled configuration
    /// cannot be copied into an enabled one**: every field passed is
    /// discarded, since a theme handing a field a disabled configuration is
    /// saying spell-check is off there.
    pub fn copy_with(
        &self,
        has_service: Option<bool>,
        has_misspelled_style: Option<bool>,
        has_toolbar_builder: Option<bool>,
    ) -> (r: SpellCheckConfiguration)
        ensures
            r@ == copied(self@, has_service, has_misspelled_style, has_toolbar_builder),
    {
        if !self.enabled {
            return SpellCheckConfiguration::disabled();
        }
        SpellCheckConfiguration {
            has_service: match has_service {
                Some(b) => b,
                None => self.has_service,
            },
            has_misspelled_style: match has_misspelled_style {
                Some(b) => b,
                None => self.has_misspelled_style,
            },
            has_toolbar_builder: match has_toolbar_builder {
                Some(b) => b,
                None => self.has_toolbar_builder,
            },
            enabled: true,
        }
    }
}

/// Copying a disabled configuration gives a disabled one, whatever fields
/// were passed, and copying again changes nothing.
pub proof fn lemma_disabled_stays_disabled(
    v: SpellCheckView,
    has_service: Option<bool>,
    has_misspelled_style: Option<bool>,
    has_toolbar_builder: Option<bool>,
)
    requires
        !v.enabled,
    ensures
        copied(v, has_service, has_misspelled_style, has_toolbar_builder) == disabled_view(),
        !copied(v, has_service, has_misspelled_style, has_toolbar_builder).enabled,
{
}

/// How many of a toolbar's three slots are filled: an empty slot contributes
/// nothing rather than an empty box.
pub fn filled_slots(has_leading: bool, has_middle: bool, has_trailing: bool) -> (r: usize)
    ensures
        r == (if has_leading { 1int } else { 0int }) + (if has_middle { 1int } else { 0int }) + (
        if has_trailing {
            1int
        } else {
            0int
        }),
{
    let mut n: usize = 0;
    if has_leading {
        n = n + 1;
    }
    if has_middle {
        n = n + 1;
    }
    if has_trailing {
        n = n + 1;
    }
    n
}

} // verus!
