//! The data model of the application: the todo record, the three input
//! buffers of the Add screen, the focus and tab enums, key and event types,
//! and the store error type.
//!
//! All text is held as `Vec<char>`; the unverified shell converts to and
//! from `String` at its edges.

use vstd::prelude::*;

verus! {

/// The mathematical model of a todo record: the five fields as plain values.
pub struct TodoModel {
    pub id: u64,
    pub name: Seq<char>,
    pub category: Seq<char>,
    pub text: Seq<char>,
    pub created_at: Seq<char>,
}

/// One todo record. `category` is normalized to uppercase on creation;
/// `created_at` holds the creation time as RFC 3339 text.
#[derive(Clone, Debug)]
pub struct TodoItem {
    pub id: u64,
    pub name: Vec<char>,
    pub category: Vec<char>,
    pub text: Vec<char>,
    pub created_at: Vec<char>,
}

impl View for TodoItem {
    type V = TodoModel;

    open spec fn view(&self) -> TodoModel {
        TodoModel {
            id: self.id,
            name: self.name@,
            category: self.category@,
            text: self.text@,
            created_at: self.created_at@,
        }
    }
}

impl DeepView for TodoItem {
    type V = TodoModel;

    open spec fn deep_view(&self) -> TodoModel {
        self.view()
    }
}

/// The empty record shown when no list entry is selected.
pub open spec fn placeholder_model() -> TodoModel {
    TodoModel {
        id: 0,
        name: Seq::<char>::empty(),
        category: Seq::<char>::empty(),
        text: Seq::<char>::empty(),
        created_at: Seq::<char>::empty(),
    }
}

impl TodoItem {
    /// The placeholder record shown when no list entry is selected.
    pub fn placeholder() -> (r: TodoItem)
        ensures
            r@ == placeholder_model(),
    {
        let r = TodoItem {
            id: 0,
            name: Vec::new(),
            category: Vec::new(),
            text: Vec::new(),
            created_at: Vec::new(),
        };
        assert(r@.name =~= Seq::<char>::empty());
        assert(r@.category =~= Seq::<char>::empty());
        assert(r@.text =~= Seq::<char>::empty());
        assert(r@.created_at =~= Seq::<char>::empty());
        r
    }

    /// A field-for-field copy.
    pub fn duplicate(&self) -> (r: TodoItem)
        ensures
            r@ == self@,
    {
        TodoItem {
            id: self.id,
            name: copy_chars(&self.name),
            category: copy_chars(&self.category),
            text: copy_chars(&self.text),
            created_at: copy_chars(&self.created_at),
        }
    }
}

/// Copies a character buffer.
pub fn copy_chars(s: &Vec<char>) -> (r: Vec<char>)
    ensures
        r@ == s@,
{
    let mut r: Vec<char> = Vec::new();
    let mut i: usize = 0;
    while i < s.len()
        invariant
            i <= s.len(),
            r@ == s@.subrange(0, i as int),
        decreases s.len() - i,
    {
        r.push(s[i]);
        assert(r@ =~= s@.subrange(0, i + 1 as int));
        i = i + 1;
    }
    assert(r@ =~= s@);
    r
}

/// The three in-progress input buffers of the Add screen. Cleared together
/// on a successful submit and at application start; never persisted.
#[derive(Clone, Debug)]
pub struct InputStates {
    pub name: Vec<char>,
    pub category: Vec<char>,
    pub text: Vec<char>,
}

impl InputStates {
    /// Three empty buffers.
    pub fn empty() -> (r: InputStates)
        ensures
            r.name@ == Seq::<char>::empty(),
            r.category@ == Seq::<char>::empty(),
            r.text@ == Seq::<char>::empty(),
    {
        let r = InputStates { name: Vec::new(), category: Vec::new(), text: Vec::new() };
        assert(r.name@ =~= Seq::<char>::empty());
        assert(r.category@ =~= Seq::<char>::empty());
        assert(r.text@ =~= Seq::<char>::empty());
        r
    }
}

/// Which input field of the Add screen currently receives characters.
/// Exactly one value is active at a time; `NoFocus` is navigation mode.
#[derive(PartialEq, Eq, Structural, Clone, Copy, Debug)]
pub enum FocusedInput {
    Name,
    Category,
    Text,
    NoFocus,
}

/// Which screen is displayed. Independent of the focus state, though focus
/// only has a visible effect while the Add screen is shown.
#[derive(PartialEq, Eq, Structural, Clone, Copy, Debug)]
pub enum MenuItem {
    Home,
    TODOs,
    Add,
}

/// The display index of each menu tab, as a pure mapping.
pub open spec fn menu_index(m: MenuItem) -> usize {
    match m {
        MenuItem::Home => 0,
        MenuItem::TODOs => 1,
        MenuItem::Add => 2,
    }
}

impl From<MenuItem> for usize {
    /// The tab's position in the menu bar.
    fn from(input: MenuItem) -> (r: usize) {
        match input {
            MenuItem::Home => 0,
            MenuItem::TODOs => 1,
            MenuItem::Add => 2,
        }
    }
}

impl vstd::std_specs::convert::FromSpecImpl<MenuItem> for usize {
    open spec fn obeys_from_spec() -> bool {
        true
    }

    open spec fn from_spec(m: MenuItem) -> usize {
        menu_index(m)
    }
}

/// The keys the dispatcher distinguishes. `Other` stands for every key the
/// input backend can report that the application ignores.
#[derive(PartialEq, Eq, Structural, Clone, Copy, Debug)]
pub enum Key {
    Char(char),
    Down,
    Up,
    Tab,
    Enter,
    Esc,
    Backspace,
    Other,
}

/// What the event source delivers to the main loop: either a key or the
/// periodic tick that guarantees a wakeup.
#[derive(PartialEq, Eq, Structural, Clone, Copy, Debug)]
pub enum Event {
    Input(Key),
    Tick,
}

/// The store's error taxonomy: a missing or unreadable backing file, a file
/// that does not parse, or a removal index past the end of the list.
#[derive(PartialEq, Eq, Structural, Clone, Copy, Debug)]
pub enum Error {
    ReadDBError,
    ParseDBError,
    IndexOutOfBounds,
}

} // verus!
