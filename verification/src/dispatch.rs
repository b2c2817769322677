//! The input dispatcher and focus state machine, and the event source's
//! timing rules.
//!
//! `dispatch` maps one key, under the current focus and tab, to a state
//! transition and at most one store operation, exactly as the interactive
//! screen behaves: navigation and tab switching in navigation mode, buffer
//! editing while a field is focused, submit on Enter in the Add screen,
//! deletion and cursor movement in the Todos screen.

use vstd::prelude::*;

use crate::codec::ID_ENC_LIMIT;
use crate::codec::lemma_parse_encode_todos;
use crate::codec::lemma_parse_ids_bounded;
use crate::model::Error;
use crate::model::FocusedInput;
use crate::model::InputStates;
use crate::model::Key;
use crate::model::MenuItem;
use crate::store::Db;
use crate::store::ID_RANGE;
use crate::store::load_spec;
use crate::store::strict_items;
use crate::store::upper_of;

verus! {

// ---------------------------------------------------------------------------
// Event source timing
// ---------------------------------------------------------------------------

/// The tick interval of the event source, in milliseconds.
pub const TICK_MS: u64 = 200;

/// How long the event source may poll the input backend before the next tick
/// is due: the remainder of the tick interval, or nothing once it has passed.
pub fn remaining_timeout(elapsed_ms: u64) -> (r: u64)
    ensures
        r == if elapsed_ms >= TICK_MS {
            0u64
        } else {
            (TICK_MS - elapsed_ms) as u64
        },
{
    if elapsed_ms >= TICK_MS {
        0
    } else {
        TICK_MS - elapsed_ms
    }
}

/// Whether a tick is due: the tick interval has elapsed since the last one.
pub fn tick_due(elapsed_ms: u64) -> (r: bool)
    ensures
        r == (elapsed_ms >= TICK_MS),
{
    elapsed_ms >= TICK_MS
}

// ---------------------------------------------------------------------------
// Application state
// ---------------------------------------------------------------------------

/// The mathematical model of the application state.
pub struct AppModel {
    pub tab: MenuItem,
    pub focus: FocusedInput,
    pub name: Seq<char>,
    pub category: Seq<char>,
    pub text: Seq<char>,
    pub cursor: Option<usize>,
}

/// The application state: the shown tab, the focused field, the three input
/// buffers, and the selection cursor of the Todos screen.
pub struct App {
    pub active_menu_item: MenuItem,
    pub focused_input: FocusedInput,
    pub inputs: InputStates,
    pub cursor: Option<usize>,
}

impl View for App {
    type V = AppModel;

    open spec fn view(&self) -> AppModel {
        AppModel {
            tab: self.active_menu_item,
            focus: self.focused_input,
            name: self.inputs.name@,
            category: self.inputs.category@,
            text: self.inputs.text@,
            cursor: self.cursor,
        }
    }
}

impl App {
    /// The state at application start: Home shown, nothing focused, empty
    /// buffers, the first item selected when the list has one.
    pub fn new(list_len: usize) -> (r: App)
        ensures
            r@ == (AppModel {
                tab: MenuItem::Home,
                focus: FocusedInput::NoFocus,
                name: Seq::<char>::empty(),
                category: Seq::<char>::empty(),
                text: Seq::<char>::empty(),
                cursor: if list_len == 0 {
                    None::<usize>
                } else {
                    Some(0usize)
                },
            }),
    {
        App {
            active_menu_item: MenuItem::Home,
            focused_input: FocusedInput::NoFocus,
            inputs: InputStates::empty(),
            cursor: if list_len == 0 {
                None
            } else {
                Some(0)
            },
        }
    }
}

/// The cursor always points into the list the store currently holds.
pub open spec fn cursor_ok(app: App, db: Db) -> bool {
    match app@.cursor {
        Some(s) => s < load_spec(db@).len(),
        None => true,
    }
}

// ---------------------------------------------------------------------------
// The transition rules, as spec functions
// ---------------------------------------------------------------------------

/// The focus cycle of the Tab key: NoFocus to Name, then Name, Category,
/// Text, and back to Name.
pub open spec fn next_focus(f: FocusedInput) -> FocusedInput {
    match f {
        FocusedInput::NoFocus => FocusedInput::Name,
        FocusedInput::Name => FocusedInput::Category,
        FocusedInput::Category => FocusedInput::Text,
        FocusedInput::Text => FocusedInput::Name,
    }
}

/// Where the Down key moves the cursor: one step toward the end, wrapping to
/// the top past the last entry; nothing moves without a cursor or entries.
pub open spec fn down_spec(cur: Option<usize>, len: int) -> Option<usize> {
    match cur {
        Some(s) => if len > 0 {
            if s >= len - 1 {
                Some(0usize)
            } else {
                Some((s + 1) as usize)
            }
        } else {
            Some(s)
        },
        None => None,
    }
}

/// Where the Up key moves the cursor: one step toward the top, wrapping to
/// the last entry before the first; nothing moves without a cursor or
/// entries.
pub open spec fn up_spec(cur: Option<usize>, len: int) -> Option<usize> {
    match cur {
        Some(s) => if len > 0 {
            if s > 0 {
                Some((s - 1) as usize)
            } else {
                Some((len - 1) as usize)
            }
        } else {
            Some(s)
        },
        None => None,
    }
}

/// A buffer after Backspace: the last character removed, or left empty.
pub open spec fn backspaced(s: Seq<char>) -> Seq<char> {
    if s.len() == 0 {
        s
    } else {
        s.drop_last()
    }
}

/// Where the cursor stands after deleting the entry it pointed at: one entry
/// up, or nowhere when it pointed at the top.
pub open spec fn delete_cursor_spec(s: usize) -> Option<usize> {
    if s > 0 {
        Some((s - 1) as usize)
    } else {
        None
    }
}

/// What one dispatch step reports back to the loop.
#[derive(PartialEq, Eq, Structural, Clone, Copy, Debug)]
pub enum Outcome {
    Continue,
    Quit,
    Fatal(Error),
}

/// The focus cycle, executable.
fn next_focus_exec(f: FocusedInput) -> (r: FocusedInput)
    ensures
        r == next_focus(f),
{
    match f {
        FocusedInput::NoFocus => FocusedInput::Name,
        FocusedInput::Name => FocusedInput::Category,
        FocusedInput::Category => FocusedInput::Text,
        FocusedInput::Text => FocusedInput::Name,
    }
}

/// Neither the application state nor the store changed.
pub open spec fn step_noop(a0: AppModel, a1: AppModel, d0: Option<Seq<char>>, d1: Option<
    Seq<char>,
>) -> bool {
    a1 == a0 && d1 == d0
}

/// Dispatches one key. This is the whole key-handling table of the screen:
///
/// - in navigation mode (nothing focused): `q` quits; `h`, `t`, `a` switch
///   tabs; `d` removes the selected entry and moves the cursor one up (or
///   clears it at the top); Down and Up move the selection with wraparound,
///   reading the list length fresh from the store; every other character and
///   Backspace do nothing;
/// - while a field is focused: characters and Backspace edit that buffer and
///   Esc returns to navigation mode;
/// - in either mode: Tab advances the focus cycle whatever the tab shows,
///   and Enter on the Add tab submits a record built from the buffers, then
///   clears them and the focus.
///
/// A submit on an absent or unparsable store file is reported as fatal and
/// changes nothing.
pub fn dispatch(app: &mut App, db: &mut Db, key: Key) -> (r: Outcome)
    requires
        cursor_ok(*old(app), *old(db)),
    ensures
        cursor_ok(*final(app), *final(db)),
        r == Outcome::Quit <==> (key == Key::Char('q') && old(app)@.focus
            == FocusedInput::NoFocus),
        match key {
            Key::Char(c) => {
                if old(app)@.focus == FocusedInput::NoFocus {
                    if c == 'q' {
                        step_noop(old(app)@, final(app)@, old(db)@, final(db)@)
                    } else if c == 'h' {
                        &&& final(app)@ == (AppModel { tab: MenuItem::Home, ..old(app)@ })
                        &&& final(db)@ == old(db)@
                        &&& r == Outcome::Continue
                    } else if c == 't' {
                        &&& final(app)@ == (AppModel { tab: MenuItem::TODOs, ..old(app)@ })
                        &&& final(db)@ == old(db)@
                        &&& r == Outcome::Continue
                    } else if c == 'a' {
                        &&& final(app)@ == (AppModel { tab: MenuItem::Add, ..old(app)@ })
                        &&& final(db)@ == old(db)@
                        &&& r == Outcome::Continue
                    } else if c == 'd' {
                        match old(app)@.cursor {
                            Some(s) => {
                                &&& load_spec(final(db)@) == load_spec(old(db)@).remove(s as int)
                                &&& final(app)@ == (AppModel {
                                    cursor: delete_cursor_spec(s),
                                    ..old(app)@
                                })
                                &&& r == Outcome::Continue
                            },
                            None => step_noop(old(app)@, final(app)@, old(db)@, final(db)@) && r
                                == Outcome::Continue,
                        }
                    } else {
                        step_noop(old(app)@, final(app)@, old(db)@, final(db)@) && r
                            == Outcome::Continue
                    }
                } else {
                    &&& final(app)@ == (match old(app)@.focus {
                        FocusedInput::Name => AppModel { name: old(app)@.name.push(c), ..old(app)@ },
                        FocusedInput::Category => AppModel {
                            category: old(app)@.category.push(c),
                            ..old(app)@
                        },
                        FocusedInput::Text => AppModel { text: old(app)@.text.push(c), ..old(app)@ },
                        FocusedInput::NoFocus => old(app)@,
                    })
                    &&& final(db)@ == old(db)@
                    &&& r == Outcome::Continue
                }
            },
            Key::Backspace => {
                &&& final(app)@ == (match old(app)@.focus {
                    FocusedInput::Name => AppModel {
                        name: backspaced(old(app)@.name),
                        ..old(app)@
                    },
                    FocusedInput::Category => AppModel {
                        category: backspaced(old(app)@.category),
                        ..old(app)@
                    },
                    FocusedInput::Text => AppModel {
                        text: backspaced(old(app)@.text),
                        ..old(app)@
                    },
                    FocusedInput::NoFocus => old(app)@,
                })
                &&& final(db)@ == old(db)@
                &&& r == Outcome::Continue
            },
            Key::Esc => {
                &&& final(app)@ == (AppModel { focus: FocusedInput::NoFocus, ..old(app)@ })
                &&& final(db)@ == old(db)@
                &&& r == Outcome::Continue
            },
            Key::Tab => {
                &&& final(app)@ == (AppModel { focus: next_focus(old(app)@.focus), ..old(app)@ })
                &&& final(db)@ == old(db)@
                &&& r == Outcome::Continue
            },
            Key::Enter => {
                if old(app)@.tab == MenuItem::Add {
                    match r {
                        Outcome::Continue => {
                            &&& strict_items(old(db)@) is Some
                            &&& load_spec(final(db)@).len() == (strict_items(old(db)@)->0).len()
                                + 1
                            &&& load_spec(final(db)@).drop_last() == strict_items(old(db)@)->0
                            &&& load_spec(final(db)@).last().id < ID_RANGE
                            &&& load_spec(final(db)@).last().name == old(app)@.name
                            &&& load_spec(final(db)@).last().category == upper_of(
                                old(app)@.category,
                            )
                            &&& load_spec(final(db)@).last().text == old(app)@.text
                            &&& final(app)@ == (AppModel {
                                focus: FocusedInput::NoFocus,
                                name: Seq::<char>::empty(),
                                category: Seq::<char>::empty(),
                                text: Seq::<char>::empty(),
                                ..old(app)@
                            })
                        },
                        Outcome::Quit => false,
                        Outcome::Fatal(e) => {
                            &&& strict_items(old(db)@) is None
                            &&& step_noop(old(app)@, final(app)@, old(db)@, final(db)@)
                            &&& e == (if old(db)@ is None {
                                Error::ReadDBError
                            } else {
                                Error::ParseDBError
                            })
                        },
                    }
                } else {
                    step_noop(old(app)@, final(app)@, old(db)@, final(db)@) && r
                        == Outcome::Continue
                }
            },
            Key::Down => {
                if old(app)@.focus == FocusedInput::NoFocus {
                    match old(app)@.cursor {
                        Some(s) => {
                            &&& final(db)@ == old(db)@
                            &&& final(app)@ == (AppModel {
                                cursor: down_spec(Some(s), load_spec(old(db)@).len() as int),
                                ..old(app)@
                            })
                            &&& r == Outcome::Continue
                        },
                        None => step_noop(old(app)@, final(app)@, old(db)@, final(db)@) && r
                            == Outcome::Continue,
                    }
                } else {
                    step_noop(old(app)@, final(app)@, old(db)@, final(db)@) && r
                        == Outcome::Continue
                }
            },
            Key::Up => {
                if old(app)@.focus == FocusedInput::NoFocus {
                    match old(app)@.cursor {
                        Some(s) => {
                            &&& final(db)@ == old(db)@
                            &&& final(app)@ == (AppModel {
                                cursor: up_spec(Some(s), load_spec(old(db)@).len() as int),
                                ..old(app)@
                            })
                            &&& r == Outcome::Continue
                        },
                        None => step_noop(old(app)@, final(app)@, old(db)@, final(db)@) && r
                            == Outcome::Continue,
                    }
                } else {
                    step_noop(old(app)@, final(app)@, old(db)@, final(db)@) && r
                        == Outcome::Continue
                }
            },
            Key::Other => step_noop(old(app)@, final(app)@, old(db)@, final(db)@) && r
                == Outcome::Continue,
        },
{
    match key {
        Key::Char(c) => {
            if app.focused_input == FocusedInput::NoFocus {
                if c == 'q' {
                    Outcome::Quit
                } else if c == 'h' {
                    app.active_menu_item = MenuItem::Home;
                    Outcome::Continue
                } else if c == 't' {
                    app.active_menu_item = MenuItem::TODOs;
                    Outcome::Continue
                } else if c == 'a' {
                    app.active_menu_item = MenuItem::Add;
                    Outcome::Continue
                } else if c == 'd' {
                    match app.cursor {
                        Some(s) => {
                            proof {
                                assert(load_spec(old(db)@).len() > 0);
                                assert(old(db)@ is Some);
                                assert(strict_items(old(db)@) is Some);
                            }
                            let res = db.remove_at(s);
                            match res {
                                Ok(_) => {
                                    proof {
                                        let base = strict_items(old(db)@)->0;
                                        lemma_parse_ids_bounded(old(db)@->0);
                                        let removed = base.remove(s as int);
                                        assert(forall|i: int|
                                            0 <= i < removed.len() ==> (#[trigger] removed[i]).id
                                                < ID_ENC_LIMIT) by {
                                            assert(forall|i: int|
                                                0 <= i < removed.len() ==> removed[i] == (if i < s {
                                                    base[i]
                                                } else {
                                                    base[i + 1]
                                                }));
                                        }
                                        lemma_parse_encode_todos(removed);
                                    }
                                    app.cursor = if s >= 1 {
                                        Some(s - 1)
                                    } else {
                                        None
                                    };
                                    Outcome::Continue
                                },
                                Err(e) => {
                                    proof {
                                        assert(false);
                                    }
                                    Outcome::Fatal(e)
                                },
                            }
                        },
                        None => Outcome::Continue,
                    }
                } else {
                    Outcome::Continue
                }
            } else {
                match app.focused_input {
                    FocusedInput::Name => {
                        app.inputs.name.push(c);
                    },
                    FocusedInput::Category => {
                        app.inputs.category.push(c);
                    },
                    FocusedInput::Text => {
                        app.inputs.text.push(c);
                    },
                    FocusedInput::NoFocus => {
                    },
                }
                Outcome::Continue
            }
        },
        Key::Backspace => {
            match app.focused_input {
                FocusedInput::Name => {
                    let _ = app.inputs.name.pop();
                },
                FocusedInput::Category => {
                    let _ = app.inputs.category.pop();
                },
                FocusedInput::Text => {
                    let _ = app.inputs.text.pop();
                },
                FocusedInput::NoFocus => {
                },
            }
            Outcome::Continue
        },
        Key::Esc => {
            app.focused_input = FocusedInput::NoFocus;
            Outcome::Continue
        },
        Key::Tab => {
            app.focused_input = next_focus_exec(app.focused_input);
            Outcome::Continue
        },
        Key::Enter => {
            if app.active_menu_item == MenuItem::Add {
                let res = db.append(&app.inputs);
                match res {
                    Ok(l) => {
                        proof {
                            let lm = l.deep_view();
                            lemma_parse_ids_bounded(old(db)@->0);
                            assert(forall|i: int|
                                0 <= i < lm.len() ==> (#[trigger] lm[i]).id < ID_ENC_LIMIT) by {
                                let base = strict_items(old(db)@)->0;
                                assert(forall|i: int|
                                    0 <= i < lm.len() - 1 ==> lm[i] == lm.drop_last()[i]);
                                assert(lm[lm.len() - 1] == lm.last());
                            }
                            lemma_parse_encode_todos(lm);
                        }
                        app.inputs = InputStates::empty();
                        app.focused_input = FocusedInput::NoFocus;
                        Outcome::Continue
                    },
                    Err(e) => Outcome::Fatal(e),
                }
            } else {
                Outcome::Continue
            }
        },
        Key::Down => {
            if app.focused_input == FocusedInput::NoFocus {
                match app.cursor {
                    Some(s) => {
                        proof {
                            assert(load_spec(old(db)@).len() > 0);
                            assert(old(db)@ is Some);
                        }
                        let items = db.load();
                        let len = items.len();
                        proof {
                            assert(items.deep_view().len() == items@.len());
                            assert(len as int == load_spec(old(db)@).len());
                        }
                        if s >= len - 1 {
                            app.cursor = Some(0);
                        } else {
                            app.cursor = Some(s + 1);
                        }
                        Outcome::Continue
                    },
                    None => Outcome::Continue,
                }
            } else {
                Outcome::Continue
            }
        },
        Key::Up => {
            if app.focused_input == FocusedInput::NoFocus {
                match app.cursor {
                    Some(s) => {
                        proof {
                            assert(load_spec(old(db)@).len() > 0);
                            assert(old(db)@ is Some);
                        }
                        let items = db.load();
                        let len = items.len();
                        proof {
                            assert(items.deep_view().len() == items@.len());
                            assert(len as int == load_spec(old(db)@).len());
                        }
                        if s > 0 {
                            app.cursor = Some(s - 1);
                        } else {
                            app.cursor = Some(len - 1);
                        }
                        Outcome::Continue
                    },
                    None => Outcome::Continue,
                }
            } else {
                Outcome::Continue
            }
        },
        Key::Other => Outcome::Continue,
    }
}

} // verus!
