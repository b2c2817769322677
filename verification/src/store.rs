//! The store: the todo list persisted as one file, rewritten whole on every
//! mutation.
//!
//! `Db` holds the current contents of the backing file as a value; the
//! unverified shell reads the real file into it before dispatching and writes
//! it back afterwards, so every operation here is one whole-file
//! read-modify-write. `load` is lenient (a missing or unparsable file is an
//! empty list, and a missing file is initialized); `append` and `remove_at`
//! are strict (they fail on a missing or unparsable file, since a mutation
//! needs a known-good base state).

use vstd::prelude::*;

use crate::codec::enc_list;
use crate::codec::encode_todos;
use crate::codec::parse_items;
use crate::codec::parse_todos;
use crate::model::Error;
use crate::model::InputStates;
use crate::model::TodoItem;
use crate::model::TodoModel;
use crate::model::copy_chars;

verus! {

/// The id range documented for new records: `random_id` draws from
/// `0..ID_RANGE`.
pub const ID_RANGE: u64 = 9999999;

/// The uppercase equivalent of a text, as `str::to_uppercase` computes it.
pub uninterp spec fn upper_of(s: Seq<char>) -> Seq<char>;

/// Relies on rand::random_range: a value drawn uniformly from the half-open
/// range, so always below its upper bound.
#[verifier::external_body]
fn random_id() -> (r: u64)
    ensures
        r < ID_RANGE,
{
    rand::random_range(0u64..ID_RANGE)
}

/// Relies on chrono's Utc::now and DateTime::to_rfc3339: the current UTC time
/// as RFC 3339 text. The value depends on the clock, so nothing is assumed of
/// it.
#[verifier::external_body]
fn now_utc() -> (r: Vec<char>) {
    chrono::Utc::now().to_rfc3339().chars().collect()
}

/// Relies on str::to_uppercase: the uppercase equivalent of the text, a
/// function of the characters alone; of an empty text it returns the empty
/// text.
#[verifier::external_body]
fn to_upper_chars(s: &Vec<char>) -> (r: Vec<char>)
    ensures
        r@ == upper_of(s@),
        s@.len() == 0 ==> r@.len() == 0,
{
    s.iter().collect::<String>().to_uppercase().chars().collect()
}

/// The file contents that hold an empty list.
pub open spec fn empty_store() -> Seq<char> {
    seq!['[', ']']
}

/// What `load` returns for given file contents: the parsed list, or the
/// empty list when the file is absent or does not parse.
pub open spec fn load_spec(content: Option<Seq<char>>) -> Seq<TodoModel> {
    match content {
        Some(s) => match parse_items(s) {
            Some(l) => l,
            None => Seq::<TodoModel>::empty(),
        },
        None => Seq::<TodoModel>::empty(),
    }
}

/// What a mutation sees in given file contents: the parsed list, or nothing
/// when the file is absent or does not parse.
pub open spec fn strict_items(content: Option<Seq<char>>) -> Option<Seq<TodoModel>> {
    match content {
        Some(s) => parse_items(s),
        None => None,
    }
}

/// The backing file's current contents; `None` when the file is absent or
/// unreadable.
pub struct Db {
    pub content: Option<Vec<char>>,
}

impl View for Db {
    type V = Option<Seq<char>>;

    open spec fn view(&self) -> Option<Seq<char>> {
        match self.content {
            Some(c) => Some(c@),
            None => None,
        }
    }
}

impl Db {
    /// A store over the given file contents.
    pub fn new(content: Option<Vec<char>>) -> (r: Db)
        ensures
            r@ == (match content {
                Some(c) => Some(c@),
                None => None::<Seq<char>>,
            }),
    {
        Db { content }
    }

    /// Reads the whole list. A missing file is created holding an empty
    /// list; contents that do not parse are treated as an empty list and
    /// left untouched.
    pub fn load(&mut self) -> (r: Vec<TodoItem>)
        ensures
            r.deep_view() == load_spec(old(self)@),
            final(self)@ == (match old(self)@ {
                Some(c) => Some(c),
                None => Some(empty_store()),
            }),
    {
        if self.content.is_none() {
            let mut c: Vec<char> = Vec::new();
            c.push('[');
            c.push(']');
            assert(c@ =~= empty_store());
            self.content = Some(c);
            let r: Vec<TodoItem> = Vec::new();
            assert(r.deep_view() =~= Seq::<TodoModel>::empty());
            return r;
        }
        match &self.content {
            Some(c) => match parse_todos(c) {
                Some(l) => l,
                None => {
                    let r: Vec<TodoItem> = Vec::new();
                    assert(r.deep_view() =~= Seq::<TodoModel>::empty());
                    r
                },
            },
            None => {
                let r: Vec<TodoItem> = Vec::new();
                assert(r.deep_view() =~= Seq::<TodoModel>::empty());
                r
            },
        }
    }

    /// Appends a record built from the input buffers: the name and text as
    /// typed, the category uppercased, a fresh id below `ID_RANGE`, the
    /// current time as timestamp. Fails, leaving the file untouched, exactly
    /// when the file is absent or does not parse.
    pub fn append(&mut self, inputs: &InputStates) -> (r: Result<Vec<TodoItem>, Error>)
        ensures
            r is Err <==> strict_items(old(self)@) is None,
            match r {
                Ok(l) => {
                    &&& l.deep_view().len() == (strict_items(old(self)@)->0).len() + 1
                    &&& l.deep_view().drop_last() == strict_items(old(self)@)->0
                    &&& l.deep_view().last().id < ID_RANGE
                    &&& l.deep_view().last().name == inputs.name@
                    &&& l.deep_view().last().category == upper_of(inputs.category@)
                    &&& l.deep_view().last().text == inputs.text@
                    &&& final(self)@ == Some(enc_list(l.deep_view()))
                },
                Err(e) => {
                    &&& *final(self) == *old(self)
                    &&& e == (if old(self)@ is None {
                        Error::ReadDBError
                    } else {
                        Error::ParseDBError
                    })
                },
            },
    {
        let mut items: Vec<TodoItem> = match &self.content {
            Some(c) => match parse_todos(c) {
                Some(l) => l,
                None => {
                    return Err(Error::ParseDBError);
                },
            },
            None => {
                return Err(Error::ReadDBError);
            },
        };
        let ghost base = items.deep_view();
        let item = TodoItem {
            id: random_id(),
            name: copy_chars(&inputs.name),
            category: to_upper_chars(&inputs.category),
            text: copy_chars(&inputs.text),
            created_at: now_utc(),
        };
        let ghost m = item@;
        let ghost iv0 = items@;
        items.push(item);
        proof {
            assert(items@ == iv0.push(item));
            assert forall|i: int| 0 <= i < items.deep_view().len() implies items.deep_view()[i] == (
            base.push(m))[i] by {
                if i < iv0.len() {
                    assert(items@[i] == iv0[i]);
                    assert(base[i] == iv0[i].deep_view());
                } else {
                    assert(items@[i] == item);
                }
            }
            assert(items.deep_view() =~= base.push(m));
            assert(base.push(m).drop_last() =~= base);
        }
        self.content = Some(encode_todos(&items));
        Ok(items)
    }

    /// Removes the record at `index` and rewrites the file. Fails, leaving
    /// the file untouched, exactly when the file is absent, does not parse,
    /// or holds no record at `index`.
    pub fn remove_at(&mut self, index: usize) -> (r: Result<(), Error>)
        ensures
            match r {
                Ok(_) => {
                    &&& strict_items(old(self)@) is Some
                    &&& index < (strict_items(old(self)@)->0).len()
                    &&& final(self)@ == Some(
                        enc_list((strict_items(old(self)@)->0).remove(index as int)),
                    )
                },
                Err(e) => {
                    &&& *final(self) == *old(self)
                    &&& e == (if old(self)@ is None {
                        Error::ReadDBError
                    } else if strict_items(old(self)@) is None {
                        Error::ParseDBError
                    } else {
                        Error::IndexOutOfBounds
                    })
                    &&& (e == Error::IndexOutOfBounds ==> index >= (strict_items(
                        old(self)@,
                    )->0).len())
                },
            },
    {
        let mut items: Vec<TodoItem> = match &self.content {
            Some(c) => match parse_todos(c) {
                Some(l) => l,
                None => {
                    return Err(Error::ParseDBError);
                },
            },
            None => {
                return Err(Error::ReadDBError);
            },
        };
        if index >= items.len() {
            return Err(Error::IndexOutOfBounds);
        }
        let ghost base = items.deep_view();
        let ghost iv0 = items@;
        items.remove(index);
        proof {
            assert(items@ == iv0.remove(index as int));
            assert forall|i: int| 0 <= i < items.deep_view().len() implies items.deep_view()[i] == (
            base.remove(index as int))[i] by {
                if i < index {
                    assert(items@[i] == iv0[i]);
                    assert(base[i] == iv0[i].deep_view());
                } else {
                    assert(items@[i] == iv0[i + 1]);
                    assert(base[i + 1] == iv0[i + 1].deep_view());
                }
            }
            assert(items.deep_view() =~= base.remove(index as int));
        }
        self.content = Some(encode_todos(&items));
        Ok(())
    }
}

} // verus!
