//! The render coordinator's data side: what the Todos screen shows for the
//! current selection. The drawing itself is done by the unverified shell;
//! this module only decides which record's fields it receives.

use vstd::prelude::*;

use crate::model::TodoItem;
use crate::model::placeholder_model;

verus! {

/// The record whose fields the detail table shows: the selected one, or the
/// empty placeholder when nothing is selected or the selection points past
/// the end of the list.
pub fn selected_todo(items: &Vec<TodoItem>, cursor: Option<usize>) -> (r: TodoItem)
    ensures
        r@ == (match cursor {
            Some(i) => if i < items.deep_view().len() {
                items.deep_view()[i as int]
            } else {
                placeholder_model()
            },
            None => placeholder_model(),
        }),
{
    match cursor {
        Some(i) => {
            if i < items.len() {
                items[i].duplicate()
            } else {
                TodoItem::placeholder()
            }
        },
        None => TodoItem::placeholder(),
    }
}

} // verus!
