//! Laws of the library, each proved once and for all: cursor wraparound,
//! the Tab focus cycle, what a deletion leaves behind, and the store's
//! encode/parse round trip.

use vstd::prelude::*;

use vstd::arithmetic::div_mod::lemma_add_mod_noop_right;
use vstd::arithmetic::div_mod::lemma_mod_add_multiples_vanish;
use vstd::arithmetic::div_mod::lemma_mod_self_0;
use vstd::arithmetic::div_mod::lemma_small_mod;

use crate::codec::ID_ENC_LIMIT;
use crate::codec::enc_list;
use crate::codec::lemma_parse_encode_todos;
use crate::dispatch::delete_cursor_spec;
use crate::dispatch::down_spec;
use crate::dispatch::next_focus;
use crate::dispatch::up_spec;
use crate::model::FocusedInput;
use crate::model::TodoModel;
use crate::store::ID_RANGE;
use crate::store::load_spec;

verus! {

/// The cursor after `n` presses of Down on a list of `len` entries.
pub open spec fn down_n(cur: Option<usize>, len: int, n: nat) -> Option<usize>
    decreases n,
{
    if n == 0 {
        cur
    } else {
        down_n(down_spec(cur, len), len, (n - 1) as nat)
    }
}

/// The cursor after `n` presses of Up on a list of `len` entries.
pub open spec fn up_n(cur: Option<usize>, len: int, n: nat) -> Option<usize>
    decreases n,
{
    if n == 0 {
        cur
    } else {
        up_spec(up_n(cur, len, (n - 1) as nat), len)
    }
}

/// `n` presses of Down move the cursor `n` steps forward, modulo the length.
proof fn lemma_down_n_mod(s: usize, len: int, n: nat)
    requires
        0 <= s < len,
        len <= usize::MAX,
    ensures
        down_n(Some(s), len, n) == Some((((s + n) % len) as usize)),
    decreases n,
{
    if n == 0 {
        lemma_small_mod(s as nat, len as nat);
    } else {
        let s1: usize = if s as int >= len - 1 {
            0
        } else {
            (s + 1) as usize
        };
        assert(down_spec(Some(s), len) == Some(s1));
        assert(s1 as int == (s + 1) % len) by {
            if s as int == len - 1 {
                lemma_mod_self_0(len);
            } else {
                lemma_small_mod((s + 1) as nat, len as nat);
            }
        }
        lemma_down_n_mod(s1, len, (n - 1) as nat);
        lemma_add_mod_noop_right((n - 1) as int, s + 1, len);
        assert((s1 + (n - 1)) % len == (s + n) % len);
    }
}

/// Law: on a non-empty list, pressing Down exactly as many times as the list
/// has entries returns the cursor to its starting index.
pub proof fn lemma_down_wraps(s: usize, len: int)
    requires
        0 <= s < len,
        len <= usize::MAX,
    ensures
        down_n(Some(s), len, len as nat) == Some(s),
{
    lemma_down_n_mod(s, len, len as nat);
    lemma_mod_add_multiples_vanish(s as int, len);
    lemma_small_mod(s as nat, len as nat);
}

/// One press of Up undoes one press of Down, and the other way round.
proof fn lemma_up_down_inverse(s: usize, len: int)
    requires
        0 <= s < len,
        len <= usize::MAX,
    ensures
        up_spec(down_spec(Some(s), len), len) == Some(s),
        down_spec(up_spec(Some(s), len), len) == Some(s),
{
}

/// `n` presses of Up undo `n` presses of Down.
proof fn lemma_up_n_of_down_n(s: usize, len: int, n: nat)
    requires
        0 <= s < len,
        len <= usize::MAX,
    ensures
        up_n(down_n(Some(s), len, n), len, n) == Some(s),
    decreases n,
{
    if n > 0 {
        let s1: usize = if s as int >= len - 1 {
            0
        } else {
            (s + 1) as usize
        };
        assert(down_spec(Some(s), len) == Some(s1));
        assert(down_n(Some(s), len, n) == down_n(Some(s1), len, (n - 1) as nat));
        lemma_up_n_of_down_n(s1, len, (n - 1) as nat);
        lemma_up_down_inverse(s, len);
    }
}

/// Law: on a non-empty list, pressing Up exactly as many times as the list
/// has entries returns the cursor to its starting index.
pub proof fn lemma_up_wraps(s: usize, len: int)
    requires
        0 <= s < len,
        len <= usize::MAX,
    ensures
        up_n(Some(s), len, len as nat) == Some(s),
{
    lemma_down_wraps(s, len);
    lemma_up_n_of_down_n(s, len, len as nat);
}

/// The focus after `n` presses of Tab.
pub open spec fn tab_n(f: FocusedInput, n: nat) -> FocusedInput
    decreases n,
{
    if n == 0 {
        f
    } else {
        next_focus(tab_n(f, (n - 1) as nat))
    }
}

/// Law: Tab cycles the focus in the fixed order NoFocus, Name, Category,
/// Text, and from Text back to Name, whatever tab is shown; once a field is
/// focused, three further presses return to the same field. (From NoFocus
/// the cycle never comes back to NoFocus: four presses end at Name, the
/// fourth state of the cycle.)
pub proof fn lemma_tab_cycle(f: FocusedInput)
    ensures
        next_focus(FocusedInput::NoFocus) == FocusedInput::Name,
        next_focus(FocusedInput::Name) == FocusedInput::Category,
        next_focus(FocusedInput::Category) == FocusedInput::Text,
        next_focus(FocusedInput::Text) == FocusedInput::Name,
        f != FocusedInput::NoFocus ==> tab_n(f, 3) == f,
        tab_n(FocusedInput::NoFocus, 4) == FocusedInput::Name,
{
    reveal_with_fuel(tab_n, 5);
}

/// Law: deleting the entry under the cursor shortens the list by one; and
/// when no other entry holds the same fields, those fields appear nowhere in
/// the list a subsequent load returns. (With a duplicate of the entry
/// elsewhere in the list, the second copy of the fields survives, so the
/// uniqueness of the deleted entry is assumed.)
pub proof fn lemma_removed_item_gone(l: Seq<TodoModel>, i: int)
    requires
        0 <= i < l.len(),
        forall|j: int| 0 <= j < l.len() && j != i ==> l[j] != l[i],
        forall|j: int| 0 <= j < l.len() ==> (#[trigger] l[j]).id < ID_ENC_LIMIT,
    ensures
        l.remove(i).len() == l.len() - 1,
        load_spec(Some(enc_list(l.remove(i)))) == l.remove(i),
        forall|j: int| 0 <= j < l.remove(i).len() ==> #[trigger] l.remove(i)[j] != l[i],
{
    let r = l.remove(i);
    assert(forall|j: int| 0 <= j < r.len() ==> (#[trigger] r[j]).id < ID_ENC_LIMIT) by {
        assert(forall|j: int|
            0 <= j < r.len() ==> r[j] == (if j < i {
                l[j]
            } else {
                l[j + 1]
            }));
    }
    lemma_parse_encode_todos(r);
    assert(forall|j: int| 0 <= j < r.len() ==> #[trigger] r[j] != l[i]) by {
        assert(forall|j: int|
            0 <= j < r.len() ==> r[j] == (if j < i {
                l[j]
            } else {
                l[j + 1]
            }));
    }
}

/// Law: deleting the only remaining entry clears the cursor, and Down or Up
/// without a cursor change nothing, whatever the list length is by then.
pub proof fn lemma_delete_last_clears_cursor(s: usize, len_before: int, len_after: int)
    requires
        len_before == 1,
        0 <= s < len_before,
    ensures
        delete_cursor_spec(s) == None::<usize>,
        down_spec(None, len_after) == None::<usize>,
        up_spec(None, len_after) == None::<usize>,
{
}

/// Law: a list written by the store and loaded back is identical, field for
/// field, timestamps included; and every id the store generates lies far
/// below the bound the encoder needs.
pub proof fn lemma_store_round_trip(l: Seq<TodoModel>)
    requires
        forall|i: int| 0 <= i < l.len() ==> (#[trigger] l[i]).id < ID_ENC_LIMIT,
    ensures
        load_spec(Some(enc_list(l))) == l,
        ID_RANGE < ID_ENC_LIMIT,
{
    lemma_parse_encode_todos(l);
}

} // verus!
