//! The JSON codec of the backing file.
//!
//! The store file holds one JSON array of todo objects,
//! `[{"id":1,"name":"...","category":"...","text":"...","created_at":"..."}]`,
//! written compactly and in a canonical field order. The spec functions here
//! say exactly which character sequence a list encodes to and what a
//! character sequence parses to; the executable encoder and parser are proved
//! against them, and `lemma_parse_encode_todos` proves the round trip.

use vstd::prelude::*;

use crate::model::TodoItem;
use crate::model::TodoModel;

verus! {

/// Ids above this bound would need more than nineteen decimal digits, which
/// the parser does not accept; every id the store generates is far below it.
pub const ID_ENC_LIMIT: u64 = 10_000_000_000_000_000_000;

// ---------------------------------------------------------------------------
// Encoding, at the spec level
// ---------------------------------------------------------------------------

/// How one character is written inside a JSON string: quote, backslash and
/// the three common control characters are escaped, everything else stands
/// for itself.
pub open spec fn esc_char(c: char) -> Seq<char> {
    if c == '"' {
        seq!['\\', '"']
    } else if c == '\\' {
        seq!['\\', '\\']
    } else if c == '\n' {
        seq!['\\', 'n']
    } else if c == '\r' {
        seq!['\\', 'r']
    } else if c == '\t' {
        seq!['\\', 't']
    } else {
        seq![c]
    }
}

/// The body of a JSON string: each character escaped in turn.
pub open spec fn escape_text(s: Seq<char>) -> Seq<char>
    decreases s.len(),
{
    if s.len() == 0 {
        Seq::<char>::empty()
    } else {
        esc_char(s[0]) + escape_text(s.skip(1))
    }
}

/// A JSON string: the escaped body between double quotes.
pub open spec fn enc_text(s: Seq<char>) -> Seq<char> {
    seq!['"'] + escape_text(s) + seq!['"']
}

/// The character of one decimal digit.
pub open spec fn digit_char(d: int) -> char {
    if d == 0 {
        '0'
    } else if d == 1 {
        '1'
    } else if d == 2 {
        '2'
    } else if d == 3 {
        '3'
    } else if d == 4 {
        '4'
    } else if d == 5 {
        '5'
    } else if d == 6 {
        '6'
    } else if d == 7 {
        '7'
    } else if d == 8 {
        '8'
    } else {
        '9'
    }
}

/// A number in decimal, most significant digit first, no sign, no leading
/// zero except for zero itself.
pub open spec fn enc_u64(n: nat) -> Seq<char>
    decreases n,
{
    if n < 10 {
        seq![digit_char(n as int)]
    } else {
        enc_u64(n / 10) + seq![digit_char((n % 10) as int)]
    }
}

/// The opening of an object up to its id value: `{"id":`.
pub open spec fn lbl_id() -> Seq<char> {
    seq!['{', '"', 'i', 'd', '"', ':']
}

/// The separator before the name value: `,"name":`.
pub open spec fn lbl_name() -> Seq<char> {
    seq![',', '"', 'n', 'a', 'm', 'e', '"', ':']
}

/// The separator before the category value: `,"category":`.
pub open spec fn lbl_category() -> Seq<char> {
    seq![',', '"', 'c', 'a', 't', 'e', 'g', 'o', 'r', 'y', '"', ':']
}

/// The separator before the text value: `,"text":`.
pub open spec fn lbl_text() -> Seq<char> {
    seq![',', '"', 't', 'e', 'x', 't', '"', ':']
}

/// The separator before the timestamp value: `,"created_at":`.
pub open spec fn lbl_created_at() -> Seq<char> {
    seq![',', '"', 'c', 'r', 'e', 'a', 't', 'e', 'd', '_', 'a', 't', '"', ':']
}

/// One todo object, fields always in the same order.
pub open spec fn enc_item(t: TodoModel) -> Seq<char> {
    lbl_id() + enc_u64(t.id as nat) + lbl_name() + enc_text(t.name) + lbl_category() + enc_text(
        t.category,
    ) + lbl_text() + enc_text(t.text) + lbl_created_at() + enc_text(t.created_at) + seq!['}']
}

/// The items after the first, each preceded by a comma.
pub open spec fn enc_tail(l: Seq<TodoModel>) -> Seq<char>
    decreases l.len(),
{
    if l.len() == 0 {
        Seq::<char>::empty()
    } else {
        seq![','] + enc_item(l[0]) + enc_tail(l.skip(1))
    }
}

/// The comma-separated items of the array, without the brackets.
pub open spec fn enc_items(l: Seq<TodoModel>) -> Seq<char> {
    if l.len() == 0 {
        Seq::<char>::empty()
    } else {
        enc_item(l[0]) + enc_tail(l.skip(1))
    }
}

/// The whole store file: one JSON array.
pub open spec fn enc_list(l: Seq<TodoModel>) -> Seq<char> {
    seq!['['] + enc_items(l) + seq![']']
}

// ---------------------------------------------------------------------------
// Encoding, executable
// ---------------------------------------------------------------------------

/// The character of one decimal digit.
fn digit_char_exec(d: u64) -> (c: char)
    requires
        d < 10,
    ensures
        c == digit_char(d as int),
{
    if d == 0 {
        '0'
    } else if d == 1 {
        '1'
    } else if d == 2 {
        '2'
    } else if d == 3 {
        '3'
    } else if d == 4 {
        '4'
    } else if d == 5 {
        '5'
    } else if d == 6 {
        '6'
    } else if d == 7 {
        '7'
    } else if d == 8 {
        '8'
    } else {
        '9'
    }
}

/// Appends the decimal digits of `n`.
fn push_u64(out: &mut Vec<char>, n: u64)
    ensures
        final(out)@ == old(out)@ + enc_u64(n as nat),
    decreases n,
{
    if n < 10 {
        out.push(digit_char_exec(n));
        assert(final(out)@ =~= old(out)@ + enc_u64(n as nat));
    } else {
        push_u64(out, n / 10);
        out.push(digit_char_exec(n % 10));
        assert(final(out)@ =~= old(out)@ + enc_u64(n as nat));
    }
}

/// Appends one character in its escaped form.
fn push_esc_char(out: &mut Vec<char>, c: char)
    ensures
        final(out)@ == old(out)@ + esc_char(c),
{
    if c == '"' {
        out.push('\\');
        out.push('"');
    } else if c == '\\' {
        out.push('\\');
        out.push('\\');
    } else if c == '\n' {
        out.push('\\');
        out.push('n');
    } else if c == '\r' {
        out.push('\\');
        out.push('r');
    } else if c == '\t' {
        out.push('\\');
        out.push('t');
    } else {
        out.push(c);
    }
    assert(final(out)@ =~= old(out)@ + esc_char(c));
}

/// `escape_text` of a sequence one character longer.
proof fn lemma_escape_snoc(s: Seq<char>, c: char)
    ensures
        escape_text(s.push(c)) == escape_text(s) + esc_char(c),
    decreases s.len(),
{
    if s.len() == 0 {
        assert(s.push(c)[0] == c);
        assert(s.push(c).skip(1) =~= Seq::<char>::empty());
        assert(escape_text(Seq::<char>::empty()) == Seq::<char>::empty());
        assert(s =~= Seq::<char>::empty());
        assert(escape_text(s.push(c)) =~= esc_char(c));
        assert(escape_text(s) + esc_char(c) =~= esc_char(c));
    } else {
        assert(s.push(c)[0] == s[0]);
        assert(s.push(c).skip(1) =~= s.skip(1).push(c));
        lemma_escape_snoc(s.skip(1), c);
        assert(escape_text(s.push(c)) == esc_char(s[0]) + (escape_text(s.skip(1)) + esc_char(c)));
        assert(escape_text(s.push(c)) =~= escape_text(s) + esc_char(c));
    }
}

/// Appends a JSON string holding `s`.
fn push_text(out: &mut Vec<char>, s: &Vec<char>)
    ensures
        final(out)@ == old(out)@ + enc_text(s@),
{
    out.push('"');
    let mut i: usize = 0;
    while i < s.len()
        invariant
            i <= s.len(),
            out@ == old(out)@ + seq!['"'] + escape_text(s@.subrange(0, i as int)),
        decreases s.len() - i,
    {
        proof {
            lemma_escape_snoc(s@.subrange(0, i as int), s@[i as int]);
            assert(s@.subrange(0, i as int).push(s@[i as int]) =~= s@.subrange(0, i + 1 as int));
        }
        push_esc_char(out, s[i]);
        assert(out@ =~= old(out)@ + seq!['"'] + escape_text(s@.subrange(0, i + 1 as int)));
        i = i + 1;
    }
    assert(s@.subrange(0, s@.len() as int) =~= s@);
    out.push('"');
    assert(final(out)@ =~= old(out)@ + enc_text(s@));
}

/// Appends `{"id":`.
fn push_lbl_id(out: &mut Vec<char>)
    ensures
        final(out)@ == old(out)@ + lbl_id(),
{
    out.push('{');
    out.push('"');
    out.push('i');
    out.push('d');
    out.push('"');
    out.push(':');
    assert(final(out)@ =~= old(out)@ + lbl_id());
}

/// Appends `,"name":`.
fn push_lbl_name(out: &mut Vec<char>)
    ensures
        final(out)@ == old(out)@ + lbl_name(),
{
    out.push(',');
    out.push('"');
    out.push('n');
    out.push('a');
    out.push('m');
    out.push('e');
    out.push('"');
    out.push(':');
    assert(final(out)@ =~= old(out)@ + lbl_name());
}

/// Appends `,"category":`.
fn push_lbl_category(out: &mut Vec<char>)
    ensures
        final(out)@ == old(out)@ + lbl_category(),
{
    out.push(',');
    out.push('"');
    out.push('c');
    out.push('a');
    out.push('t');
    out.push('e');
    out.push('g');
    out.push('o');
    out.push('r');
    out.push('y');
    out.push('"');
    out.push(':');
    assert(final(out)@ =~= old(out)@ + lbl_category());
}

/// Appends `,"text":`.
fn push_lbl_text(out: &mut Vec<char>)
    ensures
        final(out)@ == old(out)@ + lbl_text(),
{
    out.push(',');
    out.push('"');
    out.push('t');
    out.push('e');
    out.push('x');
    out.push('t');
    out.push('"');
    out.push(':');
    assert(final(out)@ =~= old(out)@ + lbl_text());
}

/// Appends `,"created_at":`.
fn push_lbl_created_at(out: &mut Vec<char>)
    ensures
        final(out)@ == old(out)@ + lbl_created_at(),
{
    out.push(',');
    out.push('"');
    out.push('c');
    out.push('r');
    out.push('e');
    out.push('a');
    out.push('t');
    out.push('e');
    out.push('d');
    out.push('_');
    out.push('a');
    out.push('t');
    out.push('"');
    out.push(':');
    assert(final(out)@ =~= old(out)@ + lbl_created_at());
}

/// Appends one todo object.
#[verifier::rlimit(50)]
fn push_item(out: &mut Vec<char>, t: &TodoItem)
    ensures
        final(out)@ == old(out)@ + enc_item(t@),
{
    push_lbl_id(out);
    push_u64(out, t.id);
    assert(out@ =~= old(out)@ + (lbl_id() + enc_u64(t.id as nat)));
    push_lbl_name(out);
    push_text(out, &t.name);
    assert(out@ =~= old(out)@ + (lbl_id() + enc_u64(t.id as nat) + lbl_name() + enc_text(
        t.name@,
    )));
    push_lbl_category(out);
    push_text(out, &t.category);
    assert(out@ =~= old(out)@ + (lbl_id() + enc_u64(t.id as nat) + lbl_name() + enc_text(t.name@)
        + lbl_category() + enc_text(t.category@)));
    push_lbl_text(out);
    push_text(out, &t.text);
    assert(out@ =~= old(out)@ + (lbl_id() + enc_u64(t.id as nat) + lbl_name() + enc_text(t.name@)
        + lbl_category() + enc_text(t.category@) + lbl_text() + enc_text(t.text@)));
    push_lbl_created_at(out);
    push_text(out, &t.created_at);
    out.push('}');
    assert(final(out)@ =~= old(out)@ + enc_item(t@));
}

/// Appends the encodings of the items from `i` on, each with its leading
/// comma.
fn push_tail(out: &mut Vec<char>, items: &Vec<TodoItem>, i: usize)
    requires
        i <= items@.len(),
    ensures
        final(out)@ == old(out)@ + enc_tail(items.deep_view().skip(i as int)),
    decreases items@.len() - i,
{
    if i < items.len() {
        out.push(',');
        push_item(out, &items[i]);
        push_tail(out, items, i + 1);
        proof {
            let l = items.deep_view();
            assert(l.skip(i as int)[0] == items@[i as int]@);
            assert(l.skip(i as int).skip(1) =~= l.skip(i + 1 as int));
            assert(final(out)@ =~= old(out)@ + enc_tail(l.skip(i as int)));
        }
    } else {
        assert(items.deep_view().skip(i as int) =~= Seq::<TodoModel>::empty());
    }
}

/// Encodes the whole list as the store file's contents.
pub fn encode_todos(items: &Vec<TodoItem>) -> (r: Vec<char>)
    ensures
        r@ == enc_list(items.deep_view()),
{
    let mut out: Vec<char> = Vec::new();
    out.push('[');
    if items.len() > 0 {
        push_item(&mut out, &items[0]);
        push_tail(&mut out, items, 1);
        proof {
            let l = items.deep_view();
            assert(l[0] == items@[0]@);
            assert(l.skip(1) =~= l.skip(1));
        }
    }
    out.push(']');
    assert(out@ =~= enc_list(items.deep_view()));
    out
}

// ---------------------------------------------------------------------------
// Parsing, at the spec level
// ---------------------------------------------------------------------------

/// A decimal digit character.
pub open spec fn is_digit(c: char) -> bool {
    48 <= (c as u32) && (c as u32) <= 57
}

/// The value of a decimal digit character.
pub open spec fn digit_val(c: char) -> int {
    (c as u32) - 48
}

/// Strips the literal `l` off the front of `s`, or fails.
pub open spec fn p_lit(s: Seq<char>, l: Seq<char>) -> Option<Seq<char>> {
    if l.len() <= s.len() && s.subrange(0, l.len() as int) == l {
        Some(s.skip(l.len() as int))
    } else {
        None
    }
}

/// The character an escape sequence `\c` stands for, if `\c` is one the
/// encoder writes.
pub open spec fn unesc_char(c: char) -> Option<char> {
    if c == '"' {
        Some('"')
    } else if c == '\\' {
        Some('\\')
    } else if c == 'n' {
        Some('\n')
    } else if c == 'r' {
        Some('\r')
    } else if c == 't' {
        Some('\t')
    } else {
        None
    }
}

/// Reads a string body up to and over its closing quote; returns the decoded
/// text and what follows the quote.
pub open spec fn p_text_body(s: Seq<char>) -> Option<(Seq<char>, Seq<char>)>
    decreases s.len(),
{
    if s.len() == 0 {
        None
    } else if s[0] == '"' {
        Some((Seq::<char>::empty(), s.skip(1)))
    } else if s[0] == '\\' {
        if s.len() >= 2 {
            match unesc_char(s[1]) {
                Some(c) => match p_text_body(s.skip(2)) {
                    Some(p) => Some((seq![c] + p.0, p.1)),
                    None => None,
                },
                None => None,
            }
        } else {
            None
        }
    } else {
        match p_text_body(s.skip(1)) {
            Some(p) => Some((seq![s[0]] + p.0, p.1)),
            None => None,
        }
    }
}

/// Reads a quoted JSON string.
pub open spec fn p_text(s: Seq<char>) -> Option<(Seq<char>, Seq<char>)> {
    if s.len() > 0 && s[0] == '"' {
        p_text_body(s.skip(1))
    } else {
        None
    }
}

/// Splits the longest digit prefix off the front of `s`.
pub open spec fn p_digits(s: Seq<char>) -> (Seq<char>, Seq<char>)
    decreases s.len(),
{
    if s.len() > 0 && is_digit(s[0]) {
        (seq![s[0]] + p_digits(s.skip(1)).0, p_digits(s.skip(1)).1)
    } else {
        (Seq::<char>::empty(), s)
    }
}

/// The number a digit sequence denotes, most significant digit first.
pub open spec fn digits_val(ds: Seq<char>) -> int
    decreases ds.len(),
{
    if ds.len() == 0 {
        0
    } else {
        digits_val(ds.take(ds.len() - 1)) * 10 + digit_val(ds.last())
    }
}

/// Reads a decimal number of one to nineteen digits; such a number always
/// fits in a `u64`.
pub open spec fn p_u64(s: Seq<char>) -> Option<(u64, Seq<char>)> {
    let ds = p_digits(s).0;
    if 1 <= ds.len() && ds.len() <= 19 {
        Some((digits_val(ds) as u64, p_digits(s).1))
    } else {
        None
    }
}

/// Reads one todo object: the five fields, in the canonical order, between
/// braces.
pub open spec fn p_item(s: Seq<char>) -> Option<(TodoModel, Seq<char>)> {
    match p_lit(s, lbl_id()) {
        Some(s1) => match p_u64(s1) {
            Some((id, s2)) => match p_lit(s2, lbl_name()) {
                Some(s3) => match p_text(s3) {
                    Some((name, s4)) => match p_lit(s4, lbl_category()) {
                        Some(s5) => match p_text(s5) {
                            Some((category, s6)) => match p_lit(s6, lbl_text()) {
                                Some(s7) => match p_text(s7) {
                                    Some((text, s8)) => match p_lit(s8, lbl_created_at()) {
                                        Some(s9) => match p_text(s9) {
                                            Some((created_at, s10)) => match p_lit(
                                                s10,
                                                seq!['}'],
                                            ) {
                                                Some(s11) => Some(
                                                    (
                                                        TodoModel {
                                                            id,
                                                            name,
                                                            category,
                                                            text,
                                                            created_at,
                                                        },
                                                        s11,
                                                    ),
                                                ),
                                                None => None,
                                            },
                                            None => None,
                                        },
                                        None => None,
                                    },
                                    None => None,
                                },
                                None => None,
                            },
                            None => None,
                        },
                        None => None,
                    },
                    None => None,
                },
                None => None,
            },
            None => None,
        },
        None => None,
    }
}

/// After the first item of the array: either the closing bracket, or a comma
/// and a further item, repeated.
pub open spec fn p_items_rest(s: Seq<char>) -> Option<(Seq<TodoModel>, Seq<char>)>
    decreases s.len(),
{
    if s.len() == 0 {
        None
    } else if s[0] == ']' {
        Some((Seq::<TodoModel>::empty(), s.skip(1)))
    } else if s[0] == ',' {
        match p_item(s.skip(1)) {
            Some(p) => {
                if p.1.len() < s.len() {
                    match p_items_rest(p.1) {
                        Some(q) => Some((seq![p.0] + q.0, q.1)),
                        None => None,
                    }
                } else {
                    None
                }
            },
            None => None,
        }
    } else {
        None
    }
}

/// Reads the whole array.
pub open spec fn p_list(s: Seq<char>) -> Option<(Seq<TodoModel>, Seq<char>)> {
    if s.len() > 0 && s[0] == '[' {
        let s1 = s.skip(1);
        if s1.len() > 0 && s1[0] == ']' {
            Some((Seq::<TodoModel>::empty(), s1.skip(1)))
        } else {
            match p_item(s1) {
                Some(p) => match p_items_rest(p.1) {
                    Some(q) => Some((seq![p.0] + q.0, q.1)),
                    None => None,
                },
                None => None,
            }
        }
    } else {
        None
    }
}

/// What a store file's characters denote: the list, if the whole text is one
/// well-formed array and nothing follows it.
pub open spec fn parse_items(s: Seq<char>) -> Option<Seq<TodoModel>> {
    match p_list(s) {
        Some(p) => if p.1.len() == 0 {
            Some(p.0)
        } else {
            None
        },
        None => None,
    }
}

// ---------------------------------------------------------------------------
// The parser inverts the encoder
// ---------------------------------------------------------------------------

/// Powers of ten, for digit-count bounds.
pub open spec fn pow10(k: nat) -> nat
    decreases k,
{
    if k == 0 {
        1
    } else {
        10 * pow10((k - 1) as nat)
    }
}

/// Stripping a literal off a text that starts with it leaves the rest.
proof fn lemma_p_lit(l: Seq<char>, rest: Seq<char>)
    ensures
        p_lit(l + rest, l) == Some(rest),
{
    assert((l + rest).subrange(0, l.len() as int) =~= l);
    assert((l + rest).skip(l.len() as int) =~= rest);
}

/// Reading a string body from an escaped text followed by the closing quote
/// gives back the original text.
proof fn lemma_p_text_body(v: Seq<char>, rest: Seq<char>)
    ensures
        p_text_body(escape_text(v) + seq!['"'] + rest) == Some((v, rest)),
    decreases v.len(),
{
    let s = escape_text(v) + seq!['"'] + rest;
    if v.len() == 0 {
        assert(escape_text(v) == Seq::<char>::empty());
        assert(s[0] == '"');
        assert(s.skip(1) =~= rest);
        assert(v =~= Seq::<char>::empty());
    } else {
        let c = v[0];
        let v1 = v.skip(1);
        assert(escape_text(v) == esc_char(c) + escape_text(v1));
        lemma_p_text_body(v1, rest);
        let s2 = escape_text(v1) + seq!['"'] + rest;
        assert(seq![c] + v1 =~= v);
        if c == '"' || c == '\\' || c == '\n' || c == '\r' || c == '\t' {
            assert(esc_char(c).len() == 2);
            assert(s[0] == esc_char(c)[0]);
            assert(s[1] == esc_char(c)[1]);
            assert(s[0] == '\\');
            assert(unesc_char(s[1]) == Some(c));
            assert(s.skip(2) =~= s2);
        } else {
            assert(esc_char(c) == seq![c]);
            assert(s[0] == c);
            assert(s[0] != '"' && s[0] != '\\');
            assert(s.skip(1) =~= s2);
        }
    }
}

/// Reading a quoted string from its encoding gives back the original text.
proof fn lemma_p_text(v: Seq<char>, rest: Seq<char>)
    ensures
        p_text(enc_text(v) + rest) == Some((v, rest)),
{
    let s = enc_text(v) + rest;
    assert(s[0] == '"');
    assert(s.len() > 0);
    assert(s.skip(1) =~= escape_text(v) + seq!['"'] + rest);
    lemma_p_text_body(v, rest);
}

/// The decimal encoding consists of digits, has at least one of them, and
/// denotes the number it was made from.
proof fn lemma_enc_u64_digits(n: nat)
    ensures
        enc_u64(n).len() >= 1,
        forall|i: int| 0 <= i < enc_u64(n).len() ==> is_digit(#[trigger] enc_u64(n)[i]),
        digits_val(enc_u64(n)) == n,
    decreases n,
{
    if n < 10 {
        assert(is_digit(digit_char(n as int)));
        assert(digits_val(enc_u64(n)) == n) by {
            assert(enc_u64(n).take(0) =~= Seq::<char>::empty());
            assert(digits_val(Seq::<char>::empty()) == 0);
            assert(enc_u64(n).last() == digit_char(n as int));
            assert(digit_val(digit_char(n as int)) == n);
        }
    } else {
        lemma_enc_u64_digits(n / 10);
        let pre = enc_u64(n / 10);
        let d = digit_char((n % 10) as int);
        assert(is_digit(d));
        let e = pre + seq![d];
        assert(e.take(e.len() - 1) =~= pre);
        assert(e.last() == d);
        assert(digits_val(e) == digits_val(pre) * 10 + digit_val(d));
        assert(digit_val(d) == n % 10);
        assert((n / 10) * 10 + n % 10 == n) by (nonlinear_arith);
        assert(forall|i: int| 0 <= i < e.len() ==> is_digit(#[trigger] e[i])) by {
            assert(forall|i: int| 0 <= i < pre.len() ==> is_digit(#[trigger] pre[i]));
            assert(e[e.len() - 1] == d);
            assert(forall|i: int| 0 <= i < pre.len() ==> e[i] == pre[i]);
        }
    }
}

/// A number below the `k`-th power of ten needs at most `k` digits.
proof fn lemma_enc_u64_len(n: nat, k: nat)
    requires
        k >= 1,
        n < pow10(k),
    ensures
        enc_u64(n).len() <= k,
    decreases k,
{
    if n < 10 {
    } else {
        assert(k >= 2) by {
            reveal_with_fuel(pow10, 2);
            if k == 1 {
                assert(pow10(1) == 10);
            }
        }
        assert(pow10(k) == 10 * pow10((k - 1) as nat));
        assert(n / 10 < pow10((k - 1) as nat)) by (nonlinear_arith)
            requires
                n < 10 * pow10((k - 1) as nat),
        ;
        lemma_enc_u64_len(n / 10, (k - 1) as nat);
    }
}

/// Splitting digits off a text that starts with a digit run takes the whole
/// run before reaching the rest.
proof fn lemma_p_digits_prepend(ds: Seq<char>, s: Seq<char>)
    requires
        forall|i: int| 0 <= i < ds.len() ==> is_digit(#[trigger] ds[i]),
    ensures
        p_digits(ds + s) == (ds + p_digits(s).0, p_digits(s).1),
    decreases ds.len(),
{
    if ds.len() == 0 {
        assert(ds + s =~= s);
        assert(ds + p_digits(s).0 =~= p_digits(s).0);
    } else {
        assert((ds + s)[0] == ds[0]);
        assert((ds + s).skip(1) =~= ds.skip(1) + s);
        lemma_p_digits_prepend(ds.skip(1), s);
        assert(seq![(ds + s)[0]] + (ds.skip(1) + p_digits(s).0) =~= ds + p_digits(s).0);
    }
}

/// Reading a number from its decimal encoding gives the number back, as long
/// as no digit follows it and it is short enough for the parser.
proof fn lemma_p_u64(n: nat, rest: Seq<char>)
    requires
        n < ID_ENC_LIMIT,
        rest.len() == 0 || !is_digit(rest[0]),
    ensures
        p_u64(enc_u64(n) + rest) == Some((n as u64, rest)),
{
    lemma_enc_u64_digits(n);
    lemma_p_digits_prepend(enc_u64(n), rest);
    assert(p_digits(rest).0 =~= Seq::<char>::empty());
    assert(enc_u64(n) + Seq::<char>::empty() =~= enc_u64(n));
    assert(pow10(19) == 10_000_000_000_000_000_000) by {
        reveal_with_fuel(pow10, 20);
    }
    lemma_enc_u64_len(n, 19);
}

/// Reading one object from its encoding gives the item back.
#[verifier::rlimit(80)]
proof fn lemma_p_item(t: TodoModel, rest: Seq<char>)
    requires
        t.id < ID_ENC_LIMIT,
    ensures
        p_item(enc_item(t) + rest) == Some((t, rest)),
{
    let e_id = enc_u64(t.id as nat);
    let e_name = enc_text(t.name);
    let e_cat = enc_text(t.category);
    let e_text = enc_text(t.text);
    let e_created = enc_text(t.created_at);
    let r10 = seq!['}'] + rest;
    let r9 = e_created + r10;
    let r8 = lbl_created_at() + r9;
    let r7 = e_text + r8;
    let r6 = lbl_text() + r7;
    let r5 = e_cat + r6;
    let r4 = lbl_category() + r5;
    let r3 = e_name + r4;
    let r2 = lbl_name() + r3;
    let r1 = e_id + r2;
    let s0 = lbl_id() + r1;
    assert(enc_item(t) + rest =~= s0);
    lemma_p_lit(lbl_id(), r1);
    assert(r2[0] == ',');
    assert(!is_digit(','));
    lemma_p_u64(t.id as nat, r2);
    lemma_p_lit(lbl_name(), r3);
    lemma_p_text(t.name, r4);
    lemma_p_lit(lbl_category(), r5);
    lemma_p_text(t.category, r6);
    lemma_p_lit(lbl_text(), r7);
    lemma_p_text(t.text, r8);
    lemma_p_lit(lbl_created_at(), r9);
    lemma_p_text(t.created_at, r10);
    lemma_p_lit(seq!['}'], rest);
    assert(p_item(s0) == Some((TodoModel { id: t.id, ..t }, rest)));
    assert(TodoModel { id: t.id, ..t } == t);
}

/// Reading the items after the first from their encoding gives them back.
#[verifier::rlimit(80)]
proof fn lemma_p_items_rest(l: Seq<TodoModel>, rest: Seq<char>)
    requires
        forall|i: int| 0 <= i < l.len() ==> (#[trigger] l[i]).id < ID_ENC_LIMIT,
    ensures
        p_items_rest(enc_tail(l) + seq![']'] + rest) == Some((l, rest)),
    decreases l.len(),
{
    let s = enc_tail(l) + seq![']'] + rest;
    if l.len() == 0 {
        assert(enc_tail(l) == Seq::<char>::empty());
        assert(s[0] == ']');
        assert(s.skip(1) =~= rest);
        assert(l =~= Seq::<TodoModel>::empty());
    } else {
        let t = l[0];
        let l1 = l.skip(1);
        assert(enc_tail(l) == seq![','] + enc_item(t) + enc_tail(l1));
        let s2 = enc_tail(l1) + seq![']'] + rest;
        assert(s[0] == ',');
        assert(s[0] != ']');
        assert(s.skip(1) =~= enc_item(t) + s2);
        lemma_p_item(t, s2);
        assert(s.len() == 1 + enc_item(t).len() + s2.len()) by {
            assert(s =~= seq![','] + (enc_item(t) + s2));
        }
        assert(s2.len() < s.len());
        lemma_p_items_rest(l1, rest);
        assert(seq![t] + l1 =~= l);
    }
}

/// The public round-trip law: parsing the encoding of any list whose ids the
/// encoder can write in nineteen digits gives exactly that list back.
pub proof fn lemma_parse_encode_todos(l: Seq<TodoModel>)
    requires
        forall|i: int| 0 <= i < l.len() ==> (#[trigger] l[i]).id < ID_ENC_LIMIT,
    ensures
        parse_items(enc_list(l)) == Some(l),
{
    let s = enc_list(l);
    assert(s[0] == '[');
    let s1 = s.skip(1);
    if l.len() == 0 {
        assert(enc_items(l) == Seq::<char>::empty());
        assert(s1 =~= seq![']']);
        assert(s1[0] == ']');
        assert(s1.skip(1) =~= Seq::<char>::empty());
        assert(l =~= Seq::<TodoModel>::empty());
    } else {
        let t = l[0];
        let l1 = l.skip(1);
        assert(enc_items(l) == enc_item(t) + enc_tail(l1));
        let s2 = enc_tail(l1) + seq![']'] + Seq::<char>::empty();
        assert(s1 =~= enc_item(t) + s2);
        lemma_p_item(t, s2);
        assert(s1[0] == enc_item(t)[0]) by {
            assert(enc_item(t).len() > 0);
        }
        assert(enc_item(t)[0] == '{') by {
            assert(enc_item(t)[0] == lbl_id()[0]);
        }
        assert(s1[0] != ']');
        lemma_p_items_rest(l1, Seq::<char>::empty());
        assert(seq![t] + l1 =~= l);
        assert(p_list(s) == Some((l, Seq::<char>::empty())));
    }
}

// ---------------------------------------------------------------------------
// Parsing, executable
// ---------------------------------------------------------------------------

/// A decimal digit character.
fn is_digit_exec(c: char) -> (b: bool)
    ensures
        b == is_digit(c),
{
    let u = c as u32;
    48 <= u && u <= 57
}

/// Powers of ten do not shrink as the exponent grows.
proof fn lemma_pow10_le(a: nat, b: nat)
    requires
        a <= b,
    ensures
        pow10(a) <= pow10(b),
    decreases b,
{
    if a < b {
        lemma_pow10_le(a, (b - 1) as nat);
    }
}

/// A run of digits denotes a non-negative number below the power of ten of
/// its length.
proof fn lemma_digits_val_bound(ds: Seq<char>)
    requires
        forall|i: int| 0 <= i < ds.len() ==> is_digit(#[trigger] ds[i]),
    ensures
        0 <= digits_val(ds) < pow10(ds.len() as nat),
    decreases ds.len(),
{
    if ds.len() == 0 {
    } else {
        let pre = ds.take(ds.len() - 1);
        assert(forall|i: int| 0 <= i < pre.len() ==> is_digit(#[trigger] pre[i])) by {
            assert(forall|i: int| 0 <= i < pre.len() ==> pre[i] == ds[i]);
        }
        lemma_digits_val_bound(pre);
        assert(is_digit(ds.last()));
        assert(0 <= digit_val(ds.last()) <= 9);
        assert(pow10(ds.len() as nat) == 10 * pow10(pre.len() as nat));
    }
}

/// Every character the digit splitter takes is a digit.
proof fn lemma_p_digits_digits(s: Seq<char>)
    ensures
        forall|i: int|
            0 <= i < p_digits(s).0.len() ==> is_digit(#[trigger] p_digits(s).0[i]),
    decreases s.len(),
{
    if s.len() > 0 && is_digit(s[0]) {
        lemma_p_digits_digits(s.skip(1));
        let d = p_digits(s).0;
        let d1 = p_digits(s.skip(1)).0;
        assert(d == seq![s[0]] + d1);
        assert forall|i: int| 0 <= i < d.len() implies is_digit(#[trigger] d[i]) by {
            if i == 0 {
                assert(d[0] == s[0]);
            } else {
                assert(d[i] == d1[i - 1]);
            }
        }
    }
}

/// A number the parser reads is below the nineteen-digit bound.
proof fn lemma_p_u64_bound(s: Seq<char>)
    requires
        p_u64(s) is Some,
    ensures
        (p_u64(s)->0).0 < ID_ENC_LIMIT,
{
    let ds = p_digits(s).0;
    lemma_p_digits_digits(s);
    lemma_digits_val_bound(ds);
    lemma_pow10_le(ds.len() as nat, 19);
    assert(pow10(19) == 10_000_000_000_000_000_000) by {
        reveal_with_fuel(pow10, 20);
    }
}

/// An item the parser reads has a bounded id.
proof fn lemma_p_item_id_bound(s: Seq<char>)
    requires
        p_item(s) is Some,
    ensures
        (p_item(s)->0).0.id < ID_ENC_LIMIT,
{
    match p_lit(s, lbl_id()) {
        Some(s1) => {
            lemma_p_u64_bound(s1);
        },
        None => {
            assert(false);
        },
    }
}

/// Every item in a parsed array tail has a bounded id.
proof fn lemma_p_items_rest_ids(s: Seq<char>)
    requires
        p_items_rest(s) is Some,
    ensures
        forall|i: int|
            0 <= i < (p_items_rest(s)->0).0.len() ==> (#[trigger] (p_items_rest(s)->0).0[i]).id
                < ID_ENC_LIMIT,
    decreases s.len(),
{
    if s.len() == 0 {
    } else if s[0] == ']' {
    } else if s[0] == ',' {
        match p_item(s.skip(1)) {
            Some(p) => {
                lemma_p_item_id_bound(s.skip(1));
                if p.1.len() < s.len() {
                    lemma_p_items_rest_ids(p.1);
                    let l = (p_items_rest(s)->0).0;
                    let l1 = (p_items_rest(p.1)->0).0;
                    assert(l == seq![p.0] + l1);
                    assert forall|i: int| 0 <= i < l.len() implies (#[trigger] l[i]).id
                        < ID_ENC_LIMIT by {
                        if i == 0 {
                            assert(l[0] == p.0);
                        } else {
                            assert(l[i] == l1[i - 1]);
                        }
                    }
                }
            },
            None => {
                assert(false);
            },
        }
    }
}

/// Every id in a parsed store file is bounded: parsing composes with the
/// encoder's nineteen-digit numbers.
pub proof fn lemma_parse_ids_bounded(s: Seq<char>)
    requires
        parse_items(s) is Some,
    ensures
        forall|i: int|
            0 <= i < (parse_items(s)->0).len() ==> (#[trigger] (parse_items(s)->0)[i]).id
                < ID_ENC_LIMIT,
{
    let s1 = s.skip(1);
    if s1.len() > 0 && s1[0] == ']' {
    } else {
        match p_item(s1) {
            Some(p) => {
                lemma_p_item_id_bound(s1);
                match p_items_rest(p.1) {
                    Some(q) => {
                        lemma_p_items_rest_ids(p.1);
                        let l = parse_items(s)->0;
                        assert(l == seq![p.0] + q.0);
                        assert forall|i: int| 0 <= i < l.len() implies (#[trigger] l[i]).id
                            < ID_ENC_LIMIT by {
                            if i == 0 {
                                assert(l[0] == p.0);
                            } else {
                                assert(l[i] == q.0[i - 1]);
                            }
                        }
                    },
                    None => {
                        assert(false);
                    },
                }
            },
            None => {
                assert(false);
            },
        }
    }
}

/// Strips the literal `l` at position `pos`, or reports that it is not there.
fn px_lit(s: &Vec<char>, pos: usize, l: &Vec<char>) -> (r: Option<usize>)
    requires
        pos <= s@.len(),
    ensures
        match r {
            Some(p2) => pos <= p2 <= s@.len() && p2 - pos == l@.len() && p_lit(
                s@.skip(pos as int),
                l@,
            ) == Some(s@.skip(p2 as int)),
            None => p_lit(s@.skip(pos as int), l@) is None,
        },
{
    let n = s.len();
    if n - pos < l.len() {
        assert(s@.skip(pos as int).len() < l@.len());
        return None;
    }
    let mut i: usize = 0;
    while i < l.len()
        invariant
            0 <= i <= l@.len(),
            pos + l@.len() <= s@.len(),
            s@.len() == n,
            forall|j: int| 0 <= j < i ==> s@[pos + j] == l@[j],
        decreases l@.len() - i,
    {
        if s[pos + i] != l[i] {
            assert(s@.skip(pos as int)[i as int] == s@[pos + i]);
            assert(s@.skip(pos as int).subrange(0, l@.len() as int)[i as int] != l@[i as int]);
            assert(p_lit(s@.skip(pos as int), l@) is None);
            return None;
        }
        i = i + 1;
    }
    assert(s@.skip(pos as int).subrange(0, l@.len() as int) =~= l@) by {
        assert(forall|j: int|
            0 <= j < l@.len() ==> s@.skip(pos as int).subrange(0, l@.len() as int)[j] == s@[pos
                + j]);
    }
    assert(s@.skip(pos as int).skip(l@.len() as int) =~= s@.skip((pos + l@.len()) as int));
    Some(pos + l.len())
}

/// Reads a decimal number at `pos`.
fn px_u64(s: &Vec<char>, pos: usize) -> (r: Option<(u64, usize)>)
    requires
        pos <= s@.len(),
    ensures
        match r {
            Some(p) => pos < p.1 <= s@.len() && p_u64(s@.skip(pos as int)) == Some(
                (p.0, s@.skip(p.1 as int)),
            ),
            None => p_u64(s@.skip(pos as int)) is None,
        },
{
    let ghost tail = s@.skip(pos as int);
    let mut end: usize = pos;
    while end < s.len() && is_digit_exec(s[end])
        invariant
            pos <= end <= s@.len(),
            forall|j: int| pos <= j < end ==> is_digit(#[trigger] s@[j]),
        decreases s@.len() - end,
    {
        end = end + 1;
    }
    let ghost ds = s@.subrange(pos as int, end as int);
    proof {
        assert(forall|i: int| 0 <= i < ds.len() ==> is_digit(#[trigger] ds[i])) by {
            assert(forall|i: int| 0 <= i < ds.len() ==> ds[i] == s@[pos + i]);
        }
        assert(tail =~= ds + s@.skip(end as int));
        lemma_p_digits_prepend(ds, s@.skip(end as int));
        assert(p_digits(s@.skip(end as int)).0 =~= Seq::<char>::empty());
        assert(ds + Seq::<char>::empty() =~= ds);
        assert(p_digits(tail) == (ds, s@.skip(end as int)));
    }
    if end == pos || end - pos > 19 {
        return None;
    }
    proof {
        lemma_digits_val_bound(ds);
        lemma_pow10_le(ds.len() as nat, 19);
        assert(pow10(19) == 10_000_000_000_000_000_000) by {
            reveal_with_fuel(pow10, 20);
        }
    }
    let mut acc: u64 = 0;
    let mut i: usize = pos;
    while i < end
        invariant
            pos <= i <= end <= s@.len(),
            ds == s@.subrange(pos as int, end as int),
            forall|j: int| 0 <= j < ds.len() ==> is_digit(#[trigger] ds[j]),
            acc == digits_val(s@.subrange(pos as int, i as int)),
            end - pos <= 19,
        decreases end - i,
    {
        proof {
            let prei = s@.subrange(pos as int, i as int);
            let nxt = s@.subrange(pos as int, i + 1 as int);
            assert(forall|j: int| 0 <= j < prei.len() ==> prei[j] == ds[j]);
            assert(forall|j: int| 0 <= j < prei.len() ==> is_digit(#[trigger] prei[j]));
            lemma_digits_val_bound(prei);
            lemma_pow10_le(prei.len() as nat, 18);
            assert(pow10(18) == 1_000_000_000_000_000_000) by {
                reveal_with_fuel(pow10, 19);
            }
            assert(nxt.take(nxt.len() - 1) =~= prei);
            assert(nxt.last() == s@[i as int]);
            assert(is_digit(s@[i as int])) by {
                assert(ds[i - pos] == s@[i as int]);
            }
        }
        let d = (s[i] as u32 - 48) as u64;
        acc = acc * 10 + d;
        i = i + 1;
    }
    proof {
        assert(s@.subrange(pos as int, end as int) =~= ds);
        assert(digits_val(ds) == acc);
        assert(1 <= ds.len() <= 19);
        assert(p_u64(tail) == Some((digits_val(ds) as u64, s@.skip(end as int))));
    }
    Some((acc, end))
}

/// The character an escape sequence stands for.
fn unesc_char_exec(c: char) -> (r: Option<char>)
    ensures
        r == unesc_char(c),
{
    if c == '"' {
        Some('"')
    } else if c == '\\' {
        Some('\\')
    } else if c == 'n' {
        Some('\n')
    } else if c == 'r' {
        Some('\r')
    } else if c == 't' {
        Some('\t')
    } else {
        None
    }
}

/// Reads a string body at `pos`, up to and over the closing quote.
fn px_text_body(s: &Vec<char>, pos: usize) -> (r: Option<(Vec<char>, usize)>)
    requires
        pos <= s@.len(),
    ensures
        match r {
            Some(p) => pos < p.1 <= s@.len() && p_text_body(s@.skip(pos as int)) == Some(
                (p.0@, s@.skip(p.1 as int)),
            ),
            None => p_text_body(s@.skip(pos as int)) is None,
        },
    decreases s@.len() - pos,
{
    let ghost tail = s@.skip(pos as int);
    if pos >= s.len() {
        return None;
    }
    assert(tail[0] == s@[pos as int]);
    let c = s[pos];
    if c == '"' {
        let v: Vec<char> = Vec::new();
        assert(tail.skip(1) =~= s@.skip(pos + 1 as int));
        assert(v@ =~= Seq::<char>::empty());
        Some((v, pos + 1))
    } else if c == '\\' {
        if pos + 1 >= s.len() {
            assert(tail.len() < 2);
            return None;
        }
        assert(tail.len() >= 2);
        assert(tail[1] == s@[pos + 1 as int]);
        let e = s[pos + 1];
        match unesc_char_exec(e) {
            Some(d) => {
                assert(tail.skip(2) =~= s@.skip(pos + 2 as int));
                match px_text_body(s, pos + 2) {
                    Some((mut v, p2)) => {
                        v.insert(0, d);
                        assert(v@ =~= seq![d] + v@.skip(1));
                        Some((v, p2))
                    },
                    None => None,
                }
            },
            None => None,
        }
    } else {
        assert(tail.skip(1) =~= s@.skip(pos + 1 as int));
        match px_text_body(s, pos + 1) {
            Some((mut v, p2)) => {
                v.insert(0, c);
                assert(v@ =~= seq![c] + v@.skip(1));
                Some((v, p2))
            },
            None => None,
        }
    }
}

/// Reads a quoted string at `pos`.
fn px_text(s: &Vec<char>, pos: usize) -> (r: Option<(Vec<char>, usize)>)
    requires
        pos <= s@.len(),
    ensures
        match r {
            Some(p) => pos < p.1 <= s@.len() && p_text(s@.skip(pos as int)) == Some(
                (p.0@, s@.skip(p.1 as int)),
            ),
            None => p_text(s@.skip(pos as int)) is None,
        },
{
    let ghost tail = s@.skip(pos as int);
    if pos >= s.len() {
        return None;
    }
    assert(tail[0] == s@[pos as int]);
    if s[pos] != '"' {
        return None;
    }
    assert(tail.skip(1) =~= s@.skip(pos + 1 as int));
    px_text_body(s, pos + 1)
}

/// The characters of `lbl_id`.
fn lbl_id_vec() -> (v: Vec<char>)
    ensures
        v@ == lbl_id(),
{
    let mut v: Vec<char> = Vec::new();
    v.push('{');
    v.push('"');
    v.push('i');
    v.push('d');
    v.push('"');
    v.push(':');
    assert(v@ =~= lbl_id());
    v
}

/// The characters of `lbl_name`.
fn lbl_name_vec() -> (v: Vec<char>)
    ensures
        v@ == lbl_name(),
{
    let mut v: Vec<char> = Vec::new();
    v.push(',');
    v.push('"');
    v.push('n');
    v.push('a');
    v.push('m');
    v.push('e');
    v.push('"');
    v.push(':');
    assert(v@ =~= lbl_name());
    v
}

/// The characters of `lbl_category`.
fn lbl_category_vec() -> (v: Vec<char>)
    ensures
        v@ == lbl_category(),
{
    let mut v: Vec<char> = Vec::new();
    v.push(',');
    v.push('"');
    v.push('c');
    v.push('a');
    v.push('t');
    v.push('e');
    v.push('g');
    v.push('o');
    v.push('r');
    v.push('y');
    v.push('"');
    v.push(':');
    assert(v@ =~= lbl_category());
    v
}

/// The characters of `lbl_text`.
fn lbl_text_vec() -> (v: Vec<char>)
    ensures
        v@ == lbl_text(),
{
    let mut v: Vec<char> = Vec::new();
    v.push(',');
    v.push('"');
    v.push('t');
    v.push('e');
    v.push('x');
    v.push('t');
    v.push('"');
    v.push(':');
    assert(v@ =~= lbl_text());
    v
}

/// The characters of `lbl_created_at`.
fn lbl_created_at_vec() -> (v: Vec<char>)
    ensures
        v@ == lbl_created_at(),
{
    let mut v: Vec<char> = Vec::new();
    v.push(',');
    v.push('"');
    v.push('c');
    v.push('r');
    v.push('e');
    v.push('a');
    v.push('t');
    v.push('e');
    v.push('d');
    v.push('_');
    v.push('a');
    v.push('t');
    v.push('"');
    v.push(':');
    assert(v@ =~= lbl_created_at());
    v
}

/// Reads one todo object at `pos`.
#[verifier::rlimit(80)]
fn px_item(s: &Vec<char>, pos: usize) -> (r: Option<(TodoItem, usize)>)
    requires
        pos <= s@.len(),
    ensures
        match r {
            Some(p) => pos < p.1 <= s@.len() && p_item(s@.skip(pos as int)) == Some(
                (p.0@, s@.skip(p.1 as int)),
            ),
            None => p_item(s@.skip(pos as int)) is None,
        },
{
    let p1 = match px_lit(s, pos, &lbl_id_vec()) {
        Some(p) => p,
        None => {
            return None;
        },
    };
    let (id, p2) = match px_u64(s, p1) {
        Some(p) => p,
        None => {
            return None;
        },
    };
    let p3 = match px_lit(s, p2, &lbl_name_vec()) {
        Some(p) => p,
        None => {
            return None;
        },
    };
    let (name, p4) = match px_text(s, p3) {
        Some(p) => p,
        None => {
            return None;
        },
    };
    let p5 = match px_lit(s, p4, &lbl_category_vec()) {
        Some(p) => p,
        None => {
            return None;
        },
    };
    let (category, p6) = match px_text(s, p5) {
        Some(p) => p,
        None => {
            return None;
        },
    };
    let p7 = match px_lit(s, p6, &lbl_text_vec()) {
        Some(p) => p,
        None => {
            return None;
        },
    };
    let (text, p8) = match px_text(s, p7) {
        Some(p) => p,
        None => {
            return None;
        },
    };
    let p9 = match px_lit(s, p8, &lbl_created_at_vec()) {
        Some(p) => p,
        None => {
            return None;
        },
    };
    let (created_at, p10) = match px_text(s, p9) {
        Some(p) => p,
        None => {
            return None;
        },
    };
    let mut brace: Vec<char> = Vec::new();
    brace.push('}');
    assert(brace@ =~= seq!['}']);
    let p11 = match px_lit(s, p10, &brace) {
        Some(p) => p,
        None => {
            return None;
        },
    };
    let item = TodoItem { id, name, category, text, created_at };
    Some((item, p11))
}

/// Reads the items after the first: the closing bracket, or a comma and a
/// further item, repeated.
fn px_items_rest(s: &Vec<char>, pos: usize) -> (r: Option<(Vec<TodoItem>, usize)>)
    requires
        pos <= s@.len(),
    ensures
        match r {
            Some(p) => pos < p.1 <= s@.len() && p_items_rest(s@.skip(pos as int)) == Some(
                (p.0.deep_view(), s@.skip(p.1 as int)),
            ),
            None => p_items_rest(s@.skip(pos as int)) is None,
        },
    decreases s@.len() - pos,
{
    let ghost tail = s@.skip(pos as int);
    if pos >= s.len() {
        return None;
    }
    assert(tail[0] == s@[pos as int]);
    let c = s[pos];
    if c == ']' {
        let v: Vec<TodoItem> = Vec::new();
        assert(tail.skip(1) =~= s@.skip(pos + 1 as int));
        assert(v.deep_view() =~= Seq::<TodoModel>::empty());
        Some((v, pos + 1))
    } else if c == ',' {
        assert(tail.skip(1) =~= s@.skip(pos + 1 as int));
        match px_item(s, pos + 1) {
            Some((t, p2)) => {
                assert(s@.skip(p2 as int).len() < tail.len());
                match px_items_rest(s, p2) {
                    Some((mut l, p3)) => {
                        let ghost lv0 = l@;
                        let ghost l0 = l.deep_view();
                        let ghost tm = t@;
                        l.insert(0, t);
                        proof {
                            assert(l@ == lv0.insert(0, t));
                            assert forall|i: int| 0 <= i < l.deep_view().len() implies l.deep_view()[i]
                                == (seq![tm] + l0)[i] by {
                                if i == 0 {
                                    assert(l@[0] == t);
                                } else {
                                    assert(l@[i] == lv0[i - 1]);
                                    assert(l0[i - 1] == lv0[i - 1].deep_view());
                                }
                            }
                            assert(l.deep_view() =~= seq![tm] + l0);
                        }
                        Some((l, p3))
                    },
                    None => None,
                }
            },
            None => None,
        }
    } else {
        None
    }
}

/// Parses a whole store file. Returns the list exactly when the text is one
/// well-formed JSON array of todo objects with nothing after it.
pub fn parse_todos(s: &Vec<char>) -> (r: Option<Vec<TodoItem>>)
    ensures
        match r {
            Some(l) => parse_items(s@) == Some(l.deep_view()),
            None => parse_items(s@) is None,
        },
{
    if s.len() == 0 {
        return None;
    }
    if s[0] != '[' {
        return None;
    }
    let ghost s1 = s@.skip(1);
    proof {
        assert(s1.len() == s@.len() - 1);
        if s@.len() >= 2 {
            assert(s1[0] == s@[1]);
        }
    }
    if s.len() >= 2 && s[1] == ']' {
        if s.len() == 2 {
            let v: Vec<TodoItem> = Vec::new();
            assert(s1.skip(1) =~= Seq::<char>::empty());
            assert(v.deep_view() =~= Seq::<TodoModel>::empty());
            return Some(v);
        } else {
            assert(s1.skip(1).len() > 0);
            return None;
        }
    }
    match px_item(s, 1) {
        Some((t, p2)) => {
            match px_items_rest(s, p2) {
                Some((mut l, p3)) => {
                    if p3 == s.len() {
                        let ghost lv0 = l@;
                        let ghost l0 = l.deep_view();
                        let ghost tm = t@;
                        l.insert(0, t);
                        proof {
                            assert(s@.skip(p3 as int).len() == 0);
                            assert(l@ == lv0.insert(0, t));
                            assert forall|i: int| 0 <= i < l.deep_view().len() implies l.deep_view()[i]
                                == (seq![tm] + l0)[i] by {
                                if i == 0 {
                                    assert(l@[0] == t);
                                } else {
                                    assert(l@[i] == lv0[i - 1]);
                                    assert(l0[i - 1] == lv0[i - 1].deep_view());
                                }
                            }
                            assert(l.deep_view() =~= seq![tm] + l0);
                        }
                        Some(l)
                    } else {
                        assert(s@.skip(p3 as int).len() > 0);
                        None
                    }
                },
                None => None,
            }
        },
        None => None,
    }
}

} // verus!
