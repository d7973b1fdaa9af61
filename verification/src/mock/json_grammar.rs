//! The JSON grammar (RFC 8259) over bytes, and the proof that the validator's check
//! accepts exactly the texts the grammar derives.
use vstd::prelude::*;
use super::json_array::{
    is_ws, peek_spec, skip_ws_spec, has_word, word_true, word_false, word_null, string_body_spec,
    string_spec, bool_spec, null_spec, number_spec, value_spec, object_spec, members_spec,
    array_spec, elements_spec, json_check, lemma_skip_ws_ge, lemma_string_advances, JsonError,
};

verus! {

/// `0` to `9`.
pub open spec fn is_digit(c: u8) -> bool {
    48u8 <= c && c <= 57u8
}

/// `0` to `9`, `a` to `f`, `A` to `F`.
pub open spec fn is_hex_digit(c: u8) -> bool {
    is_digit(c) || (97u8 <= c && c <= 102u8) || (65u8 <= c && c <= 70u8)
}

/// The bytes that may follow a backslash on their own: `"` `\` `/` `b` `f` `n` `r` `t`.
pub open spec fn is_simple_escape(c: u8) -> bool {
    c == 34u8 || c == 92u8 || c == 47u8 || c == 98u8 || c == 102u8 || c == 110u8 || c == 114u8
        || c == 116u8
}

/// The first position at or after `p` that is not a digit.
pub open spec fn digits_end(b: Seq<u8>, p: int) -> int
    decreases b.len() - p,
{
    if 0 <= p < b.len() && is_digit(b[p]) {
        digits_end(b, p + 1)
    } else {
        p
    }
}

/// The integer part of a number at `p`: `0`, or a nonzero digit and more digits.
pub open spec fn int_part_end(b: Seq<u8>, p: int) -> Option<int> {
    match peek_spec(b, p) {
        Some(c) => if c == 48u8 {
            Some(p + 1)
        } else if 49u8 <= c && c <= 57u8 {
            Some(digits_end(b, p + 1))
        } else {
            None
        },
        None => None,
    }
}

/// An optional fraction at `p`: `.` and at least one digit.
pub open spec fn fraction_end(b: Seq<u8>, p: int) -> Option<int> {
    if peek_spec(b, p) == Some(46u8) {
        let d = digits_end(b, p + 1);
        if d > p + 1 {
            Some(d)
        } else {
            None
        }
    } else {
        Some(p)
    }
}

/// An optional exponent at `p`: `e` or `E`, an optional sign, and at least one digit.
pub open spec fn exponent_end(b: Seq<u8>, p: int) -> Option<int> {
    if peek_spec(b, p) == Some(101u8) || peek_spec(b, p) == Some(69u8) {
        let s = if peek_spec(b, p + 1) == Some(43u8) || peek_spec(b, p + 1) == Some(45u8) {
            p + 2
        } else {
            p + 1
        };
        let d = digits_end(b, s);
        if d > s {
            Some(d)
        } else {
            None
        }
    } else {
        Some(p)
    }
}

/// A number at `p`: an optional `-`, the integer part, an optional fraction and an
/// optional exponent.
pub open spec fn grammar_number(b: Seq<u8>, p: int) -> Option<int> {
    let p1 = if peek_spec(b, p) == Some(45u8) { p + 1 } else { p };
    match int_part_end(b, p1) {
        None => None,
        Some(p2) => match fraction_end(b, p2) {
            None => None,
            Some(p3) => exponent_end(b, p3),
        },
    }
}

/// The rest of a string from `i` (after the opening quote) up to and including the closing
/// quote: bytes from space up other than `"` and `\`, and escapes `\"` `\\` `\/` `\b` `\f`
/// `\n` `\r` `\t` and `\u` with four hex digits.
pub open spec fn grammar_string_body(b: Seq<u8>, i: int) -> Option<int>
    decreases b.len() - i,
{
    if i < 0 || i >= b.len() {
        None
    } else if b[i] == 34u8 {
        Some(i + 1)
    } else if b[i] == 92u8 {
        if i + 1 < b.len() && is_simple_escape(b[i + 1]) {
            grammar_string_body(b, i + 2)
        } else if i + 5 < b.len() && b[i + 1] == 117u8 && is_hex_digit(b[i + 2]) && is_hex_digit(
            b[i + 3],
        ) && is_hex_digit(b[i + 4]) && is_hex_digit(b[i + 5]) {
            grammar_string_body(b, i + 6)
        } else {
            None
        }
    } else if b[i] < 32u8 {
        None
    } else {
        grammar_string_body(b, i + 1)
    }
}

/// A string at `p`.
pub open spec fn grammar_string(b: Seq<u8>, p: int) -> Option<int> {
    if peek_spec(b, p) == Some(34u8) {
        grammar_string_body(b, p + 1)
    } else {
        None
    }
}

/// A value after optional whitespace at `p`: the position after it.
pub open spec fn grammar_value(b: Seq<u8>, p: int) -> Option<int>
    decreases b.len() - p, 1int,
{
    let q = skip_ws_spec(b, p);
    proof {
        lemma_skip_ws_ge(b, p);
    }
    if q < 0 || q >= b.len() {
        None
    } else {
        let c = b[q];
        if c == 123u8 {
            grammar_object(b, q)
        } else if c == 91u8 {
            grammar_array(b, q)
        } else if c == 34u8 {
            grammar_string(b, q)
        } else if c == 116u8 {
            if has_word(b, q, word_true()) {
                Some(q + 4)
            } else {
                None
            }
        } else if c == 102u8 {
            if has_word(b, q, word_false()) {
                Some(q + 5)
            } else {
                None
            }
        } else if c == 110u8 {
            if has_word(b, q, word_null()) {
                Some(q + 4)
            } else {
                None
            }
        } else if c == 45u8 || is_digit(c) {
            grammar_number(b, q)
        } else {
            None
        }
    }
}

/// An object whose `{` is at `p`.
pub open spec fn grammar_object(b: Seq<u8>, p: int) -> Option<int>
    decreases b.len() - p, 0int,
{
    if p < 0 || p >= b.len() {
        None
    } else {
        let r = skip_ws_spec(b, p + 1);
        proof {
            lemma_skip_ws_ge(b, p + 1);
        }
        if peek_spec(b, r) == Some(125u8) {
            Some(r + 1)
        } else {
            grammar_members(b, r)
        }
    }
}

/// Object members from `p`: a string key, `:`, a value, then `,` and more members or the
/// closing `}`, with whitespace between.
pub open spec fn grammar_members(b: Seq<u8>, p: int) -> Option<int>
    decreases b.len() - p, 2int,
{
    let p1 = skip_ws_spec(b, p);
    proof {
        lemma_skip_ws_ge(b, p);
    }
    match grammar_string(b, p1) {
        None => None,
        Some(p2) => if p2 <= p1 {
            None
        } else {
            proof {
                lemma_skip_ws_ge(b, p2);
            }
            let p3 = skip_ws_spec(b, p2);
            if peek_spec(b, p3) != Some(58u8) {
                None
            } else {
                match grammar_value(b, p3 + 1) {
                    None => None,
                    Some(p4) => if p4 <= p3 + 1 {
                        None
                    } else {
                        proof {
                            lemma_skip_ws_ge(b, p4);
                        }
                        let p5 = skip_ws_spec(b, p4);
                        if peek_spec(b, p5) == Some(44u8) {
                            grammar_members(b, p5 + 1)
                        } else if peek_spec(b, p5) == Some(125u8) {
                            Some(p5 + 1)
                        } else {
                            None
                        }
                    },
                }
            }
        },
    }
}

/// An array whose `[` is at `p`.
pub open spec fn grammar_array(b: Seq<u8>, p: int) -> Option<int>
    decreases b.len() - p, 0int,
{
    if p < 0 || p >= b.len() {
        None
    } else {
        let r = skip_ws_spec(b, p + 1);
        proof {
            lemma_skip_ws_ge(b, p + 1);
        }
        if peek_spec(b, r) == Some(93u8) {
            Some(r + 1)
        } else {
            grammar_elements(b, r)
        }
    }
}

/// Array elements from `p`: a value, then `,` and more elements or the closing `]`, with
/// whitespace between.
pub open spec fn grammar_elements(b: Seq<u8>, p: int) -> Option<int>
    decreases b.len() - p, 2int,
{
    match grammar_value(b, p) {
        None => None,
        Some(p2) => if p2 <= p {
            None
        } else {
            proof {
                lemma_skip_ws_ge(b, p2);
            }
            let p3 = skip_ws_spec(b, p2);
            if peek_spec(b, p3) == Some(44u8) {
                grammar_elements(b, p3 + 1)
            } else if peek_spec(b, p3) == Some(93u8) {
                Some(p3 + 1)
            } else {
                None
            }
        },
    }
}

/// `b` is a JSON text: one value with optional whitespace around it.
pub open spec fn grammar_json(b: Seq<u8>) -> bool {
    match grammar_value(b, skip_ws_spec(b, 0)) {
        Some(q) => skip_ws_spec(b, q) >= b.len(),
        None => false,
    }
}


// ---------------------------------------------------------------------------
// The validator's check and the grammar agree
// ---------------------------------------------------------------------------

/// The position a successful check reaches.
pub open spec fn ok_pos(r: Result<int, JsonError>) -> Option<int> {
    match r {
        Ok(q) => Some(q),
        Err(_) => None,
    }
}

pub proof fn lemma_digits_end(b: Seq<u8>, p: int)
    requires
        0 <= p <= b.len(),
    ensures
        p <= digits_end(b, p) <= b.len(),
        forall|k: int| p <= k < digits_end(b, p) ==> is_digit(#[trigger] b[k]),
        digits_end(b, p) < b.len() ==> !is_digit(b[digits_end(b, p)]),
    decreases b.len() - p,
{
    if p < b.len() && is_digit(b[p]) {
        lemma_digits_end(b, p + 1);
    }
}

proof fn lemma_string_body_agrees(b: Seq<u8>, i: int)
    ensures
        ok_pos(string_body_spec(b, i)) == grammar_string_body(b, i),
    decreases b.len() - i,
{
    if 0 <= i < b.len() && b[i] != 34u8 {
        if b[i] == 92u8 {
            if i + 1 < b.len() {
                lemma_string_body_agrees(b, i + 2);
                if i + 5 < b.len() {
                    lemma_string_body_agrees(b, i + 6);
                }
            }
        } else {
            lemma_string_body_agrees(b, i + 1);
        }
    }
}

proof fn lemma_value_agrees(b: Seq<u8>, p: int)
    ensures
        ok_pos(value_spec(b, p)) == grammar_value(b, p),
    decreases b.len() - p, 1int,
{
    let q0 = skip_ws_spec(b, p);
    lemma_skip_ws_ge(b, p);
    if 0 <= q0 < b.len() {
        let c = b[q0];
        if c == 123u8 {
            lemma_object_agrees(b, q0);
        } else if c == 91u8 {
            lemma_array_agrees(b, q0);
        } else if c == 34u8 {
            lemma_string_body_agrees(b, q0 + 1);
        } else if c == 116u8 {
            if has_word(b, q0, word_false()) {
                assert(b.subrange(q0, q0 + 5)[0] == b[q0]);
            }
        } else if c == 102u8 {
            if has_word(b, q0, word_true()) {
                assert(b.subrange(q0, q0 + 4)[0] == b[q0]);
            }
        }
    }
}

proof fn lemma_object_agrees(b: Seq<u8>, p: int)
    ensures
        ok_pos(object_spec(b, p)) == grammar_object(b, p),
    decreases b.len() - p, 0int,
{
    if 0 <= p < b.len() {
        let r = skip_ws_spec(b, p + 1);
        lemma_skip_ws_ge(b, p + 1);
        if peek_spec(b, r) != Some(125u8) {
            lemma_members_agrees(b, r);
        }
    }
}

proof fn lemma_members_agrees(b: Seq<u8>, p: int)
    ensures
        ok_pos(members_spec(b, p)) == grammar_members(b, p),
    decreases b.len() - p, 2int,
{
    let p1 = skip_ws_spec(b, p);
    lemma_skip_ws_ge(b, p);
    lemma_string_body_agrees(b, p1 + 1);
    lemma_string_advances(b, p1);
    if let Ok(p2) = string_spec(b, p1) {
        lemma_skip_ws_ge(b, p2);
        let p3 = skip_ws_spec(b, p2);
        if peek_spec(b, p3) == Some(58u8) {
            lemma_value_agrees(b, p3 + 1);
            if let Ok(p4) = value_spec(b, p3 + 1) {
                if p4 > p3 + 1 {
                    lemma_skip_ws_ge(b, p4);
                    let p5 = skip_ws_spec(b, p4);
                    if peek_spec(b, p5) == Some(44u8) {
                        lemma_members_agrees(b, p5 + 1);
                    }
                }
            }
        }
    }
}

proof fn lemma_array_agrees(b: Seq<u8>, p: int)
    ensures
        ok_pos(array_spec(b, p)) == grammar_array(b, p),
    decreases b.len() - p, 0int,
{
    if 0 <= p < b.len() {
        let r = skip_ws_spec(b, p + 1);
        lemma_skip_ws_ge(b, p + 1);
        if peek_spec(b, r) != Some(93u8) {
            lemma_elements_agrees(b, r);
        }
    }
}

proof fn lemma_elements_agrees(b: Seq<u8>, p: int)
    ensures
        ok_pos(elements_spec(b, p)) == grammar_elements(b, p),
    decreases b.len() - p, 2int,
{
    lemma_value_agrees(b, p);
    if let Ok(p2) = value_spec(b, p) {
        if p2 > p {
            lemma_skip_ws_ge(b, p2);
            let p3 = skip_ws_spec(b, p2);
            if peek_spec(b, p3) == Some(44u8) {
                lemma_elements_agrees(b, p3 + 1);
            }
        }
    }
}

/// The validator's whole-text check succeeds exactly on the JSON texts the grammar
/// derives.
pub proof fn lemma_json_check_is_grammar(b: Seq<u8>)
    ensures
        json_check(b) is Ok <==> grammar_json(b),
{
    lemma_value_agrees(b, skip_ws_spec(b, 0));
}

} // verus!
