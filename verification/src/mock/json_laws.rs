//! Proof that the array generator's output is accepted by the validator whenever every
//! element is.
use vstd::prelude::*;
use vstd::utf8::{encode_utf8, encode_scalar, leading_byte_width_1};
use super::json_array::{
    is_ws, is_number_byte, peek_spec, skip_ws_spec, has_word, word_true, word_false, word_null,
    string_body_spec, string_spec, bool_spec, null_spec, number_spec, value_spec,
    object_spec, members_spec, array_spec, elements_spec, json_check, is_valid_json,
    join_elements, array_text, lemma_skip_ws_ge, lemma_string_advances,
};

use super::json_grammar::{
    is_digit, digits_end, int_part_end, fraction_end, exponent_end, grammar_number,
    lemma_digits_end, lemma_json_check_is_grammar,
};

verus! {

/// `e` appears in `b` at offset `o` and is followed there by a byte that neither
/// whitespace nor a number may continue with.
pub open spec fn embedded(b: Seq<u8>, e: Seq<u8>, o: int) -> bool {
    &&& 0 <= o
    &&& o + e.len() < b.len()
    &&& forall|i: int| 0 <= i < e.len() ==> b[o + i] == e[i]
    &&& !is_ws(b[o + e.len()])
    &&& !is_number_byte(b[o + e.len()])
}

proof fn frame_skip_ws(b: Seq<u8>, e: Seq<u8>, o: int, p: int)
    requires
        embedded(b, e, o),
        0 <= p <= e.len(),
    ensures
        skip_ws_spec(b, o + p) == o + skip_ws_spec(e, p),
    decreases e.len() - p,
{
    if p < e.len() {
        assert(b[o + p] == e[p]);
        if is_ws(e[p]) {
            frame_skip_ws(b, e, o, p + 1);
        }
    }
}

proof fn frame_digits_end(b: Seq<u8>, e: Seq<u8>, o: int, p: int)
    requires
        embedded(b, e, o),
        0 <= p <= e.len(),
    ensures
        digits_end(b, o + p) == o + digits_end(e, p),
    decreases e.len() - p,
{
    if p < e.len() {
        assert(b[o + p] == e[p]);
        if is_digit(e[p]) {
            frame_digits_end(b, e, o, p + 1);
        }
    } else {
        assert(!is_digit(b[o + e.len()]));
    }
}

/// Reading at `o + x` in `b` sees what `e` holds at `x`, and past the end of `e` a byte
/// that no number continues with.
proof fn frame_peek(b: Seq<u8>, e: Seq<u8>, o: int, x: int)
    requires
        embedded(b, e, o),
        0 <= x <= e.len(),
    ensures
        x < e.len() ==> peek_spec(b, o + x) == peek_spec(e, x),
        x == e.len() ==> (peek_spec(b, o + x) matches Some(c) && !is_number_byte(c)),
{
    if x < e.len() {
        assert(b[o + x] == e[x]);
    }
}

proof fn frame_string_body(b: Seq<u8>, e: Seq<u8>, o: int, i: int)
    requires
        embedded(b, e, o),
        0 <= i,
    ensures
        string_body_spec(e, i) matches Ok(q) ==> string_body_spec(b, o + i) == Ok::<
            int,
            super::json_array::JsonError,
        >(o + q),
    decreases e.len() - i,
{
    if i < e.len() {
        assert(b[o + i] == e[i]);
        if e[i] != 34u8 {
            if e[i] == 92u8 {
                if i + 1 < e.len() {
                    assert(b[o + i + 1] == e[i + 1]);
                    if i + 5 < e.len() {
                        assert(b[o + i + 2] == e[i + 2]);
                        assert(b[o + i + 3] == e[i + 3]);
                        assert(b[o + i + 4] == e[i + 4]);
                        assert(b[o + i + 5] == e[i + 5]);
                    }
                    frame_string_body(b, e, o, i + 2);
                    if i + 5 < e.len() {
                        frame_string_body(b, e, o, i + 6);
                    }
                }
            } else {
                frame_string_body(b, e, o, i + 1);
            }
        }
    }
}

proof fn frame_string(b: Seq<u8>, e: Seq<u8>, o: int, p: int)
    requires
        embedded(b, e, o),
        0 <= p <= e.len(),
    ensures
        string_spec(e, p) matches Ok(q) ==> string_spec(b, o + p) == Ok::<
            int,
            super::json_array::JsonError,
        >(o + q),
{
    if p < e.len() {
        assert(b[o + p] == e[p]);
        frame_string_body(b, e, o, p + 1);
    }
}

proof fn frame_word(b: Seq<u8>, e: Seq<u8>, o: int, p: int, w: Seq<u8>)
    requires
        embedded(b, e, o),
        0 <= p <= e.len(),
        has_word(e, p, w),
    ensures
        has_word(b, o + p, w),
{
    assert(b.subrange(o + p, o + p + w.len()) =~= e.subrange(p, p + w.len())) by {
        assert forall|i: int| 0 <= i < w.len() implies #[trigger] b.subrange(o + p, o + p + w.len())[i]
            == e.subrange(p, p + w.len())[i] by {
            assert(b[o + p + i] == e[p + i]);
        }
    }
}

proof fn frame_bool(b: Seq<u8>, e: Seq<u8>, o: int, p: int)
    requires
        embedded(b, e, o),
        0 <= p < e.len(),
        e[p] == 116u8 || e[p] == 102u8,
    ensures
        bool_spec(e, p) matches Ok(q) ==> bool_spec(b, o + p) == Ok::<
            int,
            super::json_array::JsonError,
        >(o + q),
{
    assert(b[o + p] == e[p]);
    if has_word(e, p, word_true()) {
        frame_word(b, e, o, p, word_true());
    } else if has_word(e, p, word_false()) {
        frame_word(b, e, o, p, word_false());
        assert(e.subrange(p, p + 5)[0] == 102u8);
        if has_word(b, o + p, word_true()) {
            assert(b.subrange(o + p, o + p + 4)[0] == b[o + p]);
        }
    }
}

proof fn frame_null(b: Seq<u8>, e: Seq<u8>, o: int, p: int)
    requires
        embedded(b, e, o),
        0 <= p < e.len(),
    ensures
        null_spec(e, p) matches Ok(q) ==> null_spec(b, o + p) == Ok::<
            int,
            super::json_array::JsonError,
        >(o + q),
{
    if has_word(e, p, word_null()) {
        frame_word(b, e, o, p, word_null());
    }
}

proof fn frame_number(b: Seq<u8>, e: Seq<u8>, o: int, p: int)
    requires
        embedded(b, e, o),
        0 <= p < e.len(),
    ensures
        number_spec(e, p) matches Ok(q) ==> number_spec(b, o + p) == Ok::<
            int,
            super::json_array::JsonError,
        >(o + q) && p < q <= e.len(),
{
    if let Some(q) = grammar_number(e, p) {
        frame_peek(b, e, o, p);
        let p1 = if peek_spec(e, p) == Some(45u8) { p + 1 } else { p };
        assert(p1 < e.len());
        frame_peek(b, e, o, p1);
        let p2 = int_part_end(e, p1)->Some_0;
        if e[p1] != 48u8 {
            frame_digits_end(b, e, o, p1 + 1);
            lemma_digits_end(e, p1 + 1);
        }
        assert(int_part_end(b, o + p1) == Some(o + p2));
        assert(p2 <= e.len());
        frame_peek(b, e, o, p2);
        let p3 = fraction_end(e, p2)->Some_0;
        if peek_spec(e, p2) == Some(46u8) {
            frame_digits_end(b, e, o, p2 + 1);
            lemma_digits_end(e, p2 + 1);
        }
        assert(fraction_end(b, o + p2) == Some(o + p3));
        assert(p3 <= e.len());
        frame_peek(b, e, o, p3);
        if peek_spec(e, p3) == Some(101u8) || peek_spec(e, p3) == Some(69u8) {
            frame_peek(b, e, o, p3 + 1);
            let st = if peek_spec(e, p3 + 1) == Some(43u8) || peek_spec(e, p3 + 1) == Some(45u8) {
                p3 + 2
            } else {
                p3 + 1
            };
            frame_digits_end(b, e, o, st);
            lemma_digits_end(e, st);
        }
        assert(exponent_end(b, o + p3) == Some(o + q));
        assert(grammar_number(b, o + p) == Some(o + q));
    }
}

proof fn frame_value(b: Seq<u8>, e: Seq<u8>, o: int, p: int)
    requires
        embedded(b, e, o),
        0 <= p <= e.len(),
    ensures
        value_spec(e, p) matches Ok(q) ==> value_spec(b, o + p) == Ok::<
            int,
            super::json_array::JsonError,
        >(o + q) && skip_ws_spec(e, p) < q <= e.len(),
    decreases e.len() - p, 1int,
{
    frame_skip_ws(b, e, o, p);
    lemma_skip_ws_ge(e, p);
    let q0 = skip_ws_spec(e, p);
    if q0 < e.len() {
        assert(b[o + q0] == e[q0]);
        let c = e[q0];
        if c == 123u8 {
            frame_object(b, e, o, q0);
        } else if c == 91u8 {
            frame_array(b, e, o, q0);
        } else if c == 34u8 {
            frame_string(b, e, o, q0);
            lemma_string_advances(e, q0);
        } else if c == 116u8 || c == 102u8 {
            frame_bool(b, e, o, q0);
        } else if c == 110u8 {
            frame_null(b, e, o, q0);
        } else if c == 45u8 || (48u8 <= c && c <= 57u8) {
            frame_number(b, e, o, q0);
        }
    }
}

proof fn frame_object(b: Seq<u8>, e: Seq<u8>, o: int, p: int)
    requires
        embedded(b, e, o),
        0 <= p < e.len(),
    ensures
        object_spec(e, p) matches Ok(q) ==> object_spec(b, o + p) == Ok::<
            int,
            super::json_array::JsonError,
        >(o + q) && p < q <= e.len(),
    decreases e.len() - p, 0int,
{
    frame_skip_ws(b, e, o, p + 1);
    lemma_skip_ws_ge(e, p + 1);
    let r = skip_ws_spec(e, p + 1);
    if r < e.len() {
        assert(b[o + r] == e[r]);
    }
    frame_members(b, e, o, r);
}

proof fn frame_members(b: Seq<u8>, e: Seq<u8>, o: int, p: int)
    requires
        embedded(b, e, o),
        0 <= p <= e.len(),
    ensures
        members_spec(e, p) matches Ok(q) ==> members_spec(b, o + p) == Ok::<
            int,
            super::json_array::JsonError,
        >(o + q) && p < q <= e.len(),
    decreases e.len() - p, 2int,
{
    frame_skip_ws(b, e, o, p);
    lemma_skip_ws_ge(e, p);
    let p1 = skip_ws_spec(e, p);
    frame_string(b, e, o, p1);
    lemma_string_advances(e, p1);
    if let Ok(p2) = string_spec(e, p1) {
        frame_skip_ws(b, e, o, p2);
        lemma_skip_ws_ge(e, p2);
        let p3 = skip_ws_spec(e, p2);
        if p3 < e.len() {
            assert(b[o + p3] == e[p3]);
            if e[p3] == 58u8 {
                frame_value(b, e, o, p3 + 1);
                if let Ok(p4) = value_spec(e, p3 + 1) {
                    lemma_skip_ws_ge(e, p3 + 1);
                    frame_skip_ws(b, e, o, p4);
                    lemma_skip_ws_ge(e, p4);
                    let p5 = skip_ws_spec(e, p4);
                    if p5 < e.len() {
                        assert(b[o + p5] == e[p5]);
                        if e[p5] == 44u8 {
                            frame_members(b, e, o, p5 + 1);
                        }
                    }
                }
            }
        }
    }
}

proof fn frame_array(b: Seq<u8>, e: Seq<u8>, o: int, p: int)
    requires
        embedded(b, e, o),
        0 <= p < e.len(),
    ensures
        array_spec(e, p) matches Ok(q) ==> array_spec(b, o + p) == Ok::<
            int,
            super::json_array::JsonError,
        >(o + q) && p < q <= e.len(),
    decreases e.len() - p, 0int,
{
    frame_skip_ws(b, e, o, p + 1);
    lemma_skip_ws_ge(e, p + 1);
    let r = skip_ws_spec(e, p + 1);
    if r < e.len() {
        assert(b[o + r] == e[r]);
    }
    frame_elements(b, e, o, r);
}

proof fn frame_elements(b: Seq<u8>, e: Seq<u8>, o: int, p: int)
    requires
        embedded(b, e, o),
        0 <= p <= e.len(),
    ensures
        elements_spec(e, p) matches Ok(q) ==> elements_spec(b, o + p) == Ok::<
            int,
            super::json_array::JsonError,
        >(o + q) && p < q <= e.len(),
    decreases e.len() - p, 2int,
{
    frame_value(b, e, o, p);
    if let Ok(p2) = value_spec(e, p) {
        lemma_skip_ws_ge(e, p);
        frame_skip_ws(b, e, o, p2);
        lemma_skip_ws_ge(e, p2);
        let p3 = skip_ws_spec(e, p2);
        if p3 < e.len() {
            assert(b[o + p3] == e[p3]);
            if e[p3] == 44u8 {
                frame_elements(b, e, o, p3 + 1);
            }
        }
    }
}

} // verus!

verus! {

/// The elements after the opening bracket: each followed by `,`, the last by `]`.
pub open spec fn tail_chars(es: Seq<Seq<char>>) -> Seq<char>
    decreases es.len(),
{
    if es.len() <= 1 {
        es[0] + seq![']']
    } else {
        es[0] + seq![','] + tail_chars(es.drop_first())
    }
}

/// The UTF-8 bytes of `tail_chars`.
pub open spec fn tail_bytes(es: Seq<Seq<char>>) -> Seq<u8>
    decreases es.len(),
{
    if es.len() <= 1 {
        encode_utf8(es[0]) + seq![93u8]
    } else {
        encode_utf8(es[0]) + seq![44u8] + tail_bytes(es.drop_first())
    }
}

proof fn lemma_join_front(es: Seq<Seq<char>>)
    requires
        es.len() >= 2,
    ensures
        join_elements(es) == es[0] + seq![','] + join_elements(es.drop_first()),
    decreases es.len(),
{
    assert(join_elements(es) == join_elements(es.drop_last()) + seq![','] + es.last());
    if es.len() == 2 {
        assert(es.drop_last() =~= seq![es[0]]);
        assert(es.drop_first() =~= seq![es[1]]);
        assert(join_elements(es.drop_last()) == es[0]);
        assert(join_elements(es.drop_first()) == es[1]);
    } else {
        lemma_join_front(es.drop_last());
        assert(join_elements(es.drop_first()) == join_elements(es.drop_first().drop_last())
            + seq![','] + es.drop_first().last());
        assert(es.drop_last().drop_first() =~= es.drop_first().drop_last());
        assert(es.drop_first().last() == es.last());
        assert(es.drop_last()[0] == es[0]);
        let x = es[0] + seq![','];
        let y = join_elements(es.drop_first().drop_last());
        assert(x + y + seq![','] + es.last() =~= x + (y + seq![','] + es.last()));
    }
}

proof fn lemma_join_then_close(es: Seq<Seq<char>>)
    requires
        es.len() >= 1,
    ensures
        join_elements(es) + seq![']'] == tail_chars(es),
    decreases es.len(),
{
    if es.len() >= 2 {
        lemma_join_front(es);
        lemma_join_then_close(es.drop_first());
        let x = es[0] + seq![','];
        assert(x + join_elements(es.drop_first()) + seq![']'] =~= x + (join_elements(es.drop_first())
            + seq![']']));
    }
}

proof fn lemma_encode_concat(x: Seq<char>, y: Seq<char>)
    ensures
        encode_utf8(x + y) == encode_utf8(x) + encode_utf8(y),
    decreases x.len(),
{
    if x.len() == 0 {
        assert(x + y =~= y);
        assert(encode_utf8(x) =~= Seq::<u8>::empty());
        assert(Seq::<u8>::empty() + encode_utf8(y) =~= encode_utf8(y));
    } else {
        lemma_encode_concat(x.drop_first(), y);
        assert((x + y).drop_first() =~= x.drop_first() + y);
        assert((x + y)[0] == x[0]);
        let h = encode_scalar(x[0] as u32);
        assert(h + (encode_utf8(x.drop_first()) + encode_utf8(y)) =~= h + encode_utf8(x.drop_first())
            + encode_utf8(y));
    }
}

proof fn lemma_encode_ascii(c: char, v: u32)
    requires
        c as u32 == v,
        v < 0x80,
    ensures
        encode_utf8(seq![c]) == seq![v as u8],
{
    assert(seq![c].drop_first() =~= Seq::<char>::empty());
    assert(encode_utf8(Seq::<char>::empty()) =~= Seq::<u8>::empty());
    assert((v & 0x7Fu32) == v) by (bit_vector)
        requires
            v < 0x80u32,
    ;
    assert(leading_byte_width_1(v) == v as u8);
    assert(encode_utf8(seq![c]) =~= seq![v as u8]);
}

proof fn lemma_tail_bytes(es: Seq<Seq<char>>)
    requires
        es.len() >= 1,
    ensures
        encode_utf8(tail_chars(es)) == tail_bytes(es),
    decreases es.len(),
{
    if es.len() == 1 {
        lemma_encode_concat(es[0], seq![']']);
        lemma_encode_ascii(']', 93);
    } else {
        lemma_tail_bytes(es.drop_first());
        lemma_encode_concat(es[0] + seq![','], tail_chars(es.drop_first()));
        lemma_encode_concat(es[0], seq![',']);
        lemma_encode_ascii(',', 44);
    }
}

proof fn lemma_skip_ws_within(b: Seq<u8>, x: int, y: int)
    requires
        0 <= x <= y <= skip_ws_spec(b, x),
    ensures
        skip_ws_spec(b, y) == skip_ws_spec(b, x),
    decreases y - x,
{
    if x < y {
        assert(0 <= x < b.len() && is_ws(b[x])) by {
            if !(0 <= x < b.len() && is_ws(b[x])) {
                assert(skip_ws_spec(b, x) == x);
            }
        }
        lemma_skip_ws_within(b, x + 1, y);
    }
}

/// Facts about one valid element: the value it holds ends at `q`, only whitespace follows,
/// and the value starts after its leading whitespace.
proof fn lemma_valid_element(e: Seq<u8>) -> (q: int)
    requires
        json_check(e) is Ok,
    ensures
        value_spec(e, 0) == Ok::<int, super::json_array::JsonError>(q),
        skip_ws_spec(e, q) == e.len(),
        skip_ws_spec(e, 0) < e.len(),
        e[skip_ws_spec(e, 0)] != 93u8,
        0 <= q <= e.len(),
{
    let s0 = skip_ws_spec(e, 0);
    lemma_skip_ws_ge(e, 0);
    lemma_skip_ws_within(e, 0, s0);
    let q = value_spec(e, s0)->Ok_0;
    // Placing `e` before a closing bracket bounds the value's end by `e.len()`.
    let b = e + seq![93u8];
    assert(embedded(b, e, 0)) by {
        assert forall|i: int| 0 <= i < e.len() implies b[0 + i] == e[i] by {}
        assert(b[0 + e.len() as int] == 93u8);
    }
    frame_value(b, e, 0, s0);
    lemma_skip_ws_ge(e, q);
    q
}

/// The validator's whole-text check accepts `s`.
spec fn checks(s: Seq<char>) -> bool {
    json_check(encode_utf8(s)) is Ok
}

proof fn lemma_elements_of_tail(b: Seq<u8>, es: Seq<Seq<char>>, x: int, y: int)
    requires
        es.len() >= 1,
        forall|i: int| 0 <= i < es.len() ==> checks(#[trigger] es[i]),
        0 <= x <= b.len(),
        b.subrange(x, b.len() as int) == tail_bytes(es),
        x <= y <= skip_ws_spec(b, x),
    ensures
        elements_spec(b, y) == Ok::<int, super::json_array::JsonError>(b.len() as int),
    decreases es.len(),
{
    let e = encode_utf8(es[0]);
    assert(checks(es[0]));
    let q = lemma_valid_element(e);
    let rest = b.subrange(x, b.len() as int);
    assert(rest.len() == b.len() - x);
    assert(rest.len() > e.len()) by {
        if es.len() == 1 {
            assert(rest =~= e + seq![93u8]);
        } else {
            assert(rest =~= e + seq![44u8] + tail_bytes(es.drop_first()));
        }
    }
    assert forall|i: int| 0 <= i < e.len() implies b[x + i] == e[i] by {
        assert(rest[i] == b[x + i]);
        if es.len() == 1 {
            assert(rest =~= e + seq![93u8]);
        } else {
            assert(rest =~= e + seq![44u8] + tail_bytes(es.drop_first()));
        }
    }
    let stop = b[x + e.len() as int];
    assert(rest[e.len() as int] == stop);
    if es.len() == 1 {
        assert(rest =~= e + seq![93u8]);
        assert(stop == 93u8);
    } else {
        assert(rest =~= e + seq![44u8] + tail_bytes(es.drop_first()));
        assert(stop == 44u8);
    }
    assert(embedded(b, e, x));
    frame_value(b, e, x, 0);
    frame_skip_ws(b, e, x, 0);
    frame_skip_ws(b, e, x, q);
    lemma_skip_ws_ge(b, x);
    lemma_skip_ws_within(b, x, y);
    // Starting anywhere inside the leading whitespace reads the same value.
    assert(value_spec(b, y) == value_spec(b, x));
    assert(value_spec(b, x) == Ok::<int, super::json_array::JsonError>(x + q));
    assert(x + q > y);
    let p3 = skip_ws_spec(b, x + q);
    assert(p3 == x + e.len());
    if es.len() == 1 {
        assert(b.len() == x + e.len() + 1);
    } else {
        let x2 = x + e.len() + 1;
        assert(b.subrange(x2, b.len() as int) =~= tail_bytes(es.drop_first())) by {
            assert(rest.subrange(e.len() as int + 1, rest.len() as int) =~= tail_bytes(es.drop_first()));
            assert forall|i: int| 0 <= i < b.len() - x2 implies b.subrange(x2, b.len() as int)[i]
                == #[trigger] rest.subrange(e.len() as int + 1, rest.len() as int)[i] by {
                assert(rest[e.len() as int + 1 + i] == b[x + e.len() as int + 1 + i]);
            }
        }
        assert forall|i: int| 0 <= i < es.drop_first().len() implies checks(
            #[trigger] es.drop_first()[i],
        ) by {
            assert(es.drop_first()[i] == es[i + 1]);
        }
        lemma_skip_ws_ge(b, x2);
        lemma_elements_of_tail(b, es.drop_first(), x2, x2);
    }
}

/// The array generator's output is valid JSON whenever every element is: the array text
/// of valid elements is accepted by the validator.
pub proof fn lemma_valid_elements_make_valid_array(elems: Seq<Seq<char>>)
    requires
        forall|i: int| 0 <= i < elems.len() ==> is_valid_json(#[trigger] elems[i]),
    ensures
        is_valid_json(array_text(elems)),
{
    assert forall|i: int| 0 <= i < elems.len() implies checks(#[trigger] elems[i]) by {
        lemma_json_check_is_grammar(encode_utf8(elems[i]));
    }
    lemma_json_check_is_grammar(encode_utf8(array_text(elems)));
    let t = array_text(elems);
    let b = encode_utf8(t);
    lemma_encode_ascii('[', 91);
    lemma_encode_ascii(']', 93);
    if elems.len() == 0 {
        assert(join_elements(elems) =~= Seq::<char>::empty());
        assert(t =~= seq!['['] + seq![']']);
        lemma_encode_concat(seq!['['], seq![']']);
        assert(b =~= seq![91u8, 93u8]);
        assert(skip_ws_spec(b, 2) == 2);
        assert(skip_ws_spec(b, 1) == 1);
        assert(skip_ws_spec(b, 0) == 0);
    } else {
        lemma_join_then_close(elems);
        assert(t =~= seq!['['] + tail_chars(elems));
        lemma_encode_concat(seq!['['], tail_chars(elems));
        lemma_tail_bytes(elems);
        assert(b =~= seq![91u8] + tail_bytes(elems));
        assert(b.subrange(1, b.len() as int) =~= tail_bytes(elems));
        assert(skip_ws_spec(b, 0) == 0);
        lemma_skip_ws_ge(b, 1);
        lemma_elements_of_tail(b, elems, 1, skip_ws_spec(b, 1));
        // The first non-whitespace byte after `[` starts the first element's value.
        let e = encode_utf8(elems[0]);
        assert(checks(elems[0]));
        let q = lemma_valid_element(e);
        assert(embedded(b, e, 1)) by {
            let rest = b.subrange(1, b.len() as int);
            if elems.len() == 1 {
                assert(rest =~= e + seq![93u8]);
            } else {
                assert(rest =~= e + seq![44u8] + tail_bytes(elems.drop_first()));
            }
            assert forall|i: int| 0 <= i < e.len() implies b[1 + i] == e[i] by {
                assert(rest[i] == b[1 + i]);
            }
            assert(rest[e.len() as int] == b[1 + e.len() as int]);
        }
        frame_skip_ws(b, e, 1, 0);
        let r = skip_ws_spec(b, 1);
        assert(b[r] == e[skip_ws_spec(e, 0)]);
        assert(skip_ws_spec(b, b.len() as int) == b.len());
    }
}

} // verus!
