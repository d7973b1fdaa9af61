//! JSON array generation and a JSON validator (RFC 8259 syntax) with its error messages.
use vstd::prelude::*;
use vstd::string::StringExecFns;
use vstd::utf8::encode_utf8;
use super::Rng;
use crate::text::{push_char, push_decimal, decimal};
use super::json_laws::lemma_valid_elements_make_valid_array;
use super::json_grammar::{
    is_digit, is_hex_digit, is_simple_escape, digits_end, int_part_end, fraction_end,
    exponent_end, grammar_number, grammar_json, lemma_digits_end, lemma_json_check_is_grammar,
};

verus! {

/// Why a text is not accepted as JSON, with the byte position where it was noticed.
#[derive(Clone, Copy, Debug, PartialEq, Eq)]
pub enum JsonError {
    /// The input ended where a value was expected.
    UnexpectedEnd,
    /// A value cannot start with this byte.
    UnexpectedByte { byte: u8, pos: usize },
    /// An object key is not followed by `:`.
    ExpectedColon { pos: usize },
    /// An object member is followed by neither `,` nor `}`.
    ExpectedObjectSeparator { pos: usize },
    /// An array element is followed by neither `,` nor `]`.
    ExpectedArraySeparator { pos: usize },
    /// An object key is not a string.
    ExpectedString { pos: usize },
    /// A backslash is the last byte of the input.
    UnterminatedEscape,
    /// A backslash at this position starts no valid escape.
    InvalidEscape { pos: usize },
    /// A control byte (below space) stands unescaped in a string at this position.
    ControlCharacter { pos: usize },
    /// A string has no closing quote.
    UnterminatedString,
    /// Neither `true` nor `false` starts here.
    InvalidBool { pos: usize },
    /// `null` does not start here.
    InvalidNull { pos: usize },
    /// No number as RFC 8259 writes it starts here.
    InvalidNumber { pos: usize },
    /// Bytes other than whitespace follow the value.
    TrailingCharacters { pos: usize },
}

/// JSON whitespace: space, tab, line feed, carriage return.
pub open spec fn is_ws(c: u8) -> bool {
    c == 32u8 || c == 9u8 || c == 10u8 || c == 13u8
}

/// Bytes a number may continue with: digits and `.` `e` `E` `+` `-`.
pub open spec fn is_number_byte(c: u8) -> bool {
    (48u8 <= c && c <= 57u8) || c == 46u8 || c == 101u8 || c == 69u8 || c == 43u8 || c == 45u8
}

/// The byte at `p`, if any.
pub open spec fn peek_spec(b: Seq<u8>, p: int) -> Option<u8> {
    if 0 <= p < b.len() {
        Some(b[p])
    } else {
        None
    }
}

/// The first position at or after `p` that is not whitespace.
pub open spec fn skip_ws_spec(b: Seq<u8>, p: int) -> int
    decreases b.len() - p,
{
    if 0 <= p < b.len() && is_ws(b[p]) {
        skip_ws_spec(b, p + 1)
    } else {
        p
    }
}

/// `b` holds the word `w` starting at `p`.
pub open spec fn has_word(b: Seq<u8>, p: int, w: Seq<u8>) -> bool {
    0 <= p && p + w.len() <= b.len() && b.subrange(p, p + w.len()) == w
}

/// The bytes of `true`, `false` and `null`.
pub open spec fn word_true() -> Seq<u8> {
    seq![116u8, 114u8, 117u8, 101u8]
}

pub open spec fn word_false() -> Seq<u8> {
    seq![102u8, 97u8, 108u8, 115u8, 101u8]
}

pub open spec fn word_null() -> Seq<u8> {
    seq![110u8, 117u8, 108u8, 108u8]
}

/// The rest of a string literal from `i` (after the opening quote): the position after
/// the closing quote, with the first error otherwise (as [`grammar_string_body`] reads a
/// string).
pub open spec fn string_body_spec(b: Seq<u8>, i: int) -> Result<int, JsonError>
    decreases b.len() - i,
{
    if i < 0 || i >= b.len() {
        Err(JsonError::UnterminatedString)
    } else if b[i] == 34u8 {
        Ok(i + 1)
    } else if b[i] == 92u8 {
        if i + 1 >= b.len() {
            Err(JsonError::UnterminatedEscape)
        } else if is_simple_escape(b[i + 1]) {
            string_body_spec(b, i + 2)
        } else if i + 5 < b.len() && b[i + 1] == 117u8 && is_hex_digit(b[i + 2]) && is_hex_digit(
            b[i + 3],
        ) && is_hex_digit(b[i + 4]) && is_hex_digit(b[i + 5]) {
            string_body_spec(b, i + 6)
        } else {
            Err(JsonError::InvalidEscape { pos: i as usize })
        }
    } else if b[i] < 32u8 {
        Err(JsonError::ControlCharacter { pos: i as usize })
    } else {
        string_body_spec(b, i + 1)
    }
}

/// A string literal at `p`.
pub open spec fn string_spec(b: Seq<u8>, p: int) -> Result<int, JsonError> {
    if peek_spec(b, p) != Some(34u8) {
        Err(JsonError::ExpectedString { pos: p as usize })
    } else {
        string_body_spec(b, p + 1)
    }
}

/// `true` or `false` at `p`.
pub open spec fn bool_spec(b: Seq<u8>, p: int) -> Result<int, JsonError> {
    if has_word(b, p, word_true()) {
        Ok(p + 4)
    } else if has_word(b, p, word_false()) {
        Ok(p + 5)
    } else {
        Err(JsonError::InvalidBool { pos: p as usize })
    }
}

/// `null` at `p`.
pub open spec fn null_spec(b: Seq<u8>, p: int) -> Result<int, JsonError> {
    if has_word(b, p, word_null()) {
        Ok(p + 4)
    } else {
        Err(JsonError::InvalidNull { pos: p as usize })
    }
}

/// A number at `start`, as [`grammar_number`] reads it.
pub open spec fn number_spec(b: Seq<u8>, start: int) -> Result<int, JsonError> {
    match grammar_number(b, start) {
        Some(q) => Ok(q),
        None => Err(JsonError::InvalidNumber { pos: start as usize }),
    }
}

/// A value at `p` (after optional whitespace): the position after it.
pub open spec fn value_spec(b: Seq<u8>, p: int) -> Result<int, JsonError>
    decreases b.len() - p, 1int,
{
    let q = skip_ws_spec(b, p);
    proof {
        lemma_skip_ws_ge(b, p);
    }
    if q < 0 || q >= b.len() {
        Err(JsonError::UnexpectedEnd)
    } else {
        let c = b[q];
        if c == 123u8 {
            object_spec(b, q)
        } else if c == 91u8 {
            array_spec(b, q)
        } else if c == 34u8 {
            string_spec(b, q)
        } else if c == 116u8 || c == 102u8 {
            bool_spec(b, q)
        } else if c == 110u8 {
            null_spec(b, q)
        } else if c == 45u8 || (48u8 <= c && c <= 57u8) {
            number_spec(b, q)
        } else {
            Err(JsonError::UnexpectedByte { byte: c, pos: q as usize })
        }
    }
}

/// An object whose `{` is at `p`.
pub open spec fn object_spec(b: Seq<u8>, p: int) -> Result<int, JsonError>
    decreases b.len() - p, 0int,
{
    if p < 0 || p >= b.len() {
        Err(JsonError::UnexpectedEnd)
    } else {
        let r = skip_ws_spec(b, p + 1);
        proof {
            lemma_skip_ws_ge(b, p + 1);
        }
        if peek_spec(b, r) == Some(125u8) {
            Ok(r + 1)
        } else {
            members_spec(b, r)
        }
    }
}

/// Object members from `p` up to and including the closing `}`.
pub open spec fn members_spec(b: Seq<u8>, p: int) -> Result<int, JsonError>
    decreases b.len() - p, 2int,
{
    let p1 = skip_ws_spec(b, p);
    proof {
        lemma_skip_ws_ge(b, p);
    }
    match string_spec(b, p1) {
        Err(e) => Err(e),
        Ok(p2) => {
            proof {
                lemma_string_advances(b, p1);
                lemma_skip_ws_ge(b, p2);
            }
            let p3 = skip_ws_spec(b, p2);
            if peek_spec(b, p3) != Some(58u8) {
                Err(JsonError::ExpectedColon { pos: p3 as usize })
            } else {
                match value_spec(b, p3 + 1) {
                    Err(e) => Err(e),
                    Ok(p4) => {
                        if p4 <= p3 + 1 {
                            Err(JsonError::UnexpectedEnd)
                        } else {
                            proof {
                                lemma_skip_ws_ge(b, p4);
                            }
                            let p5 = skip_ws_spec(b, p4);
                            if peek_spec(b, p5) == Some(44u8) {
                                members_spec(b, p5 + 1)
                            } else if peek_spec(b, p5) == Some(125u8) {
                                Ok(p5 + 1)
                            } else {
                                Err(JsonError::ExpectedObjectSeparator { pos: p5 as usize })
                            }
                        }
                    },
                }
            }
        },
    }
}

/// An array whose `[` is at `p`.
pub open spec fn array_spec(b: Seq<u8>, p: int) -> Result<int, JsonError>
    decreases b.len() - p, 0int,
{
    if p < 0 || p >= b.len() {
        Err(JsonError::UnexpectedEnd)
    } else {
        let r = skip_ws_spec(b, p + 1);
        proof {
            lemma_skip_ws_ge(b, p + 1);
        }
        if peek_spec(b, r) == Some(93u8) {
            Ok(r + 1)
        } else {
            elements_spec(b, r)
        }
    }
}

/// Array elements from `p` up to and including the closing `]`.
pub open spec fn elements_spec(b: Seq<u8>, p: int) -> Result<int, JsonError>
    decreases b.len() - p, 2int,
{
    match value_spec(b, p) {
        Err(e) => Err(e),
        Ok(p2) => {
            if p2 <= p {
                Err(JsonError::UnexpectedEnd)
            } else {
                proof {
                    lemma_skip_ws_ge(b, p2);
                }
                let p3 = skip_ws_spec(b, p2);
                if peek_spec(b, p3) == Some(44u8) {
                    elements_spec(b, p3 + 1)
                } else if peek_spec(b, p3) == Some(93u8) {
                    Ok(p3 + 1)
                } else {
                    Err(JsonError::ExpectedArraySeparator { pos: p3 as usize })
                }
            }
        },
    }
}

/// Whole-text check: one value, surrounded by optional whitespace.
pub open spec fn json_check(b: Seq<u8>) -> Result<(), JsonError> {
    match value_spec(b, skip_ws_spec(b, 0)) {
        Err(e) => Err(e),
        Ok(q) => {
            let r = skip_ws_spec(b, q);
            if r < b.len() {
                Err(JsonError::TrailingCharacters { pos: r as usize })
            } else {
                Ok(())
            }
        },
    }
}

/// `s` is a JSON text (RFC 8259): one value with optional whitespace around it.
pub open spec fn is_valid_json(s: Seq<char>) -> bool {
    grammar_json(encode_utf8(s))
}

pub proof fn lemma_skip_ws_ge(b: Seq<u8>, p: int)
    ensures
        skip_ws_spec(b, p) >= p,
        0 <= p <= b.len() ==> skip_ws_spec(b, p) <= b.len(),
    decreases b.len() - p,
{
    if 0 <= p < b.len() && is_ws(b[p]) {
        lemma_skip_ws_ge(b, p + 1);
    }
}

proof fn lemma_string_body_advances(b: Seq<u8>, i: int)
    ensures
        string_body_spec(b, i) matches Ok(q) ==> q > i && q <= b.len(),
    decreases b.len() - i,
{
    if 0 <= i < b.len() && b[i] != 34u8 {
        if b[i] == 92u8 {
            if i + 1 < b.len() {
                lemma_string_body_advances(b, i + 2);
                if i + 5 < b.len() {
                    lemma_string_body_advances(b, i + 6);
                }
            }
        } else {
            lemma_string_body_advances(b, i + 1);
        }
    }
}

pub proof fn lemma_string_advances(b: Seq<u8>, p: int)
    ensures
        string_spec(b, p) matches Ok(q) ==> q > p && q <= b.len(),
{
    lemma_string_body_advances(b, p + 1);
}

} // verus!

verus! {

/// The message the validator reports for `e`.
pub open spec fn error_message(e: JsonError) -> Seq<char> {
    match e {
        JsonError::UnexpectedEnd => "unexpected end of input"@,
        JsonError::UnexpectedByte { byte, pos } => "invalid JSON: unexpected '"@ + seq![
            byte as char,
        ] + "' at position "@ + decimal(pos as nat),
        JsonError::ExpectedColon { pos } => "expected ':' at position "@ + decimal(pos as nat),
        JsonError::ExpectedObjectSeparator { pos } => "expected ',' or '}' in object at position "@
            + decimal(pos as nat),
        JsonError::ExpectedArraySeparator { pos } => "expected ',' or ']' in array at position "@
            + decimal(pos as nat),
        JsonError::ExpectedString { pos } => "expected string at position "@ + decimal(pos as nat),
        JsonError::UnterminatedEscape => "unterminated escape in string"@,
        JsonError::InvalidEscape { pos } => "invalid escape in string at position "@ + decimal(
            pos as nat,
        ),
        JsonError::ControlCharacter { pos } => "control character in string at position "@
            + decimal(pos as nat),
        JsonError::UnterminatedString => "unterminated string"@,
        JsonError::InvalidBool { pos } => "invalid bool at position "@ + decimal(pos as nat),
        JsonError::InvalidNull { pos } => "invalid null at position "@ + decimal(pos as nat),
        JsonError::InvalidNumber { pos } => "invalid number at position "@ + decimal(pos as nat),
        JsonError::TrailingCharacters { pos } => "trailing characters after JSON value at position "@
            + decimal(pos as nat),
    }
}

fn message_with_position(prefix: &str, pos: usize) -> (out: String)
    ensures
        out@ == prefix@ + decimal(pos as nat),
{
    let mut out = prefix.to_string();
    push_decimal(&mut out, pos);
    out
}

/// The one-line message for a validation error.
pub fn error_text(e: JsonError) -> (out: String)
    ensures
        out@ == error_message(e),
{
    match e {
        JsonError::UnexpectedEnd => "unexpected end of input".to_string(),
        JsonError::UnexpectedByte { byte, pos } => {
            let mut out = "invalid JSON: unexpected '".to_string();
            push_char(&mut out, byte as char);
            out.append("' at position ");
            push_decimal(&mut out, pos);
            out
        },
        JsonError::ExpectedColon { pos } => message_with_position("expected ':' at position ", pos),
        JsonError::ExpectedObjectSeparator { pos } => message_with_position(
            "expected ',' or '}' in object at position ",
            pos,
        ),
        JsonError::ExpectedArraySeparator { pos } => message_with_position(
            "expected ',' or ']' in array at position ",
            pos,
        ),
        JsonError::ExpectedString { pos } => message_with_position(
            "expected string at position ",
            pos,
        ),
        JsonError::UnterminatedEscape => "unterminated escape in string".to_string(),
        JsonError::InvalidEscape { pos } => message_with_position(
            "invalid escape in string at position ",
            pos,
        ),
        JsonError::ControlCharacter { pos } => message_with_position(
            "control character in string at position ",
            pos,
        ),
        JsonError::UnterminatedString => "unterminated string".to_string(),
        JsonError::InvalidBool { pos } => message_with_position("invalid bool at position ", pos),
        JsonError::InvalidNull { pos } => message_with_position("invalid null at position ", pos),
        JsonError::InvalidNumber { pos } => message_with_position(
            "invalid number at position ",
            pos,
        ),
        JsonError::TrailingCharacters { pos } => message_with_position(
            "trailing characters after JSON value at position ",
            pos,
        ),
    }
}

fn is_ws_byte(c: u8) -> (r: bool)
    ensures
        r == is_ws(c),
{
    c == 32u8 || c == 9u8 || c == 10u8 || c == 13u8
}

fn is_digit_byte(c: u8) -> (r: bool)
    ensures
        r == is_digit(c),
{
    48u8 <= c && c <= 57u8
}

fn is_hex_byte(c: u8) -> (r: bool)
    ensures
        r == is_hex_digit(c),
{
    (48u8 <= c && c <= 57u8) || (97u8 <= c && c <= 102u8) || (65u8 <= c && c <= 70u8)
}

fn is_simple_escape_byte(c: u8) -> (r: bool)
    ensures
        r == is_simple_escape(c),
{
    c == 34u8 || c == 92u8 || c == 47u8 || c == 98u8 || c == 102u8 || c == 110u8 || c == 114u8
        || c == 116u8
}

fn has_word_at(bytes: &[u8], pos: usize, w: &[u8]) -> (r: bool)
    ensures
        r == has_word(bytes@, pos as int, w@),
{
    if pos > bytes.len() || w.len() > bytes.len() - pos {
        return false;
    }
    let mut k: usize = 0;
    while k < w.len()
        invariant
            pos + w.len() <= bytes.len(),
            k <= w.len(),
            forall|j: int| 0 <= j < k ==> bytes@[pos + j] == w@[j],
        decreases w.len() - k,
    {
        if bytes[pos + k] != w[k] {
            assert(bytes@.subrange(pos as int, pos + w.len())[k as int] != w@[k as int]);
            return false;
        }
        k = k + 1;
    }
    assert(bytes@.subrange(pos as int, pos + w.len()) =~= w@);
    true
}

/// A cursor over the bytes of the text being validated.
struct MiniJsonParser<'a> {
    bytes: &'a [u8],
    pos: usize,
}

impl<'a> MiniJsonParser<'a> {
    fn new(s: &'a str) -> (p: Self)
        ensures
            p.bytes@ == encode_utf8(s@),
            p.pos == 0,
            p.bytes@.len() <= usize::MAX,
    {
        let bytes = s.as_bytes();
        let _n = bytes.len();
        MiniJsonParser { bytes, pos: 0 }
    }

    fn skip_ws(&mut self)
        requires
            old(self).pos <= old(self).bytes@.len() <= usize::MAX,
        ensures
            final(self).bytes == old(self).bytes,
            final(self).pos == skip_ws_spec(old(self).bytes@, old(self).pos as int),
            final(self).pos <= final(self).bytes@.len(),
    {
        while self.pos < self.bytes.len() && is_ws_byte(self.bytes[self.pos])
            invariant
                self.bytes == old(self).bytes,
                self.pos <= self.bytes@.len(),
                skip_ws_spec(self.bytes@, self.pos as int) == skip_ws_spec(
                    old(self).bytes@,
                    old(self).pos as int,
                ),
            decreases self.bytes@.len() - self.pos,
        {
            self.pos = self.pos + 1;
        }
    }

    fn peek(&self) -> (r: Option<u8>)
        ensures
            r == peek_spec(self.bytes@, self.pos as int),
    {
        if self.pos < self.bytes.len() {
            Some(self.bytes[self.pos])
        } else {
            None
        }
    }

    fn peek_at(&self, idx: usize) -> (r: Option<u8>)
        ensures
            r == peek_spec(self.bytes@, idx as int),
    {
        if idx < self.bytes.len() {
            Some(self.bytes[idx])
        } else {
            None
        }
    }

    fn peek_is(&self, c: u8) -> (r: bool)
        ensures
            r == (peek_spec(self.bytes@, self.pos as int) == Some(c)),
    {
        match self.peek() {
            Some(d) => d == c,
            None => false,
        }
    }

    fn parse_value(&mut self) -> (r: Result<(), JsonError>)
        requires
            old(self).pos <= old(self).bytes@.len() <= usize::MAX,
        ensures
            final(self).bytes == old(self).bytes,
            final(self).pos <= final(self).bytes@.len(),
            match r {
                Ok(()) => value_spec(old(self).bytes@, old(self).pos as int) == Ok::<int, JsonError>(
                    final(self).pos as int,
                ) && final(self).pos > old(self).pos,
                Err(e) => value_spec(old(self).bytes@, old(self).pos as int) == Err::<int, JsonError>(e),
            },
        decreases old(self).bytes@.len() - old(self).pos, 1int,
    {
        self.skip_ws();
        proof {
            lemma_skip_ws_ge(self.bytes@, old(self).pos as int);
        }
        if self.pos >= self.bytes.len() {
            return Err(JsonError::UnexpectedEnd);
        }
        let c = self.bytes[self.pos];
        if c == 123u8 {
            self.parse_object()
        } else if c == 91u8 {
            self.parse_array()
        } else if c == 34u8 {
            self.parse_string()
        } else if c == 116u8 || c == 102u8 {
            self.parse_bool()
        } else if c == 110u8 {
            self.parse_null()
        } else if c == 45u8 || (48u8 <= c && c <= 57u8) {
            self.parse_number()
        } else {
            Err(JsonError::UnexpectedByte { byte: c, pos: self.pos })
        }
    }

    fn parse_object(&mut self) -> (r: Result<(), JsonError>)
        requires
            old(self).pos < old(self).bytes@.len() <= usize::MAX,
            old(self).bytes@[old(self).pos as int] == 123u8,
        ensures
            final(self).bytes == old(self).bytes,
            final(self).pos <= final(self).bytes@.len(),
            match r {
                Ok(()) => object_spec(old(self).bytes@, old(self).pos as int) == Ok::<int, JsonError>(
                    final(self).pos as int,
                ) && final(self).pos > old(self).pos,
                Err(e) => object_spec(old(self).bytes@, old(self).pos as int) == Err::<int, JsonError>(e),
            },
        decreases old(self).bytes@.len() - old(self).pos, 0int,
    {
        let ghost b = self.bytes@;
        let ghost p0 = self.pos as int;
        self.pos = self.pos + 1;
        self.skip_ws();
        proof {
            lemma_skip_ws_ge(b, p0 + 1);
        }
        if self.peek_is(125u8) {
            self.pos = self.pos + 1;
            return Ok(());
        }
        loop
            invariant
                self.bytes == old(self).bytes,
                b == self.bytes@,
                p0 == old(self).pos,
                p0 < self.pos <= b.len() <= usize::MAX,
                object_spec(b, p0) == members_spec(b, self.pos as int),
            decreases b.len() - self.pos,
        {
            let ghost p = self.pos as int;
            self.skip_ws();
            proof {
                lemma_skip_ws_ge(b, p);
            }
            match self.parse_string() {
                Err(e) => {
                    return Err(e);
                },
                Ok(()) => {},
            }
            let ghost p2 = self.pos as int;
            self.skip_ws();
            proof {
                lemma_skip_ws_ge(b, p2);
            }
            if !self.peek_is(58u8) {
                return Err(JsonError::ExpectedColon { pos: self.pos });
            }
            let ghost p3 = self.pos as int;
            self.pos = self.pos + 1;
            match self.parse_value() {
                Err(e) => {
                    return Err(e);
                },
                Ok(()) => {},
            }
            let ghost p4 = self.pos as int;
            self.skip_ws();
            proof {
                lemma_skip_ws_ge(b, p4);
            }
            if self.peek_is(44u8) {
                self.pos = self.pos + 1;
            } else if self.peek_is(125u8) {
                self.pos = self.pos + 1;
                return Ok(());
            } else {
                return Err(JsonError::ExpectedObjectSeparator { pos: self.pos });
            }
        }
    }

    fn parse_array(&mut self) -> (r: Result<(), JsonError>)
        requires
            old(self).pos < old(self).bytes@.len() <= usize::MAX,
            old(self).bytes@[old(self).pos as int] == 91u8,
        ensures
            final(self).bytes == old(self).bytes,
            final(self).pos <= final(self).bytes@.len(),
            match r {
                Ok(()) => array_spec(old(self).bytes@, old(self).pos as int) == Ok::<int, JsonError>(
                    final(self).pos as int,
                ) && final(self).pos > old(self).pos,
                Err(e) => array_spec(old(self).bytes@, old(self).pos as int) == Err::<int, JsonError>(e),
            },
        decreases old(self).bytes@.len() - old(self).pos, 0int,
    {
        let ghost b = self.bytes@;
        let ghost p0 = self.pos as int;
        self.pos = self.pos + 1;
        self.skip_ws();
        proof {
            lemma_skip_ws_ge(b, p0 + 1);
        }
        if self.peek_is(93u8) {
            self.pos = self.pos + 1;
            return Ok(());
        }
        loop
            invariant
                self.bytes == old(self).bytes,
                b == self.bytes@,
                p0 == old(self).pos,
                p0 < self.pos <= b.len() <= usize::MAX,
                array_spec(b, p0) == elements_spec(b, self.pos as int),
            decreases b.len() - self.pos,
        {
            match self.parse_value() {
                Err(e) => {
                    return Err(e);
                },
                Ok(()) => {},
            }
            let ghost p2 = self.pos as int;
            self.skip_ws();
            proof {
                lemma_skip_ws_ge(b, p2);
            }
            if self.peek_is(44u8) {
                self.pos = self.pos + 1;
            } else if self.peek_is(93u8) {
                self.pos = self.pos + 1;
                return Ok(());
            } else {
                return Err(JsonError::ExpectedArraySeparator { pos: self.pos });
            }
        }
    }

    fn parse_string(&mut self) -> (r: Result<(), JsonError>)
        requires
            old(self).pos <= old(self).bytes@.len() <= usize::MAX,
        ensures
            final(self).bytes == old(self).bytes,
            final(self).pos <= final(self).bytes@.len(),
            match r {
                Ok(()) => string_spec(old(self).bytes@, old(self).pos as int) == Ok::<int, JsonError>(
                    final(self).pos as int,
                ) && final(self).pos > old(self).pos,
                Err(e) => string_spec(old(self).bytes@, old(self).pos as int) == Err::<int, JsonError>(e),
            },
    {
        if !self.peek_is(34u8) {
            return Err(JsonError::ExpectedString { pos: self.pos });
        }
        self.pos = self.pos + 1;
        while self.pos < self.bytes.len()
            invariant
                self.bytes == old(self).bytes,
                old(self).pos < self.pos <= self.bytes@.len() <= usize::MAX,
                string_spec(self.bytes@, old(self).pos as int) == string_body_spec(
                    self.bytes@,
                    self.pos as int,
                ),
            decreases self.bytes@.len() - self.pos,
        {
            let c = self.bytes[self.pos];
            if c == 34u8 {
                self.pos = self.pos + 1;
                return Ok(());
            } else if c == 92u8 {
                if self.bytes.len() - self.pos < 2 {
                    return Err(JsonError::UnterminatedEscape);
                }
                let d = self.bytes[self.pos + 1];
                if is_simple_escape_byte(d) {
                    self.pos = self.pos + 2;
                } else if d == 117u8 && self.bytes.len() - self.pos > 5 && is_hex_byte(
                    self.bytes[self.pos + 2],
                ) && is_hex_byte(self.bytes[self.pos + 3]) && is_hex_byte(self.bytes[self.pos + 4])
                    && is_hex_byte(self.bytes[self.pos + 5]) {
                    self.pos = self.pos + 6;
                } else {
                    return Err(JsonError::InvalidEscape { pos: self.pos });
                }
            } else if c < 32u8 {
                return Err(JsonError::ControlCharacter { pos: self.pos });
            } else {
                self.pos = self.pos + 1;
            }
        }
        Err(JsonError::UnterminatedString)
    }

    fn parse_bool(&mut self) -> (r: Result<(), JsonError>)
        requires
            old(self).pos <= old(self).bytes@.len() <= usize::MAX,
        ensures
            final(self).bytes == old(self).bytes,
            final(self).pos <= final(self).bytes@.len(),
            match r {
                Ok(()) => bool_spec(old(self).bytes@, old(self).pos as int) == Ok::<int, JsonError>(
                    final(self).pos as int,
                ) && final(self).pos > old(self).pos,
                Err(e) => bool_spec(old(self).bytes@, old(self).pos as int) == Err::<int, JsonError>(e),
            },
    {
        let t: [u8; 4] = [116u8, 114u8, 117u8, 101u8];
        let f: [u8; 5] = [102u8, 97u8, 108u8, 115u8, 101u8];
        assert(t@ =~= word_true());
        assert(f@ =~= word_false());
        if has_word_at(self.bytes, self.pos, &t) {
            self.pos = self.pos + 4;
            Ok(())
        } else if has_word_at(self.bytes, self.pos, &f) {
            self.pos = self.pos + 5;
            Ok(())
        } else {
            Err(JsonError::InvalidBool { pos: self.pos })
        }
    }

    fn parse_null(&mut self) -> (r: Result<(), JsonError>)
        requires
            old(self).pos <= old(self).bytes@.len() <= usize::MAX,
        ensures
            final(self).bytes == old(self).bytes,
            final(self).pos <= final(self).bytes@.len(),
            match r {
                Ok(()) => null_spec(old(self).bytes@, old(self).pos as int) == Ok::<int, JsonError>(
                    final(self).pos as int,
                ) && final(self).pos > old(self).pos,
                Err(e) => null_spec(old(self).bytes@, old(self).pos as int) == Err::<int, JsonError>(e),
            },
    {
        let w: [u8; 4] = [110u8, 117u8, 108u8, 108u8];
        assert(w@ =~= word_null());
        if has_word_at(self.bytes, self.pos, &w) {
            self.pos = self.pos + 4;
            Ok(())
        } else {
            Err(JsonError::InvalidNull { pos: self.pos })
        }
    }

    fn parse_number(&mut self) -> (r: Result<(), JsonError>)
        requires
            old(self).pos <= old(self).bytes@.len() <= usize::MAX,
        ensures
            final(self).bytes == old(self).bytes,
            final(self).pos <= final(self).bytes@.len(),
            match r {
                Ok(()) => number_spec(old(self).bytes@, old(self).pos as int) == Ok::<int, JsonError>(
                    final(self).pos as int,
                ) && final(self).pos > old(self).pos,
                Err(e) => number_spec(old(self).bytes@, old(self).pos as int) == Err::<int, JsonError>(e),
            },
    {
        let start = self.pos;
        let ghost b = self.bytes@;
        if self.peek_is(45u8) {
            self.pos = self.pos + 1;
        }
        let ghost p1 = self.pos as int;
        assert(p1 == if peek_spec(b, start as int) == Some(45u8) { start + 1 } else { start as int });
        // Integer part: `0`, or a nonzero digit and more digits.
        match self.peek() {
            Some(c) => {
                if c == 48u8 {
                    self.pos = self.pos + 1;
                } else if 49u8 <= c && c <= 57u8 {
                    self.pos = self.pos + 1;
                    self.skip_digits();
                } else {
                    return Err(JsonError::InvalidNumber { pos: start });
                }
            },
            None => {
                return Err(JsonError::InvalidNumber { pos: start });
            },
        }
        assert(int_part_end(b, p1) == Some(self.pos as int));
        let ghost p2 = self.pos as int;
        // Optional fraction: `.` and at least one digit.
        if self.peek_is(46u8) {
            self.pos = self.pos + 1;
            let d0 = self.pos;
            self.skip_digits();
            if self.pos == d0 {
                assert(fraction_end(b, p2) is None);
                return Err(JsonError::InvalidNumber { pos: start });
            }
        }
        assert(fraction_end(b, p2) == Some(self.pos as int));
        let ghost p3 = self.pos as int;
        // Optional exponent: `e` or `E`, an optional sign, at least one digit.
        if self.peek_is(101u8) || self.peek_is(69u8) {
            self.pos = self.pos + 1;
            if self.peek_is(43u8) || self.peek_is(45u8) {
                self.pos = self.pos + 1;
            }
            let d0 = self.pos;
            self.skip_digits();
            if self.pos == d0 {
                assert(exponent_end(b, p3) is None);
                return Err(JsonError::InvalidNumber { pos: start });
            }
        }
        assert(exponent_end(b, p3) == Some(self.pos as int));
        Ok(())
    }

    /// Move past a run of digits.
    fn skip_digits(&mut self)
        requires
            old(self).pos <= old(self).bytes@.len() <= usize::MAX,
        ensures
            final(self).bytes == old(self).bytes,
            final(self).pos == digits_end(old(self).bytes@, old(self).pos as int),
            old(self).pos <= final(self).pos <= final(self).bytes@.len(),
    {
        proof {
            lemma_digits_end(self.bytes@, self.pos as int);
        }
        while self.pos < self.bytes.len() && is_digit_byte(self.bytes[self.pos])
            invariant
                self.bytes == old(self).bytes,
                old(self).pos <= self.pos <= self.bytes@.len() <= usize::MAX,
                digits_end(self.bytes@, self.pos as int) == digits_end(
                    self.bytes@,
                    old(self).pos as int,
                ),
            decreases self.bytes@.len() - self.pos,
        {
            self.pos = self.pos + 1;
        }
    }
}

/// JSON validator: `Ok` exactly when the text is one JSON value (RFC 8259: object,
/// array, string, number, `true`/`false`/`null`) between optional whitespace; otherwise
/// the message of the first error `json_check` meets. Semantics such as duplicate keys
/// are not checked.
pub fn validate_json(s: &str) -> (r: Result<(), String>)
    ensures
        r is Ok <==> is_valid_json(s@),
        match r {
            Ok(()) => json_check(encode_utf8(s@)) is Ok,
            Err(m) => json_check(encode_utf8(s@)) matches Err(e) && m@ == error_message(e),
        },
{
    proof {
        lemma_json_check_is_grammar(encode_utf8(s@));
    }
    let mut parser = MiniJsonParser::new(s);
    parser.skip_ws();
    match parser.parse_value() {
        Err(e) => {
            return Err(error_text(e));
        },
        Ok(()) => {},
    }
    parser.skip_ws();
    if parser.pos < parser.bytes.len() {
        return Err(error_text(JsonError::TrailingCharacters { pos: parser.pos }));
    }
    Ok(())
}

} // verus!

verus! {

/// Elements joined by `,`.
pub open spec fn join_elements(elems: Seq<Seq<char>>) -> Seq<char>
    decreases elems.len(),
{
    if elems.len() == 0 {
        Seq::empty()
    } else if elems.len() == 1 {
        elems[0]
    } else {
        join_elements(elems.drop_last()) + seq![','] + elems.last()
    }
}

/// The JSON array text holding `elems` verbatim.
pub open spec fn array_text(elems: Seq<Seq<char>>) -> Seq<char> {
    seq!['['] + join_elements(elems) + seq![']']
}

/// The JSON array text holding `elements` verbatim, separated by `,`.
pub fn render(elements: &[String]) -> (out: String)
    ensures
        out@ == array_text(elements.deep_view()),
{
    let ghost es = elements.deep_view();
    let mut out = String::new();
    push_char(&mut out, '[');
    let mut i: usize = 0;
    while i < elements.len()
        invariant
            es == elements.deep_view(),
            i <= elements.len(),
            out@ == seq!['['] + join_elements(es.take(i as int)),
        decreases elements.len() - i,
    {
        if i > 0 {
            push_char(&mut out, ',');
        }
        out.append(elements[i].as_str());
        proof {
            assert(es.take(i + 1).drop_last() =~= es.take(i as int));
            assert(es.take(i + 1).last() == elements[i as int]@);
            if i == 0 {
                assert(join_elements(es.take(0)) =~= Seq::<char>::empty());
            }
        }
        i = i + 1;
    }
    assert(es.take(elements.len() as int) =~= es);
    push_char(&mut out, ']');
    out
}

/// The texts of `elems`.
pub open spec fn texts(elems: Seq<String>) -> Seq<Seq<char>> {
    elems.map_values(|s: String| s@)
}

/// Generate a JSON array of `count` elements, laid out by [`render`]: element `i` is
/// the text `element_factory` returns on its call `i`, and every call is handed the one
/// generator, seeded with `seed` and left by each call as the next one receives it.
pub fn generate<F>(count: usize, seed: u64, mut element_factory: F) -> (out: String)
    where
        F: FnMut(&mut Rng) -> String,
    requires
        forall|r: &mut Rng| call_requires(element_factory, (r,)),
    ensures
        exists|elems: Seq<String>, gens: Seq<&mut Rng>|
            {
                &&& elems.len() == count
                &&& gens.len() == count
                &&& out@ == array_text(texts(elems))
                &&& count > 0 ==> (*gens[0])@ == seed
                &&& forall|i: int|
                    0 <= i < count ==> #[trigger] call_ensures(element_factory, (gens[i],), elems[i])
                &&& forall|i: int|
                    0 <= i < count - 1 ==> (*gens[i + 1])@ == #[trigger] final(gens[i])@
            },
{
    let ghost f0 = element_factory;
    let mut rng = Rng::seeded(seed);
    let mut elements: Vec<String> = Vec::new();
    let mut i: usize = 0;
    assert(elements@ =~= Seq::<String>::empty());
    assert({
        let gens = Seq::<&mut Rng>::empty();
        &&& gens.len() == 0
        &&& forall|k: int|
            0 <= k < 0 ==> #[trigger] call_ensures(element_factory, (gens[k],), elements@[k])
        &&& forall|k: int| 0 <= k < 0 - 1 ==> (*gens[k + 1])@ == #[trigger] final(gens[k])@
    });
    while i < count
        invariant
            i <= count,
            elements.len() == i,
            element_factory == f0,
            forall|r: &mut Rng| call_requires(element_factory, (r,)),
            exists|gens: Seq<&mut Rng>|
                {
                    &&& gens.len() == i
                    &&& i > 0 ==> (*gens[0])@ == seed
                    &&& i == 0 ==> rng@ == seed
                    &&& i > 0 ==> final(gens[i - 1])@ == rng@
                    &&& forall|k: int|
                        0 <= k < i ==> #[trigger] call_ensures(element_factory, (gens[k],), elements@[k])
                    &&& forall|k: int| 0 <= k < i - 1 ==> (*gens[k + 1])@ == #[trigger] final(gens[k])@
                },
        decreases count - i,
    {
        let ghost old_elements = elements@;
        let ghost before = rng@;
        let e = element_factory(&mut rng);
        assert(exists|r: &mut Rng|
            (*r)@ == before && final(r)@ == rng@ && #[trigger] call_ensures(element_factory, (r,), e));
        elements.push(e);
        assert(exists|gens: Seq<&mut Rng>|
            {
                &&& gens.len() == i + 1
                &&& i + 1 > 0 ==> (*gens[0])@ == seed
                &&& i + 1 > 0 ==> final(gens[i as int])@ == rng@
                &&& forall|k: int|
                    0 <= k < i + 1 ==> #[trigger] call_ensures(element_factory, (gens[k],), elements@[k])
                &&& forall|k: int| 0 <= k < i ==> (*gens[k + 1])@ == #[trigger] final(gens[k])@
            }) by {
            let g0 = choose|gens: Seq<&mut Rng>|
                {
                    &&& gens.len() == i
                    &&& i > 0 ==> (*gens[0])@ == seed
                    &&& i == 0 ==> before == seed
                    &&& i > 0 ==> final(gens[i - 1])@ == before
                    &&& forall|k: int|
                        0 <= k < i ==> #[trigger] call_ensures(element_factory, (gens[k],), old_elements[k])
                    &&& forall|k: int| 0 <= k < i - 1 ==> (*gens[k + 1])@ == #[trigger] final(gens[k])@
                };
            let r1 = choose|r: &mut Rng|
                (*r)@ == before && final(r)@ == rng@ && #[trigger] call_ensures(element_factory, (r,), e);
            let g1 = g0.push(r1);
            assert forall|k: int| 0 <= k < i + 1 implies #[trigger] call_ensures(
                element_factory,
                (g1[k],),
                elements@[k],
            ) by {
                if k < i {
                    assert(g1[k] == g0[k]);
                    assert(elements@[k] == old_elements[k]);
                }
            }
            assert forall|k: int| 0 <= k < i implies (*g1[k + 1])@ == #[trigger] final(g1[k])@ by {
                assert(g1[k] == g0[k]);
                if k + 1 < i {
                    assert(g1[k + 1] == g0[k + 1]);
                }
            }
            assert(g1[i as int] == r1);
            assert(i > 0 ==> g1[0] == g0[0]);
            assert(g0.len() == i);
            assert((*g1[0])@ == seed);
            assert(final(g1[i as int])@ == rng@);
            assert({
                &&& g1.len() == i + 1
                &&& i + 1 > 0 ==> (*g1[0])@ == seed
                &&& i + 1 > 0 ==> final(g1[i as int])@ == rng@
                &&& forall|k: int|
                    0 <= k < i + 1 ==> #[trigger] call_ensures(element_factory, (g1[k],), elements@[k])
                &&& forall|k: int| 0 <= k < i ==> (*g1[k + 1])@ == #[trigger] final(g1[k])@
            });
        }
        i = i + 1;
    }
    let out = render(elements.as_slice());
    assert(texts(elements@) =~= elements.deep_view());
    assert(exists|elems: Seq<String>, gens: Seq<&mut Rng>|
        {
            &&& elems.len() == count
            &&& gens.len() == count
            &&& out@ == array_text(texts(elems))
            &&& count > 0 ==> (*gens[0])@ == seed
            &&& forall|i: int|
                0 <= i < count ==> #[trigger] call_ensures(element_factory, (gens[i],), elems[i])
            &&& forall|i: int| 0 <= i < count - 1 ==> (*gens[i + 1])@ == #[trigger] final(gens[i])@
        }) by {
        let g = choose|gens: Seq<&mut Rng>|
            {
                &&& gens.len() == i
                &&& i > 0 ==> (*gens[0])@ == seed
                &&& i == 0 ==> rng@ == seed
                &&& i > 0 ==> final(gens[i - 1])@ == rng@
                &&& forall|k: int|
                    0 <= k < i ==> #[trigger] call_ensures(element_factory, (gens[k],), elements@[k])
                &&& forall|k: int| 0 <= k < i - 1 ==> (*gens[k + 1])@ == #[trigger] final(gens[k])@
            };
        assert(out@ == array_text(texts(elements@)));
    }
    out
}

/// Like [`generate`], but the output is checked by [`validate_json`] and returned
/// only when it is accepted; otherwise the validator's message.
pub fn generate_validated<F>(count: usize, seed: u64, element_factory: F) -> (r: Result<String, String>)
    where
        F: FnMut(&mut Rng) -> String,
    requires
        forall|r: &mut Rng| call_requires(element_factory, (r,)),
    ensures
        exists|elems: Seq<String>, gens: Seq<&mut Rng>|
            {
                &&& elems.len() == count
                &&& gens.len() == count
                &&& count > 0 ==> (*gens[0])@ == seed
                &&& forall|i: int|
                    0 <= i < count ==> #[trigger] call_ensures(element_factory, (gens[i],), elems[i])
                &&& forall|i: int| 0 <= i < count - 1 ==> (*gens[i + 1])@ == #[trigger] final(gens[i])@
                &&& (forall|i: int| 0 <= i < count ==> is_valid_json(#[trigger] elems[i]@)) ==> r is Ok
                &&& (r is Ok <==> is_valid_json(array_text(texts(elems))))
                &&& match r {
                    Ok(s) => s@ == array_text(texts(elems)) && is_valid_json(array_text(texts(elems))),
                    Err(m) => json_check(encode_utf8(array_text(texts(elems)))) matches Err(e) && m@
                        == error_message(e),
                }
            },
{
    let out = generate(count, seed, element_factory);
    assert forall|elems: Seq<String>|
        (forall|i: int| 0 <= i < elems.len() ==> is_valid_json(#[trigger] elems[i]@)) implies
        #[trigger] is_valid_json(array_text(texts(elems))) by {
        assert forall|i: int| 0 <= i < texts(elems).len() implies is_valid_json(
            #[trigger] texts(elems)[i],
        ) by {
            assert(texts(elems)[i] == elems[i]@);
        }
        lemma_valid_elements_make_valid_array(texts(elems));
    }
    let r = match validate_json(out.as_str()) {
        Ok(()) => Ok(out),
        Err(m) => Err(m),
    };
    assert(exists|elems: Seq<String>, gens: Seq<&mut Rng>|
        {
            &&& elems.len() == count
            &&& gens.len() == count
            &&& count > 0 ==> (*gens[0])@ == seed
            &&& forall|i: int|
                0 <= i < count ==> #[trigger] call_ensures(element_factory, (gens[i],), elems[i])
            &&& forall|i: int| 0 <= i < count - 1 ==> (*gens[i + 1])@ == #[trigger] final(gens[i])@
            &&& (forall|i: int| 0 <= i < count ==> is_valid_json(#[trigger] elems[i]@)) ==> r is Ok
            &&& (r is Ok <==> is_valid_json(array_text(texts(elems))))
            &&& match r {
                Ok(s) => s@ == array_text(texts(elems)) && is_valid_json(array_text(texts(elems))),
                Err(m) => json_check(encode_utf8(array_text(texts(elems)))) matches Err(e) && m@
                    == error_message(e),
            }
        }) by {
        let (es, gs) = choose|elems: Seq<String>, gens: Seq<&mut Rng>|
            {
                &&& elems.len() == count
                &&& gens.len() == count
                &&& out@ == array_text(texts(elems))
                &&& count > 0 ==> (*gens[0])@ == seed
                &&& forall|i: int|
                    0 <= i < count ==> #[trigger] call_ensures(element_factory, (gens[i],), elems[i])
                &&& forall|i: int| 0 <= i < count - 1 ==> (*gens[i + 1])@ == #[trigger] final(gens[i])@
            };
        if forall|i: int| 0 <= i < count ==> is_valid_json(#[trigger] es[i]@) {
            assert(is_valid_json(array_text(texts(es))));
        }
    }
    r
}

} // verus!
