//! The mathematical reference parser: a total, recursive definition over the
//! input byte sequence of exactly what one parse run returns — the document
//! tree with its positions and line numbers, or the first positioned
//! violation. The executable parser's contracts equate it with this one.
//!
//! Whitespace is the four JSON whitespace bytes (space, tab, carriage return,
//! line feed); this narrows the broader any-Unicode-whitespace acceptance to
//! the strict grammar and keeps line counting a plain scan for line feeds.
use vstd::prelude::*;

use crate::error::{ErrorKind, ParseError};
use crate::value::{SpecDoc, SpecKind, SpecVal};

verus! {

/// JSON whitespace.
pub open spec fn is_ws(b: u8) -> bool {
    b == 0x20 || b == 0x09 || b == 0x0D || b == 0x0A
}

/// An ASCII decimal digit.
pub open spec fn is_digit(b: u8) -> bool {
    0x30 <= b <= 0x39
}

/// An ASCII hexadecimal digit.
pub open spec fn is_hex(b: u8) -> bool {
    is_digit(b) || (0x61 <= b <= 0x66) || (0x41 <= b <= 0x46)
}

/// The value of one hexadecimal digit.
pub open spec fn hex_val(b: u8) -> int {
    if is_digit(b) {
        b - 0x30
    } else if 0x61 <= b <= 0x66 {
        b - 0x61 + 10
    } else {
        b - 0x41 + 10
    }
}

/// A positioned failure, as the parser raises it.
pub open spec fn perr(k: ErrorKind, pos: int, ln: int) -> ParseError {
    ParseError { kind: k, pos: pos as usize, ln: ln as usize }
}

/// The cursor after a maximal run of whitespace from `pos`, with the line
/// counter stepped once per line feed.
pub open spec fn spec_skip_ws(s: Seq<u8>, pos: int, ln: int) -> (int, int)
    decreases s.len() - pos,
{
    if 0 <= pos < s.len() && is_ws(s[pos]) {
        spec_skip_ws(s, pos + 1, if s[pos] == 0x0A {
            ln + 1
        } else {
            ln
        })
    } else {
        (pos, ln)
    }
}

/// `spec_skip_ws` moves forward over whitespace only, never past the end, and
/// steps the line counter at most once per byte.
pub proof fn lemma_skip_ws(s: Seq<u8>, pos: int, ln: int)
    requires
        0 <= pos <= s.len(),
    ensures
        pos <= spec_skip_ws(s, pos, ln).0 <= s.len(),
        spec_skip_ws(s, pos, ln).0 < s.len() ==> !is_ws(s[spec_skip_ws(s, pos, ln).0]),
        ln <= spec_skip_ws(s, pos, ln).1 <= ln + (spec_skip_ws(s, pos, ln).0 - pos),
    decreases s.len() - pos,
{
    if 0 <= pos < s.len() && is_ws(s[pos]) {
        lemma_skip_ws(s, pos + 1, if s[pos] == 0x0A {
            ln + 1
        } else {
            ln
        });
    }
}

/// The first position at or after `pos` that does not hold a digit.
pub open spec fn digits_end(s: Seq<u8>, pos: int) -> int
    decreases s.len() - pos,
{
    if 0 <= pos < s.len() && is_digit(s[pos]) {
        digits_end(s, pos + 1)
    } else {
        pos
    }
}

/// `digits_end` bounds and characterisation.
pub proof fn lemma_digits_end(s: Seq<u8>, pos: int)
    requires
        0 <= pos <= s.len(),
    ensures
        pos <= digits_end(s, pos) <= s.len(),
        forall|j: int| pos <= j < digits_end(s, pos) ==> is_digit(#[trigger] s[j]),
        digits_end(s, pos) < s.len() ==> !is_digit(s[digits_end(s, pos)]),
    decreases s.len() - pos,
{
    if 0 <= pos < s.len() && is_digit(s[pos]) {
        lemma_digits_end(s, pos + 1);
    }
}

/// The decimal value of the digit run `s[from..to]`.
pub open spec fn dec_val(s: Seq<u8>, from: int, to: int) -> int
    decreases to - from,
{
    if from >= to {
        0
    } else {
        dec_val(s, from, to - 1) * 10 + (s[to - 1] - 0x30)
    }
}

/// A digit run has a non-negative decimal value.
pub proof fn lemma_dec_val_nonneg(s: Seq<u8>, from: int, to: int)
    requires
        forall|j: int| from <= j < to ==> is_digit(#[trigger] s[j]),
    ensures
        dec_val(s, from, to) >= 0,
    decreases to - from,
{
    if from < to {
        lemma_dec_val_nonneg(s, from, to - 1);
    }
}

/// Extending a digit run never shrinks its decimal value.
pub proof fn lemma_dec_val_mono(s: Seq<u8>, from: int, mid: int, to: int)
    requires
        from <= mid <= to,
        forall|j: int| from <= j < to ==> is_digit(#[trigger] s[j]),
    ensures
        dec_val(s, from, to) >= dec_val(s, from, mid),
    decreases to - mid,
{
    if mid < to {
        lemma_dec_val_mono(s, from, mid, to - 1);
        lemma_dec_val_nonneg(s, from, to - 1);
    }
}

/// The UTF-8 encoding of a code point below 0x10000.
pub open spec fn utf8_enc(cp: int) -> Seq<u8> {
    if cp < 0x80 {
        seq![cp as u8]
    } else if cp < 0x800 {
        seq![(0xC0 + cp / 64) as u8, (0x80 + cp % 64) as u8]
    } else {
        seq![(0xE0 + cp / 4096) as u8, (0x80 + (cp / 64) % 64) as u8, (0x80 + cp % 64) as u8]
    }
}

/// Whether `s` carries the bytes `n` starting at `pos`.
pub open spec fn has_at(s: Seq<u8>, pos: int, n: Seq<u8>) -> bool {
    0 <= pos && pos + n.len() <= s.len() && s.subrange(pos, pos + n.len()) == n
}

/// Keyword parsing: on an exact match the cursor lands right after it,
/// otherwise the keyword fails as a generic syntax violation at its start.
pub open spec fn spec_parse_name(s: Seq<u8>, pos: int, ln: int, n: Seq<u8>) -> Result<
    int,
    ParseError,
> {
    if has_at(s, pos, n) {
        Ok(pos + n.len())
    } else {
        Err(perr(ErrorKind::SyntaxError, pos, ln))
    }
}

/// Number parsing: the strict JSON numeric grammar at `pos`. A purely integral
/// literal must fit a 64-bit signed integer; a literal with a fraction or an
/// exponent is kept as its source lexeme. Returns the payload and the cursor
/// after the literal.
pub open spec fn spec_parse_number(s: Seq<u8>, pos: int, ln: int) -> Result<
    (SpecVal, int),
    ParseError,
> {
    let neg = 0 <= pos < s.len() && s[pos] == 0x2D;
    let p0 = if neg {
        pos + 1
    } else {
        pos
    };
    if !(0 <= p0 < s.len() && (s[p0] == 0x30 || (0x31 <= s[p0] <= 0x39))) {
        Err(perr(ErrorKind::SyntaxError, p0, ln))
    } else if s[p0] == 0x30 && p0 + 1 < s.len() && is_digit(s[p0 + 1]) {
        Err(perr(ErrorKind::LeadingZero, p0 + 1, ln))
    } else {
        let iend = if s[p0] == 0x30 {
            p0 + 1
        } else {
            digits_end(s, p0)
        };
        let has_frac = iend < s.len() && s[iend] == 0x2E;
        if has_frac && !(iend + 1 < s.len() && is_digit(s[iend + 1])) {
            Err(perr(ErrorKind::MissingFractionDigit, iend + 1, ln))
        } else {
            let fend = if has_frac {
                digits_end(s, iend + 1)
            } else {
                iend
            };
            let has_exp = fend < s.len() && (s[fend] == 0x65 || s[fend] == 0x45);
            let sp = if has_exp && fend + 1 < s.len() && (s[fend + 1] == 0x2B || s[fend + 1]
                == 0x2D) {
                fend + 2
            } else {
                fend + 1
            };
            if has_exp && !(sp < s.len() && is_digit(s[sp])) {
                Err(perr(ErrorKind::MissingExponentDigit, sp, ln))
            } else {
                let end = if has_exp {
                    digits_end(s, sp)
                } else {
                    fend
                };
                if !has_frac && !has_exp {
                    let mag = dec_val(s, p0, iend);
                    let v = if neg {
                        -mag
                    } else {
                        mag
                    };
                    if v < -0x8000000000000000 || v > 0x7fffffffffffffff {
                        Err(perr(ErrorKind::IntegerOverflow, end, ln))
                    } else {
                        Ok((SpecVal::Int(SpecKind::Lit(v as i64)), end))
                    }
                } else {
                    Ok((SpecVal::Float(SpecKind::Lit(s.subrange(pos, end))), end))
                }
            }
        }
    }
}

/// String-body parsing from just after the opening quote, with the content
/// decoded so far. Returns the decoded content and the cursor after the
/// closing quote.
pub open spec fn spec_str_body(s: Seq<u8>, pos: int, ln: int, acc: Seq<u8>) -> Result<
    (Seq<u8>, int),
    ParseError,
>
    decreases s.len() - pos,
{
    if !(0 <= pos < s.len()) {
        Err(perr(ErrorKind::UnterminatedString, pos, ln))
    } else {
        let c = s[pos];
        if c == 0x22 {
            Ok((acc, pos + 1))
        } else if c == 0x5C {
            if pos + 1 >= s.len() {
                Err(perr(ErrorKind::UnexpectedEof, pos + 1, ln))
            } else {
                let e = s[pos + 1];
                if e == 0x6E {
                    spec_str_body(s, pos + 2, ln, acc.push(0x0A))
                } else if e == 0x74 {
                    spec_str_body(s, pos + 2, ln, acc.push(0x09))
                } else if e == 0x72 {
                    spec_str_body(s, pos + 2, ln, acc.push(0x0D))
                } else if e == 0x62 {
                    spec_str_body(s, pos + 2, ln, acc.push(0x08))
                } else if e == 0x66 {
                    spec_str_body(s, pos + 2, ln, acc.push(0x0C))
                } else if e == 0x5C {
                    spec_str_body(s, pos + 2, ln, acc.push(0x5C))
                } else if e == 0x2F {
                    spec_str_body(s, pos + 2, ln, acc.push(0x2F))
                } else if e == 0x22 {
                    spec_str_body(s, pos + 2, ln, acc.push(0x22))
                } else if e == 0x75 {
                    match spec_hex4(s, pos + 2, ln) {
                        Err(e) => Err(e),
                        Ok(cp) => {
                            if 0xD800 <= cp <= 0xDFFF {
                                Err(perr(ErrorKind::InvalidUnicodeCodePoint, pos + 6, ln))
                            } else {
                                spec_str_body(s, pos + 6, ln, acc + utf8_enc(cp))
                            }
                        },
                    }
                } else {
                    Err(perr(ErrorKind::InvalidEscape, pos + 2, ln))
                }
            }
        } else if c < 0x20 {
            Err(perr(ErrorKind::InvalidControlCharacter, pos + 1, ln))
        } else {
            spec_str_body(s, pos + 1, ln, acc.push(c))
        }
    }
}

/// Four hexadecimal digits at `pos`: their value, or the first violation —
/// end of input, or a non-hex byte reported just past it.
pub open spec fn spec_hex4(s: Seq<u8>, pos: int, ln: int) -> Result<int, ParseError> {
    if pos >= s.len() {
        Err(perr(ErrorKind::UnexpectedEof, s.len() as int, ln))
    } else if !is_hex(s[pos]) {
        Err(perr(ErrorKind::InvalidHexDigit, pos + 1, ln))
    } else if pos + 1 >= s.len() {
        Err(perr(ErrorKind::UnexpectedEof, s.len() as int, ln))
    } else if !is_hex(s[pos + 1]) {
        Err(perr(ErrorKind::InvalidHexDigit, pos + 2, ln))
    } else if pos + 2 >= s.len() {
        Err(perr(ErrorKind::UnexpectedEof, s.len() as int, ln))
    } else if !is_hex(s[pos + 2]) {
        Err(perr(ErrorKind::InvalidHexDigit, pos + 3, ln))
    } else if pos + 3 >= s.len() {
        Err(perr(ErrorKind::UnexpectedEof, s.len() as int, ln))
    } else if !is_hex(s[pos + 3]) {
        Err(perr(ErrorKind::InvalidHexDigit, pos + 4, ln))
    } else {
        Ok(hex_val(s[pos]) * 4096 + hex_val(s[pos + 1]) * 256 + hex_val(s[pos + 2]) * 16 + hex_val(
            s[pos + 3],
        ))
    }
}

/// String parsing at `pos`: an opening quote, then the body.
pub open spec fn spec_parse_string(s: Seq<u8>, pos: int, ln: int) -> Result<
    (Seq<u8>, int),
    ParseError,
> {
    if !(0 <= pos < s.len() && s[pos] == 0x22) {
        Err(perr(ErrorKind::MissingOpeningQuote, pos, ln))
    } else {
        spec_str_body(s, pos + 1, ln, Seq::empty())
    }
}

/// Ordered-map insertion at the mathematical level: replace the value in
/// place when the key is present (first occurrence), else append.
pub open spec fn obj_insert(
    acc: Seq<(Seq<u8>, SpecDoc)>,
    k: Seq<u8>,
    v: SpecDoc,
) -> Seq<(Seq<u8>, SpecDoc)> {
    let i = crate::object::find_key(acc, k);
    if i < 0 {
        acc.push((k, v))
    } else {
        acc.update(i, (acc[i].0, v))
    }
}

/// One value at `pos`: leading whitespace, dispatch on the first byte, the
/// value itself, trailing whitespace. The document node records the position
/// and line where the value's text begins (for containers, the opening
/// bracket itself).
pub open spec fn spec_parse_value(s: Seq<u8>, pos: int, ln: int) -> Result<
    (SpecDoc, int, int),
    ParseError,
>
    decreases s.len() - pos, 2int,
{
    let (p, l) = spec_skip_ws(s, pos, ln);
    if !(pos <= p <= s.len()) {
        Err(perr(ErrorKind::SyntaxError, pos, ln))
    } else if p >= s.len() {
        Err(perr(ErrorKind::UnexpectedEof, p, l))
    } else {
        let c = s[p];
        let r: Result<(SpecDoc, int, int), ParseError> = if c == 0x22 {
            match spec_parse_string(s, p, l) {
                Ok((cs, p2)) => Ok(
                    (SpecDoc { pos: p, ln: l, val: SpecVal::Str(SpecKind::Lit(cs)) }, p2, l),
                ),
                Err(e) => Err(e),
            }
        } else if c == 0x7B {
            spec_parse_object(s, p, l)
        } else if c == 0x5B {
            spec_parse_array(s, p, l)
        } else if c == 0x74 {
            match spec_parse_name(s, p, l, seq![0x74u8, 0x72, 0x75, 0x65]) {
                Ok(p2) => Ok(
                    (
                        SpecDoc { pos: p, ln: l, val: SpecVal::Bool(SpecKind::Lit(true)) },
                        p2,
                        l,
                    ),
                ),
                Err(e) => Err(e),
            }
        } else if c == 0x66 {
            match spec_parse_name(s, p, l, seq![0x66u8, 0x61, 0x6C, 0x73, 0x65]) {
                Ok(p2) => Ok(
                    (
                        SpecDoc { pos: p, ln: l, val: SpecVal::Bool(SpecKind::Lit(false)) },
                        p2,
                        l,
                    ),
                ),
                Err(e) => Err(e),
            }
        } else if c == 0x6E {
            match spec_parse_name(s, p, l, seq![0x6Eu8, 0x75, 0x6C, 0x6C]) {
                Ok(p2) => Ok((SpecDoc { pos: p, ln: l, val: SpecVal::Null }, p2, l)),
                Err(e) => Err(e),
            }
        } else {
            match spec_parse_number(s, p, l) {
                Ok((v, p2)) => Ok((SpecDoc { pos: p, ln: l, val: v }, p2, l)),
                Err(e) => Err(e),
            }
        };
        match r {
            Ok((d, p2, l2)) => {
                let (p3, l3) = spec_skip_ws(s, p2, l2);
                Ok((d, p3, l3))
            },
            Err(e) => Err(e),
        }
    }
}

/// An array literal at `pos` (the opening bracket).
pub open spec fn spec_parse_array(s: Seq<u8>, pos: int, ln: int) -> Result<
    (SpecDoc, int, int),
    ParseError,
>
    decreases s.len() - pos, 0int,
{
    if !(0 <= pos < s.len() && s[pos] == 0x5B) {
        Err(perr(ErrorKind::SyntaxError, pos, ln))
    } else {
        let (p, l) = spec_skip_ws(s, pos + 1, ln);
        if !(pos + 1 <= p <= s.len()) {
            Err(perr(ErrorKind::SyntaxError, pos, ln))
        } else if p < s.len() && s[p] == 0x5D {
            Ok(
                (
                    SpecDoc {
                        pos,
                        ln,
                        val: SpecVal::Array(SpecKind::Lit(Seq::empty())),
                    },
                    p + 1,
                    l,
                ),
            )
        } else {
            match spec_parse_elems(s, p, l, Seq::empty()) {
                Ok((docs, p2, l2)) => Ok(
                    (SpecDoc { pos, ln, val: SpecVal::Array(SpecKind::Lit(docs)) }, p2, l2),
                ),
                Err(e) => Err(e),
            }
        }
    }
}

/// Array elements from the start of a value: a value, then a comma (continue)
/// or a closing bracket (finish); anything else is an invalid separator, and
/// the end of input is reported as such. A closing bracket right after a
/// comma — a trailing comma — is an invalid separator too, reported at the
/// bracket.
pub open spec fn spec_parse_elems(s: Seq<u8>, pos: int, ln: int, acc: Seq<SpecDoc>) -> Result<
    (Seq<SpecDoc>, int, int),
    ParseError,
>
    decreases s.len() - pos, 3int,
{
    match spec_parse_value(s, pos, ln) {
        Err(e) => Err(e),
        Ok((d, p1, l1)) => {
            let acc2 = acc.push(d);
            if !(pos < p1 <= s.len()) {
                Err(perr(ErrorKind::SyntaxError, pos, ln))
            } else if p1 >= s.len() {
                Err(perr(ErrorKind::UnexpectedEof, p1, l1))
            } else if s[p1] == 0x5D {
                Ok((acc2, p1 + 1, l1))
            } else if s[p1] == 0x2C {
                let (pc, lc) = spec_skip_ws(s, p1 + 1, l1);
                if !(p1 + 1 <= pc <= s.len()) {
                    Err(perr(ErrorKind::SyntaxError, pos, ln))
                } else if pc < s.len() && s[pc] == 0x5D {
                    Err(perr(ErrorKind::InvalidArraySeparator, pc, lc))
                } else {
                    spec_parse_elems(s, pc, lc, acc2)
                }
            } else {
                Err(perr(ErrorKind::InvalidArraySeparator, p1, l1))
            }
        },
    }
}

/// An object literal at `pos` (the opening brace).
pub open spec fn spec_parse_object(s: Seq<u8>, pos: int, ln: int) -> Result<
    (SpecDoc, int, int),
    ParseError,
>
    decreases s.len() - pos, 0int,
{
    if !(0 <= pos < s.len() && s[pos] == 0x7B) {
        Err(perr(ErrorKind::SyntaxError, pos, ln))
    } else {
        let (p, l) = spec_skip_ws(s, pos + 1, ln);
        if !(pos + 1 <= p <= s.len()) {
            Err(perr(ErrorKind::SyntaxError, pos, ln))
        } else if p < s.len() && s[p] == 0x7D {
            Ok(
                (
                    SpecDoc {
                        pos,
                        ln,
                        val: SpecVal::Object(SpecKind::Lit(Seq::empty())),
                    },
                    p + 1,
                    l,
                ),
            )
        } else {
            match spec_parse_entries(s, p, l, Seq::empty()) {
                Ok((es, p2, l2)) => Ok(
                    (SpecDoc { pos, ln, val: SpecVal::Object(SpecKind::Lit(es)) }, p2, l2),
                ),
                Err(e) => Err(e),
            }
        }
    }
}

/// Object entries from the start of a key: a literal string key (else the
/// offending node is reported), a colon, a value inserted with in-place
/// replacement of duplicate keys, then a comma (continue) or a closing brace
/// (finish); anything else is an invalid separator, and the end of input is
/// reported as such.
pub open spec fn spec_parse_entries(
    s: Seq<u8>,
    pos: int,
    ln: int,
    acc: Seq<(Seq<u8>, SpecDoc)>,
) -> Result<(Seq<(Seq<u8>, SpecDoc)>, int, int), ParseError>
    decreases s.len() - pos, 3int,
{
    match spec_parse_value(s, pos, ln) {
        Err(e) => Err(e),
        Ok((kd, p1, l1)) => {
            if !(pos < p1 <= s.len()) {
                Err(perr(ErrorKind::SyntaxError, pos, ln))
            } else {
                match kd.val {
                    SpecVal::Str(SpecKind::Lit(k)) => {
                        if !(p1 < s.len() && s[p1] == 0x3A) {
                            Err(perr(ErrorKind::SyntaxError, p1, l1))
                        } else {
                            match spec_parse_value(s, p1 + 1, l1) {
                                Err(e) => Err(e),
                                Ok((vd, p2, l2)) => {
                                    let acc2 = obj_insert(acc, k, vd);
                                    if !(p1 + 1 < p2 <= s.len()) {
                                        Err(perr(ErrorKind::SyntaxError, pos, ln))
                                    } else if p2 >= s.len() {
                                        Err(perr(ErrorKind::UnexpectedEof, p2, l2))
                                    } else if s[p2] == 0x7D {
                                        Ok((acc2, p2 + 1, l2))
                                    } else if s[p2] == 0x2C {
                                        spec_parse_entries(s, p2 + 1, l2, acc2)
                                    } else {
                                        Err(perr(ErrorKind::InvalidObjectSeparator, p2, l2))
                                    }
                                },
                            }
                        }
                    },
                    _ => Err(perr(ErrorKind::NonStringKey, kd.pos, kd.ln)),
                }
            }
        },
    }
}

/// On success the string body ends strictly after where it began, within the
/// input.
pub proof fn lemma_str_body_bounds(s: Seq<u8>, pos: int, ln: int, acc: Seq<u8>)
    requires
        0 <= pos,
    ensures
        spec_str_body(s, pos, ln, acc) matches Ok((c, p2)) ==> pos < p2 <= s.len(),
    decreases s.len() - pos,
{
    if 0 <= pos < s.len() {
        let c = s[pos];
        if c == 0x5C && pos + 1 < s.len() {
            let e = s[pos + 1];
            if e == 0x75 {
                if let Ok(cp) = spec_hex4(s, pos + 2, ln) {
                    if !(0xD800 <= cp <= 0xDFFF) {
                        lemma_str_body_bounds(s, pos + 6, ln, acc + utf8_enc(cp));
                    }
                }
            } else {
                lemma_str_body_bounds(s, pos + 2, ln, acc.push(0x0A));
                lemma_str_body_bounds(s, pos + 2, ln, acc.push(0x09));
                lemma_str_body_bounds(s, pos + 2, ln, acc.push(0x0D));
                lemma_str_body_bounds(s, pos + 2, ln, acc.push(0x08));
                lemma_str_body_bounds(s, pos + 2, ln, acc.push(0x0C));
                lemma_str_body_bounds(s, pos + 2, ln, acc.push(0x5C));
                lemma_str_body_bounds(s, pos + 2, ln, acc.push(0x2F));
                lemma_str_body_bounds(s, pos + 2, ln, acc.push(0x22));
            }
        } else if c != 0x22 && c != 0x5C && c >= 0x20 {
            lemma_str_body_bounds(s, pos + 1, ln, acc.push(c));
        }
    }
}

/// On success a number ends strictly after where it began, within the input.
pub proof fn lemma_number_bounds(s: Seq<u8>, pos: int, ln: int)
    requires
        0 <= pos <= s.len(),
    ensures
        spec_parse_number(s, pos, ln) matches Ok((v, p2)) ==> pos < p2 <= s.len(),
{
    let neg = 0 <= pos < s.len() && s[pos] == 0x2D;
    let p0 = if neg {
        pos + 1
    } else {
        pos
    };
    if 0 <= p0 < s.len() && (s[p0] == 0x30 || (0x31 <= s[p0] <= 0x39)) {
        lemma_digits_end(s, p0);
        let iend = if s[p0] == 0x30 {
            p0 + 1
        } else {
            digits_end(s, p0)
        };
        assert(s[p0] != 0x30 ==> digits_end(s, p0) == digits_end(s, p0 + 1));
        if p0 + 1 <= s.len() {
            lemma_digits_end(s, p0 + 1);
        }
        let has_frac = iend < s.len() && s[iend] == 0x2E;
        if has_frac && iend + 1 < s.len() && is_digit(s[iend + 1]) {
            lemma_digits_end(s, iend + 1);
        }
        let fend = if has_frac {
            digits_end(s, iend + 1)
        } else {
            iend
        };
        let has_exp = fend < s.len() && (s[fend] == 0x65 || s[fend] == 0x45);
        let sp = if has_exp && fend + 1 < s.len() && (s[fend + 1] == 0x2B || s[fend + 1]
            == 0x2D) {
            fend + 2
        } else {
            fend + 1
        };
        if has_exp && sp < s.len() && is_digit(s[sp]) {
            lemma_digits_end(s, sp);
        }
    }
}

/// On success a value ends strictly after where it began, within the input;
/// the line counter grows by at most one per consumed byte; and the cursor
/// lands on a non-whitespace byte.
pub proof fn lemma_value_bounds(s: Seq<u8>, pos: int, ln: int)
    requires
        0 <= pos <= s.len(),
    ensures
        spec_parse_value(s, pos, ln) matches Ok((d, p, l)) ==> {
            &&& pos < p <= s.len()
            &&& ln <= l <= ln + (p - pos)
            &&& (p < s.len() ==> !is_ws(s[p]))
        },
    decreases s.len() - pos, 2int,
{
    lemma_skip_ws(s, pos, ln);
    let (p, l) = spec_skip_ws(s, pos, ln);
    if p < s.len() {
        let c = s[p];
        if c == 0x22 {
            lemma_str_body_bounds(s, p + 1, l, Seq::empty());
        } else if c == 0x7B {
            lemma_object_bounds(s, p, l);
        } else if c == 0x5B {
            lemma_array_bounds(s, p, l);
        } else if c == 0x74 || c == 0x66 || c == 0x6E {
        } else {
            lemma_number_bounds(s, p, l);
        }
        if let Ok((d, p3, l3)) = spec_parse_value(s, pos, ln) {
            let r0 = if c == 0x22 {
                match spec_parse_string(s, p, l) {
                    Ok((cs, p2)) => Ok((p2, l)),
                    Err(e) => Err(e),
                }
            } else if c == 0x7B {
                match spec_parse_object(s, p, l) {
                    Ok((d0, p2, l2)) => Ok((p2, l2)),
                    Err(e) => Err(e),
                }
            } else if c == 0x5B {
                match spec_parse_array(s, p, l) {
                    Ok((d0, p2, l2)) => Ok((p2, l2)),
                    Err(e) => Err(e),
                }
            } else if c == 0x74 {
                match spec_parse_name(s, p, l, seq![0x74u8, 0x72, 0x75, 0x65]) {
                    Ok(p2) => Ok((p2, l)),
                    Err(e) => Err(e),
                }
            } else if c == 0x66 {
                match spec_parse_name(s, p, l, seq![0x66u8, 0x61, 0x6C, 0x73, 0x65]) {
                    Ok(p2) => Ok((p2, l)),
                    Err(e) => Err(e),
                }
            } else if c == 0x6E {
                match spec_parse_name(s, p, l, seq![0x6Eu8, 0x75, 0x6C, 0x6C]) {
                    Ok(p2) => Ok((p2, l)),
                    Err(e) => Err(e),
                }
            } else {
                match spec_parse_number(s, p, l) {
                    Ok((v, p2)) => Ok((p2, l)),
                    Err(e) => Err(e),
                }
            };
            let (p2, l2) = r0.unwrap();
            lemma_skip_ws(s, p2, l2);
        }
    }
}

/// On success an array ends strictly after its opening bracket, within the
/// input, with the line counter growing at most one per consumed byte.
pub proof fn lemma_array_bounds(s: Seq<u8>, pos: int, ln: int)
    requires
        0 <= pos <= s.len(),
    ensures
        spec_parse_array(s, pos, ln) matches Ok((d, p, l)) ==> {
            &&& pos < p <= s.len()
            &&& ln <= l <= ln + (p - pos)
        },
    decreases s.len() - pos, 0int,
{
    if 0 <= pos < s.len() && s[pos] == 0x5B {
        lemma_skip_ws(s, pos + 1, ln);
        let (p, l) = spec_skip_ws(s, pos + 1, ln);
        if !(p < s.len() && s[p] == 0x5D) {
            lemma_elems_bounds(s, p, l, Seq::empty());
        }
    }
}

/// On success an element list ends strictly after where it began, within the
/// input, with the line counter growing at most one per consumed byte.
pub proof fn lemma_elems_bounds(s: Seq<u8>, pos: int, ln: int, acc: Seq<SpecDoc>)
    requires
        0 <= pos <= s.len(),
    ensures
        spec_parse_elems(s, pos, ln, acc) matches Ok((docs, p, l)) ==> {
            &&& pos < p <= s.len()
            &&& ln <= l <= ln + (p - pos)
        },
    decreases s.len() - pos, 3int,
{
    lemma_value_bounds(s, pos, ln);
    if let Ok((d, p1, l1)) = spec_parse_value(s, pos, ln) {
        if pos < p1 <= s.len() && p1 < s.len() && s[p1] == 0x2C {
            lemma_skip_ws(s, p1 + 1, l1);
            let (pc, lc) = spec_skip_ws(s, p1 + 1, l1);
            if !(pc < s.len() && s[pc] == 0x5D) {
                lemma_elems_bounds(s, pc, lc, acc.push(d));
            }
        }
    }
}

/// On success an object ends strictly after its opening brace, within the
/// input, with the line counter growing at most one per consumed byte.
pub proof fn lemma_object_bounds(s: Seq<u8>, pos: int, ln: int)
    requires
        0 <= pos <= s.len(),
    ensures
        spec_parse_object(s, pos, ln) matches Ok((d, p, l)) ==> {
            &&& pos < p <= s.len()
            &&& ln <= l <= ln + (p - pos)
        },
    decreases s.len() - pos, 0int,
{
    if 0 <= pos < s.len() && s[pos] == 0x7B {
        lemma_skip_ws(s, pos + 1, ln);
        let (p, l) = spec_skip_ws(s, pos + 1, ln);
        if !(p < s.len() && s[p] == 0x7D) {
            lemma_entries_bounds(s, p, l, Seq::empty());
        }
    }
}

/// On success an entry list ends strictly after where it began, within the
/// input, with the line counter growing at most one per consumed byte.
pub proof fn lemma_entries_bounds(s: Seq<u8>, pos: int, ln: int, acc: Seq<(Seq<u8>, SpecDoc)>)
    requires
        0 <= pos <= s.len(),
    ensures
        spec_parse_entries(s, pos, ln, acc) matches Ok((es, p, l)) ==> {
            &&& pos < p <= s.len()
            &&& ln <= l <= ln + (p - pos)
        },
    decreases s.len() - pos, 3int,
{
    lemma_value_bounds(s, pos, ln);
    if let Ok((kd, p1, l1)) = spec_parse_value(s, pos, ln) {
        if pos < p1 <= s.len() && p1 < s.len() && s[p1] == 0x3A {
            if let SpecVal::Str(SpecKind::Lit(k)) = kd.val {
                lemma_value_bounds(s, p1 + 1, l1);
                if let Ok((vd, p2, l2)) = spec_parse_value(s, p1 + 1, l1) {
                    if p1 + 1 < p2 <= s.len() && p2 < s.len() && s[p2] == 0x2C {
                        lemma_entries_bounds(s, p2 + 1, l2, obj_insert(acc, k, vd));
                    }
                }
            }
        }
    }
}

/// A whole parse run: exactly one value, and nothing but whitespace after it.
pub open spec fn spec_parse(s: Seq<u8>) -> Result<SpecDoc, ParseError> {
    match spec_parse_value(s, 0, 1) {
        Err(e) => Err(e),
        Ok((d, p, l)) => {
            if p == s.len() {
                Ok(d)
            } else {
                Err(perr(ErrorKind::TrailingCharacters, p, l))
            }
        },
    }
}

} // verus!
