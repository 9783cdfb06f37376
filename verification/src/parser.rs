//! The executable recursive-descent parser. Every method's contract equates
//! its outcome with the mathematical reference parser in `spec_parse`: on
//! success the returned node's view, the cursor position and the line counter
//! are exactly the reference's; on failure the returned violation is exactly
//! the reference's.
use vstd::prelude::*;

use crate::error::{ErrorKind, ParseError};
use crate::spec_parse::{
    dec_val, digits_end, hex_val, is_digit, lemma_dec_val_mono, lemma_dec_val_nonneg,
    lemma_digits_end, perr, spec_parse_number, spec_skip_ws,
};
use crate::value::{doc_view, JParser, JValue, Json, SpecDoc, SpecKind, SpecVal, VKind};

verus! {

/// A parse outcome: a document node, or the first positioned violation.
pub type JResult = Result<Json, ParseError>;

impl JParser {
    /// The cursor is inside the input, the input leaves room to step past its
    /// end, and the line counter starts at one and grows at most one per
    /// consumed byte.
    pub open spec fn wf(&self) -> bool {
        &&& self.pos <= self.input@.len()
        &&& self.input@.len() < usize::MAX
        &&& 1 <= self.ln
        &&& self.ln <= self.pos + 1
    }
}

impl Default for JParser {
    /// A parser with no input, at the start of line one.
    fn default() -> (r: JParser)
        ensures
            r.input@.len() == 0,
            r.pos == 0,
            r.ln == 1,
            r.wf(),
    {
        JParser { input: Vec::new(), pos: 0, ln: 1 }
    }
}

impl JParser {
    /// The next byte of input, advancing the cursor; fails at the end of the
    /// text.
    pub fn next(&mut self) -> (r: Result<u8, ParseError>)
        requires
            old(self).wf(),
        ensures
            final(self).input@ == old(self).input@,
            final(self).ln == old(self).ln,
            final(self).wf(),
            match r {
                Ok(b) => {
                    &&& old(self).pos < old(self).input@.len()
                    &&& b == old(self).input@[old(self).pos as int]
                    &&& final(self).pos == old(self).pos + 1
                },
                Err(e) => {
                    &&& old(self).pos == old(self).input@.len()
                    &&& e == perr(
                        ErrorKind::UnexpectedEof,
                        old(self).pos as int,
                        old(self).ln as int,
                    )
                    &&& final(self).pos == old(self).pos
                },
            },
    {
        if self.pos < self.input.len() {
            let b = self.input[self.pos];
            self.pos = self.pos + 1;
            Ok(b)
        } else {
            Err(ParseError { kind: ErrorKind::UnexpectedEof, pos: self.pos, ln: self.ln })
        }
    }

    /// Consumes exactly one byte when it equals `expected`; otherwise leaves
    /// the cursor in place and fails with a positioned syntax violation.
    pub fn expect(&mut self, expected: u8) -> (r: Result<(), ParseError>)
        requires
            old(self).wf(),
        ensures
            final(self).input@ == old(self).input@,
            final(self).ln == old(self).ln,
            final(self).wf(),
            match r {
                Ok(u) => {
                    &&& old(self).pos < old(self).input@.len()
                    &&& old(self).input@[old(self).pos as int] == expected
                    &&& final(self).pos == old(self).pos + 1
                },
                Err(e) => {
                    &&& !(old(self).pos < old(self).input@.len() && old(self).input@[old(
                        self,
                    ).pos as int] == expected)
                    &&& e == perr(ErrorKind::SyntaxError, old(self).pos as int, old(self).ln as int)
                    &&& final(self).pos == old(self).pos
                },
            },
    {
        if self.pos < self.input.len() && self.input[self.pos] == expected {
            self.pos = self.pos + 1;
            Ok(())
        } else {
            Err(ParseError { kind: ErrorKind::SyntaxError, pos: self.pos, ln: self.ln })
        }
    }

    /// Consumes a maximal run of whitespace, stepping the line counter once
    /// per line feed.
    pub fn skip_ws(&mut self)
        requires
            old(self).wf(),
        ensures
            final(self).input@ == old(self).input@,
            final(self).wf(),
            old(self).pos <= final(self).pos,
            (final(self).pos as int, final(self).ln as int) == spec_skip_ws(
                old(self).input@,
                old(self).pos as int,
                old(self).ln as int,
            ),
    {
        while self.pos < self.input.len() && (self.input[self.pos] == 0x20 || self.input[self.pos]
            == 0x09 || self.input[self.pos] == 0x0D || self.input[self.pos] == 0x0A)
            invariant
                self.wf(),
                self.input == old(self).input,
                old(self).pos <= self.pos,
                spec_skip_ws(old(self).input@, old(self).pos as int, old(self).ln as int)
                    == spec_skip_ws(self.input@, self.pos as int, self.ln as int),
            decreases self.input@.len() - self.pos,
        {
            if self.input[self.pos] == 0x0A {
                self.ln = self.ln + 1;
            }
            self.pos = self.pos + 1;
        }
    }

    /// Matches the keyword `n` at the cursor, returning a node that carries
    /// `v` and starts where the keyword does.
    pub fn parse_name(&mut self, n: &Vec<u8>, v: JValue) -> (r: JResult)
        requires
            old(self).wf(),
        ensures
            final(self).input@ == old(self).input@,
            final(self).ln == old(self).ln,
            final(self).wf(),
            match crate::spec_parse::spec_parse_name(
                old(self).input@,
                old(self).pos as int,
                old(self).ln as int,
                n@,
            ) {
                Ok(p2) => {
                    &&& r == Ok::<Json, ParseError>(
                        Json { pos: old(self).pos, ln: old(self).ln, value: v },
                    )
                    &&& final(self).pos == p2
                },
                Err(e) => {
                    &&& r == Err::<Json, ParseError>(e)
                    &&& final(self).pos == old(self).pos
                },
            },
    {
        let len = self.input.len();
        if n.len() > len - self.pos {
            return Err(ParseError { kind: ErrorKind::SyntaxError, pos: self.pos, ln: self.ln });
        }
        let mut i: usize = 0;
        while i < n.len()
            invariant
                self == old(self),
                self.wf(),
                n@.len() <= self.input@.len() - self.pos,
                0 <= i <= n@.len(),
                forall|j: int| 0 <= j < i ==> self.input@[self.pos + j] == n@[j],
            decreases n@.len() - i,
        {
            if self.input[self.pos + i] != n[i] {
                proof {
                    assert(self.input@.subrange(self.pos as int, self.pos + n@.len())[i as int]
                        != n@[i as int]);
                }
                return Err(
                    ParseError { kind: ErrorKind::SyntaxError, pos: self.pos, ln: self.ln },
                );
            }
            i += 1;
        }
        proof {
            assert(self.input@.subrange(self.pos as int, self.pos + n@.len()) =~= n@);
        }
        let start = self.pos;
        self.pos = self.pos + n.len();
        Ok(Json { pos: start, ln: self.ln, value: v })
    }

    /// Advances the cursor to the end of the digit run at the cursor.
    fn scan_digits(&mut self)
        requires
            old(self).wf(),
        ensures
            final(self).input@ == old(self).input@,
            final(self).ln == old(self).ln,
            final(self).wf(),
            old(self).pos <= final(self).pos,
            final(self).pos as int == digits_end(old(self).input@, old(self).pos as int),
    {
        while self.pos < self.input.len() && 0x30 <= self.input[self.pos] && self.input[self.pos]
            <= 0x39
            invariant
                self.wf(),
                self.input == old(self).input,
                self.ln == old(self).ln,
                old(self).pos <= self.pos,
                digits_end(old(self).input@, old(self).pos as int) == digits_end(
                    self.input@,
                    self.pos as int,
                ),
            decreases self.input@.len() - self.pos,
        {
            self.pos = self.pos + 1;
        }
    }
}

impl JParser {
    /// The strict JSON numeric literal at the cursor: a 64-bit signed integer
    /// when purely integral, else the literal kept as its source lexeme.
    pub fn parse_number(&mut self) -> (r: JResult)
        requires
            old(self).wf(),
        ensures
            final(self).input@ == old(self).input@,
            final(self).ln == old(self).ln,
            final(self).wf(),
            match spec_parse_number(old(self).input@, old(self).pos as int, old(self).ln as int) {
                Ok((v, p2)) => r matches Ok(d) && doc_view(d) == (SpecDoc {
                    pos: old(self).pos as int,
                    ln: old(self).ln as int,
                    val: v,
                }) && final(self).pos == p2,
                Err(e) => r == Err::<Json, ParseError>(e),
            },
    {
        let ghost s = self.input@;
        let start = self.pos;
        let neg = self.pos < self.input.len() && self.input[self.pos] == 0x2D;
        if neg {
            self.pos = self.pos + 1;
        }
        let p0 = self.pos;
        if !(self.pos < self.input.len() && (self.input[self.pos] == 0x30 || (0x31
            <= self.input[self.pos] && self.input[self.pos] <= 0x39))) {
            return Err(ParseError { kind: ErrorKind::SyntaxError, pos: self.pos, ln: self.ln });
        }
        let iend: usize;
        if self.input[self.pos] == 0x30 {
            self.pos = self.pos + 1;
            if self.pos < self.input.len() && 0x30 <= self.input[self.pos] && self.input[self.pos]
                <= 0x39 {
                return Err(
                    ParseError { kind: ErrorKind::LeadingZero, pos: self.pos, ln: self.ln },
                );
            }
            iend = self.pos;
        } else {
            self.scan_digits();
            iend = self.pos;
        }
        proof {
            lemma_digits_end(s, p0 as int);
        }
        let mut has_frac = false;
        if self.pos < self.input.len() && self.input[self.pos] == 0x2E {
            has_frac = true;
            self.pos = self.pos + 1;
            if !(self.pos < self.input.len() && 0x30 <= self.input[self.pos]
                && self.input[self.pos] <= 0x39) {
                return Err(
                    ParseError {
                        kind: ErrorKind::MissingFractionDigit,
                        pos: self.pos,
                        ln: self.ln,
                    },
                );
            }
            self.scan_digits();
        }
        let ghost fend = self.pos as int;
        let mut has_exp = false;
        if self.pos < self.input.len() && (self.input[self.pos] == 0x65 || self.input[self.pos]
            == 0x45) {
            has_exp = true;
            self.pos = self.pos + 1;
            if self.pos < self.input.len() && (self.input[self.pos] == 0x2B
                || self.input[self.pos] == 0x2D) {
                self.pos = self.pos + 1;
            }
            if !(self.pos < self.input.len() && 0x30 <= self.input[self.pos]
                && self.input[self.pos] <= 0x39) {
                return Err(
                    ParseError {
                        kind: ErrorKind::MissingExponentDigit,
                        pos: self.pos,
                        ln: self.ln,
                    },
                );
            }
            self.scan_digits();
        }
        let end = self.pos;
        if !has_frac && !has_exp {
            match digits_value(&self.input, p0, iend) {
                None => {
                    proof {
                        lemma_dec_val_nonneg(s, p0 as int, iend as int);
                    }
                    Err(ParseError { kind: ErrorKind::IntegerOverflow, pos: end, ln: self.ln })
                },
                Some(mag) => {
                    proof {
                        lemma_dec_val_nonneg(s, p0 as int, iend as int);
                    }
                    if neg {
                        if mag == 0x8000000000000000u64 {
                            Ok(
                                Json {
                                    pos: start,
                                    ln: self.ln,
                                    value: JValue::Int(VKind::Lit(i64::MIN)),
                                },
                            )
                        } else {
                            Ok(
                                Json {
                                    pos: start,
                                    ln: self.ln,
                                    value: JValue::Int(VKind::Lit(-(mag as i64))),
                                },
                            )
                        }
                    } else {
                        if mag == 0x8000000000000000u64 {
                            Err(
                                ParseError {
                                    kind: ErrorKind::IntegerOverflow,
                                    pos: end,
                                    ln: self.ln,
                                },
                            )
                        } else {
                            Ok(
                                Json {
                                    pos: start,
                                    ln: self.ln,
                                    value: JValue::Int(VKind::Lit(mag as i64)),
                                },
                            )
                        }
                    }
                },
            }
        } else {
            let lex = copy_range(&self.input, start, end);
            Ok(Json { pos: start, ln: self.ln, value: JValue::Float(VKind::Lit(lex)) })
        }
    }

    /// One hexadecimal digit at the cursor, consumed; the end of input is
    /// reported at the end itself, a non-hex byte just past itself.
    fn hex_digit(&mut self) -> (r: Result<u32, ParseError>)
        requires
            old(self).wf(),
        ensures
            final(self).input@ == old(self).input@,
            final(self).ln == old(self).ln,
            final(self).wf(),
            ({
                let s = old(self).input@;
                let p = old(self).pos as int;
                let l = old(self).ln as int;
                if p >= s.len() {
                    &&& r == Err::<u32, ParseError>(
                        perr(ErrorKind::UnexpectedEof, s.len() as int, l),
                    )
                    &&& final(self).pos == old(self).pos
                } else if !crate::spec_parse::is_hex(s[p]) {
                    &&& r == Err::<u32, ParseError>(perr(ErrorKind::InvalidHexDigit, p + 1, l))
                    &&& final(self).pos == old(self).pos + 1
                } else {
                    &&& r matches Ok(h) && h as int == hex_val(s[p]) && h <= 15
                    &&& final(self).pos == old(self).pos + 1
                }
            }),
    {
        if self.pos >= self.input.len() {
            return Err(ParseError { kind: ErrorKind::UnexpectedEof, pos: self.pos, ln: self.ln });
        }
        let hb = self.input[self.pos];
        self.pos = self.pos + 1;
        if 0x30 <= hb && hb <= 0x39 {
            Ok((hb - 0x30) as u32)
        } else if 0x61 <= hb && hb <= 0x66 {
            Ok((hb - 0x61) as u32 + 10)
        } else if 0x41 <= hb && hb <= 0x46 {
            Ok((hb - 0x41) as u32 + 10)
        } else {
            Err(ParseError { kind: ErrorKind::InvalidHexDigit, pos: self.pos, ln: self.ln })
        }
    }

    /// Four hexadecimal digits at the cursor, as one code unit value.
    fn read_hex4(&mut self) -> (r: Result<u32, ParseError>)
        requires
            old(self).wf(),
        ensures
            final(self).input@ == old(self).input@,
            final(self).ln == old(self).ln,
            final(self).wf(),
            match crate::spec_parse::spec_hex4(
                old(self).input@,
                old(self).pos as int,
                old(self).ln as int,
            ) {
                Ok(cp) => r matches Ok(c) && c as int == cp && c <= 0xFFFF && final(self).pos
                    == old(self).pos + 4,
                Err(e) => r == Err::<u32, ParseError>(e),
            },
    {
        let h0 = match self.hex_digit() {
            Ok(h) => h,
            Err(e) => {
                return Err(e);
            },
        };
        let h1 = match self.hex_digit() {
            Ok(h) => h,
            Err(e) => {
                return Err(e);
            },
        };
        let h2 = match self.hex_digit() {
            Ok(h) => h,
            Err(e) => {
                return Err(e);
            },
        };
        let h3 = match self.hex_digit() {
            Ok(h) => h,
            Err(e) => {
                return Err(e);
            },
        };
        Ok(h0 * 4096 + h1 * 256 + h2 * 16 + h3)
    }

    /// The quoted string literal at the cursor, with its escapes decoded.
    #[verifier::rlimit(50)]
    pub fn parse_string(&mut self) -> (r: JResult)
        requires
            old(self).wf(),
        ensures
            final(self).input@ == old(self).input@,
            final(self).ln == old(self).ln,
            final(self).wf(),
            match crate::spec_parse::spec_parse_string(
                old(self).input@,
                old(self).pos as int,
                old(self).ln as int,
            ) {
                Ok((cs, p2)) => r matches Ok(d) && doc_view(d) == (SpecDoc {
                    pos: old(self).pos as int,
                    ln: old(self).ln as int,
                    val: SpecVal::Str(SpecKind::Lit(cs)),
                }) && final(self).pos == p2,
                Err(e) => r == Err::<Json, ParseError>(e),
            },
    {
        if !(self.pos < self.input.len() && self.input[self.pos] == 0x22) {
            return Err(
                ParseError { kind: ErrorKind::MissingOpeningQuote, pos: self.pos, ln: self.ln },
            );
        }
        let start = self.pos;
        self.pos = self.pos + 1;
        let ghost s = self.input@;
        let ghost inner = self.pos as int;
        let ghost l = self.ln as int;
        let mut out: Vec<u8> = Vec::new();
        loop
            invariant
                self.wf(),
                s == old(self).input@,
                l == old(self).ln as int,
                self.input@ == s,
                self.ln as int == l,
                old(self).ln == self.ln,
                old(self).pos == start,
                start as int + 1 == inner,
                (start as int) < s.len(),
                s[start as int] == 0x22,
                inner <= self.pos as int <= s.len(),
                crate::spec_parse::spec_str_body(s, inner, l, Seq::empty())
                    == crate::spec_parse::spec_str_body(s, self.pos as int, l, out@),
            decreases s.len() - self.pos,
        {
            if self.pos >= self.input.len() {
                return Err(
                    ParseError { kind: ErrorKind::UnterminatedString, pos: self.pos, ln: self.ln },
                );
            }
            let c = self.input[self.pos];
            let ghost pp = self.pos as int;
            let ghost prev = out@;
            if c == 0x22 {
                self.pos = self.pos + 1;
                return Ok(Json { pos: start, ln: self.ln, value: JValue::Str(VKind::Lit(out)) });
            }
            if c == 0x5C {
                self.pos = self.pos + 1;
                if self.pos >= self.input.len() {
                    return Err(
                        ParseError { kind: ErrorKind::UnexpectedEof, pos: self.pos, ln: self.ln },
                    );
                }
                let e = self.input[self.pos];
                self.pos = self.pos + 1;
                if e == 0x75 {
                    let cp = match self.read_hex4() {
                        Ok(cp) => cp,
                        Err(err) => {
                            return Err(err);
                        },
                    };
                    if 0xD800 <= cp && cp <= 0xDFFF {
                        return Err(
                            ParseError {
                                kind: ErrorKind::InvalidUnicodeCodePoint,
                                pos: self.pos,
                                ln: self.ln,
                            },
                        );
                    }
                    if cp < 0x80 {
                        out.push(cp as u8);
                    } else if cp < 0x800 {
                        out.push((0xC0 + cp / 64) as u8);
                        out.push((0x80 + cp % 64) as u8);
                    } else {
                        out.push((0xE0 + cp / 4096) as u8);
                        out.push((0x80 + (cp / 64) % 64) as u8);
                        out.push((0x80 + cp % 64) as u8);
                    }
                    proof {
                        assert(out@ =~= prev + crate::spec_parse::utf8_enc(cp as int));
                        assert(crate::spec_parse::spec_str_body(s, pp, l, prev)
                            == crate::spec_parse::spec_str_body(
                            s,
                            pp + 6,
                            l,
                            prev + crate::spec_parse::utf8_enc(cp as int),
                        ));
                    }
                } else {
                    let m: u8 = if e == 0x6E {
                        0x0A
                    } else if e == 0x74 {
                        0x09
                    } else if e == 0x72 {
                        0x0D
                    } else if e == 0x62 {
                        0x08
                    } else if e == 0x66 {
                        0x0C
                    } else if e == 0x5C {
                        0x5C
                    } else if e == 0x2F {
                        0x2F
                    } else if e == 0x22 {
                        0x22
                    } else {
                        return Err(
                            ParseError {
                                kind: ErrorKind::InvalidEscape,
                                pos: self.pos,
                                ln: self.ln,
                            },
                        );
                    };
                    out.push(m);
                    proof {
                        assert(crate::spec_parse::spec_str_body(s, pp, l, prev)
                            == crate::spec_parse::spec_str_body(s, pp + 2, l, prev.push(m)));
                    }
                }
            } else if c < 0x20 {
                self.pos = self.pos + 1;
                return Err(
                    ParseError {
                        kind: ErrorKind::InvalidControlCharacter,
                        pos: self.pos,
                        ln: self.ln,
                    },
                );
            } else {
                out.push(c);
                self.pos = self.pos + 1;
            }
        }
    }
}

/// A copy of `v[from..to]`.
pub fn copy_range(v: &Vec<u8>, from: usize, to: usize) -> (r: Vec<u8>)
    requires
        from <= to <= v@.len(),
    ensures
        r@ == v@.subrange(from as int, to as int),
{
    let mut r: Vec<u8> = Vec::new();
    let mut i: usize = from;
    while i < to
        invariant
            from <= i <= to <= v@.len(),
            r@ == v@.subrange(from as int, i as int),
        decreases to - i,
    {
        r.push(v[i]);
        proof {
            assert(r@ =~= v@.subrange(from as int, i + 1));
        }
        i += 1;
    }
    r
}

/// The decimal value of the digit run `v[from..to]`, as long as it does not
/// exceed 2^63; past that, absence signals the run's value is too large.
fn digits_value(v: &Vec<u8>, from: usize, to: usize) -> (r: Option<u64>)
    requires
        from <= to <= v@.len(),
        forall|j: int| from <= j < to ==> is_digit(#[trigger] v@[j]),
    ensures
        match r {
            Some(m) => m as int == dec_val(v@, from as int, to as int) && m
                <= 0x8000000000000000u64,
            None => dec_val(v@, from as int, to as int) > 0x8000000000000000,
        },
{
    let mut mag: u128 = 0;
    let mut i: usize = from;
    while i < to
        invariant
            from <= i <= to <= v@.len(),
            forall|j: int| from <= j < to ==> is_digit(#[trigger] v@[j]),
            mag as int == dec_val(v@, from as int, i as int),
            mag <= 0x8000000000000000u128,
        decreases to - i,
    {
        let d = v[i] - 0x30;
        let nm: u128 = mag * 10 + d as u128;
        proof {
            assert(nm as int == dec_val(v@, from as int, i + 1));
        }
        if nm > 0x8000000000000000u128 {
            proof {
                lemma_dec_val_mono(v@, from as int, i + 1, to as int);
            }
            return None;
        }
        mag = nm;
        i += 1;
    }
    Some(mag as u64)
}

impl JParser {
    /// One value at the cursor: leading whitespace, dispatch on the first
    /// byte, the value, trailing whitespace.
    pub fn parse_value(&mut self) -> (r: JResult)
        requires
            old(self).wf(),
        ensures
            final(self).input@ == old(self).input@,
            final(self).wf(),
            match crate::spec_parse::spec_parse_value(
                old(self).input@,
                old(self).pos as int,
                old(self).ln as int,
            ) {
                Ok((sd, p2, l2)) => r matches Ok(d) && doc_view(d) == sd && final(self).pos == p2
                    && final(self).ln == l2 && old(self).pos < p2,
                Err(e) => r == Err::<Json, ParseError>(e),
            },
        decreases old(self).input@.len() - old(self).pos, 2int,
    {
        let ghost s = self.input@;
        let ghost pos0 = self.pos as int;
        let ghost ln0 = self.ln as int;
        proof {
            crate::spec_parse::lemma_value_bounds(s, pos0, ln0);
        }
        self.skip_ws();
        if self.pos >= self.input.len() {
            return Err(ParseError { kind: ErrorKind::UnexpectedEof, pos: self.pos, ln: self.ln });
        }
        let c = self.input[self.pos];
        let r: JResult = if c == 0x22 {
            self.parse_string()
        } else if c == 0x7B {
            self.parse_object()
        } else if c == 0x5B {
            self.parse_array()
        } else if c == 0x74 {
            let n: Vec<u8> = vec![0x74, 0x72, 0x75, 0x65];
            proof {
                assert(n@ =~= seq![0x74u8, 0x72, 0x75, 0x65]);
            }
            self.parse_name(&n, JValue::Bool(VKind::Lit(true)))
        } else if c == 0x66 {
            let n: Vec<u8> = vec![0x66, 0x61, 0x6C, 0x73, 0x65];
            proof {
                assert(n@ =~= seq![0x66u8, 0x61, 0x6C, 0x73, 0x65]);
            }
            self.parse_name(&n, JValue::Bool(VKind::Lit(false)))
        } else if c == 0x6E {
            let n: Vec<u8> = vec![0x6E, 0x75, 0x6C, 0x6C];
            proof {
                assert(n@ =~= seq![0x6Eu8, 0x75, 0x6C, 0x6C]);
            }
            self.parse_name(&n, JValue::Null)
        } else {
            self.parse_number()
        };
        self.skip_ws();
        r
    }

    /// An array literal at the cursor (the opening bracket).
    pub fn parse_array(&mut self) -> (r: JResult)
        requires
            old(self).wf(),
        ensures
            final(self).input@ == old(self).input@,
            final(self).wf(),
            match crate::spec_parse::spec_parse_array(
                old(self).input@,
                old(self).pos as int,
                old(self).ln as int,
            ) {
                Ok((sd, p2, l2)) => r matches Ok(d) && doc_view(d) == sd && final(self).pos == p2
                    && final(self).ln == l2,
                Err(e) => r == Err::<Json, ParseError>(e),
            },
        decreases old(self).input@.len() - old(self).pos, 0int,
    {
        let start = self.pos;
        let start_ln = self.ln;
        match self.expect(0x5B) {
            Err(e) => {
                return Err(e);
            },
            Ok(u) => {},
        }
        self.skip_ws();
        if self.pos < self.input.len() && self.input[self.pos] == 0x5D {
            self.pos = self.pos + 1;
            let arr: Vec<Json> = Vec::new();
            proof {
                assert(crate::value::docs_view(arr@) =~= Seq::<SpecDoc>::empty());
            }
            return Ok(
                Json { pos: start, ln: start_ln, value: JValue::Array(VKind::Lit(arr)) },
            );
        }
        let mut arr: Vec<Json> = Vec::new();
        proof {
            assert(crate::value::docs_view(arr@) =~= Seq::<SpecDoc>::empty());
        }
        match self.parse_elems(&mut arr) {
            Err(e) => Err(e),
            Ok(u) => Ok(Json { pos: start, ln: start_ln, value: JValue::Array(VKind::Lit(arr)) }),
        }
    }

    /// Array elements from the start of a value onward, appended to `arr`.
    pub fn parse_elems(&mut self, arr: &mut Vec<Json>) -> (r: Result<(), ParseError>)
        requires
            old(self).wf(),
        ensures
            final(self).input@ == old(self).input@,
            final(self).wf(),
            match crate::spec_parse::spec_parse_elems(
                old(self).input@,
                old(self).pos as int,
                old(self).ln as int,
                crate::value::docs_view(old(arr)@),
            ) {
                Ok((docs, p2, l2)) => {
                    &&& r == Ok::<(), ParseError>(())
                    &&& crate::value::docs_view(final(arr)@) == docs
                    &&& final(self).pos == p2
                    &&& final(self).ln == l2
                },
                Err(e) => r == Err::<(), ParseError>(e),
            },
        decreases old(self).input@.len() - old(self).pos, 3int,
    {
        let d = match self.parse_value() {
            Err(e) => {
                return Err(e);
            },
            Ok(d) => d,
        };
        let ghost prev = arr@;
        arr.push(d);
        proof {
            crate::value::lemma_docs_view_push(prev, d);
        }
        if self.pos >= self.input.len() {
            return Err(ParseError { kind: ErrorKind::UnexpectedEof, pos: self.pos, ln: self.ln });
        }
        let c = self.input[self.pos];
        if c == 0x5D {
            self.pos = self.pos + 1;
            Ok(())
        } else if c == 0x2C {
            self.pos = self.pos + 1;
            self.skip_ws();
            if self.pos < self.input.len() && self.input[self.pos] == 0x5D {
                return Err(
                    ParseError {
                        kind: ErrorKind::InvalidArraySeparator,
                        pos: self.pos,
                        ln: self.ln,
                    },
                );
            }
            self.parse_elems(arr)
        } else {
            Err(ParseError { kind: ErrorKind::InvalidArraySeparator, pos: self.pos, ln: self.ln })
        }
    }

    /// An object literal at the cursor (the opening brace).
    pub fn parse_object(&mut self) -> (r: JResult)
        requires
            old(self).wf(),
        ensures
            final(self).input@ == old(self).input@,
            final(self).wf(),
            match crate::spec_parse::spec_parse_object(
                old(self).input@,
                old(self).pos as int,
                old(self).ln as int,
            ) {
                Ok((sd, p2, l2)) => r matches Ok(d) && doc_view(d) == sd && final(self).pos == p2
                    && final(self).ln == l2,
                Err(e) => r == Err::<Json, ParseError>(e),
            },
        decreases old(self).input@.len() - old(self).pos, 0int,
    {
        let start = self.pos;
        let start_ln = self.ln;
        match self.expect(0x7B) {
            Err(e) => {
                return Err(e);
            },
            Ok(u) => {},
        }
        self.skip_ws();
        if self.pos < self.input.len() && self.input[self.pos] == 0x7D {
            self.pos = self.pos + 1;
            let obj = crate::value::JObject::new();
            proof {
                crate::object::lemma_obj_views(obj);
                assert(crate::object::pairs_view(obj@) =~= Seq::<(Seq<u8>, SpecDoc)>::empty());
            }
            return Ok(
                Json { pos: start, ln: start_ln, value: JValue::Object(VKind::Lit(obj)) },
            );
        }
        let mut obj = crate::value::JObject::new();
        proof {
            assert(crate::object::pairs_view(obj@) =~= Seq::<(Seq<u8>, SpecDoc)>::empty());
        }
        match self.parse_entries(&mut obj) {
            Err(e) => Err(e),
            Ok(u) => {
                proof {
                    crate::object::lemma_obj_views(obj);
                }
                Ok(Json { pos: start, ln: start_ln, value: JValue::Object(VKind::Lit(obj)) })
            },
        }
    }

    /// Object entries from the start of a key onward, inserted into `obj`
    /// with in-place replacement of duplicate keys.
    pub fn parse_entries(&mut self, obj: &mut crate::value::JObject) -> (r: Result<
        (),
        ParseError,
    >)
        requires
            old(self).wf(),
            old(obj).wf(),
        ensures
            final(self).input@ == old(self).input@,
            final(self).wf(),
            final(obj).wf(),
            match crate::spec_parse::spec_parse_entries(
                old(self).input@,
                old(self).pos as int,
                old(self).ln as int,
                crate::object::pairs_view(old(obj)@),
            ) {
                Ok((es, p2, l2)) => {
                    &&& r == Ok::<(), ParseError>(())
                    &&& crate::object::pairs_view(final(obj)@) == es
                    &&& final(self).pos == p2
                    &&& final(self).ln == l2
                },
                Err(e) => r == Err::<(), ParseError>(e),
            },
        decreases old(self).input@.len() - old(self).pos, 3int,
    {
        let key = match self.parse_value() {
            Err(e) => {
                return Err(e);
            },
            Ok(d) => d,
        };
        let kpos = key.pos;
        let kln = key.ln;
        let k: Vec<u8> = match key.value {
            JValue::Str(VKind::Lit(k)) => k,
            v => {
                return Err(ParseError { kind: ErrorKind::NonStringKey, pos: kpos, ln: kln });
            },
        };
        match self.expect(0x3A) {
            Err(e) => {
                return Err(e);
            },
            Ok(u) => {},
        }
        let val = match self.parse_value() {
            Err(e) => {
                return Err(e);
            },
            Ok(d) => d,
        };
        let ghost prevo = obj@;
        let ghost gk = k@;
        proof {
            crate::object::lemma_pairs_view_find(prevo, gk);
            crate::object::lemma_find_key(prevo, gk);
        }
        let ghost prev_acc = crate::object::pairs_view(prevo);
        obj.insert(k, val);
        proof {
            assert(crate::object::pairs_view(obj@) =~= crate::spec_parse::obj_insert(
                prev_acc,
                gk,
                doc_view(val),
            ));
        }
        if self.pos >= self.input.len() {
            return Err(ParseError { kind: ErrorKind::UnexpectedEof, pos: self.pos, ln: self.ln });
        }
        let c = self.input[self.pos];
        if c == 0x7D {
            self.pos = self.pos + 1;
            Ok(())
        } else if c == 0x2C {
            self.pos = self.pos + 1;
            self.parse_entries(obj)
        } else {
            Err(ParseError { kind: ErrorKind::InvalidObjectSeparator, pos: self.pos, ln: self.ln })
        }
    }

    /// A whole parse run over `code`: the cursor is reset, exactly one value
    /// is parsed, and anything but whitespace after it is rejected.
    pub fn parse(&mut self, code: Vec<u8>) -> (r: JResult)
        requires
            code@.len() < usize::MAX,
        ensures
            final(self).input@ == code@,
            final(self).wf(),
            match crate::spec_parse::spec_parse(code@) {
                Ok(sd) => r matches Ok(d) && doc_view(d) == sd,
                Err(e) => r == Err::<Json, ParseError>(e),
            },
    {
        self.input = code;
        self.pos = 0;
        self.ln = 1;
        let ghost s = self.input@;
        proof {
            crate::spec_parse::lemma_value_bounds(s, 0, 1);
        }
        let d = match self.parse_value() {
            Err(e) => {
                return Err(e);
            },
            Ok(d) => d,
        };
        self.skip_ws();
        if self.pos != self.input.len() {
            return Err(
                ParseError { kind: ErrorKind::TrailingCharacters, pos: self.pos, ln: self.ln },
            );
        }
        Ok(d)
    }
}

} // verus!
