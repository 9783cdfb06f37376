//! The serializer: renders a document back to indented text, two spaces per
//! nesting level, each container child on its own line, the closing bracket
//! on its own line at the parent's indentation (empty containers included).
//! Strings are re-escaped with the escape set the parser accepts, any other
//! byte below 0x20 as a lower-case four-digit hexadecimal escape. Symbolic
//! forms render as `(name: kind)`, call nodes as `name(arg, arg)` with no
//! internal newlines. Float literals render as their source lexeme.
use vstd::prelude::*;

use crate::value::{jentries_height, jheight, jlist_height, jval_height, lemma_jentries_height, lemma_jlist_height, JValue, Json, VKind};

verus! {

/// Two spaces per nesting level.
pub open spec fn spec_indent(depth: int) -> Seq<u8>
    decreases depth,
{
    if depth <= 0 {
        Seq::empty()
    } else {
        spec_indent(depth - 1) + seq![0x20u8, 0x20]
    }
}

/// The nesting level below `depth`. Indentation saturates at the machine
/// limit instead of wrapping; no representable tree reaches it.
pub open spec fn spec_next_depth(depth: int) -> int {
    if depth < usize::MAX {
        depth + 1
    } else {
        depth
    }
}

/// How one string byte renders: the named escapes, a lower-case `\u00..`
/// escape for any other byte below 0x20, the byte itself otherwise.
pub open spec fn esc_byte(b: u8) -> Seq<u8> {
    if b == 0x22 {
        seq![0x5Cu8, 0x22]
    } else if b == 0x5C {
        seq![0x5Cu8, 0x5C]
    } else if b == 0x0A {
        seq![0x5Cu8, 0x6E]
    } else if b == 0x09 {
        seq![0x5Cu8, 0x74]
    } else if b == 0x0D {
        seq![0x5Cu8, 0x72]
    } else if b == 0x08 {
        seq![0x5Cu8, 0x62]
    } else if b == 0x0C {
        seq![0x5Cu8, 0x66]
    } else if b < 0x20 {
        seq![0x5Cu8, 0x75, 0x30, 0x30, hex_digit_lower((b / 16) as int), hex_digit_lower(
            (b % 16) as int,
        )]
    } else {
        seq![b]
    }
}

/// The lower-case hexadecimal digit for a nibble.
pub open spec fn hex_digit_lower(n: int) -> u8 {
    if n < 10 {
        (0x30 + n) as u8
    } else {
        (0x61 + (n - 10)) as u8
    }
}

/// A whole string escaped, byte for byte.
pub open spec fn spec_escape(s: Seq<u8>) -> Seq<u8>
    decreases s.len(),
{
    if s.len() == 0 {
        Seq::empty()
    } else {
        spec_escape(s.drop_last()) + esc_byte(s.last())
    }
}

/// The decimal digits of a non-negative integer.
pub open spec fn spec_u_digits(n: int) -> Seq<u8>
    decreases n,
{
    if n < 10 {
        seq![(0x30 + n) as u8]
    } else {
        spec_u_digits(n / 10).push((0x30 + n % 10) as u8)
    }
}

/// The decimal rendering of a 64-bit signed integer.
pub open spec fn spec_i64_str(v: i64) -> Seq<u8> {
    if v < 0 {
        seq![0x2Du8] + spec_u_digits(-(v as int))
    } else {
        spec_u_digits(v as int)
    }
}

/// A symbolic form: `(name: kind)`.
pub open spec fn spec_sym(n: Seq<u8>, kind: Seq<u8>) -> Seq<u8> {
    seq![0x28u8] + n + seq![0x3Au8, 0x20] + kind + seq![0x29u8]
}

/// The rendering of one document node at a nesting level.
pub open spec fn spec_write(d: Json, depth: int) -> Seq<u8>
    decreases d,
{
    match d.value {
        JValue::Null => seq![0x6Eu8, 0x75, 0x6C, 0x6C],
        JValue::Bool(VKind::Lit(b)) => if b {
            seq![0x74u8, 0x72, 0x75, 0x65]
        } else {
            seq![0x66u8, 0x61, 0x6C, 0x73, 0x65]
        },
        JValue::Bool(VKind::Sym(n)) => spec_sym(n@, seq![0x62u8, 0x6F, 0x6F, 0x6C]),
        JValue::Int(VKind::Lit(i)) => spec_i64_str(i),
        JValue::Int(VKind::Sym(n)) => spec_sym(n@, seq![0x69u8, 0x6E, 0x74]),
        JValue::Float(VKind::Lit(x)) => x@,
        JValue::Float(VKind::Sym(n)) => spec_sym(n@, seq![0x66u8, 0x6C, 0x6F, 0x61, 0x74]),
        JValue::Str(VKind::Lit(s)) => seq![0x22u8] + spec_escape(s@) + seq![0x22u8],
        JValue::Str(VKind::Sym(n)) => spec_sym(n@, seq![0x73u8, 0x74, 0x72, 0x69, 0x6E, 0x67]),
        JValue::Array(VKind::Lit(a)) => seq![0x5Bu8, 0x0A] + spec_arr_items(
            a@,
            spec_next_depth(depth),
        ) + seq![0x0Au8] + spec_indent(depth) + seq![0x5Du8],
        JValue::Array(VKind::Sym(n)) => spec_sym(n@, seq![0x61u8, 0x72, 0x72, 0x61, 0x79]),
        JValue::Object(VKind::Lit(o)) => seq![0x7Bu8, 0x0A] + spec_obj_items(
            o.entries@,
            spec_next_depth(depth),
        ) + seq![0x0Au8] + spec_indent(depth) + seq![0x7Du8],
        JValue::Object(VKind::Sym(n)) => spec_sym(
            n@,
            seq![0x6Fu8, 0x62, 0x6A, 0x65, 0x63, 0x74],
        ),
        JValue::Func(n, a) => n@ + seq![0x28u8] + spec_func_args(a@, depth) + seq![0x29u8],
    }
}

/// Array children, each on its own line at `depth`, separated by `,\n`.
pub open spec fn spec_arr_items(s: Seq<Json>, depth: int) -> Seq<u8>
    decreases s,
{
    if s.len() == 0 {
        Seq::empty()
    } else {
        spec_arr_items(s.drop_last(), depth) + (if s.len() > 1 {
            seq![0x2Cu8, 0x0A]
        } else {
            Seq::empty()
        }) + spec_indent(depth) + spec_write(s.last(), depth)
    }
}

/// Object entries, `"key": value` each on its own line at `depth`.
pub open spec fn spec_obj_items(s: Seq<(Vec<u8>, Json)>, depth: int) -> Seq<u8>
    decreases s,
{
    if s.len() == 0 {
        Seq::empty()
    } else {
        spec_obj_items(s.drop_last(), depth) + (if s.len() > 1 {
            seq![0x2Cu8, 0x0A]
        } else {
            Seq::empty()
        }) + spec_indent(depth) + seq![0x22u8] + spec_escape(s.last().0@) + seq![
            0x22u8,
            0x3A,
            0x20,
        ] + spec_write(s.last().1, depth)
    }
}

/// Call arguments, separated by `, ` on one line.
pub open spec fn spec_func_args(s: Seq<Json>, depth: int) -> Seq<u8>
    decreases s,
{
    if s.len() == 0 {
        Seq::empty()
    } else {
        spec_func_args(s.drop_last(), depth) + (if s.len() > 1 {
            seq![0x2Cu8, 0x20]
        } else {
            Seq::empty()
        }) + spec_write(s.last(), depth)
    }
}

/// Appends `b` to `out`.
pub fn push_all(out: &mut Vec<u8>, b: &Vec<u8>)
    ensures
        final(out)@ == old(out)@ + b@,
{
    let mut i: usize = 0;
    while i < b.len()
        invariant
            0 <= i <= b@.len(),
            out@ == old(out)@ + b@.subrange(0, i as int),
        decreases b@.len() - i,
    {
        out.push(b[i]);
        proof {
            assert(out@ =~= old(out)@ + b@.subrange(0, i + 1));
        }
        i += 1;
    }
    proof {
        assert(b@.subrange(0, b@.len() as int) =~= b@);
    }
}

/// Appends `depth` levels of two-space indentation to `out`.
pub fn push_indent(out: &mut Vec<u8>, depth: usize)
    ensures
        final(out)@ == old(out)@ + spec_indent(depth as int),
{
    let mut k: usize = 0;
    while k < depth
        invariant
            0 <= k <= depth,
            out@ == old(out)@ + spec_indent(k as int),
        decreases depth - k,
    {
        out.push(0x20);
        out.push(0x20);
        proof {
            assert(out@ =~= old(out)@ + spec_indent(k + 1));
        }
        k += 1;
    }
}

/// The decimal digits of `n`.
fn u64_digits(n: u64) -> (r: Vec<u8>)
    ensures
        r@ == spec_u_digits(n as int),
    decreases n,
{
    if n < 10 {
        let mut v: Vec<u8> = Vec::new();
        v.push(0x30 + n as u8);
        proof {
            assert(v@ =~= seq![(0x30 + n as int) as u8]);
        }
        v
    } else {
        let mut v = u64_digits(n / 10);
        v.push(0x30 + (n % 10) as u8);
        v
    }
}

/// The decimal rendering of `v`, with a leading minus when negative.
fn i64_str(v: i64) -> (r: Vec<u8>)
    ensures
        r@ == spec_i64_str(v),
{
    if v < 0 {
        let mag: u64 = if v == i64::MIN {
            0x8000000000000000u64
        } else {
            (-v) as u64
        };
        proof {
            assert(mag as int == -(v as int));
        }
        let mut out: Vec<u8> = Vec::new();
        out.push(0x2D);
        let digs = u64_digits(mag);
        push_all(&mut out, &digs);
        proof {
            assert(out@ =~= seq![0x2Du8] + spec_u_digits(-(v as int)));
        }
        out
    } else {
        u64_digits(v as u64)
    }
}

impl Json {
    /// Escapes special characters in a string for quoted rendering: the named
    /// escapes for quote, backslash and the named control characters, a
    /// lower-case `\u00..` escape for any other byte below 0x20, and every
    /// other byte unchanged.
    pub fn escape_string(&self, s: &Vec<u8>) -> (r: Vec<u8>)
        ensures
            r@ == spec_escape(s@),
    {
        let mut out: Vec<u8> = Vec::new();
        let mut i: usize = 0;
        while i < s.len()
            invariant
                0 <= i <= s@.len(),
                out@ == spec_escape(s@.subrange(0, i as int)),
            decreases s@.len() - i,
        {
            let ghost prev = out@;
            let b = s[i];
            if b == 0x22 {
                out.push(0x5C);
                out.push(0x22);
            } else if b == 0x5C {
                out.push(0x5C);
                out.push(0x5C);
            } else if b == 0x0A {
                out.push(0x5C);
                out.push(0x6E);
            } else if b == 0x09 {
                out.push(0x5C);
                out.push(0x74);
            } else if b == 0x0D {
                out.push(0x5C);
                out.push(0x72);
            } else if b == 0x08 {
                out.push(0x5C);
                out.push(0x62);
            } else if b == 0x0C {
                out.push(0x5C);
                out.push(0x66);
            } else if b < 0x20 {
                out.push(0x5C);
                out.push(0x75);
                out.push(0x30);
                out.push(0x30);
                let hi = b / 16;
                let lo = b % 16;
                out.push(
                    if hi < 10 {
                        0x30 + hi
                    } else {
                        0x61 + (hi - 10)
                    },
                );
                out.push(
                    if lo < 10 {
                        0x30 + lo
                    } else {
                        0x61 + (lo - 10)
                    },
                );
            } else {
                out.push(b);
            }
            proof {
                assert(out@ =~= prev + esc_byte(s@[i as int]));
                assert(s@.subrange(0, i + 1).drop_last() =~= s@.subrange(0, i as int));
                assert(s@.subrange(0, i + 1).last() == s@[i as int]);
            }
            i += 1;
        }
        proof {
            assert(s@.subrange(0, s@.len() as int) =~= s@);
        }
        out
    }

    /// Renders this node as indented text at nesting level `depth`.
    pub fn write_json(&self, depth: usize) -> (r: Vec<u8>)
        ensures
            r@ == spec_write(*self, depth as int),
        decreases jheight(*self),
    {
        let d2: usize = if depth < usize::MAX {
            depth + 1
        } else {
            depth
        };
        proof {
            assert(d2 as int == spec_next_depth(depth as int));
        }
        let mut out: Vec<u8> = Vec::new();
        match self.value {
            JValue::Null => {
                out.push(0x6E);
                out.push(0x75);
                out.push(0x6C);
                out.push(0x6C);
                proof {
                    assert(out@ =~= spec_write(*self, depth as int));
                }
            },
            JValue::Bool(VKind::Lit(ref b)) => {
                if *b {
                    out.push(0x74);
                    out.push(0x72);
                    out.push(0x75);
                    out.push(0x65);
                } else {
                    out.push(0x66);
                    out.push(0x61);
                    out.push(0x6C);
                    out.push(0x73);
                    out.push(0x65);
                }
                proof {
                    assert(out@ =~= spec_write(*self, depth as int));
                }
            },
            JValue::Bool(VKind::Sym(ref n)) => {
                push_sym(&mut out, n, 0);
                proof {
                    assert(out@ =~= spec_write(*self, depth as int));
                }
            },
            JValue::Int(VKind::Lit(ref i)) => {
                let digs = i64_str(*i);
                push_all(&mut out, &digs);
                proof {
                    assert(out@ =~= spec_write(*self, depth as int));
                }
            },
            JValue::Int(VKind::Sym(ref n)) => {
                push_sym(&mut out, n, 1);
                proof {
                    assert(out@ =~= spec_write(*self, depth as int));
                }
            },
            JValue::Float(VKind::Lit(ref x)) => {
                push_all(&mut out, x);
                proof {
                    assert(out@ =~= spec_write(*self, depth as int));
                }
            },
            JValue::Float(VKind::Sym(ref n)) => {
                push_sym(&mut out, n, 2);
                proof {
                    assert(out@ =~= spec_write(*self, depth as int));
                }
            },
            JValue::Str(VKind::Lit(ref s)) => {
                out.push(0x22);
                let e = self.escape_string(s);
                push_all(&mut out, &e);
                out.push(0x22);
                proof {
                    assert(out@ =~= spec_write(*self, depth as int));
                }
            },
            JValue::Str(VKind::Sym(ref n)) => {
                push_sym(&mut out, n, 3);
                proof {
                    assert(out@ =~= spec_write(*self, depth as int));
                }
            },
            JValue::Array(VKind::Lit(ref a)) => {
                out.push(0x5B);
                out.push(0x0A);
                let mut i: usize = 0;
                while i < a.len()
                    invariant
                        self.value == JValue::Array(VKind::Lit(*a)),
                        0 <= i <= a@.len(),
                        d2 as int == spec_next_depth(depth as int),
                        out@ == seq![0x5Bu8, 0x0A] + spec_arr_items(
                            a@.subrange(0, i as int),
                            d2 as int,
                        ),
                    decreases a@.len() - i,
                {
                    if i > 0 {
                        out.push(0x2C);
                        out.push(0x0A);
                    }
                    push_indent(&mut out, d2);
                    proof {
                        assert(self.value == JValue::Array(VKind::Lit(*a)));
                        lemma_jlist_height(a@);
                        assert(jheight(a@[i as int]) < jheight(*self));
                    }
                    let piece = a[i].write_json(d2);
                    push_all(&mut out, &piece);
                    proof {
                        assert(a@.subrange(0, i + 1).drop_last() =~= a@.subrange(0, i as int));
                        assert(a@.subrange(0, i + 1).last() == a@[i as int]);
                        assert(out@ =~= seq![0x5Bu8, 0x0A] + spec_arr_items(
                            a@.subrange(0, i + 1),
                            d2 as int,
                        ));
                    }
                    i += 1;
                }
                proof {
                    assert(a@.subrange(0, a@.len() as int) =~= a@);
                }
                out.push(0x0A);
                push_indent(&mut out, depth);
                out.push(0x5D);
                proof {
                    assert(out@ =~= spec_write(*self, depth as int));
                }
            },
            JValue::Array(VKind::Sym(ref n)) => {
                push_sym(&mut out, n, 4);
                proof {
                    assert(out@ =~= spec_write(*self, depth as int));
                }
            },
            JValue::Object(VKind::Lit(ref o)) => {
                out.push(0x7B);
                out.push(0x0A);
                let mut i: usize = 0;
                while i < o.entries.len()
                    invariant
                        self.value == JValue::Object(VKind::Lit(*o)),
                        0 <= i <= o.entries@.len(),
                        d2 as int == spec_next_depth(depth as int),
                        out@ == seq![0x7Bu8, 0x0A] + spec_obj_items(
                            o.entries@.subrange(0, i as int),
                            d2 as int,
                        ),
                    decreases o.entries@.len() - i,
                {
                    if i > 0 {
                        out.push(0x2C);
                        out.push(0x0A);
                    }
                    push_indent(&mut out, d2);
                    out.push(0x22);
                    let e = self.escape_string(&o.entries[i].0);
                    push_all(&mut out, &e);
                    out.push(0x22);
                    out.push(0x3A);
                    out.push(0x20);
                    proof {
                        assert(self.value == JValue::Object(VKind::Lit(*o)));
                        lemma_jentries_height(o.entries@);
                        assert(jheight(o.entries@[i as int].1) < jheight(*self));
                    }
                    let piece = o.entries[i].1.write_json(d2);
                    push_all(&mut out, &piece);
                    proof {
                        assert(o.entries@.subrange(0, i + 1).drop_last() =~= o.entries@.subrange(
                            0,
                            i as int,
                        ));
                        assert(o.entries@.subrange(0, i + 1).last() == o.entries@[i as int]);
                        assert(out@ =~= seq![0x7Bu8, 0x0A] + spec_obj_items(
                            o.entries@.subrange(0, i + 1),
                            d2 as int,
                        ));
                    }
                    i += 1;
                }
                proof {
                    assert(o.entries@.subrange(0, o.entries@.len() as int) =~= o.entries@);
                }
                out.push(0x0A);
                push_indent(&mut out, depth);
                out.push(0x7D);
                proof {
                    assert(out@ =~= spec_write(*self, depth as int));
                }
            },
            JValue::Object(VKind::Sym(ref n)) => {
                push_sym(&mut out, n, 5);
                proof {
                    assert(out@ =~= spec_write(*self, depth as int));
                }
            },
            JValue::Func(ref n, ref a) => {
                push_all(&mut out, n);
                out.push(0x28);
                let mut i: usize = 0;
                while i < a.len()
                    invariant
                        self.value == JValue::Func(*n, *a),
                        0 <= i <= a@.len(),
                        out@ == n@ + seq![0x28u8] + spec_func_args(
                            a@.subrange(0, i as int),
                            depth as int,
                        ),
                    decreases a@.len() - i,
                {
                    if i > 0 {
                        out.push(0x2C);
                        out.push(0x20);
                    }
                    proof {
                        lemma_jlist_height(a@);
                        assert(jheight(a@[i as int]) < jheight(*self));
                    }
                    let piece = a[i].write_json(depth);
                    push_all(&mut out, &piece);
                    proof {
                        assert(a@.subrange(0, i + 1).drop_last() =~= a@.subrange(0, i as int));
                        assert(a@.subrange(0, i + 1).last() == a@[i as int]);
                        assert(out@ =~= n@ + seq![0x28u8] + spec_func_args(
                            a@.subrange(0, i + 1),
                            depth as int,
                        ));
                    }
                    i += 1;
                }
                proof {
                    assert(a@.subrange(0, a@.len() as int) =~= a@);
                }
                out.push(0x29);
                proof {
                    assert(out@ =~= spec_write(*self, depth as int));
                }
            },
        }
        out
    }
}

/// The kind word of a symbolic form by tag: bool, int, float, string, array,
/// object.
pub open spec fn sym_kind_word(tag: int) -> Seq<u8> {
    if tag == 0 {
        seq![0x62u8, 0x6F, 0x6F, 0x6C]
    } else if tag == 1 {
        seq![0x69u8, 0x6E, 0x74]
    } else if tag == 2 {
        seq![0x66u8, 0x6C, 0x6F, 0x61, 0x74]
    } else if tag == 3 {
        seq![0x73u8, 0x74, 0x72, 0x69, 0x6E, 0x67]
    } else if tag == 4 {
        seq![0x61u8, 0x72, 0x72, 0x61, 0x79]
    } else {
        seq![0x6Fu8, 0x62, 0x6A, 0x65, 0x63, 0x74]
    }
}

/// Appends a symbolic form `(name: kind)` to `out`.
fn push_sym(out: &mut Vec<u8>, n: &Vec<u8>, tag: usize)
    requires
        tag <= 5,
    ensures
        final(out)@ == old(out)@ + spec_sym(n@, sym_kind_word(tag as int)),
{
    let ghost start = out@;
    out.push(0x28);
    push_all(out, n);
    out.push(0x3A);
    out.push(0x20);
    if tag == 0 {
        out.push(0x62);
        out.push(0x6F);
        out.push(0x6F);
        out.push(0x6C);
    } else if tag == 1 {
        out.push(0x69);
        out.push(0x6E);
        out.push(0x74);
    } else if tag == 2 {
        out.push(0x66);
        out.push(0x6C);
        out.push(0x6F);
        out.push(0x61);
        out.push(0x74);
    } else if tag == 3 {
        out.push(0x73);
        out.push(0x74);
        out.push(0x72);
        out.push(0x69);
        out.push(0x6E);
        out.push(0x67);
    } else if tag == 4 {
        out.push(0x61);
        out.push(0x72);
        out.push(0x72);
        out.push(0x61);
        out.push(0x79);
    } else {
        out.push(0x6F);
        out.push(0x62);
        out.push(0x6A);
        out.push(0x65);
        out.push(0x63);
        out.push(0x74);
    }
    out.push(0x29);
    proof {
        assert(out@ =~= start + spec_sym(n@, sym_kind_word(tag as int)));
    }
}

} // verus!
