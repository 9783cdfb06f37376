//! Round-trip laws: rendering a literal document and parsing the rendered
//! text back yields the same literal value. Proved here for documents whose
//! payload is a null, boolean, integer or string literal — for strings, every
//! accepted escape decodes back to the byte it stood for. The tests exercise
//! the round trip on arrays and objects.
use vstd::prelude::*;

use crate::serialize::{
    esc_byte, hex_digit_lower, spec_escape, spec_i64_str, spec_u_digits, spec_write,
};
use crate::spec_parse::{
    dec_val, digits_end, hex_val, is_digit, is_hex, is_ws, obj_insert, spec_parse,
    spec_parse_array, spec_parse_elems, spec_parse_entries, spec_parse_name, spec_parse_number,
    spec_parse_object, spec_parse_value, spec_skip_ws, spec_str_body, utf8_enc,
};
use crate::value::{doc_view, JValue, Json, SpecDoc, SpecKind, SpecVal, VKind};

verus! {

/// The decimal rendering of a non-negative integer is a non-empty digit run,
/// with no leading zero unless the number is zero itself.
pub proof fn lemma_u_digits_shape(n: int)
    requires
        n >= 0,
    ensures
        spec_u_digits(n).len() >= 1,
        forall|j: int|
            0 <= j < spec_u_digits(n).len() ==> is_digit(#[trigger] spec_u_digits(n)[j]),
        n >= 1 ==> spec_u_digits(n)[0] != 0x30,
        n == 0 ==> spec_u_digits(n) == seq![0x30u8],
    decreases n,
{
    if n >= 10 {
        lemma_u_digits_shape(n / 10);
        assert forall|j: int|
            0 <= j < spec_u_digits(n).len() implies is_digit(
            #[trigger] spec_u_digits(n)[j],
        ) by {
            if j < spec_u_digits(n).len() - 1 {
                assert(spec_u_digits(n)[j] == spec_u_digits(n / 10)[j]);
            }
        }
        assert(spec_u_digits(n)[0] == spec_u_digits(n / 10)[0]);
    } else if n == 0 {
        assert(spec_u_digits(0) =~= seq![0x30u8]);
    }
}

/// The decimal value of a digit run depends only on the bytes of the run:
/// reading the run at an offset inside another buffer gives the same value.
pub proof fn lemma_dec_val_shift(s: Seq<u8>, t: Seq<u8>, off: int, from: int, to: int)
    requires
        forall|j: int| from <= j < to ==> s[j + off] == t[j],
    ensures
        dec_val(s, from + off, to + off) == dec_val(t, from, to),
    decreases to - from,
{
    if from < to {
        lemma_dec_val_shift(s, t, off, from, to - 1);
        assert(s[(to - 1) + off] == t[to - 1]);
    }
}

/// Reading back the decimal rendering of a non-negative integer yields the
/// integer.
pub proof fn lemma_dec_val_of_digits(n: int)
    requires
        n >= 0,
    ensures
        dec_val(spec_u_digits(n), 0, spec_u_digits(n).len() as int) == n,
    decreases n,
{
    let s = spec_u_digits(n);
    if n < 10 {
        assert(dec_val(s, 0, 0) == 0);
        assert(dec_val(s, 0, 1) == s[0] - 0x30);
        assert(s[0] == (0x30 + n) as u8);
    } else {
        lemma_dec_val_of_digits(n / 10);
        let t = spec_u_digits(n / 10);
        assert(s == t.push((0x30 + n % 10) as u8));
        assert(s.len() == t.len() + 1);
        lemma_dec_val_shift(s, t, 0, 0, t.len() as int);
        assert(dec_val(s, 0, s.len() as int) == dec_val(s, 0, t.len() as int) * 10 + (s[s.len()
            - 1] - 0x30));
    }
}

/// A maximal digit run ends exactly where the digits end.
pub proof fn lemma_digits_end_of_run(s: Seq<u8>, from: int, to: int)
    requires
        0 <= from <= to <= s.len(),
        forall|j: int| from <= j < to ==> is_digit(#[trigger] s[j]),
        to == s.len() || !is_digit(s[to]),
    ensures
        digits_end(s, from) == to,
    decreases to - from,
{
    if from < to {
        lemma_digits_end_of_run(s, from + 1, to);
    }
}

/// Round trip for scalar literal documents: rendering a document whose
/// payload is a null, boolean or integer literal, then parsing the rendered
/// text, yields a document with the same literal payload.
pub proof fn lemma_scalar_round_trip(d: Json)
    requires
        d.value matches JValue::Null || d.value matches JValue::Bool(VKind::Lit(_)) || d.value
            matches JValue::Int(VKind::Lit(_)),
    ensures
        spec_parse(spec_write(d, 0)) matches Ok(d2) && d2.val == doc_view(d).val,
{
    let s = spec_write(d, 0);
    match d.value {
        JValue::Null => {
            assert(!is_ws(s[0]));
            assert(spec_skip_ws(s, 0, 1) == (0int, 1int));
            assert(s.subrange(0, 4) =~= seq![0x6Eu8, 0x75, 0x6C, 0x6C]);
            assert(spec_parse_name(s, 0, 1, seq![0x6Eu8, 0x75, 0x6C, 0x6C]) == Ok::<
                int,
                crate::error::ParseError,
            >(4));
            assert(spec_skip_ws(s, 4, 1) == (4int, 1int));
        },
        JValue::Bool(VKind::Lit(b)) => {
            assert(!is_ws(s[0]));
            assert(spec_skip_ws(s, 0, 1) == (0int, 1int));
            if b {
                assert(s.subrange(0, 4) =~= seq![0x74u8, 0x72, 0x75, 0x65]);
                assert(spec_parse_name(s, 0, 1, seq![0x74u8, 0x72, 0x75, 0x65]) == Ok::<
                    int,
                    crate::error::ParseError,
                >(4));
                assert(spec_skip_ws(s, 4, 1) == (4int, 1int));
            } else {
                assert(s.subrange(0, 5) =~= seq![0x66u8, 0x61, 0x6C, 0x73, 0x65]);
                assert(spec_parse_name(s, 0, 1, seq![0x66u8, 0x61, 0x6C, 0x73, 0x65]) == Ok::<
                    int,
                    crate::error::ParseError,
                >(5));
                assert(spec_skip_ws(s, 5, 1) == (5int, 1int));
            }
        },
        JValue::Int(VKind::Lit(v)) => {
            lemma_int_render_reparses(v);
        },
        _ => {},
    }
}

/// Escaping processes the first byte first: the escaped text starts with the
/// first byte's escape, followed by the escape of the rest.
pub proof fn lemma_escape_front(c: Seq<u8>)
    requires
        c.len() >= 1,
    ensures
        spec_escape(c) == esc_byte(c[0]) + spec_escape(c.drop_first()),
    decreases c.len(),
{
    if c.len() == 1 {
        assert(c.drop_last() =~= Seq::<u8>::empty());
        assert(c.drop_first() =~= Seq::<u8>::empty());
        assert(c.last() == c[0]);
        assert(spec_escape(c) =~= esc_byte(c[0]) + spec_escape(c.drop_first()));
    } else {
        lemma_escape_front(c.drop_last());
        assert(c.drop_last()[0] == c[0]);
        assert(c.drop_last().drop_first() =~= c.drop_first().drop_last());
        assert(c.drop_first().last() == c.last());
        assert(spec_escape(c) == spec_escape(c.drop_last()) + esc_byte(c.last()));
        assert(spec_escape(c.drop_first()) == spec_escape(c.drop_first().drop_last()) + esc_byte(
            c.drop_first().last(),
        ));
        assert(spec_escape(c) =~= esc_byte(c[0]) + spec_escape(c.drop_first()));
    }
}

/// Unescaping inverts escaping: a string body that holds the escaped form of
/// `content` followed by a closing quote parses to `content` appended to the
/// accumulator, with the cursor after the quote.
pub proof fn lemma_str_body_unescape(s: Seq<u8>, pos: int, ln: int, acc: Seq<u8>, content: Seq<u8>)
    requires
        0 <= pos,
        pos + spec_escape(content).len() + 1 <= s.len(),
        forall|j: int|
            0 <= j < spec_escape(content).len() ==> s[pos + j] == #[trigger] spec_escape(
                content,
            )[j],
        s[pos + spec_escape(content).len()] == 0x22,
    ensures
        spec_str_body(s, pos, ln, acc) == Ok::<(Seq<u8>, int), crate::error::ParseError>(
            (acc + content, pos + spec_escape(content).len() + 1),
        ),
    decreases content.len(),
{
    let e = spec_escape(content);
    if content.len() == 0 {
        assert(e =~= Seq::<u8>::empty());
        assert(s[pos] == 0x22);
        assert(acc + content =~= acc);
    } else {
        let c0 = content[0];
        let rest = content.drop_first();
        lemma_escape_front(content);
        let eb = esc_byte(c0);
        let er = spec_escape(rest);
        assert(e == eb + er);
        assert(e.len() == eb.len() + er.len());
        let w = eb.len() as int;
        assert forall|j: int| 0 <= j < er.len() implies s[pos + w + j] == #[trigger] er[j] by {
            assert(e[w + j] == er[j]);
            assert(s[pos + (w + j)] == e[w + j]);
        }
        assert(s[pos + w + er.len() as int] == 0x22) by {
            assert(pos + w + er.len() == pos + e.len());
        }
        if c0 == 0x22 || c0 == 0x5C || c0 == 0x0A || c0 == 0x09 || c0 == 0x0D || c0 == 0x08 || c0
            == 0x0C {
            assert(w == 2);
            assert(e[0] == eb[0] && e[1] == eb[1]);
            assert(s[pos + 0] == e[0] && s[pos + 1] == e[1]);
            assert(s[pos] == 0x5C);
            lemma_str_body_unescape(s, pos + 2, ln, acc.push(c0), rest);
            assert(acc.push(c0) + rest =~= acc + content);
        } else if c0 < 0x20 {
            assert(w == 6);
            assert(e[0] == eb[0] && e[1] == eb[1] && e[2] == eb[2] && e[3] == eb[3] && e[4]
                == eb[4] && e[5] == eb[5]);
            assert(s[pos + 0] == e[0] && s[pos + 1] == e[1] && s[pos + 2] == e[2] && s[pos + 3]
                == e[3] && s[pos + 4] == e[4] && s[pos + 5] == e[5]);
            assert(s[pos] == 0x5C && s[pos + 1] == 0x75);
            assert(s[pos + 2] == 0x30 && s[pos + 3] == 0x30);
            let h1 = hex_digit_lower((c0 / 16) as int);
            let h2 = hex_digit_lower((c0 % 16) as int);
            assert(s[pos + 4] == h1 && s[pos + 5] == h2);
            assert(is_hex(h1) && is_hex(h2));
            assert(hex_val(h1) == c0 / 16 && hex_val(h2) == c0 % 16);
            assert(crate::spec_parse::spec_hex4(s, pos + 2, ln) == Ok::<
                int,
                crate::error::ParseError,
            >(c0 as int));
            assert(utf8_enc(c0 as int) =~= seq![c0]);
            lemma_str_body_unescape(s, pos + 6, ln, acc + seq![c0], rest);
            assert(acc + seq![c0] + rest =~= acc + content);
        } else {
            assert(w == 1);
            assert(e[0] == eb[0]);
            assert(s[pos + 0] == e[0]);
            assert(s[pos] == c0);
            assert(c0 != 0x22 && c0 != 0x5C && !(c0 < 0x20));
            lemma_str_body_unescape(s, pos + 1, ln, acc.push(c0), rest);
            assert(acc.push(c0) + rest =~= acc + content);
        }
    }
}

/// Round trip for string literal documents: rendering a document whose
/// payload is a string literal, then parsing the rendered text, yields a
/// document with the same string content — every accepted escape decodes
/// back to the byte it stood for.
pub proof fn lemma_string_round_trip(d: Json)
    requires
        d.value matches JValue::Str(VKind::Lit(_)),
    ensures
        spec_parse(spec_write(d, 0)) matches Ok(d2) && d2.val == doc_view(d).val,
{
    let s = spec_write(d, 0);
    if let JValue::Str(VKind::Lit(sv)) = d.value {
        let content = sv@;
        let e = spec_escape(content);
        assert(s == seq![0x22u8] + e + seq![0x22u8]);
        assert(s.len() == e.len() + 2);
        assert(s[0] == 0x22);
        assert(!is_ws(s[0]));
        assert(spec_skip_ws(s, 0, 1) == (0int, 1int));
        assert(forall|j: int| 0 <= j < e.len() ==> s[1 + j] == #[trigger] e[j]);
        assert(s[1 + e.len() as int] == 0x22);
        lemma_str_body_unescape(s, 1, 1, Seq::empty(), content);
        assert(Seq::<u8>::empty() + content =~= content);
        assert(spec_skip_ws(s, s.len() as int, 1) == (s.len() as int, 1int));
    }
}

/// Rendering an integer literal and parsing the rendered text yields the
/// integer.
proof fn lemma_int_render_reparses(v: i64)
    ensures
        spec_parse(spec_i64_str(v)) matches Ok(d2) && d2.val == SpecVal::Int(SpecKind::Lit(v)),
{
    let s = spec_i64_str(v);
    if v >= 0 {
        let n = v as int;
        lemma_u_digits_shape(n);
        assert(s == spec_u_digits(n));
        assert(is_digit(s[0]));
        assert(!is_ws(s[0]));
        assert(spec_skip_ws(s, 0, 1) == (0int, 1int));
        assert(s[0] != 0x22 && s[0] != 0x7B && s[0] != 0x5B && s[0] != 0x74 && s[0] != 0x66 && s[0]
            != 0x6E);
        lemma_digits_end_of_run(s, 0, s.len() as int);
        lemma_dec_val_of_digits(n);
        if s[0] == 0x30 {
            assert(n == 0) by {
                if n >= 1 {
                    assert(s[0] != 0x30);
                }
            }
            assert(s.len() == 1);
            assert(spec_parse_number(s, 0, 1) == Ok::<
                (SpecVal, int),
                crate::error::ParseError,
            >((SpecVal::Int(SpecKind::Lit(v)), s.len() as int)));
        } else {
            assert(dec_val(s, 0, digits_end(s, 0)) == n);
            assert(spec_parse_number(s, 0, 1) == Ok::<
                (SpecVal, int),
                crate::error::ParseError,
            >((SpecVal::Int(SpecKind::Lit(v)), s.len() as int)));
        }
        assert(spec_skip_ws(s, s.len() as int, 1) == (s.len() as int, 1int));
    } else {
        let m = -(v as int);
        lemma_u_digits_shape(m);
        let t = spec_u_digits(m);
        assert(s == seq![0x2Du8] + t);
        assert(s.len() == t.len() + 1);
        assert(s[0] == 0x2D);
        assert(forall|j: int| 0 <= j < t.len() ==> s[j + 1] == t[j]);
        assert(!is_ws(s[0]));
        assert(spec_skip_ws(s, 0, 1) == (0int, 1int));
        assert(s[0] != 0x22 && s[0] != 0x7B && s[0] != 0x5B && s[0] != 0x74 && s[0] != 0x66 && s[0]
            != 0x6E);
        assert(!is_digit(0x2D));
        assert(forall|j: int| 1 <= j < s.len() ==> is_digit(#[trigger] s[j]));
        assert(m >= 1);
        assert(s[1] == t[0]);
        assert(s[1] != 0x30);
        lemma_digits_end_of_run(s, 1, s.len() as int);
        lemma_dec_val_shift(s, t, 1, 0, t.len() as int);
        lemma_dec_val_of_digits(m);
        assert(dec_val(s, 1, digits_end(s, 1)) == m);
        assert(spec_parse_number(s, 0, 1) == Ok::<(SpecVal, int), crate::error::ParseError>(
            (SpecVal::Int(SpecKind::Lit(v)), s.len() as int),
        ));
        assert(spec_skip_ws(s, s.len() as int, 1) == (s.len() as int, 1int));
    }
}

/// Object keys are unique in this document and in every document nested
/// inside it.
pub open spec fn doc_keys_unique(d: SpecDoc) -> bool
    decreases d,
{
    val_keys_unique(d.val)
}

/// Object keys are unique throughout a payload.
pub open spec fn val_keys_unique(v: SpecVal) -> bool
    decreases v,
{
    match v {
        SpecVal::Array(SpecKind::Lit(ds)) => docs_keys_unique(ds),
        SpecVal::Object(SpecKind::Lit(es)) => pairwise_distinct_keys(es) && entry_docs_keys_unique(
            es,
        ),
        SpecVal::Func(n, ds) => docs_keys_unique(ds),
        _ => true,
    }
}

/// Object keys are unique throughout each document of a sequence.
pub open spec fn docs_keys_unique(ds: Seq<SpecDoc>) -> bool
    decreases ds,
{
    if ds.len() == 0 {
        true
    } else {
        docs_keys_unique(ds.drop_last()) && doc_keys_unique(ds.last())
    }
}

/// No two entries share a key.
pub open spec fn pairwise_distinct_keys(es: Seq<(Seq<u8>, SpecDoc)>) -> bool {
    forall|i: int, j: int| 0 <= i < j < es.len() ==> (#[trigger] es[i]).0 != (#[trigger] es[j]).0
}

/// Object keys are unique throughout each entry's document.
pub open spec fn entry_docs_keys_unique(es: Seq<(Seq<u8>, SpecDoc)>) -> bool
    decreases es,
{
    if es.len() == 0 {
        true
    } else {
        entry_docs_keys_unique(es.drop_last()) && doc_keys_unique(es.last().1)
    }
}

/// Appending a document keeps the sequence property exactly when both hold.
proof fn lemma_docs_keys_unique_push(ds: Seq<SpecDoc>, d: SpecDoc)
    ensures
        docs_keys_unique(ds.push(d)) == (docs_keys_unique(ds) && doc_keys_unique(d)),
{
    assert(ds.push(d).drop_last() =~= ds);
    assert(ds.push(d).last() == d);
}

/// Ordered-map insertion preserves key distinctness and per-entry
/// uniqueness.
proof fn lemma_obj_insert_keys_unique(acc: Seq<(Seq<u8>, SpecDoc)>, k: Seq<u8>, v: SpecDoc)
    requires
        pairwise_distinct_keys(acc),
        entry_docs_keys_unique(acc),
        doc_keys_unique(v),
    ensures
        pairwise_distinct_keys(obj_insert(acc, k, v)),
        entry_docs_keys_unique(obj_insert(acc, k, v)),
{
    crate::object::lemma_find_key(acc, k);
    let i = crate::object::find_key(acc, k);
    if i < 0 {
        let r = acc.push((k, v));
        assert(r.drop_last() =~= acc);
        assert forall|a: int, b: int| 0 <= a < b < r.len() implies (#[trigger] r[a]).0 != (
        #[trigger] r[b]).0 by {
            if b == r.len() - 1 {
                assert(acc[a].0 != k);
            }
        }
    } else {
        let r = acc.update(i, (acc[i].0, v));
        lemma_entry_docs_unique_update(acc, i, v);
        assert forall|a: int, b: int| 0 <= a < b < r.len() implies (#[trigger] r[a]).0 != (
        #[trigger] r[b]).0 by {
            assert(r[a].0 == acc[a].0);
            assert(r[b].0 == acc[b].0);
        }
    }
}

/// Replacing one entry's document with a key-unique one keeps per-entry
/// uniqueness.
proof fn lemma_entry_docs_unique_update(es: Seq<(Seq<u8>, SpecDoc)>, i: int, v: SpecDoc)
    requires
        0 <= i < es.len(),
        entry_docs_keys_unique(es),
        doc_keys_unique(v),
    ensures
        entry_docs_keys_unique(es.update(i, (es[i].0, v))),
    decreases es.len(),
{
    let r = es.update(i, (es[i].0, v));
    if i == es.len() - 1 {
        assert(r.drop_last() =~= es.drop_last());
        assert(r.last() == (es[i].0, v));
    } else {
        assert(r.drop_last() =~= es.drop_last().update(i, (es.drop_last()[i].0, v)));
        assert(r.last() == es.last());
        lemma_entry_docs_unique_update(es.drop_last(), i, v);
    }
}

/// A successfully parsed value has unique object keys throughout.
pub proof fn lemma_parse_value_keys_unique(s: Seq<u8>, pos: int, ln: int)
    requires
        0 <= pos <= s.len(),
    ensures
        spec_parse_value(s, pos, ln) matches Ok((d, p, l)) ==> doc_keys_unique(d),
    decreases s.len() - pos, 2int,
{
    let (p, l) = spec_skip_ws(s, pos, ln);
    if pos <= p <= s.len() && p < s.len() {
        let c = s[p];
        if c == 0x7B {
            lemma_parse_object_keys_unique(s, p, l);
        } else if c == 0x5B {
            lemma_parse_array_keys_unique(s, p, l);
        }
    }
}

/// A successfully parsed array has unique object keys throughout.
pub proof fn lemma_parse_array_keys_unique(s: Seq<u8>, pos: int, ln: int)
    requires
        0 <= pos <= s.len(),
    ensures
        spec_parse_array(s, pos, ln) matches Ok((d, p, l)) ==> doc_keys_unique(d),
    decreases s.len() - pos, 0int,
{
    if 0 <= pos < s.len() && s[pos] == 0x5B {
        crate::spec_parse::lemma_skip_ws(s, pos + 1, ln);
        let (p, l) = spec_skip_ws(s, pos + 1, ln);
        if !(p < s.len() && s[p] == 0x5D) {
            lemma_parse_elems_keys_unique(s, p, l, Seq::empty());
        }
    }
}

/// A successfully parsed element list extends a key-unique accumulator into
/// a key-unique list.
pub proof fn lemma_parse_elems_keys_unique(s: Seq<u8>, pos: int, ln: int, acc: Seq<SpecDoc>)
    requires
        0 <= pos <= s.len(),
        docs_keys_unique(acc),
    ensures
        spec_parse_elems(s, pos, ln, acc) matches Ok((docs, p, l)) ==> docs_keys_unique(docs),
    decreases s.len() - pos, 3int,
{
    lemma_parse_value_keys_unique(s, pos, ln);
    crate::spec_parse::lemma_value_bounds(s, pos, ln);
    if let Ok((d, p1, l1)) = spec_parse_value(s, pos, ln) {
        lemma_docs_keys_unique_push(acc, d);
        if pos < p1 <= s.len() && p1 < s.len() && s[p1] == 0x2C {
            crate::spec_parse::lemma_skip_ws(s, p1 + 1, l1);
            let (pc, lc) = spec_skip_ws(s, p1 + 1, l1);
            if !(pc < s.len() && s[pc] == 0x5D) {
                lemma_parse_elems_keys_unique(s, pc, lc, acc.push(d));
            }
        }
    }
}

/// A successfully parsed object has unique keys, and unique object keys
/// throughout its entries.
pub proof fn lemma_parse_object_keys_unique(s: Seq<u8>, pos: int, ln: int)
    requires
        0 <= pos <= s.len(),
    ensures
        spec_parse_object(s, pos, ln) matches Ok((d, p, l)) ==> doc_keys_unique(d),
    decreases s.len() - pos, 0int,
{
    if 0 <= pos < s.len() && s[pos] == 0x7B {
        crate::spec_parse::lemma_skip_ws(s, pos + 1, ln);
        let (p, l) = spec_skip_ws(s, pos + 1, ln);
        if !(p < s.len() && s[p] == 0x7D) {
            lemma_parse_entries_keys_unique(s, p, l, Seq::empty());
        }
    }
}

/// A successfully parsed entry list keeps keys distinct and every nested
/// document key-unique, starting from an accumulator with those properties.
pub proof fn lemma_parse_entries_keys_unique(
    s: Seq<u8>,
    pos: int,
    ln: int,
    acc: Seq<(Seq<u8>, SpecDoc)>,
)
    requires
        0 <= pos <= s.len(),
        pairwise_distinct_keys(acc),
        entry_docs_keys_unique(acc),
    ensures
        spec_parse_entries(s, pos, ln, acc) matches Ok((es, p, l)) ==> (pairwise_distinct_keys(es)
            && entry_docs_keys_unique(es)),
    decreases s.len() - pos, 3int,
{
    crate::spec_parse::lemma_value_bounds(s, pos, ln);
    if let Ok((kd, p1, l1)) = spec_parse_value(s, pos, ln) {
        if pos < p1 <= s.len() && p1 < s.len() && s[p1] == 0x3A {
            if let SpecVal::Str(SpecKind::Lit(k)) = kd.val {
                lemma_parse_value_keys_unique(s, p1 + 1, l1);
                crate::spec_parse::lemma_value_bounds(s, p1 + 1, l1);
                if let Ok((vd, p2, l2)) = spec_parse_value(s, p1 + 1, l1) {
                    lemma_obj_insert_keys_unique(acc, k, vd);
                    if p1 + 1 < p2 <= s.len() && p2 < s.len() && s[p2] == 0x2C {
                        lemma_parse_entries_keys_unique(s, p2 + 1, l2, obj_insert(acc, k, vd));
                    }
                }
            }
        }
    }
}

/// A whole parse run yields a document with unique object keys throughout:
/// duplicate keys in the input were replaced in place, never duplicated.
pub proof fn lemma_parse_keys_unique(s: Seq<u8>)
    ensures
        spec_parse(s) matches Ok(d) ==> doc_keys_unique(d),
{
    lemma_parse_value_keys_unique(s, 0, 1);
}

} // verus!
