//! The value model: a parsed document node (`Json`), its tagged-union payload
//! (`JValue`), the literal-vs-symbolic distinction (`VKind`), the
//! insertion-order-preserving object container (`JObject`), and the parser
//! state (`JParser`), together with their mathematical views.
use vstd::prelude::*;

verus! {

/// A concrete compile-time constant (`Lit`) or a named reference left for a
/// later resolution phase (`Sym`). The parser only ever produces `Lit`.
pub enum VKind<T> {
    Lit(T),
    Sym(Vec<u8>),
}

/// The payload of a document node. Text-like payloads (strings, symbolic
/// names, float lexemes) are carried as UTF-8 bytes, matching the byte-offset
/// cursor the parser runs on. A float literal is kept as its source lexeme:
/// the front end never computes with it.
pub enum JValue {
    Null,
    Bool(VKind<bool>),
    Int(VKind<i64>),
    Float(VKind<Vec<u8>>),
    Str(VKind<Vec<u8>>),
    Array(VKind<Vec<Json>>),
    Object(VKind<JObject>),
    Func(Vec<u8>, Vec<Json>),
}

/// A parsed value tagged with the byte offset and 1-based line number where
/// its text begins.
pub struct Json {
    pub pos: usize,
    pub ln: usize,
    pub value: JValue,
}

/// An insertion-order-preserving, key-unique mapping from byte-string keys to
/// document nodes. Treat `entries` as read-only outside this crate and mutate
/// only through the methods, which keep the keys unique.
pub struct JObject {
    pub entries: Vec<(Vec<u8>, Json)>,
}

/// Cursor state for one parse run: the input bytes, the current byte offset,
/// and the current 1-based line number.
pub struct JParser {
    pub input: Vec<u8>,
    pub pos: usize,
    pub ln: usize,
}

/// Ghost mirror of `VKind` over mathematical sequences.
#[verifier::ext_equal]
pub enum SpecKind<T> {
    Lit(T),
    Sym(Seq<u8>),
}

/// Ghost mirror of `JValue`.
#[verifier::ext_equal]
pub enum SpecVal {
    Null,
    Bool(SpecKind<bool>),
    Int(SpecKind<i64>),
    Float(SpecKind<Seq<u8>>),
    Str(SpecKind<Seq<u8>>),
    Array(SpecKind<Seq<SpecDoc>>),
    Object(SpecKind<Seq<(Seq<u8>, SpecDoc)>>),
    Func(Seq<u8>, Seq<SpecDoc>),
}

/// Ghost mirror of `Json`: the mathematical shape of a document node.
#[verifier::ext_equal]
pub struct SpecDoc {
    pub pos: int,
    pub ln: int,
    pub val: SpecVal,
}

/// The mathematical value of a document node.
pub open spec fn doc_view(d: Json) -> SpecDoc
    decreases d,
{
    SpecDoc { pos: d.pos as int, ln: d.ln as int, val: val_view(d.value) }
}

/// The mathematical value of a payload.
pub open spec fn val_view(v: JValue) -> SpecVal
    decreases v,
{
    match v {
        JValue::Null => SpecVal::Null,
        JValue::Bool(VKind::Lit(b)) => SpecVal::Bool(SpecKind::Lit(b)),
        JValue::Bool(VKind::Sym(n)) => SpecVal::Bool(SpecKind::Sym(n@)),
        JValue::Int(VKind::Lit(i)) => SpecVal::Int(SpecKind::Lit(i)),
        JValue::Int(VKind::Sym(n)) => SpecVal::Int(SpecKind::Sym(n@)),
        JValue::Float(VKind::Lit(x)) => SpecVal::Float(SpecKind::Lit(x@)),
        JValue::Float(VKind::Sym(n)) => SpecVal::Float(SpecKind::Sym(n@)),
        JValue::Str(VKind::Lit(s)) => SpecVal::Str(SpecKind::Lit(s@)),
        JValue::Str(VKind::Sym(n)) => SpecVal::Str(SpecKind::Sym(n@)),
        JValue::Array(VKind::Lit(a)) => SpecVal::Array(SpecKind::Lit(docs_view(a@))),
        JValue::Array(VKind::Sym(n)) => SpecVal::Array(SpecKind::Sym(n@)),
        JValue::Object(VKind::Lit(o)) => SpecVal::Object(SpecKind::Lit(entries_view(o.entries@))),
        JValue::Object(VKind::Sym(n)) => SpecVal::Object(SpecKind::Sym(n@)),
        JValue::Func(n, a) => SpecVal::Func(n@, docs_view(a@)),
    }
}

/// The mathematical value of a sequence of document nodes.
pub open spec fn docs_view(s: Seq<Json>) -> Seq<SpecDoc>
    decreases s,
{
    if s.len() == 0 {
        Seq::empty()
    } else {
        docs_view(s.drop_last()).push(doc_view(s.last()))
    }
}

/// The mathematical value of an object's entry list.
pub open spec fn entries_view(s: Seq<(Vec<u8>, Json)>) -> Seq<(Seq<u8>, SpecDoc)>
    decreases s,
{
    if s.len() == 0 {
        Seq::empty()
    } else {
        entries_view(s.drop_last()).push((s.last().0@, doc_view(s.last().1)))
    }
}

/// `docs_view` is pointwise `doc_view`.
pub proof fn lemma_docs_view(s: Seq<Json>)
    ensures
        docs_view(s).len() == s.len(),
        forall|i: int| 0 <= i < s.len() ==> docs_view(s)[i] == doc_view(#[trigger] s[i]),
    decreases s,
{
    if s.len() > 0 {
        lemma_docs_view(s.drop_last());
        assert forall|i: int| 0 <= i < s.len() implies docs_view(s)[i] == doc_view(
            #[trigger] s[i],
        ) by {
            if i < s.len() - 1 {
                assert(s.drop_last()[i] == s[i]);
            } else {
                assert(s.last() == s[i]);
            }
        }
    }
}

/// The height of a document node, for termination of executable recursion
/// over the tree.
pub open spec fn jheight(d: Json) -> nat
    decreases d,
{
    1 + jval_height(d.value)
}

/// The height of a payload.
pub open spec fn jval_height(v: JValue) -> nat
    decreases v,
{
    match v {
        JValue::Array(VKind::Lit(a)) => 1 + jlist_height(a@),
        JValue::Object(VKind::Lit(o)) => 1 + jentries_height(o.entries@),
        JValue::Func(n, a) => 1 + jlist_height(a@),
        _ => 0,
    }
}

/// The height of the tallest node in a sequence.
pub open spec fn jlist_height(s: Seq<Json>) -> nat
    decreases s,
{
    if s.len() == 0 {
        0
    } else {
        let h1 = jlist_height(s.drop_last());
        let h2 = jheight(s.last());
        if h1 > h2 {
            h1
        } else {
            h2
        }
    }
}

/// The height of the tallest node among an object's entries.
pub open spec fn jentries_height(s: Seq<(Vec<u8>, Json)>) -> nat
    decreases s,
{
    if s.len() == 0 {
        0
    } else {
        let h1 = jentries_height(s.drop_last());
        let h2 = jheight(s.last().1);
        if h1 > h2 {
            h1
        } else {
            h2
        }
    }
}

/// Every node of a sequence fits under the sequence's height.
pub proof fn lemma_jlist_height(s: Seq<Json>)
    ensures
        forall|i: int| 0 <= i < s.len() ==> jheight(#[trigger] s[i]) <= jlist_height(s),
    decreases s,
{
    if s.len() > 0 {
        lemma_jlist_height(s.drop_last());
        assert forall|i: int| 0 <= i < s.len() implies jheight(#[trigger] s[i]) <= jlist_height(
            s,
        ) by {
            if i < s.len() - 1 {
                assert(s.drop_last()[i] == s[i]);
            } else {
                assert(s.last() == s[i]);
            }
        }
    }
}

/// Every entry's node fits under the entry sequence's height.
pub proof fn lemma_jentries_height(s: Seq<(Vec<u8>, Json)>)
    ensures
        forall|i: int| 0 <= i < s.len() ==> jheight((#[trigger] s[i]).1) <= jentries_height(s),
    decreases s,
{
    if s.len() > 0 {
        lemma_jentries_height(s.drop_last());
        assert forall|i: int| 0 <= i < s.len() implies jheight((#[trigger] s[i]).1)
            <= jentries_height(s) by {
            if i < s.len() - 1 {
                assert(s.drop_last()[i] == s[i]);
            } else {
                assert(s.last() == s[i]);
            }
        }
    }
}

/// Appending a node appends its view.
pub proof fn lemma_docs_view_push(s: Seq<Json>, x: Json)
    ensures
        docs_view(s.push(x)) == docs_view(s).push(doc_view(x)),
{
    assert(s.push(x).drop_last() =~= s);
    assert(s.push(x).last() == x);
}

/// `entries_view` is pointwise the view of the pair.
pub proof fn lemma_entries_view(s: Seq<(Vec<u8>, Json)>)
    ensures
        entries_view(s).len() == s.len(),
        forall|i: int|
            0 <= i < s.len() ==> entries_view(s)[i] == (
            #[trigger] s[i].0@,
            doc_view(s[i].1),
            ),
    decreases s,
{
    if s.len() > 0 {
        lemma_entries_view(s.drop_last());
        assert forall|i: int| 0 <= i < s.len() implies entries_view(s)[i] == (
            #[trigger] s[i].0@,
            doc_view(s[i].1),
        ) by {
            if i < s.len() - 1 {
                assert(s.drop_last()[i] == s[i]);
            } else {
                assert(s.last() == s[i]);
            }
        }
    }
}

} // verus!
