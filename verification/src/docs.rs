//! Small builders of document lists, with their views.
use vstd::prelude::*;

use crate::ir::{doc_view, docs_view, lemma_docs_view_push, mk_concat, Doc, DocView};

verus! {

broadcast use vstd::std_specs::vec::group_vec_axioms;

/// The view of an optional document.
pub open spec fn opt_view(d: Option<Doc>) -> Option<DocView> {
    match d {
        Some(x) => Some(x@),
        None => None,
    }
}

/// The view of an optional list of documents.
pub open spec fn opt_docs_view(d: Option<Vec<Doc>>) -> Option<Seq<DocView>> {
    match d {
        Some(v) => Some(docs_view(v@)),
        None => None,
    }
}

/// The views of a concatenation are the concatenation of the views.
pub proof fn lemma_docs_view_add(a: Seq<Doc>, b: Seq<Doc>)
    ensures
        docs_view(a + b) == docs_view(a) + docs_view(b),
    decreases b.len(),
{
    if b.len() == 0 {
        assert(a + b =~= a);
        assert(docs_view(a) + docs_view(b) =~= docs_view(a));
    } else {
        lemma_docs_view_add(a, b.drop_last());
        assert((a + b).drop_last() =~= a + b.drop_last());
        assert((a + b).last() == b.last());
        assert(docs_view(a) + docs_view(b) =~= (docs_view(a) + docs_view(b.drop_last())).push(
            doc_view(b.last()),
        ));
    }
}

/// Append `d` to `parts`.
pub fn push_doc(parts: &mut Vec<Doc>, d: Doc)
    ensures
        docs_view(final(parts)@) == docs_view(old(parts)@).push(d@),
{
    proof {
        lemma_docs_view_push(parts@, d);
    }
    parts.push(d);
}

/// Append all of `more` to `parts`.
pub fn append_docs(parts: &mut Vec<Doc>, more: Vec<Doc>)
    ensures
        docs_view(final(parts)@) == docs_view(old(parts)@) + docs_view(more@),
{
    let mut more = more;
    proof {
        lemma_docs_view_add(parts@, more@);
    }
    parts.append(&mut more);
}

/// A list of one document.
pub fn dv1(a: Doc) -> (r: Vec<Doc>)
    ensures
        docs_view(r@) == seq![a@],
{
    let mut v: Vec<Doc> = Vec::new();
    push_doc(&mut v, a);
    v
}

/// A list of two documents.
pub fn dv2(a: Doc, b: Doc) -> (r: Vec<Doc>)
    ensures
        docs_view(r@) == seq![a@, b@],
{
    let mut v = dv1(a);
    push_doc(&mut v, b);
    v
}

/// A list of three documents.
pub fn dv3(a: Doc, b: Doc, c: Doc) -> (r: Vec<Doc>)
    ensures
        docs_view(r@) == seq![a@, b@, c@],
{
    let mut v = dv2(a, b);
    push_doc(&mut v, c);
    v
}

/// A list of four documents.
pub fn dv4(a: Doc, b: Doc, c: Doc, d: Doc) -> (r: Vec<Doc>)
    ensures
        docs_view(r@) == seq![a@, b@, c@, d@],
{
    let mut v = dv3(a, b, c);
    push_doc(&mut v, d);
    v
}

/// A list of five documents.
pub fn dv5(a: Doc, b: Doc, c: Doc, d: Doc, e: Doc) -> (r: Vec<Doc>)
    ensures
        docs_view(r@) == seq![a@, b@, c@, d@, e@],
{
    let mut v = dv4(a, b, c, d);
    push_doc(&mut v, e);
    v
}

/// The optional document as a list of at most one.
pub fn opt_vec(d: Option<Doc>) -> (r: Vec<Doc>)
    ensures
        docs_view(r@) == crate::layout::opt_seq(opt_view(d)),
{
    match d {
        Some(x) => dv1(x),
        None => Vec::new(),
    }
}

/// `[pre, d]` if `d` is present, else nothing.
pub fn opt_after_vec(pre: Doc, d: Option<Doc>) -> (r: Vec<Doc>)
    ensures
        docs_view(r@) == crate::layout::opt_after(pre@, opt_view(d)),
{
    match d {
        Some(x) => dv2(pre, x),
        None => Vec::new(),
    }
}

/// The concatenation of a list.
pub fn cat(parts: Vec<Doc>) -> (r: Doc)
    ensures
        r@ == mk_concat(docs_view(parts@)),
{
    Doc::concat(parts)
}

} // verus!
