//! Intermediate representation for pretty-printing.
//!
//! A Wadler-Lindig style document algebra. The formatter builds a `Doc`
//! tree and the printer consumes it, choosing where to break lines based on
//! the available width.
//!
//! Every `Doc` has a mathematical view, `DocView`, in which strings are
//! sequences of characters and child lists are sequences of views. All
//! contracts of the library are stated over that view.
use vstd::prelude::*;

verus! {

broadcast use vstd::std_specs::vec::group_vec_axioms;

/// A pretty-printing document.
///
/// Documents are built by the formatter and consumed by the printer.
/// They form an immutable tree describing *what* to print and *where*
/// line breaks are permitted.
#[derive(Debug)]
pub enum Doc {
    /// Literal text, printed exactly as-is and never broken.
    Text(String),
    /// A hard line break: always a newline plus the current indentation.
    Hardline,
    /// A soft line break: `flat_alt` in flat mode, a newline in break mode.
    Softline { flat_alt: String },
    /// A sequence of documents printed one after another.
    Concat(Vec<Doc>),
    /// Increase the indentation level for the contents.
    Indent(Box<Doc>),
    /// Increase the indentation by an arbitrary number of spaces.
    Align(usize, Box<Doc>),
    /// Print the contents flat if they fit on the line, broken otherwise.
    Group(Box<Doc>),
    /// Printed exactly like `Group`.
    ConditionalGroup(Box<Doc>),
    /// Forces the enclosing group to break; prints nothing.
    BreakParent,
    /// `break_contents` when the enclosing group breaks, `flat_contents` otherwise.
    IfBreak { break_contents: Box<Doc>, flat_contents: Box<Doc> },
    /// Content deferred to the end of the current line (trailing comments).
    LineSuffix(Box<Doc>),
    /// Flushes pending line suffixes onto a line of their own.
    LineSuffixBoundary,
    /// Source text printed exactly, internal newlines included.
    Verbatim(String),
    /// Layout variants: the first whose lines all fit is printed, else the last.
    BestOf(Vec<Doc>),
    /// Prints nothing.
    Empty,
}

/// The mathematical value of a `Doc`.
#[verifier::ext_equal]
pub enum DocView {
    Text(Seq<char>),
    Hardline,
    Softline(Seq<char>),
    Concat(Seq<DocView>),
    Indent(Box<DocView>),
    Align(nat, Box<DocView>),
    Group(Box<DocView>),
    ConditionalGroup(Box<DocView>),
    BreakParent,
    IfBreak(Box<DocView>, Box<DocView>),
    LineSuffix(Box<DocView>),
    LineSuffixBoundary,
    Verbatim(Seq<char>),
    BestOf(Seq<DocView>),
    Empty,
}

/// The view of a document.
pub open spec fn doc_view(d: Doc) -> DocView
    decreases d,
{
    match d {
        Doc::Text(s) => DocView::Text(s@),
        Doc::Hardline => DocView::Hardline,
        Doc::Softline { flat_alt } => DocView::Softline(flat_alt@),
        Doc::Concat(v) => DocView::Concat(docs_view(v@)),
        Doc::Indent(b) => DocView::Indent(Box::new(doc_view(*b))),
        Doc::Align(n, b) => DocView::Align(n as nat, Box::new(doc_view(*b))),
        Doc::Group(b) => DocView::Group(Box::new(doc_view(*b))),
        Doc::ConditionalGroup(b) => DocView::ConditionalGroup(Box::new(doc_view(*b))),
        Doc::BreakParent => DocView::BreakParent,
        Doc::IfBreak { break_contents, flat_contents } => DocView::IfBreak(
            Box::new(doc_view(*break_contents)),
            Box::new(doc_view(*flat_contents)),
        ),
        Doc::LineSuffix(b) => DocView::LineSuffix(Box::new(doc_view(*b))),
        Doc::LineSuffixBoundary => DocView::LineSuffixBoundary,
        Doc::Verbatim(s) => DocView::Verbatim(s@),
        Doc::BestOf(v) => DocView::BestOf(docs_view(v@)),
        Doc::Empty => DocView::Empty,
    }
}

/// The views of a sequence of documents, element by element.
pub open spec fn docs_view(ds: Seq<Doc>) -> Seq<DocView>
    decreases ds,
{
    if ds.len() == 0 {
        seq![]
    } else {
        docs_view(ds.drop_last()).push(doc_view(ds.last()))
    }
}

impl View for Doc {
    type V = DocView;

    open spec fn view(&self) -> DocView {
        doc_view(*self)
    }
}

/// `docs_view` maps each element to its view.
pub proof fn lemma_docs_view(ds: Seq<Doc>)
    ensures
        docs_view(ds).len() == ds.len(),
        forall|i: int| 0 <= i < ds.len() ==> #[trigger] docs_view(ds)[i] == doc_view(ds[i]),
    decreases ds.len(),
{
    if ds.len() > 0 {
        lemma_docs_view(ds.drop_last());
    }
}

/// The views of a prefix are the prefix of the views.
pub proof fn lemma_docs_view_push(ds: Seq<Doc>, d: Doc)
    ensures
        docs_view(ds.push(d)) == docs_view(ds).push(doc_view(d)),
{
    assert(ds.push(d).drop_last() =~= ds);
}

/// The views of a one-longer prefix.
pub proof fn lemma_docs_view_take_step(ds: Seq<Doc>, k: int)
    requires
        0 <= k < ds.len(),
    ensures
        docs_view(ds.take(k + 1)) == docs_view(ds.take(k)).push(doc_view(ds[k])),
{
    assert(ds.take(k + 1).drop_last() =~= ds.take(k));
}

// ── The smart concatenation ─────────────────────────────────────────────

/// The non-empty elements of `ds`, in order.
pub open spec fn non_empty(ds: Seq<DocView>) -> Seq<DocView>
    decreases ds.len(),
{
    if ds.len() == 0 {
        seq![]
    } else {
        let prev = non_empty(ds.drop_last());
        if ds.last() is Empty {
            prev
        } else {
            prev.push(ds.last())
        }
    }
}

/// The parts of a concatenation after one level of flattening: empty
/// documents are dropped and the (non-empty) children of a nested
/// concatenation take its place.
pub open spec fn concat_parts(ds: Seq<DocView>) -> Seq<DocView>
    decreases ds.len(),
{
    if ds.len() == 0 {
        seq![]
    } else {
        let prev = concat_parts(ds.drop_last());
        match ds.last() {
            DocView::Empty => prev,
            DocView::Concat(inner) => prev + non_empty(inner),
            other => prev.push(other),
        }
    }
}

/// The document that `Doc::concat` builds from parts with views `ds`.
pub open spec fn mk_concat(ds: Seq<DocView>) -> DocView {
    let parts = concat_parts(ds);
    if parts.len() == 0 {
        DocView::Empty
    } else if parts.len() == 1 {
        parts[0]
    } else {
        DocView::Concat(parts)
    }
}

/// `ds` with `sep` between each adjacent pair.
pub open spec fn interleave(sep: DocView, ds: Seq<DocView>) -> Seq<DocView>
    decreases ds.len(),
{
    if ds.len() == 0 {
        seq![]
    } else if ds.len() == 1 {
        ds
    } else {
        interleave(sep, ds.drop_last()).push(sep).push(ds.last())
    }
}

/// A comma.
pub open spec fn comma_view() -> DocView {
    DocView::Text(seq![','])
}

/// A soft line that prints a single space when flat.
pub open spec fn space_line_view() -> DocView {
    DocView::Softline(seq![' '])
}

/// `ds` with a comma and a soft line between each adjacent pair.
pub open spec fn comma_interleave(ds: Seq<DocView>) -> Seq<DocView>
    decreases ds.len(),
{
    if ds.len() == 0 {
        seq![]
    } else if ds.len() == 1 {
        ds
    } else {
        comma_interleave(ds.drop_last()).push(comma_view()).push(space_line_view()).push(
            ds.last(),
        )
    }
}

/// One more element appended to the parts of a concatenation.
pub proof fn lemma_concat_parts_push(ds: Seq<DocView>, d: DocView)
    ensures
        concat_parts(ds.push(d)) == (match d {
            DocView::Empty => concat_parts(ds),
            DocView::Concat(inner) => concat_parts(ds) + non_empty(inner),
            other => concat_parts(ds).push(other),
        }),
{
    assert(ds.push(d).drop_last() =~= ds);
}

/// One more element appended to a filtered sequence.
pub proof fn lemma_non_empty_push(ds: Seq<DocView>, d: DocView)
    ensures
        non_empty(ds.push(d)) == (if d is Empty {
            non_empty(ds)
        } else {
            non_empty(ds).push(d)
        }),
{
    assert(ds.push(d).drop_last() =~= ds);
}

/// One more element appended to an interleaving.
pub proof fn lemma_interleave_push(sep: DocView, ds: Seq<DocView>, d: DocView)
    ensures
        interleave(sep, ds.push(d)) == (if ds.len() == 0 {
            seq![d]
        } else {
            interleave(sep, ds).push(sep).push(d)
        }),
{
    assert(ds.push(d).drop_last() =~= ds);
    if ds.len() == 0 {
        assert(ds.push(d) =~= seq![d]);
    }
}

/// One more element appended to a comma interleaving.
pub proof fn lemma_comma_interleave_push(ds: Seq<DocView>, d: DocView)
    ensures
        comma_interleave(ds.push(d)) == (if ds.len() == 0 {
            seq![d]
        } else {
            comma_interleave(ds).push(comma_view()).push(space_line_view()).push(d)
        }),
{
    assert(ds.push(d).drop_last() =~= ds);
    if ds.len() == 0 {
        assert(ds.push(d) =~= seq![d]);
    }
}

/// The view of `Doc::text(s)`.
pub open spec fn text_view(s: Seq<char>) -> DocView {
    if s.len() == 0 {
        DocView::Empty
    } else {
        DocView::Text(s)
    }
}

/// A copy of `d` with the same view.
pub fn clone_doc(d: &Doc) -> (r: Doc)
    ensures
        r@ == d@,
    decreases d,
{
    match d {
        Doc::Text(s) => Doc::Text(s.clone()),
        Doc::Hardline => Doc::Hardline,
        Doc::Softline { flat_alt } => Doc::Softline { flat_alt: flat_alt.clone() },
        Doc::Concat(v) => Doc::Concat(clone_docs(v)),
        Doc::Indent(b) => Doc::Indent(Box::new(clone_doc(b))),
        Doc::Align(n, b) => Doc::Align(*n, Box::new(clone_doc(b))),
        Doc::Group(b) => Doc::Group(Box::new(clone_doc(b))),
        Doc::ConditionalGroup(b) => Doc::ConditionalGroup(Box::new(clone_doc(b))),
        Doc::BreakParent => Doc::BreakParent,
        Doc::IfBreak { break_contents, flat_contents } => Doc::IfBreak {
            break_contents: Box::new(clone_doc(break_contents)),
            flat_contents: Box::new(clone_doc(flat_contents)),
        },
        Doc::LineSuffix(b) => Doc::LineSuffix(Box::new(clone_doc(b))),
        Doc::LineSuffixBoundary => Doc::LineSuffixBoundary,
        Doc::Verbatim(s) => Doc::Verbatim(s.clone()),
        Doc::BestOf(v) => Doc::BestOf(clone_docs(v)),
        Doc::Empty => Doc::Empty,
    }
}

/// Copies of the documents in `v`, with the same views.
pub fn clone_docs(v: &Vec<Doc>) -> (r: Vec<Doc>)
    ensures
        docs_view(r@) == docs_view(v@),
    decreases v,
{
    let mut out: Vec<Doc> = Vec::new();
    let mut i: usize = 0;
    while i < v.len()
        invariant
            i <= v.len(),
            docs_view(out@) == docs_view(v@.take(i as int)),
        decreases v.len() - i,
    {
        assert(decreases_to!(v => v@[i as int]));
        let c = clone_doc(&v[i]);
        proof {
            lemma_docs_view_push(out@, c);
            lemma_docs_view_push(v@.take(i as int), v@[i as int]);
            assert(v@.take(i as int).push(v@[i as int]) =~= v@.take(i + 1));
        }
        out.push(c);
        i += 1;
    }
    assert(v@.take(v.len() as int) =~= v@);
    out
}

impl Clone for Doc {
    fn clone(&self) -> (r: Doc)
        ensures
            r@ == self@,
    {
        clone_doc(self)
    }
}

// ── Convenience constructors ────────────────────────────────────────────

impl Doc {
    /// Literal text; the empty string gives `Empty`.
    pub fn text(s: &str) -> (r: Doc)
        ensures
            r@ == text_view(s@),
    {
        if s.is_empty() {
            Doc::Empty
        } else {
            Doc::Text(s.to_owned())
        }
    }

    /// A hard line break (always breaks).
    pub fn hardline() -> (r: Doc)
        ensures
            r@ == DocView::Hardline,
    {
        Doc::Hardline
    }

    /// A soft line: prints `" "` when flat, a newline when broken.
    pub fn softline() -> (r: Doc)
        ensures
            r@ == space_line_view(),
    {
        let s = " ".to_owned();
        proof {
            reveal_strlit(" ");
        }
        Doc::Softline { flat_alt: s }
    }

    /// A soft line that prints nothing when flat, a newline when broken.
    pub fn softline_empty() -> (r: Doc)
        ensures
            r@ == DocView::Softline(Seq::empty()),
    {
        Doc::Softline { flat_alt: String::new() }
    }

    /// A soft line that prints `flat` when flat, a newline when broken.
    pub fn line_or(flat: &str) -> (r: Doc)
        ensures
            r@ == DocView::Softline(flat@),
    {
        Doc::Softline { flat_alt: flat.to_owned() }
    }

    /// Concatenate documents, dropping empty ones and flattening one level
    /// of nested concatenation.
    pub fn concat(docs: Vec<Doc>) -> (r: Doc)
        ensures
            r@ == mk_concat(docs_view(docs@)),
    {
        let mut flat: Vec<Doc> = Vec::new();
        let ghost orig = docs@;
        let ghost mut seen: Seq<Doc> = Seq::empty();
        for d in it: docs
            invariant
                it.seq() == orig,
                seen == it.seq().take(it.index() as int),
                docs_view(flat@) == concat_parts(docs_view(it.seq().take(it.index() as int))),
        {
            let ghost prev = flat@;
            let ghost k = it.index() as int;
            proof {
                assert(0 <= k < it.seq().len());
                assert(d == it.seq()[k]);
                lemma_docs_view_take_step(it.seq(), k);
                lemma_concat_parts_push(docs_view(it.seq().take(k)), doc_view(d));
                seen = seen.push(d);
            }
            match d {
                Doc::Empty => {},
                Doc::Concat(inner) => {
                    let ghost inner_seq = inner@;
                    let ghost mut seen2: Seq<Doc> = Seq::empty();
                    for d2 in it2: inner
                        invariant
                            it2.seq() == inner_seq,
                            seen2 == it2.seq().take(it2.index() as int),
                            docs_view(flat@) == docs_view(prev) + non_empty(
                                docs_view(it2.seq().take(it2.index() as int)),
                            ),
                    {
                        proof {
                            lemma_docs_view_take_step(it2.seq(), it2.index() as int);
                            lemma_non_empty_push(
                                docs_view(it2.seq().take(it2.index() as int)),
                                doc_view(d2),
                            );
                        }
                        proof {
                            seen2 = seen2.push(d2);
                        }
                        if !matches!(d2, Doc::Empty) {
                            proof {
                                lemma_docs_view_push(flat@, d2);
                            }
                            flat.push(d2);
                        }
                    }
                    proof {
                        assert(seen2 =~= inner_seq);
                    }
                },
                other => {
                    proof {
                        lemma_docs_view_push(flat@, other);
                    }
                    flat.push(other);
                },
            }
        }
        proof {
            lemma_docs_view(flat@);
            assert(seen =~= orig);
        }
        if flat.len() == 0 {
            Doc::Empty
        } else if flat.len() == 1 {
            flat.pop().unwrap()
        } else {
            Doc::Concat(flat)
        }
    }

    /// Indent contents by one level.
    pub fn indent(doc: Doc) -> (r: Doc)
        ensures
            r@ == DocView::Indent(Box::new(doc@)),
    {
        Doc::Indent(Box::new(doc))
    }

    /// Indent contents by `n` spaces; `n == 0` leaves `doc` as it is.
    pub fn align(n: usize, doc: Doc) -> (r: Doc)
        ensures
            n == 0 ==> r@ == doc@,
            n != 0 ==> r@ == DocView::Align(n as nat, Box::new(doc@)),
    {
        if n == 0 {
            doc
        } else {
            Doc::Align(n, Box::new(doc))
        }
    }

    /// Group: try flat, break if it does not fit.
    pub fn group(doc: Doc) -> (r: Doc)
        ensures
            r@ == DocView::Group(Box::new(doc@)),
    {
        Doc::Group(Box::new(doc))
    }

    /// Choose between two documents by whether the enclosing group breaks.
    pub fn if_break(break_doc: Doc, flat_doc: Doc) -> (r: Doc)
        ensures
            r@ == DocView::IfBreak(Box::new(break_doc@), Box::new(flat_doc@)),
    {
        Doc::IfBreak { break_contents: Box::new(break_doc), flat_contents: Box::new(flat_doc) }
    }

    /// A trailing comment or other line suffix.
    pub fn line_suffix(doc: Doc) -> (r: Doc)
        ensures
            r@ == DocView::LineSuffix(Box::new(doc@)),
    {
        Doc::LineSuffix(Box::new(doc))
    }

    /// Verbatim text, preserved exactly, internal newlines included.
    pub fn verbatim(s: &str) -> (r: Doc)
        ensures
            r@ == DocView::Verbatim(s@),
    {
        Doc::Verbatim(s.to_owned())
    }

    /// Force the enclosing group to break.
    pub fn break_parent() -> (r: Doc)
        ensures
            r@ == DocView::BreakParent,
    {
        Doc::BreakParent
    }

    /// Layout variants, ordered from the flattest to the most broken; a
    /// single variant is returned as it is.
    pub fn best_of(variants: Vec<Doc>) -> (r: Doc)
        requires
            variants.len() > 0,
        ensures
            variants.len() == 1 ==> r@ == variants@[0]@,
            variants.len() > 1 ==> r@ == DocView::BestOf(docs_view(variants@)),
    {
        let mut variants = variants;
        if variants.len() == 1 {
            variants.pop().unwrap()
        } else {
            Doc::BestOf(variants)
        }
    }
}

// ── Join helpers ────────────────────────────────────────────────────────

/// Join documents with a copy of `sep` between each adjacent pair.
pub fn join(sep: Doc, docs: Vec<Doc>) -> (r: Doc)
    ensures
        r@ == mk_concat(interleave(sep@, docs_view(docs@))),
{
    let mut result: Vec<Doc> = Vec::new();
    let mut first = true;
    let ghost orig = docs@;
    let ghost mut seen: Seq<Doc> = Seq::empty();
    for d in it: docs
        invariant
            it.seq() == orig,
            seen == it.seq().take(it.index() as int),
            first == (it.index() == 0),
            docs_view(result@) == interleave(sep@, docs_view(it.seq().take(it.index() as int))),
    {
        let ghost k = it.index() as int;
        proof {
            lemma_docs_view_take_step(it.seq(), k);
            lemma_docs_view(it.seq().take(k));
            lemma_interleave_push(sep@, docs_view(it.seq().take(k)), doc_view(d));
        }
        if !first {
            let s = clone_doc(&sep);
            proof {
                lemma_docs_view_push(result@, s);
            }
            result.push(s);
        }
        first = false;
        proof {
            lemma_docs_view_push(result@, d);
            lemma_docs_view(it.seq().take(k + 1));
            if k == 0 {
                assert(docs_view(it.seq().take(1)) =~= seq![doc_view(d)]);
            }
        }
        result.push(d);
        proof {
            seen = seen.push(d);
        }
    }
    proof {
        assert(seen =~= orig);
    }
    Doc::concat(result)
}

/// Join documents with a comma and a soft line between each adjacent pair,
/// as in argument lists.
pub fn join_comma_separated(docs: Vec<Doc>) -> (r: Doc)
    ensures
        r@ == mk_concat(comma_interleave(docs_view(docs@))),
{
    let mut result: Vec<Doc> = Vec::new();
    let mut first = true;
    let ghost orig = docs@;
    let ghost mut seen: Seq<Doc> = Seq::empty();
    for d in it: docs
        invariant
            it.seq() == orig,
            seen == it.seq().take(it.index() as int),
            first == (it.index() == 0),
            docs_view(result@) == comma_interleave(docs_view(it.seq().take(it.index() as int))),
    {
        let ghost k = it.index() as int;
        proof {
            lemma_docs_view_take_step(it.seq(), k);
            lemma_docs_view(it.seq().take(k));
            lemma_comma_interleave_push(docs_view(it.seq().take(k)), doc_view(d));
        }
        if !first {
            let c = Doc::text(",");
            proof {
                reveal_strlit(",");
                assert(","@ =~= seq![',']);
                assert(c@ == comma_view());
                lemma_docs_view_push(result@, c);
            }
            result.push(c);
            let l = Doc::softline();
            proof {
                lemma_docs_view_push(result@, l);
            }
            result.push(l);
        }
        first = false;
        proof {
            lemma_docs_view_push(result@, d);
            lemma_docs_view(it.seq().take(k + 1));
            if k == 0 {
                assert(docs_view(it.seq().take(1)) =~= seq![doc_view(d)]);
            }
        }
        result.push(d);
        proof {
            seen = seen.push(d);
        }
    }
    proof {
        assert(seen =~= orig);
    }
    Doc::concat(result)
}

} // verus!
