//! The formatter: from a syntax tree to a document.
//!
//! Every function here builds exactly the document that the matching
//! function of `layout` describes, and places the same comments.
use vstd::prelude::*;

use crate::ast::{
    Call, HookKeyword, Joiner, JumpKeyword, Loc, LoopKeyword, Node, NodeKind, Params, Rescue, Stmts,
};
pub use crate::comments::CommentInfo;
use crate::comments::{
    comments_view, lemma_take_between_len, take_between, take_comments_between,
    take_remaining_comments, with_comments, CommentTracker, CommentView,
};
use crate::docs::{
    append_docs, cat, dv1, dv2, dv3, dv4, dv5, opt_after_vec, opt_docs_view, opt_vec, opt_view,
    push_doc,
};
use crate::ir::{clone_doc, clone_docs, docs_view, join_comma_separated, lemma_docs_view, mk_concat, Doc, DocView};
use crate::layout;
use crate::FormatConfig;
use crate::layout::{
    body_order, bracket_body, comma_list, comments_wf, ends_before, gap_comment_parts,
    interior_comments, interior_parts, line_end, line_gap, loc_bytes, loc_tx, node_wf, nodes_wf,
    paren_args, suffix_comment, suffix_parts, tx,
};
use crate::text::{
    concat_str, count_newlines, is_trailing_comment, loc_in, loc_str, loc_text, name_str,
    newline_count, normalize_whitespace, str_eq, str_starts_with, trim_end, trim_end_ws,
    trim_newlines_end, utf8_lossy,
};

verus! {

broadcast use vstd::std_specs::vec::group_vec_axioms;

// ── The pass ────────────────────────────────────────────────────────────

/// The tracker holds one flag per comment, and every comment lies within
/// the source.
pub open spec fn ready(t: CommentTracker, src: Seq<u8>) -> bool {
    t.wf() && comments_wf(t.all(), src.len())
}

/// `after` goes on with the comments of `before`.
pub open spec fn same_pass(before: CommentTracker, after: CommentTracker) -> bool {
    after.wf() && after.all() == before.all()
}

/// Every comment that a take gives satisfies what every comment of the
/// pass satisfies, and starts in the range asked for.
pub proof fn lemma_taken(
    cs: Seq<CommentView>,
    tk: Seq<bool>,
    from: int,
    to: int,
    i: int,
    p: spec_fn(CommentView) -> bool,
)
    requires
        i <= cs.len(),
        i <= tk.len(),
        forall|k: int| 0 <= k < i ==> #[trigger] p(cs[k]),
    ensures
        forall|j: int|
            0 <= j < take_between(cs, tk, from, to, i).0.len() ==> {
                let c = #[trigger] take_between(cs, tk, from, to, i).0[j];
                p(c) && from <= c.start < to
            },
    decreases i,
{
    if i > 0 {
        lemma_taken(cs, tk, from, to, i - 1, p);
        lemma_take_between_len(cs, tk, from, to, i - 1);
    }
}

// ── Small documents ─────────────────────────────────────────────────────

/// Literal text.
fn txt(s: &str) -> (r: Doc)
    ensures
        r@ == tx(s@),
{
    Doc::text(s)
}

/// The text of a source location.
fn loc_doc(loc: Loc, source: &[u8]) -> (r: Doc)
    requires
        loc_in(loc, source@.len()),
    ensures
        r@ == loc_tx(source@, loc),
{
    let s = loc_str(loc, source);
    Doc::text(s.as_str())
}

/// A name as text.
fn name_doc(name: &Vec<u8>) -> (r: Doc)
    ensures
        r@ == tx(utf8_lossy(name@)),
{
    let s = name_str(name);
    Doc::text(s.as_str())
}

/// A hard line and `end`.
fn end_parts() -> (r: Vec<Doc>)
    ensures
        docs_view(r@) == seq![DocView::Hardline, tx("end"@)],
{
    dv2(Doc::hardline(), txt("end"))
}

/// Emit a hard line and the body, one level in: the newline stands inside
/// the indentation so that it picks up the new level.
pub fn indent_body(body: Doc) -> (r: Doc)
    ensures
        r@ == layout::indent_body(body@),
{
    Doc::indent(cat(dv2(Doc::hardline(), body)))
}

/// Comma-separated documents.
fn comma_list_doc(ds: Vec<Doc>) -> (r: Doc)
    ensures
        r@ == comma_list(docs_view(ds@)),
{
    join_comma_separated(ds)
}

/// `(args)` with the arguments one level in when it breaks; `()` for none.
#[verifier::spinoff_prover]
pub fn format_paren_args(arg_docs: Vec<Doc>) -> (r: Doc)
    ensures
        r@ == paren_args(docs_view(arg_docs@)),
{
    proof {
        lemma_docs_view(arg_docs@);
    }
    if arg_docs.len() == 0 {
        txt("()")
    } else {
        let inner = cat(dv2(Doc::softline_empty(), comma_list_doc(arg_docs)));
        Doc::group(cat(dv4(txt("("), Doc::indent(inner), Doc::softline_empty(), txt(")"))))
    }
}

/// `{items}` with the items one level in when it breaks.
#[verifier::spinoff_prover]
pub fn format_hash_body(open: &str, close: &str, elements: Vec<Doc>) -> (r: Doc)
    ensures
        r@ == bracket_body(open@, close@, docs_view(elements@)),
{
    let inner = cat(dv2(Doc::softline_empty(), comma_list_doc(elements)));
    Doc::group(cat(dv4(txt(open), Doc::indent(inner), Doc::softline_empty(), txt(close))))
}

/// `[items]` or `{items}` with the items one level in when it breaks.
#[verifier::spinoff_prover]
pub fn format_bracket_body(open: &str, close: &str, elements: Vec<Doc>) -> (r: Doc)
    ensures
        r@ == bracket_body(open@, close@, docs_view(elements@)),
{
    let inner = cat(dv2(Doc::softline_empty(), comma_list_doc(elements)));
    Doc::group(cat(dv4(txt(open), Doc::indent(inner), Doc::softline_empty(), txt(close))))
}

/// A comment as a line suffix: a space and its text without trailing
/// whitespace.
fn suffix_comment_doc(c: &CommentInfo) -> (r: Doc)
    ensures
        r@ == suffix_comment(c@),
{
    let t = trim_end(c.text.as_str());
    Doc::line_suffix(cat(dv2(txt(" "), Doc::text(t.as_str()))))
}

/// A comment's text without trailing whitespace.
fn comment_text_doc(c: &CommentInfo) -> (r: Doc)
    ensures
        r@ == tx(trim_end_ws(c@.text)),
{
    let t = trim_end(c.text.as_str());
    Doc::text(t.as_str())
}

// ── Source scanning ─────────────────────────────────────────────────────

/// The offset of the first newline at or after `p`, or the source length.
fn find_line_end(source: &[u8], p: usize) -> (r: usize)
    requires
        p <= source@.len(),
    ensures
        r == line_end(source@, p as int),
        p <= r <= source@.len(),
{
    let mut i = p;
    while i < source.len() && source[i] != 10u8
        invariant
            p <= i <= source@.len(),
            line_end(source@, i as int) == line_end(source@, p as int),
        decreases source@.len() - i,
    {
        i += 1;
    }
    i
}

/// Whether a string opening is a heredoc opening (`<<`, `<<~`, `<<-`).
pub fn is_heredoc_opening(opening: Option<Loc>, source: &[u8]) -> (r: bool)
    requires
        layout::opt_loc_in(opening, source@.len()),
    ensures
        r == layout::is_heredoc(source@, opening),
{
    match opening {
        Some(l) => l.end - l.start >= 2 && source[l.start] == 60u8 && source[l.start + 1] == 60u8,
        None => false,
    }
}

/// Whether the bytes of `loc` hold `b`.
fn loc_contains(source: &[u8], loc: Loc, b: u8) -> (r: bool)
    requires
        loc_in(loc, source@.len()),
    ensures
        r == loc_bytes(source@, loc).contains(b),
{
    let mut i = loc.start;
    while i < loc.end
        invariant
            loc.start <= i <= loc.end <= source@.len(),
            forall|k: int| loc.start <= k < i ==> source@[k] != b,
        decreases loc.end - i,
    {
        if source[i] == b {
            assert(loc_bytes(source@, loc)[i - loc.start] == b);
            return true;
        }
        i += 1;
    }
    proof {
        if loc_bytes(source@, loc).contains(b) {
            let k = choose|k: int| 0 <= k < loc_bytes(source@, loc).len() && loc_bytes(source@, loc)[k] == b;
            assert(source@[loc.start + k] == b);
        }
    }
    false
}

// ── Comments ────────────────────────────────────────────────────────────

/// Take the comments that trail the code ending at `code_end`, on the
/// same line.
pub fn take_trailing_comments_on_line(
    source: &[u8],
    code_end: usize,
    tracker: &mut CommentTracker,
) -> (r: Vec<CommentInfo>)
    requires
        old(tracker).wf(),
        code_end <= source@.len(),
    ensures
        same_pass(*old(tracker), *final(tracker)),
        (comments_view(r@), final(tracker).consumed@) == take_between(
            old(tracker).all(),
            old(tracker).consumed@,
            code_end as int,
            line_end(source@, code_end as int),
            old(tracker).all().len() as int,
        ),
{
    let e = find_line_end(source, code_end);
    take_comments_between(tracker, code_end, e)
}

/// Comment texts separated by hard lines, after `parts`.
fn push_interior_comments(parts: &mut Vec<Doc>, comments: &Vec<CommentInfo>)
    ensures
        docs_view(final(parts)@) == docs_view(old(parts)@) + interior_parts(
            comments_view(comments@),
            0,
        ),
{
    let ghost cm = comments_view(comments@);
    let ghost start = docs_view(parts@);
    let mut i: usize = 0;
    while i < comments.len()
        invariant
            i <= comments.len(),
            cm == comments_view(comments@),
            docs_view(parts@) + interior_parts(cm, i as int) == start + interior_parts(cm, 0),
        decreases comments.len() - i,
    {
        let ghost before = docs_view(parts@);
        let ghost head = if i > 0 {
            seq![DocView::Hardline, tx(trim_end_ws(cm[i as int].text))]
        } else {
            seq![tx(trim_end_ws(cm[i as int].text))]
        };
        assert(interior_parts(cm, i as int) == head + interior_parts(cm, i + 1));
        if i > 0 {
            push_doc(parts, Doc::hardline());
        }
        push_doc(parts, comment_text_doc(&comments[i]));
        assert(docs_view(parts@) == before + head);
        assert(before + head + interior_parts(cm, i + 1) =~= before + (head + interior_parts(
            cm,
            i + 1,
        )));
        i += 1;
    }
    assert(interior_parts(cm, i as int) =~= Seq::<DocView>::empty());
    assert(docs_view(parts@) =~= start + interior_parts(cm, 0));
}

/// The comments in a range, each on its own line; `Empty` when there is
/// none.
#[verifier::spinoff_prover]
pub fn format_interior_comments(from: usize, to: usize, tracker: &mut CommentTracker) -> (r: Doc)
    requires
        old(tracker).wf(),
    ensures
        same_pass(*old(tracker), *final(tracker)),
        (r@, final(tracker).consumed@) == interior_comments(
            old(tracker).all(),
            old(tracker).consumed@,
            from as int,
            to as int,
        ),
{
    let comments = take_comments_between(tracker, from, to);
    if comments.len() == 0 {
        return Doc::Empty;
    }
    let mut parts: Vec<Doc> = Vec::new();
    push_interior_comments(&mut parts, &comments);
    assert(docs_view(parts@) =~= interior_parts(comments_view(comments@), 0));
    cat(parts)
}

/// Trailing comments as line suffixes, after `parts`.
fn push_suffix_comments(parts: &mut Vec<Doc>, comments: &Vec<CommentInfo>)
    ensures
        docs_view(final(parts)@) == docs_view(old(parts)@) + suffix_parts(
            comments_view(comments@),
            0,
        ),
{
    let ghost cm = comments_view(comments@);
    let ghost start = docs_view(parts@);
    let mut i: usize = 0;
    while i < comments.len()
        invariant
            i <= comments.len(),
            cm == comments_view(comments@),
            docs_view(parts@) + suffix_parts(cm, i as int) == start + suffix_parts(cm, 0),
        decreases comments.len() - i,
    {
        let ghost before = docs_view(parts@);
        assert(suffix_parts(cm, i as int) == seq![suffix_comment(cm[i as int])] + suffix_parts(
            cm,
            i + 1,
        ));
        push_doc(parts, suffix_comment_doc(&comments[i]));
        assert(before.push(suffix_comment(cm[i as int])) + suffix_parts(cm, i + 1) =~= before + (
        seq![suffix_comment(cm[i as int])] + suffix_parts(cm, i + 1)));
        i += 1;
    }
    assert(suffix_parts(cm, i as int) =~= Seq::<DocView>::empty());
    assert(docs_view(parts@) =~= start + suffix_parts(cm, 0));
}

/// The comments between two statements (or before the first), after
/// `parts`: trailing ones as line suffixes, the others on lines of their
/// own, blank lines kept.
fn push_gap_comments(
    parts: &mut Vec<Doc>,
    comments: &Vec<CommentInfo>,
    has_pred: bool,
    gap_start: usize,
    source: &[u8],
)
    requires
        gap_start <= source@.len(),
        forall|j: int|
            0 <= j < comments@.len() ==> gap_start <= (#[trigger] comments@[j]).start_offset
                <= source@.len(),
    ensures
        docs_view(final(parts)@) == gap_comment_parts(
            comments_view(comments@),
            0,
            docs_view(old(parts)@),
            has_pred,
            gap_start as int,
            source@,
        ),
{
    let ghost cm = comments_view(comments@);
    let ghost goal = gap_comment_parts(cm, 0, docs_view(parts@), has_pred, gap_start as int, source@);
    let mut i: usize = 0;
    while i < comments.len()
        invariant
            i <= comments.len(),
            cm == comments_view(comments@),
            gap_start <= source@.len(),
            forall|j: int|
                0 <= j < comments@.len() ==> gap_start <= (#[trigger] comments@[j]).start_offset
                    <= source@.len(),
            gap_comment_parts(cm, i as int, docs_view(parts@), has_pred, gap_start as int, source@)
                == goal,
        decreases comments.len() - i,
    {
        let c = &comments[i];
        assert(cm[i as int] == c@);
        let ghost p0 = docs_view(parts@);
        let ghost cc = cm[i as int];
        let ghost nl = newline_count(source@.subrange(gap_start as int, cc.start as int));
        let ghost next = if has_pred && nl == 0 {
            p0.push(suffix_comment(cc))
        } else {
            let sep = if has_pred || p0.len() > 0 {
                if nl > 1 {
                    seq![DocView::Hardline, DocView::Hardline]
                } else {
                    seq![DocView::Hardline]
                }
            } else {
                Seq::empty()
            };
            (p0 + sep).push(tx(trim_end_ws(cc.text)))
        };
        let trailing = is_trailing_comment(source, gap_start, c.start_offset);
        if has_pred && trailing {
            push_doc(parts, suffix_comment_doc(c));
        } else {
            if has_pred || parts.len() > 0 {
                proof {
                    lemma_docs_view(parts@);
                }
                let newlines = count_newlines(source, gap_start, c.start_offset);
                if newlines > 1 {
                    push_doc(parts, Doc::hardline());
                }
                push_doc(parts, Doc::hardline());
            } else {
                proof {
                    lemma_docs_view(parts@);
                }
            }
            push_doc(parts, comment_text_doc(c));
        }
        assert(docs_view(parts@) =~= next);
        i += 1;
    }
}


// ── Lists of nodes ──────────────────────────────────────────────────────

/// Every node from `i` on is well formed and lies within the source.
pub proof fn lemma_nodes_wf(ns: Seq<Node>, i: int, src: Seq<u8>, cs: Seq<CommentView>)
    requires
        0 <= i,
        nodes_wf(ns, i, src, cs),
    ensures
        forall|k: int|
            i <= k < ns.len() ==> node_wf(#[trigger] ns[k], src, cs) && loc_in(ns[k].loc, src.len()),
    decreases ns.len() - i,
{
    if i < ns.len() {
        lemma_nodes_wf(ns, i + 1, src, cs);
    }
}

/// Whether a list of documents is empty.
fn no_docs(ds: &Vec<Doc>) -> (r: bool)
    ensures
        r == (docs_view(ds@).len() == 0),
        docs_view(ds@).len() == ds@.len(),
{
    proof {
        lemma_docs_view(ds@);
    }
    ds.len() == 0
}

/// Format the nodes of a list, in order.
#[verifier::spinoff_prover]
fn format_nodes(ns: &Vec<Node>, source: &[u8], tracker: &mut CommentTracker) -> (r: Vec<Doc>)
    requires
        ready(*old(tracker), source@),
        nodes_wf(ns@, 0, source@, old(tracker).all()),
    ensures
        same_pass(*old(tracker), *final(tracker)),
        (docs_view(r@), final(tracker).consumed@) == layout::fmt_nodes(
            ns@,
            0,
            source@,
            old(tracker).all(),
            old(tracker).consumed@,
        ),
    decreases ns@, 0int,
{
    let ghost cs = tracker.all();
    let ghost goal = layout::fmt_nodes(ns@, 0, source@, cs, tracker.consumed@);
    let mut out: Vec<Doc> = Vec::new();
    let mut i: usize = 0;
    while i < ns.len()
        invariant
            i <= ns.len(),
            ready(*tracker, source@),
            tracker.all() == cs,
            nodes_wf(ns@, i as int, source@, cs),
            ({
                let (rest, t) = layout::fmt_nodes(ns@, i as int, source@, cs, tracker.consumed@);
                (docs_view(out@) + rest, t)
            }) == goal,
        decreases ns.len() - i,
    {
        let ghost before = docs_view(out@);
        let ghost t0 = tracker.consumed@;
        assert(decreases_to!(ns@ => ns@[i as int]));
        let d = format_node(&ns[i], source, tracker);
        proof {
            let (rest, t2) = layout::fmt_nodes(ns@, i + 1, source@, cs, tracker.consumed@);
            assert(layout::fmt_nodes(ns@, i as int, source@, cs, t0) == (seq![d@] + rest, t2));
            assert(before + (seq![d@] + rest) =~= before.push(d@) + rest);
        }
        push_doc(&mut out, d);
        i += 1;
    }
    assert(docs_view(out@) + Seq::<DocView>::empty() =~= docs_view(out@));
    out
}

/// An element with the comments before it, after it on its line, and
/// (for the last) after it on lines of their own.
fn element_with_comments(
    lead: &Vec<CommentInfo>,
    d: Doc,
    tr: &Vec<CommentInfo>,
    after: &Vec<CommentInfo>,
) -> (r: Doc)
    ensures
        r@ == layout::element_doc(
            comments_view(lead@),
            d@,
            comments_view(tr@),
            comments_view(after@),
        ),
{
    let ghost lv = comments_view(lead@);
    let ghost tv = comments_view(tr@);
    let ghost av = comments_view(after@);
    assert(lv.len() == lead@.len() && tv.len() == tr@.len() && av.len() == after@.len());
    if lead.len() == 0 && tr.len() == 0 && after.len() == 0 {
        d
    } else {
        let ghost dv = d@;
        let mut parts: Vec<Doc> = Vec::new();
        if lead.len() > 0 {
            push_interior_comments(&mut parts, lead);
            push_doc(&mut parts, Doc::hardline());
        }
        assert(docs_view(parts@) =~= layout::lead_parts(lv));
        push_doc(&mut parts, d);
        push_suffix_comments(&mut parts, tr);
        let ghost mid = docs_view(parts@);
        if after.len() > 0 {
            push_doc(&mut parts, Doc::hardline());
            push_interior_comments(&mut parts, after);
        }
        assert(docs_view(parts@) =~= mid + layout::after_parts(av));
        push_doc(&mut parts, Doc::break_parent());
        assert(docs_view(parts@) =~= layout::lead_parts(lv) + seq![dv] + suffix_parts(tv, 0)
            + layout::after_parts(av) + seq![DocView::BreakParent]);
        cat(parts)
    }
}

/// Where the comments before element `i` of a list may start.
fn elem_gap_start(ns: &Vec<Node>, i: usize, open: Option<Loc>) -> (r: usize)
    requires
        i < ns@.len(),
    ensures
        r == layout::elem_gap_start(ns@, i as int, open),
{
    if i > 0 {
        ns[i - 1].loc.end
    } else {
        match open {
            Some(o) => o.end,
            None => ns[0].loc.start,
        }
    }
}

/// Format the elements of a list in order, each with its comments; the
/// list opens at `open` and closes at `close`.
#[verifier::spinoff_prover]
#[verifier::rlimit(30)]
fn format_elems(
    ns: &Vec<Node>,
    open: Option<Loc>,
    close: usize,
    source: &[u8],
    tracker: &mut CommentTracker,
) -> (r: Vec<Doc>)
    requires
        ready(*old(tracker), source@),
        nodes_wf(ns@, 0, source@, old(tracker).all()),
    ensures
        same_pass(*old(tracker), *final(tracker)),
        (docs_view(r@), final(tracker).consumed@) == layout::fmt_elems(
            ns@,
            0,
            open,
            close as int,
            source@,
            old(tracker).all(),
            old(tracker).consumed@,
        ),
    decreases ns@, 0int,
{
    let ghost cs = tracker.all();
    let ghost goal = layout::fmt_elems(ns@, 0, open, close as int, source@, cs, tracker.consumed@);
    proof {
        lemma_nodes_wf(ns@, 0, source@, cs);
    }
    let mut out: Vec<Doc> = Vec::new();
    let mut i: usize = 0;
    while i < ns.len()
        invariant
            i <= ns.len(),
            ready(*tracker, source@),
            tracker.all() == cs,
            forall|m: int|
                0 <= m < ns@.len() ==> node_wf(#[trigger] ns@[m], source@, cs) && loc_in(
                    ns@[m].loc,
                    source@.len(),
                ),
            ({
                let (rest, t) = layout::fmt_elems(
                    ns@,
                    i as int,
                    open,
                    close as int,
                    source@,
                    cs,
                    tracker.consumed@,
                );
                (docs_view(out@) + rest, t)
            }) == goal,
        decreases ns.len() - i,
    {
        let ghost before = docs_view(out@);
        let ghost t0 = tracker.consumed@;
        let lead = take_comments_between(tracker, elem_gap_start(ns, i, open), ns[i].loc.start);
        assert(decreases_to!(ns@ => ns@[i as int]));
        let d = format_node(&ns[i], source, tracker);
        let code_end = ns[i].loc.end;
        let le = find_line_end(source, code_end);
        let bound = if i + 1 < ns.len() {
            ns[i + 1].loc.start
        } else {
            close
        };
        let stop = if bound < le {
            bound
        } else {
            le
        };
        assert(stop == layout::elem_comment_end(ns@, i as int, close as int, source@));
        let tr = take_comments_between(tracker, code_end, stop);
        let after = if i + 1 == ns.len() {
            take_comments_between(tracker, code_end, close)
        } else {
            Vec::new()
        };
        assert(i + 1 < ns.len() ==> comments_view(after@) =~= Seq::<CommentView>::empty());
        let e = element_with_comments(&lead, d, &tr, &after);
        proof {
            let (rest, t4) = layout::fmt_elems(
                ns@,
                i + 1,
                open,
                close as int,
                source@,
                cs,
                tracker.consumed@,
            );
            assert(layout::fmt_elems(ns@, i as int, open, close as int, source@, cs, t0) == (
            seq![e@] + rest, t4));
            assert(before + (seq![e@] + rest) =~= before.push(e@) + rest);
        }
        push_doc(&mut out, e);
        i += 1;
    }
    assert(docs_view(out@) + Seq::<DocView>::empty() =~= docs_view(out@));
    out
}

/// Format an optional list of elements.
#[verifier::spinoff_prover]
fn format_opt_elems(
    o: &Option<Vec<Node>>,
    open: Option<Loc>,
    close: usize,
    source: &[u8],
    tracker: &mut CommentTracker,
) -> (r:
    Option<Vec<Doc>>)
    requires
        ready(*old(tracker), source@),
        layout::opt_nodes_wf(*o, source@, old(tracker).all()),
    ensures
        same_pass(*old(tracker), *final(tracker)),
        (opt_docs_view(r), final(tracker).consumed@) == layout::fmt_opt_elems(
            *o,
            open,
            close as int,
            source@,
            old(tracker).all(),
            old(tracker).consumed@,
        ),
    decreases *o, 0int,
{
    match o {
        Some(v) => Some(format_elems(v, open, close, source, tracker)),
        None => None,
    }
}

/// Format the nodes `ns[i..j]`, in order.
#[verifier::spinoff_prover]
fn format_range(ns: &Vec<Node>, i: usize, j: usize, source: &[u8], tracker: &mut CommentTracker) -> (r: Vec<Doc>)
    requires
        ready(*old(tracker), source@),
        nodes_wf(ns@, 0, source@, old(tracker).all()),
        i <= j <= ns@.len(),
    ensures
        same_pass(*old(tracker), *final(tracker)),
        (docs_view(r@), final(tracker).consumed@) == layout::fmt_range(
            ns@,
            i as int,
            j as int,
            source@,
            old(tracker).all(),
            old(tracker).consumed@,
        ),
    decreases ns@, 0int,
{
    let ghost cs = tracker.all();
    let ghost goal = layout::fmt_range(ns@, i as int, j as int, source@, cs, tracker.consumed@);
    proof {
        lemma_nodes_wf(ns@, 0, source@, cs);
    }
    let mut out: Vec<Doc> = Vec::new();
    let mut k: usize = i;
    while k < j
        invariant
            i <= k <= j <= ns@.len(),
            ready(*tracker, source@),
            tracker.all() == cs,
            forall|m: int| 0 <= m < ns@.len() ==> node_wf(#[trigger] ns@[m], source@, cs),
            ({
                let (rest, t) = layout::fmt_range(ns@, k as int, j as int, source@, cs, tracker.consumed@);
                (docs_view(out@) + rest, t)
            }) == goal,
        decreases j - k,
    {
        let ghost before = docs_view(out@);
        let ghost t0 = tracker.consumed@;
        assert(decreases_to!(ns@ => ns@[k as int]));
        let d = format_node(&ns[k], source, tracker);
        proof {
            let (rest, t2) = layout::fmt_range(ns@, k + 1, j as int, source@, cs, tracker.consumed@);
            assert(layout::fmt_range(ns@, k as int, j as int, source@, cs, t0) == (seq![d@] + rest, t2));
            assert(before + (seq![d@] + rest) =~= before.push(d@) + rest);
        }
        push_doc(&mut out, d);
        k += 1;
    }
    assert(docs_view(out@) + Seq::<DocView>::empty() =~= docs_view(out@));
    out
}

/// The start of an optional location; 0 when there is none.
fn opt_start(l: Option<Loc>) -> (r: usize)
    ensures
        r == layout::opt_start(l),
{
    match l {
        Some(x) => x.start,
        None => 0,
    }
}

/// Format an optional child.
#[verifier::spinoff_prover]
fn format_opt(o: &Option<Box<Node>>, source: &[u8], tracker: &mut CommentTracker) -> (r: Option<Doc>)
    requires
        ready(*old(tracker), source@),
        layout::opt_wf(*o, source@, old(tracker).all()),
    ensures
        same_pass(*old(tracker), *final(tracker)),
        (opt_view(r), final(tracker).consumed@) == layout::fmt_opt(
            *o,
            source@,
            old(tracker).all(),
            old(tracker).consumed@,
        ),
    decreases *o, 0int,
{
    match o {
        Some(b) => Some(format_node(&**b, source, tracker)),
        None => None,
    }
}

/// Format an optional list of children.
#[verifier::spinoff_prover]
fn format_opt_nodes(o: &Option<Vec<Node>>, source: &[u8], tracker: &mut CommentTracker) -> (r: Option<Vec<Doc>>)
    requires
        ready(*old(tracker), source@),
        layout::opt_nodes_wf(*o, source@, old(tracker).all()),
    ensures
        same_pass(*old(tracker), *final(tracker)),
        (opt_docs_view(r), final(tracker).consumed@) == layout::fmt_opt_nodes(
            *o,
            source@,
            old(tracker).all(),
            old(tracker).consumed@,
        ),
    decreases *o, 0int,
{
    match o {
        Some(v) => Some(format_nodes(v, source, tracker)),
        None => None,
    }
}

/// An optional child that is well formed is a well formed node.
pub proof fn lemma_opt_wf(o: Option<Box<Node>>, src: Seq<u8>, cs: Seq<CommentView>)
    requires
        layout::opt_wf(o, src, cs),
    ensures
        o matches Some(b) ==> node_wf(*b, src, cs),
{
}

/// Optional parameters that are well formed are well formed parameters.
pub proof fn lemma_opt_params_wf(o: Option<Params>, src: Seq<u8>, cs: Seq<CommentView>)
    requires
        layout::opt_params_wf(o, src, cs),
    ensures
        o matches Some(p) ==> layout::params_wf(p, src, cs),
{
}

/// An optional list of children that is well formed has well formed nodes.
pub proof fn lemma_opt_nodes_wf(o: Option<Vec<Node>>, src: Seq<u8>, cs: Seq<CommentView>)
    requires
        layout::opt_nodes_wf(o, src, cs),
    ensures
        o matches Some(v) ==> nodes_wf(v@, 0, src, cs),
{
}

/// Format a statement list.
#[verifier::spinoff_prover]
fn format_stmts_of(st: &Stmts, source: &[u8], tracker: &mut CommentTracker) -> (r: Doc)
    requires
        ready(*old(tracker), source@),
        layout::stmts_wf(*st, source@, old(tracker).all()),
    ensures
        same_pass(*old(tracker), *final(tracker)),
        (r@, final(tracker).consumed@) == layout::fmt_stmts(
            st.body@,
            source@,
            old(tracker).all(),
            old(tracker).consumed@,
        ),
    decreases *st, 2int,
{
    format_statements_body(&st.body, source, tracker)
}

/// Format an optional statement list; `Empty` if absent.
#[verifier::spinoff_prover]
fn format_opt_stmts(o: &Option<Stmts>, source: &[u8], tracker: &mut CommentTracker) -> (r: Doc)
    requires
        ready(*old(tracker), source@),
        layout::opt_stmts_wf(*o, source@, old(tracker).all()),
    ensures
        same_pass(*old(tracker), *final(tracker)),
        (r@, final(tracker).consumed@) == match *o {
            Some(st) => layout::fmt_stmts(st.body@, source@, old(tracker).all(), old(tracker).consumed@),
            None => (DocView::Empty, old(tracker).consumed@),
        },
    decreases *o, 3int,
{
    match o {
        Some(st) => format_stmts_of(st, source, tracker),
        None => Doc::Empty,
    }
}

/// The statements of an optional list, one level in; nothing if absent.
#[verifier::spinoff_prover]
fn format_opt_block_body(o: &Option<Stmts>, source: &[u8], tracker: &mut CommentTracker) -> (r: Vec<Doc>)
    requires
        ready(*old(tracker), source@),
        layout::opt_stmts_wf(*o, source@, old(tracker).all()),
    ensures
        same_pass(*old(tracker), *final(tracker)),
        (docs_view(r@), final(tracker).consumed@) == layout::fmt_opt_block_body(
            *o,
            source@,
            old(tracker).all(),
            old(tracker).consumed@,
        ),
    decreases *o, 0int,
{
    match o {
        Some(st) => dv1(indent_body(format_stmts_of(st, source, tracker))),
        None => Vec::new(),
    }
}

/// Hard lines: two if the gap held a blank line, else one.
fn push_line_gap(parts: &mut Vec<Doc>, newlines: usize)
    ensures
        docs_view(final(parts)@) == docs_view(old(parts)@) + line_gap(newlines as nat),
{
    let ghost p0 = docs_view(parts@);
    if newlines > 1 {
        push_doc(parts, Doc::hardline());
    }
    push_doc(parts, Doc::hardline());
    assert(docs_view(parts@) =~= p0 + line_gap(newlines as nat));
}

/// Format a list of statements: one per line, blank lines between them
/// kept (at most one), the comments before, between and after them woven
/// in.
#[verifier::spinoff_prover]
pub fn format_statements_body(body: &Vec<Node>, source: &[u8], tracker: &mut CommentTracker) -> (r: Doc)
    requires
        ready(*old(tracker), source@),
        nodes_wf(body@, 0, source@, old(tracker).all()),
        body_order(body@, old(tracker).all()),
    ensures
        same_pass(*old(tracker), *final(tracker)),
        (r@, final(tracker).consumed@) == layout::fmt_stmts(
            body@,
            source@,
            old(tracker).all(),
            old(tracker).consumed@,
        ),
    decreases body@, 1int,
{
    if body.len() == 0 {
        return Doc::Empty;
    }
    let ghost cs = tracker.all();
    let ghost goal = layout::stmts_from(body@, 0, Seq::empty(), source@, cs, tracker.consumed@);
    proof {
        lemma_nodes_wf(body@, 0, source@, cs);
    }
    let mut parts: Vec<Doc> = Vec::new();
    let mut i: usize = 0;
    while i < body.len()
        invariant
            0 < body@.len(),
            i <= body@.len(),
            ready(*tracker, source@),
            tracker.all() == cs,
            body_order(body@, cs),
            forall|k: int|
                0 <= k < body@.len() ==> node_wf(#[trigger] body@[k], source@, cs) && loc_in(
                    body@[k].loc,
                    source@.len(),
                ),
            layout::stmts_from(body@, i as int, docs_view(parts@), source@, cs, tracker.consumed@)
                == goal,
        decreases body.len() - i,
    {
        let ghost p0 = docs_view(parts@);
        let ghost t0 = tracker.consumed@;
        let has_pred = i > 0;
        let gap_start: usize = if i > 0 {
            body[i - 1].loc.end
        } else {
            0
        };
        let gap_end = body[i].loc.start;
        assert(gap_start <= gap_end);
        let comments = take_comments_between(tracker, gap_start, gap_end);
        let ghost cm = comments_view(comments@);
        let ghost loc = body@[i as int].loc;
        proof {
            let p = |c: CommentView| c.start <= c.end <= source@.len() && ends_before(c, loc);
            assert forall|k: int| 0 <= k < cs.len() implies #[trigger] p(cs[k]) by {
                assert(ends_before(cs[k], body@[i as int].loc));
            }
            lemma_take_between_len(cs, t0, gap_start as int, gap_end as int, cs.len() as int);
            lemma_taken(cs, t0, gap_start as int, gap_end as int, cs.len() as int, p);
            assert forall|j: int| 0 <= j < comments@.len() implies gap_start <= (
            #[trigger] comments@[j]).start_offset <= source@.len() && comments@[j].start_offset
                < gap_end && comments@[j].end_offset <= gap_end by {
                assert(cm[j] == comments@[j]@);
                assert(p(cm[j]));
            }
        }
        push_gap_comments(&mut parts, &comments, has_pred, gap_start, source);
        let ghost p1 = docs_view(parts@);
        if i > 0 || comments.len() > 0 {
            if has_pred && comments.len() == 0 {
                let newlines = count_newlines(source, gap_start, gap_end);
                push_line_gap(&mut parts, newlines);
            } else {
                let last_end = comments[comments.len() - 1].end_offset;
                assert(cm.last() == comments@[comments@.len() - 1]@);
                let newlines = count_newlines(source, last_end, gap_end);
                push_line_gap(&mut parts, newlines);
            }
        }
        let ghost p2 = docs_view(parts@);
        let ghost t1 = tracker.consumed@;
        assert(decreases_to!(body@ => body@[i as int]));
        let d = format_node(&body[i], source, tracker);
        push_doc(&mut parts, d);
        let ghost t2 = tracker.consumed@;
        if i == body.len() - 1 {
            let code_end = body[i].loc.end;
            let trailing = take_trailing_comments_on_line(source, code_end, tracker);
            push_suffix_comments(&mut parts, &trailing);
        }
        proof {
            let (dd, tt) = layout::fmt_node(body@[i as int], source@, cs, t1);
            assert(dd == d@ && tt == t2);
        }
        i += 1;
    }
    assert(docs_view(parts@) == goal.0);
    cat(parts)
}

/// Format the body of a class, module, method or block.
#[verifier::spinoff_prover]
pub fn format_body(n: &Node, source: &[u8], tracker: &mut CommentTracker) -> (r: Doc)
    requires
        ready(*old(tracker), source@),
        node_wf(*n, source@, old(tracker).all()),
    ensures
        same_pass(*old(tracker), *final(tracker)),
        (r@, final(tracker).consumed@) == layout::fmt_body(
            *n,
            source@,
            old(tracker).all(),
            old(tracker).consumed@,
        ),
    decreases *n, 4int,
{
    match &n.kind {
        NodeKind::Statements { body } => format_statements_body(body, source, tracker),
        NodeKind::Begin { .. } => format_implicit_begin(n, source, tracker),
        _ => format_node(n, source, tracker),
    }
}

/// A `begin` without its keyword, as the body of a definition.
#[verifier::spinoff_prover]
pub fn format_implicit_begin(n: &Node, source: &[u8], tracker: &mut CommentTracker) -> (r: Doc)
    requires
        ready(*old(tracker), source@),
        node_wf(*n, source@, old(tracker).all()),
    ensures
        same_pass(*old(tracker), *final(tracker)),
        (r@, final(tracker).consumed@) == layout::fmt_implicit_begin(
            *n,
            source@,
            old(tracker).all(),
            old(tracker).consumed@,
        ),
    decreases *n, 2int,
{
    match &n.kind {
        NodeKind::Begin { statements, rescue_clause, else_clause, ensure_clause, .. } => {
            let mut parts = match statements {
                Some(_) => dv1(format_opt_stmts(statements, source, tracker)),
                None => Vec::new(),
            };
            let p1 = match rescue_clause {
                Some(r) => {
                    let d = format_rescue_chain(r, source, tracker);
                    dv2(Doc::hardline(), d)
                },
                None => Vec::new(),
            };
            append_docs(&mut parts, p1);
            let e = format_opt(else_clause, source, tracker);
            let en = format_opt(ensure_clause, source, tracker);
            append_docs(&mut parts, opt_after_vec(Doc::hardline(), e));
            append_docs(&mut parts, opt_after_vec(Doc::hardline(), en));
            cat(parts)
        },
        _ => Doc::Empty,
    }
}

/// A chain of rescue clauses, one after the other.
#[verifier::spinoff_prover]
pub fn format_rescue_chain(r: &Rescue, source: &[u8], tracker: &mut CommentTracker) -> (d: Doc)
    requires
        ready(*old(tracker), source@),
        layout::rescue_wf(*r, source@, old(tracker).all()),
    ensures
        same_pass(*old(tracker), *final(tracker)),
        (d@, final(tracker).consumed@) == layout::fmt_rescue_chain(
            *r,
            source@,
            old(tracker).all(),
            old(tracker).consumed@,
        ),
    decreases *r, 1int,
{
    let d = format_single_rescue(r, source, tracker);
    match &r.subsequent {
        Some(b) => {
            let d2 = format_rescue_chain(&**b, source, tracker);
            cat(dv3(d, Doc::hardline(), d2))
        },
        None => cat(dv1(d)),
    }
}

/// One rescue clause: `rescue Exceptions => ref` and its statements.
#[verifier::spinoff_prover]
pub fn format_single_rescue(r: &Rescue, source: &[u8], tracker: &mut CommentTracker) -> (d: Doc)
    requires
        ready(*old(tracker), source@),
        layout::rescue_wf(*r, source@, old(tracker).all()),
    ensures
        same_pass(*old(tracker), *final(tracker)),
        (d@, final(tracker).consumed@) == layout::fmt_rescue(
            *r,
            source@,
            old(tracker).all(),
            old(tracker).consumed@,
        ),
    decreases *r, 0int,
{
    let exs = format_nodes(&r.exceptions, source, tracker);
    let mut parts = dv1(txt("rescue"));
    let p1 = if no_docs(&exs) {
        Vec::new()
    } else {
        dv2(txt(" "), comma_list_doc(exs))
    };
    append_docs(&mut parts, p1);
    let rf = format_opt(&r.reference, source, tracker);
    let p2 = match rf {
        Some(d) => dv2(txt(" => "), d),
        None => Vec::new(),
    };
    append_docs(&mut parts, p2);
    let p3 = format_opt_block_body(&r.statements, source, tracker);
    append_docs(&mut parts, p3);
    cat(parts)
}

/// The documents of a parameter list, in declaration order.
#[verifier::spinoff_prover]
pub fn format_parameters(p: &Params, source: &[u8], tracker: &mut CommentTracker) -> (r: Vec<Doc>)
    requires
        ready(*old(tracker), source@),
        layout::params_wf(*p, source@, old(tracker).all()),
    ensures
        same_pass(*old(tracker), *final(tracker)),
        (docs_view(r@), final(tracker).consumed@) == layout::fmt_params(
            *p,
            source@,
            old(tracker).all(),
            old(tracker).consumed@,
        ),
    decreases *p, 0int,
{
    let mut out = format_nodes(&p.requireds, source, tracker);
    let b = format_nodes(&p.optionals, source, tracker);
    append_docs(&mut out, b);
    let c = format_opt(&p.rest, source, tracker);
    append_docs(&mut out, opt_vec(c));
    let d = format_nodes(&p.posts, source, tracker);
    append_docs(&mut out, d);
    let e = format_nodes(&p.keywords, source, tracker);
    append_docs(&mut out, e);
    let f = format_opt(&p.keyword_rest, source, tracker);
    append_docs(&mut out, opt_vec(f));
    let g = format_opt(&p.block, source, tracker);
    append_docs(&mut out, opt_vec(g));
    out
}

/// The statements of the `else` branch of a ternary; `Empty` if none.
#[verifier::spinoff_prover]
fn format_ternary_else(sub: &Option<Box<Node>>, source: &[u8], tracker: &mut CommentTracker) -> (r: Doc)
    requires
        ready(*old(tracker), source@),
        layout::opt_wf(*sub, source@, old(tracker).all()),
    ensures
        same_pass(*old(tracker), *final(tracker)),
        (r@, final(tracker).consumed@) == layout::ternary_else(
            *sub,
            source@,
            old(tracker).all(),
            old(tracker).consumed@,
        ),
    decreases *sub, 0int,
{
    proof {
        lemma_opt_wf(*sub, source@, old(tracker).all());
    }
    match sub {
        Some(b) => match &b.kind {
            NodeKind::Else { statements: Some(_) } => match &b.kind {
                NodeKind::Else { statements } => format_opt_stmts(statements, source, tracker),
                _ => Doc::Empty,
            },
            _ => Doc::Empty,
        },
        None => Doc::Empty,
    }
}

/// Each document after a hard line of its own.
#[verifier::spinoff_prover]
fn each_on_new_line_docs(ds: Vec<Doc>) -> (r: Vec<Doc>)
    ensures
        docs_view(r@) == layout::each_on_new_line(docs_view(ds@)),
{
    let ghost orig = ds@;
    let mut out: Vec<Doc> = Vec::new();
    proof {
        lemma_docs_view(orig);
    }
    for d in it: ds
        invariant
            it.seq() == orig,
            docs_view(orig).len() == orig.len(),
            forall|k: int| 0 <= k < orig.len() ==> #[trigger] docs_view(orig)[k] == orig[k]@,
            docs_view(out@) == layout::each_on_new_line(docs_view(orig).take(it.index() as int)),
    {
        let ghost k = it.index() as int;
        let ghost prev = docs_view(orig).take(k);
        proof {
            assert(docs_view(orig).take(k + 1).drop_last() =~= prev);
            assert(docs_view(orig).take(k + 1).last() == d@);
        }
        push_doc(&mut out, Doc::hardline());
        push_doc(&mut out, d);
        assert(docs_view(out@) =~= layout::each_on_new_line(prev) + seq![DocView::Hardline, d@]);
    }
    assert(docs_view(orig).take(orig.len() as int) =~= docs_view(orig));
    out
}


// ── Nodes ───────────────────────────────────────────────────────────────






/// Names, parameters printed as written and nodes printed as their source.
pub open spec fn is_leaf_kind(k: NodeKind) -> bool {
    match k {
        NodeKind::Source | NodeKind::Name { .. } | NodeKind::PrefixedName { .. }
        | NodeKind::RequiredKeyword { .. } | NodeKind::NoKeywords | NodeKind::Nothing => true,
        _ => false,
    }
}

/// Format an AST node into a document.
#[verifier::spinoff_prover]
pub fn format_node(n: &Node, source: &[u8], tracker: &mut CommentTracker) -> (r: Doc)
    requires
        ready(*old(tracker), source@),
        node_wf(*n, source@, old(tracker).all()),
    ensures
        same_pass(*old(tracker), *final(tracker)),
        (r@, final(tracker).consumed@) == layout::fmt_node(
            *n,
            source@,
            old(tracker).all(),
            old(tracker).consumed@,
        ),
    decreases *n, 3int,
{
    match &n.kind {
        NodeKind::Call(c) => format_call_node(c, source, tracker),
        NodeKind::Block { .. } => format_block_node(n, source, tracker),
        NodeKind::RescueClause(r) => format_single_rescue(r, source, tracker),
        NodeKind::Transparent { inner } => format_node(&**inner, source, tracker),
        NodeKind::Source => format_leaf_node(n, source, tracker),
        NodeKind::Program { .. } => format_program_node(n, source, tracker),
        NodeKind::Statements { .. } => format_statements_node(n, source, tracker),
        NodeKind::NameWrite { .. } => format_name_write_node(n, source, tracker),
        NodeKind::TargetWrite { .. } => format_target_write_node(n, source, tracker),
        NodeKind::ConstantPath { .. } => format_constant_path_node(n, source, tracker),
        NodeKind::Str { .. } => format_str_node(n, source, tracker),
        NodeKind::InterpolatedStr { .. } => format_interpolated_str_node(n, source, tracker),
        NodeKind::XStr { .. } => format_x_str_node(n, source, tracker),
        NodeKind::InterpolatedXStr { .. } => format_interpolated_x_str_node(n, source, tracker),
        NodeKind::EmbeddedStatements { .. } => format_embedded_statements_node(n, source, tracker),
        NodeKind::EmbeddedVariable { .. } => format_embedded_variable_node(n, source, tracker),
        NodeKind::Array { .. } => format_array_node(n, source, tracker),
        NodeKind::Hash { .. } => format_hash_node(n, source, tracker),
        NodeKind::KeywordHash { .. } => format_keyword_hash_node(n, source, tracker),
        NodeKind::Assoc { .. } => format_assoc_node(n, source, tracker),
        NodeKind::Splat { .. } => format_splat_node(n, source, tracker),
        NodeKind::BlockArgument { .. } => format_block_argument_node(n, source, tracker),
        NodeKind::Range { .. } => format_range_node(n, source, tracker),
        NodeKind::Def { .. } => format_def_node(n, source, tracker),
        NodeKind::Class { .. } => format_class_node(n, source, tracker),
        NodeKind::Module { .. } => format_module_node(n, source, tracker),
        NodeKind::SingletonClass { .. } => format_singleton_class_node(n, source, tracker),
        NodeKind::Lambda { .. } => format_lambda_node(n, source, tracker),
        NodeKind::BlockParameters { .. } => format_block_parameters_node(n, source, tracker),
        NodeKind::CallWrite { .. } => format_call_write_node(n, source, tracker),
        NodeKind::CallTarget { .. } => format_call_target_node(n, source, tracker),
        NodeKind::IndexWrite { .. } => format_index_write_node(n, source, tracker),
        NodeKind::IndexTarget { .. } => format_index_target_node(n, source, tracker),
        NodeKind::Arguments { .. } => format_arguments_node(n, source, tracker),
        NodeKind::Name { .. } => format_leaf_node(n, source, tracker),
        NodeKind::OptionalParameter { .. } => format_optional_parameter_node(n, source, tracker),
        NodeKind::PrefixedName { .. } => format_leaf_node(n, source, tracker),
        NodeKind::RequiredKeyword { .. } => format_leaf_node(n, source, tracker),
        NodeKind::OptionalKeyword { .. } => format_optional_keyword_node(n, source, tracker),
        NodeKind::NoKeywords => format_leaf_node(n, source, tracker),
        NodeKind::Nothing => format_leaf_node(n, source, tracker),
        NodeKind::If { .. } => format_if_node(n, source, tracker),
        NodeKind::Unless { .. } => format_unless_node(n, source, tracker),
        NodeKind::Else { .. } => format_else_node(n, source, tracker),
        NodeKind::Case { .. } => format_case_node(n, source, tracker),
        NodeKind::When { .. } => format_when_node(n, source, tracker),
        NodeKind::In { .. } => format_in_node(n, source, tracker),
        NodeKind::Loop { .. } => format_loop_node(n, source, tracker),
        NodeKind::For { .. } => format_for_node(n, source, tracker),
        NodeKind::Logical { .. } => format_logical_node(n, source, tracker),
        NodeKind::Parentheses { .. } => format_parentheses_node(n, source, tracker),
        NodeKind::Begin { .. } => format_begin_node(n, source, tracker),
        NodeKind::Ensure { .. } => format_ensure_node(n, source, tracker),
        NodeKind::Joined { .. } => format_joined_node(n, source, tracker),
        NodeKind::Jump { .. } => format_jump_node(n, source, tracker),
        NodeKind::Yield { .. } => format_yield_node(n, source, tracker),
        NodeKind::Super { .. } => format_super_node(n, source, tracker),
        NodeKind::ForwardingSuper { .. } => format_forwarding_super_node(n, source, tracker),
        NodeKind::MultiWrite { .. } => format_multi_write_node(n, source, tracker),
        NodeKind::MultiTarget { .. } => format_multi_target_node(n, source, tracker),
        NodeKind::Alias { .. } => format_alias_node(n, source, tracker),
        NodeKind::Undef { .. } => format_undef_node(n, source, tracker),
        NodeKind::Defined { .. } => format_defined_node(n, source, tracker),
        NodeKind::PinnedExpression { .. } => format_pinned_expression_node(n, source, tracker),
        NodeKind::PinnedVariable { .. } => format_pinned_variable_node(n, source, tracker),
        NodeKind::Hook { .. } => format_hook_node(n, source, tracker),
    }
}






/// `name op value` for writes to variables and constants, and for
/// compound writes (`&&=`, `||=`, `+=`, ...).
#[verifier::spinoff_prover]
pub fn format_simple_write(
    name: &str,
    op: &str,
    value: &Node,
    source: &[u8],
    tracker: &mut CommentTracker,
) -> (r: Doc)
    requires
        ready(*old(tracker), source@),
        node_wf(*value, source@, old(tracker).all()),
    ensures
        same_pass(*old(tracker), *final(tracker)),
        (r@, final(tracker).consumed@) == ({
            let (v, t) = layout::fmt_node(*value, source@, old(tracker).all(), old(tracker).consumed@);
            (mk_concat(seq![tx(name@), tx(" "@), tx(op@), tx(" "@), v]), t)
        }),
    decreases *value, 4int,
{
    let v = format_node(value, source, tracker);
    cat(dv5(txt(name), txt(" "), txt(op), txt(" "), v))
}

/// A heredoc whose content has a location of its own: the opening stays
/// inline, the body and the closing follow the current line.
#[verifier::spinoff_prover]
pub fn format_heredoc_string_node(opening: Loc, content: Loc, closing: Option<Loc>, source: &[u8]) -> (r: Doc)
    requires
        loc_in(opening, source@.len()),
        loc_in(content, source@.len()),
        layout::opt_loc_in(closing, source@.len()),
    ensures
        r@ == layout::heredoc_plain(source@, opening, content, closing),
{
    let close = match closing {
        Some(l) => loc_str(l, source),
        None => String::new(),
    };
    let body = concat_str(
        concat_str("\n", loc_str(content, source).as_str()).as_str(),
        trim_newlines_end(close.as_str()).as_str(),
    );
    cat(dv2(loc_doc(opening, source), Doc::line_suffix(Doc::verbatim(body.as_str()))))
}

/// A heredoc with interpolation: the body is the source between the
/// opening and the closing.
#[verifier::spinoff_prover]
pub fn format_heredoc_interpolated_string_node(opening: Loc, closing: Loc, source: &[u8]) -> (r: Doc)
    requires
        loc_in(opening, source@.len()),
        loc_in(closing, source@.len()),
        opening.end <= closing.start,
    ensures
        r@ == layout::heredoc_span(source@, opening, closing),
{
    let mid = loc_str(Loc { start: opening.end, end: closing.start }, source);
    let body = concat_str(mid.as_str(), trim_newlines_end(loc_str(closing, source).as_str()).as_str());
    cat(dv2(loc_doc(opening, source), Doc::line_suffix(Doc::verbatim(body.as_str()))))
}

/// A string literal: single quotes become double quotes unless the
/// content holds a double quote or a backslash.
pub fn normalize_string_quotes(full: Loc, opening: Option<Loc>, content: Loc, source: &[u8]) -> (r: Doc)
    requires
        loc_in(full, source@.len()),
        layout::opt_loc_in(opening, source@.len()),
        loc_in(content, source@.len()),
    ensures
        r@ == layout::quoted_string(source@, full, opening, content),
{
    match opening {
        Some(o) => {
            let single = o.end - o.start == 1 && source[o.start] == 39u8;
            let has_dq = loc_contains(source, content, 34u8);
            let has_bs = loc_contains(source, content, 92u8);
            proof {
                if single {
                    assert(loc_bytes(source@, o) =~= seq![39u8]);
                } else if loc_bytes(source@, o) == seq![39u8] {
                    assert(loc_bytes(source@, o).len() == 1);
                    assert(loc_bytes(source@, o)[0] == source@[o.start as int]);
                    assert(false);
                }
                assert(single == (loc_bytes(source@, o) == seq![39u8]));
                assert(loc_text(source@, content) == utf8_lossy(loc_bytes(source@, content)));
            }
            if single && !has_dq && !has_bs {
                let inner = loc_str(content, source);
                let quoted = concat_str(concat_str("\"", inner.as_str()).as_str(), "\"");
                Doc::text(quoted.as_str())
            } else {
                loc_doc(full, source)
            }
        },
        None => loc_doc(full, source),
    }
}

/// An optional location's text as a list of at most one document.
fn opt_loc_docs(l: Option<Loc>, source: &[u8]) -> (r: Vec<Doc>)
    requires
        layout::opt_loc_in(l, source@.len()),
    ensures
        docs_view(r@) == match l {
            Some(x) => seq![loc_tx(source@, x)],
            None => Seq::<DocView>::empty(),
        },
{
    match l {
        Some(x) => dv1(loc_doc(x, source)),
        None => Vec::new(),
    }
}



/// `prefix child`, or `prefix` alone.
fn prefixed_doc(prefix: Doc, d: Option<Doc>) -> (r: Doc)
    ensures
        r@ == layout::prefixed(prefix@, opt_view(d)),
{
    match d {
        Some(x) => cat(dv2(prefix, x)),
        None => prefix,
    }
}

/// Whether an array opening starts a word list (`%w`, `%W`, `%i`, `%I`).
fn is_word_array_opening(open: &str) -> (r: bool)
    ensures
        r == layout::is_word_array_opening(open@),
{
    str_starts_with(open, "%w") || str_starts_with(open, "%W") || str_starts_with(open, "%i")
        || str_starts_with(open, "%I")
}

/// The elements of a word list, whitespace normalized, joined by spaces.
fn join_words(es: &Vec<Node>, source: &[u8]) -> (r: String)
    requires
        forall|k: int| 0 <= k < es@.len() ==> loc_in(#[trigger] es@[k].loc, source@.len()),
    ensures
        r@ == layout::join_spaced(layout::word_texts(source@, es@), 0),
{
    let ghost ws = layout::word_texts(source@, es@);
    let mut acc = String::new();
    let mut i: usize = 0;
    while i < es.len()
        invariant
            i <= es@.len(),
            ws == layout::word_texts(source@, es@),
            forall|k: int| 0 <= k < es@.len() ==> loc_in(#[trigger] es@[k].loc, source@.len()),
            acc@ + layout::join_spaced(ws, i as int) == layout::join_spaced(ws, 0),
        decreases es.len() - i,
    {
        let ghost before = acc@;
        let w = normalize_whitespace(loc_str(es[i].loc, source).as_str());
        assert(w@ == ws[i as int]);
        if i > 0 {
            acc.append(" ");
            acc.append(w.as_str());
            assert(before + layout::join_spaced(ws, i as int) =~= acc@ + layout::join_spaced(ws, i + 1));
        } else {
            acc.append(w.as_str());
            assert(before + layout::join_spaced(ws, i as int) =~= acc@ + layout::join_spaced(ws, i + 1));
        }
        i += 1;
    }
    assert(acc@ + layout::join_spaced(ws, i as int) =~= acc@);
    acc
}

/// The body of a definition, one level in, as a list; nothing if absent.
#[verifier::spinoff_prover]
fn format_opt_body(body: &Option<Box<Node>>, source: &[u8], tracker: &mut CommentTracker) -> (r: Vec<Doc>)
    requires
        ready(*old(tracker), source@),
        layout::opt_wf(*body, source@, old(tracker).all()),
    ensures
        same_pass(*old(tracker), *final(tracker)),
        (docs_view(r@), final(tracker).consumed@) == match *body {
            Some(b) => {
                let (d, t) = layout::fmt_body(*b, source@, old(tracker).all(), old(tracker).consumed@);
                (seq![layout::indent_body(d)], t)
            },
            None => (Seq::<DocView>::empty(), old(tracker).consumed@),
        },
    decreases *body, 0int,
{
    match body {
        Some(b) => dv1(indent_body(format_body(&**b, source, tracker))),
        None => Vec::new(),
    }
}




/// Whether a statement list starts before its keyword (modifier form).
fn is_modifier_form(keyword: Loc, statements: &Option<Stmts>) -> (r: bool)
    ensures
        r == layout::is_modifier_form(keyword, *statements),
{
    match statements {
        Some(st) => keyword.start > st.loc.start,
        None => false,
    }
}

/// The keyword of a loop in block form, with its space.
fn loop_head(k: LoopKeyword) -> (r: &'static str)
    ensures
        r@ == layout::loop_head(k),
{
    match k {
        LoopKeyword::While => "while ",
        LoopKeyword::Until => "until ",
    }
}

/// The keyword of a loop in modifier form, with its spaces.
fn loop_modifier(k: LoopKeyword) -> (r: &'static str)
    ensures
        r@ == layout::loop_modifier(k),
{
    match k {
        LoopKeyword::While => " while ",
        LoopKeyword::Until => " until ",
    }
}


/// The keyword text of a jump.
fn jump_word(k: JumpKeyword) -> (r: &'static str)
    ensures
        r@ == layout::jump_word(k),
{
    match k {
        JumpKeyword::Return => "return",
        JumpKeyword::Break => "break",
        JumpKeyword::Next => "next",
    }
}

/// The text between the two sides of a joined node.
fn joiner_text(j: Joiner) -> (r: &'static str)
    ensures
        r@ == layout::joiner_text(j),
{
    match j {
        Joiner::In => " in ",
        Joiner::Arrow => " => ",
        Joiner::Pipe => " | ",
        Joiner::Rescue => " rescue ",
    }
}

/// The arguments of `yield` or `super`: `(args)`, ` args`, `()` or nothing.
fn keyword_args(lparen: Option<Loc>, args: Option<Vec<Doc>>) -> (r: Vec<Doc>)
    ensures
        docs_view(r@) == match opt_docs_view(args) {
            Some(ds) => if lparen is Some {
                seq![paren_args(ds)]
            } else {
                seq![tx(" "@), comma_list(ds)]
            },
            None => if lparen is Some {
                seq![tx("()"@)]
            } else {
                Seq::<DocView>::empty()
            },
        },
{
    match args {
        Some(ds) => if lparen.is_some() {
            dv1(format_paren_args(ds))
        } else {
            dv2(txt(" "), comma_list_doc(ds))
        },
        None => if lparen.is_some() {
            dv1(txt("()"))
        } else {
            Vec::new()
        },
    }
}


/// A block: `{ ... }` flat when it fits, `do ... end` kept as written.
#[verifier::spinoff_prover]
pub fn format_block_node(n: &Node, source: &[u8], tracker: &mut CommentTracker) -> (r: Doc)
    requires
        ready(*old(tracker), source@),
        node_wf(*n, source@, old(tracker).all()),
    ensures
        same_pass(*old(tracker), *final(tracker)),
        (r@, final(tracker).consumed@) == layout::fmt_block(
            *n,
            source@,
            old(tracker).all(),
            old(tracker).consumed@,
        ),
    decreases *n, 2int,
{
    match &n.kind {
        NodeKind::Block { opening, parameters, body } => {
            let is_brace = str_eq(loc_str(*opening, source).as_str(), "{");
            let pd = format_opt(parameters, source, tracker);
            proof {
                lemma_opt_wf(*body, source@, old(tracker).all());
            }
            if is_brace {
                let bd = match body {
                    Some(b) => {
                        let d = format_body(&**b, source, tracker);
                        dv3(txt(" "), d, txt(" "))
                    },
                    None => Vec::new(),
                };
                let mut parts = dv1(txt("{"));
                append_docs(&mut parts, opt_after_vec(txt(" "), pd));
                append_docs(&mut parts, bd);
                append_docs(&mut parts, dv1(txt("}")));
                Doc::group(cat(parts))
            } else {
                let bd = format_opt_body(body, source, tracker);
                let mut parts = dv1(txt("do"));
                append_docs(&mut parts, opt_after_vec(txt(" "), pd));
                append_docs(&mut parts, bd);
                append_docs(&mut parts, end_parts());
                cat(parts)
            }
        },
        _ => Doc::Empty,
    }
}


/// Names, parameters printed as written and nodes printed as their source.
#[verifier::spinoff_prover]
fn format_leaf_node(n: &Node, source: &[u8], tracker: &mut CommentTracker) -> (r: Doc)
    requires
        ready(*old(tracker), source@),
        node_wf(*n, source@, old(tracker).all()),
        is_leaf_kind(n.kind),
    ensures
        same_pass(*old(tracker), *final(tracker)),
        (r@, final(tracker).consumed@) == layout::fmt_leaf_node(
            *n,
            source@,
            old(tracker).all(),
            old(tracker).consumed@,
        ),
    decreases *n, 2int,
{
    match &n.kind {
        NodeKind::Source => loc_doc(n.loc, source),
        NodeKind::Name { name } => name_doc(name),
        NodeKind::PrefixedName { operator, name } => match name {
            Some(x) => cat(dv2(loc_doc(*operator, source), name_doc(x))),
            None => loc_doc(*operator, source),
        },
        NodeKind::RequiredKeyword { name } => {
            let t = concat_str(name_str(name).as_str(), ":");
            Doc::text(t.as_str())
        },
        NodeKind::NoKeywords => txt("**nil"),
        NodeKind::Nothing => Doc::Empty,
        _ => Doc::Empty,
    }
}

/// Format a `Program` node.
#[verifier::spinoff_prover]
fn format_program_node(n: &Node, source: &[u8], tracker: &mut CommentTracker) -> (r: Doc)
    requires
        ready(*old(tracker), source@),
        node_wf(*n, source@, old(tracker).all()),
        n.kind is Program,
    ensures
        same_pass(*old(tracker), *final(tracker)),
        (r@, final(tracker).consumed@) == layout::fmt_program_node(
            *n,
            source@,
            old(tracker).all(),
            old(tracker).consumed@,
        ),
    decreases *n, 2int,
{
    match &n.kind {
        NodeKind::Program { statements } => format_stmts_of(statements, source, tracker),
        _ => Doc::Empty,
    }
}

/// Format a `Statements` node.
#[verifier::spinoff_prover]
fn format_statements_node(n: &Node, source: &[u8], tracker: &mut CommentTracker) -> (r: Doc)
    requires
        ready(*old(tracker), source@),
        node_wf(*n, source@, old(tracker).all()),
        n.kind is Statements,
    ensures
        same_pass(*old(tracker), *final(tracker)),
        (r@, final(tracker).consumed@) == layout::fmt_statements_node(
            *n,
            source@,
            old(tracker).all(),
            old(tracker).consumed@,
        ),
    decreases *n, 2int,
{
    match &n.kind {
        NodeKind::Statements { body } => format_statements_body(body, source, tracker),
        _ => Doc::Empty,
    }
}

/// Format a `NameWrite` node.
#[verifier::spinoff_prover]
fn format_name_write_node(n: &Node, source: &[u8], tracker: &mut CommentTracker) -> (r: Doc)
    requires
        ready(*old(tracker), source@),
        node_wf(*n, source@, old(tracker).all()),
        n.kind is NameWrite,
    ensures
        same_pass(*old(tracker), *final(tracker)),
        (r@, final(tracker).consumed@) == layout::fmt_name_write_node(
            *n,
            source@,
            old(tracker).all(),
            old(tracker).consumed@,
        ),
    decreases *n, 2int,
{
    match &n.kind {
        NodeKind::NameWrite { name, operator, value } => {
            let nm = loc_str(*name, source);
            let op = loc_str(*operator, source);
            format_simple_write(nm.as_str(), op.as_str(), &**value, source, tracker)
        },
        _ => Doc::Empty,
    }
}

/// Format a `TargetWrite` node.
#[verifier::spinoff_prover]
fn format_target_write_node(n: &Node, source: &[u8], tracker: &mut CommentTracker) -> (r: Doc)
    requires
        ready(*old(tracker), source@),
        node_wf(*n, source@, old(tracker).all()),
        n.kind is TargetWrite,
    ensures
        same_pass(*old(tracker), *final(tracker)),
        (r@, final(tracker).consumed@) == layout::fmt_target_write_node(
            *n,
            source@,
            old(tracker).all(),
            old(tracker).consumed@,
        ),
    decreases *n, 2int,
{
    match &n.kind {
        NodeKind::TargetWrite { target, operator, value } => {
            let a = format_node(&**target, source, tracker);
            let v = format_node(&**value, source, tracker);
            cat(dv5(a, txt(" "), loc_doc(*operator, source), txt(" "), v))
        },
        _ => Doc::Empty,
    }
}

/// Format a `ConstantPath` node.
#[verifier::spinoff_prover]
fn format_constant_path_node(n: &Node, source: &[u8], tracker: &mut CommentTracker) -> (r: Doc)
    requires
        ready(*old(tracker), source@),
        node_wf(*n, source@, old(tracker).all()),
        n.kind is ConstantPath,
    ensures
        same_pass(*old(tracker), *final(tracker)),
        (r@, final(tracker).consumed@) == layout::fmt_constant_path_node(
            *n,
            source@,
            old(tracker).all(),
            old(tracker).consumed@,
        ),
    decreases *n, 2int,
{
    match &n.kind {
        NodeKind::ConstantPath { parent, delimiter, name } => {
            let pd = format_opt(parent, source, tracker);
            let mut parts = opt_vec(pd);
            append_docs(&mut parts, dv1(loc_doc(*delimiter, source)));
            let nm = match name {
                Some(x) => dv1(name_doc(x)),
                None => Vec::new(),
            };
            append_docs(&mut parts, nm);
            cat(parts)
        },
        _ => Doc::Empty,
    }
}

/// Format a `Str` node.
#[verifier::spinoff_prover]
fn format_str_node(n: &Node, source: &[u8], tracker: &mut CommentTracker) -> (r: Doc)
    requires
        ready(*old(tracker), source@),
        node_wf(*n, source@, old(tracker).all()),
        n.kind is Str,
    ensures
        same_pass(*old(tracker), *final(tracker)),
        (r@, final(tracker).consumed@) == layout::fmt_str_node(
            *n,
            source@,
            old(tracker).all(),
            old(tracker).consumed@,
        ),
    decreases *n, 2int,
{
    match &n.kind {
        NodeKind::Str { opening, content, closing } => {
            if is_heredoc_opening(*opening, source) {
                format_heredoc_string_node(opening.unwrap(), *content, *closing, source)
            } else {
                normalize_string_quotes(n.loc, *opening, *content, source)
            }
        },
        _ => Doc::Empty,
    }
}

/// Format a `InterpolatedStr` node.
#[verifier::spinoff_prover]
fn format_interpolated_str_node(n: &Node, source: &[u8], tracker: &mut CommentTracker) -> (r: Doc)
    requires
        ready(*old(tracker), source@),
        node_wf(*n, source@, old(tracker).all()),
        n.kind is InterpolatedStr,
    ensures
        same_pass(*old(tracker), *final(tracker)),
        (r@, final(tracker).consumed@) == layout::fmt_interpolated_str_node(
            *n,
            source@,
            old(tracker).all(),
            old(tracker).consumed@,
        ),
    decreases *n, 2int,
{
    match &n.kind {
        NodeKind::InterpolatedStr { opening, parts, closing } => {
            if is_heredoc_opening(*opening, source) {
                format_heredoc_interpolated_string_node(opening.unwrap(), closing.unwrap(), source)
            } else {
                let mut out = opt_loc_docs(*opening, source);
                let ps = format_nodes(parts, source, tracker);
                append_docs(&mut out, ps);
                append_docs(&mut out, opt_loc_docs(*closing, source));
                cat(out)
            }
        },
        _ => Doc::Empty,
    }
}

/// Format a `XStr` node.
#[verifier::spinoff_prover]
fn format_x_str_node(n: &Node, source: &[u8], tracker: &mut CommentTracker) -> (r: Doc)
    requires
        ready(*old(tracker), source@),
        node_wf(*n, source@, old(tracker).all()),
        n.kind is XStr,
    ensures
        same_pass(*old(tracker), *final(tracker)),
        (r@, final(tracker).consumed@) == layout::fmt_x_str_node(
            *n,
            source@,
            old(tracker).all(),
            old(tracker).consumed@,
        ),
    decreases *n, 2int,
{
    match &n.kind {
        NodeKind::XStr { opening, content, closing } => {
            if is_heredoc_opening(Some(*opening), source) {
                format_heredoc_string_node(*opening, *content, Some(*closing), source)
            } else {
                loc_doc(n.loc, source)
            }
        },
        _ => Doc::Empty,
    }
}

/// Format a `InterpolatedXStr` node.
#[verifier::spinoff_prover]
fn format_interpolated_x_str_node(n: &Node, source: &[u8], tracker: &mut CommentTracker) -> (r: Doc)
    requires
        ready(*old(tracker), source@),
        node_wf(*n, source@, old(tracker).all()),
        n.kind is InterpolatedXStr,
    ensures
        same_pass(*old(tracker), *final(tracker)),
        (r@, final(tracker).consumed@) == layout::fmt_interpolated_x_str_node(
            *n,
            source@,
            old(tracker).all(),
            old(tracker).consumed@,
        ),
    decreases *n, 2int,
{
    match &n.kind {
        NodeKind::InterpolatedXStr { opening, closing } => {
            if is_heredoc_opening(Some(*opening), source) {
                format_heredoc_interpolated_string_node(*opening, *closing, source)
            } else {
                loc_doc(n.loc, source)
            }
        },
        _ => Doc::Empty,
    }
}

/// Format a `EmbeddedStatements` node.
#[verifier::spinoff_prover]
fn format_embedded_statements_node(n: &Node, source: &[u8], tracker: &mut CommentTracker) -> (r: Doc)
    requires
        ready(*old(tracker), source@),
        node_wf(*n, source@, old(tracker).all()),
        n.kind is EmbeddedStatements,
    ensures
        same_pass(*old(tracker), *final(tracker)),
        (r@, final(tracker).consumed@) == layout::fmt_embedded_statements_node(
            *n,
            source@,
            old(tracker).all(),
            old(tracker).consumed@,
        ),
    decreases *n, 2int,
{
    match &n.kind {
        NodeKind::EmbeddedStatements { opening, statements, closing } => {
            let b = format_opt_stmts(statements, source, tracker);
            cat(dv3(loc_doc(*opening, source), b, loc_doc(*closing, source)))
        },
        _ => Doc::Empty,
    }
}

/// Format a `EmbeddedVariable` node.
#[verifier::spinoff_prover]
fn format_embedded_variable_node(n: &Node, source: &[u8], tracker: &mut CommentTracker) -> (r: Doc)
    requires
        ready(*old(tracker), source@),
        node_wf(*n, source@, old(tracker).all()),
        n.kind is EmbeddedVariable,
    ensures
        same_pass(*old(tracker), *final(tracker)),
        (r@, final(tracker).consumed@) == layout::fmt_embedded_variable_node(
            *n,
            source@,
            old(tracker).all(),
            old(tracker).consumed@,
        ),
    decreases *n, 2int,
{
    match &n.kind {
        NodeKind::EmbeddedVariable { operator, variable } => {
            let v = format_node(&**variable, source, tracker);
            cat(dv2(loc_doc(*operator, source), v))
        },
        _ => Doc::Empty,
    }
}

/// Format a `Array` node.
#[verifier::spinoff_prover]
fn format_array_node(n: &Node, source: &[u8], tracker: &mut CommentTracker) -> (r: Doc)
    requires
        ready(*old(tracker), source@),
        node_wf(*n, source@, old(tracker).all()),
        n.kind is Array,
    ensures
        same_pass(*old(tracker), *final(tracker)),
        (r@, final(tracker).consumed@) == layout::fmt_array_node(
            *n,
            source@,
            old(tracker).all(),
            old(tracker).consumed@,
        ),
    decreases *n, 2int,
{
    match &n.kind {
        NodeKind::Array { opening, elements, closing } => {
            let word_list = match opening {
                Some(o) => is_word_array_opening(loc_str(*o, source).as_str()),
                None => false,
            };
            if word_list {
                proof {
                    lemma_nodes_wf(elements@, 0, source@, old(tracker).all());
                }
                let close = match closing {
                    Some(c) => loc_str(*c, source),
                    None => "]".to_owned(),
                };
                let words = join_words(elements, source);
                let t = concat_str(
                    concat_str(loc_str(opening.unwrap(), source).as_str(), words.as_str()).as_str(),
                    close.as_str(),
                );
                Doc::text(t.as_str())
            } else {
                let es = format_elems(elements, *opening, opt_start(*closing), source, tracker);
                if no_docs(&es) {
                    match opening {
                        Some(o) => loc_doc(*o, source),
                        None => txt("[]"),
                    }
                } else {
                    let open = match opening {
                        Some(o) => loc_str(*o, source),
                        None => "[".to_owned(),
                    };
                    let close = match closing {
                        Some(c) => loc_str(*c, source),
                        None => "]".to_owned(),
                    };
                    format_bracket_body(open.as_str(), close.as_str(), es)
                }
            }
        },
        _ => Doc::Empty,
    }
}

/// Format a `Hash` node.
#[verifier::spinoff_prover]
fn format_hash_node(n: &Node, source: &[u8], tracker: &mut CommentTracker) -> (r: Doc)
    requires
        ready(*old(tracker), source@),
        node_wf(*n, source@, old(tracker).all()),
        n.kind is Hash,
    ensures
        same_pass(*old(tracker), *final(tracker)),
        (r@, final(tracker).consumed@) == layout::fmt_hash_node(
            *n,
            source@,
            old(tracker).all(),
            old(tracker).consumed@,
        ),
    decreases *n, 2int,
{
    match &n.kind {
        NodeKind::Hash { opening, elements, closing } => {
            let es = format_elems(elements, Some(*opening), closing.start, source, tracker);
            if no_docs(&es) {
                cat(dv2(loc_doc(*opening, source), loc_doc(*closing, source)))
            } else {
                let open = loc_str(*opening, source);
                let close = loc_str(*closing, source);
                format_hash_body(open.as_str(), close.as_str(), es)
            }
        },
        _ => Doc::Empty,
    }
}

/// Format a `KeywordHash` node.
#[verifier::spinoff_prover]
fn format_keyword_hash_node(n: &Node, source: &[u8], tracker: &mut CommentTracker) -> (r: Doc)
    requires
        ready(*old(tracker), source@),
        node_wf(*n, source@, old(tracker).all()),
        n.kind is KeywordHash,
    ensures
        same_pass(*old(tracker), *final(tracker)),
        (r@, final(tracker).consumed@) == layout::fmt_keyword_hash_node(
            *n,
            source@,
            old(tracker).all(),
            old(tracker).consumed@,
        ),
    decreases *n, 2int,
{
    match &n.kind {
        NodeKind::KeywordHash { elements } => comma_list_doc(format_elems(elements, None, 0, source, tracker)),
        _ => Doc::Empty,
    }
}

/// Format a `Assoc` node.
#[verifier::spinoff_prover]
fn format_assoc_node(n: &Node, source: &[u8], tracker: &mut CommentTracker) -> (r: Doc)
    requires
        ready(*old(tracker), source@),
        node_wf(*n, source@, old(tracker).all()),
        n.kind is Assoc,
    ensures
        same_pass(*old(tracker), *final(tracker)),
        (r@, final(tracker).consumed@) == layout::fmt_assoc_node(
            *n,
            source@,
            old(tracker).all(),
            old(tracker).consumed@,
        ),
    decreases *n, 2int,
{
    match &n.kind {
        NodeKind::Assoc { key, operator, value } => {
            let k = format_node(&**key, source, tracker);
            let v = format_node(&**value, source, tracker);
            match operator {
                Some(op) => cat(dv5(k, txt(" "), loc_doc(*op, source), txt(" "), v)),
                None => cat(dv3(k, txt(" "), v)),
            }
        },
        _ => Doc::Empty,
    }
}

/// Format a `Splat` node.
#[verifier::spinoff_prover]
fn format_splat_node(n: &Node, source: &[u8], tracker: &mut CommentTracker) -> (r: Doc)
    requires
        ready(*old(tracker), source@),
        node_wf(*n, source@, old(tracker).all()),
        n.kind is Splat,
    ensures
        same_pass(*old(tracker), *final(tracker)),
        (r@, final(tracker).consumed@) == layout::fmt_splat_node(
            *n,
            source@,
            old(tracker).all(),
            old(tracker).consumed@,
        ),
    decreases *n, 2int,
{
    match &n.kind {
        NodeKind::Splat { operator, expression } => {
            let e = format_opt(expression, source, tracker);
            prefixed_doc(loc_doc(*operator, source), e)
        },
        _ => Doc::Empty,
    }
}

/// Format a `BlockArgument` node.
#[verifier::spinoff_prover]
fn format_block_argument_node(n: &Node, source: &[u8], tracker: &mut CommentTracker) -> (r: Doc)
    requires
        ready(*old(tracker), source@),
        node_wf(*n, source@, old(tracker).all()),
        n.kind is BlockArgument,
    ensures
        same_pass(*old(tracker), *final(tracker)),
        (r@, final(tracker).consumed@) == layout::fmt_block_argument_node(
            *n,
            source@,
            old(tracker).all(),
            old(tracker).consumed@,
        ),
    decreases *n, 2int,
{
    match &n.kind {
        NodeKind::BlockArgument { operator, expression } => {
            let e = format_opt(expression, source, tracker);
            prefixed_doc(loc_doc(*operator, source), e)
        },
        _ => Doc::Empty,
    }
}

/// Format a `Range` node.
#[verifier::spinoff_prover]
fn format_range_node(n: &Node, source: &[u8], tracker: &mut CommentTracker) -> (r: Doc)
    requires
        ready(*old(tracker), source@),
        node_wf(*n, source@, old(tracker).all()),
        n.kind is Range,
    ensures
        same_pass(*old(tracker), *final(tracker)),
        (r@, final(tracker).consumed@) == layout::fmt_range_node(
            *n,
            source@,
            old(tracker).all(),
            old(tracker).consumed@,
        ),
    decreases *n, 2int,
{
    match &n.kind {
        NodeKind::Range { left, operator, right } => {
            let l = format_opt(left, source, tracker);
            let rt = format_opt(right, source, tracker);
            let mut parts = opt_vec(l);
            append_docs(&mut parts, dv1(loc_doc(*operator, source)));
            append_docs(&mut parts, opt_vec(rt));
            cat(parts)
        },
        _ => Doc::Empty,
    }
}

/// Format a `Def` node.
#[verifier::spinoff_prover]
fn format_def_node(n: &Node, source: &[u8], tracker: &mut CommentTracker) -> (r: Doc)
    requires
        ready(*old(tracker), source@),
        node_wf(*n, source@, old(tracker).all()),
        n.kind is Def,
    ensures
        same_pass(*old(tracker), *final(tracker)),
        (r@, final(tracker).consumed@) == layout::fmt_def_node(
            *n,
            source@,
            old(tracker).all(),
            old(tracker).consumed@,
        ),
    decreases *n, 2int,
{
    match &n.kind {
        NodeKind::Def {
            receiver,
            operator,
            name,
            name_loc,
            parameters,
            lparen,
            rparen,
            equal,
            body,
            end_keyword,
        } => {
            let rv = format_opt(receiver, source, tracker);
            let mut head = dv1(txt("def"));
            let p_recv = match rv {
                Some(d) => {
                    let mut v = dv2(txt(" "), d);
                    append_docs(&mut v, opt_loc_docs(*operator, source));
                    v
                },
                None => dv1(txt(" ")),
            };
            append_docs(&mut head, p_recv);
            append_docs(&mut head, dv1(name_doc(name)));
            proof {
                lemma_opt_params_wf(*parameters, source@, old(tracker).all());
            }
            let p_params = match parameters {
                Some(ps) => {
                    let pd = format_parameters(ps, source, tracker);
                    if lparen.is_some() {
                        dv1(format_paren_args(pd))
                    } else {
                        dv2(txt(" "), comma_list_doc(pd))
                    }
                },
                None => if lparen.is_some() {
                    dv1(txt("()"))
                } else {
                    Vec::new()
                },
            };
            append_docs(&mut head, p_params);
            match equal {
                Some(eq) => {
                    let bd = format_opt(body, source, tracker);
                    append_docs(&mut head, dv2(txt(" "), loc_doc(*eq, source)));
                    append_docs(&mut head, opt_after_vec(txt(" "), bd));
                    cat(head)
                },
                None => {
                    let p_body = match body {
                        Some(_) => format_opt_body(body, source, tracker),
                        None => match end_keyword {
                            Some(ek) => {
                                let closing_paren = if lparen.is_some() {
                                    *rparen
                                } else {
                                    None
                                };
                                let body_start: usize = match closing_paren {
                                    Some(rp) => rp.end,
                                    None => match parameters {
                                        Some(ps) => ps.loc.end,
                                        None => name_loc.end,
                                    },
                                };
                                let interior = format_interior_comments(body_start, ek.start, tracker);
                                match interior {
                                    Doc::Empty => Vec::new(),
                                    _ => dv1(indent_body(interior)),
                                }
                            },
                            None => Vec::new(),
                        },
                    };
                    append_docs(&mut head, p_body);
                    append_docs(&mut head, end_parts());
                    cat(head)
                },
            }
        },
        _ => Doc::Empty,
    }
}

/// Format a `Class` node.
#[verifier::spinoff_prover]
fn format_class_node(n: &Node, source: &[u8], tracker: &mut CommentTracker) -> (r: Doc)
    requires
        ready(*old(tracker), source@),
        node_wf(*n, source@, old(tracker).all()),
        n.kind is Class,
    ensures
        same_pass(*old(tracker), *final(tracker)),
        (r@, final(tracker).consumed@) == layout::fmt_class_node(
            *n,
            source@,
            old(tracker).all(),
            old(tracker).consumed@,
        ),
    decreases *n, 2int,
{
    match &n.kind {
        NodeKind::Class { constant_path, superclass, body } => {
            let c = format_node(&**constant_path, source, tracker);
            let sp = format_opt(superclass, source, tracker);
            let bd = format_opt_body(body, source, tracker);
            let mut parts = dv2(txt("class "), c);
            append_docs(&mut parts, opt_after_vec(txt(" < "), sp));
            append_docs(&mut parts, bd);
            append_docs(&mut parts, end_parts());
            cat(parts)
        },
        _ => Doc::Empty,
    }
}

/// Format a `Module` node.
#[verifier::spinoff_prover]
fn format_module_node(n: &Node, source: &[u8], tracker: &mut CommentTracker) -> (r: Doc)
    requires
        ready(*old(tracker), source@),
        node_wf(*n, source@, old(tracker).all()),
        n.kind is Module,
    ensures
        same_pass(*old(tracker), *final(tracker)),
        (r@, final(tracker).consumed@) == layout::fmt_module_node(
            *n,
            source@,
            old(tracker).all(),
            old(tracker).consumed@,
        ),
    decreases *n, 2int,
{
    match &n.kind {
        NodeKind::Module { constant_path, body } => {
            let c = format_node(&**constant_path, source, tracker);
            let bd = format_opt_body(body, source, tracker);
            let mut parts = dv2(txt("module "), c);
            append_docs(&mut parts, bd);
            append_docs(&mut parts, end_parts());
            cat(parts)
        },
        _ => Doc::Empty,
    }
}

/// Format a `SingletonClass` node.
#[verifier::spinoff_prover]
fn format_singleton_class_node(n: &Node, source: &[u8], tracker: &mut CommentTracker) -> (r: Doc)
    requires
        ready(*old(tracker), source@),
        node_wf(*n, source@, old(tracker).all()),
        n.kind is SingletonClass,
    ensures
        same_pass(*old(tracker), *final(tracker)),
        (r@, final(tracker).consumed@) == layout::fmt_singleton_class_node(
            *n,
            source@,
            old(tracker).all(),
            old(tracker).consumed@,
        ),
    decreases *n, 2int,
{
    match &n.kind {
        NodeKind::SingletonClass { operator, expression, body } => {
            let e = format_node(&**expression, source, tracker);
            let bd = format_opt_body(body, source, tracker);
            let mut parts = dv4(txt("class "), loc_doc(*operator, source), txt(" "), e);
            append_docs(&mut parts, bd);
            append_docs(&mut parts, end_parts());
            cat(parts)
        },
        _ => Doc::Empty,
    }
}

/// Format a `Lambda` node.
#[verifier::spinoff_prover]
fn format_lambda_node(n: &Node, source: &[u8], tracker: &mut CommentTracker) -> (r: Doc)
    requires
        ready(*old(tracker), source@),
        node_wf(*n, source@, old(tracker).all()),
        n.kind is Lambda,
    ensures
        same_pass(*old(tracker), *final(tracker)),
        (r@, final(tracker).consumed@) == layout::fmt_lambda_node(
            *n,
            source@,
            old(tracker).all(),
            old(tracker).consumed@,
        ),
    decreases *n, 2int,
{
    match &n.kind {
        NodeKind::Lambda { opening, closing, parameters, body } => {
            let pd = format_opt(parameters, source, tracker);
            proof {
                lemma_opt_wf(*body, source@, old(tracker).all());
            }
            let bd = match body {
                Some(b) => dv2(indent_body(format_body(&**b, source, tracker)), Doc::hardline()),
                None => Vec::new(),
            };
            let mut parts = dv1(txt("->"));
            append_docs(&mut parts, opt_vec(pd));
            append_docs(&mut parts, dv2(txt(" "), loc_doc(*opening, source)));
            append_docs(&mut parts, bd);
            append_docs(&mut parts, dv1(loc_doc(*closing, source)));
            cat(parts)
        },
        _ => Doc::Empty,
    }
}

/// Format a `BlockParameters` node.
#[verifier::spinoff_prover]
fn format_block_parameters_node(n: &Node, source: &[u8], tracker: &mut CommentTracker) -> (r: Doc)
    requires
        ready(*old(tracker), source@),
        node_wf(*n, source@, old(tracker).all()),
        n.kind is BlockParameters,
    ensures
        same_pass(*old(tracker), *final(tracker)),
        (r@, final(tracker).consumed@) == layout::fmt_block_parameters_node(
            *n,
            source@,
            old(tracker).all(),
            old(tracker).consumed@,
        ),
    decreases *n, 2int,
{
    match &n.kind {
        NodeKind::BlockParameters { opening, parameters, locals, closing } => {
            proof {
                lemma_opt_params_wf(*parameters, source@, old(tracker).all());
            }
            let mut parts = opt_loc_docs(*opening, source);
            let mut inner = match parameters {
                Some(ps) => dv1(comma_list_doc(format_parameters(ps, source, tracker))),
                None => Vec::new(),
            };
            let ls = format_nodes(locals, source, tracker);
            if !no_docs(&ls) {
                append_docs(&mut inner, dv2(txt("; "), comma_list_doc(ls)));
            }
            let g = if no_docs(&inner) {
                Vec::new()
            } else {
                dv1(Doc::group(cat(inner)))
            };
            append_docs(&mut parts, g);
            append_docs(&mut parts, opt_loc_docs(*closing, source));
            cat(parts)
        },
        _ => Doc::Empty,
    }
}

/// Format a `CallWrite` node.
#[verifier::spinoff_prover]
fn format_call_write_node(n: &Node, source: &[u8], tracker: &mut CommentTracker) -> (r: Doc)
    requires
        ready(*old(tracker), source@),
        node_wf(*n, source@, old(tracker).all()),
        n.kind is CallWrite,
    ensures
        same_pass(*old(tracker), *final(tracker)),
        (r@, final(tracker).consumed@) == layout::fmt_call_write_node(
            *n,
            source@,
            old(tracker).all(),
            old(tracker).consumed@,
        ),
    decreases *n, 2int,
{
    match &n.kind {
        NodeKind::CallWrite { receiver, call_operator, message, operator, value } => {
            let rv = format_opt(receiver, source, tracker);
            let mut parts = match rv {
                Some(d) => {
                    let mut v = dv1(d);
                    append_docs(&mut v, opt_loc_docs(*call_operator, source));
                    v
                },
                None => Vec::new(),
            };
            append_docs(&mut parts, opt_loc_docs(*message, source));
            let v = format_node(&**value, source, tracker);
            append_docs(&mut parts, dv4(txt(" "), loc_doc(*operator, source), txt(" "), v));
            cat(parts)
        },
        _ => Doc::Empty,
    }
}

/// Format a `CallTarget` node.
#[verifier::spinoff_prover]
fn format_call_target_node(n: &Node, source: &[u8], tracker: &mut CommentTracker) -> (r: Doc)
    requires
        ready(*old(tracker), source@),
        node_wf(*n, source@, old(tracker).all()),
        n.kind is CallTarget,
    ensures
        same_pass(*old(tracker), *final(tracker)),
        (r@, final(tracker).consumed@) == layout::fmt_call_target_node(
            *n,
            source@,
            old(tracker).all(),
            old(tracker).consumed@,
        ),
    decreases *n, 2int,
{
    match &n.kind {
        NodeKind::CallTarget { receiver, call_operator, name } => {
            let r = format_node(&**receiver, source, tracker);
            cat(dv3(r, loc_doc(*call_operator, source), name_doc(name)))
        },
        _ => Doc::Empty,
    }
}

/// Format a `IndexWrite` node.
#[verifier::spinoff_prover]
fn format_index_write_node(n: &Node, source: &[u8], tracker: &mut CommentTracker) -> (r: Doc)
    requires
        ready(*old(tracker), source@),
        node_wf(*n, source@, old(tracker).all()),
        n.kind is IndexWrite,
    ensures
        same_pass(*old(tracker), *final(tracker)),
        (r@, final(tracker).consumed@) == layout::fmt_index_write_node(
            *n,
            source@,
            old(tracker).all(),
            old(tracker).consumed@,
        ),
    decreases *n, 2int,
{
    match &n.kind {
        NodeKind::IndexWrite { receiver, opening, arguments, closing, operator, value } => {
            let rv = format_opt(receiver, source, tracker);
            let args = format_opt_nodes(arguments, source, tracker);
            let p_args = match args {
                Some(ds) => dv1(comma_list_doc(ds)),
                None => Vec::new(),
            };
            let v = format_node(&**value, source, tracker);
            let mut parts = opt_vec(rv);
            append_docs(&mut parts, dv1(loc_doc(*opening, source)));
            append_docs(&mut parts, p_args);
            append_docs(
                &mut parts,
                dv5(loc_doc(*closing, source), txt(" "), loc_doc(*operator, source), txt(" "), v),
            );
            cat(parts)
        },
        _ => Doc::Empty,
    }
}

/// Format a `IndexTarget` node.
#[verifier::spinoff_prover]
fn format_index_target_node(n: &Node, source: &[u8], tracker: &mut CommentTracker) -> (r: Doc)
    requires
        ready(*old(tracker), source@),
        node_wf(*n, source@, old(tracker).all()),
        n.kind is IndexTarget,
    ensures
        same_pass(*old(tracker), *final(tracker)),
        (r@, final(tracker).consumed@) == layout::fmt_index_target_node(
            *n,
            source@,
            old(tracker).all(),
            old(tracker).consumed@,
        ),
    decreases *n, 2int,
{
    match &n.kind {
        NodeKind::IndexTarget { receiver, opening, arguments, closing } => {
            let r = format_node(&**receiver, source, tracker);
            let args = format_opt_nodes(arguments, source, tracker);
            let p_args = match args {
                Some(ds) => dv1(comma_list_doc(ds)),
                None => Vec::new(),
            };
            let mut parts = dv2(r, loc_doc(*opening, source));
            append_docs(&mut parts, p_args);
            append_docs(&mut parts, dv1(loc_doc(*closing, source)));
            cat(parts)
        },
        _ => Doc::Empty,
    }
}

/// Format a `Arguments` node.
#[verifier::spinoff_prover]
fn format_arguments_node(n: &Node, source: &[u8], tracker: &mut CommentTracker) -> (r: Doc)
    requires
        ready(*old(tracker), source@),
        node_wf(*n, source@, old(tracker).all()),
        n.kind is Arguments,
    ensures
        same_pass(*old(tracker), *final(tracker)),
        (r@, final(tracker).consumed@) == layout::fmt_arguments_node(
            *n,
            source@,
            old(tracker).all(),
            old(tracker).consumed@,
        ),
    decreases *n, 2int,
{
    match &n.kind {
        NodeKind::Arguments { arguments } => comma_list_doc(format_nodes(arguments, source, tracker)),
        _ => Doc::Empty,
    }
}

/// Format a `OptionalParameter` node.
#[verifier::spinoff_prover]
fn format_optional_parameter_node(n: &Node, source: &[u8], tracker: &mut CommentTracker) -> (r: Doc)
    requires
        ready(*old(tracker), source@),
        node_wf(*n, source@, old(tracker).all()),
        n.kind is OptionalParameter,
    ensures
        same_pass(*old(tracker), *final(tracker)),
        (r@, final(tracker).consumed@) == layout::fmt_optional_parameter_node(
            *n,
            source@,
            old(tracker).all(),
            old(tracker).consumed@,
        ),
    decreases *n, 2int,
{
    match &n.kind {
        NodeKind::OptionalParameter { name, value } => {
            let v = format_node(&**value, source, tracker);
            cat(dv3(name_doc(name), txt(" = "), v))
        },
        _ => Doc::Empty,
    }
}

/// Format a `OptionalKeyword` node.
#[verifier::spinoff_prover]
fn format_optional_keyword_node(n: &Node, source: &[u8], tracker: &mut CommentTracker) -> (r: Doc)
    requires
        ready(*old(tracker), source@),
        node_wf(*n, source@, old(tracker).all()),
        n.kind is OptionalKeyword,
    ensures
        same_pass(*old(tracker), *final(tracker)),
        (r@, final(tracker).consumed@) == layout::fmt_optional_keyword_node(
            *n,
            source@,
            old(tracker).all(),
            old(tracker).consumed@,
        ),
    decreases *n, 2int,
{
    match &n.kind {
        NodeKind::OptionalKeyword { name, value } => {
            let v = format_node(&**value, source, tracker);
            let t = concat_str(name_str(name).as_str(), ": ");
            cat(dv2(Doc::text(t.as_str()), v))
        },
        _ => Doc::Empty,
    }
}

/// Format a `If` node.
#[verifier::spinoff_prover]
fn format_if_node(n: &Node, source: &[u8], tracker: &mut CommentTracker) -> (r: Doc)
    requires
        ready(*old(tracker), source@),
        node_wf(*n, source@, old(tracker).all()),
        n.kind is If,
    ensures
        same_pass(*old(tracker), *final(tracker)),
        (r@, final(tracker).consumed@) == layout::fmt_if_node(
            *n,
            source@,
            old(tracker).all(),
            old(tracker).consumed@,
        ),
    decreases *n, 2int,
{
    match &n.kind {
        NodeKind::If { if_keyword, predicate, statements, subsequent, end_keyword } => {
            let modifier = match if_keyword {
                Some(k) => is_modifier_form(*k, statements),
                None => false,
            };
            if modifier {
                let b = format_opt_stmts(statements, source, tracker);
                let p = format_node(&**predicate, source, tracker);
                cat(dv3(b, txt(" if "), p))
            } else if if_keyword.is_none() {
                let p = format_node(&**predicate, source, tracker);
                let th = format_opt_stmts(statements, source, tracker);
                let el = format_ternary_else(subsequent, source, tracker);
                cat(dv5(p, txt(" ? "), th, txt(" : "), el))
            } else {
                let kw = loc_str(if_keyword.unwrap(), source);
                let p = format_node(&**predicate, source, tracker);
                let bd = format_opt_block_body(statements, source, tracker);
                let sb = format_opt(subsequent, source, tracker);
                let end = if !str_eq(kw.as_str(), "elsif") && end_keyword.is_some() {
                    end_parts()
                } else {
                    Vec::new()
                };
                let mut parts = dv3(Doc::text(kw.as_str()), txt(" "), p);
                append_docs(&mut parts, bd);
                append_docs(&mut parts, opt_after_vec(Doc::hardline(), sb));
                append_docs(&mut parts, end);
                cat(parts)
            }
        },
        _ => Doc::Empty,
    }
}

/// Format a `Unless` node.
#[verifier::spinoff_prover]
fn format_unless_node(n: &Node, source: &[u8], tracker: &mut CommentTracker) -> (r: Doc)
    requires
        ready(*old(tracker), source@),
        node_wf(*n, source@, old(tracker).all()),
        n.kind is Unless,
    ensures
        same_pass(*old(tracker), *final(tracker)),
        (r@, final(tracker).consumed@) == layout::fmt_unless_node(
            *n,
            source@,
            old(tracker).all(),
            old(tracker).consumed@,
        ),
    decreases *n, 2int,
{
    match &n.kind {
        NodeKind::Unless { keyword, predicate, statements, else_clause, end_keyword } => {
            if is_modifier_form(*keyword, statements) {
                let b = format_opt_stmts(statements, source, tracker);
                let p = format_node(&**predicate, source, tracker);
                cat(dv3(b, txt(" unless "), p))
            } else {
                let p = format_node(&**predicate, source, tracker);
                let bd = format_opt_block_body(statements, source, tracker);
                let el = format_opt(else_clause, source, tracker);
                let end = if end_keyword.is_some() {
                    end_parts()
                } else {
                    Vec::new()
                };
                let mut parts = dv2(txt("unless "), p);
                append_docs(&mut parts, bd);
                append_docs(&mut parts, opt_after_vec(Doc::hardline(), el));
                append_docs(&mut parts, end);
                cat(parts)
            }
        },
        _ => Doc::Empty,
    }
}

/// Format a `Else` node.
#[verifier::spinoff_prover]
fn format_else_node(n: &Node, source: &[u8], tracker: &mut CommentTracker) -> (r: Doc)
    requires
        ready(*old(tracker), source@),
        node_wf(*n, source@, old(tracker).all()),
        n.kind is Else,
    ensures
        same_pass(*old(tracker), *final(tracker)),
        (r@, final(tracker).consumed@) == layout::fmt_else_node(
            *n,
            source@,
            old(tracker).all(),
            old(tracker).consumed@,
        ),
    decreases *n, 2int,
{
    match &n.kind {
        NodeKind::Else { statements } => {
            let bd = format_opt_block_body(statements, source, tracker);
            let mut parts = dv1(txt("else"));
            append_docs(&mut parts, bd);
            cat(parts)
        },
        _ => Doc::Empty,
    }
}

/// Format a `Case` node.
#[verifier::spinoff_prover]
fn format_case_node(n: &Node, source: &[u8], tracker: &mut CommentTracker) -> (r: Doc)
    requires
        ready(*old(tracker), source@),
        node_wf(*n, source@, old(tracker).all()),
        n.kind is Case,
    ensures
        same_pass(*old(tracker), *final(tracker)),
        (r@, final(tracker).consumed@) == layout::fmt_case_node(
            *n,
            source@,
            old(tracker).all(),
            old(tracker).consumed@,
        ),
    decreases *n, 2int,
{
    match &n.kind {
        NodeKind::Case { predicate, conditions, else_clause } => {
            let p = format_opt(predicate, source, tracker);
            let cds = format_nodes(conditions, source, tracker);
            let el = format_opt(else_clause, source, tracker);
            let mut parts = dv1(txt("case"));
            append_docs(&mut parts, opt_after_vec(txt(" "), p));
            append_docs(&mut parts, each_on_new_line_docs(cds));
            append_docs(&mut parts, opt_after_vec(Doc::hardline(), el));
            append_docs(&mut parts, end_parts());
            cat(parts)
        },
        _ => Doc::Empty,
    }
}

/// Format a `When` node.
#[verifier::spinoff_prover]
fn format_when_node(n: &Node, source: &[u8], tracker: &mut CommentTracker) -> (r: Doc)
    requires
        ready(*old(tracker), source@),
        node_wf(*n, source@, old(tracker).all()),
        n.kind is When,
    ensures
        same_pass(*old(tracker), *final(tracker)),
        (r@, final(tracker).consumed@) == layout::fmt_when_node(
            *n,
            source@,
            old(tracker).all(),
            old(tracker).consumed@,
        ),
    decreases *n, 2int,
{
    match &n.kind {
        NodeKind::When { conditions, statements } => {
            let cds = format_nodes(conditions, source, tracker);
            let bd = format_opt_block_body(statements, source, tracker);
            let mut parts = dv2(txt("when "), Doc::group(comma_list_doc(cds)));
            append_docs(&mut parts, bd);
            cat(parts)
        },
        _ => Doc::Empty,
    }
}

/// Format a `In` node.
#[verifier::spinoff_prover]
fn format_in_node(n: &Node, source: &[u8], tracker: &mut CommentTracker) -> (r: Doc)
    requires
        ready(*old(tracker), source@),
        node_wf(*n, source@, old(tracker).all()),
        n.kind is In,
    ensures
        same_pass(*old(tracker), *final(tracker)),
        (r@, final(tracker).consumed@) == layout::fmt_in_node(
            *n,
            source@,
            old(tracker).all(),
            old(tracker).consumed@,
        ),
    decreases *n, 2int,
{
    match &n.kind {
        NodeKind::In { pattern, statements } => {
            let p = format_node(&**pattern, source, tracker);
            let bd = format_opt_block_body(statements, source, tracker);
            let mut parts = dv2(txt("in "), p);
            append_docs(&mut parts, bd);
            cat(parts)
        },
        _ => Doc::Empty,
    }
}

/// Format a `Loop` node.
#[verifier::spinoff_prover]
fn format_loop_node(n: &Node, source: &[u8], tracker: &mut CommentTracker) -> (r: Doc)
    requires
        ready(*old(tracker), source@),
        node_wf(*n, source@, old(tracker).all()),
        n.kind is Loop,
    ensures
        same_pass(*old(tracker), *final(tracker)),
        (r@, final(tracker).consumed@) == layout::fmt_loop_node(
            *n,
            source@,
            old(tracker).all(),
            old(tracker).consumed@,
        ),
    decreases *n, 2int,
{
    match &n.kind {
        NodeKind::Loop { keyword, keyword_loc, predicate, statements } => {
            if is_modifier_form(*keyword_loc, statements) {
                let b = format_opt_stmts(statements, source, tracker);
                let p = format_node(&**predicate, source, tracker);
                cat(dv3(b, txt(loop_modifier(*keyword)), p))
            } else {
                let p = format_node(&**predicate, source, tracker);
                let bd = format_opt_block_body(statements, source, tracker);
                let mut parts = dv2(txt(loop_head(*keyword)), p);
                append_docs(&mut parts, bd);
                append_docs(&mut parts, end_parts());
                cat(parts)
            }
        },
        _ => Doc::Empty,
    }
}

/// Format a `For` node.
#[verifier::spinoff_prover]
fn format_for_node(n: &Node, source: &[u8], tracker: &mut CommentTracker) -> (r: Doc)
    requires
        ready(*old(tracker), source@),
        node_wf(*n, source@, old(tracker).all()),
        n.kind is For,
    ensures
        same_pass(*old(tracker), *final(tracker)),
        (r@, final(tracker).consumed@) == layout::fmt_for_node(
            *n,
            source@,
            old(tracker).all(),
            old(tracker).consumed@,
        ),
    decreases *n, 2int,
{
    match &n.kind {
        NodeKind::For { index, collection, statements } => {
            let i = format_node(&**index, source, tracker);
            let c = format_node(&**collection, source, tracker);
            let bd = format_opt_block_body(statements, source, tracker);
            let mut parts = dv4(txt("for "), i, txt(" in "), c);
            append_docs(&mut parts, bd);
            append_docs(&mut parts, end_parts());
            cat(parts)
        },
        _ => Doc::Empty,
    }
}

/// Format a `Logical` node.
#[verifier::spinoff_prover]
fn format_logical_node(n: &Node, source: &[u8], tracker: &mut CommentTracker) -> (r: Doc)
    requires
        ready(*old(tracker), source@),
        node_wf(*n, source@, old(tracker).all()),
        n.kind is Logical,
    ensures
        same_pass(*old(tracker), *final(tracker)),
        (r@, final(tracker).consumed@) == layout::fmt_logical_node(
            *n,
            source@,
            old(tracker).all(),
            old(tracker).consumed@,
        ),
    decreases *n, 2int,
{
    match &n.kind {
        NodeKind::Logical { left, operator, right } => {
            let l = format_node(&**left, source, tracker);
            let r = format_node(&**right, source, tracker);
            cat(dv5(l, txt(" "), loc_doc(*operator, source), txt(" "), r))
        },
        _ => Doc::Empty,
    }
}

/// Format a `Parentheses` node.
#[verifier::spinoff_prover]
fn format_parentheses_node(n: &Node, source: &[u8], tracker: &mut CommentTracker) -> (r: Doc)
    requires
        ready(*old(tracker), source@),
        node_wf(*n, source@, old(tracker).all()),
        n.kind is Parentheses,
    ensures
        same_pass(*old(tracker), *final(tracker)),
        (r@, final(tracker).consumed@) == layout::fmt_parentheses_node(
            *n,
            source@,
            old(tracker).all(),
            old(tracker).consumed@,
        ),
    decreases *n, 2int,
{
    match &n.kind {
        NodeKind::Parentheses { opening, body, closing } => {
            let b = format_opt(body, source, tracker);
            let mut parts = dv1(loc_doc(*opening, source));
            append_docs(&mut parts, opt_vec(b));
            append_docs(&mut parts, dv1(loc_doc(*closing, source)));
            cat(parts)
        },
        _ => Doc::Empty,
    }
}

/// Format a `Begin` node.
#[verifier::spinoff_prover]
fn format_begin_node(n: &Node, source: &[u8], tracker: &mut CommentTracker) -> (r: Doc)
    requires
        ready(*old(tracker), source@),
        node_wf(*n, source@, old(tracker).all()),
        n.kind is Begin,
    ensures
        same_pass(*old(tracker), *final(tracker)),
        (r@, final(tracker).consumed@) == layout::fmt_begin_node(
            *n,
            source@,
            old(tracker).all(),
            old(tracker).consumed@,
        ),
    decreases *n, 2int,
{
    match &n.kind {
        NodeKind::Begin {
            begin_keyword,
            statements,
            rescue_clause,
            else_clause,
            ensure_clause,
            end_keyword,
        } => {
            let mut parts = if begin_keyword.is_some() {
                dv1(txt("begin"))
            } else {
                Vec::new()
            };
            let p1 = format_opt_block_body(statements, source, tracker);
            append_docs(&mut parts, p1);
            let p2 = match rescue_clause {
                Some(r) => {
                    let d = format_rescue_chain(r, source, tracker);
                    dv2(Doc::hardline(), d)
                },
                None => Vec::new(),
            };
            append_docs(&mut parts, p2);
            let e = format_opt(else_clause, source, tracker);
            let en = format_opt(ensure_clause, source, tracker);
            append_docs(&mut parts, opt_after_vec(Doc::hardline(), e));
            append_docs(&mut parts, opt_after_vec(Doc::hardline(), en));
            if end_keyword.is_some() {
                append_docs(&mut parts, end_parts());
            } else {
                append_docs(&mut parts, Vec::new());
            }
            cat(parts)
        },
        _ => Doc::Empty,
    }
}

/// Format a `Ensure` node.
#[verifier::spinoff_prover]
fn format_ensure_node(n: &Node, source: &[u8], tracker: &mut CommentTracker) -> (r: Doc)
    requires
        ready(*old(tracker), source@),
        node_wf(*n, source@, old(tracker).all()),
        n.kind is Ensure,
    ensures
        same_pass(*old(tracker), *final(tracker)),
        (r@, final(tracker).consumed@) == layout::fmt_ensure_node(
            *n,
            source@,
            old(tracker).all(),
            old(tracker).consumed@,
        ),
    decreases *n, 2int,
{
    match &n.kind {
        NodeKind::Ensure { statements } => {
            let bd = format_opt_block_body(statements, source, tracker);
            let mut parts = dv1(txt("ensure"));
            append_docs(&mut parts, bd);
            cat(parts)
        },
        _ => Doc::Empty,
    }
}

/// Format a `Joined` node.
#[verifier::spinoff_prover]
fn format_joined_node(n: &Node, source: &[u8], tracker: &mut CommentTracker) -> (r: Doc)
    requires
        ready(*old(tracker), source@),
        node_wf(*n, source@, old(tracker).all()),
        n.kind is Joined,
    ensures
        same_pass(*old(tracker), *final(tracker)),
        (r@, final(tracker).consumed@) == layout::fmt_joined_node(
            *n,
            source@,
            old(tracker).all(),
            old(tracker).consumed@,
        ),
    decreases *n, 2int,
{
    match &n.kind {
        NodeKind::Joined { left, joiner, right } => {
            let l = format_node(&**left, source, tracker);
            let r = format_node(&**right, source, tracker);
            cat(dv3(l, txt(joiner_text(*joiner)), r))
        },
        _ => Doc::Empty,
    }
}

/// Format a `Jump` node.
#[verifier::spinoff_prover]
fn format_jump_node(n: &Node, source: &[u8], tracker: &mut CommentTracker) -> (r: Doc)
    requires
        ready(*old(tracker), source@),
        node_wf(*n, source@, old(tracker).all()),
        n.kind is Jump,
    ensures
        same_pass(*old(tracker), *final(tracker)),
        (r@, final(tracker).consumed@) == layout::fmt_jump_node(
            *n,
            source@,
            old(tracker).all(),
            old(tracker).consumed@,
        ),
    decreases *n, 2int,
{
    match &n.kind {
        NodeKind::Jump { keyword, arguments } => {
            let args = format_opt_nodes(arguments, source, tracker);
            let p = match args {
                Some(ds) => dv2(txt(" "), comma_list_doc(ds)),
                None => Vec::new(),
            };
            let mut parts = dv1(txt(jump_word(*keyword)));
            append_docs(&mut parts, p);
            cat(parts)
        },
        _ => Doc::Empty,
    }
}

/// Format a `Yield` node.
#[verifier::spinoff_prover]
fn format_yield_node(n: &Node, source: &[u8], tracker: &mut CommentTracker) -> (r: Doc)
    requires
        ready(*old(tracker), source@),
        node_wf(*n, source@, old(tracker).all()),
        n.kind is Yield,
    ensures
        same_pass(*old(tracker), *final(tracker)),
        (r@, final(tracker).consumed@) == layout::fmt_yield_node(
            *n,
            source@,
            old(tracker).all(),
            old(tracker).consumed@,
        ),
    decreases *n, 2int,
{
    match &n.kind {
        NodeKind::Yield { lparen, arguments } => {
            let args = format_opt_nodes(arguments, source, tracker);
            let mut parts = dv1(txt("yield"));
            append_docs(&mut parts, keyword_args(*lparen, args));
            cat(parts)
        },
        _ => Doc::Empty,
    }
}

/// Format a `Super` node.
#[verifier::spinoff_prover]
fn format_super_node(n: &Node, source: &[u8], tracker: &mut CommentTracker) -> (r: Doc)
    requires
        ready(*old(tracker), source@),
        node_wf(*n, source@, old(tracker).all()),
        n.kind is Super,
    ensures
        same_pass(*old(tracker), *final(tracker)),
        (r@, final(tracker).consumed@) == layout::fmt_super_node(
            *n,
            source@,
            old(tracker).all(),
            old(tracker).consumed@,
        ),
    decreases *n, 2int,
{
    match &n.kind {
        NodeKind::Super { lparen, arguments, block } => {
            let args = format_opt_nodes(arguments, source, tracker);
            let p = keyword_args(*lparen, args);
            let b = format_opt(block, source, tracker);
            let mut parts = dv1(txt("super"));
            append_docs(&mut parts, p);
            append_docs(&mut parts, opt_after_vec(txt(" "), b));
            cat(parts)
        },
        _ => Doc::Empty,
    }
}

/// Format a `ForwardingSuper` node.
#[verifier::spinoff_prover]
fn format_forwarding_super_node(n: &Node, source: &[u8], tracker: &mut CommentTracker) -> (r: Doc)
    requires
        ready(*old(tracker), source@),
        node_wf(*n, source@, old(tracker).all()),
        n.kind is ForwardingSuper,
    ensures
        same_pass(*old(tracker), *final(tracker)),
        (r@, final(tracker).consumed@) == layout::fmt_forwarding_super_node(
            *n,
            source@,
            old(tracker).all(),
            old(tracker).consumed@,
        ),
    decreases *n, 2int,
{
    match &n.kind {
        NodeKind::ForwardingSuper { block } => {
            let b = format_opt(block, source, tracker);
            let mut parts = dv1(txt("super"));
            append_docs(&mut parts, opt_after_vec(txt(" "), b));
            cat(parts)
        },
        _ => Doc::Empty,
    }
}

/// Format a `MultiWrite` node.
#[verifier::spinoff_prover]
fn format_multi_write_node(n: &Node, source: &[u8], tracker: &mut CommentTracker) -> (r: Doc)
    requires
        ready(*old(tracker), source@),
        node_wf(*n, source@, old(tracker).all()),
        n.kind is MultiWrite,
    ensures
        same_pass(*old(tracker), *final(tracker)),
        (r@, final(tracker).consumed@) == layout::fmt_multi_write_node(
            *n,
            source@,
            old(tracker).all(),
            old(tracker).consumed@,
        ),
    decreases *n, 2int,
{
    match &n.kind {
        NodeKind::MultiWrite { lefts, rest, rights, lparen, operator, value } => {
            let mut l = format_nodes(lefts, source, tracker);
            let r = format_opt(rest, source, tracker);
            let rr = format_nodes(rights, source, tracker);
            append_docs(&mut l, opt_vec(r));
            append_docs(&mut l, rr);
            let lhs = comma_list_doc(l);
            let v = format_node(&**value, source, tracker);
            if lparen.is_some() {
                let mut parts = dv5(txt("("), lhs, txt(")"), txt(" "), loc_doc(*operator, source));
                append_docs(&mut parts, dv2(txt(" "), v));
                let ghost ps = docs_view(parts@);
                assert(ps =~= seq![ps[0], ps[1], ps[2], ps[3], ps[4], ps[5], ps[6]]);
                cat(parts)
            } else {
                cat(dv5(lhs, txt(" "), loc_doc(*operator, source), txt(" "), v))
            }
        },
        _ => Doc::Empty,
    }
}

/// Format a `MultiTarget` node.
#[verifier::spinoff_prover]
fn format_multi_target_node(n: &Node, source: &[u8], tracker: &mut CommentTracker) -> (r: Doc)
    requires
        ready(*old(tracker), source@),
        node_wf(*n, source@, old(tracker).all()),
        n.kind is MultiTarget,
    ensures
        same_pass(*old(tracker), *final(tracker)),
        (r@, final(tracker).consumed@) == layout::fmt_multi_target_node(
            *n,
            source@,
            old(tracker).all(),
            old(tracker).consumed@,
        ),
    decreases *n, 2int,
{
    match &n.kind {
        NodeKind::MultiTarget { lefts, rest, rights, lparen } => {
            let mut l = format_nodes(lefts, source, tracker);
            let r = format_opt(rest, source, tracker);
            let rr = format_nodes(rights, source, tracker);
            append_docs(&mut l, opt_vec(r));
            append_docs(&mut l, rr);
            let inner = comma_list_doc(l);
            if lparen.is_some() {
                cat(dv3(txt("("), inner, txt(")")))
            } else {
                inner
            }
        },
        _ => Doc::Empty,
    }
}

/// Format a `Alias` node.
#[verifier::spinoff_prover]
fn format_alias_node(n: &Node, source: &[u8], tracker: &mut CommentTracker) -> (r: Doc)
    requires
        ready(*old(tracker), source@),
        node_wf(*n, source@, old(tracker).all()),
        n.kind is Alias,
    ensures
        same_pass(*old(tracker), *final(tracker)),
        (r@, final(tracker).consumed@) == layout::fmt_alias_node(
            *n,
            source@,
            old(tracker).all(),
            old(tracker).consumed@,
        ),
    decreases *n, 2int,
{
    match &n.kind {
        NodeKind::Alias { new_name, old_name } => {
            let a = format_node(&**new_name, source, tracker);
            let b = format_node(&**old_name, source, tracker);
            cat(dv4(txt("alias "), a, txt(" "), b))
        },
        _ => Doc::Empty,
    }
}

/// Format a `Undef` node.
#[verifier::spinoff_prover]
fn format_undef_node(n: &Node, source: &[u8], tracker: &mut CommentTracker) -> (r: Doc)
    requires
        ready(*old(tracker), source@),
        node_wf(*n, source@, old(tracker).all()),
        n.kind is Undef,
    ensures
        same_pass(*old(tracker), *final(tracker)),
        (r@, final(tracker).consumed@) == layout::fmt_undef_node(
            *n,
            source@,
            old(tracker).all(),
            old(tracker).consumed@,
        ),
    decreases *n, 2int,
{
    match &n.kind {
        NodeKind::Undef { names } => {
            let ds = format_nodes(names, source, tracker);
            cat(dv2(txt("undef "), comma_list_doc(ds)))
        },
        _ => Doc::Empty,
    }
}

/// Format a `Defined` node.
#[verifier::spinoff_prover]
fn format_defined_node(n: &Node, source: &[u8], tracker: &mut CommentTracker) -> (r: Doc)
    requires
        ready(*old(tracker), source@),
        node_wf(*n, source@, old(tracker).all()),
        n.kind is Defined,
    ensures
        same_pass(*old(tracker), *final(tracker)),
        (r@, final(tracker).consumed@) == layout::fmt_defined_node(
            *n,
            source@,
            old(tracker).all(),
            old(tracker).consumed@,
        ),
    decreases *n, 2int,
{
    match &n.kind {
        NodeKind::Defined { lparen, value } => {
            let v = format_node(&**value, source, tracker);
            if lparen.is_some() {
                cat(dv3(txt("defined?("), v, txt(")")))
            } else {
                cat(dv2(txt("defined? "), v))
            }
        },
        _ => Doc::Empty,
    }
}

/// Format a `PinnedExpression` node.
#[verifier::spinoff_prover]
fn format_pinned_expression_node(n: &Node, source: &[u8], tracker: &mut CommentTracker) -> (r: Doc)
    requires
        ready(*old(tracker), source@),
        node_wf(*n, source@, old(tracker).all()),
        n.kind is PinnedExpression,
    ensures
        same_pass(*old(tracker), *final(tracker)),
        (r@, final(tracker).consumed@) == layout::fmt_pinned_expression_node(
            *n,
            source@,
            old(tracker).all(),
            old(tracker).consumed@,
        ),
    decreases *n, 2int,
{
    match &n.kind {
        NodeKind::PinnedExpression { expression } => {
            let e = format_node(&**expression, source, tracker);
            cat(dv3(txt("^("), e, txt(")")))
        },
        _ => Doc::Empty,
    }
}

/// Format a `PinnedVariable` node.
#[verifier::spinoff_prover]
fn format_pinned_variable_node(n: &Node, source: &[u8], tracker: &mut CommentTracker) -> (r: Doc)
    requires
        ready(*old(tracker), source@),
        node_wf(*n, source@, old(tracker).all()),
        n.kind is PinnedVariable,
    ensures
        same_pass(*old(tracker), *final(tracker)),
        (r@, final(tracker).consumed@) == layout::fmt_pinned_variable_node(
            *n,
            source@,
            old(tracker).all(),
            old(tracker).consumed@,
        ),
    decreases *n, 2int,
{
    match &n.kind {
        NodeKind::PinnedVariable { variable } => {
            let v = format_node(&**variable, source, tracker);
            cat(dv2(txt("^"), v))
        },
        _ => Doc::Empty,
    }
}

/// Format a `Hook` node.
#[verifier::spinoff_prover]
fn format_hook_node(n: &Node, source: &[u8], tracker: &mut CommentTracker) -> (r: Doc)
    requires
        ready(*old(tracker), source@),
        node_wf(*n, source@, old(tracker).all()),
        n.kind is Hook,
    ensures
        same_pass(*old(tracker), *final(tracker)),
        (r@, final(tracker).consumed@) == layout::fmt_hook_node(
            *n,
            source@,
            old(tracker).all(),
            old(tracker).consumed@,
        ),
    decreases *n, 2int,
{
    match &n.kind {
        NodeKind::Hook { keyword, opening, statements, closing } => {
            let kw = match keyword {
                HookKeyword::Begin => "BEGIN ",
                HookKeyword::End => "END ",
            };
            let bd = match statements {
                Some(_) => dv2(indent_body(format_opt_stmts(statements, source, tracker)), Doc::hardline()),
                None => Vec::new(),
            };
            let mut parts = dv2(txt(kw), loc_doc(*opening, source));
            append_docs(&mut parts, bd);
            append_docs(&mut parts, dv1(loc_doc(*closing, source)));
            cat(parts)
        },
        _ => Doc::Empty,
    }
}

// ── Calls ───────────────────────────────────────────────────────────────

/// One segment of a method chain: `.name(args) { block }`.
pub struct ChainSegment {
    pub call_op: String,
    pub name: String,
    pub args: Option<Doc>,
    pub block: Option<Doc>,
}

/// The value of a chain segment.
pub open spec fn seg_view(s: ChainSegment) -> layout::SegView {
    layout::SegView {
        call_op: s.call_op@,
        name: s.name@,
        args: opt_view(s.args),
        block: opt_view(s.block),
    }
}

/// The values of chain segments.
pub open spec fn segs_view(s: Seq<ChainSegment>) -> Seq<layout::SegView> {
    s.map_values(|x: ChainSegment| seg_view(x))
}

/// Whether a name is a binary operator.
pub fn is_binary_operator(name: &str) -> (r: bool)
    ensures
        r == layout::is_binary_operator(name@),
{
    str_eq(name, "+") || str_eq(name, "-") || str_eq(name, "*") || str_eq(name, "/") || str_eq(
        name,
        "%",
    ) || str_eq(name, "**") || str_eq(name, "==") || str_eq(name, "!=") || str_eq(name, "<")
        || str_eq(name, ">") || str_eq(name, "<=") || str_eq(name, ">=") || str_eq(name, "<=>")
        || str_eq(name, "=~") || str_eq(name, "!~") || str_eq(name, "&") || str_eq(name, "|")
        || str_eq(name, "^") || str_eq(name, "<<") || str_eq(name, ">>") || str_eq(name, "===")
}

/// Whether a name is a unary operator.
fn is_unary_operator(name: &str) -> (r: bool)
    ensures
        r == layout::is_unary_operator(name@),
{
    str_eq(name, "!") || str_eq(name, "~") || str_eq(name, "-@") || str_eq(name, "+@") || str_eq(
        name,
        "not",
    )
}

/// Whether the block of a call is a block argument (`&blk`).
fn has_block_argument(c: &Call) -> (r: bool)
    ensures
        r == layout::has_block_argument(*c),
{
    match &c.block {
        Some(b) => match &b.kind {
            NodeKind::BlockArgument { .. } => true,
            _ => false,
        },
        None => false,
    }
}

/// Whether the receiver of a call is itself a call with `.` or `&.`.
fn receiver_is_dotted_call(c: &Call) -> (r: bool)
    ensures
        r == layout::receiver_is_dotted_call(*c),
{
    match &c.receiver {
        Some(rv) => match &rv.kind {
            NodeKind::Call(rc) => rc.call_operator.is_some(),
            _ => false,
        },
        None => false,
    }
}

/// The argument part of a call: `(args)`, ` args`, `()` or nothing; a block
/// argument goes last among the arguments.
fn call_args(opening: Option<Loc>, args: Option<Vec<Doc>>, ba: Option<Doc>) -> (r: Option<Doc>)
    ensures
        opt_view(r) == layout::call_args_doc(opening, opt_docs_view(args), opt_view(ba)),
{
    match args {
        Some(ds) => {
            let mut all = ds;
            append_docs(&mut all, opt_vec(ba));
            if opening.is_some() {
                Some(format_paren_args(all))
            } else {
                Some(cat(dv2(txt(" "), Doc::group(comma_list_doc(all)))))
            }
        },
        None => match ba {
            Some(b) => if opening.is_some() {
                Some(format_paren_args(dv1(b)))
            } else {
                Some(cat(dv2(txt(" "), b)))
            },
            None => if opening.is_some() {
                Some(txt("()"))
            } else {
                None
            },
        },
    }
}

/// Where the arguments of a call close: at a block argument, else at the
/// closing parenthesis.
fn args_close(c: &Call) -> (r: usize)
    ensures
        r == layout::args_close(*c),
{
    match &c.block {
        Some(b) => if has_block_argument(c) {
            b.loc.start
        } else {
            opt_start(c.closing)
        },
        None => opt_start(c.closing),
    }
}

/// The segment of one call of a chain.
#[verifier::spinoff_prover]
#[verifier::rlimit(100)]
pub fn extract_raw_segment(c: &Call, source: &[u8], tracker: &mut CommentTracker) -> (r: ChainSegment)
    requires
        ready(*old(tracker), source@),
        layout::call_wf(*c, source@, old(tracker).all()),
    ensures
        same_pass(*old(tracker), *final(tracker)),
        (seg_view(r), final(tracker).consumed@) == layout::fmt_segment(
            *c,
            source@,
            old(tracker).all(),
            old(tracker).consumed@,
        ),
    decreases *c, 0int,
{
    let op = match c.call_operator {
        Some(l) => loc_str(l, source),
        None => String::new(),
    };
    let is_ba = has_block_argument(c);
    let ba = if is_ba {
        format_opt(&c.block, source, tracker)
    } else {
        None
    };
    let args = format_opt_elems(&c.arguments, c.opening, args_close(c), source, tracker);
    let a = call_args(c.opening, args, ba);
    let blk = if !is_ba {
        match format_opt(&c.block, source, tracker) {
            Some(d) => Some(cat(dv2(txt(" "), d))),
            None => None,
        }
    } else {
        None
    };
    ChainSegment { call_op: op, name: name_str(&c.name), args: a, block: blk }
}

/// The segments of a chain, innermost first, and the document of the
/// receiver that the chain starts from.
#[verifier::spinoff_prover]
fn chain_segments(c: &Call, source: &[u8], tracker: &mut CommentTracker) -> (r: (Vec<ChainSegment>, Doc))
    requires
        ready(*old(tracker), source@),
        layout::call_wf(*c, source@, old(tracker).all()),
    ensures
        same_pass(*old(tracker), *final(tracker)),
        (segs_view(r.0@), r.1@, final(tracker).consumed@) == layout::chain_segments(
            *c,
            source@,
            old(tracker).all(),
            old(tracker).consumed@,
        ),
    decreases *c, 1int,
{
    let seg = extract_raw_segment(c, source, tracker);
    proof {
        lemma_opt_wf(c.receiver, source@, old(tracker).all());
    }
    match &c.receiver {
        Some(rv) => match &rv.kind {
            NodeKind::Call(rc) => if rc.call_operator.is_some() {
                let (mut segs, rd) = chain_segments(rc, source, tracker);
                let ghost before = segs@;
                segs.push(seg);
                assert(segs_view(segs@) =~= segs_view(before).push(seg_view(seg)));
                (segs, rd)
            } else {
                let rd = format_node(&**rv, source, tracker);
                let segs = vec![seg];
                assert(segs_view(segs@) =~= seq![seg_view(seg)]);
                (segs, rd)
            },
            _ => {
                let rd = format_node(&**rv, source, tracker);
                let segs = vec![seg];
                assert(segs_view(segs@) =~= seq![seg_view(seg)]);
                (segs, rd)
            },
        },
        None => {
            let segs = vec![seg];
            assert(segs_view(segs@) =~= seq![seg_view(seg)]);
            (segs, Doc::Empty)
        },
    }
}

/// The document of a chain segment.
pub fn segment_doc(seg: ChainSegment) -> (r: Doc)
    ensures
        r@ == layout::segment_doc(seg_view(seg)),
{
    let mut parts = dv2(txt(seg.call_op.as_str()), txt(seg.name.as_str()));
    append_docs(&mut parts, opt_vec(seg.args));
    append_docs(&mut parts, opt_vec(seg.block));
    cat(parts)
}

/// The documents of chain segments, in order.
#[verifier::spinoff_prover]
fn segment_docs(segs: Vec<ChainSegment>) -> (r: Vec<Doc>)
    ensures
        docs_view(r@) == layout::segment_docs(segs_view(segs@)),
{
    let ghost orig = segs@;
    let mut out: Vec<Doc> = Vec::new();
    for s in it: segs
        invariant
            it.seq() == orig,
            docs_view(out@) =~= layout::segment_docs(segs_view(orig.take(it.index() as int))),
    {
        let ghost k = it.index() as int;
        proof {
            assert(orig.take(k + 1) =~= orig.take(k).push(s));
        }
        let d = segment_doc(s);
        push_doc(&mut out, d);
        assert(docs_view(out@) =~= layout::segment_docs(segs_view(orig.take(k + 1))));
    }
    assert(orig.take(orig.len() as int) =~= orig);
    out
}

/// A method chain: four or more segments always one per line, two chosen
/// by width, three flat only when all of it fits.
#[verifier::spinoff_prover]
pub fn format_method_chain(c: &Call, source: &[u8], tracker: &mut CommentTracker) -> (r: Doc)
    requires
        ready(*old(tracker), source@),
        layout::call_wf(*c, source@, old(tracker).all()),
    ensures
        same_pass(*old(tracker), *final(tracker)),
        (r@, final(tracker).consumed@) == layout::fmt_chain(
            *c,
            source@,
            old(tracker).all(),
            old(tracker).consumed@,
        ),
    decreases *c, 2int,
{
    let (segs, rd) = chain_segments(c, source, tracker);
    let n = segs.len();
    let docs = segment_docs(segs);
    if n >= 4 {
        let brk = Doc::indent(cat(each_on_new_line_docs(docs)));
        cat(dv2(rd, brk))
    } else if n == 2 {
        let flat = cat(clone_docs(&docs));
        let brk = Doc::indent(cat(each_on_new_line_docs(docs)));
        let rd2 = clone_doc(&rd);
        let variants = dv2(cat(dv2(rd2, flat)), cat(dv2(rd, brk)));
        proof {
            lemma_docs_view(variants@);
        }
        Doc::best_of(variants)
    } else {
        let flat = cat(clone_docs(&docs));
        let brk = Doc::indent(cat(each_on_new_line_docs(docs)));
        cat(dv2(rd, Doc::group(Doc::if_break(brk, flat))))
    }
}

/// A call that is not an operator: indexing, index assignment, a method
/// chain or a plain call.
#[verifier::spinoff_prover]
fn format_call_rest(c: &Call, source: &[u8], tracker: &mut CommentTracker) -> (r: Doc)
    requires
        ready(*old(tracker), source@),
        layout::call_wf(*c, source@, old(tracker).all()),
    ensures
        same_pass(*old(tracker), *final(tracker)),
        (r@, final(tracker).consumed@) == layout::fmt_call_rest(
            *c,
            source@,
            old(tracker).all(),
            old(tracker).consumed@,
        ),
    decreases *c, 3int,
{
    let name = name_str(&c.name);
    if str_eq(name.as_str(), "[]") && c.opening.is_some() {
        let rv = format_opt(&c.receiver, source, tracker);
        let args = format_opt_nodes(&c.arguments, source, tracker);
        let pa = match args {
            Some(ds) => dv1(comma_list_doc(ds)),
            None => Vec::new(),
        };
        let b = format_opt(&c.block, source, tracker);
        let mut parts = opt_vec(rv);
        append_docs(&mut parts, dv1(txt("[")));
        append_docs(&mut parts, pa);
        append_docs(&mut parts, dv1(txt("]")));
        append_docs(&mut parts, opt_after_vec(txt(" "), b));
        cat(parts)
    } else if str_eq(name.as_str(), "[]=") && c.opening.is_some() {
        let rv = format_opt(&c.receiver, source, tracker);
        let mut parts = opt_vec(rv);
        proof {
            lemma_opt_nodes_wf(c.arguments, source@, old(tracker).all());
        }
        match &c.arguments {
            Some(args) => {
                let n = args.len();
                if n > 1 {
                    let idx = format_range(args, 0, n - 1, source, tracker);
                    proof {
                        lemma_nodes_wf(args@, 0, source@, old(tracker).all());
                    }
                    assert(decreases_to!(args@ => args@[n - 1]));
                    let last = format_node(&args[n - 1], source, tracker);
                    append_docs(&mut parts, dv4(txt("["), comma_list_doc(idx), txt("] = "), last));
                } else if n == 1 {
                    proof {
                        lemma_nodes_wf(args@, 0, source@, old(tracker).all());
                    }
                    assert(decreases_to!(args@ => args@[0]));
                    let d = format_node(&args[0], source, tracker);
                    append_docs(&mut parts, dv3(txt("["), txt("] = "), d));
                } else {
                    append_docs(&mut parts, dv2(txt("["), txt("] = ")));
                }
            },
            None => {
                append_docs(&mut parts, dv2(txt("["), txt("]")));
            },
        }
        cat(parts)
    } else if c.receiver.is_some() && c.call_operator.is_some() && receiver_is_dotted_call(c) {
        format_method_chain(c, source, tracker)
    } else {
        let rv = format_opt(&c.receiver, source, tracker);
        let mut parts = match rv {
            Some(d) => {
                let mut v = dv1(d);
                append_docs(&mut v, opt_loc_docs(c.call_operator, source));
                v
            },
            None => Vec::new(),
        };
        append_docs(&mut parts, opt_loc_docs(c.message, source));
        let is_ba = has_block_argument(c);
        let ba = if is_ba {
            format_opt(&c.block, source, tracker)
        } else {
            None
        };
        let args = format_opt_elems(&c.arguments, c.opening, args_close(c), source, tracker);
        append_docs(&mut parts, opt_vec(call_args(c.opening, args, ba)));
        let blk = if !is_ba {
            format_opt(&c.block, source, tracker)
        } else {
            None
        };
        append_docs(&mut parts, opt_after_vec(txt(" "), blk));
        cat(parts)
    }
}

/// Format a method call: unary and binary operators, then the other forms.
#[verifier::spinoff_prover]
pub fn format_call_node(c: &Call, source: &[u8], tracker: &mut CommentTracker) -> (r: Doc)
    requires
        ready(*old(tracker), source@),
        layout::call_wf(*c, source@, old(tracker).all()),
    ensures
        same_pass(*old(tracker), *final(tracker)),
        (r@, final(tracker).consumed@) == layout::fmt_call(
            *c,
            source@,
            old(tracker).all(),
            old(tracker).consumed@,
        ),
    decreases *c, 4int,
{
    let name = name_str(&c.name);
    if c.receiver.is_some() && c.arguments.is_none() && c.call_operator.is_none()
        && c.opening.is_none() && is_unary_operator(name.as_str()) {
        let r = match format_opt(&c.receiver, source, tracker) {
            Some(d) => d,
            None => Doc::Empty,
        };
        if str_eq(name.as_str(), "not") {
            cat(dv2(txt("not "), r))
        } else {
            let op = if str_eq(name.as_str(), "-@") {
                txt("-")
            } else if str_eq(name.as_str(), "+@") {
                txt("+")
            } else {
                Doc::text(name.as_str())
            };
            cat(dv2(op, r))
        }
    } else {
        let is_bin = c.receiver.is_some() && c.call_operator.is_none() && c.opening.is_none()
            && is_binary_operator(name.as_str());
        let bin = if is_bin {
            let r = match format_opt(&c.receiver, source, tracker) {
                Some(d) => d,
                None => Doc::Empty,
            };
            proof {
                lemma_opt_nodes_wf(c.arguments, source@, old(tracker).all());
            }
            match &c.arguments {
                Some(args) => if args.len() == 1 {
                    proof {
                        lemma_nodes_wf(args@, 0, source@, old(tracker).all());
                    }
                    assert(decreases_to!(args@ => args@[0]));
                    let rhs = format_node(&args[0], source, tracker);
                    Some(cat(dv5(r, txt(" "), Doc::text(name.as_str()), txt(" "), rhs)))
                } else {
                    None
                },
                None => None,
            }
        } else {
            None
        };
        match bin {
            Some(d) => d,
            None => format_call_rest(c, source, tracker),
        }
    }
}

// ── The program ─────────────────────────────────────────────────────────

/// Format a program: its node, then the comments that no node placed,
/// each on a line of its own.
#[verifier::spinoff_prover]
pub fn format_program(
    node: &Node,
    source: &[u8],
    comments: &Vec<CommentInfo>,
    _config: &FormatConfig,
) -> (r: Doc)
    requires
        node_wf(*node, source@, comments_view(comments@)),
        comments_wf(comments_view(comments@), source@.len()),
    ensures
        r@ == layout::program_doc(*node, source@, comments_view(comments@)),
{
    let mut tracker = with_comments(comments);
    let ghost cs = tracker.all();
    let main = format_node(node, source, &mut tracker);
    let remaining = take_remaining_comments(&mut tracker);
    if remaining.len() == 0 {
        main
    } else {
        let ghost rem = comments_view(remaining@);
        let mut parts = dv1(main);
        let ghost start = docs_view(parts@);
        let mut i: usize = 0;
        while i < remaining.len()
            invariant
                i <= remaining@.len(),
                rem == comments_view(remaining@),
                docs_view(parts@) + layout::remaining_parts(rem, i as int) == start
                    + layout::remaining_parts(rem, 0),
            decreases remaining.len() - i,
        {
            let ghost before = docs_view(parts@);
            let ghost head = seq![DocView::Hardline, tx(trim_end_ws(rem[i as int].text))];
            assert(layout::remaining_parts(rem, i as int) == head + layout::remaining_parts(rem, i + 1));
            append_docs(&mut parts, dv2(Doc::hardline(), comment_text_doc(&remaining[i])));
            assert(before + head + layout::remaining_parts(rem, i + 1) =~= before + (head
                + layout::remaining_parts(rem, i + 1)));
            i += 1;
        }
        assert(docs_view(parts@) =~= start + layout::remaining_parts(rem, 0));
        cat(parts)
    }
}

} // verus!
