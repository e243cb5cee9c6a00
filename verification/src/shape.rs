//! What the formatter's documents say on one line: the text each node's
//! document prints when nothing breaks, stated over the documents of its
//! children, and how comments and method chains come out when printed.
use vstd::prelude::*;

use crate::ast::{Call, Node, NodeKind};
use crate::comments::CommentView;
use crate::ir::{concat_parts, mk_concat, non_empty, text_view, DocView};
use crate::laws::{
    flat_text, flat_text_from, lemma_fits_plain, lemma_gap_parts_extend, lemma_print_plain, plain,
    law_concat_prints_parts,
};
use crate::printer::{fits_inner_spec, fits_spec, print_cmd, print_seq, Mode, PState};
use crate::text::{newline_count, trim_end_ws};
use crate::width::{lemma_text_width_append, text_width};
use crate::FormatConfig;
use crate::layout::{
    fmt_assoc_node, fmt_body, fmt_class_node, fmt_node, fmt_opt_block_body, fmt_unless_node, fmt_opt,
    indent_body, is_modifier_form, opt_after, gap_comment_parts, suffix_comment, tx, chain_segments,
    fmt_chain, segment_docs,
};
use crate::text::loc_text;

verus! {

/// The one-line text of `a + b` from index `a.len() + k` is that of `b`
/// from `k`.
proof fn lemma_flat_from_shift(a: Seq<DocView>, b: Seq<DocView>, k: int)
    requires
        0 <= k <= b.len(),
    ensures
        flat_text_from(a + b, a.len() + k) == flat_text_from(b, k),
    decreases b.len() - k,
{
    if k < b.len() {
        assert((a + b)[a.len() + k] == b[k]);
        lemma_flat_from_shift(a, b, k + 1);
    }
}

/// The one-line text of a sequence of documents is additive.
pub proof fn lemma_flat_from_append(a: Seq<DocView>, b: Seq<DocView>, i: int)
    requires
        0 <= i <= a.len(),
    ensures
        flat_text_from(a + b, i) == flat_text_from(a, i) + flat_text_from(b, 0),
    decreases a.len() - i,
{
    if i < a.len() {
        assert((a + b)[i] == a[i]);
        lemma_flat_from_append(a, b, i + 1);
        assert(flat_text(a[i]) + (flat_text_from(a, i + 1) + flat_text_from(b, 0)) =~= flat_text(a[i])
            + flat_text_from(a, i + 1) + flat_text_from(b, 0));
    } else {
        lemma_flat_from_shift(a, b, 0);
        assert(Seq::<char>::empty() + flat_text_from(b, 0) =~= flat_text_from(b, 0));
    }
}

/// One more document at the end adds its one-line text.
proof fn lemma_flat_from_push(s: Seq<DocView>, x: DocView)
    ensures
        flat_text_from(s.push(x), 0) == flat_text_from(s, 0) + flat_text(x),
{
    lemma_flat_from_append(s, seq![x], 0);
    assert(s + seq![x] =~= s.push(x));
    assert(flat_text_from(seq![x], 1) == Seq::<char>::empty());
    assert(flat_text(x) + Seq::<char>::empty() =~= flat_text(x));
}

/// Dropping empty documents keeps the one-line text.
proof fn lemma_flat_non_empty(s: Seq<DocView>)
    ensures
        flat_text_from(non_empty(s), 0) == flat_text_from(s, 0),
    decreases s.len(),
{
    if s.len() > 0 {
        let prev = s.drop_last();
        let x = s.last();
        assert(s =~= prev.push(x));
        lemma_flat_non_empty(prev);
        lemma_flat_from_push(prev, x);
        if x is Empty {
            assert(flat_text_from(prev, 0) + Seq::<char>::empty() =~= flat_text_from(prev, 0));
        } else {
            lemma_flat_from_push(non_empty(prev), x);
        }
    }
}

/// Flattening a concatenation's parts keeps the one-line text.
proof fn lemma_flat_concat_parts(ds: Seq<DocView>)
    ensures
        flat_text_from(concat_parts(ds), 0) == flat_text_from(ds, 0),
    decreases ds.len(),
{
    if ds.len() > 0 {
        let prev = ds.drop_last();
        let x = ds.last();
        assert(ds =~= prev.push(x));
        lemma_flat_concat_parts(prev);
        lemma_flat_from_push(prev, x);
        match x {
            DocView::Empty => {
                assert(flat_text_from(prev, 0) + Seq::<char>::empty() =~= flat_text_from(prev, 0));
            },
            DocView::Concat(inner) => {
                lemma_flat_from_append(concat_parts(prev), non_empty(inner), 0);
                lemma_flat_non_empty(inner);
            },
            _ => {
                lemma_flat_from_push(concat_parts(prev), x);
            },
        }
    }
}

/// A concatenation built by `Doc::concat` says on one line what its
/// documents say one after another.
pub proof fn lemma_flat_mk_concat(ds: Seq<DocView>)
    ensures
        flat_text(mk_concat(ds)) == flat_text_from(ds, 0),
{
    lemma_flat_concat_parts(ds);
    let parts = concat_parts(ds);
    if parts.len() == 1 {
        assert(flat_text_from(parts, 1) == Seq::<char>::empty());
        assert(flat_text(parts[0]) + Seq::<char>::empty() =~= flat_text(parts[0]));
    }
}

/// A text document says its text.
pub proof fn lemma_flat_text_view(s: Seq<char>)
    ensures
        flat_text(text_view(s)) == s,
{
    if s.len() == 0 {
        assert(s =~= Seq::<char>::empty());
    }
}

/// The one-line text of a sequence given element by element.
proof fn lemma_flat_from_cons(x: DocView, rest: Seq<DocView>)
    ensures
        flat_text_from(seq![x] + rest, 0) == flat_text(x) + flat_text_from(rest, 0),
{
    lemma_flat_from_append(seq![x], rest, 0);
    assert(flat_text_from(seq![x], 1) == Seq::<char>::empty());
    assert(flat_text(x) + Seq::<char>::empty() =~= flat_text(x));
}

/// A hash association keeps a space on each side of its operator: on one
/// line it reads as the key, a space, the operator as written, a space and
/// the value (`key value` with a single space when there is no operator).
pub proof fn law_assoc_spaces_around_operator(n: Node, src: Seq<u8>, cs: Seq<CommentView>, tk: Seq<bool>)
    requires
        n.kind is Assoc,
    ensures
        match n.kind {
            NodeKind::Assoc { key, operator, value } => {
                let (k, t1) = fmt_node(*key, src, cs, tk);
                let v = fmt_node(*value, src, cs, t1).0;
                flat_text(fmt_assoc_node(n, src, cs, tk).0) == match operator {
                    Some(op) => flat_text(k) + " "@ + loc_text(src, op) + " "@ + flat_text(v),
                    None => flat_text(k) + " "@ + flat_text(v),
                }
            },
            _ => true,
        },
{
    match n.kind {
        NodeKind::Assoc { key, operator, value } => {
            let (k, t1) = fmt_node(*key, src, cs, tk);
            let v = fmt_node(*value, src, cs, t1).0;
            lemma_flat_text_view(" "@);
            match operator {
                Some(op) => {
                    let ds = seq![k, text_view(" "@), text_view(loc_text(src, op)), text_view(" "@), v];
                    lemma_flat_mk_concat(ds);
                    lemma_flat_text_view(loc_text(src, op));
                    reveal_with_fuel(flat_text_from, 6);
                    assert(flat_text_from(ds, 0) =~= flat_text(k) + " "@ + loc_text(src, op) + " "@
                        + flat_text(v));
                },
                None => {
                    let ds = seq![k, text_view(" "@), v];
                    lemma_flat_mk_concat(ds);
                    reveal_with_fuel(flat_text_from, 4);
                    assert(flat_text_from(ds, 0) =~= flat_text(k) + " "@ + flat_text(v));
                },
            }
        },
        _ => {},
    }
}

/// A class with a superclass heads with `class`, its path, ` < ` and the
/// superclass: on one line its text begins with `class `, the path's text,
/// ` < ` and the superclass's text (without one, `class ` and the path).
pub proof fn law_class_head_names_superclass(n: Node, src: Seq<u8>, cs: Seq<CommentView>, tk: Seq<bool>)
    requires
        n.kind is Class,
    ensures
        match n.kind {
            NodeKind::Class { constant_path, superclass, body } => {
                let (c, t1) = fmt_node(*constant_path, src, cs, tk);
                let head = match superclass {
                    Some(sb) => "class "@ + flat_text(c) + " < "@ + flat_text(fmt_node(*sb, src, cs, t1).0),
                    None => "class "@ + flat_text(c),
                };
                head.is_prefix_of(flat_text(fmt_class_node(n, src, cs, tk).0))
            },
            _ => true,
        },
{
    match n.kind {
        NodeKind::Class { constant_path, superclass, body } => {
            let (c, t1) = fmt_node(*constant_path, src, cs, tk);
            let (sp, t2) = fmt_opt(superclass, src, cs, t1);
            let (bd, t3) = match body {
                Some(b) => {
                    let (d, t) = fmt_body(*b, src, cs, t2);
                    (seq![indent_body(d)], t)
                },
                None => (Seq::empty(), t2),
            };
            let tail = bd + seq![DocView::Hardline, text_view("end"@)];
            let mid = opt_after(text_view(" < "@), sp);
            let ds = seq![text_view("class "@), c] + mid + tail;
            assert(seq![text_view("class "@), c] + mid + bd + seq![DocView::Hardline, text_view("end"@)]
                =~= ds);
            assert(fmt_class_node(n, src, cs, tk).0 == mk_concat(ds));
            lemma_flat_mk_concat(ds);
            lemma_flat_from_append(seq![text_view("class "@), c] + mid, tail, 0);
            lemma_flat_from_append(seq![text_view("class "@), c], mid, 0);
            lemma_flat_text_view("class "@);
            lemma_flat_text_view(" < "@);
            reveal_with_fuel(flat_text_from, 3);
            let head = match superclass {
                Some(sb) => "class "@ + flat_text(c) + " < "@ + flat_text(fmt_node(*sb, src, cs, t1).0),
                None => "class "@ + flat_text(c),
            };
            let pre = flat_text_from(seq![text_view("class "@), c] + mid, 0);
            assert(pre =~= head);
            let whole = pre + flat_text_from(tail, 0);
            assert(whole.subrange(0, pre.len() as int) =~= pre);
        },
        _ => {},
    }
}

/// An `unless` in block form heads with the keyword `unless`: on one line
/// its text begins with `unless ` and the condition's text. In modifier
/// form it reads as the body's text, ` unless ` and the condition's text.
pub proof fn law_unless_keeps_its_keyword(n: Node, src: Seq<u8>, cs: Seq<CommentView>, tk: Seq<bool>)
    requires
        n.kind is Unless,
    ensures
        match n.kind {
            NodeKind::Unless { keyword, predicate, statements, else_clause, end_keyword } => {
                let d = fmt_unless_node(n, src, cs, tk).0;
                if is_modifier_form(keyword, statements) {
                    let (b, t1) = crate::layout::fmt_stmts(statements.unwrap().body@, src, cs, tk);
                    flat_text(d) == flat_text(b) + " unless "@ + flat_text(fmt_node(*predicate, src, cs, t1).0)
                } else {
                    ("unless "@ + flat_text(fmt_node(*predicate, src, cs, tk).0)).is_prefix_of(flat_text(d))
                }
            },
            _ => true,
        },
{
    match n.kind {
        NodeKind::Unless { keyword, predicate, statements, else_clause, end_keyword } => {
            lemma_flat_text_view("unless "@);
            lemma_flat_text_view(" unless "@);
            if is_modifier_form(keyword, statements) {
                let (b, t1) = crate::layout::fmt_stmts(statements.unwrap().body@, src, cs, tk);
                let (p, t2) = fmt_node(*predicate, src, cs, t1);
                let ds = seq![b, text_view(" unless "@), p];
                lemma_flat_mk_concat(ds);
                reveal_with_fuel(flat_text_from, 4);
                assert(flat_text_from(ds, 0) =~= flat_text(b) + " unless "@ + flat_text(p));
            } else {
                let (p, t1) = fmt_node(*predicate, src, cs, tk);
                let (bd, t2) = fmt_opt_block_body(statements, src, cs, t1);
                let (el, t3) = fmt_opt(else_clause, src, cs, t2);
                let end = if end_keyword is Some {
                    seq![DocView::Hardline, text_view("end"@)]
                } else {
                    Seq::empty()
                };
                let tail = bd + opt_after(DocView::Hardline, el) + end;
                let ds = seq![text_view("unless "@), p] + tail;
                assert(seq![text_view("unless "@), p] + bd + opt_after(DocView::Hardline, el) + end =~= ds);
                assert(fmt_unless_node(n, src, cs, tk).0 == mk_concat(ds));
                lemma_flat_mk_concat(ds);
                lemma_flat_from_append(seq![text_view("unless "@), p], tail, 0);
                reveal_with_fuel(flat_text_from, 3);
                let pre = flat_text_from(seq![text_view("unless "@), p], 0);
                assert(pre =~= "unless "@ + flat_text(p));
                let whole = pre + flat_text_from(tail, 0);
                assert(whole.subrange(0, pre.len() as int) =~= pre);
            }
        },
        _ => {},
    }
}

/// Between two statements, a comment with a newline between the previous
/// statement and it stands on a line of its own: a hard line break comes
/// first, then (after at most one more, for a blank line) its text. Only a
/// comment on the previous statement's line trails it, as a line suffix.
pub proof fn law_own_line_comment_starts_a_line(
    cmts: Seq<CommentView>,
    j: int,
    parts: Seq<DocView>,
    gap_start: int,
    src: Seq<u8>,
)
    requires
        0 <= j < cmts.len(),
    ensures
        ({
            let r = gap_comment_parts(cmts, j, parts, true, gap_start, src);
            let c = cmts[j];
            let t = tx(trim_end_ws(c.text));
            let k = parts.len() as int;
            &&& newline_count(src.subrange(gap_start, c.start as int)) == 0 ==> r.len() > k && r[k] is LineSuffix
            &&& newline_count(src.subrange(gap_start, c.start as int)) > 0 ==> {
                &&& r.len() > k + 1
                &&& r[k] == DocView::Hardline
                &&& r[k + 1] == t || (r.len() > k + 2 && r[k + 1] == DocView::Hardline && r[k + 2] == t)
            }
        }),
{
    let c = cmts[j];
    let nl = newline_count(src.subrange(gap_start, c.start as int));
    let next = if nl == 0 {
        parts.push(suffix_comment(c))
    } else {
        let sep = if nl > 1 {
            seq![DocView::Hardline, DocView::Hardline]
        } else {
            seq![DocView::Hardline]
        };
        (parts + sep).push(tx(trim_end_ws(c.text)))
    };
    assert(gap_comment_parts(cmts, j, parts, true, gap_start, src) == gap_comment_parts(
        cmts,
        j + 1,
        next,
        true,
        gap_start,
        src,
    ));
    lemma_gap_parts_extend(cmts, j + 1, next, true, gap_start, src);
    let r = gap_comment_parts(cmts, j + 1, next, true, gap_start, src);
    assert forall|i: int| 0 <= i < next.len() implies r[i] == next[i] by {
        assert(r.subrange(0, next.len() as int)[i] == r[i]);
    }
}

/// A document that prints its one-line text whatever the mode: texts,
/// verbatim text without a newline, and concatenations, indentation and
/// groups of those.
pub open spec fn one_line(d: DocView) -> bool
    decreases d, 0int,
{
    match d {
        DocView::Text(_) | DocView::Empty => true,
        DocView::Verbatim(s) => !s.contains('\n'),
        DocView::Concat(ds) => one_line_from(ds, 0),
        DocView::Indent(b) => one_line(*b),
        DocView::Align(_, b) => one_line(*b),
        DocView::Group(b) => one_line(*b),
        DocView::ConditionalGroup(b) => one_line(*b),
        _ => false,
    }
}

/// `ds[i..]` are one-line documents.
pub open spec fn one_line_from(ds: Seq<DocView>, i: int) -> bool
    decreases ds, ds.len() - i,
{
    if i < 0 || i >= ds.len() {
        true
    } else {
        one_line(ds[i]) && one_line_from(ds, i + 1)
    }
}

/// A one-line document prints its text, in any mode.
proof fn lemma_print_one_line(d: DocView, indent: int, mode: Mode, st: PState, cfg: FormatConfig)
    requires
        one_line(d),
    ensures
        print_cmd(d, indent, mode, st, cfg).out == st.out + flat_text(d),
        print_cmd(d, indent, mode, st, cfg).pos == st.pos + text_width(flat_text(d)),
        print_cmd(d, indent, mode, st, cfg).suffixes == st.suffixes,
    decreases d, 1int,
{
    match d {
        DocView::Concat(ds) => lemma_print_one_line_from(ds, 0, indent, mode, st, cfg),
        DocView::Indent(b) => lemma_print_one_line(*b, indent + cfg.indent_width, mode, st, cfg),
        DocView::Align(n, b) => lemma_print_one_line(*b, indent + n, mode, st, cfg),
        DocView::Group(b) => {
            let m = if mode == Mode::Flat || fits_spec(*b, indent, st.pos, cfg) {
                Mode::Flat
            } else {
                Mode::Break
            };
            lemma_print_one_line(*b, indent, m, st, cfg);
        },
        DocView::ConditionalGroup(b) => {
            let m = if mode == Mode::Flat || fits_spec(*b, indent, st.pos, cfg) {
                Mode::Flat
            } else {
                Mode::Break
            };
            lemma_print_one_line(*b, indent, m, st, cfg);
        },
        DocView::Empty => {
            assert(st.out + Seq::<char>::empty() =~= st.out);
        },
        _ => {},
    }
}

/// One-line documents printed one after another.
proof fn lemma_print_one_line_from(
    ds: Seq<DocView>,
    i: int,
    indent: int,
    mode: Mode,
    st: PState,
    cfg: FormatConfig,
)
    requires
        one_line_from(ds, i),
        0 <= i,
    ensures
        print_seq(ds, i, indent, mode, st, cfg).out == st.out + flat_text_from(ds, i),
        print_seq(ds, i, indent, mode, st, cfg).pos == st.pos + text_width(flat_text_from(ds, i)),
        print_seq(ds, i, indent, mode, st, cfg).suffixes == st.suffixes,
    decreases ds, ds.len() - i,
{
    if i < ds.len() {
        let st1 = print_cmd(ds[i], indent, mode, st, cfg);
        lemma_print_one_line(ds[i], indent, mode, st, cfg);
        lemma_print_one_line_from(ds, i + 1, indent, mode, st1, cfg);
        lemma_text_width_append(flat_text(ds[i]), flat_text_from(ds, i + 1));
        assert(st.out + flat_text(ds[i]) + flat_text_from(ds, i + 1) =~= st.out + (flat_text(ds[i])
            + flat_text_from(ds, i + 1)));
    } else {
        assert(st.out + Seq::<char>::empty() =~= st.out);
    }
}

/// A chain of exactly three calls stays on one line when it fits: with a
/// receiver that prints on one line and calls that can, printed where the
/// whole chain's one-line text fits within `max_width`, it prints exactly
/// that text.
pub proof fn law_three_call_chain_flat_when_it_fits(
    c: Call,
    src: Seq<u8>,
    cs: Seq<CommentView>,
    tk: Seq<bool>,
    indent: int,
    st: PState,
    cfg: FormatConfig,
)
    requires
        chain_segments(c, src, cs, tk).0.len() == 3,
        one_line(chain_segments(c, src, cs, tk).1),
        plain(mk_concat(segment_docs(chain_segments(c, src, cs, tk).0))),
        st.pos + text_width(flat_text(fmt_chain(c, src, cs, tk).0)) <= cfg.max_width,
    ensures
        print_cmd(fmt_chain(c, src, cs, tk).0, indent, Mode::Break, st, cfg).out == st.out + flat_text(
            fmt_chain(c, src, cs, tk).0,
        ),
{
    let (segs, rd, t) = chain_segments(c, src, cs, tk);
    let docs = segment_docs(segs);
    let flat = mk_concat(docs);
    let brk = DocView::Indent(Box::new(mk_concat(crate::layout::each_on_new_line(docs))));
    let g = DocView::Group(Box::new(DocView::IfBreak(Box::new(brk), Box::new(flat))));
    let ds = seq![rd, g];
    let d = fmt_chain(c, src, cs, tk).0;
    assert(d == mk_concat(ds));
    lemma_flat_mk_concat(ds);
    let ib = DocView::IfBreak(Box::new(brk), Box::new(flat));
    assert(flat_text(ib) == flat_text(flat));
    assert(flat_text(g) == flat_text(ib));
    reveal_with_fuel(flat_text_from, 3);
    assert(flat_text_from(ds, 0) =~= flat_text(rd) + flat_text(flat));
    lemma_text_width_append(flat_text(rd), flat_text(flat));
    law_concat_prints_parts(ds, indent, Mode::Break, st, cfg);
    lemma_print_one_line(rd, indent, Mode::Break, st, cfg);
    let st1 = print_cmd(rd, indent, Mode::Break, st, cfg);
    let rem: int = if cfg.max_width > st1.pos {
        cfg.max_width - st1.pos
    } else {
        0
    };
    lemma_fits_plain(flat, indent, rem, cfg);
    assert(fits_inner_spec(ib, indent, rem, cfg) == fits_inner_spec(flat, indent, rem, cfg));
    assert(fits_spec(ib, indent, st1.pos, cfg));
    lemma_print_plain(flat, indent, st1, cfg);
    assert(print_cmd(ib, indent, Mode::Flat, st1, cfg) == print_cmd(flat, indent, Mode::Flat, st1, cfg));
    assert(print_cmd(g, indent, Mode::Break, st1, cfg) == print_cmd(ib, indent, Mode::Flat, st1, cfg));
    assert(print_seq(ds, 2, indent, Mode::Break, print_cmd(g, indent, Mode::Break, st1, cfg), cfg)
        == print_cmd(g, indent, Mode::Break, st1, cfg));
    assert(ds[0] == rd && ds[1] == g);
    assert(print_seq(ds, 1, indent, Mode::Break, st1, cfg) == print_seq(
        ds,
        2,
        indent,
        Mode::Break,
        print_cmd(g, indent, Mode::Break, st1, cfg),
        cfg,
    ));
    assert(print_seq(ds, 0, indent, Mode::Break, st, cfg) == print_seq(ds, 1, indent, Mode::Break, st1, cfg));
    assert(print_seq(ds, 0, indent, Mode::Break, st, cfg) == print_cmd(g, indent, Mode::Break, st1, cfg));
    assert(st.out + flat_text(rd) + flat_text(flat) =~= st.out + (flat_text(rd) + flat_text(flat)));
}

/// Putting each of `ds` on a new line starts with a line break.
proof fn lemma_each_on_new_line_starts_with_break(ds: Seq<DocView>)
    requires
        ds.len() > 0,
    ensures
        crate::layout::each_on_new_line(ds).len() > 0,
        crate::layout::each_on_new_line(ds)[0] == DocView::Hardline,
    decreases ds.len(),
{
    let prev = crate::layout::each_on_new_line(ds.drop_last());
    let tail = seq![DocView::Hardline, ds.last()];
    assert(crate::layout::each_on_new_line(ds) == prev + tail);
    if ds.len() > 1 {
        lemma_each_on_new_line_starts_with_break(ds.drop_last());
        assert((prev + tail)[0] == prev[0]);
    } else {
        assert(ds.drop_last().len() == 0);
        assert(prev == Seq::<DocView>::empty());
        assert((prev + tail)[0] == tail[0]);
    }
}

/// The calls of a chain one per line, one level in, print a line break.
proof fn lemma_calls_on_new_lines_break(
    docs: Seq<DocView>,
    indent: int,
    mode: Mode,
    s1: PState,
    cfg: FormatConfig,
)
    requires
        docs.len() > 0,
    ensures
        print_cmd(
            DocView::Indent(Box::new(mk_concat(crate::layout::each_on_new_line(docs)))),
            indent,
            mode,
            s1,
            cfg,
        ).out.contains('\n'),
{
    let es = crate::layout::each_on_new_line(docs);
    let inner = mk_concat(es);
    let brk = DocView::Indent(Box::new(inner));
    let ind = indent + cfg.indent_width;
    assert(print_cmd(brk, indent, mode, s1, cfg) == print_cmd(inner, ind, mode, s1, cfg));
    law_concat_prints_parts(es, ind, mode, s1, cfg);
    lemma_each_on_new_line_starts_with_break(docs);
    let s2 = print_cmd(DocView::Hardline, ind, mode, s1, cfg);
    assert(print_seq(es, 0, ind, mode, s1, cfg) == print_seq(es, 1, ind, mode, s2, cfg));
    let f = crate::printer::flush(s1);
    let pre = if f.at_start {
        PState { out: crate::printer::trim_trailing(f.out), pos: f.pos, at_start: f.at_start, suffixes: f.suffixes }
    } else {
        f
    };
    let x = pre.out.push('\n');
    let sp = crate::width::spaces(ind as nat);
    let s2r = PState { out: sp, pos: ind, at_start: true, suffixes: pre.suffixes };
    assert(s2 == crate::printer::line_break(s1, ind));
    assert(s2.out =~= x + sp);
    assert(s2 == crate::frame::prefixed(x, s2r));
    assert(crate::frame::frame_ok(x, s2r));
    crate::frame::lemma_print_seq_prefix(x, es, 1, ind, mode, s2r, cfg);
    let fin = print_seq(es, 1, ind, mode, s2r, cfg);
    let out = print_cmd(brk, indent, mode, s1, cfg).out;
    assert(out == x + fin.out);
    assert(out[x.len() - 1] == '\n');
}

/// A chain of four or more calls never prints on one line: whatever the
/// room and the mode, its printed text holds a line break.
pub proof fn law_long_chain_breaks(
    c: Call,
    src: Seq<u8>,
    cs: Seq<CommentView>,
    tk: Seq<bool>,
    indent: int,
    mode: Mode,
    st: PState,
    cfg: FormatConfig,
)
    requires
        chain_segments(c, src, cs, tk).0.len() >= 4,
    ensures
        print_cmd(fmt_chain(c, src, cs, tk).0, indent, mode, st, cfg).out.contains('\n'),
{
    let (segs, rd, t) = chain_segments(c, src, cs, tk);
    let docs = segment_docs(segs);
    let brk = DocView::Indent(Box::new(mk_concat(crate::layout::each_on_new_line(docs))));
    let ds = seq![rd, brk];
    assert(fmt_chain(c, src, cs, tk).0 == mk_concat(ds));
    law_concat_prints_parts(ds, indent, mode, st, cfg);
    let s1 = print_cmd(rd, indent, mode, st, cfg);
    assert(ds[0] == rd && ds[1] == brk);
    assert(print_seq(ds, 1, indent, mode, s1, cfg) == print_seq(
        ds,
        2,
        indent,
        mode,
        print_cmd(brk, indent, mode, s1, cfg),
        cfg,
    ));
    assert(print_seq(ds, 0, indent, mode, st, cfg) == print_seq(ds, 1, indent, mode, s1, cfg));
    lemma_calls_on_new_lines_break(docs, indent, mode, s1, cfg);
}

/// A chain of exactly three calls that does not fit breaks: with a
/// receiver that prints on one line and fits on it, printed in break mode
/// where the whole chain's one-line text is wider than what is left of the
/// line, its printed text holds a line break.
pub proof fn law_three_call_chain_breaks_when_too_wide(
    c: Call,
    src: Seq<u8>,
    cs: Seq<CommentView>,
    tk: Seq<bool>,
    indent: int,
    st: PState,
    cfg: FormatConfig,
)
    requires
        chain_segments(c, src, cs, tk).0.len() == 3,
        one_line(chain_segments(c, src, cs, tk).1),
        plain(mk_concat(segment_docs(chain_segments(c, src, cs, tk).0))),
        st.pos + text_width(flat_text(chain_segments(c, src, cs, tk).1)) <= cfg.max_width,
        st.pos + text_width(flat_text(fmt_chain(c, src, cs, tk).0)) > cfg.max_width,
    ensures
        print_cmd(fmt_chain(c, src, cs, tk).0, indent, Mode::Break, st, cfg).out.contains('\n'),
{
    let (segs, rd, t) = chain_segments(c, src, cs, tk);
    let docs = segment_docs(segs);
    let flat = mk_concat(docs);
    let brk = DocView::Indent(Box::new(mk_concat(crate::layout::each_on_new_line(docs))));
    let ib = DocView::IfBreak(Box::new(brk), Box::new(flat));
    let g = DocView::Group(Box::new(ib));
    let ds = seq![rd, g];
    let d = fmt_chain(c, src, cs, tk).0;
    assert(d == mk_concat(ds));
    lemma_flat_mk_concat(ds);
    assert(flat_text(ib) == flat_text(flat));
    assert(flat_text(g) == flat_text(ib));
    reveal_with_fuel(flat_text_from, 3);
    assert(flat_text_from(ds, 0) =~= flat_text(rd) + flat_text(flat));
    lemma_text_width_append(flat_text(rd), flat_text(flat));
    law_concat_prints_parts(ds, indent, Mode::Break, st, cfg);
    lemma_print_one_line(rd, indent, Mode::Break, st, cfg);
    let s1 = print_cmd(rd, indent, Mode::Break, st, cfg);
    let rem: int = if cfg.max_width > s1.pos {
        cfg.max_width - s1.pos
    } else {
        0
    };
    lemma_fits_plain(flat, indent, rem, cfg);
    assert(fits_inner_spec(ib, indent, rem, cfg) == fits_inner_spec(flat, indent, rem, cfg));
    assert(!fits_spec(ib, indent, s1.pos, cfg));
    assert(print_cmd(ib, indent, Mode::Break, s1, cfg) == print_cmd(brk, indent, Mode::Break, s1, cfg));
    assert(print_cmd(g, indent, Mode::Break, s1, cfg) == print_cmd(ib, indent, Mode::Break, s1, cfg));
    assert(ds[0] == rd && ds[1] == g);
    assert(print_seq(ds, 1, indent, Mode::Break, s1, cfg) == print_seq(
        ds,
        2,
        indent,
        Mode::Break,
        print_cmd(g, indent, Mode::Break, s1, cfg),
        cfg,
    ));
    assert(print_seq(ds, 0, indent, Mode::Break, st, cfg) == print_seq(ds, 1, indent, Mode::Break, s1, cfg));
    lemma_calls_on_new_lines_break(docs, indent, Mode::Break, s1, cfg);
}

} // verus!
