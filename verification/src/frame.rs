//! Printing after a prefix: what the printer does with a document does
//! not depend on the text printed before it, only on the column it starts
//! at, so a document printed after some text on the same line is that
//! text followed by the document rendered from that column (with no text
//! before it, from column 0 at the line start).
use vstd::prelude::*;

use crate::ir::DocView;
use crate::printer::{
    flat_out, flat_out_seq, flush, flush_from, line_break, newline, pick, print_cmd, print_seq,
    printed, render, trim_trailing, verbatim_pos, Mode, PState,
};
use crate::width::{last_line, text_width};
use crate::FormatConfig;

verus! {

/// `o` holds a newline.
pub open spec fn has_newline(o: Seq<char>) -> bool
    decreases o.len(),
{
    o.len() > 0 && (o.last() == '\n' || has_newline(o.drop_last()))
}

/// `st` with `x` printed before its text.
pub open spec fn prefixed(x: Seq<char>, st: PState) -> PState {
    PState { out: x + st.out, pos: st.pos, at_start: st.at_start, suffixes: st.suffixes }
}

/// `x` ends with a character that is not a space or a tab.
pub open spec fn ends_solid(x: Seq<char>) -> bool {
    x.len() > 0 && x.last() != ' ' && x.last() != '\t'
}

/// Trimming a blank line of `st` cannot reach into the prefix `x`.
pub open spec fn frame_ok(x: Seq<char>, st: PState) -> bool {
    st.at_start ==> (x.len() == 0 || has_newline(st.out) || ends_solid(x))
}

/// A newline stays when text is added after it.
proof fn lemma_has_newline_append(o: Seq<char>, y: Seq<char>)
    requires
        has_newline(o),
    ensures
        has_newline(o + y),
    decreases y.len(),
{
    if y.len() > 0 {
        lemma_has_newline_append(o, y.drop_last());
        assert((o + y).drop_last() =~= o + y.drop_last());
    } else {
        assert(o + y =~= o);
    }
}

/// Trailing blanks after a newline are trimmed without reaching the text
/// before it.
proof fn lemma_trim_prefix(x: Seq<char>, o: Seq<char>)
    requires
        has_newline(o),
    ensures
        trim_trailing(x + o) == x + trim_trailing(o),
        has_newline(trim_trailing(o)),
    decreases o.len(),
{
    assert((x + o).last() == o.last());
    if o.last() == ' ' || o.last() == '\t' {
        assert((x + o).drop_last() =~= x + o.drop_last());
        lemma_trim_prefix(x, o.drop_last());
    }
}

/// Trailing blanks are trimmed without reaching a prefix that ends with
/// neither a space nor a tab.
proof fn lemma_trim_prefix_solid(x: Seq<char>, o: Seq<char>)
    requires
        ends_solid(x),
    ensures
        trim_trailing(x + o) == x + trim_trailing(o),
    decreases o.len(),
{
    if o.len() == 0 {
        assert(x + o =~= x);
        assert(x + trim_trailing(o) =~= x);
    } else {
        assert((x + o).last() == o.last());
        if o.last() == ' ' || o.last() == '\t' {
            assert((x + o).drop_last() =~= x + o.drop_last());
            lemma_trim_prefix_solid(x, o.drop_last());
        }
    }
}

/// Flat printing only appends to the text.
proof fn lemma_flat_out_appends(d: DocView, o: Seq<char>, p: int)
    ensures
        flat_out(d, o, p).0 == o + flat_out(d, Seq::empty(), p).0,
        flat_out(d, o, p).1 == flat_out(d, Seq::empty(), p).1,
    decreases d, 0int,
{
    match d {
        DocView::Empty | DocView::BreakParent | DocView::LineSuffixBoundary => {
            assert(o + Seq::<char>::empty() =~= o);
        },
        DocView::Text(s) => {
            assert(Seq::<char>::empty() + s =~= s);
        },
        DocView::Verbatim(s) => {
            assert(Seq::<char>::empty() + s =~= s);
        },
        DocView::Hardline => {
            assert(o.push('\n') =~= o + Seq::<char>::empty().push('\n'));
        },
        DocView::Softline(a) => {
            assert(Seq::<char>::empty() + a =~= a);
        },
        DocView::Concat(ds) => lemma_flat_out_seq_appends(ds, 0, o, p),
        DocView::Indent(b) => lemma_flat_out_appends(*b, o, p),
        DocView::Align(_, b) => lemma_flat_out_appends(*b, o, p),
        DocView::Group(b) => lemma_flat_out_appends(*b, o, p),
        DocView::ConditionalGroup(b) => lemma_flat_out_appends(*b, o, p),
        DocView::IfBreak(_, f) => lemma_flat_out_appends(*f, o, p),
        DocView::LineSuffix(b) => lemma_flat_out_appends(*b, o, p),
        DocView::BestOf(vs) => if vs.len() > 0 {
            lemma_flat_out_appends(vs[0], o, p);
        } else {
            assert(o + Seq::<char>::empty() =~= o);
        },
    }
}

/// `lemma_flat_out_appends` over `ds[i..]`.
proof fn lemma_flat_out_seq_appends(ds: Seq<DocView>, i: int, o: Seq<char>, p: int)
    ensures
        flat_out_seq(ds, i, o, p).0 == o + flat_out_seq(ds, i, Seq::empty(), p).0,
        flat_out_seq(ds, i, o, p).1 == flat_out_seq(ds, i, Seq::empty(), p).1,
    decreases ds, ds.len() - i,
{
    if 0 <= i < ds.len() {
        lemma_flat_out_appends(ds[i], o, p);
        let (o1, p1) = flat_out(ds[i], o, p);
        let (e1, q1) = flat_out(ds[i], Seq::empty(), p);
        lemma_flat_out_seq_appends(ds, i + 1, o1, p1);
        lemma_flat_out_seq_appends(ds, i + 1, e1, p1);
        assert(o1 + flat_out_seq(ds, i + 1, Seq::empty(), p1).0 =~= o + (e1 + flat_out_seq(
            ds,
            i + 1,
            Seq::empty(),
            p1,
        ).0));
    } else {
        assert(o + Seq::<char>::empty() =~= o);
    }
}

/// Printing the pending suffixes only appends to the text.
proof fn lemma_flush_from_appends(sfx: Seq<DocView>, i: int, o: Seq<char>, p: int, a: bool)
    ensures
        flush_from(sfx, i, o, p, a).0 == o + flush_from(sfx, i, Seq::empty(), p, a).0,
        flush_from(sfx, i, o, p, a).1 == flush_from(sfx, i, Seq::empty(), p, a).1,
        flush_from(sfx, i, o, p, a).2 == flush_from(sfx, i, Seq::empty(), p, a).2,
        flush_from(sfx, i, o, p, a).2 ==> a,
    decreases sfx.len() - i,
{
    if 0 <= i < sfx.len() {
        lemma_flat_out_appends(sfx[i], o, p);
        let (o1, p1) = flat_out(sfx[i], o, p);
        let (e1, q1) = flat_out(sfx[i], Seq::empty(), p);
        let a1 = if p1 > 0 {
            false
        } else {
            a
        };
        lemma_flush_from_appends(sfx, i + 1, o1, p1, a1);
        lemma_flush_from_appends(sfx, i + 1, e1, p1, a1);
        assert(o1 + flush_from(sfx, i + 1, Seq::empty(), p1, a1).0 =~= o + (e1 + flush_from(
            sfx,
            i + 1,
            Seq::empty(),
            p1,
            a1,
        ).0));
    } else {
        assert(o + Seq::<char>::empty() =~= o);
    }
}

/// Flushing a prefixed state is the prefixed flush.
proof fn lemma_flush_prefix(x: Seq<char>, st: PState)
    requires
        frame_ok(x, st),
    ensures
        flush(prefixed(x, st)) == prefixed(x, flush(st)),
        frame_ok(x, flush(st)),
{
    lemma_flush_from_appends(st.suffixes, 0, x + st.out, st.pos, st.at_start);
    lemma_flush_from_appends(st.suffixes, 0, st.out, st.pos, st.at_start);
    let e = flush_from(st.suffixes, 0, Seq::empty(), st.pos, st.at_start).0;
    assert(x + st.out + e =~= x + (st.out + e));
    if flush(st).at_start && x.len() > 0 && has_newline(st.out) {
        lemma_has_newline_append(st.out, e);
    }
}

/// A new line after a prefixed state is the prefixed new line.
proof fn lemma_newline_prefix(x: Seq<char>, st: PState, indent: int)
    ensures
        newline(prefixed(x, st), indent) == prefixed(x, newline(st, indent)),
        frame_ok(x, newline(st, indent)),
{
    let sp = newline(st, indent).out;
    assert((x + st.out).push('\n') + crate::width::spaces(indent as nat) =~= x + sp);
    assert(has_newline(st.out.push('\n'))) by {
        assert(st.out.push('\n').last() == '\n');
    }
    lemma_has_newline_append(st.out.push('\n'), crate::width::spaces(indent as nat));
}

/// A line break after a prefixed state is the prefixed line break.
proof fn lemma_line_break_prefix(x: Seq<char>, st: PState, indent: int)
    requires
        frame_ok(x, st),
    ensures
        line_break(prefixed(x, st), indent) == prefixed(x, line_break(st, indent)),
        frame_ok(x, line_break(st, indent)),
{
    lemma_flush_prefix(x, st);
    let s1 = flush(st);
    if s1.at_start {
        if x.len() > 0 && has_newline(s1.out) {
            lemma_trim_prefix(x, s1.out);
        } else if x.len() > 0 {
            lemma_trim_prefix_solid(x, s1.out);
        } else {
            assert(x + s1.out =~= s1.out);
            assert(x + trim_trailing(s1.out) =~= trim_trailing(s1.out));
        }
        let s2 = PState { out: trim_trailing(s1.out), pos: s1.pos, at_start: s1.at_start, suffixes: s1.suffixes };
        lemma_newline_prefix(x, s2, indent);
    } else {
        lemma_newline_prefix(x, s1, indent);
    }
}

/// Verbatim text that leaves the column at 0 ends with a newline.
proof fn lemma_verbatim_at_start(s: Seq<char>)
    requires
        s.contains('\n'),
        text_width(last_line(s)) == 0,
    ensures
        s.len() > 0 && s.last() == '\n',
{
    crate::width::lemma_text_width_len(last_line(s));
    if s.len() > 0 && s.last() != '\n' {
        assert(last_line(s) == last_line(s.drop_last()).push(s.last()));
    }
}

/// Printing after a prefix: the state is the prefixed state of printing
/// without it.
proof fn lemma_print_prefix(x: Seq<char>, d: DocView, indent: int, mode: Mode, st: PState, cfg: FormatConfig)
    requires
        frame_ok(x, st),
    ensures
        print_cmd(d, indent, mode, prefixed(x, st), cfg) == prefixed(x, print_cmd(d, indent, mode, st, cfg)),
        frame_ok(x, print_cmd(d, indent, mode, st, cfg)),
    decreases d, 0int,
{
    match d {
        DocView::Text(s) => {
            assert(x + st.out + s =~= x + (st.out + s));
        },
        DocView::Verbatim(s) => {
            assert(x + st.out + s =~= x + (st.out + s));
            let p = verbatim_pos(s, st.pos);
            if s.contains('\n') && p == 0 && x.len() > 0 {
                lemma_verbatim_at_start(s);
                assert((st.out + s).last() == '\n');
            }
        },
        DocView::Hardline => lemma_line_break_prefix(x, st, indent),
        DocView::Softline(a) => if mode == Mode::Flat {
            assert(x + st.out + a =~= x + (st.out + a));
            if st.at_start && x.len() > 0 && a.len() == 0 && has_newline(st.out) {
                lemma_has_newline_append(st.out, a);
            }
        } else {
            lemma_line_break_prefix(x, st, indent);
        },
        DocView::Concat(ds) => lemma_print_seq_prefix(x, ds, 0, indent, mode, st, cfg),
        DocView::Indent(b) => lemma_print_prefix(x, *b, indent + cfg.indent_width, mode, st, cfg),
        DocView::Align(n, b) => lemma_print_prefix(x, *b, indent + n, mode, st, cfg),
        DocView::Group(b) => {
            let m = if mode == Mode::Flat || crate::printer::fits_spec(*b, indent, st.pos, cfg) {
                Mode::Flat
            } else {
                Mode::Break
            };
            lemma_print_prefix(x, *b, indent, m, st, cfg);
        },
        DocView::ConditionalGroup(b) => {
            let m = if mode == Mode::Flat || crate::printer::fits_spec(*b, indent, st.pos, cfg) {
                Mode::Flat
            } else {
                Mode::Break
            };
            lemma_print_prefix(x, *b, indent, m, st, cfg);
        },
        DocView::IfBreak(bk, f) => if mode == Mode::Flat {
            lemma_print_prefix(x, *f, indent, mode, st, cfg);
        } else {
            lemma_print_prefix(x, *bk, indent, mode, st, cfg);
        },
        DocView::BestOf(vs) => if vs.len() > 0 {
            let c = pick(vs, 0, indent, st.pos, cfg);
            if 0 <= c < vs.len() {
                lemma_print_prefix(x, vs[c], indent, mode, st, cfg);
            }
        },
        DocView::LineSuffixBoundary => if st.suffixes.len() > 0 {
            lemma_flush_prefix(x, st);
            lemma_newline_prefix(x, flush(st), indent);
        },
        _ => {},
    }
}

/// `lemma_print_prefix` over `ds[i..]`.
pub(crate) proof fn lemma_print_seq_prefix(
    x: Seq<char>,
    ds: Seq<DocView>,
    i: int,
    indent: int,
    mode: Mode,
    st: PState,
    cfg: FormatConfig,
)
    requires
        frame_ok(x, st),
    ensures
        print_seq(ds, i, indent, mode, prefixed(x, st), cfg) == prefixed(
            x,
            print_seq(ds, i, indent, mode, st, cfg),
        ),
        frame_ok(x, print_seq(ds, i, indent, mode, st, cfg)),
    decreases ds, ds.len() - i,
{
    if 0 <= i < ds.len() {
        lemma_print_prefix(x, ds[i], indent, mode, st, cfg);
        lemma_print_seq_prefix(x, ds, i + 1, indent, mode, print_cmd(ds[i], indent, mode, st, cfg), cfg);
    }
}

/// `o` is empty or ends a line, so trimming its trailing blanks changes
/// nothing.
pub open spec fn ends_clean(o: Seq<char>) -> bool {
    o.len() == 0 || o.last() == '\n'
}

/// Two states alike but perhaps in whether they stand at a line start,
/// which then cannot matter: their text is empty or ends a line.
pub open spec fn alike(a: PState, b: PState) -> bool {
    &&& a.out == b.out
    &&& a.pos == b.pos
    &&& a.suffixes == b.suffixes
    &&& (a.at_start == b.at_start || ends_clean(a.out))
}

/// Flat printing that ends at column 0 leaves the text as it was (from
/// column 0) or ends it with a newline.
proof fn lemma_flat_out_column0(d: DocView, o: Seq<char>, p: int)
    requires
        p >= 0,
    ensures
        flat_out(d, o, p).1 >= 0,
        flat_out(d, o, p).1 == 0 ==> (flat_out(d, o, p).0 == o && p == 0) || (flat_out(d, o, p).0.len() > 0
            && flat_out(d, o, p).0.last() == '\n'),
    decreases d, 0int,
{
    match d {
        DocView::Text(s) => {
            crate::width::lemma_text_width_len(s);
            if s.len() == 0 {
                assert(o + s =~= o);
            }
        },
        DocView::Softline(a) => {
            crate::width::lemma_text_width_len(a);
            if a.len() == 0 {
                assert(o + a =~= o);
            }
        },
        DocView::Verbatim(s) => {
            crate::width::lemma_text_width_len(s);
            crate::width::lemma_text_width_len(last_line(s));
            if s.contains('\n') {
                if verbatim_pos(s, p) == 0 {
                    lemma_verbatim_at_start(s);
                    assert((o + s).last() == s.last());
                }
            } else if s.len() == 0 {
                assert(o + s =~= o);
            }
        },
        DocView::Concat(ds) => lemma_flat_out_seq_column0(ds, 0, o, p),
        DocView::Indent(b) => lemma_flat_out_column0(*b, o, p),
        DocView::Align(_, b) => lemma_flat_out_column0(*b, o, p),
        DocView::Group(b) => lemma_flat_out_column0(*b, o, p),
        DocView::ConditionalGroup(b) => lemma_flat_out_column0(*b, o, p),
        DocView::IfBreak(_, f) => lemma_flat_out_column0(*f, o, p),
        DocView::LineSuffix(b) => lemma_flat_out_column0(*b, o, p),
        DocView::BestOf(vs) => if vs.len() > 0 {
            lemma_flat_out_column0(vs[0], o, p);
        },
        _ => {},
    }
}

/// `lemma_flat_out_column0` over `ds[i..]`.
proof fn lemma_flat_out_seq_column0(ds: Seq<DocView>, i: int, o: Seq<char>, p: int)
    requires
        p >= 0,
    ensures
        flat_out_seq(ds, i, o, p).1 >= 0,
        flat_out_seq(ds, i, o, p).1 == 0 ==> (flat_out_seq(ds, i, o, p).0 == o && p == 0) || (flat_out_seq(
            ds,
            i,
            o,
            p,
        ).0.len() > 0 && flat_out_seq(ds, i, o, p).0.last() == '\n'),
    decreases ds, ds.len() - i,
{
    if 0 <= i < ds.len() {
        lemma_flat_out_column0(ds[i], o, p);
        let (o1, p1) = flat_out(ds[i], o, p);
        lemma_flat_out_seq_column0(ds, i + 1, o1, p1);
    }
}

/// Printing the pending suffixes: the text and column do not depend on
/// whether the state stands at a line start, and where the two answers
/// differ the text is empty or ends a line.
proof fn lemma_flush_from_start_blind(sfx: Seq<DocView>, i: int, o: Seq<char>, p: int)
    requires
        p >= 0,
        ends_clean(o),
    ensures
        flush_from(sfx, i, o, p, true).0 == flush_from(sfx, i, o, p, false).0,
        flush_from(sfx, i, o, p, true).1 == flush_from(sfx, i, o, p, false).1,
        !flush_from(sfx, i, o, p, false).2,
        flush_from(sfx, i, o, p, true).2 ==> ends_clean(flush_from(sfx, i, o, p, true).0),
    decreases sfx.len() - i,
{
    if 0 <= i < sfx.len() {
        lemma_flat_out_column0(sfx[i], o, p);
        let (o1, p1) = flat_out(sfx[i], o, p);
        if p1 > 0 {
            lemma_flush_false(sfx, i + 1, o1, p1);
        } else {
            lemma_flush_from_start_blind(sfx, i + 1, o1, p1);
        }
    }
}

/// From a state not at a line start, printing suffixes keeps it so.
proof fn lemma_flush_false(sfx: Seq<DocView>, i: int, o: Seq<char>, p: int)
    ensures
        !flush_from(sfx, i, o, p, false).2,
    decreases sfx.len() - i,
{
    if 0 <= i < sfx.len() {
        let (o1, p1) = flat_out(sfx[i], o, p);
        lemma_flush_false(sfx, i + 1, o1, p1);
    }
}

/// Flushing alike states gives alike states.
proof fn lemma_flush_alike(a: PState, b: PState)
    requires
        alike(a, b),
        a.pos >= 0,
    ensures
        alike(flush(a), flush(b)),
        flush(a).pos >= 0,
{
    lemma_flush_pos(a.suffixes, 0, a.out, a.pos, a.at_start);
    if a.at_start != b.at_start {
        lemma_flush_from_start_blind(a.suffixes, 0, a.out, a.pos);
    }
}

/// Printing suffixes keeps the column non-negative.
proof fn lemma_flush_pos(sfx: Seq<DocView>, i: int, o: Seq<char>, p: int, at: bool)
    requires
        p >= 0,
    ensures
        flush_from(sfx, i, o, p, at).1 >= 0,
    decreases sfx.len() - i,
{
    if 0 <= i < sfx.len() {
        lemma_flat_out_column0(sfx[i], o, p);
        let (o1, p1) = flat_out(sfx[i], o, p);
        lemma_flush_pos(sfx, i + 1, o1, p1, if p1 > 0 {
            false
        } else {
            at
        });
    }
}

/// A line break from alike states gives the same state.
proof fn lemma_line_break_alike(a: PState, b: PState, indent: int)
    requires
        alike(a, b),
        a.pos >= 0,
    ensures
        line_break(a, indent) == line_break(b, indent),
{
    lemma_flush_alike(a, b);
    let fa = flush(a);
    let fb = flush(b);
    if fa.at_start != fb.at_start {
        if fa.out.len() > 0 {
            assert(trim_trailing(fa.out) == fa.out);
        }
    }
}

/// Printing from alike states gives alike states.
proof fn lemma_print_alike(d: DocView, indent: int, mode: Mode, a: PState, b: PState, cfg: FormatConfig)
    requires
        alike(a, b),
        a.pos >= 0,
        indent >= 0,
    ensures
        alike(print_cmd(d, indent, mode, a, cfg), print_cmd(d, indent, mode, b, cfg)),
        print_cmd(d, indent, mode, a, cfg).pos >= 0,
    decreases d, 0int,
{
    {
        match d {
            DocView::Text(s) => {
                crate::width::lemma_text_width_len(s);
            },
            DocView::Verbatim(s) => {
                crate::width::lemma_text_width_len(s);
                crate::width::lemma_text_width_len(last_line(s));
            },
            DocView::Hardline => lemma_line_break_alike(a, b, indent),
            DocView::Softline(x) => if mode == Mode::Flat {
                crate::width::lemma_text_width_len(x);
                if x.len() == 0 {
                    assert(a.out + x =~= a.out);
                }
            } else {
                lemma_line_break_alike(a, b, indent);
            },
            DocView::Concat(ds) => lemma_print_seq_alike(ds, 0, indent, mode, a, b, cfg),
            DocView::Indent(bd) => lemma_print_alike(*bd, indent + cfg.indent_width, mode, a, b, cfg),
            DocView::Align(n, bd) => lemma_print_alike(*bd, indent + n, mode, a, b, cfg),
            DocView::Group(bd) => {
                let m = if mode == Mode::Flat || crate::printer::fits_spec(*bd, indent, a.pos, cfg) {
                    Mode::Flat
                } else {
                    Mode::Break
                };
                lemma_print_alike(*bd, indent, m, a, b, cfg);
            },
            DocView::ConditionalGroup(bd) => {
                let m = if mode == Mode::Flat || crate::printer::fits_spec(*bd, indent, a.pos, cfg) {
                    Mode::Flat
                } else {
                    Mode::Break
                };
                lemma_print_alike(*bd, indent, m, a, b, cfg);
            },
            DocView::IfBreak(bk, f) => if mode == Mode::Flat {
                lemma_print_alike(*f, indent, mode, a, b, cfg);
            } else {
                lemma_print_alike(*bk, indent, mode, a, b, cfg);
            },
            DocView::BestOf(vs) => if vs.len() > 0 {
                let c = pick(vs, 0, indent, a.pos, cfg);
                if 0 <= c < vs.len() {
                    lemma_print_alike(vs[c], indent, mode, a, b, cfg);
                }
            },
            DocView::LineSuffixBoundary => if a.suffixes.len() > 0 {
                lemma_flush_alike(a, b);
            },
            _ => {},
        }
    }
}

/// `lemma_print_alike` over `ds[i..]`.
proof fn lemma_print_seq_alike(
    ds: Seq<DocView>,
    i: int,
    indent: int,
    mode: Mode,
    a: PState,
    b: PState,
    cfg: FormatConfig,
)
    requires
        alike(a, b),
        a.pos >= 0,
        indent >= 0,
    ensures
        alike(print_seq(ds, i, indent, mode, a, cfg), print_seq(ds, i, indent, mode, b, cfg)),
        print_seq(ds, i, indent, mode, a, cfg).pos >= 0,
    decreases ds, ds.len() - i,
{
    if 0 <= i < ds.len() {
        lemma_print_alike(ds[i], indent, mode, a, b, cfg);
        lemma_print_seq_alike(
            ds,
            i + 1,
            indent,
            mode,
            print_cmd(ds[i], indent, mode, a, cfg),
            print_cmd(ds[i], indent, mode, b, cfg),
            cfg,
        );
    }
}

/// Text followed, on the same line, by a document aligned at `n` prints as
/// that text and then the document rendered from the column where the text
/// ends, whatever the text (none at all included); with no text before it
/// a document prints as its rendering from column 0.
pub proof fn law_print_after_prefix(x: Seq<char>, n: nat, d: DocView, cfg: FormatConfig)
    ensures
        printed(DocView::Concat(seq![DocView::Text(x), DocView::Align(n, Box::new(d))]), cfg) == x
            + render(d, n as int, text_width(x) as int, cfg),
        printed(d, cfg) == render(d, 0, 0, cfg),
{
    let st0 = PState { out: Seq::empty(), pos: 0, at_start: true, suffixes: Seq::empty() };
    let ds = seq![DocView::Text(x), DocView::Align(n, Box::new(d))];
    let st1 = print_cmd(DocView::Text(x), 0, Mode::Break, st0, cfg);
    let r0 = PState {
        out: Seq::empty(),
        pos: text_width(x) as int,
        at_start: text_width(x) == 0,
        suffixes: Seq::empty(),
    };
    crate::width::lemma_text_width_len(x);
    assert(Seq::<char>::empty() + x =~= x);
    assert(x + Seq::<char>::empty() =~= x);
    let s1 = print_cmd(d, n as int, Mode::Break, st1, cfg);
    let s2 = print_cmd(d, n as int, Mode::Break, r0, cfg);
    assert(ds[1] == DocView::Align(n, Box::new(d)));
    assert(print_cmd(ds[1], 0, Mode::Break, st1, cfg) == s1);
    assert(print_seq(ds, 2, 0, Mode::Break, s1, cfg) == s1);
    assert(print_seq(ds, 1, 0, Mode::Break, st1, cfg) == print_seq(
        ds,
        2,
        0,
        Mode::Break,
        print_cmd(ds[1], 0, Mode::Break, st1, cfg),
        cfg,
    ));
    assert(ds[0] == DocView::Text(x));
    assert(print_seq(ds, 0, 0, Mode::Break, st0, cfg) == s1);
    if x.len() > 0 {
        assert(st1 == prefixed(x, r0));
        lemma_print_prefix(x, d, n as int, Mode::Break, r0, cfg);
        lemma_flush_prefix(x, s2);
    } else {
        assert(alike(st1, r0));
        lemma_print_alike(d, n as int, Mode::Break, st1, r0, cfg);
        lemma_flush_alike(s1, s2);
        assert(x + flush(s2).out =~= flush(s2).out);
    }
}

} // verus!
