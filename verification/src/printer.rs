//! Printer: turns a `Doc` tree into the final text.
//!
//! A Wadler-Lindig style algorithm: the document is walked with a stack of
//! `(indent, mode, doc)` commands. Groups are first tried flat; if the flat
//! rendering does not fit in `max_width`, the group breaks and its soft
//! lines become newlines.
//!
//! The meaning of printing is given by `print_cmd`, a recursive function
//! over the document's view; the stack machine is proved to compute it.
use vstd::prelude::*;

use crate::ir::{docs_view, lemma_docs_view, Doc, DocView};
use crate::width::{char_width, lemma_last_line_width, char_width_exec, last_line, last_line_info, push_chars, push_spaces, spaces, str_width, text_width};
use crate::text::chars_to_string;
use crate::FormatConfig;

verus! {

broadcast use vstd::std_specs::vec::group_vec_axioms;

/// Print mode of a document fragment.
#[derive(Debug, Clone, Copy, PartialEq, Eq, Structural)]
pub enum Mode {
    /// Everything on one line.
    Flat,
    /// Soft lines become newlines.
    Break,
}

/// The printer's state between two commands.
pub struct PState {
    /// The text printed so far.
    pub out: Seq<char>,
    /// The width printed on the current line.
    pub pos: int,
    /// Nothing but indentation has been printed since the last newline.
    pub at_start: bool,
    /// Pending line suffixes, flushed before the next newline.
    pub suffixes: Seq<DocView>,
}

// ── Measures ────────────────────────────────────────────────────────────

/// Number of nodes of a document.
pub open spec fn doc_size(d: DocView) -> nat
    decreases d, 0int,
{
    match d {
        DocView::Concat(ds) => 1 + docs_size(ds, 0),
        DocView::BestOf(ds) => 1 + docs_size(ds, 0),
        DocView::Indent(b) => 1 + doc_size(*b),
        DocView::Align(_, b) => 1 + doc_size(*b),
        DocView::Group(b) => 1 + doc_size(*b),
        DocView::ConditionalGroup(b) => 1 + doc_size(*b),
        DocView::LineSuffix(b) => 1 + doc_size(*b),
        DocView::IfBreak(b, f) => 1 + doc_size(*b) + doc_size(*f),
        _ => 1,
    }
}

/// Number of nodes of `ds[i..]`.
pub open spec fn docs_size(ds: Seq<DocView>, i: int) -> nat
    decreases ds, ds.len() - i,
{
    if i < 0 || i >= ds.len() {
        0
    } else {
        doc_size(ds[i]) + docs_size(ds, i + 1)
    }
}

/// Total width of all the text in a document, every alternative counted.
pub open spec fn text_total(d: DocView) -> nat
    decreases d, 0int,
{
    match d {
        DocView::Text(s) => text_width(s),
        DocView::Verbatim(s) => text_width(s),
        DocView::Softline(s) => text_width(s),
        DocView::Concat(ds) => texts_total(ds, 0),
        DocView::BestOf(ds) => texts_total(ds, 0),
        DocView::Indent(b) => text_total(*b),
        DocView::Align(_, b) => text_total(*b),
        DocView::Group(b) => text_total(*b),
        DocView::ConditionalGroup(b) => text_total(*b),
        DocView::LineSuffix(b) => text_total(*b),
        DocView::IfBreak(b, f) => text_total(*b) + text_total(*f),
        _ => 0,
    }
}

/// Total text width of `ds[i..]`.
pub open spec fn texts_total(ds: Seq<DocView>, i: int) -> nat
    decreases ds, ds.len() - i,
{
    if i < 0 || i >= ds.len() {
        0
    } else {
        text_total(ds[i]) + texts_total(ds, i + 1)
    }
}

/// The largest indentation that a document adds to the one it starts at.
pub open spec fn indent_depth(d: DocView, iw: nat) -> nat
    decreases d, 0int,
{
    match d {
        DocView::Concat(ds) => indents_depth(ds, 0, iw),
        DocView::BestOf(ds) => indents_depth(ds, 0, iw),
        DocView::Indent(b) => iw + indent_depth(*b, iw),
        DocView::Align(n, b) => n + indent_depth(*b, iw),
        DocView::Group(b) => indent_depth(*b, iw),
        DocView::ConditionalGroup(b) => indent_depth(*b, iw),
        DocView::LineSuffix(b) => indent_depth(*b, iw),
        DocView::IfBreak(b, f) => if indent_depth(*b, iw) >= indent_depth(*f, iw) {
            indent_depth(*b, iw)
        } else {
            indent_depth(*f, iw)
        },
        _ => 0,
    }
}

/// The largest indentation added by one of `ds[i..]`.
pub open spec fn indents_depth(ds: Seq<DocView>, i: int, iw: nat) -> nat
    decreases ds, ds.len() - i,
{
    if i < 0 || i >= ds.len() {
        0
    } else {
        let a = indent_depth(ds[i], iw);
        let b = indents_depth(ds, i + 1, iw);
        if a >= b {
            a
        } else {
            b
        }
    }
}

/// Every `BestOf` in the document has at least one variant.
pub open spec fn doc_wf(d: DocView) -> bool
    decreases d, 0int,
{
    match d {
        DocView::Concat(ds) => docs_wf(ds, 0),
        DocView::BestOf(ds) => ds.len() > 0 && docs_wf(ds, 0),
        DocView::Indent(b) => doc_wf(*b),
        DocView::Align(_, b) => doc_wf(*b),
        DocView::Group(b) => doc_wf(*b),
        DocView::ConditionalGroup(b) => doc_wf(*b),
        DocView::LineSuffix(b) => doc_wf(*b),
        DocView::IfBreak(b, f) => doc_wf(*b) && doc_wf(*f),
        _ => true,
    }
}

/// Every one of `ds[i..]` is well formed.
pub open spec fn docs_wf(ds: Seq<DocView>, i: int) -> bool
    decreases ds, ds.len() - i,
{
    if i < 0 || i >= ds.len() {
        true
    } else {
        doc_wf(ds[i]) && docs_wf(ds, i + 1)
    }
}

/// The document can be printed with `cfg` without any of the printer's
/// counters leaving the range of `isize`: its indentation, its text and the
/// maximum width together stay below `isize::MAX`.
pub open spec fn printable(d: DocView, cfg: FormatConfig) -> bool {
    &&& doc_wf(d)
    &&& indent_depth(d, cfg.indent_width as nat) + text_total(d) + cfg.max_width
        <= isize::MAX
}

// ── Flat printing (line suffixes) ───────────────────────────────────────

/// Where the column is after verbatim text `s` printed at column `pos`.
pub open spec fn verbatim_pos(s: Seq<char>, pos: int) -> int {
    if s.contains('\n') {
        text_width(last_line(s)) as int
    } else {
        pos + text_width(s)
    }
}

/// A document printed with no line breaking: the text and the final column.
pub open spec fn flat_out(d: DocView, out: Seq<char>, pos: int) -> (Seq<char>, int)
    decreases d, 0int,
{
    match d {
        DocView::Empty | DocView::BreakParent | DocView::LineSuffixBoundary => (out, pos),
        DocView::Text(s) => (out + s, pos + text_width(s)),
        DocView::Verbatim(s) => (out + s, verbatim_pos(s, pos)),
        DocView::Hardline => (out.push('\n'), 0),
        DocView::Softline(a) => (out + a, pos + text_width(a)),
        DocView::Concat(ds) => flat_out_seq(ds, 0, out, pos),
        DocView::Indent(b) => flat_out(*b, out, pos),
        DocView::Align(_, b) => flat_out(*b, out, pos),
        DocView::Group(b) => flat_out(*b, out, pos),
        DocView::ConditionalGroup(b) => flat_out(*b, out, pos),
        DocView::IfBreak(_, f) => flat_out(*f, out, pos),
        DocView::LineSuffix(b) => flat_out(*b, out, pos),
        DocView::BestOf(vs) => if vs.len() > 0 {
            flat_out(vs[0], out, pos)
        } else {
            (out, pos)
        },
    }
}

/// `ds[i..]` printed flat, one after another.
pub open spec fn flat_out_seq(ds: Seq<DocView>, i: int, out: Seq<char>, pos: int) -> (
    Seq<char>,
    int,
)
    decreases ds, ds.len() - i,
{
    if i < 0 || i >= ds.len() {
        (out, pos)
    } else {
        let (o, p) = flat_out(ds[i], out, pos);
        flat_out_seq(ds, i + 1, o, p)
    }
}

/// The pending suffixes `sfx[i..]` printed flat in order.
pub open spec fn flush_from(sfx: Seq<DocView>, i: int, out: Seq<char>, pos: int, at_start: bool) -> (
    Seq<char>,
    int,
    bool,
)
    decreases sfx.len() - i,
{
    if i < 0 || i >= sfx.len() {
        (out, pos, at_start)
    } else {
        let (o, p) = flat_out(sfx[i], out, pos);
        flush_from(
            sfx,
            i + 1,
            o,
            p,
            if p > 0 {
                false
            } else {
                at_start
            },
        )
    }
}

/// The state once the pending line suffixes are printed.
pub open spec fn flush(st: PState) -> PState {
    let (o, p, a) = flush_from(st.suffixes, 0, st.out, st.pos, st.at_start);
    PState { out: o, pos: p, at_start: a, suffixes: Seq::empty() }
}

/// `out` without its trailing spaces and tabs.
pub open spec fn trim_trailing(out: Seq<char>) -> Seq<char>
    decreases out.len(),
{
    if out.len() > 0 && (out.last() == ' ' || out.last() == '\t') {
        trim_trailing(out.drop_last())
    } else {
        out
    }
}

/// A newline and `indent` spaces.
pub open spec fn newline(st: PState, indent: int) -> PState {
    PState {
        out: st.out.push('\n') + spaces(indent as nat),
        pos: indent,
        at_start: true,
        suffixes: st.suffixes,
    }
}

/// A line break: pending suffixes, then (on a blank line) the trailing
/// whitespace removed, then a newline and the indentation.
pub open spec fn line_break(st: PState, indent: int) -> PState {
    let s1 = flush(st);
    let s2 = if s1.at_start {
        PState { out: trim_trailing(s1.out), pos: s1.pos, at_start: s1.at_start, suffixes: s1.suffixes }
    } else {
        s1
    };
    newline(s2, indent)
}

// ── Fitting ─────────────────────────────────────────────────────────────

/// Whether `d` printed flat fits in `rem` columns.
pub open spec fn fits_inner_spec(d: DocView, indent: int, rem: int, cfg: FormatConfig) -> bool
    decreases d, 0int,
{
    if rem < 0 {
        false
    } else {
        match d {
            DocView::Empty => true,
            DocView::Text(s) => rem >= text_width(s),
            DocView::Verbatim(s) => if s.contains('\n') {
                text_width(last_line(s)) <= rem
            } else {
                rem >= text_width(s)
            },
            DocView::Hardline => true,
            DocView::Softline(a) => rem >= text_width(a),
            DocView::Concat(ds) => fits_accum_seq_spec(ds, 0, indent, rem, cfg).0,
            DocView::Indent(b) => fits_inner_spec(*b, indent + cfg.indent_width, rem, cfg),
            DocView::Align(n, b) => fits_inner_spec(*b, indent + n, rem, cfg),
            DocView::Group(b) => fits_inner_spec(*b, indent, rem, cfg),
            DocView::ConditionalGroup(b) => fits_inner_spec(*b, indent, rem, cfg),
            DocView::IfBreak(_, f) => fits_inner_spec(*f, indent, rem, cfg),
            DocView::BreakParent => false,
            DocView::LineSuffix(_) => true,
            DocView::LineSuffixBoundary => true,
            DocView::BestOf(vs) => if vs.len() == 0 {
                true
            } else {
                fits_inner_spec(vs[0], indent, rem, cfg)
            },
        }
    }
}

/// Whether `d` printed flat after `rem` remaining columns still fits, and
/// the columns that remain after it.
pub open spec fn fits_accum_spec(d: DocView, indent: int, rem: int, cfg: FormatConfig) -> (bool, int)
    decreases d, 0int,
{
    if rem < 0 {
        (false, rem)
    } else {
        match d {
            DocView::Empty => (true, rem),
            DocView::Text(s) => (rem - text_width(s) >= 0, rem - text_width(s)),
            DocView::Verbatim(s) => {
                let r = if s.contains('\n') {
                    cfg.max_width - indent - text_width(last_line(s))
                } else {
                    rem - text_width(s)
                };
                (r >= 0, r)
            },
            DocView::Hardline => (true, cfg.max_width - indent),
            DocView::Softline(a) => (rem - text_width(a) >= 0, rem - text_width(a)),
            DocView::Concat(ds) => fits_accum_seq_spec(ds, 0, indent, rem, cfg),
            DocView::Indent(b) => fits_accum_spec(*b, indent + cfg.indent_width, rem, cfg),
            DocView::Align(n, b) => fits_accum_spec(*b, indent + n, rem, cfg),
            DocView::Group(b) => fits_accum_spec(*b, indent, rem, cfg),
            DocView::ConditionalGroup(b) => fits_accum_spec(*b, indent, rem, cfg),
            DocView::IfBreak(_, f) => fits_accum_spec(*f, indent, rem, cfg),
            DocView::BreakParent => (false, rem),
            DocView::LineSuffix(_) => (true, rem),
            DocView::LineSuffixBoundary => (true, rem),
            DocView::BestOf(vs) => if vs.len() == 0 {
                (true, rem)
            } else {
                fits_accum_spec(vs[0], indent, rem, cfg)
            },
        }
    }
}

/// `fits_accum` over `ds[i..]`, stopping at the first that does not fit.
pub open spec fn fits_accum_seq_spec(ds: Seq<DocView>, i: int, indent: int, rem: int, cfg: FormatConfig) -> (
    bool,
    int,
)
    decreases ds, ds.len() - i,
{
    if i < 0 || i >= ds.len() {
        (true, rem)
    } else {
        let (ok, r) = fits_accum_spec(ds[i], indent, rem, cfg);
        if !ok {
            (false, r)
        } else {
            fits_accum_seq_spec(ds, i + 1, indent, r, cfg)
        }
    }
}

/// Whether `d` fits flat on the rest of a line at column `pos`.
pub open spec fn fits_spec(d: DocView, indent: int, pos: int, cfg: FormatConfig) -> bool {
    fits_inner_spec(
        d,
        indent,
        if cfg.max_width > pos {
            cfg.max_width - pos
        } else {
            0
        },
        cfg,
    )
}

/// Whether every line of `t`, the first starting at column `col`, is at
/// most `max` wide.
pub open spec fn lines_fit(t: Seq<char>, col: int, max: int) -> bool
    decreases t.len(),
{
    if t.len() == 0 {
        col <= max
    } else if t[0] == '\n' {
        col <= max && lines_fit(t.drop_first(), 0, max)
    } else {
        lines_fit(t.drop_first(), col + char_width(t[0]), max)
    }
}

// ── Printing ────────────────────────────────────────────────────────────

/// The state after printing `d` at indentation `indent` in `mode`.
pub open spec fn print_cmd(d: DocView, indent: int, mode: Mode, st: PState, cfg: FormatConfig) -> PState
    decreases d, 0int,
{
    match d {
        DocView::Empty => st,
        DocView::Text(s) => PState {
            out: st.out + s,
            pos: st.pos + text_width(s),
            at_start: false,
            suffixes: st.suffixes,
        },
        DocView::Verbatim(s) => {
            let p = verbatim_pos(s, st.pos);
            PState {
                out: st.out + s,
                pos: p,
                at_start: if s.contains('\n') {
                    p == 0
                } else {
                    false
                },
                suffixes: st.suffixes,
            }
        },
        DocView::Hardline => line_break(st, indent),
        DocView::Softline(a) => if mode == Mode::Flat {
            PState {
                out: st.out + a,
                pos: st.pos + text_width(a),
                at_start: if a.len() > 0 {
                    false
                } else {
                    st.at_start
                },
                suffixes: st.suffixes,
            }
        } else {
            line_break(st, indent)
        },
        DocView::Concat(ds) => print_seq(ds, 0, indent, mode, st, cfg),
        DocView::Indent(b) => print_cmd(*b, indent + cfg.indent_width, mode, st, cfg),
        DocView::Align(n, b) => print_cmd(*b, indent + n, mode, st, cfg),
        DocView::Group(b) => print_cmd(
            *b,
            indent,
            if mode == Mode::Flat || fits_spec(*b, indent, st.pos, cfg) {
                Mode::Flat
            } else {
                Mode::Break
            },
            st,
            cfg,
        ),
        DocView::ConditionalGroup(b) => print_cmd(
            *b,
            indent,
            if mode == Mode::Flat || fits_spec(*b, indent, st.pos, cfg) {
                Mode::Flat
            } else {
                Mode::Break
            },
            st,
            cfg,
        ),
        DocView::IfBreak(bk, f) => if mode == Mode::Flat {
            print_cmd(*f, indent, mode, st, cfg)
        } else {
            print_cmd(*bk, indent, mode, st, cfg)
        },
        DocView::BreakParent => st,
        DocView::BestOf(vs) => if vs.len() == 0 {
            st
        } else {
            let c = pick(vs, 0, indent, st.pos, cfg);
            if 0 <= c < vs.len() {
                print_cmd(vs[c], indent, mode, st, cfg)
            } else {
                st
            }
        },
        DocView::LineSuffix(b) => PState {
            out: st.out,
            pos: st.pos,
            at_start: st.at_start,
            suffixes: st.suffixes.push(*b),
        },
        DocView::LineSuffixBoundary => if st.suffixes.len() > 0 {
            newline(flush(st), indent)
        } else {
            st
        },
    }
}

/// The state after printing `ds[i..]` one after another.
pub open spec fn print_seq(
    ds: Seq<DocView>,
    i: int,
    indent: int,
    mode: Mode,
    st: PState,
    cfg: FormatConfig,
) -> PState
    decreases ds, ds.len() - i,
{
    if i < 0 || i >= ds.len() {
        st
    } else {
        print_seq(ds, i + 1, indent, mode, print_cmd(ds[i], indent, mode, st, cfg), cfg)
    }
}

/// The index of the variant a `BestOf` prints, searching from `i`: the first
/// whose rendering fits in `max_width` on every line, else the last.
pub open spec fn pick(vs: Seq<DocView>, i: int, indent: int, pos: int, cfg: FormatConfig) -> int
    decreases vs, vs.len() - i,
{
    if i < 0 || i >= vs.len() - 1 {
        vs.len() - 1
    } else if lines_fit(render(vs[i], indent, pos, cfg), pos, cfg.max_width as int) {
        i
    } else {
        pick(vs, i + 1, indent, pos, cfg)
    }
}

/// The text of `d` printed in break mode at indentation `indent`, starting
/// at column `pos`, pending suffixes included.
pub open spec fn render(d: DocView, indent: int, pos: int, cfg: FormatConfig) -> Seq<char>
    decreases d, 1int,
{
    let st0 = PState { out: Seq::empty(), pos: pos, at_start: pos == 0, suffixes: Seq::empty() };
    flush(print_cmd(d, indent, Mode::Break, st0, cfg)).out
}

/// The text that `print_doc` gives for `d`.
pub open spec fn printed(d: DocView, cfg: FormatConfig) -> Seq<char> {
    render(d, 0, 0, cfg)
}

// ── Executable helpers ──────────────────────────────────────────────────

/// Trim trailing whitespace (spaces and tabs) from the output.
fn trim_trailing_whitespace(out: &mut Vec<char>)
    ensures
        final(out)@ == trim_trailing(old(out)@),
{
    while out.len() > 0 && (out[out.len() - 1] == ' ' || out[out.len() - 1] == '\t')
        invariant
            trim_trailing(out@) == trim_trailing(old(out)@),
        decreases out.len(),
    {
        proof {
            assert(out@.last() == out@[out@.len() - 1]);
        }
        out.pop();
    }
}

/// Print a document in flat mode (no line breaking), as line suffixes are.
fn print_flat(doc: &Doc, out: &mut Vec<char>, pos: &mut usize)
    requires
        *old(pos) + text_total(doc@) <= usize::MAX,
    ensures
        (final(out)@, *final(pos) as int) == flat_out(doc@, old(out)@, *old(pos) as int),
        *final(pos) <= *old(pos) + text_total(doc@),
    decreases doc,
{
    match doc {
        Doc::Empty | Doc::BreakParent | Doc::LineSuffixBoundary => {},
        Doc::Text(s) => {
            push_chars(out, s.as_str());
            *pos = *pos + str_width(s.as_str());
        },
        Doc::Verbatim(s) => {
            push_chars(out, s.as_str());
            let (has_newline, last) = last_line_info(s.as_str());
            proof {
                lemma_last_line_width(s@);
            }
            if has_newline {
                *pos = last;
            } else {
                *pos = *pos + str_width(s.as_str());
            }
        },
        Doc::Hardline => {
            out.push('\n');
            *pos = 0;
        },
        Doc::Softline { flat_alt } => {
            push_chars(out, flat_alt.as_str());
            *pos = *pos + str_width(flat_alt.as_str());
        },
        Doc::Concat(docs) => {
            let ghost dv = docs_view(docs@);
            let ghost out0 = out@;
            let ghost pos0 = *pos as int;
            proof {
                lemma_docs_view(docs@);
            }
            let mut i: usize = 0;
            while i < docs.len()
                invariant
                    dv == docs_view(docs@),
                    dv.len() == docs@.len(),
                    forall|k: int| 0 <= k < dv.len() ==> #[trigger] dv[k] == docs@[k]@,
                    i <= docs.len(),
                    doc@ == DocView::Concat(dv),
                    *doc == Doc::Concat(*docs),
                    flat_out_seq(dv, i as int, out@, *pos as int) == flat_out_seq(dv, 0, out0, pos0),
                    *pos + texts_total(dv, i as int) <= pos0 + texts_total(dv, 0),
                    pos0 + text_total(doc@) <= usize::MAX,
                decreases docs.len() - i,
            {
                proof {
                    assert(decreases_to!(doc => docs));
                    assert(decreases_to!(docs => docs@[i as int]));
                }
                print_flat(&docs[i], out, pos);
                i += 1;
            }
            assert(*pos <= pos0 + text_total(doc@));
        },
        Doc::Indent(inner) | Doc::Align(_, inner) | Doc::Group(inner) | Doc::ConditionalGroup(
            inner,
        ) => {
            print_flat(inner, out, pos);
        },
        Doc::IfBreak { flat_contents, .. } => {
            print_flat(flat_contents, out, pos);
        },
        Doc::LineSuffix(inner) => {
            print_flat(inner, out, pos);
        },
        Doc::BestOf(variants) => {
            proof {
                lemma_docs_view(variants@);
            }
            if variants.len() > 0 {
                proof {
                    assert(decreases_to!(doc => variants));
                    assert(decreases_to!(variants => variants@[0]));
                    assert(docs_view(variants@)[0] == variants@[0]@);
                    assert(text_total(doc@) == texts_total(docs_view(variants@), 0));
                    assert(texts_total(docs_view(variants@), 0) >= text_total(variants@[0]@));
                }
                print_flat(&variants[0], out, pos);
            }
        },
    }
}

/// A command on the printer's work stack.
struct Cmd<'a> {
    indent: usize,
    mode: Mode,
    doc: &'a Doc,
}

/// The view of a command.
pub struct CmdView {
    pub indent: int,
    pub mode: Mode,
    pub doc: DocView,
}

spec fn cmd_view(c: Cmd) -> CmdView {
    CmdView { indent: c.indent as int, mode: c.mode, doc: c.doc@ }
}

spec fn cmds_view(s: Seq<Cmd>) -> Seq<CmdView> {
    s.map_values(|c: Cmd| cmd_view(c))
}

spec fn cmds_docs(s: Seq<Cmd>) -> Seq<DocView> {
    s.map_values(|c: Cmd| c.doc@)
}

spec fn state_of(out: Seq<char>, pos: usize, at_start: bool, sfx: Seq<Cmd>) -> PState {
    PState { out: out, pos: pos as int, at_start: at_start, suffixes: cmds_docs(sfx) }
}

/// The state after running a stack of commands, top (last) first.
pub open spec fn run_stack(s: Seq<CmdView>, st: PState, cfg: FormatConfig) -> PState
    decreases s.len(),
{
    if s.len() == 0 {
        st
    } else {
        let c = s.last();
        run_stack(s.drop_last(), print_cmd(c.doc, c.indent, c.mode, st, cfg), cfg)
    }
}

/// Total text width of the documents of a stack.
pub open spec fn stack_text(s: Seq<CmdView>) -> nat
    decreases s.len(),
{
    if s.len() == 0 {
        0
    } else {
        stack_text(s.drop_last()) + text_total(s.last().doc)
    }
}

/// Total number of nodes of the documents of a stack.
pub open spec fn stack_size(s: Seq<CmdView>) -> nat
    decreases s.len(),
{
    if s.len() == 0 {
        0
    } else {
        stack_size(s.drop_last()) + doc_size(s.last().doc)
    }
}

/// The commands for `ds[j..]` as pushed on the stack: `ds[j]` on top.
pub open spec fn pushed(ds: Seq<DocView>, j: int, indent: int, mode: Mode) -> Seq<CmdView>
    decreases ds.len() - j,
{
    if j < 0 || j >= ds.len() {
        Seq::empty()
    } else {
        pushed(ds, j + 1, indent, mode).push(CmdView { indent, mode, doc: ds[j] })
    }
}

/// Running the children of a concatenation pushed on a stack is printing
/// them in order.
proof fn lemma_run_pushed(
    rest: Seq<CmdView>,
    ds: Seq<DocView>,
    j: int,
    indent: int,
    mode: Mode,
    st: PState,
    cfg: FormatConfig,
)
    requires
        0 <= j <= ds.len(),
    ensures
        run_stack(rest + pushed(ds, j, indent, mode), st, cfg) == run_stack(
            rest,
            print_seq(ds, j, indent, mode, st, cfg),
            cfg,
        ),
        stack_text(rest + pushed(ds, j, indent, mode)) == stack_text(rest) + texts_total(ds, j),
        stack_size(rest + pushed(ds, j, indent, mode)) == stack_size(rest) + docs_size(ds, j),
    decreases ds.len() - j,
{
    if j == ds.len() {
        assert(rest + pushed(ds, j, indent, mode) =~= rest);
    } else {
        let c = CmdView { indent, mode, doc: ds[j] };
        let s = rest + pushed(ds, j, indent, mode);
        assert(s.drop_last() =~= rest + pushed(ds, j + 1, indent, mode));
        assert(s.last() == c);
        lemma_run_pushed(rest, ds, j + 1, indent, mode, print_cmd(ds[j], indent, mode, st, cfg), cfg);
        lemma_run_pushed(rest, ds, j + 1, indent, mode, st, cfg);
    }
}

/// One more command on a stack.
proof fn lemma_stack_push(s: Seq<CmdView>, c: CmdView)
    ensures
        s.push(c).drop_last() == s,
        s.push(c).last() == c,
        stack_text(s.push(c)) == stack_text(s) + text_total(c.doc),
        stack_size(s.push(c)) == stack_size(s) + doc_size(c.doc),
{
    assert(s.push(c).drop_last() =~= s);
}

/// An element of a sequence is bounded by the sequence's measures.
proof fn lemma_elem_measures(ds: Seq<DocView>, j: int, i: int, iw: nat)
    requires
        0 <= j <= i < ds.len(),
    ensures
        indent_depth(ds[i], iw) <= indents_depth(ds, j, iw),
        text_total(ds[i]) <= texts_total(ds, j),
        doc_size(ds[i]) <= docs_size(ds, j),
        docs_wf(ds, j) ==> doc_wf(ds[i]),
    decreases i - j,
{
    if j < i {
        lemma_elem_measures(ds, j + 1, i, iw);
    }
}

/// Flat printing moves the column by at most the text it prints.
proof fn lemma_flat_out_pos(d: DocView, out: Seq<char>, pos: int)
    requires
        pos >= 0,
    ensures
        0 <= flat_out(d, out, pos).1 <= pos + text_total(d),
    decreases d, 0int,
{
    match d {
        DocView::Verbatim(s) => {
            lemma_last_line_width(s);
        },
        DocView::Concat(ds) => {
            lemma_flat_out_seq_pos(ds, 0, out, pos);
        },
        DocView::Indent(b) => lemma_flat_out_pos(*b, out, pos),
        DocView::Align(_, b) => lemma_flat_out_pos(*b, out, pos),
        DocView::Group(b) => lemma_flat_out_pos(*b, out, pos),
        DocView::ConditionalGroup(b) => lemma_flat_out_pos(*b, out, pos),
        DocView::IfBreak(_, f) => lemma_flat_out_pos(*f, out, pos),
        DocView::LineSuffix(b) => lemma_flat_out_pos(*b, out, pos),
        DocView::BestOf(vs) => {
            if vs.len() > 0 {
                lemma_flat_out_pos(vs[0], out, pos);
                lemma_elem_measures(vs, 0, 0, 0);
            }
        },
        _ => {},
    }
}

proof fn lemma_flat_out_seq_pos(ds: Seq<DocView>, i: int, out: Seq<char>, pos: int)
    requires
        pos >= 0,
    ensures
        0 <= flat_out_seq(ds, i, out, pos).1 <= pos + texts_total(ds, i),
    decreases ds, ds.len() - i,
{
    if 0 <= i < ds.len() {
        lemma_flat_out_pos(ds[i], out, pos);
        let (o, p) = flat_out(ds[i], out, pos);
        lemma_flat_out_seq_pos(ds, i + 1, o, p);
    }
}

/// Print the pending line suffixes into the output and clear them.
fn flush_line_suffixes(
    suffixes: &mut Vec<Cmd>,
    out: &mut Vec<char>,
    pos: &mut usize,
    at_line_start: &mut bool,
)
    requires
        *old(pos) + texts_total(cmds_docs(old(suffixes)@), 0) <= usize::MAX,
    ensures
        state_of(final(out)@, *final(pos), *final(at_line_start), final(suffixes)@) == flush(
            state_of(old(out)@, *old(pos), *old(at_line_start), old(suffixes)@),
        ),
        *final(pos) <= *old(pos) + texts_total(cmds_docs(old(suffixes)@), 0),
{
    let ghost sfx = cmds_docs(suffixes@);
    let ghost start = (out@, *pos as int, *at_line_start);
    let ghost pos0 = *pos as int;
    let mut i: usize = 0;
    while i < suffixes.len()
        invariant
            sfx == cmds_docs(suffixes@),
            sfx.len() == suffixes@.len(),
            i <= suffixes.len(),
            flush_from(sfx, i as int, out@, *pos as int, *at_line_start) == flush_from(
                sfx,
                0,
                start.0,
                start.1,
                start.2,
            ),
            *pos + texts_total(sfx, i as int) <= pos0 + texts_total(sfx, 0),
            pos0 + texts_total(sfx, 0) <= usize::MAX,
        decreases suffixes.len() - i,
    {
        assert(sfx[i as int] == suffixes@[i as int].doc@);
        print_flat(suffixes[i].doc, out, pos);
        if *pos > 0 {
            *at_line_start = false;
        }
        i += 1;
    }
    suffixes.clear();
    proof {
        assert(cmds_docs(suffixes@) =~= Seq::<DocView>::empty());
    }
}

/// Start a new line: pending suffixes, trailing whitespace of a blank line,
/// then a newline and the indentation.
fn line_break_exec(
    suffixes: &mut Vec<Cmd>,
    out: &mut Vec<char>,
    pos: &mut usize,
    at_line_start: &mut bool,
    indent: usize,
)
    requires
        *old(pos) + texts_total(cmds_docs(old(suffixes)@), 0) <= usize::MAX,
    ensures
        state_of(final(out)@, *final(pos), *final(at_line_start), final(suffixes)@) == line_break(
            state_of(old(out)@, *old(pos), *old(at_line_start), old(suffixes)@),
            indent as int,
        ),
{
    flush_line_suffixes(suffixes, out, pos, at_line_start);
    if *at_line_start {
        trim_trailing_whitespace(out);
    }
    out.push('\n');
    push_spaces(out, indent);
    *pos = indent;
    *at_line_start = true;
}

// ── Fits check ──────────────────────────────────────────────────────────

/// The room the fits check has below `isize::MAX` once the width is taken.
pub open spec fn budget(cfg: FormatConfig) -> int {
    isize::MAX - cfg.max_width
}

/// Whether `doc` fits on the rest of the current line printed flat.
fn fits(doc: &Doc, indent: usize, current_pos: usize, config: &FormatConfig) -> (r: bool)
    requires
        config.max_width <= isize::MAX,
        indent + indent_depth(doc@, config.indent_width as nat) + text_total(doc@) <= budget(
            *config,
        ),
    ensures
        r == fits_spec(doc@, indent as int, current_pos as int, *config),
{
    let remaining = if config.max_width > current_pos {
        config.max_width - current_pos
    } else {
        0
    };
    fits_inner(doc, indent, remaining as isize, config)
}

/// Whether `doc` printed flat fits in `remaining` columns.
fn fits_inner(doc: &Doc, indent: usize, remaining: isize, config: &FormatConfig) -> (r: bool)
    requires
        config.max_width <= isize::MAX,
        indent + indent_depth(doc@, config.indent_width as nat) + text_total(doc@) <= budget(
            *config,
        ),
    ensures
        r == fits_inner_spec(doc@, indent as int, remaining as int, *config),
    decreases doc,
{
    if remaining < 0 {
        return false;
    }
    match doc {
        Doc::Empty => true,
        Doc::Text(s) => remaining >= str_width(s.as_str()) as isize,
        Doc::Verbatim(s) => {
            let (has_newline, last_line_len) = last_line_info(s.as_str());
            if has_newline {
                last_line_len <= remaining as usize
            } else {
                remaining >= str_width(s.as_str()) as isize
            }
        },
        Doc::Hardline => true,
        Doc::Softline { flat_alt } => remaining >= str_width(flat_alt.as_str()) as isize,
        Doc::Concat(docs) => {
            let ghost dv = docs_view(docs@);
            proof {
                lemma_docs_view(docs@);
            }
            let mut rem = remaining;
            let mut i: usize = 0;
            while i < docs.len()
                invariant
                    dv == docs_view(docs@),
                    dv.len() == docs@.len(),
                    forall|k: int| 0 <= k < dv.len() ==> #[trigger] dv[k] == docs@[k]@,
                    i <= docs.len(),
                    doc@ == DocView::Concat(dv),
                    *doc == Doc::Concat(*docs),
                    config.max_width <= isize::MAX,
                    indent + indents_depth(dv, i as int, config.indent_width as nat) + texts_total(
                        dv,
                        i as int,
                    ) <= budget(*config),
                    fits_accum_seq_spec(dv, i as int, indent as int, rem as int, *config)
                        == fits_accum_seq_spec(dv, 0, indent as int, remaining as int, *config),
                decreases docs.len() - i,
            {
                proof {
                    assert(decreases_to!(doc => docs));
                    assert(decreases_to!(docs => docs@[i as int]));
                }
                if !fits_accum(&docs[i], indent, &mut rem, config) {
                    return false;
                }
                i += 1;
            }
            true
        },
        Doc::Indent(inner) => fits_inner(inner, indent + config.indent_width, remaining, config),
        Doc::Align(n, inner) => fits_inner(inner, indent + *n, remaining, config),
        Doc::Group(inner) | Doc::ConditionalGroup(inner) => fits_inner(
            inner,
            indent,
            remaining,
            config,
        ),
        Doc::IfBreak { break_contents, flat_contents } => {
            fits_inner(flat_contents, indent, remaining, config)
        },
        Doc::BreakParent => false,
        Doc::LineSuffix(_) => true,
        Doc::LineSuffixBoundary => true,
        Doc::BestOf(variants) => {
            proof {
                lemma_docs_view(variants@);
            }
            if variants.len() == 0 {
                true
            } else {
                proof {
                    assert(decreases_to!(doc => variants));
                    assert(decreases_to!(variants => variants@[0]));
                    lemma_elem_measures(docs_view(variants@), 0, 0, config.indent_width as nat);
                }
                fits_inner(&variants[0], indent, remaining, config)
            }
        },
    }
}

/// Like `fits_inner`, but consumes `remaining` across a sequence of documents.
fn fits_accum(doc: &Doc, indent: usize, remaining: &mut isize, config: &FormatConfig) -> (r: bool)
    requires
        config.max_width <= isize::MAX,
        indent + indent_depth(doc@, config.indent_width as nat) + text_total(doc@) <= budget(
            *config,
        ),
    ensures
        (r, *final(remaining) as int) == fits_accum_spec(
            doc@,
            indent as int,
            *old(remaining) as int,
            *config,
        ),
    decreases doc,
{
    if *remaining < 0 {
        return false;
    }
    match doc {
        Doc::Empty => true,
        Doc::Text(s) => {
            *remaining = *remaining - str_width(s.as_str()) as isize;
            *remaining >= 0
        },
        Doc::Verbatim(s) => {
            let (has_newline, last_line_len) = last_line_info(s.as_str());
            proof {
                lemma_last_line_width(s@);
            }
            if has_newline {
                *remaining = config.max_width as isize - indent as isize - last_line_len as isize;
            } else {
                *remaining = *remaining - str_width(s.as_str()) as isize;
            }
            *remaining >= 0
        },
        Doc::Hardline => {
            *remaining = config.max_width as isize - indent as isize;
            true
        },
        Doc::Softline { flat_alt } => {
            *remaining = *remaining - str_width(flat_alt.as_str()) as isize;
            *remaining >= 0
        },
        Doc::Concat(docs) => {
            let ghost dv = docs_view(docs@);
            let ghost rem0 = *remaining as int;
            proof {
                lemma_docs_view(docs@);
            }
            let mut i: usize = 0;
            while i < docs.len()
                invariant
                    dv == docs_view(docs@),
                    dv.len() == docs@.len(),
                    forall|k: int| 0 <= k < dv.len() ==> #[trigger] dv[k] == docs@[k]@,
                    i <= docs.len(),
                    doc@ == DocView::Concat(dv),
                    *doc == Doc::Concat(*docs),
                    config.max_width <= isize::MAX,
                    indent + indents_depth(dv, i as int, config.indent_width as nat) + texts_total(
                        dv,
                        i as int,
                    ) <= budget(*config),
                    rem0 >= 0,
                    rem0 == *old(remaining) as int,
                    fits_accum_seq_spec(dv, i as int, indent as int, *remaining as int, *config)
                        == fits_accum_seq_spec(dv, 0, indent as int, rem0, *config),
                decreases docs.len() - i,
            {
                proof {
                    assert(decreases_to!(doc => docs));
                    assert(decreases_to!(docs => docs@[i as int]));
                }
                let ghost before = *remaining as int;
                if !fits_accum(&docs[i], indent, remaining, config) {
                    proof {
                        assert(fits_accum_seq_spec(dv, i as int, indent as int, before, *config) == (
                        false, *remaining as int));
                        assert(fits_accum_spec(doc@, indent as int, rem0, *config)
                            == fits_accum_seq_spec(dv, 0, indent as int, rem0, *config));
                    }
                    return false;
                }
                i += 1;
            }
            true
        },
        Doc::Indent(inner) => fits_accum(inner, indent + config.indent_width, remaining, config),
        Doc::Align(n, inner) => fits_accum(inner, indent + *n, remaining, config),
        Doc::Group(inner) | Doc::ConditionalGroup(inner) => fits_accum(
            inner,
            indent,
            remaining,
            config,
        ),
        Doc::IfBreak { break_contents, flat_contents } => {
            fits_accum(flat_contents, indent, remaining, config)
        },
        Doc::BreakParent => false,
        Doc::LineSuffix(_) | Doc::LineSuffixBoundary => true,
        Doc::BestOf(variants) => {
            proof {
                lemma_docs_view(variants@);
            }
            if variants.len() == 0 {
                true
            } else {
                proof {
                    assert(decreases_to!(doc => variants));
                    assert(decreases_to!(variants => variants@[0]));
                    lemma_elem_measures(docs_view(variants@), 0, 0, config.indent_width as nat);
                }
                fits_accum(&variants[0], indent, remaining, config)
            }
        },
    }
}

// ── BestOf variant selection ────────────────────────────────────────────

/// A text whose first line starts past `max` does not fit.
proof fn lemma_lines_fit_past(t: Seq<char>, col: int, max: int)
    requires
        col > max,
    ensures
        !lines_fit(t, col, max),
    decreases t.len(),
{
    if t.len() > 0 && t[0] != '\n' {
        lemma_lines_fit_past(t.drop_first(), col + char_width(t[0]), max);
    }
}

/// Whether every line of `text`, the first starting at column `start_pos`,
/// fits within `max_width`.
fn all_lines_fit(text: &Vec<char>, start_pos: usize, max_width: usize) -> (r: bool)
    requires
        max_width <= isize::MAX,
    ensures
        r == lines_fit(text@, start_pos as int, max_width as int),
{
    if start_pos > max_width {
        proof {
            lemma_lines_fit_past(text@, start_pos as int, max_width as int);
        }
        return false;
    }
    let mut width: usize = start_pos;
    let mut i: usize = 0;
    assert(text@.skip(0) =~= text@);
    while i < text.len()
        invariant
            i <= text.len(),
            width <= max_width <= isize::MAX,
            lines_fit(text@.skip(i as int), width as int, max_width as int) == lines_fit(
                text@,
                start_pos as int,
                max_width as int,
            ),
        decreases text.len() - i,
    {
        let c = text[i];
        proof {
            assert(text@.skip(i as int)[0] == c);
            assert(text@.skip(i as int).drop_first() =~= text@.skip(i + 1));
        }
        if c == '\n' {
            width = 0;
        } else {
            width = width + char_width_exec(c);
            if width > max_width {
                proof {
                    lemma_lines_fit_past(text@.skip(i + 1), width as int, max_width as int);
                }
                return false;
            }
        }
        i += 1;
    }
    true
}

/// The total text of `ds[i..]` with one more document appended.
proof fn lemma_texts_total_push(ds: Seq<DocView>, d: DocView, i: int)
    requires
        0 <= i <= ds.len(),
    ensures
        texts_total(ds.push(d), i) == texts_total(ds, i) + text_total(d),
    decreases ds.len() - i,
{
    if i < ds.len() {
        assert(ds.push(d)[i] == ds[i]);
        lemma_texts_total_push(ds, d, i + 1);
    } else {
        assert(ds.push(d)[i] == d);
        assert(texts_total(ds.push(d), i + 1) == 0);
        assert(texts_total(ds, i) == 0);
    }
}

proof fn lemma_cmds_push<'a>(s: Seq<Cmd<'a>>, c: Cmd<'a>)
    ensures
        cmds_view(s.push(c)) == cmds_view(s).push(cmd_view(c)),
        cmds_docs(s.push(c)) == cmds_docs(s).push(c.doc@),
        texts_total(cmds_docs(s.push(c)), 0) == texts_total(cmds_docs(s), 0) + text_total(c.doc@),
{
    assert(cmds_view(s.push(c)) =~= cmds_view(s).push(cmd_view(c)));
    assert(cmds_docs(s.push(c)) =~= cmds_docs(s).push(c.doc@));
    lemma_texts_total_push(cmds_docs(s), c.doc@, 0);
}

proof fn lemma_cmds_pop<'a>(s: Seq<Cmd<'a>>)
    requires
        s.len() > 0,
    ensures
        cmds_view(s) == cmds_view(s.drop_last()).push(cmd_view(s.last())),
{
    assert(s =~= s.drop_last().push(s.last()));
    lemma_cmds_push(s.drop_last(), s.last());
}

/// The text of `doc` printed in break mode at indentation `indent`, the
/// first line starting at column `start_pos`, pending suffixes included.
#[verifier::spinoff_prover]
#[verifier::rlimit(100)]
fn render_variant(doc: &Doc, indent: usize, start_pos: usize, config: &FormatConfig) -> (out: Vec<
    char,
>)
    requires
        config.max_width <= isize::MAX,
        doc_wf(doc@),
        indent + indent_depth(doc@, config.indent_width as nat) + text_total(doc@) <= budget(
            *config,
        ),
        start_pos + text_total(doc@) <= budget(*config),
    ensures
        out@ == render(doc@, indent as int, start_pos as int, *config),
    decreases doc_size(doc@), 1int,
{
    let ghost iw = config.indent_width as nat;
    let ghost dlim = indent + indent_depth(doc@, iw);
    let ghost root_size = doc_size(doc@);
    let ghost st0 = PState {
        out: Seq::empty(),
        pos: start_pos as int,
        at_start: start_pos == 0,
        suffixes: Seq::empty(),
    };
    let ghost target = print_cmd(doc@, indent as int, Mode::Break, st0, *config);
    let mut out: Vec<char> = Vec::new();
    let mut pos: usize = start_pos;
    let mut at_line_start: bool = start_pos == 0;
    let mut line_suffixes: Vec<Cmd> = Vec::new();
    let mut stack: Vec<Cmd> = Vec::new();
    stack.push(Cmd { indent, mode: Mode::Break, doc });
    proof {
        lemma_cmds_push(Seq::empty(), Cmd { indent, mode: Mode::Break, doc });
        lemma_stack_push(Seq::empty(), cmd_view(Cmd { indent, mode: Mode::Break, doc }));
        assert(Seq::<Cmd>::empty().push(Cmd { indent, mode: Mode::Break, doc }) =~= stack@);
        assert(cmds_docs(line_suffixes@) =~= Seq::<DocView>::empty());
        assert(state_of(out@, pos, at_line_start, line_suffixes@) == st0);
        assert(cmds_view(Seq::<Cmd>::empty()) =~= Seq::<CmdView>::empty());
        let cv = cmd_view(Cmd { indent, mode: Mode::Break, doc });
        assert(cmds_view(stack@) == Seq::<CmdView>::empty().push(cv));
        assert(run_stack(Seq::<CmdView>::empty(), target, *config) == target);
        assert(stack_text(Seq::<CmdView>::empty()) == 0);
    }
    while stack.len() > 0
        invariant
            config.max_width <= isize::MAX,
            iw == config.indent_width as nat,
            root_size == doc_size(doc@),
            run_stack(cmds_view(stack@), state_of(out@, pos, at_line_start, line_suffixes@), *config)
                == target,
            forall|k: int|
                0 <= k < stack@.len() ==> {
                    &&& #[trigger] stack@[k].indent + indent_depth(stack@[k].doc@, iw) <= dlim
                    &&& doc_wf(stack@[k].doc@)
                    &&& doc_size(stack@[k].doc@) <= root_size
                },
            pos + stack_text(cmds_view(stack@)) + texts_total(cmds_docs(line_suffixes@), 0)
                <= budget(*config),
            dlim + stack_text(cmds_view(stack@)) + texts_total(cmds_docs(line_suffixes@), 0)
                <= budget(*config),
        decreases stack_size(cmds_view(stack@)),
    {
        let ghost old_stack = stack@;
        let cmd = stack.pop().unwrap();
        let ghost rest = cmds_view(stack@);
        let ghost st = state_of(out@, pos, at_line_start, line_suffixes@);
        let ghost sfx_text = texts_total(cmds_docs(line_suffixes@), 0);
        proof {
            assert(stack@ == old_stack.drop_last());
            assert(cmd == old_stack.last());
            lemma_cmds_pop(old_stack);
            lemma_stack_push(rest, cmd_view(cmd));
            assert(old_stack[old_stack.len() - 1] == cmd);
            assert(forall|k: int| 0 <= k < stack@.len() ==> stack@[k] == #[trigger] old_stack[k]);
        }
        let ghost printed_cmd = print_cmd(cmd.doc@, cmd.indent as int, cmd.mode, st, *config);
        assert(run_stack(rest, printed_cmd, *config) == target);
        match cmd.doc {
            Doc::Empty | Doc::BreakParent => {},
            Doc::Text(s) => {
                push_chars(&mut out, s.as_str());
                pos = pos + str_width(s.as_str());
                at_line_start = false;
            },
            Doc::Verbatim(s) => {
                push_chars(&mut out, s.as_str());
                let (has_newline, last) = last_line_info(s.as_str());
                proof {
                    lemma_last_line_width(s@);
                }
                if has_newline {
                    pos = last;
                    at_line_start = pos == 0;
                } else {
                    pos = pos + str_width(s.as_str());
                    at_line_start = false;
                }
            },
            Doc::Hardline => {
                line_break_exec(
                    &mut line_suffixes,
                    &mut out,
                    &mut pos,
                    &mut at_line_start,
                    cmd.indent,
                );
            },
            Doc::Softline { flat_alt } => {
                match cmd.mode {
                    Mode::Flat => {
                        push_chars(&mut out, flat_alt.as_str());
                        pos = pos + str_width(flat_alt.as_str());
                        if !flat_alt.as_str().is_empty() {
                            at_line_start = false;
                        }
                    },
                    Mode::Break => {
                        line_break_exec(
                            &mut line_suffixes,
                            &mut out,
                            &mut pos,
                            &mut at_line_start,
                            cmd.indent,
                        );
                    },
                }
            },
            Doc::Concat(docs) => {
                let ghost dv = docs_view(docs@);
                proof {
                    lemma_docs_view(docs@);
                }
                let mut k: usize = docs.len();
                assert(rest + pushed(dv, k as int, cmd.indent as int, cmd.mode) =~= rest);
                while k > 0
                    invariant
                        dv == docs_view(docs@),
                        dv.len() == docs@.len(),
                        forall|j: int| 0 <= j < dv.len() ==> #[trigger] dv[j] == docs@[j]@,
                        k <= docs.len(),
                        cmd.doc@ == DocView::Concat(dv),
                        cmds_view(stack@) == rest + pushed(dv, k as int, cmd.indent as int, cmd.mode),
                        cmd.indent + indent_depth(cmd.doc@, iw) <= dlim,
                        doc_wf(cmd.doc@),
                        doc_size(cmd.doc@) <= root_size,
                        forall|j: int|
                            0 <= j < stack@.len() ==> {
                                &&& #[trigger] stack@[j].indent + indent_depth(stack@[j].doc@, iw)
                                    <= dlim
                                &&& doc_wf(stack@[j].doc@)
                                &&& doc_size(stack@[j].doc@) <= root_size
                            },
                    decreases k,
                {
                    k -= 1;
                    let c = Cmd { indent: cmd.indent, mode: cmd.mode, doc: &docs[k] };
                    proof {
                        lemma_elem_measures(dv, 0, k as int, iw);
                        lemma_cmds_push(stack@, c);
                        assert(pushed(dv, k as int, cmd.indent as int, cmd.mode) == pushed(
                            dv,
                            k + 1,
                            cmd.indent as int,
                            cmd.mode,
                        ).push(cmd_view(c)));
                    }
                    stack.push(c);
                }
                proof {
                    lemma_run_pushed(rest, dv, 0, cmd.indent as int, cmd.mode, st, *config);
                }
            },
            Doc::Indent(inner) => {
                let c = Cmd { indent: cmd.indent + config.indent_width, mode: cmd.mode, doc: inner };
                proof {
                    lemma_cmds_push(stack@, c);
                    lemma_stack_push(rest, cmd_view(c));
                }
                stack.push(c);
            },
            Doc::Align(n, inner) => {
                let c = Cmd { indent: cmd.indent + *n, mode: cmd.mode, doc: inner };
                proof {
                    lemma_cmds_push(stack@, c);
                    lemma_stack_push(rest, cmd_view(c));
                }
                stack.push(c);
            },
            Doc::Group(inner) | Doc::ConditionalGroup(inner) => {
                let mode = if cmd.mode == Mode::Flat || fits(inner, cmd.indent, pos, config) {
                    Mode::Flat
                } else {
                    Mode::Break
                };
                let c = Cmd { indent: cmd.indent, mode, doc: inner };
                proof {
                    lemma_cmds_push(stack@, c);
                    lemma_stack_push(rest, cmd_view(c));
                }
                stack.push(c);
            },
            Doc::IfBreak { break_contents, flat_contents } => {
                let chosen: &Doc = match cmd.mode {
                    Mode::Flat => flat_contents,
                    Mode::Break => break_contents,
                };
                let c = Cmd { indent: cmd.indent, mode: cmd.mode, doc: chosen };
                proof {
                    lemma_cmds_push(stack@, c);
                    lemma_stack_push(rest, cmd_view(c));
                }
                stack.push(c);
            },
            Doc::BestOf(variants) => {
                let ghost dv = docs_view(variants@);
                proof {
                    lemma_docs_view(variants@);
                }
                let idx = pick_best_variant(variants, cmd.indent, pos, config);
                let c = Cmd { indent: cmd.indent, mode: cmd.mode, doc: &variants[idx] };
                proof {
                    lemma_elem_measures(dv, 0, idx as int, iw);
                    lemma_cmds_push(stack@, c);
                    lemma_stack_push(rest, cmd_view(c));
                }
                stack.push(c);
            },
            Doc::LineSuffix(inner) => {
                let c = Cmd { indent: cmd.indent, mode: cmd.mode, doc: inner };
                proof {
                    lemma_cmds_push(line_suffixes@, c);
                }
                line_suffixes.push(c);
            },
            Doc::LineSuffixBoundary => {
                if !line_suffixes.is_empty() {
                    flush_line_suffixes(
                        &mut line_suffixes,
                        &mut out,
                        &mut pos,
                        &mut at_line_start,
                    );
                    out.push('\n');
                    push_spaces(&mut out, cmd.indent);
                    pos = cmd.indent;
                    at_line_start = true;
                }
            },
        }
    }
    flush_line_suffixes(&mut line_suffixes, &mut out, &mut pos, &mut at_line_start);
    out
}

/// Pick the variant of a `BestOf` to print: the first whose rendering fits
/// within `max_width` on every line, the last if none does. Returns its index.
fn pick_best_variant(variants: &Vec<Doc>, indent: usize, pos: usize, config: &FormatConfig) -> (r:
    usize)
    requires
        variants.len() > 0,
        config.max_width <= isize::MAX,
        docs_wf(docs_view(variants@), 0),
        indent + indents_depth(docs_view(variants@), 0, config.indent_width as nat) + texts_total(
            docs_view(variants@),
            0,
        ) <= budget(*config),
        pos + texts_total(docs_view(variants@), 0) <= budget(*config),
    ensures
        r < variants.len(),
        r == pick(docs_view(variants@), 0, indent as int, pos as int, *config),
    decreases doc_size(DocView::BestOf(docs_view(variants@))), 0int,
{
    let ghost dv = docs_view(variants@);
    proof {
        lemma_docs_view(variants@);
    }
    let last_idx = variants.len() - 1;
    let mut i: usize = 0;
    while i < variants.len()
        invariant
            dv == docs_view(variants@),
            dv.len() == variants@.len(),
            forall|j: int| 0 <= j < dv.len() ==> #[trigger] dv[j] == variants@[j]@,
            last_idx == variants.len() - 1,
            i <= last_idx,
            pick(dv, i as int, indent as int, pos as int, *config) == pick(
                dv,
                0,
                indent as int,
                pos as int,
                *config,
            ),
            config.max_width <= isize::MAX,
            docs_wf(dv, 0),
            indent + indents_depth(dv, 0, config.indent_width as nat) + texts_total(dv, 0) <= budget(
                *config,
            ),
            pos + texts_total(dv, 0) <= budget(*config),
        decreases variants.len() - i,
    {
        if i == last_idx {
            return i;
        }
        proof {
            lemma_elem_measures(dv, 0, i as int, config.indent_width as nat);
        }
        let rendered = render_variant(&variants[i], indent, pos, config);
        if all_lines_fit(&rendered, pos, config.max_width) {
            return i;
        }
        i += 1;
    }
    last_idx
}

/// Render a document tree to a string respecting `config.max_width`.
#[verifier::spinoff_prover]
pub fn print_doc(doc: &Doc, config: &FormatConfig) -> (r: String)
    requires
        printable(doc@, *config),
    ensures
        r@ == printed(doc@, *config),
{
    let out = render_variant(doc, 0, 0, config);
    chars_to_string(out)
}

} // verus!
