//! What holds for every input: the column limit decides between one line
//! and two, a choice of layouts prints the first that fits, a
//! concatenation prints as its parts one after another, fitting only gets
//! easier at an earlier column or on a wider line, the two fits checks
//! agree, and a statement list keeps its statements in order.
use vstd::prelude::*;

use crate::ir::{mk_concat, DocView};
use crate::printer::{
    fits_accum_spec, fits_accum_seq_spec, fits_inner_spec, fits_spec, flush, flush_from, line_break, lines_fit,
    newline, pick, print_cmd, print_seq, printed, render, Mode, PState,
};
use crate::width::{char_width, lemma_text_width_append, spaces, text_width};
use crate::FormatConfig;
use crate::ast::Node;
use crate::comments::{take_between, CommentView};
use crate::layout::{
    fmt_node, gap_comment_parts, line_end, line_gap, stmts_from, suffix_comment, suffix_parts, tx,
};
use crate::text::{newline_count, trim_end_ws};

verus! {

/// Two texts with a soft line between them, as one group.
pub open spec fn text_pair(a: Seq<char>, b: Seq<char>) -> DocView {
    DocView::Group(
        Box::new(DocView::Concat(seq![DocView::Text(a), DocView::Softline(seq![' ']), DocView::Text(b)])),
    )
}

/// A soft line is one column wide when flat.
proof fn lemma_space_width()
    ensures
        text_width(seq![' ']) == 1,
{
    reveal_with_fuel(text_width, 2);
    assert(seq![' '].drop_last() =~= Seq::<char>::empty());
    assert(seq![' '].last() == ' ');
    assert(char_width(' ') == 1);
}

/// The column limit is exact: two texts joined by a soft line in a group
/// stay on one line, separated by a space, when both and the space fit in
/// `max_width` columns, and go on two lines when one column more would be
/// needed.
pub proof fn law_group_fits_exactly(a: Seq<char>, b: Seq<char>, cfg: FormatConfig)
    requires
        a.len() > 0,
        b.len() > 0,
    ensures
        text_width(a) + 1 + text_width(b) <= cfg.max_width ==> printed(text_pair(a, b), cfg) == a
            + seq![' '] + b,
        text_width(a) + 1 + text_width(b) > cfg.max_width ==> printed(text_pair(a, b), cfg) == a
            + seq!['\n'] + b,
{
    lemma_space_width();
    let sp = seq![' '];
    let ds = seq![DocView::Text(a), DocView::Softline(sp), DocView::Text(b)];
    let inner = DocView::Concat(ds);
    let mw = cfg.max_width as int;
    let fits = text_width(a) + 1 + text_width(b) <= cfg.max_width;
    let rem: int = if mw > 0 {
        mw
    } else {
        0
    };
    assert(fits_spec(inner, 0, 0, cfg) == fits) by {
        reveal_with_fuel(fits_accum_seq_spec, 4);
        assert(fits_inner_spec(inner, 0, rem, cfg) == fits_accum_seq_spec(ds, 0, 0, rem, cfg).0);
    }
    let st0 = PState { out: Seq::empty(), pos: 0, at_start: true, suffixes: Seq::empty() };
    let mode = if fits {
        Mode::Flat
    } else {
        Mode::Break
    };
    assert(print_cmd(text_pair(a, b), 0, Mode::Break, st0, cfg) == print_seq(ds, 0, 0, mode, st0, cfg))
        by {
        reveal_with_fuel(print_cmd, 2);
    }
    let st1 = print_cmd(DocView::Text(a), 0, mode, st0, cfg);
    assert(st1.out == a && st1.suffixes.len() == 0 && !st1.at_start) by {
        assert(Seq::<char>::empty() + a =~= a);
    }
    let st2 = print_cmd(DocView::Softline(sp), 0, mode, st1, cfg);
    let st3 = print_cmd(DocView::Text(b), 0, mode, st2, cfg);
    assert(print_seq(ds, 0, 0, mode, st0, cfg) == st3) by {
        reveal_with_fuel(print_seq, 4);
    }
    if fits {
        assert(st2.out == a + sp);
    } else {
        let s1 = flush(st1);
        assert(s1.out == st1.out && s1.suffixes.len() == 0 && s1.at_start == st1.at_start) by {
            assert(flush_from(st1.suffixes, 0, st1.out, st1.pos, st1.at_start) == (
                st1.out,
                st1.pos,
                st1.at_start,
            ));
        }
        assert(st2 == line_break(st1, 0));
        assert(spaces(0) =~= Seq::<char>::empty());
        assert(st2.out =~= a.push('\n'));
    }
    assert(st3.suffixes.len() == 0);
    let fl = flush(st3);
    assert(fl.out == st3.out) by {
        assert(flush_from(st3.suffixes, 0, st3.out, st3.pos, st3.at_start) == (
            st3.out,
            st3.pos,
            st3.at_start,
        ));
    }
    if fits {
        assert(st3.out =~= a + seq![' '] + b);
    } else {
        assert(st3.out =~= a + seq!['\n'] + b);
    }
}

/// `pick` gives the first variant from `i` on whose rendering fits, or the
/// last one when none before it does.
proof fn lemma_pick(vs: Seq<DocView>, i: int, indent: int, pos: int, cfg: FormatConfig)
    requires
        0 <= i < vs.len(),
    ensures
        ({
            let c = pick(vs, i, indent, pos, cfg);
            &&& i <= c < vs.len()
            &&& (c < vs.len() - 1 ==> lines_fit(render(vs[c], indent, pos, cfg), pos, cfg.max_width as int))
            &&& forall|j: int|
                i <= j < c ==> !lines_fit(#[trigger] render(vs[j], indent, pos, cfg), pos, cfg.max_width as int)
        }),
    decreases vs.len() - i,
{
    if i < vs.len() - 1 && !lines_fit(render(vs[i], indent, pos, cfg), pos, cfg.max_width as int) {
        lemma_pick(vs, i + 1, indent, pos, cfg);
    }
}

/// A choice of layouts prints the first variant whose every line fits in
/// `max_width`, and the last variant when none before it fits.
pub proof fn law_best_of_first_fit(vs: Seq<DocView>, cfg: FormatConfig)
    requires
        vs.len() > 0,
    ensures
        forall|k: int|
            0 <= k < vs.len() ==> ((k == vs.len() - 1 || lines_fit(
                #[trigger] render(vs[k], 0, 0, cfg),
                0,
                cfg.max_width as int,
            )) && (forall|j: int|
                0 <= j < k ==> !lines_fit(render(vs[j], 0, 0, cfg), 0, cfg.max_width as int))
                ==> printed(DocView::BestOf(vs), cfg) == render(vs[k], 0, 0, cfg)),
{
    lemma_pick(vs, 0, 0, 0, cfg);
    let c = pick(vs, 0, 0, 0, cfg);
    assert forall|k: int|
        0 <= k < vs.len() && (k == vs.len() - 1 || lines_fit(
            #[trigger] render(vs[k], 0, 0, cfg),
            0,
            cfg.max_width as int,
        )) && (forall|j: int|
            0 <= j < k ==> !lines_fit(render(vs[j], 0, 0, cfg), 0, cfg.max_width as int)) implies printed(
        DocView::BestOf(vs),
        cfg,
    ) == render(vs[k], 0, 0, cfg) by {
        if c < k {
            assert(!lines_fit(render(vs[c], 0, 0, cfg), 0, cfg.max_width as int));
        }
        if k < c {
            assert(!lines_fit(render(vs[k], 0, 0, cfg), 0, cfg.max_width as int));
        }
        assert(c == k);
    }
}

/// Printing one more document after a sequence.
proof fn lemma_print_seq_push(
    s: Seq<DocView>,
    x: DocView,
    i: int,
    indent: int,
    mode: Mode,
    st: PState,
    cfg: FormatConfig,
)
    requires
        0 <= i <= s.len(),
    ensures
        print_seq(s.push(x), i, indent, mode, st, cfg) == print_cmd(
            x,
            indent,
            mode,
            print_seq(s, i, indent, mode, st, cfg),
            cfg,
        ),
    decreases s.len() - i,
{
    if i < s.len() {
        assert(s.push(x)[i] == s[i]);
        lemma_print_seq_push(s, x, i + 1, indent, mode, print_cmd(s[i], indent, mode, st, cfg), cfg);
    } else {
        assert(s.push(x)[i] == x);
        assert(print_seq(s.push(x), i + 1, indent, mode, print_cmd(x, indent, mode, st, cfg), cfg)
            == print_cmd(x, indent, mode, st, cfg));
    }
}

/// Printing two sequences one after the other.
proof fn lemma_print_seq_append(
    a: Seq<DocView>,
    b: Seq<DocView>,
    indent: int,
    mode: Mode,
    st: PState,
    cfg: FormatConfig,
)
    ensures
        print_seq(a + b, 0, indent, mode, st, cfg) == print_seq(
            b,
            0,
            indent,
            mode,
            print_seq(a, 0, indent, mode, st, cfg),
            cfg,
        ),
    decreases b.len(),
{
    if b.len() == 0 {
        assert(a + b =~= a);
    } else {
        let bl = b.drop_last();
        let x = b.last();
        lemma_print_seq_append(a, bl, indent, mode, st, cfg);
        assert(a + b =~= (a + bl).push(x));
        assert(b =~= bl.push(x));
        lemma_print_seq_push(a + bl, x, 0, indent, mode, st, cfg);
        lemma_print_seq_push(bl, x, 0, indent, mode, print_seq(a, 0, indent, mode, st, cfg), cfg);
    }
}

/// Dropping empty documents does not change what a sequence prints.
proof fn lemma_print_non_empty(s: Seq<DocView>, indent: int, mode: Mode, st: PState, cfg: FormatConfig)
    ensures
        print_seq(crate::ir::non_empty(s), 0, indent, mode, st, cfg) == print_seq(
            s,
            0,
            indent,
            mode,
            st,
            cfg,
        ),
    decreases s.len(),
{
    if s.len() > 0 {
        let prev = s.drop_last();
        let x = s.last();
        assert(s =~= prev.push(x));
        lemma_print_non_empty(prev, indent, mode, st, cfg);
        lemma_print_seq_push(prev, x, 0, indent, mode, st, cfg);
        if !(x is Empty) {
            lemma_print_seq_push(crate::ir::non_empty(prev), x, 0, indent, mode, st, cfg);
        }
    }
}

/// The parts of a concatenation print as the documents they came from.
proof fn lemma_print_concat_parts(
    ds: Seq<DocView>,
    indent: int,
    mode: Mode,
    st: PState,
    cfg: FormatConfig,
)
    ensures
        print_seq(crate::ir::concat_parts(ds), 0, indent, mode, st, cfg) == print_seq(
            ds,
            0,
            indent,
            mode,
            st,
            cfg,
        ),
    decreases ds.len(),
{
    if ds.len() > 0 {
        let prev = ds.drop_last();
        let x = ds.last();
        assert(ds =~= prev.push(x));
        lemma_print_concat_parts(prev, indent, mode, st, cfg);
        lemma_print_seq_push(prev, x, 0, indent, mode, st, cfg);
        let pp = crate::ir::concat_parts(prev);
        match x {
            DocView::Empty => {},
            DocView::Concat(inner) => {
                lemma_print_seq_append(pp, crate::ir::non_empty(inner), indent, mode, st, cfg);
                lemma_print_non_empty(inner, indent, mode, print_seq(pp, 0, indent, mode, st, cfg), cfg);
            },
            _ => {
                lemma_print_seq_push(pp, x, 0, indent, mode, st, cfg);
            },
        }
    }
}

/// A concatenation prints exactly as its documents printed one after
/// another: dropping the empty ones and flattening nested concatenations,
/// as `Doc::concat` does, changes nothing in the output.
pub proof fn law_concat_prints_parts(
    ds: Seq<DocView>,
    indent: int,
    mode: Mode,
    st: PState,
    cfg: FormatConfig,
)
    ensures
        print_cmd(mk_concat(ds), indent, mode, st, cfg) == print_seq(ds, 0, indent, mode, st, cfg),
{
    lemma_print_concat_parts(ds, indent, mode, st, cfg);
    let parts = crate::ir::concat_parts(ds);
    if parts.len() == 1 {
        assert(print_seq(parts, 1, indent, mode, print_cmd(parts[0], indent, mode, st, cfg), cfg)
            == print_cmd(parts[0], indent, mode, st, cfg));
    }
}

/// A document that prints on one line whatever the mode: text, soft lines,
/// verbatim text without a newline, and groups, indentation and
/// concatenations of those (an `IfBreak` by its flat side).
pub open spec fn plain(d: DocView) -> bool
    decreases d, 0int,
{
    match d {
        DocView::Text(_) | DocView::Softline(_) | DocView::Empty => true,
        DocView::Verbatim(s) => !s.contains('\n'),
        DocView::Concat(ds) => plain_from(ds, 0),
        DocView::Indent(b) => plain(*b),
        DocView::Align(_, b) => plain(*b),
        DocView::Group(b) => plain(*b),
        DocView::ConditionalGroup(b) => plain(*b),
        DocView::IfBreak(_, f) => plain(*f),
        _ => false,
    }
}

/// `ds[i..]` are plain.
pub open spec fn plain_from(ds: Seq<DocView>, i: int) -> bool
    decreases ds, ds.len() - i,
{
    if i < 0 || i >= ds.len() {
        true
    } else {
        plain(ds[i]) && plain_from(ds, i + 1)
    }
}

/// The text of a document printed on one line.
pub open spec fn flat_text(d: DocView) -> Seq<char>
    decreases d, 0int,
{
    match d {
        DocView::Text(s) => s,
        DocView::Softline(a) => a,
        DocView::Verbatim(s) => s,
        DocView::Concat(ds) => flat_text_from(ds, 0),
        DocView::Indent(b) => flat_text(*b),
        DocView::Align(_, b) => flat_text(*b),
        DocView::Group(b) => flat_text(*b),
        DocView::ConditionalGroup(b) => flat_text(*b),
        DocView::IfBreak(_, f) => flat_text(*f),
        _ => Seq::empty(),
    }
}

/// The texts of `ds[i..]` on one line, one after another.
pub open spec fn flat_text_from(ds: Seq<DocView>, i: int) -> Seq<char>
    decreases ds, ds.len() - i,
{
    if i < 0 || i >= ds.len() {
        Seq::empty()
    } else {
        flat_text(ds[i]) + flat_text_from(ds, i + 1)
    }
}

/// The fits check of a plain document measures exactly its width.
pub(crate) proof fn lemma_fits_plain(d: DocView, indent: int, rem: int, cfg: FormatConfig)
    requires
        plain(d),
        rem >= 0,
    ensures
        fits_accum_spec(d, indent, rem, cfg).0 == (rem - text_width(flat_text(d)) >= 0),
        fits_accum_spec(d, indent, rem, cfg).0 ==> fits_accum_spec(d, indent, rem, cfg).1 == rem
            - text_width(flat_text(d)),
        fits_inner_spec(d, indent, rem, cfg) == (text_width(flat_text(d)) <= rem),
    decreases d, 1int,
{
    match d {
        DocView::Concat(ds) => {
            lemma_fits_plain_from(ds, 0, indent, rem, cfg);
        },
        DocView::Indent(b) => {
            lemma_fits_plain(*b, indent + cfg.indent_width, rem, cfg);
        },
        DocView::Align(n, b) => {
            lemma_fits_plain(*b, indent + n, rem, cfg);
        },
        DocView::Group(b) => {
            lemma_fits_plain(*b, indent, rem, cfg);
        },
        DocView::ConditionalGroup(b) => {
            lemma_fits_plain(*b, indent, rem, cfg);
        },
        DocView::IfBreak(_, f) => {
            lemma_fits_plain(*f, indent, rem, cfg);
        },
        _ => {},
    }
}

/// The fits check of plain documents one after another.
proof fn lemma_fits_plain_from(ds: Seq<DocView>, i: int, indent: int, rem: int, cfg: FormatConfig)
    requires
        plain_from(ds, i),
        0 <= i,
        rem >= 0,
    ensures
        fits_accum_seq_spec(ds, i, indent, rem, cfg).0 == (rem - text_width(flat_text_from(ds, i))
            >= 0),
        fits_accum_seq_spec(ds, i, indent, rem, cfg).0 ==> fits_accum_seq_spec(
            ds,
            i,
            indent,
            rem,
            cfg,
        ).1 == rem - text_width(flat_text_from(ds, i)),
    decreases ds, ds.len() - i,
{
    if i < ds.len() {
        lemma_fits_plain(ds[i], indent, rem, cfg);
        lemma_text_width_append(flat_text(ds[i]), flat_text_from(ds, i + 1));
        let r = fits_accum_spec(ds[i], indent, rem, cfg).1;
        if fits_accum_spec(ds[i], indent, rem, cfg).0 {
            lemma_fits_plain_from(ds, i + 1, indent, r, cfg);
        }
    }
}

/// A plain document printed flat adds its text and its width.
pub(crate) proof fn lemma_print_plain(d: DocView, indent: int, st: PState, cfg: FormatConfig)
    requires
        plain(d),
    ensures
        print_cmd(d, indent, Mode::Flat, st, cfg).out == st.out + flat_text(d),
        print_cmd(d, indent, Mode::Flat, st, cfg).pos == st.pos + text_width(flat_text(d)),
        print_cmd(d, indent, Mode::Flat, st, cfg).suffixes == st.suffixes,
    decreases d, 1int,
{
    match d {
        DocView::Concat(ds) => {
            lemma_print_plain_from(ds, 0, indent, st, cfg);
        },
        DocView::Indent(b) => {
            lemma_print_plain(*b, indent + cfg.indent_width, st, cfg);
        },
        DocView::Align(n, b) => {
            lemma_print_plain(*b, indent + n, st, cfg);
        },
        DocView::Group(b) => {
            lemma_print_plain(*b, indent, st, cfg);
        },
        DocView::ConditionalGroup(b) => {
            lemma_print_plain(*b, indent, st, cfg);
        },
        DocView::IfBreak(_, f) => {
            lemma_print_plain(*f, indent, st, cfg);
        },
        DocView::Empty => {
            assert(st.out + Seq::<char>::empty() =~= st.out);
        },
        _ => {},
    }
}

/// Plain documents printed flat one after another.
proof fn lemma_print_plain_from(ds: Seq<DocView>, i: int, indent: int, st: PState, cfg: FormatConfig)
    requires
        plain_from(ds, i),
        0 <= i,
    ensures
        print_seq(ds, i, indent, Mode::Flat, st, cfg).out == st.out + flat_text_from(ds, i),
        print_seq(ds, i, indent, Mode::Flat, st, cfg).pos == st.pos + text_width(
            flat_text_from(ds, i),
        ),
        print_seq(ds, i, indent, Mode::Flat, st, cfg).suffixes == st.suffixes,
    decreases ds, ds.len() - i,
{
    if i < ds.len() {
        let st1 = print_cmd(ds[i], indent, Mode::Flat, st, cfg);
        lemma_print_plain(ds[i], indent, st, cfg);
        lemma_print_plain_from(ds, i + 1, indent, st1, cfg);
        lemma_text_width_append(flat_text(ds[i]), flat_text_from(ds, i + 1));
        assert(st.out + flat_text(ds[i]) + flat_text_from(ds, i + 1) =~= st.out + (flat_text(ds[i])
            + flat_text_from(ds, i + 1)));
    } else {
        assert(st.out + Seq::<char>::empty() =~= st.out);
    }
}

/// Column counting is exact: from column `pos`, a plain document fits on
/// the line exactly when `pos` plus its width is at most `max_width` — a
/// line of exactly `max_width` columns fits, one more column does not.
pub proof fn law_fits_exactly(d: DocView, indent: int, pos: int, cfg: FormatConfig)
    requires
        plain(d),
        0 <= pos <= cfg.max_width,
    ensures
        fits_spec(d, indent, pos, cfg) == (pos + text_width(flat_text(d)) <= cfg.max_width),
{
    let rem: int = if cfg.max_width > pos {
        cfg.max_width - pos
    } else {
        0
    };
    lemma_fits_plain(d, indent, rem, cfg);
}

/// A group prints on one line exactly when its text fits in `max_width`:
/// then the output is the text of its contents on one line; otherwise its
/// contents print broken.
pub proof fn law_group_flat_when_it_fits(d: DocView, cfg: FormatConfig)
    requires
        plain(d),
    ensures
        text_width(flat_text(d)) <= cfg.max_width ==> printed(DocView::Group(Box::new(d)), cfg)
            == flat_text(d),
        text_width(flat_text(d)) > cfg.max_width ==> printed(DocView::Group(Box::new(d)), cfg)
            == render(d, 0, 0, cfg),
{
    law_fits_exactly(d, 0, 0, cfg);
    let st0 = PState { out: Seq::empty(), pos: 0, at_start: true, suffixes: Seq::empty() };
    if text_width(flat_text(d)) <= cfg.max_width {
        lemma_print_plain(d, 0, st0, cfg);
        let st = print_cmd(d, 0, Mode::Flat, st0, cfg);
        assert(flush_from(st.suffixes, 0, st.out, st.pos, st.at_start) == (st.out, st.pos, st.at_start));
        assert(Seq::<char>::empty() + flat_text(d) =~= flat_text(d));
    }
}

/// `cfg2` is `cfg` with a line at least as wide.
pub open spec fn at_least_as_wide(cfg: FormatConfig, cfg2: FormatConfig) -> bool {
    cfg.max_width <= cfg2.max_width && cfg.indent_width == cfg2.indent_width
}

/// More room, and a line at least as wide, never turn a fitting document
/// into one that does not fit, and leave at least as much room after it.
proof fn lemma_accum_monotone(
    d: DocView,
    indent: int,
    rem: int,
    rem2: int,
    cfg: FormatConfig,
    cfg2: FormatConfig,
)
    requires
        rem <= rem2,
        at_least_as_wide(cfg, cfg2),
    ensures
        fits_accum_spec(d, indent, rem, cfg).0 ==> fits_accum_spec(d, indent, rem2, cfg2).0
            && fits_accum_spec(d, indent, rem, cfg).1 <= fits_accum_spec(d, indent, rem2, cfg2).1,
    decreases d, 0int,
{
    if rem >= 0 {
        match d {
            DocView::Concat(ds) => lemma_accum_seq_monotone(ds, 0, indent, rem, rem2, cfg, cfg2),
            DocView::Indent(b) => lemma_accum_monotone(
                *b,
                indent + cfg.indent_width,
                rem,
                rem2,
                cfg,
                cfg2,
            ),
            DocView::Align(n, b) => lemma_accum_monotone(*b, indent + n, rem, rem2, cfg, cfg2),
            DocView::Group(b) => lemma_accum_monotone(*b, indent, rem, rem2, cfg, cfg2),
            DocView::ConditionalGroup(b) => lemma_accum_monotone(*b, indent, rem, rem2, cfg, cfg2),
            DocView::IfBreak(_, f) => lemma_accum_monotone(*f, indent, rem, rem2, cfg, cfg2),
            DocView::BestOf(vs) => if vs.len() > 0 {
                lemma_accum_monotone(vs[0], indent, rem, rem2, cfg, cfg2);
            },
            _ => {},
        }
    }
}

/// `lemma_accum_monotone` over `ds[i..]`.
proof fn lemma_accum_seq_monotone(
    ds: Seq<DocView>,
    i: int,
    indent: int,
    rem: int,
    rem2: int,
    cfg: FormatConfig,
    cfg2: FormatConfig,
)
    requires
        rem <= rem2,
        at_least_as_wide(cfg, cfg2),
    ensures
        fits_accum_seq_spec(ds, i, indent, rem, cfg).0 ==> fits_accum_seq_spec(ds, i, indent, rem2, cfg2).0
            && fits_accum_seq_spec(ds, i, indent, rem, cfg).1 <= fits_accum_seq_spec(
            ds,
            i,
            indent,
            rem2,
            cfg2,
        ).1,
    decreases ds, ds.len() - i,
{
    if 0 <= i < ds.len() {
        lemma_accum_monotone(ds[i], indent, rem, rem2, cfg, cfg2);
        let (ok, r) = fits_accum_spec(ds[i], indent, rem, cfg);
        let (ok2, r2) = fits_accum_spec(ds[i], indent, rem2, cfg2);
        if ok {
            lemma_accum_seq_monotone(ds, i + 1, indent, r, r2, cfg, cfg2);
        }
    }
}

/// `fits_inner_spec` keeps holding with more room and a wider line.
proof fn lemma_inner_monotone(
    d: DocView,
    indent: int,
    rem: int,
    rem2: int,
    cfg: FormatConfig,
    cfg2: FormatConfig,
)
    requires
        rem <= rem2,
        at_least_as_wide(cfg, cfg2),
    ensures
        fits_inner_spec(d, indent, rem, cfg) ==> fits_inner_spec(d, indent, rem2, cfg2),
    decreases d,
{
    if rem >= 0 {
        match d {
            DocView::Concat(ds) => lemma_accum_seq_monotone(ds, 0, indent, rem, rem2, cfg, cfg2),
            DocView::Indent(b) => lemma_inner_monotone(
                *b,
                indent + cfg.indent_width,
                rem,
                rem2,
                cfg,
                cfg2,
            ),
            DocView::Align(n, b) => lemma_inner_monotone(*b, indent + n, rem, rem2, cfg, cfg2),
            DocView::Group(b) => lemma_inner_monotone(*b, indent, rem, rem2, cfg, cfg2),
            DocView::ConditionalGroup(b) => lemma_inner_monotone(*b, indent, rem, rem2, cfg, cfg2),
            DocView::IfBreak(_, f) => lemma_inner_monotone(*f, indent, rem, rem2, cfg, cfg2),
            DocView::BestOf(vs) => if vs.len() > 0 {
                lemma_inner_monotone(vs[0], indent, rem, rem2, cfg, cfg2);
            },
            _ => {},
        }
    }
}

/// Starting at an earlier column never turns a document that fits on the
/// rest of the line into one that does not.
pub proof fn law_fits_at_earlier_column(d: DocView, indent: int, pos: int, pos2: int, cfg: FormatConfig)
    requires
        pos2 <= pos,
    ensures
        fits_spec(d, indent, pos, cfg) ==> fits_spec(d, indent, pos2, cfg),
{
    let rem: int = if cfg.max_width > pos {
        cfg.max_width - pos
    } else {
        0
    };
    let rem2: int = if cfg.max_width > pos2 {
        cfg.max_width - pos2
    } else {
        0
    };
    lemma_inner_monotone(d, indent, rem, rem2, cfg, cfg);
}

/// Raising the maximum width, all else equal, never turns a document that
/// fits into one that does not.
pub proof fn law_fits_with_wider_line(d: DocView, indent: int, pos: int, cfg: FormatConfig, cfg2: FormatConfig)
    requires
        at_least_as_wide(cfg, cfg2),
    ensures
        fits_spec(d, indent, pos, cfg) ==> fits_spec(d, indent, pos, cfg2),
{
    let rem: int = if cfg.max_width > pos {
        cfg.max_width - pos
    } else {
        0
    };
    let rem2: int = if cfg2.max_width > pos {
        cfg2.max_width - pos
    } else {
        0
    };
    lemma_inner_monotone(d, indent, rem, rem2, cfg, cfg2);
}

/// No verbatim text holding a newline is printed when `d` is flat.
pub open spec fn flat_single_line(d: DocView) -> bool
    decreases d, 0int,
{
    match d {
        DocView::Verbatim(s) => !s.contains('\n'),
        DocView::Concat(ds) => flat_single_line_from(ds, 0),
        DocView::Indent(b) => flat_single_line(*b),
        DocView::Align(_, b) => flat_single_line(*b),
        DocView::Group(b) => flat_single_line(*b),
        DocView::ConditionalGroup(b) => flat_single_line(*b),
        DocView::IfBreak(_, f) => flat_single_line(*f),
        DocView::BestOf(vs) => vs.len() == 0 || flat_single_line(vs[0]),
        _ => true,
    }
}

/// `flat_single_line` of each of `ds[i..]`.
pub open spec fn flat_single_line_from(ds: Seq<DocView>, i: int) -> bool
    decreases ds, ds.len() - i,
{
    if i < 0 || i >= ds.len() {
        true
    } else {
        flat_single_line(ds[i]) && flat_single_line_from(ds, i + 1)
    }
}

/// The one-shot fits check agrees with the accumulating one on every
/// document that prints no verbatim newline when flat, whatever the room.
pub proof fn law_fits_inner_agrees_with_accum(d: DocView, indent: int, rem: int, cfg: FormatConfig)
    requires
        flat_single_line(d),
    ensures
        fits_inner_spec(d, indent, rem, cfg) == fits_accum_spec(d, indent, rem, cfg).0,
    decreases d,
{
    if rem >= 0 {
        match d {
            DocView::Indent(b) => law_fits_inner_agrees_with_accum(
                *b,
                indent + cfg.indent_width,
                rem,
                cfg,
            ),
            DocView::Align(n, b) => law_fits_inner_agrees_with_accum(*b, indent + n, rem, cfg),
            DocView::Group(b) => law_fits_inner_agrees_with_accum(*b, indent, rem, cfg),
            DocView::ConditionalGroup(b) => law_fits_inner_agrees_with_accum(*b, indent, rem, cfg),
            DocView::IfBreak(_, f) => law_fits_inner_agrees_with_accum(*f, indent, rem, cfg),
            DocView::BestOf(vs) => if vs.len() > 0 {
                law_fits_inner_agrees_with_accum(vs[0], indent, rem, cfg);
            },
            _ => {},
        }
    }
}

/// Where the documents of statements `body[i..]` land in the parts of a
/// statement list that already holds `parts`, each with the comment flags
/// under which it is formatted.
pub open spec fn stmt_places(
    body: Seq<Node>,
    i: int,
    parts: Seq<DocView>,
    src: Seq<u8>,
    cs: Seq<CommentView>,
    tk: Seq<bool>,
) -> Seq<(int, Seq<bool>)>
    decreases body.len() - i,
{
    if i < 0 || i >= body.len() {
        Seq::empty()
    } else {
        let has_pred = i > 0;
        let gap_start: int = if i > 0 {
            body[i - 1].loc.end as int
        } else {
            0
        };
        let gap_end = body[i].loc.start as int;
        let (cmts, t1) = take_between(cs, tk, gap_start, gap_end, cs.len() as int);
        let p1 = gap_comment_parts(cmts, 0, parts, has_pred, gap_start, src);
        let p2 = if i > 0 || cmts.len() > 0 {
            if has_pred && cmts.len() == 0 {
                p1 + line_gap(newline_count(src.subrange(gap_start, gap_end)))
            } else {
                p1 + line_gap(newline_count(src.subrange(cmts.last().end as int, gap_end)))
            }
        } else {
            p1
        };
        let (d, t2) = fmt_node(body[i], src, cs, t1);
        let p3 = p2.push(d);
        let (p4, t3) = if i == body.len() - 1 {
            let code_end = body[i].loc.end as int;
            let (tr, t) = take_between(cs, t2, code_end, line_end(src, code_end), cs.len() as int);
            (p3 + suffix_parts(tr, 0), t)
        } else {
            (p3, t2)
        };
        seq![(p2.len() as int, t1)] + stmt_places(body, i + 1, p4, src, cs, t3)
    }
}

/// The gap comments only add parts after those there already.
pub(crate) proof fn lemma_gap_parts_extend(
    cmts: Seq<CommentView>,
    j: int,
    parts: Seq<DocView>,
    has_pred: bool,
    gap_start: int,
    src: Seq<u8>,
)
    ensures
        gap_comment_parts(cmts, j, parts, has_pred, gap_start, src).len() >= parts.len(),
        gap_comment_parts(cmts, j, parts, has_pred, gap_start, src).subrange(0, parts.len() as int)
            == parts,
    decreases cmts.len() - j,
{
    if 0 <= j < cmts.len() {
        let c = cmts[j];
        let next = if has_pred && newline_count(src.subrange(gap_start, c.start as int)) == 0 {
            parts.push(suffix_comment(c))
        } else {
            let sep = if has_pred || parts.len() > 0 {
                if newline_count(src.subrange(gap_start, c.start as int)) > 1 {
                    seq![DocView::Hardline, DocView::Hardline]
                } else {
                    seq![DocView::Hardline]
                }
            } else {
                Seq::empty()
            };
            (parts + sep).push(tx(trim_end_ws(c.text)))
        };
        assert(next.subrange(0, parts.len() as int) =~= parts);
        lemma_gap_parts_extend(cmts, j + 1, next, has_pred, gap_start, src);
        let r = gap_comment_parts(cmts, j + 1, next, has_pred, gap_start, src);
        assert(r.subrange(0, parts.len() as int) =~= r.subrange(0, next.len() as int).subrange(
            0,
            parts.len() as int,
        ));
    } else {
        assert(parts.subrange(0, parts.len() as int) =~= parts);
    }
}

/// What `stmt_places` says of the parts of `stmts_from`: they extend
/// `parts`, and each statement's document stands at its place, the places
/// increasing.
proof fn lemma_stmt_places(
    body: Seq<Node>,
    i: int,
    parts: Seq<DocView>,
    src: Seq<u8>,
    cs: Seq<CommentView>,
    tk: Seq<bool>,
)
    requires
        0 <= i <= body.len(),
    ensures
        ({
            let res = stmts_from(body, i, parts, src, cs, tk).0;
            let pl = stmt_places(body, i, parts, src, cs, tk);
            &&& pl.len() == body.len() - i
            &&& res.len() >= parts.len()
            &&& res.subrange(0, parts.len() as int) == parts
            &&& forall|k: int|
                0 <= k < pl.len() ==> parts.len() <= #[trigger] pl[k].0 < res.len() && res[pl[k].0]
                    == fmt_node(body[i + k], src, cs, pl[k].1).0
            &&& forall|j: int, k: int| 0 <= j < k < pl.len() ==> #[trigger] pl[j].0 < #[trigger] pl[k].0
        }),
    decreases body.len() - i,
{
    if i < body.len() {
        let has_pred = i > 0;
        let gap_start: int = if i > 0 {
            body[i - 1].loc.end as int
        } else {
            0
        };
        let gap_end = body[i].loc.start as int;
        let (cmts, t1) = take_between(cs, tk, gap_start, gap_end, cs.len() as int);
        let p1 = gap_comment_parts(cmts, 0, parts, has_pred, gap_start, src);
        lemma_gap_parts_extend(cmts, 0, parts, has_pred, gap_start, src);
        let p2 = if i > 0 || cmts.len() > 0 {
            if has_pred && cmts.len() == 0 {
                p1 + line_gap(newline_count(src.subrange(gap_start, gap_end)))
            } else {
                p1 + line_gap(newline_count(src.subrange(cmts.last().end as int, gap_end)))
            }
        } else {
            p1
        };
        let (d, t2) = fmt_node(body[i], src, cs, t1);
        let p3 = p2.push(d);
        let (p4, t3) = if i == body.len() - 1 {
            let code_end = body[i].loc.end as int;
            let (tr, t) = take_between(cs, t2, code_end, line_end(src, code_end), cs.len() as int);
            (p3 + suffix_parts(tr, 0), t)
        } else {
            (p3, t2)
        };
        assert(stmts_from(body, i, parts, src, cs, tk) == stmts_from(body, i + 1, p4, src, cs, t3));
        assert(stmt_places(body, i, parts, src, cs, tk) == seq![(p2.len() as int, t1)] + stmt_places(
            body,
            i + 1,
            p4,
            src,
            cs,
            t3,
        ));
        lemma_stmt_places(body, i + 1, p4, src, cs, t3);
        let res = stmts_from(body, i + 1, p4, src, cs, t3).0;
        assert(p4.len() > p2.len());
        assert(p4[p2.len() as int] == d);
        assert(res[p2.len() as int] == res.subrange(0, p4.len() as int)[p2.len() as int]);
        assert(p2.subrange(0, parts.len() as int) =~= parts);
        assert(res.subrange(0, parts.len() as int) =~= res.subrange(0, p4.len() as int).subrange(
            0,
            parts.len() as int,
        ));
        assert(p4.subrange(0, parts.len() as int) =~= parts);
        let pl = stmt_places(body, i, parts, src, cs, tk);
        let rest = stmt_places(body, i + 1, p4, src, cs, t3);
        assert forall|k: int| 0 <= k < pl.len() implies parts.len() <= #[trigger] pl[k].0 < res.len()
            && res[pl[k].0] == fmt_node(body[i + k], src, cs, pl[k].1).0 by {
            if k > 0 {
                assert(pl[k] == rest[k - 1]);
                assert(i + k == (i + 1) + (k - 1));
            }
        }
        assert forall|j: int, k: int| 0 <= j < k < pl.len() implies #[trigger] pl[j].0 < #[trigger] pl[k].0 by {
            assert(pl[k] == rest[k - 1]);
            if j > 0 {
                assert(pl[j] == rest[j - 1]);
            }
        }
    } else {
        assert(parts.subrange(0, parts.len() as int) =~= parts);
    }
}

/// A statement list keeps its statements in source order: the document of
/// each statement stands in the list's parts, each after those of the
/// statements before it, formatted under the comment flags of its place.
pub proof fn law_statements_in_order(body: Seq<Node>, src: Seq<u8>, cs: Seq<CommentView>, tk: Seq<bool>)
    ensures
        ({
            let res = stmts_from(body, 0, Seq::empty(), src, cs, tk).0;
            let pl = stmt_places(body, 0, Seq::empty(), src, cs, tk);
            &&& pl.len() == body.len()
            &&& forall|k: int|
                0 <= k < pl.len() ==> 0 <= #[trigger] pl[k].0 < res.len() && res[pl[k].0] == fmt_node(
                    body[k],
                    src,
                    cs,
                    pl[k].1,
                ).0
            &&& forall|j: int, k: int| 0 <= j < k < pl.len() ==> #[trigger] pl[j].0 < #[trigger] pl[k].0
        }),
{
    lemma_stmt_places(body, 0, Seq::empty(), src, cs, tk);
    let pl = stmt_places(body, 0, Seq::empty(), src, cs, tk);
}

} // verus!
