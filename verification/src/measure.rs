//! Whether a document can be printed within the machine's integers: the
//! printer counts columns in `isize`, so the indentation and the text of a
//! document, together with the line width, must stay below `isize::MAX`.
use vstd::prelude::*;

use crate::ir::{docs_view, lemma_docs_view, Doc, DocView};
use crate::printer::{doc_wf, docs_wf, indent_depth, indents_depth, printable, text_total, texts_total};
use crate::width::{char_width, char_width_exec, text_width};
use crate::FormatConfig;

verus! {

broadcast use vstd::std_specs::vec::group_vec_axioms;

/// The largest count that the printer can hold.
pub open spec fn limit() -> nat {
    isize::MAX as nat
}

/// `x`, or one past the limit when it is larger than that.
pub open spec fn capped(x: nat) -> nat {
    if x > limit() {
        limit() + 1
    } else {
        x
    }
}

/// Small counts are kept exactly.
proof fn lemma_capped_small(x: nat)
    requires
        x <= 0x7fff_ffff,
    ensures
        capped(x) == x,
{
    assert(isize::MAX >= 0x7fff_ffff);
}

/// One past the limit, as a machine integer.
fn over() -> (r: usize)
    ensures
        r == limit() + 1,
{
    (isize::MAX as usize) + 1
}

/// The sum of two counts, or one past the limit when it is larger.
pub open spec fn sat_add(a: nat, b: nat) -> nat {
    if a + b > limit() + 1 {
        limit() + 1
    } else {
        a + b
    }
}

/// Capping a sum is adding the capped counts, capped.
proof fn lemma_capped_add(x: nat, y: nat)
    ensures
        capped(x + y) == sat_add(capped(x), capped(y)),
{
}

/// The capped sum of two capped counts.
fn add_capped(a: usize, b: usize) -> (r: usize)
    requires
        a <= limit() + 1,
        b <= limit() + 1,
    ensures
        r == sat_add(a as nat, b as nat),
{
    let o = over();
    if a > o - b {
        o
    } else {
        a + b
    }
}

/// The larger of two counts.
fn max_of(a: usize, b: usize) -> (r: usize)
    ensures
        r == if a >= b {
            a
        } else {
            b
        },
{
    if a >= b {
        a
    } else {
        b
    }
}

/// The capped width of a string.
fn capped_width(s: &str) -> (w: usize)
    ensures
        w == capped(text_width(s@)),
{
    let mut w: usize = 0;
    let ghost mut seen: Seq<char> = Seq::empty();
    for c in it: s.chars()
        invariant
            it.seq() == s@,
            seen == it.seq().take(it.index() as int),
            w == capped(text_width(seen)),
    {
        let ghost k = it.index() as int;
        let cw = char_width_exec(c);
        proof {
            lemma_capped_small(char_width(c));
            assert(it.seq().take(k + 1) =~= seen.push(c));
            assert(seen.push(c).drop_last() =~= seen);
            assert(text_width(seen.push(c)) == text_width(seen) + char_width(c));
            assert(cw == capped(char_width(c)));
            lemma_capped_add(text_width(seen), char_width(c));
        }
        w = add_capped(w, cw);
        proof {
            seen = seen.push(c);
        }
    }
    proof {
        assert(seen =~= s@);
    }
    w
}

/// One step of the measures of a list.
proof fn lemma_list_step(dv: Seq<DocView>, j: int, iw: nat)
    requires
        0 <= j < dv.len(),
    ensures
        docs_wf(dv, j) == (doc_wf(dv[j]) && docs_wf(dv, j + 1)),
        indents_depth(dv, j, iw) == if indent_depth(dv[j], iw) >= indents_depth(dv, j + 1, iw) {
            indent_depth(dv[j], iw)
        } else {
            indents_depth(dv, j + 1, iw)
        },
        texts_total(dv, j) == text_total(dv[j]) + texts_total(dv, j + 1),
{
}

/// Capping keeps the larger of two counts.
proof fn lemma_capped_max(a: nat, b: nat)
    ensures
        capped(if a >= b {
            a
        } else {
            b
        }) == if capped(a) >= capped(b) {
            capped(a)
        } else {
            capped(b)
        },
{
}

/// The measures of a document, as `measure` gives them.
pub open spec fn measured(d: DocView, iw: nat, r: (bool, usize, usize)) -> bool {
    &&& r.0 == doc_wf(d)
    &&& r.1 == capped(indent_depth(d, iw))
    &&& r.2 == capped(text_total(d))
}

/// Whether a document is well formed, and its capped indentation depth
/// and capped text total.
#[verifier::spinoff_prover]
fn measure(d: &Doc, iw: usize) -> (r: (bool, usize, usize))
    ensures
        measured(d@, iw as nat, r),
    decreases d, 1int,
{
    match d {
        Doc::Concat(v) => measure_list(v, iw),
        Doc::BestOf(v) => {
            let (wf, dep, tot) = measure_list(v, iw);
            proof {
                lemma_docs_view(v@);
            }
            (v.len() > 0 && wf, dep, tot)
        },
        Doc::Indent(_) | Doc::Align(..) => measure_indented(d, iw),
        Doc::Group(_) | Doc::ConditionalGroup(_) | Doc::LineSuffix(_) => measure_wrapped(d, iw),
        Doc::IfBreak { .. } => measure_if_break(d, iw),
        _ => measure_leaf(d),
    }
}

/// The measures of a document without children.
#[verifier::spinoff_prover]
fn measure_leaf(d: &Doc) -> (r: (bool, usize, usize))
    requires
        !(d is Concat || d is BestOf || d is Indent || d is Align || d is Group
            || d is ConditionalGroup || d is LineSuffix || d is IfBreak),
    ensures
        forall|iw: nat| #[trigger] measured(d@, iw, r),
{
    proof {
        lemma_capped_small(0);
    }
    match d {
        Doc::Text(s) => (true, 0, capped_width(s.as_str())),
        Doc::Verbatim(s) => (true, 0, capped_width(s.as_str())),
        Doc::Softline { flat_alt } => (true, 0, capped_width(flat_alt.as_str())),
        _ => (true, 0, 0),
    }
}

/// The measures of an indented document.
#[verifier::spinoff_prover]
fn measure_indented(d: &Doc, iw: usize) -> (r: (bool, usize, usize))
    requires
        d is Indent || d is Align,
    ensures
        measured(d@, iw as nat, r),
    decreases d, 0int,
{
    match d {
        Doc::Indent(b) => {
            let (wf, dep, tot) = measure(b, iw);
            let i = if iw > isize::MAX as usize {
                over()
            } else {
                iw
            };
            assert(i == capped(iw as nat));
            proof {
                lemma_capped_add(iw as nat, indent_depth(b@, iw as nat));
            }
            (wf, add_capped(i, dep), tot)
        },
        Doc::Align(n, b) => {
            let (wf, dep, tot) = measure(b, iw);
            let i = if *n > isize::MAX as usize {
                over()
            } else {
                *n
            };
            assert(i == capped(*n as nat));
            proof {
                lemma_capped_add(*n as nat, indent_depth(b@, iw as nat));
            }
            (wf, add_capped(i, dep), tot)
        },
        _ => (true, 0, 0),
    }
}

/// The measures of a group or a line suffix: those of its contents.
#[verifier::spinoff_prover]
fn measure_wrapped(d: &Doc, iw: usize) -> (r: (bool, usize, usize))
    requires
        d is Group || d is ConditionalGroup || d is LineSuffix,
    ensures
        measured(d@, iw as nat, r),
    decreases d, 0int,
{
    match d {
        Doc::Group(b) => measure(b, iw),
        Doc::ConditionalGroup(b) => measure(b, iw),
        Doc::LineSuffix(b) => measure(b, iw),
        _ => (true, 0, 0),
    }
}

/// The measures of a choice between a broken and a flat document.
#[verifier::spinoff_prover]
fn measure_if_break(d: &Doc, iw: usize) -> (r: (bool, usize, usize))
    requires
        d is IfBreak,
    ensures
        measured(d@, iw as nat, r),
    decreases d, 0int,
{
    match d {
        Doc::IfBreak { break_contents, flat_contents } => {
            let (wb, db, tb) = measure(break_contents, iw);
            let (wf, df, tf) = measure(flat_contents, iw);
            proof {
                lemma_capped_max(
                    indent_depth(break_contents@, iw as nat),
                    indent_depth(flat_contents@, iw as nat),
                );
                lemma_capped_add(text_total(break_contents@), text_total(flat_contents@));
            }
            (wb && wf, max_of(db, df), add_capped(tb, tf))
        },
        _ => (true, 0, 0),
    }
}

/// `measure` of each document of a list, combined.
#[verifier::spinoff_prover]
fn measure_list(v: &Vec<Doc>, iw: usize) -> (r: (bool, usize, usize))
    ensures
        r.0 == docs_wf(docs_view(v@), 0),
        r.1 == capped(indents_depth(docs_view(v@), 0, iw as nat)),
        r.2 == capped(texts_total(docs_view(v@), 0)),
    decreases v, 0int,
{
    let ghost dv = docs_view(v@);
    proof {
        lemma_docs_view(v@);
        lemma_capped_small(0);
    }
    let mut wf = true;
    let mut dep: usize = 0;
    let mut tot: usize = 0;
    let mut i = v.len();
    while i > 0
        invariant
            i <= v@.len(),
            dv == docs_view(v@),
            dv.len() == v@.len(),
            forall|k: int| 0 <= k < v@.len() ==> #[trigger] dv[k] == v@[k]@,
            wf == docs_wf(dv, i as int),
            dep == capped(indents_depth(dv, i as int, iw as nat)),
            tot == capped(texts_total(dv, i as int)),
        decreases i,
    {
        i -= 1;
        assert(decreases_to!(v => v@[i as int]));
        let (w1, d1, t1) = measure(&v[i], iw);
        proof {
            let j = i as int;
            assert(dv[j] == v@[j]@);
            lemma_list_step(dv, j, iw as nat);
            lemma_capped_max(indent_depth(dv[j], iw as nat), indents_depth(dv, j + 1, iw as nat));
            lemma_capped_add(text_total(dv[j]), texts_total(dv, j + 1));
        }
        wf = w1 && wf;
        dep = max_of(d1, dep);
        tot = add_capped(t1, tot);
    }
    (wf, dep, tot)
}

/// Whether `doc` can be printed with `config`: it is well formed, and its
/// indentation, its text and the line width together stay within
/// `isize::MAX`.
pub fn is_printable(doc: &Doc, config: &FormatConfig) -> (r: bool)
    ensures
        r == printable(doc@, *config),
{
    let (wf, dep, tot) = measure(doc, config.indent_width);
    let k = isize::MAX as usize;
    wf && dep <= k && tot <= k - dep && config.max_width <= k - dep - tot
}

} // verus!
