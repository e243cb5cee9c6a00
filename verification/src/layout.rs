//! The meaning of formatting: for each syntax node, the document the
//! formatter builds for it, and which comments it places on the way.
//!
//! Each function takes the source bytes, the comments of the pass and the
//! flags saying which are placed already, and gives the document together
//! with the new flags.
use vstd::prelude::*;

use crate::ast::{
    Call, HookKeyword, Joiner, JumpKeyword, Loc, LoopKeyword, Node, NodeKind, Params, Rescue, Stmts,
};
use crate::comments::{take_all, take_between, CommentView};
use crate::ir::{comma_interleave, mk_concat, text_view, DocView};
use crate::text::{
    collapse_ws, loc_in, loc_text, newline_count, trim_end_newlines, trim_end_ws, utf8_lossy,
};

verus! {

broadcast use vstd::std_specs::vec::group_vec_axioms;

// ── Small documents ─────────────────────────────────────────────────────

/// `Doc::text` of a string.
pub open spec fn tx(s: Seq<char>) -> DocView {
    text_view(s)
}

/// The text of a source location.
pub open spec fn loc_tx(src: Seq<u8>, loc: Loc) -> DocView {
    text_view(loc_text(src, loc))
}

/// A hard line followed by `body`, one level in.
pub open spec fn indent_body(body: DocView) -> DocView {
    DocView::Indent(Box::new(mk_concat(seq![DocView::Hardline, body])))
}

/// `Doc::join_comma_separated` of documents with views `ds`.
pub open spec fn comma_list(ds: Seq<DocView>) -> DocView {
    mk_concat(comma_interleave(ds))
}

/// An empty soft line: nothing when flat.
pub open spec fn soft_empty() -> DocView {
    DocView::Softline(Seq::empty())
}

/// `(args)`, breaking after `(` and before `)` with the arguments one level in.
pub open spec fn paren_args(ds: Seq<DocView>) -> DocView {
    if ds.len() == 0 {
        tx("()"@)
    } else {
        DocView::Group(
            Box::new(
                mk_concat(
                    seq![
                    tx("("@),
                    DocView::Indent(Box::new(mk_concat(seq![soft_empty(), comma_list(ds)]))),
                    soft_empty(),
                    tx(")"@),
                ],
                ),
            ),
        )
    }
}

/// `open items close`, no space inside, breaking like `paren_args`.
pub open spec fn bracket_body(open: Seq<char>, close: Seq<char>, ds: Seq<DocView>) -> DocView {
    DocView::Group(
        Box::new(
            mk_concat(
                seq![
                tx(open),
                DocView::Indent(Box::new(mk_concat(seq![soft_empty(), comma_list(ds)]))),
                soft_empty(),
                tx(close),
            ],
            ),
        ),
    )
}

/// A comment's text as a trailing line suffix.
pub open spec fn suffix_comment(c: CommentView) -> DocView {
    DocView::LineSuffix(Box::new(mk_concat(seq![tx(" "@), tx(trim_end_ws(c.text))])))
}

// ── Source predicates ───────────────────────────────────────────────────

/// The opening of a string is a heredoc opening (`<<`, `<<~`, `<<-`).
pub open spec fn is_heredoc(src: Seq<u8>, opening: Option<Loc>) -> bool {
    match opening {
        Some(l) => l.end - l.start >= 2 && src[l.start as int] == 60u8 && src[l.start + 1] == 60u8,
        None => false,
    }
}

/// The bytes of `loc` in `src`.
pub open spec fn loc_bytes(src: Seq<u8>, loc: Loc) -> Seq<u8> {
    src.subrange(loc.start as int, loc.end as int)
}

/// The offset of the first newline at or after `p`, or the source length.
pub open spec fn line_end(src: Seq<u8>, p: int) -> int
    decreases src.len() - p,
{
    if p >= src.len() {
        src.len() as int
    } else if src[p] == 10u8 {
        p
    } else {
        line_end(src, p + 1)
    }
}

/// Names of binary operators.
pub open spec fn is_binary_operator(name: Seq<char>) -> bool {
    ||| name == "+"@
    ||| name == "-"@
    ||| name == "*"@
    ||| name == "/"@
    ||| name == "%"@
    ||| name == "**"@
    ||| name == "=="@
    ||| name == "!="@
    ||| name == "<"@
    ||| name == ">"@
    ||| name == "<="@
    ||| name == ">="@
    ||| name == "<=>"@
    ||| name == "=~"@
    ||| name == "!~"@
    ||| name == "&"@
    ||| name == "|"@
    ||| name == "^"@
    ||| name == "<<"@
    ||| name == ">>"@
    ||| name == "==="@
}

/// Names of unary operators.
pub open spec fn is_unary_operator(name: Seq<char>) -> bool {
    ||| name == "!"@
    ||| name == "~"@
    ||| name == "-@"@
    ||| name == "+@"@
    ||| name == "not"@
}

// ── Comments ────────────────────────────────────────────────────────────

/// The comments placed between statements, in order, from `cmts[j..]`.
pub open spec fn gap_comment_parts(
    cmts: Seq<CommentView>,
    j: int,
    parts: Seq<DocView>,
    has_pred: bool,
    gap_start: int,
    src: Seq<u8>,
) -> Seq<DocView>
    decreases cmts.len() - j,
{
    if j < 0 || j >= cmts.len() {
        parts
    } else {
        let c = cmts[j];
        let next = if has_pred && newline_count(src.subrange(gap_start, c.start as int)) == 0 {
            parts.push(suffix_comment(c))
        } else {
            let sep = if has_pred || parts.len() > 0 {
                if newline_count(src.subrange(gap_start, c.start as int)) > 1 {
                    seq![DocView::Hardline, DocView::Hardline]
                } else {
                    seq![DocView::Hardline]
                }
            } else {
                Seq::empty()
            };
            (parts + sep).push(tx(trim_end_ws(c.text)))
        };
        gap_comment_parts(cmts, j + 1, next, has_pred, gap_start, src)
    }
}

/// Hard lines: two if the gap holds a blank line, else one.
pub open spec fn line_gap(newlines: nat) -> Seq<DocView> {
    if newlines > 1 {
        seq![DocView::Hardline, DocView::Hardline]
    } else {
        seq![DocView::Hardline]
    }
}

/// Comment texts separated by hard lines, from `cmts[j..]`.
pub open spec fn interior_parts(cmts: Seq<CommentView>, j: int) -> Seq<DocView>
    decreases cmts.len() - j,
{
    if j < 0 || j >= cmts.len() {
        Seq::empty()
    } else {
        let head = if j > 0 {
            seq![DocView::Hardline, tx(trim_end_ws(cmts[j].text))]
        } else {
            seq![tx(trim_end_ws(cmts[j].text))]
        };
        head + interior_parts(cmts, j + 1)
    }
}

/// Trailing comments as line suffixes, from `cmts[j..]`.
pub open spec fn suffix_parts(cmts: Seq<CommentView>, j: int) -> Seq<DocView>
    decreases cmts.len() - j,
{
    if j < 0 || j >= cmts.len() {
        Seq::empty()
    } else {
        seq![suffix_comment(cmts[j])] + suffix_parts(cmts, j + 1)
    }
}

/// The comments in `[from, to)`, each on its own line (`Empty` if none).
pub open spec fn interior_comments(cs: Seq<CommentView>, tk: Seq<bool>, from: int, to: int) -> (
    DocView,
    Seq<bool>,
) {
    let (cmts, tk1) = take_between(cs, tk, from, to, cs.len() as int);
    if cmts.len() == 0 {
        (DocView::Empty, tk1)
    } else {
        (mk_concat(interior_parts(cmts, 0)), tk1)
    }
}

// ── Well-formedness ─────────────────────────────────────────────────────

/// Every comment lies within the source.
pub open spec fn comments_wf(cs: Seq<CommentView>, len: nat) -> bool {
    forall|k: int| 0 <= k < cs.len() ==> #[trigger] cs[k].start <= cs[k].end && cs[k].end <= len
}

/// A comment that starts before `loc` also ends before it.
pub open spec fn ends_before(c: CommentView, loc: Loc) -> bool {
    c.start < loc.start ==> c.end <= loc.start
}

/// Statements in order, and no comment runs into the start of one.
pub open spec fn body_order(body: Seq<Node>, cs: Seq<CommentView>) -> bool {
    &&& forall|i: int| 0 <= i < body.len() - 1 ==> #[trigger] body[i].loc.end <= body[i + 1].loc.start
    &&& forall|i: int, k: int|
        0 <= i < body.len() && 0 <= k < cs.len() ==> ends_before(#[trigger] cs[k], #[trigger] body[i].loc)
}

/// Every location of the node lies within a source of `src` bytes, the
/// statements of every body are in order and clear of the comments, and
/// every heredoc body lies between its opening and closing.
pub open spec fn node_wf(n: Node, src: Seq<u8>, cs: Seq<CommentView>) -> bool
    decreases n, 0int,
{
    &&& loc_in(n.loc, src.len())
    &&& match n.kind {
        NodeKind::Source | NodeKind::NoKeywords | NodeKind::Nothing => true,
        NodeKind::Program { statements } => stmts_wf(statements, src, cs),
        NodeKind::Statements { body } => nodes_wf(body@, 0, src, cs) && body_order(body@, cs),
        NodeKind::NameWrite { name, operator, value } => loc_in(name, src.len()) && loc_in(operator, src.len())
            && node_wf(*value, src, cs),
        NodeKind::TargetWrite { target, operator, value } => node_wf(*target, src, cs) && loc_in(operator, src.len()) && node_wf(*value, src, cs),
        NodeKind::ConstantPath { parent, delimiter, name } => opt_wf(parent, src, cs) && loc_in(delimiter, src.len()),
        NodeKind::Str { opening, content, closing } => opt_loc_in(opening, src.len()) && loc_in(content, src.len()) && opt_loc_in(closing, src.len()),
        NodeKind::InterpolatedStr { opening, parts, closing } => opt_loc_in(opening, src.len())
            && nodes_wf(parts@, 0, src, cs) && opt_loc_in(closing, src.len()) && (is_heredoc(src, opening) ==> closing is Some && opening.unwrap().end <= closing.unwrap().start),
        NodeKind::XStr { opening, content, closing } => loc_in(opening, src.len()) && loc_in(content, src.len())
            && loc_in(closing, src.len()),
        NodeKind::InterpolatedXStr { opening, closing } => loc_in(opening, src.len()) && loc_in(closing, src.len()) && opening.end <= closing.start,
        NodeKind::EmbeddedStatements { opening, statements, closing } => loc_in(opening, src.len())
            && opt_stmts_wf(statements, src, cs) && loc_in(closing, src.len()),
        NodeKind::EmbeddedVariable { operator, variable } => loc_in(operator, src.len()) && node_wf(
            *variable,
            src,
            cs,
        ),
        NodeKind::Array { opening, elements, closing } => opt_loc_in(opening, src.len()) && nodes_wf(
            elements@,
            0,
            src,
            cs,
        ) && opt_loc_in(closing, src.len()),
        NodeKind::Hash { opening, elements, closing } => loc_in(opening, src.len()) && nodes_wf(
            elements@,
            0,
            src,
            cs,
        ) && loc_in(closing, src.len()),
        NodeKind::KeywordHash { elements } => nodes_wf(elements@, 0, src, cs),
        NodeKind::Assoc { key, operator, value } => node_wf(*key, src, cs) && opt_loc_in(operator, src.len()) && node_wf(*value, src, cs),
        NodeKind::Splat { operator, expression } => loc_in(operator, src.len()) && opt_wf(
            expression,
            src,
            cs,
        ),
        NodeKind::BlockArgument { operator, expression } => loc_in(operator, src.len()) && opt_wf(
            expression,
            src,
            cs,
        ),
        NodeKind::Range { left, operator, right } => opt_wf(left, src, cs) && loc_in(operator, src.len())
            && opt_wf(right, src, cs),
        NodeKind::Def {
            receiver,
            operator,
            name,
            name_loc,
            parameters,
            lparen,
            rparen,
            equal,
            body,
            end_keyword,
        } => opt_wf(receiver, src, cs) && opt_loc_in(operator, src.len()) && loc_in(name_loc, src.len())
            && opt_params_wf(parameters, src, cs) && opt_loc_in(lparen, src.len()) && opt_loc_in(rparen, src.len()) && opt_loc_in(equal, src.len()) && opt_wf(body, src, cs) && opt_loc_in(end_keyword, src.len()),
        NodeKind::Class { constant_path, superclass, body } => node_wf(*constant_path, src, cs)
            && opt_wf(superclass, src, cs) && opt_wf(body, src, cs),
        NodeKind::Module { constant_path, body } => node_wf(*constant_path, src, cs) && opt_wf(
            body,
            src,
            cs,
        ),
        NodeKind::SingletonClass { operator, expression, body } => loc_in(operator, src.len()) && node_wf(
            *expression,
            src,
            cs,
        ) && opt_wf(body, src, cs),
        NodeKind::Call(c) => call_wf(c, src, cs),
        NodeKind::CallWrite { receiver, call_operator, message, operator, value } => opt_wf(
            receiver,
            src,
            cs,
        ) && opt_loc_in(call_operator, src.len()) && opt_loc_in(message, src.len()) && loc_in(operator, src.len())
            && node_wf(*value, src, cs),
        NodeKind::CallTarget { receiver, call_operator, name } => node_wf(*receiver, src, cs)
            && loc_in(call_operator, src.len()),
        NodeKind::IndexWrite { receiver, opening, arguments, closing, operator, value } => opt_wf(
            receiver,
            src,
            cs,
        ) && loc_in(opening, src.len()) && opt_nodes_wf(arguments, src, cs) && loc_in(closing, src.len())
            && loc_in(operator, src.len()) && node_wf(*value, src, cs),
        NodeKind::IndexTarget { receiver, opening, arguments, closing } => node_wf(
            *receiver,
            src,
            cs,
        ) && loc_in(opening, src.len()) && opt_nodes_wf(arguments, src, cs) && loc_in(closing, src.len()),
        NodeKind::Arguments { arguments } => nodes_wf(arguments@, 0, src, cs),
        NodeKind::Block { opening, parameters, body } => loc_in(opening, src.len()) && opt_wf(
            parameters,
            src,
            cs,
        ) && opt_wf(body, src, cs),
        NodeKind::Lambda { opening, closing, parameters, body } => loc_in(opening, src.len()) && loc_in(closing, src.len()) && opt_wf(parameters, src, cs) && opt_wf(body, src, cs),
        NodeKind::BlockParameters { opening, parameters, locals, closing } => opt_loc_in(opening, src.len()) && opt_params_wf(parameters, src, cs) && nodes_wf(locals@, 0, src, cs) && opt_loc_in(closing, src.len()),
        NodeKind::Name { name } => true,
        NodeKind::OptionalParameter { name, value } => node_wf(*value, src, cs),
        NodeKind::PrefixedName { operator, name } => loc_in(operator, src.len()),
        NodeKind::RequiredKeyword { name } => true,
        NodeKind::OptionalKeyword { name, value } => node_wf(*value, src, cs),
        NodeKind::If { if_keyword, predicate, statements, subsequent, end_keyword } => opt_loc_in(if_keyword, src.len()) && node_wf(*predicate, src, cs) && opt_stmts_wf(statements, src, cs) && opt_wf(
            subsequent,
            src,
            cs,
        ) && opt_loc_in(end_keyword, src.len()),
        NodeKind::Unless { keyword, predicate, statements, else_clause, end_keyword } => loc_in(keyword, src.len()) && node_wf(*predicate, src, cs) && opt_stmts_wf(statements, src, cs) && opt_wf(
            else_clause,
            src,
            cs,
        ) && opt_loc_in(end_keyword, src.len()),
        NodeKind::Else { statements } => opt_stmts_wf(statements, src, cs),
        NodeKind::Case { predicate, conditions, else_clause } => opt_wf(predicate, src, cs)
            && nodes_wf(conditions@, 0, src, cs) && opt_wf(else_clause, src, cs),
        NodeKind::When { conditions, statements } => nodes_wf(conditions@, 0, src, cs)
            && opt_stmts_wf(statements, src, cs),
        NodeKind::In { pattern, statements } => node_wf(*pattern, src, cs) && opt_stmts_wf(
            statements,
            src,
            cs,
        ),
        NodeKind::Loop { keyword, keyword_loc, predicate, statements } => loc_in(keyword_loc, src.len())
            && node_wf(*predicate, src, cs) && opt_stmts_wf(statements, src, cs),
        NodeKind::For { index, collection, statements } => node_wf(*index, src, cs) && node_wf(
            *collection,
            src,
            cs,
        ) && opt_stmts_wf(statements, src, cs),
        NodeKind::Logical { left, operator, right } => node_wf(*left, src, cs) && loc_in(operator, src.len()) && node_wf(*right, src, cs),
        NodeKind::Parentheses { opening, body, closing } => loc_in(opening, src.len()) && opt_wf(
            body,
            src,
            cs,
        ) && loc_in(closing, src.len()),
        NodeKind::Begin {
            begin_keyword,
            statements,
            rescue_clause,
            else_clause,
            ensure_clause,
            end_keyword,
        } => opt_loc_in(begin_keyword, src.len()) && opt_stmts_wf(statements, src, cs) && match rescue_clause {
            Some(r) => rescue_wf(r, src, cs),
            None => true,
        } && opt_wf(else_clause, src, cs) && opt_wf(ensure_clause, src, cs) && opt_loc_in(end_keyword, src.len()),
        NodeKind::RescueClause(r) => rescue_wf(r, src, cs),
        NodeKind::Ensure { statements } => opt_stmts_wf(statements, src, cs),
        NodeKind::Joined { left, joiner, right } => node_wf(*left, src, cs) && node_wf(
            *right,
            src,
            cs,
        ),
        NodeKind::Jump { keyword, arguments } => opt_nodes_wf(arguments, src, cs),
        NodeKind::Yield { lparen, arguments } => opt_loc_in(lparen, src.len()) && opt_nodes_wf(
            arguments,
            src,
            cs,
        ),
        NodeKind::Super { lparen, arguments, block } => opt_loc_in(lparen, src.len()) && opt_nodes_wf(
            arguments,
            src,
            cs,
        ) && opt_wf(block, src, cs),
        NodeKind::ForwardingSuper { block } => opt_wf(block, src, cs),
        NodeKind::MultiWrite { lefts, rest, rights, lparen, operator, value } => nodes_wf(
            lefts@,
            0,
            src,
            cs,
        ) && opt_wf(rest, src, cs) && nodes_wf(rights@, 0, src, cs) && opt_loc_in(lparen, src.len())
            && loc_in(operator, src.len()) && node_wf(*value, src, cs),
        NodeKind::MultiTarget { lefts, rest, rights, lparen } => nodes_wf(lefts@, 0, src, cs)
            && opt_wf(rest, src, cs) && nodes_wf(rights@, 0, src, cs) && opt_loc_in(lparen, src.len()),
        NodeKind::Alias { new_name, old_name } => node_wf(*new_name, src, cs) && node_wf(
            *old_name,
            src,
            cs,
        ),
        NodeKind::Undef { names } => nodes_wf(names@, 0, src, cs),
        NodeKind::Defined { lparen, value } => opt_loc_in(lparen, src.len()) && node_wf(*value, src, cs),
        NodeKind::PinnedExpression { expression } => node_wf(*expression, src, cs),
        NodeKind::PinnedVariable { variable } => node_wf(*variable, src, cs),
        NodeKind::Hook { keyword, opening, statements, closing } => loc_in(opening, src.len())
            && opt_stmts_wf(statements, src, cs) && loc_in(closing, src.len()),
        NodeKind::Transparent { inner } => node_wf(*inner, src, cs),
    }
}

/// `ns[i..]` are well formed.
pub open spec fn nodes_wf(ns: Seq<Node>, i: int, src: Seq<u8>, cs: Seq<CommentView>) -> bool
    decreases ns, ns.len() - i,
{
    if i < 0 || i >= ns.len() {
        true
    } else {
        node_wf(ns[i], src, cs) && nodes_wf(ns, i + 1, src, cs)
    }
}

/// An optional child is well formed.
pub open spec fn opt_wf(n: Option<Box<Node>>, src: Seq<u8>, cs: Seq<CommentView>) -> bool
    decreases n, 0int,
{
    match n {
        Some(b) => node_wf(*b, src, cs),
        None => true,
    }
}

/// An optional list of children is well formed.
pub open spec fn opt_nodes_wf(ns: Option<Vec<Node>>, src: Seq<u8>, cs: Seq<CommentView>) -> bool
    decreases ns, 0int,
{
    match ns {
        Some(v) => nodes_wf(v@, 0, src, cs),
        None => true,
    }
}

/// A statement list is well formed.
pub open spec fn stmts_wf(s: Stmts, src: Seq<u8>, cs: Seq<CommentView>) -> bool
    decreases s, 0int,
{
    loc_in(s.loc, src.len()) && nodes_wf(s.body@, 0, src, cs) && body_order(s.body@, cs)
}

/// An optional statement list is well formed.
pub open spec fn opt_stmts_wf(s: Option<Stmts>, src: Seq<u8>, cs: Seq<CommentView>) -> bool
    decreases s, 0int,
{
    match s {
        Some(st) => stmts_wf(st, src, cs),
        None => true,
    }
}

/// Parameters are well formed.
pub open spec fn params_wf(p: Params, src: Seq<u8>, cs: Seq<CommentView>) -> bool
    decreases p, 0int,
{
    &&& loc_in(p.loc, src.len())
    &&& nodes_wf(p.requireds@, 0, src, cs)
    &&& nodes_wf(p.optionals@, 0, src, cs)
    &&& opt_wf(p.rest, src, cs)
    &&& nodes_wf(p.posts@, 0, src, cs)
    &&& nodes_wf(p.keywords@, 0, src, cs)
    &&& opt_wf(p.keyword_rest, src, cs)
    &&& opt_wf(p.block, src, cs)
}

/// Optional parameters are well formed.
pub open spec fn opt_params_wf(p: Option<Params>, src: Seq<u8>, cs: Seq<CommentView>) -> bool
    decreases p, 0int,
{
    match p {
        Some(ps) => params_wf(ps, src, cs),
        None => true,
    }
}

/// A rescue chain is well formed.
pub open spec fn rescue_wf(r: Rescue, src: Seq<u8>, cs: Seq<CommentView>) -> bool
    decreases r, 0int,
{
    &&& nodes_wf(r.exceptions@, 0, src, cs)
    &&& opt_wf(r.reference, src, cs)
    &&& opt_stmts_wf(r.statements, src, cs)
    &&& match r.subsequent {
        Some(b) => rescue_wf(*b, src, cs),
        None => true,
    }
}

/// A call is well formed.
pub open spec fn call_wf(c: Call, src: Seq<u8>, cs: Seq<CommentView>) -> bool
    decreases c, 0int,
{
    &&& opt_wf(c.receiver, src, cs)
    &&& opt_loc_in(c.call_operator, src.len())
    &&& opt_loc_in(c.message, src.len())
    &&& opt_loc_in(c.opening, src.len())
    &&& opt_nodes_wf(c.arguments, src, cs)
    &&& opt_loc_in(c.closing, src.len())
    &&& opt_wf(c.block, src, cs)
}

/// The start of an optional location; 0 when there is none.
pub open spec fn opt_start(l: Option<Loc>) -> int {
    match l {
        Some(x) => x.start as int,
        None => 0,
    }
}

/// An optional location lies within the source.
pub open spec fn opt_loc_in(l: Option<Loc>, len: nat) -> bool {
    match l {
        Some(x) => loc_in(x, len),
        None => true,
    }
}

// ── Documents of nodes ──────────────────────────────────────────────────

/// `s` begins with `p`.
pub open spec fn starts_with(s: Seq<char>, p: Seq<char>) -> bool {
    p.len() <= s.len() && s.take(p.len() as int) == p
}

/// An array opening of the `%w`/`%W`/`%i`/`%I` word-list kinds.
pub open spec fn is_word_array_opening(open: Seq<char>) -> bool {
    starts_with(open, "%w"@) || starts_with(open, "%W"@) || starts_with(open, "%i"@)
        || starts_with(open, "%I"@)
}

/// The elements of a word list, each with its whitespace normalized.
pub open spec fn word_texts(src: Seq<u8>, es: Seq<Node>) -> Seq<Seq<char>> {
    Seq::new(es.len(), |i: int| collapse_ws(loc_text(src, es[i].loc)).0)
}

/// Words joined by single spaces, from `ws[i..]`.
pub open spec fn join_spaced(ws: Seq<Seq<char>>, i: int) -> Seq<char>
    decreases ws.len() - i,
{
    if i < 0 || i >= ws.len() {
        Seq::empty()
    } else if i == 0 {
        ws[0] + join_spaced(ws, 1)
    } else {
        " "@ + ws[i] + join_spaced(ws, i + 1)
    }
}

/// A heredoc: the opening stays inline, `body` follows the current line.
pub open spec fn heredoc_doc(opening: Seq<char>, body: Seq<char>) -> DocView {
    mk_concat(seq![tx(opening), DocView::LineSuffix(Box::new(DocView::Verbatim(body)))])
}

/// A heredoc whose content has its own location.
pub open spec fn heredoc_plain(src: Seq<u8>, opening: Loc, content: Loc, closing: Option<Loc>) -> DocView {
    let close = match closing {
        Some(l) => loc_text(src, l),
        None => Seq::empty(),
    };
    heredoc_doc(loc_text(src, opening), "\n"@ + loc_text(src, content) + trim_end_newlines(close))
}

/// A heredoc whose body is the source between opening and closing.
pub open spec fn heredoc_span(src: Seq<u8>, opening: Loc, closing: Loc) -> DocView {
    let body = utf8_lossy(src.subrange(opening.end as int, closing.start as int));
    heredoc_doc(loc_text(src, opening), body + trim_end_newlines(loc_text(src, closing)))
}

/// A string literal: single quotes become double quotes unless the content
/// holds a double quote or a backslash; anything else stays as written.
pub open spec fn quoted_string(src: Seq<u8>, full: Loc, opening: Option<Loc>, content: Loc) -> DocView {
    match opening {
        Some(o) => if loc_bytes(src, o) == seq![39u8] && !loc_bytes(src, content).contains(34u8)
            && !loc_bytes(src, content).contains(92u8) {
            tx("\""@ + utf8_lossy(loc_bytes(src, content)) + "\""@)
        } else {
            loc_tx(src, full)
        },
        None => loc_tx(src, full),
    }
}

/// `[Hardline, d]` for each document.
pub open spec fn each_on_new_line(ds: Seq<DocView>) -> Seq<DocView>
    decreases ds.len(),
{
    if ds.len() == 0 {
        Seq::empty()
    } else {
        each_on_new_line(ds.drop_last()) + seq![DocView::Hardline, ds.last()]
    }
}

/// An optional document as a (possibly empty) sequence.
pub open spec fn opt_seq(d: Option<DocView>) -> Seq<DocView> {
    match d {
        Some(x) => seq![x],
        None => Seq::empty(),
    }
}

/// Formats `ns[i..]` in order.
pub open spec fn fmt_nodes(ns: Seq<Node>, i: int, src: Seq<u8>, cs: Seq<CommentView>, tk: Seq<bool>) -> (
    Seq<DocView>,
    Seq<bool>,
)
    decreases ns, ns.len() - i,
{
    if i < 0 || i >= ns.len() {
        (Seq::empty(), tk)
    } else {
        let (d, t1) = fmt_node(ns[i], src, cs, tk);
        let (rest, t2) = fmt_nodes(ns, i + 1, src, cs, t1);
        (seq![d] + rest, t2)
    }
}

/// Formats an optional child.
pub open spec fn fmt_opt(o: Option<Box<Node>>, src: Seq<u8>, cs: Seq<CommentView>, tk: Seq<bool>) -> (
    Option<DocView>,
    Seq<bool>,
)
    decreases o, 0int,
{
    match o {
        Some(b) => {
            let (d, t) = fmt_node(*b, src, cs, tk);
            (Some(d), t)
        },
        None => (None, tk),
    }
}

/// Formats an optional list of children.
pub open spec fn fmt_opt_nodes(
    o: Option<Vec<Node>>,
    src: Seq<u8>,
    cs: Seq<CommentView>,
    tk: Seq<bool>,
) -> (Option<Seq<DocView>>, Seq<bool>)
    decreases o, 0int,
{
    match o {
        Some(v) => {
            let (ds, t) = fmt_nodes(v@, 0, src, cs, tk);
            (Some(ds), t)
        },
        None => (None, tk),
    }
}

/// Where the comments trailing element `i` of a list may start: before the
/// end of its line, and before the next element (`close` after the last).
pub open spec fn elem_comment_end(ns: Seq<Node>, i: int, close: int, src: Seq<u8>) -> int {
    let le = line_end(src, ns[i].loc.end as int);
    let bound = if i + 1 < ns.len() {
        ns[i + 1].loc.start as int
    } else {
        close
    };
    if bound < le {
        bound
    } else {
        le
    }
}

/// Where the comments before element `i` of a list may start: after the
/// element before it, or after the opening of the list for the first.
pub open spec fn elem_gap_start(ns: Seq<Node>, i: int, open: Option<Loc>) -> int {
    if i > 0 {
        ns[i - 1].loc.end as int
    } else {
        match open {
            Some(o) => o.end as int,
            None => ns[0].loc.start as int,
        }
    }
}

/// Comments on lines of their own before an element: each on its line.
pub open spec fn lead_parts(cmts: Seq<CommentView>) -> Seq<DocView> {
    if cmts.len() == 0 {
        Seq::empty()
    } else {
        interior_parts(cmts, 0).push(DocView::Hardline)
    }
}

/// Comments on lines of their own after the last element: each on its line.
pub open spec fn after_parts(cmts: Seq<CommentView>) -> Seq<DocView> {
    if cmts.len() == 0 {
        Seq::empty()
    } else {
        seq![DocView::Hardline] + interior_parts(cmts, 0)
    }
}

/// An element with its comments: those on lines of their own before it,
/// those that trail it as line suffixes, and (for the last) those on lines
/// of their own after it. With any, the list breaks, so that each comment
/// keeps its place among the elements' lines.
pub open spec fn element_doc(
    lead: Seq<CommentView>,
    d: DocView,
    tr: Seq<CommentView>,
    after: Seq<CommentView>,
) -> DocView {
    if lead.len() == 0 && tr.len() == 0 && after.len() == 0 {
        d
    } else {
        mk_concat(
            lead_parts(lead) + seq![d] + suffix_parts(tr, 0) + after_parts(after) + seq![
                DocView::BreakParent,
            ],
        )
    }
}

/// Formats the elements `ns[i..]` of a list, each with its comments; the
/// list opens at `open` and closes at `close`.
pub open spec fn fmt_elems(
    ns: Seq<Node>,
    i: int,
    open: Option<Loc>,
    close: int,
    src: Seq<u8>,
    cs: Seq<CommentView>,
    tk: Seq<bool>,
) -> (Seq<DocView>, Seq<bool>)
    decreases ns, ns.len() - i,
{
    if i < 0 || i >= ns.len() {
        (Seq::empty(), tk)
    } else {
        let n = cs.len() as int;
        let code_end = ns[i].loc.end as int;
        let (lead, t0) = take_between(cs, tk, elem_gap_start(ns, i, open), ns[i].loc.start as int, n);
        let (d, t1) = fmt_node(ns[i], src, cs, t0);
        let (tr, t2) = take_between(cs, t1, code_end, elem_comment_end(ns, i, close, src), n);
        let (after, t3) = if i == ns.len() - 1 {
            take_between(cs, t2, code_end, close, n)
        } else {
            (Seq::empty(), t2)
        };
        let (rest, t4) = fmt_elems(ns, i + 1, open, close, src, cs, t3);
        (seq![element_doc(lead, d, tr, after)] + rest, t4)
    }
}

/// Formats an optional list of elements.
pub open spec fn fmt_opt_elems(
    o: Option<Vec<Node>>,
    open: Option<Loc>,
    close: int,
    src: Seq<u8>,
    cs: Seq<CommentView>,
    tk: Seq<bool>,
) -> (Option<Seq<DocView>>, Seq<bool>)
    decreases o, 0int,
{
    match o {
        Some(v) => {
            let (ds, t) = fmt_elems(v@, 0, open, close, src, cs, tk);
            (Some(ds), t)
        },
        None => (None, tk),
    }
}

/// The statements of an optional list, one level in (nothing if absent).
pub open spec fn fmt_opt_block_body(
    o: Option<Stmts>,
    src: Seq<u8>,
    cs: Seq<CommentView>,
    tk: Seq<bool>,
) -> (Seq<DocView>, Seq<bool>)
    decreases o, 0int,
{
    match o {
        Some(st) => {
            let (d, t) = fmt_stmts(st.body@, src, cs, tk);
            (seq![indent_body(d)], t)
        },
        None => (Seq::empty(), tk),
    }
}

/// A list of statements: separated by hard lines, blank lines kept, the
/// comments between them woven in.
pub open spec fn fmt_stmts(body: Seq<Node>, src: Seq<u8>, cs: Seq<CommentView>, tk: Seq<bool>) -> (
    DocView,
    Seq<bool>,
)
    decreases body, body.len() + 1,
{
    if body.len() == 0 {
        (DocView::Empty, tk)
    } else {
        let (parts, t) = stmts_from(body, 0, Seq::empty(), src, cs, tk);
        (mk_concat(parts), t)
    }
}

/// The parts of a statement list from statement `i` on, after `parts`.
pub open spec fn stmts_from(
    body: Seq<Node>,
    i: int,
    parts: Seq<DocView>,
    src: Seq<u8>,
    cs: Seq<CommentView>,
    tk: Seq<bool>,
) -> (Seq<DocView>, Seq<bool>)
    decreases body, body.len() - i,
{
    if i < 0 || i >= body.len() {
        (parts, tk)
    } else {
        let has_pred = i > 0;
        let gap_start: int = if i > 0 {
            body[i - 1].loc.end as int
        } else {
            0
        };
        let gap_end = body[i].loc.start as int;
        let (cmts, t1) = take_between(cs, tk, gap_start, gap_end, cs.len() as int);
        let p1 = gap_comment_parts(cmts, 0, parts, has_pred, gap_start, src);
        let p2 = if i > 0 || cmts.len() > 0 {
            if has_pred && cmts.len() == 0 {
                p1 + line_gap(newline_count(src.subrange(gap_start, gap_end)))
            } else {
                p1 + line_gap(newline_count(src.subrange(cmts.last().end as int, gap_end)))
            }
        } else {
            p1
        };
        let (d, t2) = fmt_node(body[i], src, cs, t1);
        let p3 = p2.push(d);
        let (p4, t3) = if i == body.len() - 1 {
            let code_end = body[i].loc.end as int;
            let (tr, t) = take_between(cs, t2, code_end, line_end(src, code_end), cs.len() as int);
            (p3 + suffix_parts(tr, 0), t)
        } else {
            (p3, t2)
        };
        stmts_from(body, i + 1, p4, src, cs, t3)
    }
}

/// The body of a class, module, method or block.
pub open spec fn fmt_body(n: Node, src: Seq<u8>, cs: Seq<CommentView>, tk: Seq<bool>) -> (
    DocView,
    Seq<bool>,
)
    decreases n, 3int,
{
    match n.kind {
        NodeKind::Statements { body } => fmt_stmts(body@, src, cs, tk),
        NodeKind::Begin { .. } => fmt_implicit_begin(n, src, cs, tk),
        _ => fmt_node(n, src, cs, tk),
    }
}

/// A `begin` without the keyword, as the body of a definition.
pub open spec fn fmt_implicit_begin(n: Node, src: Seq<u8>, cs: Seq<CommentView>, tk: Seq<bool>) -> (
    DocView,
    Seq<bool>,
)
    decreases n, 1int,
{
    match n.kind {
        NodeKind::Begin { statements, rescue_clause, else_clause, ensure_clause, .. } => {
            let (p0, t0) = match statements {
                Some(st) => {
                    let (d, t) = fmt_stmts(st.body@, src, cs, tk);
                    (seq![d], t)
                },
                None => (Seq::empty(), tk),
            };
            let (p1, t1) = match rescue_clause {
                Some(r) => {
                    let (d, t) = fmt_rescue_chain(r, src, cs, t0);
                    (seq![DocView::Hardline, d], t)
                },
                None => (Seq::empty(), t0),
            };
            let (e, t2) = fmt_opt(else_clause, src, cs, t1);
            let (en, t3) = fmt_opt(ensure_clause, src, cs, t2);
            let p2 = match e {
                Some(d) => seq![DocView::Hardline, d],
                None => Seq::empty(),
            };
            let p3 = match en {
                Some(d) => seq![DocView::Hardline, d],
                None => Seq::empty(),
            };
            (mk_concat(p0 + p1 + p2 + p3), t3)
        },
        _ => (DocView::Empty, tk),
    }
}

/// A chain of rescue clauses.
pub open spec fn fmt_rescue_chain(r: Rescue, src: Seq<u8>, cs: Seq<CommentView>, tk: Seq<bool>) -> (
    DocView,
    Seq<bool>,
)
    decreases r, 1int,
{
    let (d, t1) = fmt_rescue(r, src, cs, tk);
    match r.subsequent {
        Some(b) => {
            let (d2, t2) = fmt_rescue_chain(*b, src, cs, t1);
            (mk_concat(seq![d, DocView::Hardline, d2]), t2)
        },
        None => (mk_concat(seq![d]), t1),
    }
}

/// A single rescue clause.
pub open spec fn fmt_rescue(r: Rescue, src: Seq<u8>, cs: Seq<CommentView>, tk: Seq<bool>) -> (
    DocView,
    Seq<bool>,
)
    decreases r, 0int,
{
    let (exs, t1) = fmt_nodes(r.exceptions@, 0, src, cs, tk);
    let p1 = if exs.len() > 0 {
        seq![tx(" "@), comma_list(exs)]
    } else {
        Seq::empty()
    };
    let (rf, t2) = fmt_opt(r.reference, src, cs, t1);
    let p2 = match rf {
        Some(d) => seq![tx(" => "@), d],
        None => Seq::empty(),
    };
    let (p3, t3) = fmt_opt_block_body(r.statements, src, cs, t2);
    (mk_concat(seq![tx("rescue"@)] + p1 + p2 + p3), t3)
}

/// The documents of a parameter list, in declaration order.
pub open spec fn fmt_params(p: Params, src: Seq<u8>, cs: Seq<CommentView>, tk: Seq<bool>) -> (
    Seq<DocView>,
    Seq<bool>,
)
    decreases p, 0int,
{
    let (a, t1) = fmt_nodes(p.requireds@, 0, src, cs, tk);
    let (b, t2) = fmt_nodes(p.optionals@, 0, src, cs, t1);
    let (c, t3) = fmt_opt(p.rest, src, cs, t2);
    let (d, t4) = fmt_nodes(p.posts@, 0, src, cs, t3);
    let (e, t5) = fmt_nodes(p.keywords@, 0, src, cs, t4);
    let (f, t6) = fmt_opt(p.keyword_rest, src, cs, t5);
    let (g, t7) = fmt_opt(p.block, src, cs, t6);
    (a + b + opt_seq(c) + d + e + opt_seq(f) + opt_seq(g), t7)
}

/// `d` after `pre` if present.
pub open spec fn opt_after(pre: DocView, d: Option<DocView>) -> Seq<DocView> {
    match d {
        Some(x) => seq![pre, x],
        None => Seq::empty(),
    }
}

/// `prefix child` or `prefix` alone.
pub open spec fn prefixed(prefix: DocView, d: Option<DocView>) -> DocView {
    match d {
        Some(x) => mk_concat(seq![prefix, x]),
        None => prefix,
    }
}

/// The keyword of a loop in block form, with its space.
pub open spec fn loop_head(k: LoopKeyword) -> Seq<char> {
    match k {
        LoopKeyword::While => "while "@,
        LoopKeyword::Until => "until "@,
    }
}

/// The keyword of a loop in modifier form, with its spaces.
pub open spec fn loop_modifier(k: LoopKeyword) -> Seq<char> {
    match k {
        LoopKeyword::While => " while "@,
        LoopKeyword::Until => " until "@,
    }
}

/// The keyword text of a jump.
pub open spec fn jump_word(k: JumpKeyword) -> Seq<char> {
    match k {
        JumpKeyword::Return => "return"@,
        JumpKeyword::Break => "break"@,
        JumpKeyword::Next => "next"@,
    }
}

/// The text between the two sides of a joined node.
pub open spec fn joiner_text(j: Joiner) -> Seq<char> {
    match j {
        Joiner::In => " in "@,
        Joiner::Arrow => " => "@,
        Joiner::Pipe => " | "@,
        Joiner::Rescue => " rescue "@,
    }
}

/// The statements of an `else` branch of a ternary, if any.
pub open spec fn ternary_else(
    sub: Option<Box<Node>>,
    src: Seq<u8>,
    cs: Seq<CommentView>,
    tk: Seq<bool>,
) -> (DocView, Seq<bool>)
    decreases sub, 0int,
{
    match sub {
        Some(b) => match b.kind {
            NodeKind::Else { statements: Some(st) } => fmt_stmts(st.body@, src, cs, tk),
            _ => (DocView::Empty, tk),
        },
        None => (DocView::Empty, tk),
    }
}

/// Whether a statement list starts before `keyword` (modifier form).
pub open spec fn is_modifier_form(keyword: Loc, statements: Option<Stmts>) -> bool {
    match statements {
        Some(st) => keyword.start > st.loc.start,
        None => false,
    }
}

/// The comments left at the end of a pass, from `cmts[j..]`, each on a
/// line of its own.
pub open spec fn remaining_parts(cmts: Seq<CommentView>, j: int) -> Seq<DocView>
    decreases cmts.len() - j,
{
    if j < 0 || j >= cmts.len() {
        Seq::empty()
    } else {
        seq![DocView::Hardline, tx(trim_end_ws(cmts[j].text))] + remaining_parts(cmts, j + 1)
    }
}

/// The document of a whole program: its node, then the comments that no
/// node placed.
pub open spec fn program_doc(n: Node, src: Seq<u8>, cs: Seq<CommentView>) -> DocView {
    let (main, t1) = fmt_node(n, src, cs, Seq::new(cs.len(), |i: int| false));
    let (rem, t2) = take_all(cs, t1, cs.len() as int);
    if rem.len() == 0 {
        main
    } else {
        mk_concat(seq![main] + remaining_parts(rem, 0))
    }
}

/// The document of a syntax node.
pub open spec fn fmt_node(n: Node, src: Seq<u8>, cs: Seq<CommentView>, tk: Seq<bool>) -> (
    DocView,
    Seq<bool>,
)
    decreases n, 2int,
{
    match n.kind {
        NodeKind::Source => fmt_leaf_node(n, src, cs, tk),
        NodeKind::Program { .. } => fmt_program_node(n, src, cs, tk),
        NodeKind::Statements { .. } => fmt_statements_node(n, src, cs, tk),
        NodeKind::NameWrite { .. } => fmt_name_write_node(n, src, cs, tk),
        NodeKind::TargetWrite { .. } => fmt_target_write_node(n, src, cs, tk),
        NodeKind::ConstantPath { .. } => fmt_constant_path_node(n, src, cs, tk),
        NodeKind::Str { .. } => fmt_str_node(n, src, cs, tk),
        NodeKind::InterpolatedStr { .. } => fmt_interpolated_str_node(n, src, cs, tk),
        NodeKind::XStr { .. } => fmt_x_str_node(n, src, cs, tk),
        NodeKind::InterpolatedXStr { .. } => fmt_interpolated_x_str_node(n, src, cs, tk),
        NodeKind::EmbeddedStatements { .. } => fmt_embedded_statements_node(n, src, cs, tk),
        NodeKind::EmbeddedVariable { .. } => fmt_embedded_variable_node(n, src, cs, tk),
        NodeKind::Array { .. } => fmt_array_node(n, src, cs, tk),
        NodeKind::Hash { .. } => fmt_hash_node(n, src, cs, tk),
        NodeKind::KeywordHash { .. } => fmt_keyword_hash_node(n, src, cs, tk),
        NodeKind::Assoc { .. } => fmt_assoc_node(n, src, cs, tk),
        NodeKind::Splat { .. } => fmt_splat_node(n, src, cs, tk),
        NodeKind::BlockArgument { .. } => fmt_block_argument_node(n, src, cs, tk),
        NodeKind::Range { .. } => fmt_range_node(n, src, cs, tk),
        NodeKind::Def { .. } => fmt_def_node(n, src, cs, tk),
        NodeKind::Class { .. } => fmt_class_node(n, src, cs, tk),
        NodeKind::Module { .. } => fmt_module_node(n, src, cs, tk),
        NodeKind::SingletonClass { .. } => fmt_singleton_class_node(n, src, cs, tk),
        NodeKind::Call(c) => fmt_call(c, src, cs, tk),
        NodeKind::CallWrite { .. } => fmt_call_write_node(n, src, cs, tk),
        NodeKind::CallTarget { .. } => fmt_call_target_node(n, src, cs, tk),
        NodeKind::IndexWrite { .. } => fmt_index_write_node(n, src, cs, tk),
        NodeKind::IndexTarget { .. } => fmt_index_target_node(n, src, cs, tk),
        NodeKind::Arguments { .. } => fmt_arguments_node(n, src, cs, tk),
        NodeKind::Block { .. } => fmt_block(n, src, cs, tk),
        NodeKind::Lambda { .. } => fmt_lambda_node(n, src, cs, tk),
        NodeKind::BlockParameters { .. } => fmt_block_parameters_node(n, src, cs, tk),
        NodeKind::Name { .. } => fmt_leaf_node(n, src, cs, tk),
        NodeKind::OptionalParameter { .. } => fmt_optional_parameter_node(n, src, cs, tk),
        NodeKind::PrefixedName { .. } => fmt_leaf_node(n, src, cs, tk),
        NodeKind::RequiredKeyword { .. } => fmt_leaf_node(n, src, cs, tk),
        NodeKind::OptionalKeyword { .. } => fmt_optional_keyword_node(n, src, cs, tk),
        NodeKind::NoKeywords => fmt_leaf_node(n, src, cs, tk),
        NodeKind::Nothing => fmt_leaf_node(n, src, cs, tk),
        NodeKind::If { .. } => fmt_if_node(n, src, cs, tk),
        NodeKind::Unless { .. } => fmt_unless_node(n, src, cs, tk),
        NodeKind::Else { .. } => fmt_else_node(n, src, cs, tk),
        NodeKind::Case { .. } => fmt_case_node(n, src, cs, tk),
        NodeKind::When { .. } => fmt_when_node(n, src, cs, tk),
        NodeKind::In { .. } => fmt_in_node(n, src, cs, tk),
        NodeKind::Loop { .. } => fmt_loop_node(n, src, cs, tk),
        NodeKind::For { .. } => fmt_for_node(n, src, cs, tk),
        NodeKind::Logical { .. } => fmt_logical_node(n, src, cs, tk),
        NodeKind::Parentheses { .. } => fmt_parentheses_node(n, src, cs, tk),
        NodeKind::Begin { .. } => fmt_begin_node(n, src, cs, tk),
        NodeKind::RescueClause(r) => fmt_rescue(r, src, cs, tk),
        NodeKind::Ensure { .. } => fmt_ensure_node(n, src, cs, tk),
        NodeKind::Joined { .. } => fmt_joined_node(n, src, cs, tk),
        NodeKind::Jump { .. } => fmt_jump_node(n, src, cs, tk),
        NodeKind::Yield { .. } => fmt_yield_node(n, src, cs, tk),
        NodeKind::Super { .. } => fmt_super_node(n, src, cs, tk),
        NodeKind::ForwardingSuper { .. } => fmt_forwarding_super_node(n, src, cs, tk),
        NodeKind::MultiWrite { .. } => fmt_multi_write_node(n, src, cs, tk),
        NodeKind::MultiTarget { .. } => fmt_multi_target_node(n, src, cs, tk),
        NodeKind::Alias { .. } => fmt_alias_node(n, src, cs, tk),
        NodeKind::Undef { .. } => fmt_undef_node(n, src, cs, tk),
        NodeKind::Defined { .. } => fmt_defined_node(n, src, cs, tk),
        NodeKind::PinnedExpression { .. } => fmt_pinned_expression_node(n, src, cs, tk),
        NodeKind::PinnedVariable { .. } => fmt_pinned_variable_node(n, src, cs, tk),
        NodeKind::Hook { .. } => fmt_hook_node(n, src, cs, tk),
        NodeKind::Transparent { inner } => fmt_node(*inner, src, cs, tk),
    }
}

/// Names, parameters printed as written and nodes printed as their source.
pub open spec fn fmt_leaf_node(n: Node, src: Seq<u8>, cs: Seq<CommentView>, tk: Seq<bool>) -> (
    DocView,
    Seq<bool>,
)
    decreases n, 1int,
{
    match n.kind {
        NodeKind::Source => (loc_tx(src, n.loc), tk),
        NodeKind::Name { name } => (tx(utf8_lossy(name@)), tk),
        NodeKind::PrefixedName { operator, name } => match name {
            Some(x) => (mk_concat(seq![loc_tx(src, operator), tx(utf8_lossy(x@))]), tk),
            None => (loc_tx(src, operator), tk),
        },
        NodeKind::RequiredKeyword { name } => (tx(utf8_lossy(name@) + ":"@), tk),
        NodeKind::NoKeywords => (tx("**nil"@), tk),
        NodeKind::Nothing => (DocView::Empty, tk),
        _ => (DocView::Empty, tk),
    }
}

/// The document of a `Program` node.
pub open spec fn fmt_program_node(n: Node, src: Seq<u8>, cs: Seq<CommentView>, tk: Seq<bool>) -> (
    DocView,
    Seq<bool>,
)
    decreases n, 1int,
{
    match n.kind {
        NodeKind::Program { statements } => fmt_stmts(statements.body@, src, cs, tk),
        _ => (DocView::Empty, tk),
    }
}

/// The document of a `Statements` node.
pub open spec fn fmt_statements_node(n: Node, src: Seq<u8>, cs: Seq<CommentView>, tk: Seq<bool>) -> (
    DocView,
    Seq<bool>,
)
    decreases n, 1int,
{
    match n.kind {
        NodeKind::Statements { body } => fmt_stmts(body@, src, cs, tk),
        _ => (DocView::Empty, tk),
    }
}

/// The document of a `NameWrite` node.
pub open spec fn fmt_name_write_node(n: Node, src: Seq<u8>, cs: Seq<CommentView>, tk: Seq<bool>) -> (
    DocView,
    Seq<bool>,
)
    decreases n, 1int,
{
    match n.kind {
        NodeKind::NameWrite { name, operator, value } => {
            let (v, t) = fmt_node(*value, src, cs, tk);
            (mk_concat(seq![loc_tx(src, name), tx(" "@), loc_tx(src, operator), tx(" "@), v]), t)
        },
        _ => (DocView::Empty, tk),
    }
}

/// The document of a `TargetWrite` node.
pub open spec fn fmt_target_write_node(n: Node, src: Seq<u8>, cs: Seq<CommentView>, tk: Seq<bool>) -> (
    DocView,
    Seq<bool>,
)
    decreases n, 1int,
{
    match n.kind {
        NodeKind::TargetWrite { target, operator, value } => {
            let (a, t1) = fmt_node(*target, src, cs, tk);
            let (v, t2) = fmt_node(*value, src, cs, t1);
            (mk_concat(seq![a, tx(" "@), loc_tx(src, operator), tx(" "@), v]), t2)
        },
        _ => (DocView::Empty, tk),
    }
}

/// The document of a `ConstantPath` node.
pub open spec fn fmt_constant_path_node(n: Node, src: Seq<u8>, cs: Seq<CommentView>, tk: Seq<bool>) -> (
    DocView,
    Seq<bool>,
)
    decreases n, 1int,
{
    match n.kind {
        NodeKind::ConstantPath { parent, delimiter, name } => {
            let (pd, t) = fmt_opt(parent, src, cs, tk);
            let nm = match name {
                Some(x) => seq![tx(utf8_lossy(x@))],
                None => Seq::empty(),
            };
            (mk_concat(opt_seq(pd) + seq![loc_tx(src, delimiter)] + nm), t)
        },
        _ => (DocView::Empty, tk),
    }
}

/// The document of a `Str` node.
pub open spec fn fmt_str_node(n: Node, src: Seq<u8>, cs: Seq<CommentView>, tk: Seq<bool>) -> (
    DocView,
    Seq<bool>,
)
    decreases n, 1int,
{
    match n.kind {
        NodeKind::Str { opening, content, closing } => if is_heredoc(src, opening) {
            (heredoc_plain(src, opening.unwrap(), content, closing), tk)
        } else {
            (quoted_string(src, n.loc, opening, content), tk)
        },
        _ => (DocView::Empty, tk),
    }
}

/// The document of a `InterpolatedStr` node.
pub open spec fn fmt_interpolated_str_node(n: Node, src: Seq<u8>, cs: Seq<CommentView>, tk: Seq<bool>) -> (
    DocView,
    Seq<bool>,
)
    decreases n, 1int,
{
    match n.kind {
        NodeKind::InterpolatedStr { opening, parts, closing } => if is_heredoc(src, opening) {
            (heredoc_span(src, opening.unwrap(), closing.unwrap()), tk)
        } else {
            let o = match opening {
                Some(l) => seq![loc_tx(src, l)],
                None => Seq::empty(),
            };
            let (ps, t) = fmt_nodes(parts@, 0, src, cs, tk);
            let c = match closing {
                Some(l) => seq![loc_tx(src, l)],
                None => Seq::empty(),
            };
            (mk_concat(o + ps + c), t)
        },
        _ => (DocView::Empty, tk),
    }
}

/// The document of a `XStr` node.
pub open spec fn fmt_x_str_node(n: Node, src: Seq<u8>, cs: Seq<CommentView>, tk: Seq<bool>) -> (
    DocView,
    Seq<bool>,
)
    decreases n, 1int,
{
    match n.kind {
        NodeKind::XStr { opening, content, closing } => if is_heredoc(src, Some(opening)) {
            (heredoc_plain(src, opening, content, Some(closing)), tk)
        } else {
            (loc_tx(src, n.loc), tk)
        },
        _ => (DocView::Empty, tk),
    }
}

/// The document of a `InterpolatedXStr` node.
pub open spec fn fmt_interpolated_x_str_node(n: Node, src: Seq<u8>, cs: Seq<CommentView>, tk: Seq<bool>) -> (
    DocView,
    Seq<bool>,
)
    decreases n, 1int,
{
    match n.kind {
        NodeKind::InterpolatedXStr { opening, closing } => if is_heredoc(src, Some(opening)) {
            (heredoc_span(src, opening, closing), tk)
        } else {
            (loc_tx(src, n.loc), tk)
        },
        _ => (DocView::Empty, tk),
    }
}

/// The document of a `EmbeddedStatements` node.
pub open spec fn fmt_embedded_statements_node(n: Node, src: Seq<u8>, cs: Seq<CommentView>, tk: Seq<bool>) -> (
    DocView,
    Seq<bool>,
)
    decreases n, 1int,
{
    match n.kind {
        NodeKind::EmbeddedStatements { opening, statements, closing } => {
            let (b, t) = match statements {
                Some(st) => fmt_stmts(st.body@, src, cs, tk),
                None => (DocView::Empty, tk),
            };
            (mk_concat(seq![loc_tx(src, opening), b, loc_tx(src, closing)]), t)
        },
        _ => (DocView::Empty, tk),
    }
}

/// The document of a `EmbeddedVariable` node.
pub open spec fn fmt_embedded_variable_node(n: Node, src: Seq<u8>, cs: Seq<CommentView>, tk: Seq<bool>) -> (
    DocView,
    Seq<bool>,
)
    decreases n, 1int,
{
    match n.kind {
        NodeKind::EmbeddedVariable { operator, variable } => {
            let (v, t) = fmt_node(*variable, src, cs, tk);
            (mk_concat(seq![loc_tx(src, operator), v]), t)
        },
        _ => (DocView::Empty, tk),
    }
}

/// The document of a `Array` node.
pub open spec fn fmt_array_node(n: Node, src: Seq<u8>, cs: Seq<CommentView>, tk: Seq<bool>) -> (
    DocView,
    Seq<bool>,
)
    decreases n, 1int,
{
    match n.kind {
        NodeKind::Array { opening, elements, closing } => {
            let word_list = match opening {
                Some(o) => is_word_array_opening(loc_text(src, o)),
                None => false,
            };
            if word_list {
                let close = match closing {
                    Some(c) => loc_text(src, c),
                    None => "]"@,
                };
                (
                    tx(loc_text(src, opening.unwrap()) + join_spaced(word_texts(src, elements@), 0)
                        + close),
                    tk,
                )
            } else {
                let (es, t) = fmt_elems(elements@, 0, opening, opt_start(closing), src, cs, tk);
                let open = match opening {
                    Some(o) => loc_text(src, o),
                    None => "["@,
                };
                if es.len() == 0 {
                    (
                        tx(
                            match opening {
                                Some(o) => loc_text(src, o),
                                None => "[]"@,
                            },
                        ),
                        t,
                    )
                } else {
                    let close = match closing {
                        Some(c) => loc_text(src, c),
                        None => "]"@,
                    };
                    (bracket_body(open, close, es), t)
                }
            }
        },
        _ => (DocView::Empty, tk),
    }
}

/// The document of a `Hash` node.
pub open spec fn fmt_hash_node(n: Node, src: Seq<u8>, cs: Seq<CommentView>, tk: Seq<bool>) -> (
    DocView,
    Seq<bool>,
)
    decreases n, 1int,
{
    match n.kind {
        NodeKind::Hash { opening, elements, closing } => {
            let (es, t) = fmt_elems(elements@, 0, Some(opening), closing.start as int, src, cs, tk);
            if es.len() == 0 {
                (mk_concat(seq![loc_tx(src, opening), loc_tx(src, closing)]), t)
            } else {
                (bracket_body(loc_text(src, opening), loc_text(src, closing), es), t)
            }
        },
        _ => (DocView::Empty, tk),
    }
}

/// The document of a `KeywordHash` node.
pub open spec fn fmt_keyword_hash_node(n: Node, src: Seq<u8>, cs: Seq<CommentView>, tk: Seq<bool>) -> (
    DocView,
    Seq<bool>,
)
    decreases n, 1int,
{
    match n.kind {
        NodeKind::KeywordHash { elements } => {
            let (es, t) = fmt_elems(elements@, 0, None, 0, src, cs, tk);
            (comma_list(es), t)
        },
        _ => (DocView::Empty, tk),
    }
}

/// The document of a `Assoc` node.
pub open spec fn fmt_assoc_node(n: Node, src: Seq<u8>, cs: Seq<CommentView>, tk: Seq<bool>) -> (
    DocView,
    Seq<bool>,
)
    decreases n, 1int,
{
    match n.kind {
        NodeKind::Assoc { key, operator, value } => {
            let (k, t1) = fmt_node(*key, src, cs, tk);
            let (v, t2) = fmt_node(*value, src, cs, t1);
            match operator {
                Some(op) => (mk_concat(seq![k, tx(" "@), loc_tx(src, op), tx(" "@), v]), t2),
                None => (mk_concat(seq![k, tx(" "@), v]), t2),
            }
        },
        _ => (DocView::Empty, tk),
    }
}

/// The document of a `Splat` node.
pub open spec fn fmt_splat_node(n: Node, src: Seq<u8>, cs: Seq<CommentView>, tk: Seq<bool>) -> (
    DocView,
    Seq<bool>,
)
    decreases n, 1int,
{
    match n.kind {
        NodeKind::Splat { operator, expression } => {
            let (e, t) = fmt_opt(expression, src, cs, tk);
            (prefixed(loc_tx(src, operator), e), t)
        },
        _ => (DocView::Empty, tk),
    }
}

/// The document of a `BlockArgument` node.
pub open spec fn fmt_block_argument_node(n: Node, src: Seq<u8>, cs: Seq<CommentView>, tk: Seq<bool>) -> (
    DocView,
    Seq<bool>,
)
    decreases n, 1int,
{
    match n.kind {
        NodeKind::BlockArgument { operator, expression } => {
            let (e, t) = fmt_opt(expression, src, cs, tk);
            (prefixed(loc_tx(src, operator), e), t)
        },
        _ => (DocView::Empty, tk),
    }
}

/// The document of a `Range` node.
pub open spec fn fmt_range_node(n: Node, src: Seq<u8>, cs: Seq<CommentView>, tk: Seq<bool>) -> (
    DocView,
    Seq<bool>,
)
    decreases n, 1int,
{
    match n.kind {
        NodeKind::Range { left, operator, right } => {
            let (l, t1) = fmt_opt(left, src, cs, tk);
            let (r, t2) = fmt_opt(right, src, cs, t1);
            (mk_concat(opt_seq(l) + seq![loc_tx(src, operator)] + opt_seq(r)), t2)
        },
        _ => (DocView::Empty, tk),
    }
}

/// The document of a `Def` node.
pub open spec fn fmt_def_node(n: Node, src: Seq<u8>, cs: Seq<CommentView>, tk: Seq<bool>) -> (
    DocView,
    Seq<bool>,
)
    decreases n, 1int,
{
    match n.kind {
        NodeKind::Def {
            receiver,
            operator,
            name,
            name_loc,
            parameters,
            lparen,
            rparen,
            equal,
            body,
            end_keyword,
        } => {
            let (rv, t1) = fmt_opt(receiver, src, cs, tk);
            let p_recv = match rv {
                Some(d) => seq![tx(" "@), d] + match operator {
                    Some(op) => seq![loc_tx(src, op)],
                    None => Seq::empty(),
                },
                None => seq![tx(" "@)],
            };
            let (p_params, t2) = match parameters {
                Some(ps) => {
                    let (pd, t) = fmt_params(ps, src, cs, t1);
                    if lparen is Some {
                        (seq![paren_args(pd)], t)
                    } else {
                        (seq![tx(" "@), comma_list(pd)], t)
                    }
                },
                None => if lparen is Some {
                    (seq![tx("()"@)], t1)
                } else {
                    (Seq::empty(), t1)
                },
            };
            let head = seq![tx("def"@)] + p_recv + seq![tx(utf8_lossy(name@))] + p_params;
            match equal {
                Some(eq) => {
                    let (bd, t3) = fmt_opt(body, src, cs, t2);
                    (mk_concat(head + seq![tx(" "@), loc_tx(src, eq)] + opt_after(tx(" "@), bd)), t3)
                },
                None => {
                    let (p_body, t3) = match body {
                        Some(b) => {
                            let (d, t) = fmt_body(*b, src, cs, t2);
                            (seq![indent_body(d)], t)
                        },
                        None => match end_keyword {
                            Some(ek) => {
                                let body_start: int = match (if lparen is Some {
                                    rparen
                                } else {
                                    None
                                }) {
                                    Some(r) => r.end as int,
                                    None => match parameters {
                                        Some(ps) => ps.loc.end as int,
                                        None => name_loc.end as int,
                                    },
                                };
                                let (interior, t) = interior_comments(
                                    cs,
                                    t2,
                                    body_start,
                                    ek.start as int,
                                );
                                if interior is Empty {
                                    (Seq::empty(), t)
                                } else {
                                    (seq![indent_body(interior)], t)
                                }
                            },
                            None => (Seq::empty(), t2),
                        },
                    };
                    (mk_concat(head + p_body + seq![DocView::Hardline, tx("end"@)]), t3)
                },
            }
        },
        _ => (DocView::Empty, tk),
    }
}

/// The document of a `Class` node.
pub open spec fn fmt_class_node(n: Node, src: Seq<u8>, cs: Seq<CommentView>, tk: Seq<bool>) -> (
    DocView,
    Seq<bool>,
)
    decreases n, 1int,
{
    match n.kind {
        NodeKind::Class { constant_path, superclass, body } => {
            let (c, t1) = fmt_node(*constant_path, src, cs, tk);
            let (sp, t2) = fmt_opt(superclass, src, cs, t1);
            let (bd, t3) = match body {
                Some(b) => {
                    let (d, t) = fmt_body(*b, src, cs, t2);
                    (seq![indent_body(d)], t)
                },
                None => (Seq::empty(), t2),
            };
            (
                mk_concat(
                    seq![tx("class "@), c] + opt_after(tx(" < "@), sp) + bd + seq![
                        DocView::Hardline,
                        tx("end"@),
                    ],
                ),
                t3,
            )
        },
        _ => (DocView::Empty, tk),
    }
}

/// The document of a `Module` node.
pub open spec fn fmt_module_node(n: Node, src: Seq<u8>, cs: Seq<CommentView>, tk: Seq<bool>) -> (
    DocView,
    Seq<bool>,
)
    decreases n, 1int,
{
    match n.kind {
        NodeKind::Module { constant_path, body } => {
            let (c, t1) = fmt_node(*constant_path, src, cs, tk);
            let (bd, t2) = match body {
                Some(b) => {
                    let (d, t) = fmt_body(*b, src, cs, t1);
                    (seq![indent_body(d)], t)
                },
                None => (Seq::empty(), t1),
            };
            (mk_concat(seq![tx("module "@), c] + bd + seq![DocView::Hardline, tx("end"@)]), t2)
        },
        _ => (DocView::Empty, tk),
    }
}

/// The document of a `SingletonClass` node.
pub open spec fn fmt_singleton_class_node(n: Node, src: Seq<u8>, cs: Seq<CommentView>, tk: Seq<bool>) -> (
    DocView,
    Seq<bool>,
)
    decreases n, 1int,
{
    match n.kind {
        NodeKind::SingletonClass { operator, expression, body } => {
            let (e, t1) = fmt_node(*expression, src, cs, tk);
            let (bd, t2) = match body {
                Some(b) => {
                    let (d, t) = fmt_body(*b, src, cs, t1);
                    (seq![indent_body(d)], t)
                },
                None => (Seq::empty(), t1),
            };
            (
                mk_concat(
                    seq![tx("class "@), loc_tx(src, operator), tx(" "@), e] + bd + seq![
                        DocView::Hardline,
                        tx("end"@),
                    ],
                ),
                t2,
            )
        },
        _ => (DocView::Empty, tk),
    }
}

/// The document of a `CallWrite` node.
pub open spec fn fmt_call_write_node(n: Node, src: Seq<u8>, cs: Seq<CommentView>, tk: Seq<bool>) -> (
    DocView,
    Seq<bool>,
)
    decreases n, 1int,
{
    match n.kind {
        NodeKind::CallWrite { receiver, call_operator, message, operator, value } => {
            let (rv, t1) = fmt_opt(receiver, src, cs, tk);
            let p_recv = match rv {
                Some(d) => seq![d] + match call_operator {
                    Some(op) => seq![loc_tx(src, op)],
                    None => Seq::empty(),
                },
                None => Seq::empty(),
            };
            let p_msg = match message {
                Some(m) => seq![loc_tx(src, m)],
                None => Seq::empty(),
            };
            let (v, t2) = fmt_node(*value, src, cs, t1);
            (
                mk_concat(
                    p_recv + p_msg + seq![tx(" "@), loc_tx(src, operator), tx(" "@), v],
                ),
                t2,
            )
        },
        _ => (DocView::Empty, tk),
    }
}

/// The document of a `CallTarget` node.
pub open spec fn fmt_call_target_node(n: Node, src: Seq<u8>, cs: Seq<CommentView>, tk: Seq<bool>) -> (
    DocView,
    Seq<bool>,
)
    decreases n, 1int,
{
    match n.kind {
        NodeKind::CallTarget { receiver, call_operator, name } => {
            let (r, t) = fmt_node(*receiver, src, cs, tk);
            (mk_concat(seq![r, loc_tx(src, call_operator), tx(utf8_lossy(name@))]), t)
        },
        _ => (DocView::Empty, tk),
    }
}

/// The document of a `IndexWrite` node.
pub open spec fn fmt_index_write_node(n: Node, src: Seq<u8>, cs: Seq<CommentView>, tk: Seq<bool>) -> (
    DocView,
    Seq<bool>,
)
    decreases n, 1int,
{
    match n.kind {
        NodeKind::IndexWrite { receiver, opening, arguments, closing, operator, value } => {
            let (rv, t1) = fmt_opt(receiver, src, cs, tk);
            let (args, t2) = fmt_opt_nodes(arguments, src, cs, t1);
            let p_args = match args {
                Some(ds) => seq![comma_list(ds)],
                None => Seq::empty(),
            };
            let (v, t3) = fmt_node(*value, src, cs, t2);
            (
                mk_concat(
                    opt_seq(rv) + seq![loc_tx(src, opening)] + p_args + seq![
                        loc_tx(src, closing),
                        tx(" "@),
                        loc_tx(src, operator),
                        tx(" "@),
                        v,
                    ],
                ),
                t3,
            )
        },
        _ => (DocView::Empty, tk),
    }
}

/// The document of a `IndexTarget` node.
pub open spec fn fmt_index_target_node(n: Node, src: Seq<u8>, cs: Seq<CommentView>, tk: Seq<bool>) -> (
    DocView,
    Seq<bool>,
)
    decreases n, 1int,
{
    match n.kind {
        NodeKind::IndexTarget { receiver, opening, arguments, closing } => {
            let (r, t1) = fmt_node(*receiver, src, cs, tk);
            let (args, t2) = fmt_opt_nodes(arguments, src, cs, t1);
            let p_args = match args {
                Some(ds) => seq![comma_list(ds)],
                None => Seq::empty(),
            };
            (mk_concat(seq![r, loc_tx(src, opening)] + p_args + seq![loc_tx(src, closing)]), t2)
        },
        _ => (DocView::Empty, tk),
    }
}

/// The document of a `Arguments` node.
pub open spec fn fmt_arguments_node(n: Node, src: Seq<u8>, cs: Seq<CommentView>, tk: Seq<bool>) -> (
    DocView,
    Seq<bool>,
)
    decreases n, 1int,
{
    match n.kind {
        NodeKind::Arguments { arguments } => {
            let (ds, t) = fmt_nodes(arguments@, 0, src, cs, tk);
            (comma_list(ds), t)
        },
        _ => (DocView::Empty, tk),
    }
}

/// The document of a `Lambda` node.
pub open spec fn fmt_lambda_node(n: Node, src: Seq<u8>, cs: Seq<CommentView>, tk: Seq<bool>) -> (
    DocView,
    Seq<bool>,
)
    decreases n, 1int,
{
    match n.kind {
        NodeKind::Lambda { opening, closing, parameters, body } => {
            let (pd, t1) = fmt_opt(parameters, src, cs, tk);
            let (bd, t2) = match body {
                Some(b) => {
                    let (d, t) = fmt_body(*b, src, cs, t1);
                    (seq![indent_body(d), DocView::Hardline], t)
                },
                None => (Seq::empty(), t1),
            };
            (
                mk_concat(
                    seq![tx("->"@)] + opt_seq(pd) + seq![tx(" "@), loc_tx(src, opening)] + bd
                        + seq![loc_tx(src, closing)],
                ),
                t2,
            )
        },
        _ => (DocView::Empty, tk),
    }
}

/// The document of a `BlockParameters` node.
pub open spec fn fmt_block_parameters_node(n: Node, src: Seq<u8>, cs: Seq<CommentView>, tk: Seq<bool>) -> (
    DocView,
    Seq<bool>,
)
    decreases n, 1int,
{
    match n.kind {
        NodeKind::BlockParameters { opening, parameters, locals, closing } => {
            let o = match opening {
                Some(l) => seq![loc_tx(src, l)],
                None => Seq::empty(),
            };
            let (inner1, t1) = match parameters {
                Some(ps) => {
                    let (pd, t) = fmt_params(ps, src, cs, tk);
                    (seq![comma_list(pd)], t)
                },
                None => (Seq::empty(), tk),
            };
            let (ls, t2) = fmt_nodes(locals@, 0, src, cs, t1);
            let inner = if ls.len() > 0 {
                inner1 + seq![tx("; "@), comma_list(ls)]
            } else {
                inner1
            };
            let g = if inner.len() > 0 {
                seq![DocView::Group(Box::new(mk_concat(inner)))]
            } else {
                Seq::empty()
            };
            let c = match closing {
                Some(l) => seq![loc_tx(src, l)],
                None => Seq::empty(),
            };
            (mk_concat(o + g + c), t2)
        },
        _ => (DocView::Empty, tk),
    }
}

/// The document of a `OptionalParameter` node.
pub open spec fn fmt_optional_parameter_node(n: Node, src: Seq<u8>, cs: Seq<CommentView>, tk: Seq<bool>) -> (
    DocView,
    Seq<bool>,
)
    decreases n, 1int,
{
    match n.kind {
        NodeKind::OptionalParameter { name, value } => {
            let (v, t) = fmt_node(*value, src, cs, tk);
            (mk_concat(seq![tx(utf8_lossy(name@)), tx(" = "@), v]), t)
        },
        _ => (DocView::Empty, tk),
    }
}

/// The document of a `OptionalKeyword` node.
pub open spec fn fmt_optional_keyword_node(n: Node, src: Seq<u8>, cs: Seq<CommentView>, tk: Seq<bool>) -> (
    DocView,
    Seq<bool>,
)
    decreases n, 1int,
{
    match n.kind {
        NodeKind::OptionalKeyword { name, value } => {
            let (v, t) = fmt_node(*value, src, cs, tk);
            (mk_concat(seq![tx(utf8_lossy(name@) + ": "@), v]), t)
        },
        _ => (DocView::Empty, tk),
    }
}

/// The document of a `If` node.
pub open spec fn fmt_if_node(n: Node, src: Seq<u8>, cs: Seq<CommentView>, tk: Seq<bool>) -> (
    DocView,
    Seq<bool>,
)
    decreases n, 1int,
{
    match n.kind {
        NodeKind::If { if_keyword, predicate, statements, subsequent, end_keyword } => {
            if if_keyword is Some && is_modifier_form(if_keyword.unwrap(), statements) {
                let (b, t1) = fmt_stmts(statements.unwrap().body@, src, cs, tk);
                let (p, t2) = fmt_node(*predicate, src, cs, t1);
                (mk_concat(seq![b, tx(" if "@), p]), t2)
            } else if if_keyword is None {
                let (p, t1) = fmt_node(*predicate, src, cs, tk);
                let (th, t2) = match statements {
                    Some(st) => fmt_stmts(st.body@, src, cs, t1),
                    None => (DocView::Empty, t1),
                };
                let (el, t3) = ternary_else(subsequent, src, cs, t2);
                (mk_concat(seq![p, tx(" ? "@), th, tx(" : "@), el]), t3)
            } else {
                let kw = loc_text(src, if_keyword.unwrap());
                let (p, t1) = fmt_node(*predicate, src, cs, tk);
                let (bd, t2) = fmt_opt_block_body(statements, src, cs, t1);
                let (sb, t3) = fmt_opt(subsequent, src, cs, t2);
                let end = if kw != "elsif"@ && end_keyword is Some {
                    seq![DocView::Hardline, tx("end"@)]
                } else {
                    Seq::empty()
                };
                (
                    mk_concat(
                        seq![tx(kw), tx(" "@), p] + bd + opt_after(DocView::Hardline, sb) + end,
                    ),
                    t3,
                )
            }
        },
        _ => (DocView::Empty, tk),
    }
}

/// The document of a `Unless` node.
pub open spec fn fmt_unless_node(n: Node, src: Seq<u8>, cs: Seq<CommentView>, tk: Seq<bool>) -> (
    DocView,
    Seq<bool>,
)
    decreases n, 1int,
{
    match n.kind {
        NodeKind::Unless { keyword, predicate, statements, else_clause, end_keyword } => {
            if is_modifier_form(keyword, statements) {
                let (b, t1) = fmt_stmts(statements.unwrap().body@, src, cs, tk);
                let (p, t2) = fmt_node(*predicate, src, cs, t1);
                (mk_concat(seq![b, tx(" unless "@), p]), t2)
            } else {
                let (p, t1) = fmt_node(*predicate, src, cs, tk);
                let (bd, t2) = fmt_opt_block_body(statements, src, cs, t1);
                let (el, t3) = fmt_opt(else_clause, src, cs, t2);
                let end = if end_keyword is Some {
                    seq![DocView::Hardline, tx("end"@)]
                } else {
                    Seq::empty()
                };
                (
                    mk_concat(
                        seq![tx("unless "@), p] + bd + opt_after(DocView::Hardline, el) + end,
                    ),
                    t3,
                )
            }
        },
        _ => (DocView::Empty, tk),
    }
}

/// The document of a `Else` node.
pub open spec fn fmt_else_node(n: Node, src: Seq<u8>, cs: Seq<CommentView>, tk: Seq<bool>) -> (
    DocView,
    Seq<bool>,
)
    decreases n, 1int,
{
    match n.kind {
        NodeKind::Else { statements } => {
            let (bd, t) = fmt_opt_block_body(statements, src, cs, tk);
            (mk_concat(seq![tx("else"@)] + bd), t)
        },
        _ => (DocView::Empty, tk),
    }
}

/// The document of a `Case` node.
pub open spec fn fmt_case_node(n: Node, src: Seq<u8>, cs: Seq<CommentView>, tk: Seq<bool>) -> (
    DocView,
    Seq<bool>,
)
    decreases n, 1int,
{
    match n.kind {
        NodeKind::Case { predicate, conditions, else_clause } => {
            let (p, t1) = fmt_opt(predicate, src, cs, tk);
            let (cds, t2) = fmt_nodes(conditions@, 0, src, cs, t1);
            let (el, t3) = fmt_opt(else_clause, src, cs, t2);
            (
                mk_concat(
                    seq![tx("case"@)] + opt_after(tx(" "@), p) + each_on_new_line(cds) + opt_after(
                        DocView::Hardline,
                        el,
                    ) + seq![DocView::Hardline, tx("end"@)],
                ),
                t3,
            )
        },
        _ => (DocView::Empty, tk),
    }
}

/// The document of a `When` node.
pub open spec fn fmt_when_node(n: Node, src: Seq<u8>, cs: Seq<CommentView>, tk: Seq<bool>) -> (
    DocView,
    Seq<bool>,
)
    decreases n, 1int,
{
    match n.kind {
        NodeKind::When { conditions, statements } => {
            let (cds, t1) = fmt_nodes(conditions@, 0, src, cs, tk);
            let (bd, t2) = fmt_opt_block_body(statements, src, cs, t1);
            (
                mk_concat(seq![tx("when "@), DocView::Group(Box::new(comma_list(cds)))] + bd),
                t2,
            )
        },
        _ => (DocView::Empty, tk),
    }
}

/// The document of a `In` node.
pub open spec fn fmt_in_node(n: Node, src: Seq<u8>, cs: Seq<CommentView>, tk: Seq<bool>) -> (
    DocView,
    Seq<bool>,
)
    decreases n, 1int,
{
    match n.kind {
        NodeKind::In { pattern, statements } => {
            let (p, t1) = fmt_node(*pattern, src, cs, tk);
            let (bd, t2) = fmt_opt_block_body(statements, src, cs, t1);
            (mk_concat(seq![tx("in "@), p] + bd), t2)
        },
        _ => (DocView::Empty, tk),
    }
}

/// The document of a `Loop` node.
pub open spec fn fmt_loop_node(n: Node, src: Seq<u8>, cs: Seq<CommentView>, tk: Seq<bool>) -> (
    DocView,
    Seq<bool>,
)
    decreases n, 1int,
{
    match n.kind {
        NodeKind::Loop { keyword, keyword_loc, predicate, statements } => {
            if is_modifier_form(keyword_loc, statements) {
                let (b, t1) = fmt_stmts(statements.unwrap().body@, src, cs, tk);
                let (p, t2) = fmt_node(*predicate, src, cs, t1);
                (mk_concat(seq![b, tx(loop_modifier(keyword)), p]), t2)
            } else {
                let (p, t1) = fmt_node(*predicate, src, cs, tk);
                let (bd, t2) = fmt_opt_block_body(statements, src, cs, t1);
                (
                    mk_concat(
                        seq![tx(loop_head(keyword)), p] + bd + seq![
                            DocView::Hardline,
                            tx("end"@),
                        ],
                    ),
                    t2,
                )
            }
        },
        _ => (DocView::Empty, tk),
    }
}

/// The document of a `For` node.
pub open spec fn fmt_for_node(n: Node, src: Seq<u8>, cs: Seq<CommentView>, tk: Seq<bool>) -> (
    DocView,
    Seq<bool>,
)
    decreases n, 1int,
{
    match n.kind {
        NodeKind::For { index, collection, statements } => {
            let (i, t1) = fmt_node(*index, src, cs, tk);
            let (c, t2) = fmt_node(*collection, src, cs, t1);
            let (bd, t3) = fmt_opt_block_body(statements, src, cs, t2);
            (
                mk_concat(
                    seq![tx("for "@), i, tx(" in "@), c] + bd + seq![DocView::Hardline, tx("end"@)],
                ),
                t3,
            )
        },
        _ => (DocView::Empty, tk),
    }
}

/// The document of a `Logical` node.
pub open spec fn fmt_logical_node(n: Node, src: Seq<u8>, cs: Seq<CommentView>, tk: Seq<bool>) -> (
    DocView,
    Seq<bool>,
)
    decreases n, 1int,
{
    match n.kind {
        NodeKind::Logical { left, operator, right } => {
            let (l, t1) = fmt_node(*left, src, cs, tk);
            let (r, t2) = fmt_node(*right, src, cs, t1);
            (mk_concat(seq![l, tx(" "@), loc_tx(src, operator), tx(" "@), r]), t2)
        },
        _ => (DocView::Empty, tk),
    }
}

/// The document of a `Parentheses` node.
pub open spec fn fmt_parentheses_node(n: Node, src: Seq<u8>, cs: Seq<CommentView>, tk: Seq<bool>) -> (
    DocView,
    Seq<bool>,
)
    decreases n, 1int,
{
    match n.kind {
        NodeKind::Parentheses { opening, body, closing } => {
            let (b, t) = fmt_opt(body, src, cs, tk);
            (mk_concat(seq![loc_tx(src, opening)] + opt_seq(b) + seq![loc_tx(src, closing)]), t)
        },
        _ => (DocView::Empty, tk),
    }
}

/// The document of a `Begin` node.
pub open spec fn fmt_begin_node(n: Node, src: Seq<u8>, cs: Seq<CommentView>, tk: Seq<bool>) -> (
    DocView,
    Seq<bool>,
)
    decreases n, 1int,
{
    match n.kind {
        NodeKind::Begin {
            begin_keyword,
            statements,
            rescue_clause,
            else_clause,
            ensure_clause,
            end_keyword,
        } => {
            let p0 = if begin_keyword is Some {
                seq![tx("begin"@)]
            } else {
                Seq::empty()
            };
            let (p1, t1) = fmt_opt_block_body(statements, src, cs, tk);
            let (p2, t2) = match rescue_clause {
                Some(r) => {
                    let (d, t) = fmt_rescue_chain(r, src, cs, t1);
                    (seq![DocView::Hardline, d], t)
                },
                None => (Seq::empty(), t1),
            };
            let (e, t3) = fmt_opt(else_clause, src, cs, t2);
            let (en, t4) = fmt_opt(ensure_clause, src, cs, t3);
            let end = if end_keyword is Some {
                seq![DocView::Hardline, tx("end"@)]
            } else {
                Seq::empty()
            };
            (
                mk_concat(
                    p0 + p1 + p2 + opt_after(DocView::Hardline, e) + opt_after(
                        DocView::Hardline,
                        en,
                    ) + end,
                ),
                t4,
            )
        },
        _ => (DocView::Empty, tk),
    }
}

/// The document of a `Ensure` node.
pub open spec fn fmt_ensure_node(n: Node, src: Seq<u8>, cs: Seq<CommentView>, tk: Seq<bool>) -> (
    DocView,
    Seq<bool>,
)
    decreases n, 1int,
{
    match n.kind {
        NodeKind::Ensure { statements } => {
            let (bd, t) = fmt_opt_block_body(statements, src, cs, tk);
            (mk_concat(seq![tx("ensure"@)] + bd), t)
        },
        _ => (DocView::Empty, tk),
    }
}

/// The document of a `Joined` node.
pub open spec fn fmt_joined_node(n: Node, src: Seq<u8>, cs: Seq<CommentView>, tk: Seq<bool>) -> (
    DocView,
    Seq<bool>,
)
    decreases n, 1int,
{
    match n.kind {
        NodeKind::Joined { left, joiner, right } => {
            let (l, t1) = fmt_node(*left, src, cs, tk);
            let (r, t2) = fmt_node(*right, src, cs, t1);
            (mk_concat(seq![l, tx(joiner_text(joiner)), r]), t2)
        },
        _ => (DocView::Empty, tk),
    }
}

/// The document of a `Jump` node.
pub open spec fn fmt_jump_node(n: Node, src: Seq<u8>, cs: Seq<CommentView>, tk: Seq<bool>) -> (
    DocView,
    Seq<bool>,
)
    decreases n, 1int,
{
    match n.kind {
        NodeKind::Jump { keyword, arguments } => {
            let (args, t) = fmt_opt_nodes(arguments, src, cs, tk);
            let p = match args {
                Some(ds) => seq![tx(" "@), comma_list(ds)],
                None => Seq::empty(),
            };
            (mk_concat(seq![tx(jump_word(keyword))] + p), t)
        },
        _ => (DocView::Empty, tk),
    }
}

/// The document of a `Yield` node.
pub open spec fn fmt_yield_node(n: Node, src: Seq<u8>, cs: Seq<CommentView>, tk: Seq<bool>) -> (
    DocView,
    Seq<bool>,
)
    decreases n, 1int,
{
    match n.kind {
        NodeKind::Yield { lparen, arguments } => {
            let (args, t) = fmt_opt_nodes(arguments, src, cs, tk);
            let p = match args {
                Some(ds) => if lparen is Some {
                    seq![paren_args(ds)]
                } else {
                    seq![tx(" "@), comma_list(ds)]
                },
                None => if lparen is Some {
                    seq![tx("()"@)]
                } else {
                    Seq::empty()
                },
            };
            (mk_concat(seq![tx("yield"@)] + p), t)
        },
        _ => (DocView::Empty, tk),
    }
}

/// The document of a `Super` node.
pub open spec fn fmt_super_node(n: Node, src: Seq<u8>, cs: Seq<CommentView>, tk: Seq<bool>) -> (
    DocView,
    Seq<bool>,
)
    decreases n, 1int,
{
    match n.kind {
        NodeKind::Super { lparen, arguments, block } => {
            let (args, t1) = fmt_opt_nodes(arguments, src, cs, tk);
            let p = match args {
                Some(ds) => if lparen is Some {
                    seq![paren_args(ds)]
                } else {
                    seq![tx(" "@), comma_list(ds)]
                },
                None => if lparen is Some {
                    seq![tx("()"@)]
                } else {
                    Seq::empty()
                },
            };
            let (b, t2) = fmt_opt(block, src, cs, t1);
            (mk_concat(seq![tx("super"@)] + p + opt_after(tx(" "@), b)), t2)
        },
        _ => (DocView::Empty, tk),
    }
}

/// The document of a `ForwardingSuper` node.
pub open spec fn fmt_forwarding_super_node(n: Node, src: Seq<u8>, cs: Seq<CommentView>, tk: Seq<bool>) -> (
    DocView,
    Seq<bool>,
)
    decreases n, 1int,
{
    match n.kind {
        NodeKind::ForwardingSuper { block } => {
            let (b, t) = fmt_opt(block, src, cs, tk);
            (mk_concat(seq![tx("super"@)] + opt_after(tx(" "@), b)), t)
        },
        _ => (DocView::Empty, tk),
    }
}

/// The document of a `MultiWrite` node.
pub open spec fn fmt_multi_write_node(n: Node, src: Seq<u8>, cs: Seq<CommentView>, tk: Seq<bool>) -> (
    DocView,
    Seq<bool>,
)
    decreases n, 1int,
{
    match n.kind {
        NodeKind::MultiWrite { lefts, rest, rights, lparen, operator, value } => {
            let (l, t1) = fmt_nodes(lefts@, 0, src, cs, tk);
            let (r, t2) = fmt_opt(rest, src, cs, t1);
            let (rr, t3) = fmt_nodes(rights@, 0, src, cs, t2);
            let lhs = comma_list(l + opt_seq(r) + rr);
            let (v, t4) = fmt_node(*value, src, cs, t3);
            if lparen is Some {
                (
                    mk_concat(
                        seq![
                            tx("("@),
                            lhs,
                            tx(")"@),
                            tx(" "@),
                            loc_tx(src, operator),
                            tx(" "@),
                            v,
                        ],
                    ),
                    t4,
                )
            } else {
                (mk_concat(seq![lhs, tx(" "@), loc_tx(src, operator), tx(" "@), v]), t4)
            }
        },
        _ => (DocView::Empty, tk),
    }
}

/// The document of a `MultiTarget` node.
pub open spec fn fmt_multi_target_node(n: Node, src: Seq<u8>, cs: Seq<CommentView>, tk: Seq<bool>) -> (
    DocView,
    Seq<bool>,
)
    decreases n, 1int,
{
    match n.kind {
        NodeKind::MultiTarget { lefts, rest, rights, lparen } => {
            let (l, t1) = fmt_nodes(lefts@, 0, src, cs, tk);
            let (r, t2) = fmt_opt(rest, src, cs, t1);
            let (rr, t3) = fmt_nodes(rights@, 0, src, cs, t2);
            let inner = comma_list(l + opt_seq(r) + rr);
            if lparen is Some {
                (mk_concat(seq![tx("("@), inner, tx(")"@)]), t3)
            } else {
                (inner, t3)
            }
        },
        _ => (DocView::Empty, tk),
    }
}

/// The document of a `Alias` node.
pub open spec fn fmt_alias_node(n: Node, src: Seq<u8>, cs: Seq<CommentView>, tk: Seq<bool>) -> (
    DocView,
    Seq<bool>,
)
    decreases n, 1int,
{
    match n.kind {
        NodeKind::Alias { new_name, old_name } => {
            let (a, t1) = fmt_node(*new_name, src, cs, tk);
            let (b, t2) = fmt_node(*old_name, src, cs, t1);
            (mk_concat(seq![tx("alias "@), a, tx(" "@), b]), t2)
        },
        _ => (DocView::Empty, tk),
    }
}

/// The document of a `Undef` node.
pub open spec fn fmt_undef_node(n: Node, src: Seq<u8>, cs: Seq<CommentView>, tk: Seq<bool>) -> (
    DocView,
    Seq<bool>,
)
    decreases n, 1int,
{
    match n.kind {
        NodeKind::Undef { names } => {
            let (ds, t) = fmt_nodes(names@, 0, src, cs, tk);
            (mk_concat(seq![tx("undef "@), comma_list(ds)]), t)
        },
        _ => (DocView::Empty, tk),
    }
}

/// The document of a `Defined` node.
pub open spec fn fmt_defined_node(n: Node, src: Seq<u8>, cs: Seq<CommentView>, tk: Seq<bool>) -> (
    DocView,
    Seq<bool>,
)
    decreases n, 1int,
{
    match n.kind {
        NodeKind::Defined { lparen, value } => {
            let (v, t) = fmt_node(*value, src, cs, tk);
            if lparen is Some {
                (mk_concat(seq![tx("defined?("@), v, tx(")"@)]), t)
            } else {
                (mk_concat(seq![tx("defined? "@), v]), t)
            }
        },
        _ => (DocView::Empty, tk),
    }
}

/// The document of a `PinnedExpression` node.
pub open spec fn fmt_pinned_expression_node(n: Node, src: Seq<u8>, cs: Seq<CommentView>, tk: Seq<bool>) -> (
    DocView,
    Seq<bool>,
)
    decreases n, 1int,
{
    match n.kind {
        NodeKind::PinnedExpression { expression } => {
            let (e, t) = fmt_node(*expression, src, cs, tk);
            (mk_concat(seq![tx("^("@), e, tx(")"@)]), t)
        },
        _ => (DocView::Empty, tk),
    }
}

/// The document of a `PinnedVariable` node.
pub open spec fn fmt_pinned_variable_node(n: Node, src: Seq<u8>, cs: Seq<CommentView>, tk: Seq<bool>) -> (
    DocView,
    Seq<bool>,
)
    decreases n, 1int,
{
    match n.kind {
        NodeKind::PinnedVariable { variable } => {
            let (v, t) = fmt_node(*variable, src, cs, tk);
            (mk_concat(seq![tx("^"@), v]), t)
        },
        _ => (DocView::Empty, tk),
    }
}

/// The document of a `Hook` node.
pub open spec fn fmt_hook_node(n: Node, src: Seq<u8>, cs: Seq<CommentView>, tk: Seq<bool>) -> (
    DocView,
    Seq<bool>,
)
    decreases n, 1int,
{
    match n.kind {
        NodeKind::Hook { keyword, opening, statements, closing } => {
            let kw = match keyword {
                HookKeyword::Begin => "BEGIN "@,
                HookKeyword::End => "END "@,
            };
            let (bd, t) = match statements {
                Some(st) => {
                    let (d, t) = fmt_stmts(st.body@, src, cs, tk);
                    (seq![indent_body(d), DocView::Hardline], t)
                },
                None => (Seq::empty(), tk),
            };
            (mk_concat(seq![tx(kw), loc_tx(src, opening)] + bd + seq![loc_tx(src, closing)]), t)
        },
        _ => (DocView::Empty, tk),
    }
}

/// A block: `{ ... }` on one line when it fits, `do ... end` otherwise kept.
pub open spec fn fmt_block(n: Node, src: Seq<u8>, cs: Seq<CommentView>, tk: Seq<bool>) -> (
    DocView,
    Seq<bool>,
)
    decreases n, 1int,
{
    match n.kind {
        NodeKind::Block { opening, parameters, body } => {
            let is_brace = loc_text(src, opening) == "{"@;
            let (pd, t1) = fmt_opt(parameters, src, cs, tk);
            if is_brace {
                let (bd, t2) = match body {
                    Some(b) => {
                        let (d, t) = fmt_body(*b, src, cs, t1);
                        (seq![tx(" "@), d, tx(" "@)], t)
                    },
                    None => (Seq::empty(), t1),
                };
                (
                    DocView::Group(
                        Box::new(
                            mk_concat(
                                seq![tx("{"@)] + opt_after(tx(" "@), pd) + bd + seq![tx("}"@)],
                            ),
                        ),
                    ),
                    t2,
                )
            } else {
                let (bd, t2) = match body {
                    Some(b) => {
                        let (d, t) = fmt_body(*b, src, cs, t1);
                        (seq![indent_body(d)], t)
                    },
                    None => (Seq::empty(), t1),
                };
                (
                    mk_concat(
                        seq![tx("do"@)] + opt_after(tx(" "@), pd) + bd + seq![
                            DocView::Hardline,
                            tx("end"@),
                        ],
                    ),
                    t2,
                )
            }
        },
        _ => (DocView::Empty, tk),
    }
}

/// A segment of a method chain: `.name(args) { block }`.
pub struct SegView {
    pub call_op: Seq<char>,
    pub name: Seq<char>,
    pub args: Option<DocView>,
    pub block: Option<DocView>,
}

/// The document of a chain segment.
pub open spec fn segment_doc(s: SegView) -> DocView {
    mk_concat(seq![tx(s.call_op), tx(s.name)] + opt_seq(s.args) + opt_seq(s.block))
}

/// The documents of chain segments.
pub open spec fn segment_docs(segs: Seq<SegView>) -> Seq<DocView> {
    Seq::new(segs.len(), |i: int| segment_doc(segs[i]))
}

/// The block of a call is a block argument (`&blk`).
pub open spec fn has_block_argument(c: Call) -> bool {
    match c.block {
        Some(b) => b.kind is BlockArgument,
        None => false,
    }
}

/// The receiver of a call is itself a call with a `.` or `&.`.
pub open spec fn receiver_is_dotted_call(c: Call) -> bool {
    match c.receiver {
        Some(r) => match r.kind {
            NodeKind::Call(rc) => rc.call_operator is Some,
            _ => false,
        },
        None => false,
    }
}

/// Where the arguments of a call close: at a block argument, else at the
/// closing parenthesis; a call without either closes nowhere after them.
pub open spec fn args_close(c: Call) -> int {
    if has_block_argument(c) {
        c.block.unwrap().loc.start as int
    } else {
        opt_start(c.closing)
    }
}

/// The argument part of a call: `(args)`, ` args`, `()` or nothing.
pub open spec fn call_args_doc(opening: Option<Loc>, args: Option<Seq<DocView>>, ba: Option<DocView>) -> Option<DocView> {
    match args {
        Some(ds) => {
            let all = ds + opt_seq(ba);
            if opening is Some {
                Some(paren_args(all))
            } else {
                Some(mk_concat(seq![tx(" "@), DocView::Group(Box::new(comma_list(all)))]))
            }
        },
        None => match ba {
            Some(b) => if opening is Some {
                Some(paren_args(seq![b]))
            } else {
                Some(mk_concat(seq![tx(" "@), b]))
            },
            None => if opening is Some {
                Some(tx("()"@))
            } else {
                None
            },
        },
    }
}

/// Formats `ns[i..j]` in order.
pub open spec fn fmt_range(ns: Seq<Node>, i: int, j: int, src: Seq<u8>, cs: Seq<CommentView>, tk: Seq<bool>) -> (
    Seq<DocView>,
    Seq<bool>,
)
    decreases ns, j - i,
{
    if i < 0 || i >= j || j > ns.len() {
        (Seq::empty(), tk)
    } else {
        let (d, t1) = fmt_node(ns[i], src, cs, tk);
        let (rest, t2) = fmt_range(ns, i + 1, j, src, cs, t1);
        (seq![d] + rest, t2)
    }
}

/// The segment of one call of a chain.
pub open spec fn fmt_segment(c: Call, src: Seq<u8>, cs: Seq<CommentView>, tk: Seq<bool>) -> (
    SegView,
    Seq<bool>,
)
    decreases c, 0int,
{
    let op = match c.call_operator {
        Some(l) => loc_text(src, l),
        None => Seq::empty(),
    };
    let is_ba = has_block_argument(c);
    let (ba, t1) = if is_ba {
        fmt_opt(c.block, src, cs, tk)
    } else {
        (None, tk)
    };
    let (args, t2) = fmt_opt_elems(c.arguments, c.opening, args_close(c), src, cs, t1);
    let a = call_args_doc(c.opening, args, ba);
    let (blk, t3) = if !is_ba {
        let (b, t) = fmt_opt(c.block, src, cs, t2);
        (
            match b {
                Some(d) => Some(mk_concat(seq![tx(" "@), d])),
                None => None,
            },
            t,
        )
    } else {
        (None, t2)
    };
    (SegView { call_op: op, name: utf8_lossy(c.name@), args: a, block: blk }, t3)
}

/// The segments of a chain, innermost first, and the document of the
/// receiver the chain starts from.
pub open spec fn chain_segments(c: Call, src: Seq<u8>, cs: Seq<CommentView>, tk: Seq<bool>) -> (
    Seq<SegView>,
    DocView,
    Seq<bool>,
)
    decreases c, 1int,
{
    let (seg, t1) = fmt_segment(c, src, cs, tk);
    match c.receiver {
        Some(r) => match r.kind {
            NodeKind::Call(rc) => if rc.call_operator is Some {
                let (segs, rd, t2) = chain_segments(rc, src, cs, t1);
                (segs.push(seg), rd, t2)
            } else {
                let (rd, t2) = fmt_node(*r, src, cs, t1);
                (seq![seg], rd, t2)
            },
            _ => {
                let (rd, t2) = fmt_node(*r, src, cs, t1);
                (seq![seg], rd, t2)
            },
        },
        None => (seq![seg], DocView::Empty, t1),
    }
}

/// A method chain: four or more segments always one per line, two chosen
/// by width, three flat only when all fits.
pub open spec fn fmt_chain(c: Call, src: Seq<u8>, cs: Seq<CommentView>, tk: Seq<bool>) -> (
    DocView,
    Seq<bool>,
)
    decreases c, 2int,
{
    let (segs, rd, t) = chain_segments(c, src, cs, tk);
    let docs = segment_docs(segs);
    let flat = mk_concat(docs);
    let brk = DocView::Indent(Box::new(mk_concat(each_on_new_line(docs))));
    if segs.len() >= 4 {
        (mk_concat(seq![rd, brk]), t)
    } else if segs.len() == 2 {
        (DocView::BestOf(seq![mk_concat(seq![rd, flat]), mk_concat(seq![rd, brk])]), t)
    } else {
        (
            mk_concat(
                seq![rd, DocView::Group(Box::new(DocView::IfBreak(Box::new(brk), Box::new(flat))))],
            ),
            t,
        )
    }
}

/// A call that is no operator: index, index assignment, chain or plain call.
pub open spec fn fmt_call_rest(c: Call, src: Seq<u8>, cs: Seq<CommentView>, tk: Seq<bool>) -> (
    DocView,
    Seq<bool>,
)
    decreases c, 3int,
{
    let name = utf8_lossy(c.name@);
    if name == "[]"@ && c.opening is Some {
        let (rv, t1) = fmt_opt(c.receiver, src, cs, tk);
        let (args, t2) = fmt_opt_nodes(c.arguments, src, cs, t1);
        let pa = match args {
            Some(ds) => seq![comma_list(ds)],
            None => Seq::empty(),
        };
        let (b, t3) = fmt_opt(c.block, src, cs, t2);
        (mk_concat(opt_seq(rv) + seq![tx("["@)] + pa + seq![tx("]"@)] + opt_after(tx(" "@), b)), t3)
    } else if name == "[]="@ && c.opening is Some {
        let (rv, t1) = fmt_opt(c.receiver, src, cs, tk);
        match c.arguments {
            Some(args) => {
                let n = args@.len() as int;
                if n > 1 {
                    let (idx, t2) = fmt_range(args@, 0, n - 1, src, cs, t1);
                    let (last, t3) = fmt_node(args@[n - 1], src, cs, t2);
                    (
                        mk_concat(
                            opt_seq(rv) + seq![tx("["@), comma_list(idx), tx("] = "@), last],
                        ),
                        t3,
                    )
                } else if n == 1 {
                    let (d, t2) = fmt_node(args@[0], src, cs, t1);
                    (mk_concat(opt_seq(rv) + seq![tx("["@), tx("] = "@), d]), t2)
                } else {
                    (mk_concat(opt_seq(rv) + seq![tx("["@), tx("] = "@)]), t1)
                }
            },
            None => (mk_concat(opt_seq(rv) + seq![tx("["@), tx("]"@)]), t1),
        }
    } else if c.receiver is Some && c.call_operator is Some && receiver_is_dotted_call(c) {
        fmt_chain(c, src, cs, tk)
    } else {
        let (rv, t1) = fmt_opt(c.receiver, src, cs, tk);
        let p_recv = match rv {
            Some(d) => seq![d] + match c.call_operator {
                Some(op) => seq![loc_tx(src, op)],
                None => Seq::empty(),
            },
            None => Seq::empty(),
        };
        let p_msg = match c.message {
            Some(m) => seq![loc_tx(src, m)],
            None => Seq::empty(),
        };
        let is_ba = has_block_argument(c);
        let (ba, t2) = if is_ba {
            fmt_opt(c.block, src, cs, t1)
        } else {
            (None, t1)
        };
        let (args, t3) = fmt_opt_elems(c.arguments, c.opening, args_close(c), src, cs, t2);
        let p_args = opt_seq(call_args_doc(c.opening, args, ba));
        let (blk, t4) = if !is_ba {
            fmt_opt(c.block, src, cs, t3)
        } else {
            (None, t3)
        };
        (mk_concat(p_recv + p_msg + p_args + opt_after(tx(" "@), blk)), t4)
    }
}

/// A method call.
pub open spec fn fmt_call(c: Call, src: Seq<u8>, cs: Seq<CommentView>, tk: Seq<bool>) -> (
    DocView,
    Seq<bool>,
)
    decreases c, 4int,
{
    let name = utf8_lossy(c.name@);
    if c.receiver is Some && c.arguments is None && c.call_operator is None && c.opening is None
        && is_unary_operator(name) {
        let (r, t) = fmt_node(*c.receiver.unwrap(), src, cs, tk);
        if name == "not"@ {
            (mk_concat(seq![tx("not "@), r]), t)
        } else {
            let op = if name == "-@"@ {
                "-"@
            } else if name == "+@"@ {
                "+"@
            } else {
                name
            };
            (mk_concat(seq![tx(op), r]), t)
        }
    } else {
        let (bin, t0) = if c.receiver is Some && c.call_operator is None && c.opening is None
            && is_binary_operator(name) {
            let (r, t) = fmt_node(*c.receiver.unwrap(), src, cs, tk);
            match c.arguments {
                Some(args) => if args@.len() == 1 {
                    let (rhs, t2) = fmt_node(args@[0], src, cs, t);
                    (Some(mk_concat(seq![r, tx(" "@), tx(name), tx(" "@), rhs])), t2)
                } else {
                    (None, t)
                },
                None => (None, t),
            }
        } else {
            (None, tk)
        };
        match bin {
            Some(d) => (d, t0),
            None => fmt_call_rest(c, src, cs, t0),
        }
    }
}

} // verus!
