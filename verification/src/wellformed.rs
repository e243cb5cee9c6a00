//! Checking that a syntax tree and its comments are what the formatter
//! expects: every location lies within the source, the statements of each
//! list come in order, and no comment runs into the start of a statement.
use vstd::prelude::*;

use crate::ast::{Call, Loc, Node, NodeKind, Params, Rescue, Stmts};
use crate::comments::{comments_view, CommentInfo};
use crate::formatter::is_heredoc_opening;
use crate::layout::{body_order, comments_wf, ends_before, node_wf, nodes_wf};
use crate::layout;
use crate::text::loc_in;

verus! {

broadcast use vstd::std_specs::vec::group_vec_axioms;

/// Whether a location lies within the source.
pub fn loc_ok(l: Loc, source: &[u8]) -> (r: bool)
    ensures
        r == loc_in(l, source@.len()),
{
    l.start <= l.end && l.end <= source.len()
}

/// Whether an optional location lies within the source.
fn opt_loc_ok(l: Option<Loc>, source: &[u8]) -> (r: bool)
    ensures
        r == layout::opt_loc_in(l, source@.len()),
{
    match l {
        Some(x) => loc_ok(x, source),
        None => true,
    }
}

/// Whether a heredoc's body lies between its opening and its closing.
fn heredoc_span_ok(opening: Option<Loc>, closing: Option<Loc>, source: &[u8]) -> (r: bool)
    requires
        layout::opt_loc_in(opening, source@.len()),
    ensures
        r == (layout::is_heredoc(source@, opening) ==> closing is Some && opening.unwrap().end
            <= closing.unwrap().start),
{
    if is_heredoc_opening(opening, source) {
        match (opening, closing) {
            (Some(o), Some(c)) => o.end <= c.start,
            _ => false,
        }
    } else {
        true
    }
}

/// Whether every comment lies within the source.
pub fn comments_ok(comments: &Vec<CommentInfo>, source: &[u8]) -> (r: bool)
    ensures
        r == comments_wf(comments_view(comments@), source@.len()),
{
    let ghost cs = comments_view(comments@);
    let mut k: usize = 0;
    while k < comments.len()
        invariant
            k <= comments@.len(),
            cs == comments_view(comments@),
            forall|j: int| 0 <= j < k ==> (#[trigger] cs[j]).start <= cs[j].end && cs[j].end <= source@.len(),
        decreases comments.len() - k,
    {
        let c = &comments[k];
        assert(cs[k as int] == c@);
        if c.start_offset > c.end_offset || c.end_offset > source.len() {
            assert(!(cs[k as int].start <= cs[k as int].end && cs[k as int].end <= source@.len()));
            assert(!comments_wf(cs, source@.len()));
            return false;
        }
        assert(cs[k as int].start <= cs[k as int].end && cs[k as int].end <= source@.len());
        k += 1;
    }
    true
}

/// Whether the statements of a list come in order and no comment runs into
/// the start of one.
fn body_order_ok(body: &Vec<Node>, comments: &Vec<CommentInfo>) -> (r: bool)
    ensures
        r == body_order(body@, comments_view(comments@)),
{
    let ghost cs = comments_view(comments@);
    let mut i: usize = 1;
    while i < body.len()
        invariant
            1 <= i,
            forall|j: int| 0 <= j < i - 1 && j < body@.len() - 1 ==> #[trigger] body@[j].loc.end <= body@[j + 1].loc.start,
        decreases body.len() - i,
    {
        if body[i - 1].loc.end > body[i].loc.start {
            assert(!(body@[i - 1].loc.end <= body@[i as int].loc.start));
            return false;
        }
        i += 1;
    }
    let mut i: usize = 0;
    while i < body.len()
        invariant
            i <= body@.len(),
            cs == comments_view(comments@),
            forall|j: int| 0 <= j < body@.len() - 1 ==> #[trigger] body@[j].loc.end <= body@[j + 1].loc.start,
            forall|ii: int, k: int|
                0 <= ii < i && 0 <= k < cs.len() ==> ends_before(#[trigger] cs[k], #[trigger] body@[ii].loc),
        decreases body.len() - i,
    {
        let mut k: usize = 0;
        while k < comments.len()
            invariant
                i < body@.len(),
                k <= comments@.len(),
                cs == comments_view(comments@),
                forall|kk: int| 0 <= kk < k ==> ends_before(#[trigger] cs[kk], body@[i as int].loc),
            decreases comments.len() - k,
        {
            let c = &comments[k];
            assert(cs[k as int] == c@);
            if c.start_offset < body[i].loc.start && c.end_offset > body[i].loc.start {
                assert(!ends_before(cs[k as int], body@[i as int].loc));
                return false;
            }
            k += 1;
        }
        i += 1;
    }
    true
}

/// Whether every node of a list is well formed.
fn nodes_ok(ns: &Vec<Node>, source: &[u8], comments: &Vec<CommentInfo>) -> (r: bool)
    ensures
        r == nodes_wf(ns@, 0, source@, comments_view(comments@)),
    decreases ns@, 0int,
{
    let mut i: usize = 0;
    while i < ns.len()
        invariant
            i <= ns@.len(),
            nodes_wf(ns@, 0, source@, comments_view(comments@)) == nodes_wf(
                ns@,
                i as int,
                source@,
                comments_view(comments@),
            ),
        decreases ns.len() - i,
    {
        assert(decreases_to!(ns@ => ns@[i as int]));
        if !node_ok(&ns[i], source, comments) {
            return false;
        }
        i += 1;
    }
    true
}

/// Whether an optional child is well formed.
fn opt_ok(o: &Option<Box<Node>>, source: &[u8], comments: &Vec<CommentInfo>) -> (r: bool)
    ensures
        r == layout::opt_wf(*o, source@, comments_view(comments@)),
    decreases *o, 0int,
{
    match o {
        Some(b) => node_ok(&**b, source, comments),
        None => true,
    }
}

/// Whether an optional list of children is well formed.
fn opt_nodes_ok(o: &Option<Vec<Node>>, source: &[u8], comments: &Vec<CommentInfo>) -> (r: bool)
    ensures
        r == layout::opt_nodes_wf(*o, source@, comments_view(comments@)),
    decreases *o, 0int,
{
    match o {
        Some(v) => nodes_ok(v, source, comments),
        None => true,
    }
}

/// Whether a statement list is well formed.
fn stmts_ok(s: &Stmts, source: &[u8], comments: &Vec<CommentInfo>) -> (r: bool)
    ensures
        r == layout::stmts_wf(*s, source@, comments_view(comments@)),
    decreases *s, 0int,
{
    loc_ok(s.loc, source) && nodes_ok(&s.body, source, comments) && body_order_ok(&s.body, comments)
}

/// Whether an optional statement list is well formed.
fn opt_stmts_ok(o: &Option<Stmts>, source: &[u8], comments: &Vec<CommentInfo>) -> (r: bool)
    ensures
        r == layout::opt_stmts_wf(*o, source@, comments_view(comments@)),
    decreases *o, 1int,
{
    match o {
        Some(st) => stmts_ok(st, source, comments),
        None => true,
    }
}

/// Whether parameters are well formed.
fn params_ok(p: &Params, source: &[u8], comments: &Vec<CommentInfo>) -> (r: bool)
    ensures
        r == layout::params_wf(*p, source@, comments_view(comments@)),
    decreases *p, 0int,
{
    loc_ok(p.loc, source) && nodes_ok(&p.requireds, source, comments) && nodes_ok(
        &p.optionals,
        source,
        comments,
    ) && opt_ok(&p.rest, source, comments) && nodes_ok(&p.posts, source, comments) && nodes_ok(
        &p.keywords,
        source,
        comments,
    ) && opt_ok(&p.keyword_rest, source, comments) && opt_ok(&p.block, source, comments)
}

/// Whether optional parameters are well formed.
fn opt_params_ok(o: &Option<Params>, source: &[u8], comments: &Vec<CommentInfo>) -> (r: bool)
    ensures
        r == layout::opt_params_wf(*o, source@, comments_view(comments@)),
    decreases *o, 1int,
{
    match o {
        Some(p) => params_ok(p, source, comments),
        None => true,
    }
}

/// Whether a rescue chain is well formed.
fn rescue_ok(r: &Rescue, source: &[u8], comments: &Vec<CommentInfo>) -> (b: bool)
    ensures
        b == layout::rescue_wf(*r, source@, comments_view(comments@)),
    decreases *r, 0int,
{
    nodes_ok(&r.exceptions, source, comments) && opt_ok(&r.reference, source, comments)
        && opt_stmts_ok(&r.statements, source, comments) && match &r.subsequent {
        Some(b) => rescue_ok(&**b, source, comments),
        None => true,
    }
}

/// Whether a call is well formed.
fn call_ok(c: &Call, source: &[u8], comments: &Vec<CommentInfo>) -> (r: bool)
    ensures
        r == layout::call_wf(*c, source@, comments_view(comments@)),
    decreases *c, 0int,
{
    opt_ok(&c.receiver, source, comments) && opt_loc_ok(c.call_operator, source) && opt_loc_ok(
        c.message,
        source,
    ) && opt_loc_ok(c.opening, source) && opt_nodes_ok(&c.arguments, source, comments)
        && opt_loc_ok(c.closing, source) && opt_ok(
        &c.block,
        source,
        comments,
    )
}

/// Whether a node is well formed: its locations lie within the source, its
/// statement lists come in order and clear of the comments, and so do its
/// children's.
pub fn node_ok(n: &Node, source: &[u8], comments: &Vec<CommentInfo>) -> (r: bool)
    ensures
        r == node_wf(*n, source@, comments_view(comments@)),
    decreases *n, 3int,
{
    if !loc_ok(n.loc, source) {
        return false;
    }
    match &n.kind {
        NodeKind::Source | NodeKind::Program { .. } | NodeKind::Statements { .. } | NodeKind::NameWrite { .. } | NodeKind::TargetWrite { .. } | NodeKind::ConstantPath { .. } | NodeKind::Str { .. } | NodeKind::InterpolatedStr { .. } | NodeKind::XStr { .. } | NodeKind::InterpolatedXStr { .. } | NodeKind::EmbeddedStatements { .. } | NodeKind::EmbeddedVariable { .. } | NodeKind::NoKeywords | NodeKind::Nothing => strings_ok(n, source, comments),
        NodeKind::Array { .. } | NodeKind::Hash { .. } | NodeKind::KeywordHash { .. } | NodeKind::Assoc { .. } | NodeKind::Splat { .. } | NodeKind::BlockArgument { .. } | NodeKind::Range { .. } | NodeKind::Call(..) | NodeKind::CallWrite { .. } | NodeKind::CallTarget { .. } | NodeKind::IndexWrite { .. } | NodeKind::IndexTarget { .. } | NodeKind::Arguments { .. } => collections_ok(n, source, comments),
        NodeKind::Def { .. } | NodeKind::Class { .. } | NodeKind::Module { .. } | NodeKind::SingletonClass { .. } | NodeKind::Block { .. } | NodeKind::Lambda { .. } | NodeKind::BlockParameters { .. } | NodeKind::Name { .. } | NodeKind::OptionalParameter { .. } | NodeKind::PrefixedName { .. } | NodeKind::RequiredKeyword { .. } | NodeKind::OptionalKeyword { .. } => definitions_ok(n, source, comments),
        NodeKind::If { .. } | NodeKind::Unless { .. } | NodeKind::Else { .. } | NodeKind::Case { .. } | NodeKind::When { .. } | NodeKind::In { .. } | NodeKind::Loop { .. } | NodeKind::For { .. } | NodeKind::Logical { .. } | NodeKind::Parentheses { .. } => control_ok(n, source, comments),
        NodeKind::Begin { .. } | NodeKind::RescueClause(..) | NodeKind::Ensure { .. } | NodeKind::Joined { .. } | NodeKind::Jump { .. } | NodeKind::Yield { .. } | NodeKind::Super { .. } | NodeKind::ForwardingSuper { .. } | NodeKind::MultiWrite { .. } | NodeKind::MultiTarget { .. } | NodeKind::Alias { .. } | NodeKind::Undef { .. } | NodeKind::Defined { .. } | NodeKind::PinnedExpression { .. } | NodeKind::PinnedVariable { .. } | NodeKind::Hook { .. } | NodeKind::Transparent { .. } => others_ok(n, source, comments),
    }
}

/// Whether a program and its comments are what `format_source` and
/// `format_program` take: the tree well formed and every comment within the
/// source.
pub fn tree_ok(program: &Node, source: &[u8], comments: &Vec<CommentInfo>) -> (r: bool)
    ensures
        r == (node_wf(*program, source@, comments_view(comments@)) && comments_wf(
            comments_view(comments@),
            source@.len(),
        )),
{
    node_ok(program, source, comments) && comments_ok(comments, source)
}

/// The node kinds checked by `strings_ok`.
pub open spec fn is_string_kind(k: NodeKind) -> bool {
    match k {
        NodeKind::Source
        | NodeKind::Program { .. }
        | NodeKind::Statements { .. }
        | NodeKind::NameWrite { .. }
        | NodeKind::TargetWrite { .. }
        | NodeKind::ConstantPath { .. }
        | NodeKind::Str { .. }
        | NodeKind::InterpolatedStr { .. }
        | NodeKind::XStr { .. }
        | NodeKind::InterpolatedXStr { .. }
        | NodeKind::EmbeddedStatements { .. }
        | NodeKind::EmbeddedVariable { .. }
        | NodeKind::NoKeywords
        | NodeKind::Nothing => true,
        _ => false,
    }
}

/// Whether a node of one of the string and name kinds is well formed, its own location
/// aside.
#[verifier::spinoff_prover]
fn strings_ok(n: &Node, source: &[u8], comments: &Vec<CommentInfo>) -> (r: bool)
    requires
        loc_in(n.loc, source@.len()),
        is_string_kind(n.kind),
    ensures
        r == node_wf(*n, source@, comments_view(comments@)),
    decreases *n, 2int,
{
    match &n.kind {
        NodeKind::Source | NodeKind::NoKeywords | NodeKind::Nothing => true,
        NodeKind::Program { statements } => stmts_ok(statements, source, comments),
        NodeKind::Statements { body } => nodes_ok(body, source, comments) && body_order_ok(body, comments),
        NodeKind::NameWrite { name, operator, value } => loc_ok(*name, source) && loc_ok(*operator, source) && node_ok(&**value, source, comments),
        NodeKind::TargetWrite { target, operator, value } => node_ok(&**target, source, comments) && loc_ok(*operator, source) && node_ok(&**value, source, comments),
        NodeKind::ConstantPath { parent, delimiter, name } => opt_ok(parent, source, comments) && loc_ok(*delimiter, source),
        NodeKind::Str { opening, content, closing } => opt_loc_ok(*opening, source) && loc_ok(*content, source) && opt_loc_ok(*closing, source),
        NodeKind::InterpolatedStr { opening, parts, closing } => opt_loc_ok(*opening, source) && nodes_ok(parts, source, comments) && opt_loc_ok(*closing, source) && heredoc_span_ok(*opening, *closing, source),
        NodeKind::XStr { opening, content, closing } => loc_ok(*opening, source) && loc_ok(*content, source) && loc_ok(*closing, source),
        NodeKind::InterpolatedXStr { opening, closing } => loc_ok(*opening, source) && loc_ok(*closing, source) && opening.end <= closing.start,
        NodeKind::EmbeddedStatements { opening, statements, closing } => loc_ok(*opening, source) && opt_stmts_ok(statements, source, comments) && loc_ok(*closing, source),
        NodeKind::EmbeddedVariable { operator, variable } => loc_ok(*operator, source) && node_ok(&**variable, source, comments),
        _ => true,
    }
}

/// The node kinds checked by `collections_ok`.
pub open spec fn is_collection_kind(k: NodeKind) -> bool {
    match k {
        NodeKind::Array { .. }
        | NodeKind::Hash { .. }
        | NodeKind::KeywordHash { .. }
        | NodeKind::Assoc { .. }
        | NodeKind::Splat { .. }
        | NodeKind::BlockArgument { .. }
        | NodeKind::Range { .. }
        | NodeKind::Call(..)
        | NodeKind::CallWrite { .. }
        | NodeKind::CallTarget { .. }
        | NodeKind::IndexWrite { .. }
        | NodeKind::IndexTarget { .. }
        | NodeKind::Arguments { .. } => true,
        _ => false,
    }
}

/// Whether a node of one of the collection and call kinds is well formed, its own location
/// aside.
#[verifier::spinoff_prover]
fn collections_ok(n: &Node, source: &[u8], comments: &Vec<CommentInfo>) -> (r: bool)
    requires
        loc_in(n.loc, source@.len()),
        is_collection_kind(n.kind),
    ensures
        r == node_wf(*n, source@, comments_view(comments@)),
    decreases *n, 2int,
{
    match &n.kind {
        NodeKind::Array { opening, elements, closing } => opt_loc_ok(*opening, source) && nodes_ok(elements, source, comments) && opt_loc_ok(*closing, source),
        NodeKind::Hash { opening, elements, closing } => loc_ok(*opening, source) && nodes_ok(elements, source, comments) && loc_ok(*closing, source),
        NodeKind::KeywordHash { elements } => nodes_ok(elements, source, comments),
        NodeKind::Assoc { key, operator, value } => node_ok(&**key, source, comments) && opt_loc_ok(*operator, source) && node_ok(&**value, source, comments),
        NodeKind::Splat { operator, expression } => loc_ok(*operator, source) && opt_ok(expression, source, comments),
        NodeKind::BlockArgument { operator, expression } => loc_ok(*operator, source) && opt_ok(expression, source, comments),
        NodeKind::Range { left, operator, right } => opt_ok(left, source, comments) && loc_ok(*operator, source) && opt_ok(right, source, comments),
        NodeKind::Call(c) => call_ok(c, source, comments),
        NodeKind::CallWrite { receiver, call_operator, message, operator, value } => opt_ok(receiver, source, comments) && opt_loc_ok(*call_operator, source) && opt_loc_ok(*message, source) && loc_ok(*operator, source) && node_ok(&**value, source, comments),
        NodeKind::CallTarget { receiver, call_operator, name } => node_ok(&**receiver, source, comments) && loc_ok(*call_operator, source),
        NodeKind::IndexWrite { receiver, opening, arguments, closing, operator, value } => opt_ok(receiver, source, comments) && loc_ok(*opening, source) && opt_nodes_ok(arguments, source, comments) && loc_ok(*closing, source) && loc_ok(*operator, source) && node_ok(&**value, source, comments),
        NodeKind::IndexTarget { receiver, opening, arguments, closing } => node_ok(&**receiver, source, comments) && loc_ok(*opening, source) && opt_nodes_ok(arguments, source, comments) && loc_ok(*closing, source),
        NodeKind::Arguments { arguments } => nodes_ok(arguments, source, comments),
        _ => true,
    }
}

/// The node kinds checked by `definitions_ok`.
pub open spec fn is_definition_kind(k: NodeKind) -> bool {
    match k {
        NodeKind::Def { .. }
        | NodeKind::Class { .. }
        | NodeKind::Module { .. }
        | NodeKind::SingletonClass { .. }
        | NodeKind::Block { .. }
        | NodeKind::Lambda { .. }
        | NodeKind::BlockParameters { .. }
        | NodeKind::Name { .. }
        | NodeKind::OptionalParameter { .. }
        | NodeKind::PrefixedName { .. }
        | NodeKind::RequiredKeyword { .. }
        | NodeKind::OptionalKeyword { .. } => true,
        _ => false,
    }
}

/// Whether a node of one of the definition and parameter kinds is well formed, its own location
/// aside.
#[verifier::spinoff_prover]
fn definitions_ok(n: &Node, source: &[u8], comments: &Vec<CommentInfo>) -> (r: bool)
    requires
        loc_in(n.loc, source@.len()),
        is_definition_kind(n.kind),
    ensures
        r == node_wf(*n, source@, comments_view(comments@)),
    decreases *n, 2int,
{
    match &n.kind {
        NodeKind::Def { receiver, operator, name, name_loc, parameters, lparen, rparen, equal, body, end_keyword, } => opt_ok(receiver, source, comments) && opt_loc_ok(*operator, source) && loc_ok(*name_loc, source) && opt_params_ok(parameters, source, comments) && opt_loc_ok(*lparen, source) && opt_loc_ok(*rparen, source) && opt_loc_ok(*equal, source) && opt_ok(body, source, comments) && opt_loc_ok(*end_keyword, source),
        NodeKind::Class { constant_path, superclass, body } => node_ok(&**constant_path, source, comments) && opt_ok(superclass, source, comments) && opt_ok(body, source, comments),
        NodeKind::Module { constant_path, body } => node_ok(&**constant_path, source, comments) && opt_ok(body, source, comments),
        NodeKind::SingletonClass { operator, expression, body } => loc_ok(*operator, source) && node_ok(&**expression, source, comments) && opt_ok(body, source, comments),
        NodeKind::Block { opening, parameters, body } => loc_ok(*opening, source) && opt_ok(parameters, source, comments) && opt_ok(body, source, comments),
        NodeKind::Lambda { opening, closing, parameters, body } => loc_ok(*opening, source) && loc_ok(*closing, source) && opt_ok(parameters, source, comments) && opt_ok(body, source, comments),
        NodeKind::BlockParameters { opening, parameters, locals, closing } => opt_loc_ok(*opening, source) && opt_params_ok(parameters, source, comments) && nodes_ok(locals, source, comments) && opt_loc_ok(*closing, source),
        NodeKind::Name { name } => true,
        NodeKind::OptionalParameter { name, value } => node_ok(&**value, source, comments),
        NodeKind::PrefixedName { operator, name } => loc_ok(*operator, source),
        NodeKind::RequiredKeyword { name } => true,
        NodeKind::OptionalKeyword { name, value } => node_ok(&**value, source, comments),
        _ => true,
    }
}

/// The node kinds checked by `control_ok`.
pub open spec fn is_control_kind(k: NodeKind) -> bool {
    match k {
        NodeKind::If { .. }
        | NodeKind::Unless { .. }
        | NodeKind::Else { .. }
        | NodeKind::Case { .. }
        | NodeKind::When { .. }
        | NodeKind::In { .. }
        | NodeKind::Loop { .. }
        | NodeKind::For { .. }
        | NodeKind::Logical { .. }
        | NodeKind::Parentheses { .. } => true,
        _ => false,
    }
}

/// Whether a node of one of the conditional and loop kinds is well formed, its own location
/// aside.
#[verifier::spinoff_prover]
fn control_ok(n: &Node, source: &[u8], comments: &Vec<CommentInfo>) -> (r: bool)
    requires
        loc_in(n.loc, source@.len()),
        is_control_kind(n.kind),
    ensures
        r == node_wf(*n, source@, comments_view(comments@)),
    decreases *n, 2int,
{
    match &n.kind {
        NodeKind::If { if_keyword, predicate, statements, subsequent, end_keyword } => opt_loc_ok(*if_keyword, source) && node_ok(&**predicate, source, comments) && opt_stmts_ok(statements, source, comments) && opt_ok(subsequent, source, comments) && opt_loc_ok(*end_keyword, source),
        NodeKind::Unless { keyword, predicate, statements, else_clause, end_keyword } => loc_ok(*keyword, source) && node_ok(&**predicate, source, comments) && opt_stmts_ok(statements, source, comments) && opt_ok(else_clause, source, comments) && opt_loc_ok(*end_keyword, source),
        NodeKind::Else { statements } => opt_stmts_ok(statements, source, comments),
        NodeKind::Case { predicate, conditions, else_clause } => opt_ok(predicate, source, comments) && nodes_ok(conditions, source, comments) && opt_ok(else_clause, source, comments),
        NodeKind::When { conditions, statements } => nodes_ok(conditions, source, comments) && opt_stmts_ok(statements, source, comments),
        NodeKind::In { pattern, statements } => node_ok(&**pattern, source, comments) && opt_stmts_ok(statements, source, comments),
        NodeKind::Loop { keyword, keyword_loc, predicate, statements } => loc_ok(*keyword_loc, source) && node_ok(&**predicate, source, comments) && opt_stmts_ok(statements, source, comments),
        NodeKind::For { index, collection, statements } => node_ok(&**index, source, comments) && node_ok(&**collection, source, comments) && opt_stmts_ok(statements, source, comments),
        NodeKind::Logical { left, operator, right } => node_ok(&**left, source, comments) && loc_ok(*operator, source) && node_ok(&**right, source, comments),
        NodeKind::Parentheses { opening, body, closing } => loc_ok(*opening, source) && opt_ok(body, source, comments) && loc_ok(*closing, source),
        _ => true,
    }
}

/// The node kinds checked by `others_ok`.
pub open spec fn is_other_kind(k: NodeKind) -> bool {
    match k {
        NodeKind::Begin { .. }
        | NodeKind::RescueClause(..)
        | NodeKind::Ensure { .. }
        | NodeKind::Joined { .. }
        | NodeKind::Jump { .. }
        | NodeKind::Yield { .. }
        | NodeKind::Super { .. }
        | NodeKind::ForwardingSuper { .. }
        | NodeKind::MultiWrite { .. }
        | NodeKind::MultiTarget { .. }
        | NodeKind::Alias { .. }
        | NodeKind::Undef { .. }
        | NodeKind::Defined { .. }
        | NodeKind::PinnedExpression { .. }
        | NodeKind::PinnedVariable { .. }
        | NodeKind::Hook { .. }
        | NodeKind::Transparent { .. } => true,
        _ => false,
    }
}

/// Whether a node of one of the remaining kinds is well formed, its own location
/// aside.
#[verifier::spinoff_prover]
fn others_ok(n: &Node, source: &[u8], comments: &Vec<CommentInfo>) -> (r: bool)
    requires
        loc_in(n.loc, source@.len()),
        is_other_kind(n.kind),
    ensures
        r == node_wf(*n, source@, comments_view(comments@)),
    decreases *n, 2int,
{
    match &n.kind {
        NodeKind::Begin { begin_keyword, statements, rescue_clause, else_clause, ensure_clause, end_keyword, } => opt_loc_ok(*begin_keyword, source) && opt_stmts_ok(statements, source, comments) && match rescue_clause {
            Some(r) => rescue_ok(r, source, comments),
            None => true,
        } && opt_ok(else_clause, source, comments) && opt_ok(ensure_clause, source, comments) && opt_loc_ok(*end_keyword, source),
        NodeKind::RescueClause(r) => rescue_ok(r, source, comments),
        NodeKind::Ensure { statements } => opt_stmts_ok(statements, source, comments),
        NodeKind::Joined { left, joiner, right } => node_ok(&**left, source, comments) && node_ok(&**right, source, comments),
        NodeKind::Jump { keyword, arguments } => opt_nodes_ok(arguments, source, comments),
        NodeKind::Yield { lparen, arguments } => opt_loc_ok(*lparen, source) && opt_nodes_ok(arguments, source, comments),
        NodeKind::Super { lparen, arguments, block } => opt_loc_ok(*lparen, source) && opt_nodes_ok(arguments, source, comments) && opt_ok(block, source, comments),
        NodeKind::ForwardingSuper { block } => opt_ok(block, source, comments),
        NodeKind::MultiWrite { lefts, rest, rights, lparen, operator, value } => nodes_ok(lefts, source, comments) && opt_ok(rest, source, comments) && nodes_ok(rights, source, comments) && opt_loc_ok(*lparen, source) && loc_ok(*operator, source) && node_ok(&**value, source, comments),
        NodeKind::MultiTarget { lefts, rest, rights, lparen } => nodes_ok(lefts, source, comments) && opt_ok(rest, source, comments) && nodes_ok(rights, source, comments) && opt_loc_ok(*lparen, source),
        NodeKind::Alias { new_name, old_name } => node_ok(&**new_name, source, comments) && node_ok(&**old_name, source, comments),
        NodeKind::Undef { names } => nodes_ok(names, source, comments),
        NodeKind::Defined { lparen, value } => opt_loc_ok(*lparen, source) && node_ok(&**value, source, comments),
        NodeKind::PinnedExpression { expression } => node_ok(&**expression, source, comments),
        NodeKind::PinnedVariable { variable } => node_ok(&**variable, source, comments),
        NodeKind::Hook { keyword, opening, statements, closing } => loc_ok(*opening, source) && opt_stmts_ok(statements, source, comments) && loc_ok(*closing, source),
        NodeKind::Transparent { inner } => node_ok(&**inner, source, comments),
        _ => true,
    }
}

} // verus!
