//! The Ruby syntax tree that the formatter reads.
//!
//! Each node holds, as plain values, what formatting needs of it: its
//! source range, the source ranges of its keywords and delimiters, names,
//! and its children. Node kinds that format alike share a variant.
use vstd::prelude::*;

verus! {

/// A byte range `[start, end)` of the source.
#[derive(Debug, Clone, Copy)]
pub struct Loc {
    pub start: usize,
    pub end: usize,
}

/// A syntax node: its source range and what kind of node it is.
#[derive(Debug)]
pub struct Node {
    pub loc: Loc,
    pub kind: NodeKind,
}

/// A list of statements and its source range.
#[derive(Debug)]
pub struct Stmts {
    pub loc: Loc,
    pub body: Vec<Node>,
}

/// The parameters of a method, block or lambda.
#[derive(Debug)]
pub struct Params {
    pub loc: Loc,
    pub requireds: Vec<Node>,
    pub optionals: Vec<Node>,
    pub rest: Option<Box<Node>>,
    pub posts: Vec<Node>,
    pub keywords: Vec<Node>,
    pub keyword_rest: Option<Box<Node>>,
    pub block: Option<Box<Node>>,
}

/// A `rescue` clause and the clauses that follow it.
#[derive(Debug)]
pub struct Rescue {
    pub exceptions: Vec<Node>,
    pub reference: Option<Box<Node>>,
    pub statements: Option<Stmts>,
    pub subsequent: Option<Box<Rescue>>,
}

/// A method call.
#[derive(Debug)]
pub struct Call {
    pub receiver: Option<Box<Node>>,
    pub call_operator: Option<Loc>,
    /// The method name, as the parser gives it.
    pub name: Vec<u8>,
    pub message: Option<Loc>,
    /// The opening parenthesis or bracket of the arguments.
    pub opening: Option<Loc>,
    pub arguments: Option<Vec<Node>>,
    /// The closing parenthesis or bracket of the arguments.
    pub closing: Option<Loc>,
    /// A block (`do ... end`, `{ ... }`) or a block argument (`&blk`).
    pub block: Option<Box<Node>>,
}

/// The keyword of a `while` or `until` loop.
#[derive(Debug, Clone, Copy)]
pub enum LoopKeyword {
    While,
    Until,
}

/// The keyword of a `return`, `break` or `next`.
#[derive(Debug, Clone, Copy)]
pub enum JumpKeyword {
    Return,
    Break,
    Next,
}

/// The keyword of a `BEGIN { }` or `END { }` block.
#[derive(Debug, Clone, Copy)]
pub enum HookKeyword {
    Begin,
    End,
}

/// What stands between the two sides of a `Joined` node.
#[derive(Debug, Clone, Copy)]
pub enum Joiner {
    /// ` in ` (pattern match predicate).
    In,
    /// ` => ` (required pattern match, capture pattern).
    Arrow,
    /// ` | ` (alternation pattern).
    Pipe,
    /// ` rescue ` (rescue modifier).
    Rescue,
}

/// The kinds of node that formatting tells apart.
#[derive(Debug)]
#[allow(inconsistent_fields)]
pub enum NodeKind {
    /// Printed as its source text (literals, reads, targets, patterns, ...).
    Source,
    /// The whole program.
    Program { statements: Stmts },
    /// A list of statements.
    Statements { body: Vec<Node> },
    /// `name op value` for variable and constant writes (`=`, `&&=`, `||=`, `+=`, ...).
    NameWrite { name: Loc, operator: Loc, value: Box<Node> },
    /// `target op value` for constant path writes.
    TargetWrite { target: Box<Node>, operator: Loc, value: Box<Node> },
    /// `Parent::Name`.
    ConstantPath { parent: Option<Box<Node>>, delimiter: Loc, name: Option<Vec<u8>> },
    /// A string literal.
    Str { opening: Option<Loc>, content: Loc, closing: Option<Loc> },
    /// A string with interpolation.
    InterpolatedStr { opening: Option<Loc>, parts: Vec<Node>, closing: Option<Loc> },
    /// A backtick string.
    XStr { opening: Loc, content: Loc, closing: Loc },
    /// A backtick string with interpolation.
    InterpolatedXStr { opening: Loc, closing: Loc },
    /// `#{ ... }` inside a string.
    EmbeddedStatements { opening: Loc, statements: Option<Stmts>, closing: Loc },
    /// `#@var` inside a string.
    EmbeddedVariable { operator: Loc, variable: Box<Node> },
    /// An array literal.
    Array { opening: Option<Loc>, elements: Vec<Node>, closing: Option<Loc> },
    /// A hash literal.
    Hash { opening: Loc, elements: Vec<Node>, closing: Loc },
    /// Keyword arguments without braces.
    KeywordHash { elements: Vec<Node> },
    /// `key => value` or `key: value`.
    Assoc { key: Box<Node>, operator: Option<Loc>, value: Box<Node> },
    /// `*expr` or `**expr`, the operand optional.
    Splat { operator: Loc, expression: Option<Box<Node>> },
    /// `&expr` passed as the block of a call.
    BlockArgument { operator: Loc, expression: Option<Box<Node>> },
    /// `left..right`.
    Range { left: Option<Box<Node>>, operator: Loc, right: Option<Box<Node>> },
    /// A method definition.
    Def {
        receiver: Option<Box<Node>>,
        operator: Option<Loc>,
        name: Vec<u8>,
        name_loc: Loc,
        parameters: Option<Params>,
        lparen: Option<Loc>,
        rparen: Option<Loc>,
        equal: Option<Loc>,
        body: Option<Box<Node>>,
        end_keyword: Option<Loc>,
    },
    /// A class definition.
    Class { constant_path: Box<Node>, superclass: Option<Box<Node>>, body: Option<Box<Node>> },
    /// A module definition.
    Module { constant_path: Box<Node>, body: Option<Box<Node>> },
    /// `class << expr`.
    SingletonClass { operator: Loc, expression: Box<Node>, body: Option<Box<Node>> },
    /// A method call.
    Call(Call),
    /// `recv.name op value` (`&&=`, `||=`, `+=`, ...).
    CallWrite {
        receiver: Option<Box<Node>>,
        call_operator: Option<Loc>,
        message: Option<Loc>,
        operator: Loc,
        value: Box<Node>,
    },
    /// `recv.name` as an assignment target.
    CallTarget { receiver: Box<Node>, call_operator: Loc, name: Vec<u8> },
    /// `recv[args] op value`.
    IndexWrite {
        receiver: Option<Box<Node>>,
        opening: Loc,
        arguments: Option<Vec<Node>>,
        closing: Loc,
        operator: Loc,
        value: Box<Node>,
    },
    /// `recv[args]` as an assignment target.
    IndexTarget { receiver: Box<Node>, opening: Loc, arguments: Option<Vec<Node>>, closing: Loc },
    /// An argument list.
    Arguments { arguments: Vec<Node> },
    /// A block: `do ... end` or `{ ... }`.
    Block { opening: Loc, parameters: Option<Box<Node>>, body: Option<Box<Node>> },
    /// `->(params) { body }`.
    Lambda {
        opening: Loc,
        closing: Loc,
        parameters: Option<Box<Node>>,
        body: Option<Box<Node>>,
    },
    /// `|params; locals|`.
    BlockParameters {
        opening: Option<Loc>,
        parameters: Option<Params>,
        locals: Vec<Node>,
        closing: Option<Loc>,
    },
    /// A parameter or block local printed as its name.
    Name { name: Vec<u8> },
    /// `name = value`.
    OptionalParameter { name: Vec<u8>, value: Box<Node> },
    /// `*name`, `**name` or `&name`, the name optional.
    PrefixedName { operator: Loc, name: Option<Vec<u8>> },
    /// `name:`.
    RequiredKeyword { name: Vec<u8> },
    /// `name: value`.
    OptionalKeyword { name: Vec<u8>, value: Box<Node> },
    /// `**nil`.
    NoKeywords,
    /// Implicit parameters, printed as nothing.
    Nothing,
    /// `if` (block form, `elsif`, modifier form or ternary).
    If {
        if_keyword: Option<Loc>,
        predicate: Box<Node>,
        statements: Option<Stmts>,
        subsequent: Option<Box<Node>>,
        end_keyword: Option<Loc>,
    },
    /// `unless` (block or modifier form).
    Unless {
        keyword: Loc,
        predicate: Box<Node>,
        statements: Option<Stmts>,
        else_clause: Option<Box<Node>>,
        end_keyword: Option<Loc>,
    },
    /// `else` and its statements.
    Else { statements: Option<Stmts> },
    /// `case` (with `when` or `in` clauses).
    Case { predicate: Option<Box<Node>>, conditions: Vec<Node>, else_clause: Option<Box<Node>> },
    /// `when conditions`.
    When { conditions: Vec<Node>, statements: Option<Stmts> },
    /// `in pattern`.
    In { pattern: Box<Node>, statements: Option<Stmts> },
    /// `while` or `until` (block or modifier form).
    Loop { keyword: LoopKeyword, keyword_loc: Loc, predicate: Box<Node>, statements: Option<Stmts> },
    /// `for index in collection`.
    For { index: Box<Node>, collection: Box<Node>, statements: Option<Stmts> },
    /// `left op right` for `and`, `or`, `&&`, `||`.
    Logical { left: Box<Node>, operator: Loc, right: Box<Node> },
    /// `( body )`.
    Parentheses { opening: Loc, body: Option<Box<Node>>, closing: Loc },
    /// `begin ... rescue ... else ... ensure ... end`, explicit or implicit.
    Begin {
        begin_keyword: Option<Loc>,
        statements: Option<Stmts>,
        rescue_clause: Option<Rescue>,
        else_clause: Option<Box<Node>>,
        ensure_clause: Option<Box<Node>>,
        end_keyword: Option<Loc>,
    },
    /// A `rescue` clause standing as a node.
    RescueClause(Rescue),
    /// `ensure` and its statements.
    Ensure { statements: Option<Stmts> },
    /// `left joiner right`.
    Joined { left: Box<Node>, joiner: Joiner, right: Box<Node> },
    /// `return`, `break` or `next` with optional arguments.
    Jump { keyword: JumpKeyword, arguments: Option<Vec<Node>> },
    /// `yield` with optional arguments.
    Yield { lparen: Option<Loc>, arguments: Option<Vec<Node>> },
    /// `super` with optional arguments and block.
    Super { lparen: Option<Loc>, arguments: Option<Vec<Node>>, block: Option<Box<Node>> },
    /// `super` forwarding all arguments.
    ForwardingSuper { block: Option<Box<Node>> },
    /// `a, *b, c = value`.
    MultiWrite {
        lefts: Vec<Node>,
        rest: Option<Box<Node>>,
        rights: Vec<Node>,
        lparen: Option<Loc>,
        operator: Loc,
        value: Box<Node>,
    },
    /// `(a, *b, c)` as a target.
    MultiTarget { lefts: Vec<Node>, rest: Option<Box<Node>>, rights: Vec<Node>, lparen: Option<Loc> },
    /// `alias new old`.
    Alias { new_name: Box<Node>, old_name: Box<Node> },
    /// `undef names`.
    Undef { names: Vec<Node> },
    /// `defined?(value)` or `defined? value`.
    Defined { lparen: Option<Loc>, value: Box<Node> },
    /// `^(expr)`.
    PinnedExpression { expression: Box<Node> },
    /// `^var`.
    PinnedVariable { variable: Box<Node> },
    /// `BEGIN { }` or `END { }`.
    Hook { keyword: HookKeyword, opening: Loc, statements: Option<Stmts>, closing: Loc },
    /// A node formatted as its one child (shareable constants, implicit
    /// values, match writes).
    Transparent { inner: Box<Node> },
}

} // verus!
