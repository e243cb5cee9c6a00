//! Goldilocks: a Ruby beautifier.
//!
//! Ruby source, once parsed, is converted into a pretty-printing
//! intermediate representation, which is then printed respecting a
//! configurable column width (100 by default).
use vstd::prelude::*;

pub mod ir;
pub mod printer;
pub mod width;
pub mod ast;
pub mod text;
pub mod comments;
pub mod layout;
pub mod docs;
pub mod formatter;
pub mod measure;
pub mod laws;
pub mod frame;
pub mod shape;
pub mod wellformed;

use crate::ast::Node;
use crate::comments::{comments_view, CommentInfo, CommentView};
use crate::formatter::format_program;
use crate::layout::{comments_wf, node_wf, program_doc};
use crate::measure::is_printable;
use crate::printer::{print_doc, printable, printed};
use crate::text::{chars_of, concat_str};
use crate::wellformed::tree_ok;

verus! {

/// Configuration for the formatter.
#[derive(Debug, Clone, Copy)]
pub struct FormatConfig {
    /// Maximum line width before rewrapping kicks in.
    pub max_width: usize,
    /// Number of spaces per indentation level.
    pub indent_width: usize,
    /// Whether to add a trailing newline.
    pub trailing_newline: bool,
}

impl Default for FormatConfig {
    fn default() -> (r: Self)
        ensures
            r.max_width == 100,
            r.indent_width == 2,
            r.trailing_newline,
    {
        FormatConfig { max_width: 100, indent_width: 2, trailing_newline: true }
    }
}


/// The standard library's I/O error.
#[verifier::external_type_specification]
#[verifier::external_body]
pub struct ExIoError(std::io::Error);

/// Errors that can occur during formatting.
#[derive(Debug)]
pub enum FormatError {
    /// The parser reported errors; their messages, one per line.
    ParseError(String),
    /// Reading or writing failed.
    IoError(std::io::Error),
    /// The document is too large for the printer's column counters.
    TooLarge,
    /// The syntax tree given does not fit the source: a location lies
    /// outside it, or statements and comments are out of order.
    InvalidTree,
}

impl From<std::io::Error> for FormatError {
    fn from(e: std::io::Error) -> (r: Self) {
        FormatError::IoError(e)
    }
}

impl vstd::std_specs::convert::FromSpecImpl<std::io::Error> for FormatError {
    open spec fn obeys_from_spec() -> bool {
        true
    }

    open spec fn from_spec(e: std::io::Error) -> Self {
        FormatError::IoError(e)
    }
}

/// `e.to_string()`: the message of an I/O error. Nothing is claimed of
/// the text, which comes from the operating system.
#[verifier::external_body]
fn io_error_text(e: &std::io::Error) -> (r: String) {
    e.to_string()
}

impl FormatError {
    /// The error as a message for the user.
    pub fn message(&self) -> (r: String)
        ensures
            self matches FormatError::ParseError(m) ==> r@ == "Parse error: "@ + m@,
            self is IoError ==> r@.len() >= 10 && r@.take(10) == "IO error: "@,
            self is TooLarge ==> r@ == "Document too large to print"@,
            self is InvalidTree ==> r@ == "Syntax tree does not match the source"@,
    {
        match self {
            FormatError::ParseError(m) => concat_str("Parse error: ", m.as_str()),
            FormatError::IoError(e) => {
                let t = io_error_text(e);
                let r = concat_str("IO error: ", t.as_str());
                proof {
                    reveal_strlit("IO error: ");
                    assert(r@.take(10) =~= "IO error: "@);
                }
                r
            },
            FormatError::TooLarge => "Document too large to print".to_owned(),
            FormatError::InvalidTree => "Syntax tree does not match the source".to_owned(),
        }
    }
}

/// Messages joined by newlines.
pub open spec fn join_lines(msgs: Seq<Seq<char>>) -> Seq<char>
    decreases msgs.len(),
{
    if msgs.len() == 0 {
        Seq::empty()
    } else if msgs.len() == 1 {
        msgs[0]
    } else {
        join_lines(msgs.drop_last()) + "\n"@ + msgs.last()
    }
}

/// The texts of a list of strings.
pub open spec fn strings_view(v: Seq<String>) -> Seq<Seq<char>> {
    v.map_values(|s: String| s@)
}

/// The printed text, with a newline added at the end when asked for and
/// not there already.
pub open spec fn finish_output(out: Seq<char>, trailing_newline: bool) -> Seq<char> {
    if trailing_newline && !(out.len() > 0 && out.last() == '\n') {
        out.push('\n')
    } else {
        out
    }
}

/// With a trailing newline asked for, the output ends with a newline, and
/// finishing it again changes nothing; without, the output is as printed.
pub proof fn law_trailing_newline(out: Seq<char>)
    ensures
        finish_output(out, true).len() > 0,
        finish_output(out, true).last() == '\n',
        finish_output(finish_output(out, true), true) == finish_output(out, true),
        finish_output(out, false) == out,
{
}

/// Join parse error messages with newlines.
fn join_messages(msgs: &Vec<String>) -> (r: String)
    ensures
        r@ == join_lines(strings_view(msgs@)),
{
    let ghost sv = strings_view(msgs@);
    let mut out = String::new();
    let mut i: usize = 0;
    while i < msgs.len()
        invariant
            i <= msgs@.len(),
            sv == strings_view(msgs@),
            out@ == join_lines(sv.take(i as int)),
        decreases msgs.len() - i,
    {
        proof {
            assert(sv.take(i + 1).drop_last() =~= sv.take(i as int));
            assert(sv.take(i + 1).last() == msgs@[i as int]@);
            if i == 0 {
                assert(sv.take(1) =~= seq![msgs@[0]@]);
            }
        }
        if i > 0 {
            out.append("\n");
        }
        out.append(msgs[i].as_str());
        i += 1;
    }
    proof {
        assert(sv.take(msgs@.len() as int) =~= sv);
    }
    out
}

/// Add the trailing newline when asked for and missing.
fn finish(output: String, trailing_newline: bool) -> (r: String)
    ensures
        r@ == finish_output(output@, trailing_newline),
{
    let chars = chars_of(output.as_str());
    let ends_nl = chars.len() > 0 && chars[chars.len() - 1] == '\n';
    if trailing_newline && !ends_nl {
        let r = concat_str(output.as_str(), "\n");
        proof {
            reveal_strlit("\n");
            assert(r@ =~= output@.push('\n'));
        }
        r
    } else {
        output
    }
}

/// Format a parsed Ruby source, returning the beautified output.
///
/// `errors` are the parser's messages: when there is any, the result is a
/// `ParseError` with the messages one per line. Otherwise the program is
/// formatted with its comments and printed at `config.max_width`.
pub fn format_parsed(
    source: &[u8],
    errors: Vec<String>,
    program: &Node,
    comments: &Vec<CommentInfo>,
    config: &FormatConfig,
) -> (r: Result<String, FormatError>)
    requires
        node_wf(*program, source@, comments_view(comments@)),
        comments_wf(comments_view(comments@), source@.len()),
    ensures
        errors@.len() > 0 ==> (r matches Err(FormatError::ParseError(m)) && m@ == join_lines(
            strings_view(errors@),
        )),
        errors@.len() == 0 && printable(program_doc(*program, source@, comments_view(comments@)), *config)
            ==> (r matches Ok(s) && s@ == finish_output(
            printed(program_doc(*program, source@, comments_view(comments@)), *config),
            config.trailing_newline,
        )),
        errors@.len() == 0 && !printable(program_doc(*program, source@, comments_view(comments@)), *config)
            ==> r matches Err(FormatError::TooLarge),
{
    if errors.len() > 0 {
        return Err(FormatError::ParseError(join_messages(&errors)));
    }
    let doc = format_program(program, source, comments, config);
    if !is_printable(&doc, config) {
        return Err(FormatError::TooLarge);
    }
    let output = print_doc(&doc, config);
    Ok(finish(output, config.trailing_newline))
}

/// What Prism reports of a source: how many errors, and its comments.
pub uninterp spec fn prism_report(source: Seq<u8>) -> (nat, Seq<CommentView>);

/// `ruby_prism::parse` of `source`: the errors it reports, each as `{:?}`
/// prints it, and its comments with their offsets, their text (invalid
/// UTF-8 replaced) and whether they are `#` comments. The number of
/// errors and the comments are named as what Prism gives for the source;
/// the error texts are not stated, for the debug form of a diagnostic
/// shows addresses in the parser's memory.
#[verifier::external_body]
fn parse_report(source: &[u8]) -> (r: (Vec<String>, Vec<CommentInfo>))
    ensures
        (r.0@.len(), comments_view(r.1@)) == prism_report(source@),
{
    let result = ruby_prism::parse(source);
    let errors = result.errors().map(|e| format!("{:?}", e)).collect();
    let comments = result.comments().map(|c| CommentInfo {
        start_offset: c.location().start() as usize,
        end_offset: c.location().end() as usize,
        text: String::from_utf8_lossy(c.text()).into_owned(),
        is_inline: matches!(c.type_(), ruby_prism::CommentType::InlineComment),
    }).collect();
    (errors, comments)
}

/// The bytes of a source text: its UTF-8 encoding.
pub open spec fn source_bytes(source: Seq<char>) -> Seq<u8> {
    vstd::utf8::encode_utf8(source)
}

/// The program tree fits the source bytes and their comments.
pub open spec fn tree_fits(program: Node, src: Seq<u8>, cs: Seq<CommentView>) -> bool {
    node_wf(program, src, cs) && comments_wf(cs, src.len())
}

/// Format Ruby source, given the program tree parsed from it.
///
/// Prism reads the source for its errors and comments. When it reports an
/// error, the result is a `ParseError` with the messages one per line.
/// Otherwise the program, which must fit the source, is formatted with
/// the comments and printed at `config.max_width`.
pub fn format_source(source: &str, program: &Node, config: &FormatConfig) -> (r: Result<
    String,
    FormatError,
>)
    ensures
        prism_report(source_bytes(source@)).0 > 0 ==> r matches Err(FormatError::ParseError(_)),
        prism_report(source_bytes(source@)).0 == 0 && !tree_fits(
            *program,
            source_bytes(source@),
            prism_report(source_bytes(source@)).1,
        ) ==> r matches Err(FormatError::InvalidTree),
        prism_report(source_bytes(source@)).0 == 0 && tree_fits(
            *program,
            source_bytes(source@),
            prism_report(source_bytes(source@)).1,
        ) ==> {
            let doc = program_doc(*program, source_bytes(source@), prism_report(source_bytes(source@)).1);
            &&& printable(doc, *config) ==> (r matches Ok(s) && s@ == finish_output(
                printed(doc, *config),
                config.trailing_newline,
            ))
            &&& !printable(doc, *config) ==> r matches Err(FormatError::TooLarge)
        },
{
    let bytes = source.as_bytes();
    let (errors, comments) = parse_report(bytes);
    if errors.len() > 0 {
        return Err(FormatError::ParseError(join_messages(&errors)));
    }
    if !tree_ok(program, bytes, &comments) {
        return Err(FormatError::InvalidTree);
    }
    format_parsed(bytes, errors, program, &comments, config)
}

} // verus!
