use goldilocks::ast::{Call, Loc, Node, NodeKind, Params, Rescue, Stmts};
use goldilocks::formatter::{format_program, CommentInfo};
use goldilocks::printer::print_doc;
use goldilocks::wellformed::tree_ok;
use goldilocks::{format_parsed, format_source, FormatConfig, FormatError};

fn at(src: &str, pat: &str) -> Loc {
    let start = src.find(pat).expect("pattern in source");
    Loc { start, end: start + pat.len() }
}

fn at_from(src: &str, from: usize, pat: &str) -> Loc {
    let start = from + src[from..].find(pat).expect("pattern in source");
    Loc { start, end: start + pat.len() }
}

fn node(loc: Loc, kind: NodeKind) -> Node {
    Node { loc, kind }
}

fn source_node(loc: Loc) -> Node {
    node(loc, NodeKind::Source)
}

fn program(src: &str, body: Vec<Node>) -> Node {
    let loc = Loc { start: 0, end: src.len() };
    node(loc, NodeKind::Program { statements: Stmts { loc, body } })
}

fn format(src: &str, prog: &Node, comments: &Vec<CommentInfo>) -> String {
    let config = FormatConfig::default();
    match format_parsed(src.as_bytes(), vec![], prog, comments, &config) {
        Ok(s) => s,
        Err(e) => panic!("formatting failed: {}", e.message()),
    }
}

fn call(name: &str, receiver: Option<Node>, op: Option<Loc>, message: Option<Loc>, opening: Option<Loc>, args: Option<Vec<Node>>) -> Node {
    node(
        Loc { start: 0, end: 0 },
        NodeKind::Call(Call {
            receiver: receiver.map(Box::new),
            call_operator: op,
            name: name.as_bytes().to_vec(),
            message,
            opening,
            arguments: args,
            closing: None,
            block: None,
        }),
    )
}

fn string_lit(src: &str, lit: &str) -> Node {
    let l = at(src, lit);
    node(
        l,
        NodeKind::Str {
            opening: Some(Loc { start: l.start, end: l.start + 1 }),
            content: Loc { start: l.start + 1, end: l.end - 1 },
            closing: Some(Loc { start: l.end - 1, end: l.end }),
        },
    )
}

#[test]
fn single_quotes_become_double() {
    let src = "x = 'hello'";
    let w = node(
        at(src, src),
        NodeKind::NameWrite { name: at(src, "x"), operator: at(src, "="), value: Box::new(string_lit(src, "'hello'")) },
    );
    assert_eq!(format(src, &program(src, vec![w]), &vec![]), "x = \"hello\"\n");
}

#[test]
fn single_quotes_kept_when_content_has_double_quote() {
    let src = "x = 'say \"hi\"'";
    let w = node(
        at(src, src),
        NodeKind::NameWrite { name: at(src, "x"), operator: at(src, "="), value: Box::new(string_lit(src, "'say \"hi\"'")) },
    );
    assert_eq!(format(src, &program(src, vec![w]), &vec![]), "x = 'say \"hi\"'\n");
}

#[test]
fn word_array_spacing_normalized() {
    let src = "%w[a   b\n  c]";
    let elems = vec![source_node(at(src, "a")), source_node(at(src, "b")), source_node(at(src, "c"))];
    let arr = node(
        at(src, src),
        NodeKind::Array { opening: Some(at(src, "%w[")), elements: elems, closing: Some(at(src, "]")) },
    );
    assert_eq!(format(src, &program(src, vec![arr]), &vec![]), "%w[a b c]\n");
}

#[test]
fn hash_has_no_spaces_inside_braces() {
    let src = "{ a: 1 }";
    let assoc = node(
        at(src, "a: 1"),
        NodeKind::Assoc { key: Box::new(source_node(at(src, "a:"))), operator: None, value: Box::new(source_node(at(src, "1"))) },
    );
    let h = node(at(src, src), NodeKind::Hash { opening: at(src, "{"), elements: vec![assoc], closing: at(src, "}") });
    assert_eq!(format(src, &program(src, vec![h]), &vec![]), "{a: 1}\n");
}

#[test]
fn empty_hash_and_array() {
    let src = "{}\nx";
    let h = node(at(src, "{}"), NodeKind::Hash { opening: at(src, "{"), elements: vec![], closing: at(src, "}") });
    let a = node(at(src, "x"), NodeKind::Array { opening: None, elements: vec![], closing: None });
    assert_eq!(format(src, &program(src, vec![h, a]), &vec![]), "{}\n[]\n");
}

#[test]
fn blank_lines_between_statements_kept_once() {
    let src = "a\n\n\n\nb\nc";
    let body = vec![source_node(at(src, "a")), source_node(at(src, "b")), source_node(at(src, "c"))];
    assert_eq!(format(src, &program(src, body), &vec![]), "a\n\nb\nc\n");
}

#[test]
fn leading_and_trailing_comments_kept() {
    let src = "# lead\nx = 1 # trail\n";
    let w = node(
        at(src, "x = 1"),
        NodeKind::NameWrite { name: at(src, "x"), operator: at(src, "="), value: Box::new(source_node(at(src, "1"))) },
    );
    let lead = at(src, "# lead");
    let trail = at(src, "# trail");
    let comments = vec![
        CommentInfo { start_offset: lead.start, end_offset: lead.end, text: "# lead".to_string(), is_inline: true },
        CommentInfo { start_offset: trail.start, end_offset: trail.end, text: "# trail".to_string(), is_inline: true },
    ];
    assert_eq!(format(src, &program(src, vec![w]), &comments), "# lead\nx = 1 # trail\n");
}

#[test]
fn comment_after_last_statement_is_kept() {
    let src = "a\n\n# the end\n";
    let c = at(src, "# the end");
    let comments = vec![CommentInfo { start_offset: c.start, end_offset: c.end, text: "# the end   ".to_string(), is_inline: true }];
    assert_eq!(format(src, &program(src, vec![source_node(at(src, "a"))]), &comments), "a\n# the end\n");
}

#[test]
fn def_with_body() {
    let src = "def foo\n      bar\nend";
    let body = node(at(src, "bar"), NodeKind::Statements { body: vec![source_node(at(src, "bar"))] });
    let d = node(
        at(src, src),
        NodeKind::Def {
            receiver: None,
            operator: None,
            name: b"foo".to_vec(),
            name_loc: at(src, "foo"),
            parameters: None,
            lparen: None,
            rparen: None,
            equal: None,
            body: Some(Box::new(body)),
            end_keyword: Some(at(src, "end")),
        },
    );
    assert_eq!(format(src, &program(src, vec![d]), &vec![]), "def foo\n  bar\nend\n");
}

#[test]
fn call_arguments_break_past_the_width() {
    let a = "a".repeat(45);
    let b = "b".repeat(45);
    let src = format!("foo({}, {})", a, b);
    let args = vec![source_node(at(&src, &a)), source_node(at(&src, &b))];
    let c = call("foo", None, None, Some(at(&src, "foo")), Some(at(&src, "(")), Some(args));
    let out = format(&src, &program(&src, vec![c]), &vec![]);
    assert_eq!(out, format!("foo({}, {})\n", a, b));
    let a2 = "a".repeat(49);
    let src2 = format!("foo({}, {})", a2, b);
    let args2 = vec![source_node(at(&src2, &a2)), source_node(at(&src2, &b))];
    let c2 = call("foo", None, None, Some(at(&src2, "foo")), Some(at(&src2, "(")), Some(args2));
    let out2 = format(&src2, &program(&src2, vec![c2]), &vec![]);
    assert_eq!(out2, format!("foo(\n  {},\n  {}\n)\n", a2, b));
}

#[test]
fn binary_operator_spaced() {
    let src = "1+2";
    let c = call("+", Some(source_node(at(src, "1"))), None, Some(at(src, "+")), None, Some(vec![source_node(at(src, "2"))]));
    assert_eq!(format(src, &program(src, vec![c]), &vec![]), "1 + 2\n");
}

#[test]
fn long_method_chain_always_breaks() {
    let src = "a.b.c.d.e";
    let dot = |i: usize| Some(at_from(src, i, "."));
    let mut n = source_node(at(src, "a"));
    let names = ["b", "c", "d", "e"];
    for (k, name) in names.iter().enumerate() {
        let op_start = 1 + 2 * k;
        n = call(name, Some(n), dot(op_start), Some(at_from(src, op_start, name)), None, None);
    }
    assert_eq!(format(src, &program(src, vec![n]), &vec![]), "a\n  .b\n  .c\n  .d\n  .e\n");
}

#[test]
fn short_two_segment_chain_stays_flat() {
    let src = "a.b.c";
    let inner = call("b", Some(source_node(at(src, "a"))), Some(at_from(src, 1, ".")), Some(at(src, "b")), None, None);
    let outer = call("c", Some(inner), Some(at_from(src, 3, ".")), Some(at(src, "c")), None, None);
    assert_eq!(format(src, &program(src, vec![outer]), &vec![]), "a.b.c\n");
}

#[test]
fn if_else_block_form() {
    let src = "if x\n y\nelse\n z\nend";
    let else_node = node(
        at(src, "else\n z\n"),
        NodeKind::Else { statements: Some(Stmts { loc: at(src, "z"), body: vec![source_node(at(src, "z"))] }) },
    );
    let i = node(
        at(src, src),
        NodeKind::If {
            if_keyword: Some(at(src, "if")),
            predicate: Box::new(source_node(at(src, "x"))),
            statements: Some(Stmts { loc: at(src, "y"), body: vec![source_node(at(src, "y"))] }),
            subsequent: Some(Box::new(else_node)),
            end_keyword: Some(at(src, "end")),
        },
    );
    assert_eq!(format(src, &program(src, vec![i]), &vec![]), "if x\n  y\nelse\n  z\nend\n");
}

#[test]
fn modifier_if_stays_modifier() {
    let src = "y if x";
    let i = node(
        at(src, src),
        NodeKind::If {
            if_keyword: Some(at(src, "if")),
            predicate: Box::new(source_node(at(src, "x"))),
            statements: Some(Stmts { loc: at(src, "y"), body: vec![source_node(at(src, "y"))] }),
            subsequent: None,
            end_keyword: None,
        },
    );
    assert_eq!(format(src, &program(src, vec![i]), &vec![]), "y if x\n");
}

#[test]
fn parse_errors_are_reported_one_per_line() {
    let src = "x";
    let prog = program(src, vec![source_node(at(src, "x"))]);
    let config = FormatConfig::default();
    let r = format_parsed(src.as_bytes(), vec!["first".to_string(), "second".to_string()], &prog, &vec![], &config);
    match r {
        Err(FormatError::ParseError(m)) => assert_eq!(m, "first\nsecond"),
        _ => panic!("expected a parse error"),
    }
}

#[test]
fn parse_error_message_text() {
    let e = FormatError::ParseError("bad".to_string());
    assert_eq!(e.message(), "Parse error: bad");
    assert_eq!(FormatError::TooLarge.message(), "Document too large to print");
    assert_eq!(FormatError::InvalidTree.message(), "Syntax tree does not match the source");
    let io = FormatError::from(std::io::Error::new(std::io::ErrorKind::Other, "boom"));
    assert!(io.message().starts_with("IO error: "));
}

#[test]
fn no_trailing_newline_when_not_asked() {
    let src = "x";
    let prog = program(src, vec![source_node(at(src, "x"))]);
    let config = FormatConfig { max_width: 100, indent_width: 2, trailing_newline: false };
    match format_parsed(src.as_bytes(), vec![], &prog, &vec![], &config) {
        Ok(s) => assert_eq!(s, "x"),
        Err(_) => panic!("expected output"),
    }
}

#[test]
fn format_program_then_print() {
    let src = "puts 'hi'";
    let c = call("puts", None, None, Some(at(src, "puts")), None, Some(vec![string_lit(src, "'hi'")]));
    let prog = program(src, vec![c]);
    let config = FormatConfig::default();
    let doc = format_program(&prog, src.as_bytes(), &vec![], &config);
    assert_eq!(print_doc(&doc, &config), "puts \"hi\"");
}

#[test]
fn invalid_utf8_names_are_replaced() {
    let src = "x";
    let n = node(at(src, "x"), NodeKind::Name { name: vec![0x66, 0xff, 0x6f] });
    let config = FormatConfig::default();
    let prog = program(src, vec![n]);
    let doc = format_program(&prog, src.as_bytes(), &vec![], &config);
    assert_eq!(print_doc(&doc, &config), "f\u{FFFD}o");
}

#[test]
fn default_config_values() {
    let c = FormatConfig::default();
    assert_eq!(c.max_width, 100);
    assert_eq!(c.indent_width, 2);
    assert!(c.trailing_newline);
}

#[test]
fn well_formed_trees_are_recognized() {
    let src = "a\nb";
    let good = program(src, vec![source_node(at(src, "a")), source_node(at(src, "b"))]);
    assert!(tree_ok(&good, src.as_bytes(), &vec![]));
    let outside = program(src, vec![source_node(Loc { start: 2, end: 9 })]);
    assert!(!tree_ok(&outside, src.as_bytes(), &vec![]));
    let reversed = program(src, vec![source_node(at(src, "b")), source_node(at(src, "a"))]);
    assert!(!tree_ok(&reversed, src.as_bytes(), &vec![]));
    let straddling = vec![CommentInfo { start_offset: 0, end_offset: 3, text: "#x".to_string(), is_inline: true }];
    let later = program(src, vec![source_node(at(src, "b"))]);
    assert!(!tree_ok(&later, src.as_bytes(), &straddling));
    let past_end = vec![CommentInfo { start_offset: 2, end_offset: 9, text: "#x".to_string(), is_inline: true }];
    assert!(!tree_ok(&good, src.as_bytes(), &past_end));
}

#[test]
fn heredoc_body_follows_the_line() {
    let src = "x = <<~EOS\n  hi\nEOS\n";
    let open = at(src, "<<~EOS");
    let content = at(src, "  hi\n");
    let close = at_from(src, content.end, "EOS\n");
    let heredoc = node(open, NodeKind::Str { opening: Some(open), content, closing: Some(close) });
    let w = node(
        Loc { start: 0, end: open.end },
        NodeKind::NameWrite { name: at(src, "x"), operator: at(src, "="), value: Box::new(heredoc) },
    );
    assert_eq!(format(src, &program(src, vec![w]), &vec![]), "x = <<~EOS\n  hi\nEOS\n");
}

#[test]
fn brace_block_stays_on_one_line() {
    let src = "foo {   |x|   x }";
    let x_param = at(src, "x|");
    let x_param = Loc { start: x_param.start, end: x_param.start + 1 };
    let params = Params {
        loc: x_param,
        requireds: vec![node(x_param, NodeKind::Name { name: b"x".to_vec() })],
        optionals: vec![],
        rest: None,
        posts: vec![],
        keywords: vec![],
        keyword_rest: None,
        block: None,
    };
    let first_bar = at(src, "|");
    let second_bar = at_from(src, first_bar.end, "|");
    let block_params = node(
        Loc { start: first_bar.start, end: second_bar.end },
        NodeKind::BlockParameters { opening: Some(first_bar), parameters: Some(params), locals: vec![], closing: Some(second_bar) },
    );
    let body_x = at_from(src, second_bar.end, "x");
    let body = node(body_x, NodeKind::Statements { body: vec![source_node(body_x)] });
    let block = node(
        Loc { start: at(src, "{").start, end: src.len() },
        NodeKind::Block { opening: at(src, "{"), parameters: Some(Box::new(block_params)), body: Some(Box::new(body)) },
    );
    let c = node(
        at(src, src),
        NodeKind::Call(Call {
            receiver: None,
            call_operator: None,
            name: b"foo".to_vec(),
            message: Some(at(src, "foo")),
            opening: None,
            arguments: None,
            closing: None,
            block: Some(Box::new(block)),
        }),
    );
    assert_eq!(format(src, &program(src, vec![c]), &vec![]), "foo { |x| x }\n");
}

#[test]
fn begin_rescue_block_form() {
    let src = "begin\n a\nrescue E => e\n b\nend";
    let b_loc = Loc { start: at(src, " b\n").start + 1, end: at(src, " b\n").start + 2 };
    let rescue = Rescue {
        exceptions: vec![source_node(at(src, "E"))],
        reference: Some(Box::new(source_node(Loc { start: at(src, "=> e").start + 3, end: at(src, "=> e").end }))),
        statements: Some(Stmts { loc: b_loc, body: vec![source_node(b_loc)] }),
        subsequent: None,
    };
    let b = node(
        at(src, src),
        NodeKind::Begin {
            begin_keyword: Some(at(src, "begin")),
            statements: Some(Stmts { loc: at(src, "a"), body: vec![source_node(at(src, "a"))] }),
            rescue_clause: Some(rescue),
            else_clause: None,
            ensure_clause: None,
            end_keyword: Some(at(src, "end")),
        },
    );
    assert_eq!(format(src, &program(src, vec![b]), &vec![]), "begin\n  a\nrescue E => e\n  b\nend\n");
}

#[test]
fn trailing_comment_stays_on_its_element_line() {
    let src = "x = [\n  1, # one\n  2\n]\n";
    let arr = node(
        Loc { start: 4, end: src.rfind(']').unwrap() + 1 },
        NodeKind::Array {
            opening: Some(at(src, "[")),
            elements: vec![source_node(at(src, "1")), source_node(at(src, "2"))],
            closing: Some(at(src, "]")),
        },
    );
    let w = node(
        Loc { start: 0, end: arr.loc.end },
        NodeKind::NameWrite { name: at(src, "x"), operator: at(src, "="), value: Box::new(arr) },
    );
    let c = at(src, "# one");
    let comments = vec![CommentInfo { start_offset: c.start, end_offset: c.end, text: "# one".to_string(), is_inline: true }];
    assert_eq!(format(src, &program(src, vec![w]), &comments), "x = [\n  1, # one\n  2\n]\n");
}

#[test]
fn trailing_comment_after_last_element_stays_before_the_bracket() {
    let src = "x = [\n  1,\n  2 # two\n]\n";
    let arr = node(
        Loc { start: 4, end: src.rfind(']').unwrap() + 1 },
        NodeKind::Array {
            opening: Some(at(src, "[")),
            elements: vec![source_node(at(src, "1")), source_node(at(src, "2"))],
            closing: Some(at(src, "]")),
        },
    );
    let w = node(
        Loc { start: 0, end: arr.loc.end },
        NodeKind::NameWrite { name: at(src, "x"), operator: at(src, "="), value: Box::new(arr) },
    );
    let c = at(src, "# two");
    let comments = vec![CommentInfo { start_offset: c.start, end_offset: c.end, text: "# two".to_string(), is_inline: true }];
    assert_eq!(format(src, &program(src, vec![w]), &comments), "x = [\n  1,\n  2 # two\n]\n");
}

#[test]
fn trailing_comment_in_call_arguments_stays_on_its_line() {
    let src = "foo(a, # first\n  b)\n";
    let mut c = call(
        "foo",
        None,
        None,
        Some(at(src, "foo")),
        Some(at(src, "(")),
        Some(vec![source_node(at(src, "a")), source_node(at(src, "b"))]),
    );
    if let NodeKind::Call(ref mut k) = c.kind {
        k.closing = Some(at(src, ")"));
    }
    c.loc = Loc { start: 0, end: src.find(')').unwrap() + 1 };
    let cm = at(src, "# first");
    let comments = vec![CommentInfo { start_offset: cm.start, end_offset: cm.end, text: "# first".to_string(), is_inline: true }];
    assert_eq!(format(src, &program(src, vec![c]), &comments), "foo(\n  a, # first\n  b\n)\n");
}

#[test]
fn source_is_parsed_for_its_comments() {
    let src = "# lead\nx = 1 # trail\n";
    let w = node(
        at(src, "x = 1"),
        NodeKind::NameWrite { name: at(src, "x"), operator: at(src, "="), value: Box::new(source_node(at(src, "1"))) },
    );
    let config = FormatConfig::default();
    match format_source(src, &program(src, vec![w]), &config) {
        Ok(s) => assert_eq!(s, "# lead\nx = 1 # trail\n"),
        Err(e) => panic!("formatting failed: {}", e.message()),
    }
}

#[test]
fn source_with_syntax_error_gives_parse_error() {
    let src = "def (";
    let config = FormatConfig::default();
    match format_source(src, &program(src, vec![]), &config) {
        Err(FormatError::ParseError(m)) => assert!(!m.is_empty()),
        _ => panic!("expected a parse error"),
    }
}

#[test]
fn tree_outside_the_source_is_refused() {
    let src = "x\n";
    let outside = program(src, vec![source_node(Loc { start: 0, end: 9 })]);
    let config = FormatConfig::default();
    match format_source(src, &outside, &config) {
        Err(FormatError::InvalidTree) => {}
        _ => panic!("expected the tree to be refused"),
    }
}

#[test]
fn own_line_comments_in_a_list_keep_their_place() {
    let src = "x = [\n  # first\n  1,\n  2,\n  # last\n]\n";
    let arr = node(
        Loc { start: 4, end: src.rfind(']').unwrap() + 1 },
        NodeKind::Array {
            opening: Some(at(src, "[")),
            elements: vec![source_node(at(src, "1")), source_node(at(src, "2"))],
            closing: Some(at(src, "]")),
        },
    );
    let w = node(
        Loc { start: 0, end: arr.loc.end },
        NodeKind::NameWrite { name: at(src, "x"), operator: at(src, "="), value: Box::new(arr) },
    );
    let first = at(src, "# first");
    let last = at(src, "# last");
    let comments = vec![
        CommentInfo { start_offset: first.start, end_offset: first.end, text: "# first".to_string(), is_inline: true },
        CommentInfo { start_offset: last.start, end_offset: last.end, text: "# last".to_string(), is_inline: true },
    ];
    assert_eq!(format(src, &program(src, vec![w]), &comments), "x = [\n  # first\n  1,\n  2\n  # last\n]\n");
}
