use goldilocks::ir::{join_comma_separated, Doc};
use goldilocks::printer::print_doc;
use goldilocks::FormatConfig;

fn cfg(width: usize) -> FormatConfig {
    FormatConfig { max_width: width, indent_width: 2, trailing_newline: true }
}

fn pair(a: &str, b: &str) -> Doc {
    Doc::group(Doc::concat(vec![Doc::text(a), Doc::softline(), Doc::text(b)]))
}

#[test]
fn group_of_exactly_max_width_stays_flat() {
    let a = "a".repeat(49);
    let b = "b".repeat(50);
    let out = print_doc(&pair(&a, &b), &cfg(100));
    assert_eq!(out, format!("{} {}", a, b));
    assert_eq!(out.len(), 100);
}

#[test]
fn group_one_column_over_breaks() {
    let a = "a".repeat(50);
    let b = "b".repeat(50);
    let out = print_doc(&pair(&a, &b), &cfg(100));
    assert_eq!(out, format!("{}\n{}", a, b));
}

#[test]
fn hardline_always_breaks() {
    let d = Doc::group(Doc::concat(vec![Doc::text("a"), Doc::hardline(), Doc::text("b")]));
    assert_eq!(print_doc(&d, &cfg(100)), "a\nb");
}

#[test]
fn indent_applies_after_newline() {
    let d = Doc::concat(vec![
        Doc::text("def f"),
        Doc::indent(Doc::concat(vec![Doc::hardline(), Doc::text("x")])),
        Doc::hardline(),
        Doc::text("end"),
    ]);
    assert_eq!(print_doc(&d, &cfg(100)), "def f\n  x\nend");
}

#[test]
fn broken_arguments_are_indented() {
    let args = join_comma_separated(vec![Doc::text("aaaa"), Doc::text("bbbb")]);
    let d = Doc::group(Doc::concat(vec![
        Doc::text("f("),
        Doc::indent(Doc::concat(vec![Doc::softline_empty(), args])),
        Doc::softline_empty(),
        Doc::text(")"),
    ]));
    assert_eq!(print_doc(&d, &cfg(100)), "f(aaaa, bbbb)");
    assert_eq!(print_doc(&d, &cfg(10)), "f(\n  aaaa,\n  bbbb\n)");
}

#[test]
fn if_break_follows_the_group() {
    let d = Doc::group(Doc::concat(vec![
        Doc::text("xxxx"),
        Doc::if_break(Doc::text("B"), Doc::text("F")),
        Doc::softline(),
        Doc::text("yyyy"),
    ]));
    assert_eq!(print_doc(&d, &cfg(100)), "xxxxF yyyy");
    assert_eq!(print_doc(&d, &cfg(5)), "xxxxB\nyyyy");
}

#[test]
fn line_suffix_goes_to_end_of_line() {
    let d = Doc::concat(vec![
        Doc::text("x"),
        Doc::line_suffix(Doc::text(" # c")),
        Doc::text(" = 1"),
        Doc::hardline(),
        Doc::text("y"),
    ]);
    assert_eq!(print_doc(&d, &cfg(100)), "x = 1 # c\ny");
}

#[test]
fn verbatim_is_printed_as_is() {
    let d = Doc::concat(vec![Doc::text("a"), Doc::verbatim("\n  keep  \nthis")]);
    assert_eq!(print_doc(&d, &cfg(100)), "a\n  keep  \nthis");
}

#[test]
fn best_of_prints_first_variant_that_fits() {
    let d = Doc::best_of(vec![
        Doc::text("a-very-long-flat-variant"),
        Doc::text("short"),
        Doc::text("last"),
    ]);
    assert_eq!(print_doc(&d, &cfg(10)), "short");
    assert_eq!(print_doc(&d, &cfg(100)), "a-very-long-flat-variant");
}

#[test]
fn best_of_falls_back_to_last() {
    let d = Doc::best_of(vec![Doc::text("xxxxxxxx"), Doc::text("yyyyyyyy")]);
    assert_eq!(print_doc(&d, &cfg(3)), "yyyyyyyy");
}

#[test]
fn concat_prints_as_its_parts() {
    let parts = vec![Doc::text("a"), Doc::Empty, Doc::Concat(vec![Doc::text("b"), Doc::text("c")])];
    let flat = Doc::Concat(vec![Doc::text("a"), Doc::text("b"), Doc::text("c")]);
    assert_eq!(print_doc(&Doc::concat(parts), &cfg(100)), print_doc(&flat, &cfg(100)));
}

#[test]
fn trailing_whitespace_removed_on_blank_lines() {
    let d = Doc::indent(Doc::concat(vec![
        Doc::text("a"),
        Doc::hardline(),
        Doc::hardline(),
        Doc::text("b"),
    ]));
    assert_eq!(print_doc(&d, &cfg(100)), "a\n\n  b");
}

#[test]
fn wide_characters_count_as_one_column() {
    let d = pair("é", "x");
    assert_eq!(print_doc(&d, &cfg(3)), "é x");
    assert_eq!(print_doc(&d, &cfg(2)), "é\nx");
    let d = pair("éé", "éé");
    assert_eq!(print_doc(&d, &cfg(5)), "éé éé");
    assert_eq!(print_doc(&d, &cfg(4)), "éé\néé");
}

#[test]
fn text_then_aligned_document_prints_from_the_text_end() {
    let d = Doc::concat(vec![Doc::text("x = "), Doc::align(4, pair("aaa", "bbb"))]);
    assert_eq!(print_doc(&d, &cfg(8)), "x = aaa\n    bbb");
    assert_eq!(print_doc(&d, &cfg(11)), "x = aaa bbb");
}

#[test]
fn a_group_that_fits_keeps_fitting_on_a_wider_line() {
    let d = pair("aaaa", "bbbb");
    assert_eq!(print_doc(&d, &cfg(9)), "aaaa bbbb");
    assert_eq!(print_doc(&d, &cfg(10)), "aaaa bbbb");
    assert_eq!(print_doc(&d, &cfg(8)), "aaaa\nbbbb");
}

#[test]
fn aligned_document_with_no_text_before_it_prints_from_column_zero() {
    let d = Doc::concat(vec![Doc::text(""), Doc::align(4, pair("aaa", "bbb"))]);
    assert_eq!(print_doc(&d, &cfg(5)), "aaa\n    bbb");
    assert_eq!(print_doc(&d, &cfg(7)), "aaa bbb");
}
