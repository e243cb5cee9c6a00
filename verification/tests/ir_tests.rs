use goldilocks::ir::{join, join_comma_separated, Doc};
use goldilocks::printer::print_doc;
use goldilocks::FormatConfig;

fn render(d: &Doc) -> String {
    print_doc(d, &FormatConfig::default())
}

#[test]
fn text_of_empty_string_is_empty() {
    assert!(matches!(Doc::text(""), Doc::Empty));
    assert!(matches!(Doc::text("a"), Doc::Text(ref s) if s == "a"));
}

#[test]
fn concat_drops_empty_and_flattens() {
    let inner = Doc::Concat(vec![Doc::text("b"), Doc::Empty, Doc::text("c")]);
    let d = Doc::concat(vec![Doc::text("a"), Doc::Empty, inner]);
    match &d {
        Doc::Concat(parts) => {
            assert_eq!(parts.len(), 3);
            assert!(matches!(&parts[0], Doc::Text(s) if s == "a"));
            assert!(matches!(&parts[1], Doc::Text(s) if s == "b"));
            assert!(matches!(&parts[2], Doc::Text(s) if s == "c"));
        }
        _ => panic!("expected a concatenation"),
    }
}

#[test]
fn concat_of_one_part_is_that_part() {
    let d = Doc::concat(vec![Doc::Empty, Doc::text("x")]);
    assert!(matches!(d, Doc::Text(ref s) if s == "x"));
    assert!(matches!(Doc::concat(vec![]), Doc::Empty));
}

#[test]
fn align_zero_is_identity() {
    assert!(matches!(Doc::align(0, Doc::text("x")), Doc::Text(_)));
    assert!(matches!(Doc::align(3, Doc::text("x")), Doc::Align(3, _)));
}

#[test]
fn best_of_single_variant_is_that_variant() {
    assert!(matches!(Doc::best_of(vec![Doc::text("x")]), Doc::Text(_)));
    assert!(matches!(Doc::best_of(vec![Doc::text("x"), Doc::text("y")]), Doc::BestOf(_)));
}

#[test]
fn join_puts_separator_between() {
    let d = join(Doc::text("-"), vec![Doc::text("a"), Doc::text("b"), Doc::text("c")]);
    assert_eq!(render(&d), "a-b-c");
}

#[test]
fn join_comma_separated_flat_and_broken() {
    let d = Doc::group(join_comma_separated(vec![Doc::text("a"), Doc::text("b")]));
    assert_eq!(render(&d), "a, b");
    let narrow = FormatConfig { max_width: 3, indent_width: 2, trailing_newline: true };
    let d = Doc::group(join_comma_separated(vec![Doc::text("a"), Doc::text("b")]));
    assert_eq!(print_doc(&d, &narrow), "a,\nb");
}

#[test]
fn softline_variants() {
    assert!(matches!(Doc::softline(), Doc::Softline { ref flat_alt } if flat_alt == " "));
    assert!(matches!(Doc::softline_empty(), Doc::Softline { ref flat_alt } if flat_alt.is_empty()));
    assert!(matches!(Doc::line_or(";"), Doc::Softline { ref flat_alt } if flat_alt == ";"));
}

#[test]
fn clone_keeps_the_document() {
    let d = Doc::group(Doc::concat(vec![Doc::text("a"), Doc::softline(), Doc::text("b")]));
    let c = d.clone();
    assert_eq!(render(&d), render(&c));
}

#[test]
fn break_parent_forces_the_group_to_break() {
    let d = Doc::group(Doc::concat(vec![Doc::text("a"), Doc::softline(), Doc::text("b"), Doc::break_parent()]));
    assert!(matches!(Doc::break_parent(), Doc::BreakParent));
    assert_eq!(render(&d), "a\nb");
}
