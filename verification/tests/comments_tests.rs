use goldilocks::comments::{take_comments_between, take_remaining_comments, with_comments};
use goldilocks::formatter::CommentInfo;
use goldilocks::text::{count_newlines, is_trailing_comment};

fn comment(start: usize, text: &str) -> CommentInfo {
    CommentInfo { start_offset: start, end_offset: start + text.len(), text: text.to_string(), is_inline: true }
}

#[test]
fn take_places_only_the_range_once() {
    let cs = vec![comment(0, "# a"), comment(10, "# b"), comment(20, "# c")];
    let mut t = with_comments(&cs);
    assert_eq!(t.consumed, vec![false, false, false]);
    let taken = take_comments_between(&mut t, 5, 21);
    assert_eq!(taken.iter().map(|c| c.text.clone()).collect::<Vec<_>>(), vec!["# b", "# c"]);
    assert_eq!(t.consumed, vec![false, true, true]);
    let again = take_comments_between(&mut t, 0, 30);
    assert_eq!(again.len(), 1);
    assert_eq!(again[0].text, "# a");
    assert_eq!(t.consumed, vec![true, true, true]);
}

#[test]
fn remaining_comments_are_all_placed() {
    let cs = vec![comment(0, "# a"), comment(10, "# b")];
    let mut t = with_comments(&cs);
    let _ = take_comments_between(&mut t, 0, 5);
    let rest = take_remaining_comments(&mut t);
    assert_eq!(rest.len(), 1);
    assert_eq!(rest[0].text, "# b");
    assert_eq!(t.consumed, vec![true, true]);
    assert!(take_remaining_comments(&mut t).is_empty());
}

#[test]
fn newline_counting() {
    let src = b"a\n\nb # c";
    assert_eq!(count_newlines(src, 0, 4), 2);
    assert!(is_trailing_comment(src, 4, 5));
    assert!(!is_trailing_comment(src, 0, 4));
}

#[test]
fn taking_a_range_again_gives_nothing() {
    let cs = vec![comment(0, "# a"), comment(10, "# b")];
    let mut t = with_comments(&cs);
    let first = take_comments_between(&mut t, 0, 20);
    assert_eq!(first.len(), 2);
    let flags = t.consumed.clone();
    assert!(take_comments_between(&mut t, 0, 20).is_empty());
    assert_eq!(t.consumed, flags);
}
