use stabilize::file::{Direction, Handler};

fn doc(content: &str) -> Handler {
    Handler::try_new(String::from("dummy")).read(String::from(content))
}

#[test]
fn replace_replaces_in_a_file() {
    let mut file = doc("foo bar baz ");
    file.replace_all_occurrences("bar ", "");
    assert_eq!(file.contents(), "foo baz ");
}

#[test]
fn replace_where_line_contains_a_key() {
    let mut file = doc("foo bar baz ");
    file.search_and_replace("bar", "an entire new line");
    assert_eq!(file.contents(), "an entire new line");
}

#[test]
fn move_to_moves_the_line_after_specified() {
    let mut file = doc("foo\nbar baz\nqux\nquatre");
    file.move_to("qux", "bar").expect("cannot move file");
    assert_eq!(file.contents(), "foo\nqux\nbar baz\nquatre");
}

#[test]
fn move_n_lines_to_can_move_n_lines_before_the_key() {
    let mut file = doc("foo\nbar\nbaz qux\nquux\n");
    file.move_n_lines_to("quux", "bar", 1, Direction::Above).expect("cannot move file");
    assert_eq!(file.contents(), "baz qux\nquux\nfoo\nbar\n");
}

#[test]
fn replace_at_replaces_at_a_position() {
    let mut file = doc("foo\nbar\nbaz qux\nquux\n");
    file.replace_at(2, "baz", "changed");
    assert_eq!(file.contents(), "foo\nbar\nchanged qux\nquux\n");
}

#[test]
fn write_then_read_round_trip() {
    let mut file = Handler::try_new(String::from("dummy"));
    file.write("alpha\nbeta\n");
    assert_eq!(file.contents(), "alpha\nbeta\n");
}

#[test]
fn replace_line_rewrites_the_whole_line() {
    let mut file = doc("foo\nbar\nbaz");
    file.replace_line(1, "an entire new line");
    assert_eq!(file.contents(), "foo\nan entire new line\nbaz\n");
}

#[test]
fn delete_removes_every_matching_line() {
    let mut file = doc("foo\n#![feature(x)]\nbar\n");
    file.delete("#![feature(x)]");
    assert_eq!(file.contents(), "foo\nbar\n");
}

#[test]
fn lines_and_nth_follow_the_line_sequence() {
    let file = doc("foo\nbar\n");
    let lines = file.lines();
    assert_eq!(lines, vec![String::from("foo"), String::from("bar")]);
    assert_eq!(file.nth(1), Some(String::from("bar")));
    assert_eq!(file.nth(2), None);
    let empty = doc("");
    assert_eq!(empty.lines().len(), 0);
}

#[test]
fn move_n_lines_to_trims_a_blank_at_the_vacated_site() {
    let mut file = doc("a\n\nB\n\nquux");
    file.move_n_lines_to("quux", "B", 0, Direction::Below).expect("cannot move file");
    assert_eq!(file.contents(), "a\n\nquux\nB\n");
}

#[test]
fn move_n_lines_to_fails_when_the_block_does_not_fit() {
    let mut file = doc("foo\nbar");
    let above = file.move_n_lines_to("bar", "foo", 5, Direction::Above);
    assert!(matches!(above, Err(stabilize::errors::EditError::OutOfBounds(_))));
    let below = file.move_n_lines_to("bar", "foo", 5, Direction::Below);
    assert!(matches!(below, Err(stabilize::errors::EditError::OutOfBounds(_))));
    assert_eq!(file.contents(), "foo\nbar");
}

#[test]
fn replace_at_out_of_range_keeps_every_line() {
    let mut file = doc("foo\nbar");
    file.replace_at(9, "foo", "changed");
    assert_eq!(file.contents(), "foo\nbar\n");
}

#[test]
fn replace_at_touches_only_the_first_occurrence() {
    let mut file = doc("aa aa\naa");
    file.replace_at(0, "aa", "b");
    assert_eq!(file.contents(), "b aa\naa\n");
}

#[test]
fn search_and_replace_keeps_the_newline_structure() {
    let mut file = doc("keep\nbar one\nbar two\nend\n");
    file.search_and_replace("bar", "X");
    assert_eq!(file.contents(), "keep\nX\nX\nend\n");
}

#[test]
fn move_to_reports_the_missing_anchor() {
    let mut file = doc("foo\nbar");
    let missing_key = file.move_to("foo", "zap");
    match missing_key {
        Err(stabilize::errors::EditError::NotFound(e)) => assert_eq!(e.token, "zap"),
        _ => panic!("expected a missing-key failure"),
    }
    let missing_after = file.move_to("zap", "bar");
    match missing_after {
        Err(stabilize::errors::EditError::NotFound(e)) => assert_eq!(e.token, "zap"),
        _ => panic!("expected a missing-destination failure"),
    }
}
