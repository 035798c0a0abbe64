use stabilize::anchor::{locate_first, locate_last, position};
use stabilize::block::move_elements;
use stabilize::dir::Dir;
use stabilize::errors::{CannotFindInFile, EditError, OutOfBounds};
use stabilize::pattern::find_regex;
use stabilize::stabilize::Stabilize;

fn lines(texts: &[&str]) -> Vec<String> {
    texts.iter().map(|t| String::from(*t)).collect()
}

#[test]
fn locate_first_returns_the_smallest_index() {
    let ls = lines(&["alpha", "bx", "bx", "omega"]);
    assert_eq!(locate_first(&ls, "bx").unwrap(), 1);
    assert_eq!(locate_first(&ls, "a").unwrap(), 0);
    let err = locate_first(&ls, "zz").unwrap_err();
    assert_eq!(err.token, "zz");
}

#[test]
fn locate_last_returns_the_largest_index() {
    let ls = lines(&["alpha", "bx", "bx", "omega"]);
    assert_eq!(locate_last(&ls, "bx").unwrap(), 2);
    assert_eq!(position(&ls, "bx").unwrap(), 2);
    let err = position(&ls, "zz").unwrap_err();
    assert_eq!(err.token, "zz");
}

#[test]
fn move_elements_rejects_a_block_longer_than_the_sequence() {
    let mut ls = lines(&["a", "b", "c"]);
    assert!(move_elements(&mut ls, 0, 2, 4).is_err());
    assert_eq!(ls, lines(&["a", "b", "c"]));
    assert!(move_elements(&mut ls, 0, 2, 3).is_ok());
    assert!(move_elements(&mut ls, 2, 0, 1).is_ok());
}

#[test]
fn move_elements_places_the_block_at_the_destination() {
    let mut forward = lines(&["b0", "b1", "x", "y", "dst"]);
    move_elements(&mut forward, 0, 4, 2).unwrap();
    assert_eq!(forward, lines(&["x", "y", "dst", "b0", "b1"]));
    let mut backward = lines(&["dst", "x", "y", "b0", "b1"]);
    move_elements(&mut backward, 3, 0, 2).unwrap();
    assert_eq!(backward, lines(&["b0", "b1", "dst", "x", "y"]));
}

#[test]
fn find_regex_matches_through_the_compiled_pattern() {
    let ls = lines(&["foo", "bar baz"]);
    let (i, line) = find_regex(&ls, "b.r").unwrap();
    assert_eq!(i, 1);
    assert_eq!(line, "bar baz");
    assert!(matches!(find_regex(&ls, "("), Err(EditError::BadPattern)));
    match find_regex(&ls, "zap") {
        Err(EditError::NotFound(e)) => assert_eq!(e.token, "zap"),
        _ => panic!("expected a missing-key failure"),
    }
}

#[test]
fn stabilize_start_plans_the_sweep() {
    let plan = Stabilize::try_new("foo", String::from("/tree")).start();
    assert_eq!(plan.root, "/tree/src/test/ui/");
    assert_eq!(plan.marker, "#![feature(foo)]");
}

#[test]
fn dir_keeps_its_root_path() {
    let d = Dir::new(String::from("some/where"));
    assert_eq!(d.path().as_str(), "some/where");
}

#[test]
fn error_values_carry_their_messages() {
    let nf = CannotFindInFile { token: String::from("x") };
    assert_eq!(nf.message(), "cannot find the token x in the file ");
    let oob = OutOfBounds {};
    assert_eq!(
        oob.message(),
        "the number of places to move is larger than the length of the vector"
    );
}
