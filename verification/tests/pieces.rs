use regex_parse::{coalesce, concatenate, uncons, Expr};

fn lit(c: char) -> Expr {
    Expr::Range(c, c)
}

fn cat(left: Expr, right: Expr) -> Expr {
    Expr::Concatenate(Box::new(left), Box::new(right))
}

#[test]
fn uncons_of_nothing() {
    assert_eq!(uncons(""), None);
}

#[test]
fn uncons_splits_off_the_first_character() {
    assert_eq!(uncons("a"), Some(('a', "")));
    assert_eq!(uncons("abc"), Some(('a', "bc")));
    assert_eq!(uncons(")("), Some((')', "(")));
}

#[test]
fn uncons_counts_characters_not_bytes() {
    assert_eq!(uncons("éa"), Some(('é', "a")));
    assert_eq!(uncons("a€b"), Some(('a', "€b")));
    assert_eq!(uncons("\u{10FFFF}\u{1F600}"), Some(('\u{10FFFF}', "\u{1F600}")));
    assert_eq!(uncons("日本語"), Some(('日', "本語")));
}

#[test]
fn concatenate_drops_an_empty_left() {
    assert_eq!(concatenate(Expr::Empty, lit('a')), lit('a'));
}

#[test]
fn concatenate_drops_an_empty_right() {
    assert_eq!(concatenate(lit('a'), Expr::Empty), lit('a'));
}

#[test]
fn concatenate_of_two_empties_is_empty() {
    assert_eq!(concatenate(Expr::Empty, Expr::Empty), Expr::Empty);
}

#[test]
fn concatenate_builds_a_node() {
    assert_eq!(concatenate(lit('a'), lit('b')), cat(lit('a'), lit('b')));
    let alt = Expr::Alternate(Box::new(Expr::Empty), Box::new(Expr::Empty));
    let same = Expr::Alternate(Box::new(Expr::Empty), Box::new(Expr::Empty));
    assert_eq!(concatenate(alt, lit('b')), cat(same, lit('b')));
}

#[test]
fn coalesce_of_nothing_is_empty() {
    let mut stack: Vec<Expr> = Vec::new();
    assert_eq!(coalesce(&mut stack), Expr::Empty);
    assert!(stack.is_empty());
}

#[test]
fn coalesce_of_one_is_that_one() {
    let mut stack = vec![lit('a')];
    assert_eq!(coalesce(&mut stack), lit('a'));
    assert!(stack.is_empty());
}

#[test]
fn coalesce_of_two() {
    let mut stack = vec![lit('a'), lit('b')];
    assert_eq!(coalesce(&mut stack), cat(lit('a'), lit('b')));
    assert!(stack.is_empty());
}

#[test]
fn coalesce_folds_from_the_end() {
    let mut stack = vec![lit('a'), lit('b'), lit('c'), lit('d')];
    assert_eq!(coalesce(&mut stack), cat(lit('a'), cat(lit('b'), cat(lit('c'), lit('d')))));
    assert!(stack.is_empty());
}

#[test]
fn coalesce_drops_empties() {
    let mut stack = vec![Expr::Empty, lit('a'), Expr::Empty, Expr::Empty, lit('b'), Expr::Empty];
    assert_eq!(coalesce(&mut stack), cat(lit('a'), lit('b')));
    assert!(stack.is_empty());

    let mut stack = vec![Expr::Empty, Expr::Empty];
    assert_eq!(coalesce(&mut stack), Expr::Empty);
    assert!(stack.is_empty());
}
