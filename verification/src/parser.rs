//! The recursive-descent parser.

use vstd::prelude::*;
use crate::cursor::uncons;
use crate::expr::{Expr, MAX_CHAR};
use crate::grammar::{
    join, lemma_join_last_two, lemma_parse_loop_atom, lemma_parse_loop_operator,
    spec_concatenate, spec_parse, spec_parse_loop, ParseError,
};
use crate::laws::{all_reduced, parse_is_reduced, parse_loop_is_reduced};

verus! {

/// Smart constructor for `Concatenate`: an `Empty` operand is dropped.
pub fn concatenate(left: Expr, right: Expr) -> (e: Expr)
    ensures
        e == spec_concatenate(left, right),
{
    match left {
        Expr::Empty => right,
        _ => match right {
            Expr::Empty => left,
            _ => Expr::Concatenate(Box::new(left), Box::new(right)),
        },
    }
}

/// Folds the patterns on `stack` into their concatenation and leaves the
/// stack empty.
pub fn coalesce(stack: &mut Vec<Expr>) -> (e: Expr)
    ensures
        e == join(old(stack)@),
        final(stack)@ == Seq::<Expr>::empty(),
{
    let ghost initial = stack@;
    while stack.len() > 1
        invariant
            join(stack@) == join(initial),
        decreases stack.len(),
    {
        let ghost before = stack@;
        proof {
            lemma_join_last_two(before);
        }
        let right = stack.pop().unwrap();
        let left = stack.pop().unwrap();
        stack.push(concatenate(left, right));
        assert(stack@ =~= before.take(before.len() - 2).push(
            spec_concatenate(before[before.len() - 2], before[before.len() - 1]),
        ));
    }
    let ghost rest = stack@;
    let last = stack.pop();
    assert(stack@ =~= Seq::<Expr>::empty());
    proof {
        if rest.len() == 1 {
            assert(join(rest) == spec_concatenate(rest[0], join(rest.skip(1))));
            assert(join(rest.skip(1)) == Expr::Empty);
        }
    }
    match last {
        Some(e) => e,
        None => Expr::Empty,
    }
}

/// Parses one scope from the front of `s`, with `stack` holding the
/// patterns that stand before `s` in the same scope, and returns the
/// scope's pattern with the input that it left unread. The stack is left
/// empty.
pub fn parse_loop<'a>(s: &'a str, stack: &mut Vec<Expr>) -> (r: Result<
    (Expr, &'a str),
    ParseError,
>)
    ensures
        match r {
            Ok((e, tail)) => spec_parse_loop(s@, old(stack)@) == Ok::<
                (Expr, Seq<char>),
                ParseError,
            >((e, tail@)),
            Err(err) => spec_parse_loop(s@, old(stack)@) == Err::<(Expr, Seq<char>), ParseError>(
                err,
            ),
        },
        final(stack)@ == Seq::<Expr>::empty(),
        all_reduced(old(stack)@) ==> (r matches Ok((e, _)) ==> e.is_reduced()),
    decreases s@.len(),
{
    proof {
        if all_reduced(stack@) {
            parse_loop_is_reduced(s@, stack@);
        }
    }
    match uncons(s) {
        Some((c, s1)) => {
            if c == '.' {
                proof {
                    lemma_parse_loop_atom(s@, stack@);
                }
                stack.push(Expr::Range('\0', MAX_CHAR));
                parse_loop(s1, stack)
            } else if c == '|' {
                proof {
                    lemma_parse_loop_operator(s@, stack@);
                }
                let left = coalesce(stack);
                match parse_loop(s1, stack) {
                    Ok((right, tail)) => Ok((Expr::Alternate(Box::new(left), Box::new(right)), tail)),
                    Err(err) => Err(err),
                }
            } else if c == '(' {
                proof {
                    lemma_parse_loop_operator(s@, stack@);
                }
                let before = coalesce(stack);
                match parse_loop(s1, stack) {
                    Ok((inner, tail)) => match uncons(tail) {
                        Some((close, after)) => {
                            if close == ')' {
                                Ok((concatenate(before, inner), after))
                            } else {
                                Err(ParseError::UnbalancedParenthesis)
                            }
                        },
                        None => Err(ParseError::UnbalancedParenthesis),
                    },
                    Err(err) => Err(err),
                }
            } else if c == ')' {
                proof {
                    lemma_parse_loop_operator(s@, stack@);
                }
                Ok((coalesce(stack), s))
            } else {
                proof {
                    lemma_parse_loop_atom(s@, stack@);
                }
                stack.push(Expr::Range(c, c));
                parse_loop(s1, stack)
            }
        },
        None => {
            proof {
                lemma_parse_loop_operator(s@, stack@);
            }
            Ok((coalesce(stack), s))
        },
    }
}

/// Parses one scope from the front of `s`, starting with nothing before it.
pub fn parse_main<'a>(s: &'a str) -> (r: Result<(Expr, &'a str), ParseError>)
    ensures
        match r {
            Ok((e, tail)) => spec_parse_loop(s@, Seq::empty()) == Ok::<
                (Expr, Seq<char>),
                ParseError,
            >((e, tail@)),
            Err(err) => spec_parse_loop(s@, Seq::empty()) == Err::<(Expr, Seq<char>), ParseError>(
                err,
            ),
        },
{
    let mut stack: Vec<Expr> = Vec::new();
    parse_loop(s, &mut stack)
}

/// Parses a pattern into its syntax tree.
pub fn parse(s: &str) -> (r: Result<Expr, ParseError>)
    ensures
        r == spec_parse(s@),
        r matches Ok(e) ==> e.is_reduced(),
{
    proof {
        parse_is_reduced(s@);
    }
    match parse_main(s) {
        Ok((e, tail)) => {
            if tail.is_empty() {
                Ok(e)
            } else {
                Err(ParseError::TrailingInput)
            }
        },
        Err(err) => Err(err),
    }
}

} // verus!
