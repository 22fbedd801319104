//! What a pattern means, as spec functions over `Seq<char>`.
//!
//! A scope of a pattern is a run of atoms followed by the end of the input
//! or by one of the three operators. The run folds into one expression; the
//! operator decides what becomes of it.

use vstd::prelude::*;
use crate::expr::Expr;

verus! {

/// How parsing can fail.
#[derive(Clone, Copy, Debug, PartialEq, Eq)]
pub enum ParseError {
    /// A `)` stands where the expression has ended, and the rest of the
    /// input is left over.
    TrailingInput,
    /// The content of a group is not followed by `)`.
    UnbalancedParenthesis,
}

impl ParseError {
    /// The words that describe the error.
    pub open spec fn spec_message(self) -> Seq<char> {
        match self {
            ParseError::TrailingInput => "invalid syntax"@,
            ParseError::UnbalancedParenthesis => "unbalanced parenthesis"@,
        }
    }

    /// A short description of the error, for a report to the user.
    pub fn message(&self) -> (m: &'static str)
        ensures
            m@ == self.spec_message(),
    {
        match self {
            ParseError::TrailingInput => "invalid syntax",
            ParseError::UnbalancedParenthesis => "unbalanced parenthesis",
        }
    }
}

/// The concatenation of two patterns, with `Empty` as the identity.
pub open spec fn spec_concatenate(left: Expr, right: Expr) -> Expr {
    if left is Empty {
        right
    } else if right is Empty {
        left
    } else {
        Expr::Concatenate(Box::new(left), Box::new(right))
    }
}

/// The concatenation of a run of patterns: `Empty` for no pattern, else the
/// first concatenated with the rest of the run.
pub open spec fn join(items: Seq<Expr>) -> Expr
    decreases items.len(),
{
    if items.len() == 0 {
        Expr::Empty
    } else {
        spec_concatenate(items[0], join(items.skip(1)))
    }
}

/// Folding the last two patterns of a run into one leaves the join of the
/// run as it was.
pub proof fn lemma_join_last_two(items: Seq<Expr>)
    requires
        items.len() >= 2,
    ensures
        join(items) == join(
            items.take(items.len() - 2).push(
                spec_concatenate(items[items.len() - 2], items[items.len() - 1]),
            ),
        ),
    decreases items.len(),
{
    let n = items.len() as int;
    let tail = items.skip(1);
    let folded = items.take(n - 2).push(spec_concatenate(items[n - 2], items[n - 1]));
    assert(join(items) == spec_concatenate(items[0], join(tail)));
    assert(join(folded) == spec_concatenate(folded[0], join(folded.skip(1))));
    if n == 2 {
        assert(join(tail) == spec_concatenate(tail[0], join(tail.skip(1))));
        assert(join(tail.skip(1)) == Expr::Empty);
        assert(join(folded.skip(1)) == Expr::Empty);
    } else {
        lemma_join_last_two(tail);
        assert(folded.skip(1) =~= tail.take(n - 3).push(
            spec_concatenate(tail[n - 3], tail[n - 2]),
        ));
    }
}

/// The characters that end a run of atoms.
pub open spec fn is_operator(c: char) -> bool {
    c == '|' || c == '(' || c == ')'
}

/// The pattern that a character other than an operator stands for.
pub open spec fn atom(c: char) -> Expr {
    if c == '.' {
        Expr::any_char()
    } else {
        Expr::literal(c)
    }
}

/// The patterns of a run of atoms, in order.
pub open spec fn atoms(run: Seq<char>) -> Seq<Expr> {
    Seq::new(run.len(), |i: int| atom(run[i]))
}

/// The length of the longest prefix of `s` that holds no operator.
pub open spec fn atom_run(s: Seq<char>) -> nat
    decreases s.len(),
{
    if s.len() == 0 || is_operator(s[0]) {
        0
    } else {
        1 + atom_run(s.skip(1))
    }
}

/// The run of atoms at the front of `s` is no longer than `s`.
pub proof fn lemma_atom_run_bound(s: Seq<char>)
    ensures
        atom_run(s) <= s.len(),
    decreases s.len(),
{
    if s.len() != 0 && !is_operator(s[0]) {
        lemma_atom_run_bound(s.skip(1));
    }
}

/// One scope of a pattern, parsed from the front of `s`, with `stack`
/// holding the patterns that stand before `s` in the same scope.
///
/// The stack and the atoms at the front of `s` join into a head. At the end
/// of the input or before a `)` the head is the result and the rest is
/// handed back unread. After `|` the remainder is parsed as a scope of its
/// own and the result is the alternation of the head and that scope. After
/// `(` the remainder is parsed as a scope that has to stop at a `)`; the
/// result is the head concatenated with that scope, and what follows the
/// `)` is handed back.
pub open spec fn spec_parse_loop(s: Seq<char>, stack: Seq<Expr>) -> Result<
    (Expr, Seq<char>),
    ParseError,
>
    decreases s.len(),
{
    let run = atom_run(s) as int;
    let head = join(stack + atoms(s.take(run)));
    let rest = s.skip(run);
    if rest.len() == 0 || rest[0] == ')' {
        Ok((head, rest))
    } else {
        proof {
            lemma_atom_run_bound(s);
        }
        match spec_parse_loop(rest.skip(1), Seq::empty()) {
            Ok((scope, tail)) => {
                if rest[0] == '|' {
                    Ok((Expr::Alternate(Box::new(head), Box::new(scope)), tail))
                } else if tail.len() > 0 && tail[0] == ')' {
                    Ok((spec_concatenate(head, scope), tail.skip(1)))
                } else {
                    Err(ParseError::UnbalancedParenthesis)
                }
            },
            Err(e) => Err(e),
        }
    }
}

/// An atom at the front of the input moves onto the stack.
pub proof fn lemma_parse_loop_atom(s: Seq<char>, stack: Seq<Expr>)
    requires
        s.len() > 0,
        !is_operator(s[0]),
    ensures
        spec_parse_loop(s, stack) == spec_parse_loop(s.skip(1), stack.push(atom(s[0]))),
{
    let tail = s.skip(1);
    let run = atom_run(tail) as int;
    lemma_atom_run_bound(tail);
    assert(atom_run(s) == run + 1);
    assert(stack + atoms(s.take(run + 1)) =~= stack.push(atom(s[0])) + atoms(tail.take(run)));
    assert(s.skip(run + 1) =~= tail.skip(run));
}

/// With an operator or nothing at the front of the input, the head of the
/// scope is the join of the stack.
pub proof fn lemma_parse_loop_operator(s: Seq<char>, stack: Seq<Expr>)
    requires
        s.len() == 0 || is_operator(s[0]),
    ensures
        atom_run(s) == 0,
        stack + atoms(s.take(0)) == stack,
        s.skip(0) == s,
{
    assert(stack + atoms(s.take(0)) =~= stack);
    assert(s.skip(0) =~= s);
}

/// A whole pattern: one scope with nothing left over.
pub open spec fn spec_parse(s: Seq<char>) -> Result<Expr, ParseError> {
    match spec_parse_loop(s, Seq::empty()) {
        Ok((e, tail)) => {
            if tail.len() > 0 {
                Err(ParseError::TrailingInput)
            } else {
                Ok(e)
            }
        },
        Err(e) => Err(e),
    }
}

} // verus!
