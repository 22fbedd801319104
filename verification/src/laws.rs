//! Properties of the grammar, proved of every input.

use vstd::prelude::*;
use crate::expr::Expr;
use crate::grammar::{
    atom, atom_run, atoms, is_operator, join, lemma_atom_run_bound, spec_concatenate,
    spec_parse, spec_parse_loop, ParseError,
};

verus! {

/// Every pattern of `items` is free of `Concatenate` nodes with an `Empty`
/// child.
pub open spec fn all_reduced(items: Seq<Expr>) -> bool {
    forall|i: int| 0 <= i < items.len() ==> (#[trigger] items[i]).is_reduced()
}

/// The smart concatenation of two reduced patterns is reduced.
pub proof fn concatenate_is_reduced(left: Expr, right: Expr)
    requires
        left.is_reduced(),
        right.is_reduced(),
    ensures
        spec_concatenate(left, right).is_reduced(),
{
}

/// The join of reduced patterns is reduced.
pub proof fn join_is_reduced(items: Seq<Expr>)
    requires
        all_reduced(items),
    ensures
        join(items).is_reduced(),
    decreases items.len(),
{
    if items.len() > 0 {
        let tail = items.skip(1);
        assert forall|i: int| 0 <= i < tail.len() implies (#[trigger] tail[i]).is_reduced() by {
            assert(tail[i] == items[i + 1]);
        }
        join_is_reduced(tail);
        concatenate_is_reduced(items[0], join(tail));
    }
}

/// A scope parsed on top of reduced patterns is reduced.
pub proof fn parse_loop_is_reduced(s: Seq<char>, stack: Seq<Expr>)
    requires
        all_reduced(stack),
    ensures
        spec_parse_loop(s, stack) is Ok ==> spec_parse_loop(s, stack).unwrap().0.is_reduced(),
    decreases s.len(),
{
    let run = atom_run(s) as int;
    let items = stack + atoms(s.take(run));
    let head = join(items);
    let rest = s.skip(run);
    lemma_atom_run_bound(s);
    assert forall|i: int| 0 <= i < items.len() implies (#[trigger] items[i]).is_reduced() by {
        if i < stack.len() {
            assert(items[i] == stack[i]);
        } else {
            assert(items[i] == atom(s[i - stack.len()]));
        }
    }
    join_is_reduced(items);
    if !(rest.len() == 0 || rest[0] == ')') {
        parse_loop_is_reduced(rest.skip(1), Seq::empty());
        if spec_parse_loop(rest.skip(1), Seq::empty()) is Ok {
            concatenate_is_reduced(head, spec_parse_loop(rest.skip(1), Seq::empty()).unwrap().0);
        }
    }
}

/// Whatever pattern parses, its tree holds no `Concatenate` node with an
/// `Empty` child.
pub proof fn parse_is_reduced(s: Seq<char>)
    ensures
        spec_parse(s) is Ok ==> spec_parse(s).unwrap().is_reduced(),
{
    parse_loop_is_reduced(s, Seq::empty());
}

/// A pattern of one character that is neither `.` nor an operator parses to
/// the range that holds this character alone.
pub proof fn parse_single_literal(c: char)
    requires
        c != '.',
        !is_operator(c),
    ensures
        spec_parse(seq![c]) == Ok::<Expr, ParseError>(Expr::literal(c)),
{
    let s = seq![c];
    assert(s.skip(1).len() == 0);
    assert(atom_run(s.skip(1)) == 0);
    assert(atom_run(s) == 1);
    let items = Seq::<Expr>::empty() + atoms(s.take(1));
    assert(items =~= seq![Expr::literal(c)]);
    assert(join(items) == spec_concatenate(items[0], join(items.skip(1))));
    assert(join(items.skip(1)) == Expr::Empty);
}

/// Parsing depends on the characters of the pattern and on nothing else:
/// two strings that hold the same characters parse to the same result.
pub proof fn parse_depends_on_characters_only(a: &str, b: &str)
    requires
        a@ == b@,
    ensures
        spec_parse(a@) == spec_parse(b@),
{
}

/// No character of `s` is a parenthesis.
pub open spec fn has_no_parenthesis(s: Seq<char>) -> bool {
    forall|i: int| 0 <= i < s.len() ==> #[trigger] s[i] != '(' && s[i] != ')'
}

/// Where the run of atoms at the front of `s` stops short of the end, an
/// operator stands behind it.
pub proof fn atom_run_stops_at_operator(s: Seq<char>)
    ensures
        atom_run(s) < s.len() ==> is_operator(s[atom_run(s) as int]),
    decreases s.len(),
{
    if s.len() != 0 && !is_operator(s[0]) {
        atom_run_stops_at_operator(s.skip(1));
    }
}

/// A scope without parentheses parses, whatever stands before it, and reads
/// its input to the end.
pub proof fn parse_loop_without_parentheses(s: Seq<char>, stack: Seq<Expr>)
    requires
        has_no_parenthesis(s),
    ensures
        spec_parse_loop(s, stack) is Ok,
        spec_parse_loop(s, stack).unwrap().1.len() == 0,
    decreases s.len(),
{
    let run = atom_run(s) as int;
    let rest = s.skip(run);
    lemma_atom_run_bound(s);
    atom_run_stops_at_operator(s);
    if rest.len() > 0 {
        assert(rest[0] == s[run]);
        let after = rest.skip(1);
        assert forall|i: int| 0 <= i < after.len() implies #[trigger] after[i] != '(' && after[i]
            != ')' by {
            assert(after[i] == s[run + 1 + i]);
        }
        parse_loop_without_parentheses(after, Seq::empty());
    }
}

/// A pattern without parentheses parses.
pub proof fn parse_without_parentheses_succeeds(s: Seq<char>)
    requires
        has_no_parenthesis(s),
    ensures
        spec_parse(s) is Ok,
{
    parse_loop_without_parentheses(s, Seq::empty());
}

} // verus!
