//! The syntax tree of a pattern.

use vstd::prelude::*;

verus! {

/// The largest character there is.
pub const MAX_CHAR: char = '\u{10FFFF}';

/// Whether a repetition prefers to take as many repeats as it can, or as few.
#[derive(Clone, Copy, Debug, PartialEq, Eq)]
pub enum Greedy {
    NonGreedy,
    Greedy,
}

/// A pattern.
///
/// `Range(lo, hi)` matches one character between `lo` and `hi`, both
/// included; nothing asks that `lo <= hi`. `Repeat(child, min, max, mode)`
/// matches `child` between `min` and `max` times, without an upper limit
/// where `max` is `None`. No surface syntax produces a `Repeat`; the variant
/// is there for consumers that build trees themselves.
#[derive(Debug, PartialEq, Eq)]
pub enum Expr {
    Empty,
    Range(char, char),
    Concatenate(Box<Expr>, Box<Expr>),
    Alternate(Box<Expr>, Box<Expr>),
    Repeat(Box<Expr>, usize, Option<usize>, Greedy),
}

impl Expr {
    /// No `Concatenate` node anywhere in the tree has an `Empty` child.
    pub open spec fn is_reduced(self) -> bool
        decreases self,
    {
        match self {
            Expr::Empty => true,
            Expr::Range(_, _) => true,
            Expr::Concatenate(left, right) => {
                &&& !(*left is Empty)
                &&& !(*right is Empty)
                &&& left.is_reduced()
                &&& right.is_reduced()
            },
            Expr::Alternate(left, right) => left.is_reduced() && right.is_reduced(),
            Expr::Repeat(child, _, _, _) => child.is_reduced(),
        }
    }

    /// The pattern that matches any one character.
    pub open spec fn any_char() -> Expr {
        Expr::Range('\0', MAX_CHAR)
    }

    /// The pattern that matches the character `c` and nothing else.
    pub open spec fn literal(c: char) -> Expr {
        Expr::Range(c, c)
    }
}

} // verus!
