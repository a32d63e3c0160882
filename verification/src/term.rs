//! The mathematical model of expressions.

use vstd::prelude::*;

verus! {

/// A tree of symbols: what an [`Expression`](crate::expression::Expression)
/// stands for in contracts.
pub enum Term {
    /// An ordered list of sub-terms.
    List(Seq<Term>),
    /// A symbol.
    Atom(Seq<char>),
    /// An unnamed wildcard for exactly one element.
    Blank,
    /// An unnamed wildcard for one or more elements.
    BlankSeq,
    /// An unnamed wildcard for zero or more elements.
    BlankNullSeq,
    /// A named variable for exactly one element.
    Pattern(Seq<char>),
    /// A named variable for one or more elements.
    PatternSeq(Seq<char>),
    /// A named variable for zero or more elements.
    PatternNullSeq(Seq<char>),
}

/// What a variable stands for after a match.
pub enum Bound {
    /// A single matched sub-term.
    Single(Term),
    /// A run of zero or more consecutive matched sub-terms.
    Run(Seq<Term>),
}

/// An assignment of variables: from a name to what it stands for.
pub type Env = Map<Seq<char>, Bound>;

} // verus!
