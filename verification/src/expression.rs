//! The expression tree.

use vstd::prelude::*;
use crate::binding::Binding;
use crate::grammar::parsed;
use crate::parser::{Parser, ParserError};
use crate::subject::{Shape, Subject};
use crate::term::Term;

verus! {

/// The `Expression` type.
pub enum Expression {
    /// Contains a list of `Expression`s
    List(Vec<Expression>),
    /// Represents a string expression
    Atom(String),
    /// An unnamed pattern matching a single expression
    Blank,
    /// An unnamed pattern matching one or more expressions
    BlankSeq,
    /// An unnamed pattern matching zero or more expressions
    BlankNullSeq,
    /// A named pattern matching a single expression
    Pattern(String),
    /// A named pattern matching one or more expressions
    PatternSeq(String),
    /// A named pattern matching zero or more expressions
    PatternNullSeq(String),
}

impl View for Expression {
    type V = Term;

    open spec fn view(&self) -> Term
        decreases self,
    {
        match self {
            Expression::List(es) => Term::List(views(es@)),
            Expression::Atom(s) => Term::Atom(s@),
            Expression::Blank => Term::Blank,
            Expression::BlankSeq => Term::BlankSeq,
            Expression::BlankNullSeq => Term::BlankNullSeq,
            Expression::Pattern(s) => Term::Pattern(s@),
            Expression::PatternSeq(s) => Term::PatternSeq(s@),
            Expression::PatternNullSeq(s) => Term::PatternNullSeq(s@),
        }
    }
}

/// The terms that a run of expressions stands for, in order.
///
/// The sequence is written index by index so that `view` and `views` are
/// seen to end; no index is ever out of range.
pub open spec fn views(es: Seq<Expression>) -> Seq<Term>
    decreases es,
{
    Seq::new(
        es.len(),
        |i: int|
            if 0 <= i < es.len() {
                es[i].view()
            } else {
                Term::Blank
            },
    )
}

impl<'a> Subject<'a> for Expression {
    type Capture = Binding<'a>;

    open spec fn term(&self) -> Term {
        self@
    }

    open spec fn terms(es: Seq<Expression>) -> Seq<Term> {
        views(es)
    }

    proof fn terms_are_termwise(es: Seq<Expression>) {
    }

    fn shape(&'a self) -> (shape: Shape<'a, Expression>) {
        match self {
            Expression::List(es) => Shape::List(es.as_slice()),
            Expression::Atom(n) => Shape::Atom(n),
            _ => Shape::Marker,
        }
    }

    fn single(&'a self) -> (capture: Binding<'a>) {
        Binding::Expression(self)
    }

    fn run(es: &'a [Expression]) -> (capture: Binding<'a>) {
        Binding::Sequence(es)
    }
}

impl Clone for Expression {
    fn clone(&self) -> (res: Self)
        ensures
            res@ == self@,
        decreases self,
    {
        match self {
            Expression::List(es) => {
                let mut v: Vec<Expression> = Vec::new();
                let mut i: usize = 0;
                while i < es.len()
                    invariant
                        i <= es.len(),
                        v.len() == i,
                        *self == Expression::List(*es),
                        forall|j: int| 0 <= j < i ==> v[j]@ == es[j]@,
                    decreases es.len() - i,
                {
                    proof {
                        vstd::std_specs::vec::axiom_vec_index_decreases(*es, i as int);
                        assert(self->List_0 == *es);
                    }
                    v.push(es[i].clone());
                    i += 1;
                }
                assert(views(v@) =~= views(es@));
                Expression::List(v)
            },
            Expression::Atom(s) => Expression::Atom(s.clone()),
            Expression::Blank => Expression::Blank,
            Expression::BlankSeq => Expression::BlankSeq,
            Expression::BlankNullSeq => Expression::BlankNullSeq,
            Expression::Pattern(s) => Expression::Pattern(s.clone()),
            Expression::PatternSeq(s) => Expression::PatternSeq(s.clone()),
            Expression::PatternNullSeq(s) => Expression::PatternNullSeq(s.clone()),
        }
    }
}

impl Expression {
    /// Reads the first expression in `text`.
    pub fn parse(text: &str) -> (res: Result<Expression, ParserError>)
        ensures
            match parsed(text@) {
                Ok(t) => res is Ok && res.unwrap()@ == t,
                Err(e) => res == Err::<Expression, ParserError>(e),
            },
    {
        let mut parser = Parser::new(text);
        parser.parse()
    }
}

impl core::str::FromStr for Expression {
    type Err = ParserError;

    /// Reads the first expression in `s`.
    fn from_str(s: &str) -> (res: Result<Expression, ParserError>)
        ensures
            match parsed(s@) {
                Ok(t) => res is Ok && res.unwrap()@ == t,
                Err(e) => res == Err::<Expression, ParserError>(e),
            },
    {
        Expression::parse(s)
    }
}

} // verus!
