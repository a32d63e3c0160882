//! The text of an expression.

use vstd::prelude::*;
use vstd::string::StringExecFns;
use crate::expression::{views, Expression};
use crate::term::Term;

verus! {

/// The text of the term `t`.
///
/// A list is written as its children in parentheses, with one space between
/// them; an atom as it is; a wildcard as one, two or three underscores; a
/// variable as its name and then the underscores of its kind.
pub open spec fn render_term(t: Term) -> Seq<char>
    decreases t, 1nat,
{
    match t {
        Term::List(ts) => seq!['('] + render_items(ts) + seq![')'],
        Term::Atom(s) => s,
        Term::Blank => seq!['_'],
        Term::BlankSeq => seq!['_', '_'],
        Term::BlankNullSeq => seq!['_', '_', '_'],
        Term::Pattern(n) => n + seq!['_'],
        Term::PatternSeq(n) => n + seq!['_', '_'],
        Term::PatternNullSeq(n) => n + seq!['_', '_', '_'],
    }
}

/// The texts of the terms `ts`, with one space between each two.
pub open spec fn render_items(ts: Seq<Term>) -> Seq<char>
    decreases ts, 0nat,
{
    if ts.len() == 0 {
        Seq::empty()
    } else if ts.len() == 1 {
        render_term(ts[0])
    } else {
        render_term(ts[0]) + seq![' '] + render_items(ts.drop_first())
    }
}

impl Expression {
    /// The text of the expression.
    pub fn render(&self) -> (out: String)
        ensures
            out@ == render_term(self@),
    {
        let mut out = String::new();
        self.render_into(&mut out);
        out
    }

    /// Appends the text of the expression to `out`.
    pub fn render_into(&self, out: &mut String)
        ensures
            final(out)@ == old(out)@ + render_term(self@),
        decreases self,
    {
        proof {
            reveal_strlit("(");
            reveal_strlit(")");
            reveal_strlit(" ");
            reveal_strlit("_");
            reveal_strlit("__");
            reveal_strlit("___");
        }
        match self {
            Expression::Atom(s) => {
                out.append(s.as_str());
            },
            Expression::List(es) => {
                out.append("(");
                let ghost ts = views(es@);
                let mut i: usize = 0;
                proof {
                    assert(ts.skip(0) =~= ts);
                }
                while i < es.len()
                    invariant
                        i <= es.len(),
                        *self == Expression::List(*es),
                        ts == views(es@),
                        " "@ == seq![' '],
                        out@ + render_items(ts.skip(i as int)) == old(out)@ + seq!['(']
                            + render_items(ts),
                    decreases es.len() - i,
                {
                    proof {
                        vstd::std_specs::vec::axiom_vec_index_decreases(*es, i as int);
                        assert(self->List_0 == *es);
                        assert(ts.skip(i as int).drop_first() =~= ts.skip(i + 1));
                    }
                    es[i].render_into(out);
                    if i != es.len() - 1 {
                        out.append(" ");
                    }
                    i += 1;
                }
                out.append(")");
            },
            Expression::Blank => {
                out.append("_");
            },
            Expression::BlankSeq => {
                out.append("__");
            },
            Expression::BlankNullSeq => {
                out.append("___");
            },
            Expression::Pattern(s) => {
                out.append(s.as_str());
                out.append("_");
            },
            Expression::PatternSeq(s) => {
                out.append(s.as_str());
                out.append("__");
            },
            Expression::PatternNullSeq(s) => {
                out.append(s.as_str());
                out.append("___");
            },
        }
    }
}

} // verus!
