//! Replacing what matches a pattern by a template: at the root, all over a
//! tree, and over and over until nothing changes.

use vstd::prelude::*;
use crate::binding::{bind_term, Bind, Bindings};
use crate::expression::{views, Expression};
use crate::matching::{match_term, Match};
use crate::shared::{lift, lower, rewrite};
use crate::term::Term;

verus! {

/// The outcome of a rewrite that found no fixpoint.
#[derive(Clone, Copy, PartialEq, Eq, Debug)]
pub enum ReplaceError {
    /// The expression was still changing when the limit of passes was reached.
    LimitReached,
}

/// The number of passes after which `replace_repeated` gives up.
pub const REPLACE_LIMIT: usize = 1000;

/// The template `t` bound by the match of `e` against `p` at the root, or
/// `None` where `e` does not match.
pub open spec fn replaced(e: Term, p: Term, t: Term) -> Option<Term> {
    match match_term(e, p) {
        Some(env) => Some(bind_term(t, env)),
        None => None,
    }
}

/// Where the subject does not match the pattern, nothing is replaced at its
/// root.
pub proof fn no_match_no_replacement(e: Term, p: Term, t: Term)
    requires
        match_term(e, p) is None,
    ensures
        replaced(e, p, t) is None,
{
}

/// Where `match_pattern` finds no match of a subject against a pattern,
/// `replace` of that subject by that pattern returns nothing.
pub proof fn replace_needs_a_match<'a>(
    subject: &'a Expression,
    pattern: &Expression,
    template: Expression,
    found: Option<Bindings<'a>>,
    result: Option<Expression>,
)
    requires
        call_ensures(<Expression as Match>::match_pattern, (subject, pattern), found),
        call_ensures(Expression::replace, (subject, pattern, template), result),
        found is None,
    ensures
        result is None,
{
}

/// One pass of rewriting over `e`, and whether it replaced anything.
///
/// A node that matches `p` is replaced by the bound template, and the
/// replacement is not looked into again. A list that does not match has each
/// of its children rewritten. Any other node stays as it is.
pub open spec fn replaced_all(e: Term, p: Term, t: Term) -> (Term, bool)
    decreases e, 1nat,
{
    match replaced(e, p, t) {
        Some(r) => (r, true),
        None => match e {
            Term::List(es) => {
                let parts = replaced_each(es, p, t);
                (
                    Term::List(Seq::new(parts.len(), |i: int| parts[i].0)),
                    exists|i: int| 0 <= i < parts.len() && (#[trigger] parts[i]).1,
                )
            },
            _ => (e, false),
        },
    }
}

/// One pass of rewriting over each of `es`.
pub open spec fn replaced_each(es: Seq<Term>, p: Term, t: Term) -> Seq<(Term, bool)>
    decreases es, 0nat,
{
    Seq::new(
        es.len(),
        |i: int|
            if 0 <= i < es.len() {
                replaced_all(es[i], p, t)
            } else {
                (Term::Blank, false)
            },
    )
}

/// The first result that a pass leaves unchanged, when passes are applied to
/// `e` over and over, or `None` where `limit` passes all changed something.
pub open spec fn replaced_repeated(e: Term, p: Term, t: Term, limit: nat) -> Option<Term>
    decreases limit,
{
    if limit == 0 {
        None
    } else {
        let (next, changed) = replaced_all(e, p, t);
        if changed {
            replaced_repeated(next, p, t, (limit - 1) as nat)
        } else {
            Some(next)
        }
    }
}

/// A pass that replaces nothing leaves the term as it was.
pub proof fn pass_without_change(e: Term, p: Term, t: Term)
    requires
        !replaced_all(e, p, t).1,
    ensures
        replaced_all(e, p, t).0 == e,
    decreases e,
{
    match e {
        Term::List(es) => {
            let parts = replaced_each(es, p, t);
            assert forall|i: int| 0 <= i < es.len() implies (#[trigger] parts[i]).0 == es[i] by {
                assert(!parts[i].1);
                pass_without_change(es[i], p, t);
            }
            assert(replaced_all(e, p, t).0->List_0 =~= es);
        },
        _ => {},
    }
}

/// What repeated rewriting returns is a fixpoint: a further pass replaces
/// nothing in it and leaves it as it is.
pub proof fn repeated_is_fixpoint(e: Term, p: Term, t: Term, limit: nat)
    requires
        replaced_repeated(e, p, t, limit) is Some,
    ensures
        replaced_all(replaced_repeated(e, p, t, limit).unwrap(), p, t) == (
            replaced_repeated(e, p, t, limit).unwrap(),
            false,
        ),
    decreases limit,
{
    let (next, changed) = replaced_all(e, p, t);
    if changed {
        repeated_is_fixpoint(next, p, t, (limit - 1) as nat);
    } else {
        pass_without_change(e, p, t);
    }
}

/// Two calls of `replace` on arguments that stand for the same terms return
/// results that stand for the same term, or both return nothing.
pub proof fn replace_is_a_function(
    subject_a: &Expression,
    pattern_a: &Expression,
    template_a: Expression,
    result_a: Option<Expression>,
    subject_b: &Expression,
    pattern_b: &Expression,
    template_b: Expression,
    result_b: Option<Expression>,
)
    requires
        subject_a@ == subject_b@,
        pattern_a@ == pattern_b@,
        template_a@ == template_b@,
        call_ensures(Expression::replace, (subject_a, pattern_a, template_a), result_a),
        call_ensures(Expression::replace, (subject_b, pattern_b, template_b), result_b),
    ensures
        result_a is Some == result_b is Some,
        result_a is Some ==> result_a.unwrap()@ == result_b.unwrap()@,
{
}

/// Two calls of `replace_all` on arguments that stand for the same terms
/// return results that stand for the same term.
pub proof fn replace_all_is_a_function(
    subject_a: &Expression,
    pattern_a: &Expression,
    template_a: Expression,
    result_a: Expression,
    subject_b: &Expression,
    pattern_b: &Expression,
    template_b: Expression,
    result_b: Expression,
)
    requires
        subject_a@ == subject_b@,
        pattern_a@ == pattern_b@,
        template_a@ == template_b@,
        call_ensures(Expression::replace_all, (subject_a, pattern_a, template_a), result_a),
        call_ensures(Expression::replace_all, (subject_b, pattern_b, template_b), result_b),
    ensures
        result_a@ == result_b@,
{
}

/// Two calls of `replace_repeated` on arguments that stand for the same
/// terms return results that stand for the same term, or both fail.
pub proof fn replace_repeated_is_a_function(
    subject_a: &Expression,
    pattern_a: &Expression,
    template_a: Expression,
    result_a: Result<Expression, ReplaceError>,
    subject_b: &Expression,
    pattern_b: &Expression,
    template_b: Expression,
    result_b: Result<Expression, ReplaceError>,
)
    requires
        subject_a@ == subject_b@,
        pattern_a@ == pattern_b@,
        template_a@ == template_b@,
        call_ensures(Expression::replace_repeated, (subject_a, pattern_a, template_a), result_a),
        call_ensures(Expression::replace_repeated, (subject_b, pattern_b, template_b), result_b),
    ensures
        result_a is Ok == result_b is Ok,
        result_a is Ok ==> result_a.unwrap()@ == result_b.unwrap()@,
        result_a is Err ==> result_a == result_b,
{
}

impl Expression {
    /// Matches the `Expression` with a pattern and if successful returns
    /// the bound template.
    pub fn replace(&self, pattern: &Expression, template: Expression) -> (res: Option<Expression>)
        ensures
            match replaced(self@, pattern@, template@) {
                Some(r) => res is Some && res.unwrap()@ == r,
                None => res is None,
            },
    {
        match self.match_pattern(pattern) {
            Some(bs) => Some(template.bind(&bs)),
            None => None,
        }
    }

    /// Replaces all expressions and subexpressions that match the provided
    /// pattern by the bound template.
    pub fn replace_all(&self, pattern: &Expression, template: Expression) -> (res: Expression)
        ensures
            res@ == replaced_all(self@, pattern@, template@).0,
    {
        let (e, _) = self.replace_rec(pattern, template);
        e
    }

    /// Replaces all expressions and subexpressions repeatedly until the
    /// expression does not change anymore, for at most `REPLACE_LIMIT`
    /// passes.
    pub fn replace_repeated(&self, pattern: &Expression, template: Expression) -> (res: Result<
        Expression,
        ReplaceError,
    >)
        ensures
            match replaced_repeated(self@, pattern@, template@, REPLACE_LIMIT as nat) {
                Some(r) => res is Ok && res.unwrap()@ == r,
                None => res == Err::<Expression, ReplaceError>(ReplaceError::LimitReached),
            },
    {
        self.replace_repeated_within(pattern, template, REPLACE_LIMIT)
    }

    /// Replaces all expressions and subexpressions repeatedly until the
    /// expression does not change anymore, for at most `limit` passes.
    ///
    /// The passes share the parts of the tree that they do not change, so a
    /// rule that repeats what it matched does not copy it.
    pub fn replace_repeated_within(
        &self,
        pattern: &Expression,
        template: Expression,
        limit: usize,
    ) -> (res: Result<Expression, ReplaceError>)
        ensures
            match replaced_repeated(self@, pattern@, template@, limit as nat) {
                Some(r) => res is Ok && res.unwrap()@ == r,
                None => res == Err::<Expression, ReplaceError>(ReplaceError::LimitReached),
            },
    {
        let mut left: usize = limit;
        let mut current = lift(self);
        while left > 0
            invariant
                replaced_repeated(self@, pattern@, template@, limit as nat) == replaced_repeated(
                    current@,
                    pattern@,
                    template@,
                    left as nat,
                ),
            decreases left,
        {
            left -= 1;
            let (next, changed) = rewrite(&current, pattern, &template);
            if !changed {
                return Ok(lower(&*next));
            }
            current = next;
        }
        Err(ReplaceError::LimitReached)
    }

    /// One pass of rewriting, and whether it replaced anything.
    pub fn replace_rec(&self, pattern: &Expression, template: Expression) -> (res: (
        Expression,
        bool,
    ))
        ensures
            res.0@ == replaced_all(self@, pattern@, template@).0,
            res.1 == replaced_all(self@, pattern@, template@).1,
        decreases self,
    {
        match self.match_pattern(pattern) {
            None => {
                match self {
                    Expression::List(es) => {
                        let mut v: Vec<Expression> = Vec::new();
                        let mut changed = false;
                        let mut i: usize = 0;
                        let ghost ts = views(es@);
                        let ghost parts = replaced_each(ts, pattern@, template@);
                        while i < es.len()
                            invariant
                                i <= es.len(),
                                v.len() == i,
                                *self == Expression::List(*es),
                                ts == views(es@),
                                parts.len() == es.len(),
                                forall|j: int|
                                    0 <= j < es.len() ==> #[trigger] parts[j] == replaced_all(
                                        ts[j],
                                        pattern@,
                                        template@,
                                    ),
                                forall|j: int| 0 <= j < i ==> v[j]@ == (#[trigger] parts[j]).0,
                                changed == exists|j: int|
                                    0 <= j < i && (#[trigger] parts[j]).1,
                            decreases es.len() - i,
                        {
                            proof {
                                vstd::std_specs::vec::axiom_vec_index_decreases(*es, i as int);
                                assert(self->List_0 == *es);
                            }
                            let (new_e, r) = es[i].replace_rec(pattern, template.clone());
                            proof {
                                assert(parts[i as int].1 == r);
                            }
                            if r {
                                changed = true;
                            }
                            v.push(new_e);
                            i += 1;
                        }
                        proof {
                            let out = replaced_all(self@, pattern@, template@);
                            assert(views(v@) =~= out.0->List_0);
                        }
                        (Expression::List(v), changed)
                    },
                    _ => (self.clone(), false),
                }
            },
            Some(bs) => (template.bind(&bs), true),
        }
    }
}

} // verus!
