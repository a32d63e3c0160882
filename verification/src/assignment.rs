//! Assignments of a pattern's variables, and what the matcher finds of them.
//!
//! A pattern stands for every subject that some assignment of its variables
//! turns it into. The matcher finds a subject's match exactly where such an
//! assignment exists, and for a pattern that names no variable twice the
//! bindings it returns are such an assignment. Binding the pattern by them,
//! as if it were a template, then gives the subject again.
//!
//! A pattern that names a variable twice can match where no assignment
//! exists: `(a_ a_)` matches `(1 2)`, and `a` is bound to `2`.

use vstd::prelude::*;
use crate::binding::{bind_item, bind_items, bind_items_concat, bind_term, spliced, Bindings};
use crate::expression::Expression;
use crate::matching::{first_fit, first_fit_is_least, match_items, match_term, Match};
use crate::term::{Bound, Env, Term};

verus! {

/// Whether the pattern node `p` is the subject node `e` once each variable
/// stands for what `env` assigns to it; a wildcard stands for anything.
///
/// A variable standing alone is assigned the one subject. Inside a list, a
/// sequence variable is assigned a run of the subject's children, of one or
/// more, or of zero or more, according to its kind.
pub open spec fn fits(e: Term, p: Term, env: Env) -> bool
    decreases p, 1nat,
{
    match p {
        Term::Blank | Term::BlankSeq | Term::BlankNullSeq => true,
        Term::Pattern(n) | Term::PatternSeq(n) | Term::PatternNullSeq(n) => assigns(
            env,
            n,
            Bound::Single(e),
        ),
        Term::Atom(_) => e == p,
        Term::List(ps) => e matches Term::List(es) && fits_items(es, ps, env),
    }
}

/// Whether the patterns `ps` are the subjects `es` once each variable stands
/// for what `env` assigns to it.
pub open spec fn fits_items(es: Seq<Term>, ps: Seq<Term>, env: Env) -> bool
    decreases ps, 0nat,
{
    if ps.len() == 0 {
        es.len() == 0
    } else {
        let rest = ps.drop_first();
        match ps[0] {
            Term::BlankSeq => exists|k: int|
                1 <= k <= es.len() && fits_items(#[trigger] es.skip(k), rest, env),
            Term::BlankNullSeq => exists|k: int|
                0 <= k <= es.len() && fits_items(#[trigger] es.skip(k), rest, env),
            Term::PatternSeq(n) => exists|k: int|
                1 <= k <= es.len() && assigns(env, n, Bound::Run(es.take(k))) && fits_items(
                    #[trigger] es.skip(k),
                    rest,
                    env,
                ),
            Term::PatternNullSeq(n) => exists|k: int|
                0 <= k <= es.len() && assigns(env, n, Bound::Run(es.take(k))) && fits_items(
                    #[trigger] es.skip(k),
                    rest,
                    env,
                ),
            _ => es.len() > 0 && fits(es[0], ps[0], env) && fits_items(
                es.drop_first(),
                rest,
                env,
            ),
        }
    }
}

/// Whether `env` assigns `b` to the variable `n`.
pub open spec fn assigns(env: Env, n: Seq<char>, b: Bound) -> bool {
    env.contains_key(n) && env[n] == b
}

/// The names of the variables of the pattern `p`.
pub open spec fn names(p: Term) -> Set<Seq<char>>
    decreases p, 1nat,
{
    match p {
        Term::Pattern(n) | Term::PatternSeq(n) | Term::PatternNullSeq(n) => set![n],
        Term::List(ps) => names_of(ps),
        _ => Set::empty(),
    }
}

/// The names of the variables of the patterns `ps`.
pub open spec fn names_of(ps: Seq<Term>) -> Set<Seq<char>>
    decreases ps, 0nat,
{
    if ps.len() == 0 {
        Set::empty()
    } else {
        names(ps[0]).union(names_of(ps.drop_first()))
    }
}

/// Whether the pattern `p` names no variable twice.
pub open spec fn linear(p: Term) -> bool
    decreases p, 1nat,
{
    match p {
        Term::List(ps) => linear_items(ps),
        _ => true,
    }
}

/// Whether the patterns `ps` name no variable twice.
pub open spec fn linear_items(ps: Seq<Term>) -> bool
    decreases ps, 0nat,
{
    ps.len() == 0 || {
        &&& linear(ps[0])
        &&& linear_items(ps.drop_first())
        &&& names(ps[0]).disjoint(names_of(ps.drop_first()))
    }
}

/// Whether `to` assigns to each of `names` what `from` assigns to it, where
/// `from` assigns anything.
pub open spec fn carries(names: Set<Seq<char>>, from: Env, to: Env) -> bool {
    forall|n: Seq<char>|
        names.contains(n) && from.contains_key(n) ==> #[trigger] to.contains_key(n) && to[n]
            == from[n]
}

/// Whether a pattern fits a subject depends only on what is assigned to the
/// pattern's own variables.
pub proof fn fits_carried(e: Term, p: Term, from: Env, to: Env)
    requires
        fits(e, p, from),
        carries(names(p), from, to),
    ensures
        fits(e, p, to),
    decreases p, 1nat,
{
    match p {
        Term::List(ps) => {
            fits_items_carried(e->List_0, ps, from, to);
        },
        _ => {},
    }
}

/// Whether patterns fit subjects depends only on what is assigned to the
/// patterns' own variables.
pub proof fn fits_items_carried(es: Seq<Term>, ps: Seq<Term>, from: Env, to: Env)
    requires
        fits_items(es, ps, from),
        carries(names_of(ps), from, to),
    ensures
        fits_items(es, ps, to),
    decreases ps, 0nat,
{
    if ps.len() > 0 {
        let rest = ps.drop_first();
        assert(names_of(ps) == names(ps[0]).union(names_of(rest)));
        match ps[0] {
            Term::BlankSeq => {
                let k = choose|k: int|
                    1 <= k <= es.len() && fits_items(#[trigger] es.skip(k), rest, from);
                fits_items_carried(es.skip(k), rest, from, to);
            },
            Term::BlankNullSeq => {
                let k = choose|k: int|
                    0 <= k <= es.len() && fits_items(#[trigger] es.skip(k), rest, from);
                fits_items_carried(es.skip(k), rest, from, to);
            },
            Term::PatternSeq(n) => {
                let k = choose|k: int|
                    1 <= k <= es.len() && assigns(from, n, Bound::Run(es.take(k))) && fits_items(
                        #[trigger] es.skip(k),
                        rest,
                        from,
                    );
                fits_items_carried(es.skip(k), rest, from, to);
            },
            Term::PatternNullSeq(n) => {
                let k = choose|k: int|
                    0 <= k <= es.len() && assigns(from, n, Bound::Run(es.take(k))) && fits_items(
                        #[trigger] es.skip(k),
                        rest,
                        from,
                    );
                fits_items_carried(es.skip(k), rest, from, to);
            },
            _ => {
                fits_carried(es[0], ps[0], from, to);
                fits_items_carried(es.drop_first(), rest, from, to);
            },
        }
    }
}

/// A match binds the variables of the pattern and nothing else, and for a
/// pattern that names no variable twice the pattern fits the subject under
/// the bindings of the match.
pub proof fn match_fits(e: Term, p: Term)
    requires
        match_term(e, p) is Some,
    ensures
        match_term(e, p).unwrap().dom() == names(p),
        linear(p) ==> fits(e, p, match_term(e, p).unwrap()),
    decreases p, 1nat,
{
    match p {
        Term::List(ps) => {
            match_items_fits(e->List_0, ps);
        },
        _ => {},
    }
    assert(match_term(e, p).unwrap().dom() =~= names(p));
}

/// A match of sequences binds the variables of the patterns and nothing
/// else, and for patterns that name no variable twice the patterns fit the
/// subjects under the bindings of the match.
pub proof fn match_items_fits(es: Seq<Term>, ps: Seq<Term>)
    requires
        match_items(es, ps) is Some,
    ensures
        match_items(es, ps).unwrap().dom() == names_of(ps),
        linear_items(ps) ==> fits_items(es, ps, match_items(es, ps).unwrap()),
    decreases ps, 0nat,
{
    let env = match_items(es, ps).unwrap();
    if ps.len() > 0 {
        let rest = ps.drop_first();
        assert(names_of(ps) == names(ps[0]).union(names_of(rest)));
        match ps[0] {
            Term::BlankSeq | Term::BlankNullSeq => {
                let from: int = if ps[0] is BlankSeq {
                    1
                } else {
                    0
                };
                first_fit_is_least(es, rest, from);
                let k = first_fit(es, rest, from).unwrap();
                match_items_fits(es.skip(k), rest);
            },
            Term::PatternSeq(n) | Term::PatternNullSeq(n) => {
                let from: int = if ps[0] is PatternSeq {
                    1
                } else {
                    0
                };
                first_fit_is_least(es, rest, from);
                let k = first_fit(es, rest, from).unwrap();
                let tail = match_items(es.skip(k), rest).unwrap();
                match_items_fits(es.skip(k), rest);
                if linear_items(ps) {
                    fits_items_carried(es.skip(k), rest, tail, env);
                }
            },
            _ => {
                let head = match_term(es[0], ps[0]).unwrap();
                let tail = match_items(es.drop_first(), rest).unwrap();
                match_fits(es[0], ps[0]);
                match_items_fits(es.drop_first(), rest);
                if linear_items(ps) {
                    fits_carried(es[0], ps[0], head, env);
                    fits_items_carried(es.drop_first(), rest, tail, env);
                }
            },
        }
    }
    assert(env.dom() =~= names_of(ps));
}

/// Where a pattern fits a subject under some assignment, the subject
/// matches the pattern.
pub proof fn fits_matches(e: Term, p: Term, env: Env)
    requires
        fits(e, p, env),
    ensures
        match_term(e, p) is Some,
    decreases p, 1nat,
{
    match p {
        Term::List(ps) => {
            fits_items_matches(e->List_0, ps, env);
        },
        _ => {},
    }
}

/// Where patterns fit subjects under some assignment, the subjects match
/// the patterns.
pub proof fn fits_items_matches(es: Seq<Term>, ps: Seq<Term>, env: Env)
    requires
        fits_items(es, ps, env),
    ensures
        match_items(es, ps) is Some,
    decreases ps, 0nat,
{
    if ps.len() > 0 {
        let rest = ps.drop_first();
        match ps[0] {
            Term::BlankSeq => {
                let k = choose|k: int|
                    1 <= k <= es.len() && fits_items(#[trigger] es.skip(k), rest, env);
                fits_items_matches(es.skip(k), rest, env);
                first_fit_is_least(es, rest, 1);
            },
            Term::BlankNullSeq => {
                let k = choose|k: int|
                    0 <= k <= es.len() && fits_items(#[trigger] es.skip(k), rest, env);
                fits_items_matches(es.skip(k), rest, env);
                first_fit_is_least(es, rest, 0);
            },
            Term::PatternSeq(n) => {
                let k = choose|k: int|
                    1 <= k <= es.len() && assigns(env, n, Bound::Run(es.take(k))) && fits_items(
                        #[trigger] es.skip(k),
                        rest,
                        env,
                    );
                fits_items_matches(es.skip(k), rest, env);
                first_fit_is_least(es, rest, 1);
            },
            Term::PatternNullSeq(n) => {
                let k = choose|k: int|
                    0 <= k <= es.len() && assigns(env, n, Bound::Run(es.take(k))) && fits_items(
                        #[trigger] es.skip(k),
                        rest,
                        env,
                    );
                fits_items_matches(es.skip(k), rest, env);
                first_fit_is_least(es, rest, 0);
            },
            _ => {
                fits_matches(es[0], ps[0], env);
                fits_items_matches(es.drop_first(), rest, env);
            },
        }
    }
}

/// A subject matches a pattern that names no variable twice if and only if
/// some assignment of the pattern's variables makes the pattern the subject.
pub proof fn match_iff_some_assignment_fits(e: Term, p: Term)
    requires
        linear(p),
    ensures
        match_term(e, p) is Some <==> exists|env: Env| fits(e, p, env),
{
    if match_term(e, p) is Some {
        match_fits(e, p);
    }
    if exists|env: Env| fits(e, p, env) {
        let env = choose|env: Env| fits(e, p, env);
        fits_matches(e, p, env);
    }
}

/// `match_pattern` finds a match of a subject against a pattern that names
/// no variable twice if and only if some assignment of the pattern's
/// variables makes the pattern the subject, and the bindings that it returns
/// are such an assignment.
pub proof fn match_pattern_finds_an_assignment<'a>(
    subject: &'a Expression,
    pattern: &Expression,
    found: Option<Bindings<'a>>,
)
    requires
        linear(pattern@),
        call_ensures(<Expression as Match>::match_pattern, (subject, pattern), found),
    ensures
        found is Some <==> exists|env: Env| fits(subject@, pattern@, env),
        found is Some ==> fits(subject@, pattern@, found.unwrap()@),
{
    match_iff_some_assignment_fits(subject@, pattern@);
    if found is Some {
        match_fits(subject@, pattern@);
    }
}

/// The pattern `p` as a template: each variable is the atom of its name.
pub open spec fn template_of(p: Term) -> Term
    decreases p, 1nat,
{
    match p {
        Term::Pattern(n) | Term::PatternSeq(n) | Term::PatternNullSeq(n) => Term::Atom(n),
        Term::List(ps) => Term::List(templates_of(ps)),
        _ => p,
    }
}

/// The patterns `ps` as templates.
pub open spec fn templates_of(ps: Seq<Term>) -> Seq<Term>
    decreases ps, 0nat,
{
    if ps.len() == 0 {
        Seq::empty()
    } else {
        seq![template_of(ps[0])] + templates_of(ps.drop_first())
    }
}

/// Whether the pattern `p` holds no wildcard and no atom that `env` binds,
/// so that as a template it is bound at its variables only.
pub open spec fn bound_at_variables(p: Term, env: Env) -> bool
    decreases p, 1nat,
{
    match p {
        Term::Blank | Term::BlankSeq | Term::BlankNullSeq => false,
        Term::Atom(a) => !env.contains_key(a),
        Term::List(ps) => all_bound_at_variables(ps, env),
        _ => true,
    }
}

/// Whether each of the patterns `ps` is bound at its variables only.
pub open spec fn all_bound_at_variables(ps: Seq<Term>, env: Env) -> bool
    decreases ps, 0nat,
{
    ps.len() == 0 || (bound_at_variables(ps[0], env) && all_bound_at_variables(
        ps.drop_first(),
        env,
    ))
}

/// Where a pattern fits a subject under an assignment, binding the pattern
/// as a template by that assignment gives the subject.
pub proof fn fitting_binds_to_subject(e: Term, p: Term, env: Env)
    requires
        fits(e, p, env),
        bound_at_variables(p, env),
    ensures
        bind_term(template_of(p), env) == e,
    decreases p, 1nat,
{
    match p {
        Term::List(ps) => {
            fitting_items_bind_to_subjects(e->List_0, ps, env);
        },
        _ => {},
    }
}

/// Where patterns fit subjects under an assignment, binding the patterns as
/// the children of a template list by that assignment gives the subjects.
pub proof fn fitting_items_bind_to_subjects(es: Seq<Term>, ps: Seq<Term>, env: Env)
    requires
        fits_items(es, ps, env),
        all_bound_at_variables(ps, env),
    ensures
        bind_items(templates_of(ps), env) == es,
    decreases ps, 0nat,
{
    if ps.len() == 0 {
        assert(es =~= Seq::empty());
    } else {
        let rest = ps.drop_first();
        let head = template_of(ps[0]);
        bind_items_concat(seq![head], templates_of(rest), env);
        assert(bind_items(seq![head], env) =~= bind_item(head, env)) by {
            assert(seq![head].drop_last() =~= Seq::<Term>::empty());
            assert(bind_items(Seq::<Term>::empty(), env) =~= Seq::<Term>::empty());
        }
        assert(templates_of(ps) == seq![head] + templates_of(rest));
        match ps[0] {
            Term::PatternSeq(n) => {
                let k = choose|k: int|
                    1 <= k <= es.len() && assigns(env, n, Bound::Run(es.take(k))) && fits_items(
                        #[trigger] es.skip(k),
                        rest,
                        env,
                    );
                fitting_items_bind_to_subjects(es.skip(k), rest, env);
                assert(bind_item(head, env) == es.take(k));
                assert(es.take(k) + es.skip(k) =~= es);
            },
            Term::PatternNullSeq(n) => {
                let k = choose|k: int|
                    0 <= k <= es.len() && assigns(env, n, Bound::Run(es.take(k))) && fits_items(
                        #[trigger] es.skip(k),
                        rest,
                        env,
                    );
                fitting_items_bind_to_subjects(es.skip(k), rest, env);
                assert(bind_item(head, env) == es.take(k));
                assert(es.take(k) + es.skip(k) =~= es);
            },
            Term::Blank | Term::BlankSeq | Term::BlankNullSeq => {
                assert(!bound_at_variables(ps[0], env));
            },
            _ => {
                fitting_binds_to_subject(es[0], ps[0], env);
                fitting_items_bind_to_subjects(es.drop_first(), rest, env);
                assert(!spliced(head, env)) by {
                    assert(fits(es[0], ps[0], env));
                    assert(bound_at_variables(ps[0], env));
                }
                assert(bind_item(head, env) == seq![es[0]]);
                assert(seq![es[0]] + es.drop_first() =~= es);
            },
        }
    }
}

/// Binding a pattern, as a template, by the bindings of its match gives the
/// subject again, where the pattern names no variable twice and holds no
/// wildcard and no atom of the name of one of its variables.
pub proof fn match_then_bind_is_identity(e: Term, p: Term)
    requires
        match_term(e, p) is Some,
        linear(p),
        bound_at_variables(p, match_term(e, p).unwrap()),
    ensures
        bind_term(template_of(p), match_term(e, p).unwrap()) == e,
{
    match_fits(e, p);
    fitting_binds_to_subject(e, p, match_term(e, p).unwrap());
}

} // verus!
