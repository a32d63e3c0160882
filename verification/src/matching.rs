//! Matching a subject against a pattern.

use vstd::prelude::*;
use vstd::slice::slice_subrange;
use crate::binding::{BindingMap, Bindings};
use crate::expression::{views, Expression};
use crate::subject::{terms_subrange, Shape, Subject};
use crate::term::{Bound, Env, Term};

verus! {

/// The bindings under which the pattern node `p` matches the subject node
/// `e`, or `None` where it does not match.
///
/// A wildcard or a variable standing alone matches any subject, and a
/// variable is bound to that one subject. Two atoms match where they are
/// equal, two lists where their children match as sequences.
pub open spec fn match_term(e: Term, p: Term) -> Option<Env>
    decreases p, 0nat,
{
    match p {
        Term::Blank | Term::BlankSeq | Term::BlankNullSeq => Some(Map::empty()),
        Term::Pattern(n) | Term::PatternSeq(n) | Term::PatternNullSeq(n) => Some(
            Map::empty().insert(n, Bound::Single(e)),
        ),
        Term::Atom(_) => if e == p {
            Some(Map::empty())
        } else {
            None
        },
        Term::List(ps) => match e {
            Term::List(es) => match_items(es, ps),
            _ => None,
        },
    }
}

/// The bindings under which the patterns `ps` match the subjects `es`,
/// element by element from the left.
///
/// A sequence wildcard or variable at the head takes the shortest admissible
/// run of subjects for which the remaining patterns match the remaining
/// subjects. A name that is bound again further right takes the later
/// value, whether or not the two values are equal.
pub open spec fn match_items(es: Seq<Term>, ps: Seq<Term>) -> Option<Env>
    decreases ps, 0nat,
{
    if ps.len() == 0 {
        if es.len() == 0 {
            Some(Map::empty())
        } else {
            None
        }
    } else {
        let rest = ps.drop_first();
        match ps[0] {
            Term::BlankSeq => match first_fit(es, rest, 1) {
                Some(k) => match_items(es.skip(k), rest),
                None => None,
            },
            Term::BlankNullSeq => match first_fit(es, rest, 0) {
                Some(k) => match_items(es.skip(k), rest),
                None => None,
            },
            Term::PatternSeq(n) => match first_fit(es, rest, 1) {
                Some(k) => bind_run(n, es.take(k), match_items(es.skip(k), rest)),
                None => None,
            },
            Term::PatternNullSeq(n) => match first_fit(es, rest, 0) {
                Some(k) => bind_run(n, es.take(k), match_items(es.skip(k), rest)),
                None => None,
            },
            _ => if es.len() == 0 {
                None
            } else {
                merge(match_term(es[0], ps[0]), match_items(es.drop_first(), rest))
            },
        }
    }
}

/// The least `k` from `from` up to the length of `es` for which the
/// patterns `rest` match what is left of `es` after its first `k` elements.
pub open spec fn first_fit(es: Seq<Term>, rest: Seq<Term>, from: int) -> Option<int>
    decreases rest, 1 + es.len() - from,
{
    if from < 0 || from > es.len() {
        None
    } else if match_items(es.skip(from), rest) is Some {
        Some(from)
    } else {
        first_fit(es, rest, from + 1)
    }
}

/// `first_fit` finds the shortest admissible run: the patterns `rest` match
/// what is left after the length it returns, and after no shorter length from
/// `from` up; where it returns `None`, they match after no length at all.
pub proof fn first_fit_is_least(es: Seq<Term>, rest: Seq<Term>, from: int)
    requires
        0 <= from,
    ensures
        match first_fit(es, rest, from) {
            Some(k) => {
                &&& from <= k <= es.len()
                &&& match_items(es.skip(k), rest) is Some
                &&& forall|j: int|
                    from <= j < k ==> match_items(#[trigger] es.skip(j), rest) is None
            },
            None => forall|j: int|
                from <= j <= es.len() ==> match_items(#[trigger] es.skip(j), rest) is None,
        },
    decreases 1 + es.len() - from,
{
    if from <= es.len() && match_items(es.skip(from), rest) is None {
        first_fit_is_least(es, rest, from + 1);
    }
}

/// The bindings of a sequence variable `n` that took `run`, followed by those
/// of the patterns to its right.
pub open spec fn bind_run(n: Seq<char>, run: Seq<Term>, tail: Option<Env>) -> Option<Env> {
    merge(Some(Map::empty().insert(n, Bound::Run(run))), tail)
}

/// Both sets of bindings together, where both matches succeeded; the right
/// one wins where both bind a name.
pub open spec fn merge(left: Option<Env>, right: Option<Env>) -> Option<Env> {
    match (left, right) {
        (Some(l), Some(r)) => Some(l.union_prefer_right(r)),
        _ => None,
    }
}

/// Matching against a pattern.
pub trait Match {
    /// The bindings under which this value matches the pattern `p`, or `None`
    /// where it does not match.
    spec fn matched(&self, p: Term) -> Option<Env>;

    /// The pattern matching function returns the bindings, or `None` where
    /// the value does not match the pattern.
    fn match_pattern<'a>(&'a self, p: &Expression) -> (found: Option<Bindings<'a>>)
        ensures
            match self.matched(p@) {
                Some(env) => found is Some && found.unwrap()@ == env,
                None => found is None,
            },
    ;
}

impl Match for Expression {
    open spec fn matched(&self, p: Term) -> Option<Env> {
        match_term(self@, p)
    }

    /// Returns the bindings if the expression matches the pattern and `None`
    /// otherwise.
    fn match_pattern<'a>(&'a self, p: &Expression) -> (found: Option<Bindings<'a>>) {
        let mut bs: Bindings<'a> = BindingMap::new();
        if match_expression(self, p, &mut bs) {
            Some(bs)
        } else {
            None
        }
    }
}

/// Matches the node `e` against the node `p`. Where they match, the bindings
/// of the match are added to `bs`, overriding those of the same name;
/// where they do not, `bs` is left as it was.
pub fn match_expression<'a, T: Subject<'a>>(
    e: &'a T,
    p: &Expression,
    bs: &mut BindingMap<T::Capture>,
) -> (matched: bool)
    ensures
        matched == (match_term(e.term(), p@) is Some),
        matched ==> final(bs)@ == old(bs)@.union_prefer_right(match_term(e.term(), p@).unwrap()),
        !matched ==> final(bs)@ == old(bs)@,
    decreases p, 0nat,
{
    match p {
        Expression::Blank | Expression::BlankSeq | Expression::BlankNullSeq => true,
        Expression::Pattern(s) | Expression::PatternSeq(s) | Expression::PatternNullSeq(s) => {
            bs.insert(s.clone(), e.single());
            true
        },
        Expression::Atom(j) => match e.shape() {
            Shape::Atom(i) => *i == *j,
            _ => false,
        },
        Expression::List(ps) => match e.shape() {
            Shape::List(es) => {
                proof {
                    vstd::std_specs::vec::axiom_vec_decreases_to_view(*ps);
                }
                match_seq(es, ps.as_slice(), bs)
            },
            _ => false,
        },
    }
}

/// Matches the run `es` against the patterns `ps`, from the left. Where they
/// match, the bindings of the match are added to `bs`, overriding those of
/// the same name; where they do not, `bs` is left as it was.
///
/// A sequence wildcard or variable tries the shortest admissible run first
/// and grows it while the remainder fails to match, so the time taken can
/// grow exponentially with the number of such patterns in one list.
pub fn match_seq<'a, T: Subject<'a>>(
    es: &'a [T],
    ps: &[Expression],
    bs: &mut BindingMap<T::Capture>,
) -> (matched: bool)
    ensures
        matched == (match_items(T::terms(es@), views(ps@)) is Some),
        matched ==> final(bs)@ == old(bs)@.union_prefer_right(
            match_items(T::terms(es@), views(ps@)).unwrap(),
        ),
        !matched ==> final(bs)@ == old(bs)@,
    decreases ps@, 0nat,
{
    proof {
        T::terms_are_termwise(es@);
    }
    if ps.len() == 0 {
        return es.len() == 0;
    }
    let rest = slice_subrange(ps, 1, ps.len());
    proof {
        assert(views(rest@) =~= views(ps@).drop_first());
        vstd::seq::axiom_seq_subrange_decreases(ps@, 1, ps@.len() as int);
        first_fit_is_least(T::terms(es@), views(rest@), 1);
    }
    match &ps[0] {
        Expression::BlankSeq => search(es, rest, 1, None, bs),
        Expression::BlankNullSeq => search(es, rest, 0, None, bs),
        Expression::PatternSeq(s) => search(es, rest, 1, Some(s), bs),
        Expression::PatternNullSeq(s) => search(es, rest, 0, Some(s), bs),
        head => {
            if es.len() == 0 {
                return false;
            }
            let tail = slice_subrange(es, 1, es.len());
            let mut local = BindingMap::new();
            proof {
                terms_subrange(es@, 1, es@.len() as int);
                vstd::seq::axiom_seq_index_decreases(ps@, 0);
            }
            if !match_expression(&es[0], head, &mut local) {
                return false;
            }
            if !match_seq(tail, rest, &mut local) {
                return false;
            }
            bs.merge(local);
            true
        },
    }
}

/// Tries each length from `from` up for the run that a sequence wildcard or
/// variable takes from the front of `es`, and stops at the first for which
/// `rest` matches what is left. A variable's `name` is then bound to that run.
fn search<'a, T: Subject<'a>>(
    es: &'a [T],
    rest: &[Expression],
    from: usize,
    name: Option<&String>,
    bs: &mut BindingMap<T::Capture>,
) -> (matched: bool)
    ensures
        matched == (first_fit(T::terms(es@), views(rest@), from as int) is Some),
        matched ==> final(bs)@ == old(bs)@.union_prefer_right(
            taken(
                name,
                T::terms(es@),
                views(rest@),
                first_fit(T::terms(es@), views(rest@), from as int).unwrap(),
            ).unwrap(),
        ),
        !matched ==> final(bs)@ == old(bs)@,
    decreases rest@, 1nat,
{
    let mut i: usize = from;
    proof {
        T::terms_are_termwise(es@);
    }
    while i <= es.len()
        invariant
            from <= i,
            T::terms(es@).len() == es@.len(),
            first_fit(T::terms(es@), views(rest@), from as int) == first_fit(
                T::terms(es@),
                views(rest@),
                i as int,
            ),
            bs@ == old(bs)@,
        decreases es.len() + 1 - i,
    {
        let left = slice_subrange(es, i, es.len());
        proof {
            terms_subrange(es@, i as int, es@.len() as int);
            terms_subrange(es@, 0, i as int);
        }
        let mut local = BindingMap::new();
        match name {
            Some(s) => {
                local.insert(s.clone(), T::run(slice_subrange(es, 0, i)));
            },
            None => {},
        }
        if match_seq(left, rest, &mut local) {
            bs.merge(local);
            return true;
        }
        if i == es.len() {
            assert(first_fit(T::terms(es@), views(rest@), i + 1) is None);
            return false;
        }
        i += 1;
    }
    false
}

/// The bindings of a sequence wildcard, or of a sequence variable `name`,
/// that took the first `k` of `es` before the patterns `rest`.
pub open spec fn taken(name: Option<&String>, es: Seq<Term>, rest: Seq<Term>, k: int) -> Option<
    Env,
> {
    match name {
        Some(n) => bind_run(n@, es.take(k), match_items(es.skip(k), rest)),
        None => match_items(es.skip(k), rest),
    }
}

} // verus!
