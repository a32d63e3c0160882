//! Bindings of variables, and binding them into a template.

use vstd::prelude::*;
use crate::expression::{views, Expression};
use crate::term::{Bound, Env, Term};

verus! {

/// The `Binding` type.
#[derive(Clone, Copy)]
pub enum Binding<'a> {
    /// Binding for a single expression
    Expression(&'a Expression),
    /// Binding for a run of zero or more expressions
    Sequence(&'a [Expression]),
}

impl<'a> View for Binding<'a> {
    type V = Bound;

    open spec fn view(&self) -> Bound {
        match self {
            Binding::Expression(e) => Bound::Single(e@),
            Binding::Sequence(es) => Bound::Run(views(es@)),
        }
    }
}

/// The bindings that a match produced: from a variable's name to what it
/// matched, of the kind `B`.
pub struct BindingMap<B> {
    /// Every binding made, oldest first. A later entry overrides an earlier
    /// one of the same name.
    entries: Vec<(String, B)>,
}

/// The bindings that a match of an expression produced. They borrow from the
/// subject.
pub type Bindings<'a> = BindingMap<Binding<'a>>;

/// The map that a log of bindings amounts to: the last entry of a name wins.
pub closed spec fn replay<B: View<V = Bound>>(log: Seq<(String, B)>) -> Env
    decreases log.len(),
{
    if log.len() == 0 {
        Map::empty()
    } else {
        replay(log.drop_last()).insert(log.last().0@, log.last().1@)
    }
}

impl<B: View<V = Bound>> View for BindingMap<B> {
    type V = Env;

    closed spec fn view(&self) -> Env {
        replay(self.entries@)
    }
}

impl<B: View<V = Bound> + Copy> BindingMap<B> {
    /// No bindings.
    pub fn new() -> (bs: Self)
        ensures
            bs@ == Map::<Seq<char>, Bound>::empty(),
    {
        BindingMap { entries: Vec::new() }
    }

    /// Binds `name` to `binding`, in place of what it was bound to before.
    pub fn insert(&mut self, name: String, binding: B)
        ensures
            final(self)@ == old(self)@.insert(name@, binding@),
    {
        proof {
            assert(self.entries@.push((name, binding)).drop_last() =~= self.entries@);
        }
        self.entries.push((name, binding));
    }

    /// What `name` is bound to, if anything.
    pub fn get(&self, name: &String) -> (found: Option<B>)
        ensures
            match found {
                Some(b) => self@.contains_key(name@) && self@[name@] == b@,
                None => !self@.contains_key(name@),
            },
    {
        let mut i: usize = self.entries.len();
        proof {
            assert(self.entries@.take(i as int) =~= self.entries@);
        }
        while i > 0
            invariant
                i <= self.entries.len(),
                self@.contains_key(name@) == replay(self.entries@.take(i as int)).contains_key(
                    name@,
                ),
                self@.contains_key(name@) ==> self@[name@] == replay(
                    self.entries@.take(i as int),
                )[name@],
            decreases i,
        {
            proof {
                assert(self.entries@.take(i as int).drop_last() =~= self.entries@.take(i - 1));
            }
            i -= 1;
            if self.entries[i].0 == *name {
                return Some(self.entries[i].1);
            }
        }
        None
    }

    /// Adds the bindings of `other`; they override those of the same name.
    pub fn merge(&mut self, other: BindingMap<B>)
        ensures
            final(self)@ == old(self)@.union_prefer_right(other@),
    {
        let mut other = other;
        proof {
            replay_concat(self.entries@, other.entries@);
        }
        self.entries.append(&mut other.entries);
    }
}

/// A log followed by another amounts to the first one's map overridden by
/// the second one's.
proof fn replay_concat<B: View<V = Bound>>(first: Seq<(String, B)>, second: Seq<(String, B)>)
    ensures
        replay(first + second) == replay(first).union_prefer_right(replay(second)),
    decreases second.len(),
{
    if second.len() > 0 {
        replay_concat(first, second.drop_last());
        assert((first + second).drop_last() =~= first + second.drop_last());
    }
}

/// The head of the list that stands for a run bound at the root of a
/// template.
pub open spec fn sentinel() -> Seq<char> {
    "Sequence"@
}

/// Whether the template element `t` is an atom that `env` binds to a run,
/// so that binding it splices the run into the surrounding list.
pub open spec fn spliced(t: Term, env: Env) -> bool {
    t matches Term::Atom(n) && env.contains_key(n) && env[n] is Run
}

/// The template `t` with the bindings `env` applied.
///
/// An atom that is bound to a single term becomes that term. A list has its
/// children bound, and runs spliced in. An atom bound to a run, at the root
/// of a template, becomes a list of the sentinel atom and the run. Anything
/// else stays as it is.
pub open spec fn bind_term(t: Term, env: Env) -> Term
    decreases t, 1nat,
{
    match t {
        Term::Atom(n) => if env.contains_key(n) {
            match env[n] {
                Bound::Single(e) => e,
                Bound::Run(run) => Term::List(seq![Term::Atom(sentinel())] + run),
            }
        } else {
            t
        },
        Term::List(ts) => Term::List(bind_items(ts, env)),
        _ => t,
    }
}

/// What the template element `t` contributes to the list around it: the run
/// it is bound to, or else itself with the bindings applied.
pub open spec fn bind_item(t: Term, env: Env) -> Seq<Term>
    decreases t, 2nat,
{
    if spliced(t, env) {
        env[t->Atom_0]->Run_0
    } else {
        seq![bind_term(t, env)]
    }
}

/// The children `ts` of a template list with the bindings `env` applied:
/// the contributions of each, in order.
pub open spec fn bind_items(ts: Seq<Term>, env: Env) -> Seq<Term>
    decreases ts, 0nat,
{
    if ts.len() == 0 {
        Seq::empty()
    } else {
        bind_items(ts.drop_last(), env) + bind_item(ts.last(), env)
    }
}

/// Binding the children of a template list binds them part by part.
pub proof fn bind_items_concat(first: Seq<Term>, second: Seq<Term>, env: Env)
    ensures
        bind_items(first + second, env) == bind_items(first, env) + bind_items(second, env),
    decreases second.len(),
{
    if second.len() == 0 {
        assert(first + second =~= first);
    } else {
        bind_items_concat(first, second.drop_last(), env);
        assert((first + second).drop_last() =~= first + second.drop_last());
        assert(bind_items(first + second, env) =~= bind_items(first, env) + bind_items(
            second,
            env,
        ));
    }
}

/// A template list of which no child is spliced keeps its length when bound.
pub proof fn unspliced_length(ts: Seq<Term>, env: Env)
    requires
        forall|j: int| 0 <= j < ts.len() ==> !spliced(#[trigger] ts[j], env),
    ensures
        bind_items(ts, env).len() == ts.len(),
    decreases ts.len(),
{
    if ts.len() > 0 {
        let init = ts.drop_last();
        unspliced_length(init, env);
        assert(bind_item(ts.last(), env).len() == 1);
    }
}

/// Binding a template list of which exactly one child is spliced, the atom
/// at `at` that is bound to a run of length `k`, gives a list that is longer
/// by `k - 1` than the template, which is how long it is where nothing is
/// spliced.
pub proof fn spliced_length(ts: Seq<Term>, env: Env, at: int)
    requires
        0 <= at < ts.len(),
        spliced(ts[at], env),
        forall|j: int| 0 <= j < ts.len() && j != at ==> !spliced(#[trigger] ts[j], env),
    ensures
        bind_term(Term::List(ts), env) == Term::List(bind_items(ts, env)),
        bind_items(ts, env).len() == ts.len() + env[ts[at]->Atom_0]->Run_0.len() - 1,
    decreases ts.len(),
{
    let init = ts.drop_last();
    if at == ts.len() - 1 {
        unspliced_length(init, env);
    } else {
        spliced_length(init, env, at);
    }
}

/// The `Bind` interface allows us to bind variables according to the bindings.
pub trait Bind: Sized {
    /// Whether `bound` is this value with the bindings `env` applied.
    spec fn binds_to(&self, env: Env, bound: &Self) -> bool;

    /// Bind the variables according to the provided bindings. Returns itself
    /// if no variables were bound.
    fn bind(self, bs: &Bindings) -> (bound: Self)
        ensures
            self.binds_to(bs@, &bound),
    ;
}

impl Bind for Expression {
    open spec fn binds_to(&self, env: Env, bound: &Self) -> bool {
        bound@ == bind_term(self@, env)
    }

    /// Returns an `Expression` with elements replaced according to the
    /// bindings.
    fn bind(self, bs: &Bindings) -> (bound: Expression)
        decreases self,
    {
        match self {
            Expression::Atom(s) => {
                match bs.get(&s) {
                    Some(Binding::Sequence(run)) => {
                        let mut v: Vec<Expression> = Vec::new();
                        v.push(Expression::Atom("Sequence".to_string()));
                        append_clones(&mut v, run);
                        proof {
                            assert(views(v@) =~= seq![Term::Atom(sentinel())] + views(run@));
                        }
                        Expression::List(v)
                    },
                    Some(Binding::Expression(e)) => e.clone(),
                    None => Expression::Atom(s),
                }
            },
            Expression::List(es) => Expression::List(es.bind(bs)),
            other => other,
        }
    }
}

impl Bind for Vec<Expression> {
    open spec fn binds_to(&self, env: Env, bound: &Self) -> bool {
        views(bound@) == bind_items(views(self@), env)
    }

    fn bind(self, bs: &Bindings) -> (bound: Vec<Expression>)
        decreases self,
    {
        let mut v: Vec<Expression> = Vec::new();
        let ghost whole = self@;
        for e in it: self
            invariant
                it.seq() == whole,
                views(v@) == bind_items(views(whole.take(it.index())), bs@),
        {
            let ghost upto = views(whole.take(it.index() + 1));
            proof {
                assert(upto.drop_last() =~= views(whole.take(it.index())));
            }
            let run = match &e {
                Expression::Atom(s) => match bs.get(s) {
                    Some(Binding::Sequence(run)) => Some(run),
                    _ => None,
                },
                _ => None,
            };
            match run {
                Some(run) => {
                    assert(bind_item(e@, bs@) == views(run@));
                    append_clones(&mut v, run);
                },
                None => {
                    v.push(e.bind(bs));
                    proof {
                        assert(bind_items(upto, bs@) == bind_items(upto.drop_last(), bs@)
                            + bind_item(upto.last(), bs@));
                    }
                },
            }
        }
        proof {
            assert(whole.take(whole.len() as int) =~= whole);
        }
        v
    }
}

/// Appends a copy of each expression of `run` to `v`.
fn append_clones(v: &mut Vec<Expression>, run: &[Expression])
    ensures
        views(final(v)@) == views(old(v)@) + views(run@),
{
    let mut i: usize = 0;
    while i < run.len()
        invariant
            i <= run.len(),
            views(v@) == views(old(v)@) + views(run@.take(i as int)),
        decreases run.len() - i,
    {
        let ghost before = v@;
        v.push(run[i].clone());
        proof {
            assert(views(v@) =~= views(before).push(run[i as int]@));
        }
        i += 1;
    }
}

} // verus!
