//! What the matcher asks of a subject.

use vstd::prelude::*;
use crate::term::{Bound, Term};

verus! {

/// What a subject is at its root.
pub enum Shape<'a, T> {
    /// A list of these children.
    List(&'a [T]),
    /// An atom of this name.
    Atom(&'a String),
    /// A wildcard or a variable.
    Marker,
}

/// A tree that can be matched against a pattern. Its bindings borrow from
/// it for `'a`.
pub trait Subject<'a>: Sized {
    /// A binding to a part of the subject.
    type Capture: View<V = Bound> + Copy;

    /// The term that the subject stands for.
    spec fn term(&self) -> Term;

    /// The terms that a run of subjects stands for, in order.
    spec fn terms(es: Seq<Self>) -> Seq<Term>;

    /// The terms of a run are the terms of its subjects, one for one.
    proof fn terms_are_termwise(es: Seq<Self>)
        ensures
            Self::terms(es).len() == es.len(),
            forall|i: int| 0 <= i < es.len() ==> Self::terms(es)[i] == (#[trigger] es[i]).term(),
    ;

    /// What the subject is at its root.
    fn shape(&'a self) -> (shape: Shape<'a, Self>)
        ensures
            match shape {
                Shape::List(es) => self.term() == Term::List(Self::terms(es@)),
                Shape::Atom(n) => self.term() == Term::Atom(n@),
                Shape::Marker => !(self.term() is List) && !(self.term() is Atom),
            },
    ;

    /// A binding to the subject as a single expression.
    fn single(&'a self) -> (capture: Self::Capture)
        ensures
            capture@ == Bound::Single(self.term()),
    ;

    /// A binding to the run `es` of subjects.
    fn run(es: &'a [Self]) -> (capture: Self::Capture)
        ensures
            capture@ == Bound::Run(Self::terms(es@)),
    ;
}

/// The terms of a part of a run are that part of the run's terms.
pub proof fn terms_subrange<'a, T: Subject<'a>>(es: Seq<T>, i: int, j: int)
    requires
        0 <= i <= j <= es.len(),
    ensures
        T::terms(es.subrange(i, j)) == T::terms(es).subrange(i, j),
{
    let part = es.subrange(i, j);
    T::terms_are_termwise(es);
    T::terms_are_termwise(part);
    assert forall|k: int| 0 <= k < part.len() implies T::terms(part)[k] == T::terms(es).subrange(
        i,
        j,
    )[k] by {
        assert(part[k] == es[i + k]);
    }
}

} // verus!
