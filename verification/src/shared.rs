//! Expressions with shared parts.
//!
//! In a [`Node`] the children of a list are shared, so that putting a matched
//! part of a tree into a template copies no more than a pointer. Rewriting
//! over and over works on nodes: a rule that doubles what it matched would
//! otherwise double the tree with each pass.

use std::rc::Rc;
use vstd::prelude::*;
use crate::binding::{bind_item, bind_items, bind_term, sentinel, BindingMap};
use crate::expression::{views, Expression};
use crate::rewriting::{pass_without_change, replaced_all, replaced_each};
use crate::matching::match_expression;
use crate::subject::{Shape, Subject};
use crate::term::{Bound, Term};

verus! {

/// An expression whose lists share their children.
pub enum Node {
    /// Contains a list of shared nodes
    List(Vec<Rc<Node>>),
    /// Represents a string expression
    Atom(String),
    /// An unnamed pattern matching a single expression
    Blank,
    /// An unnamed pattern matching one or more expressions
    BlankSeq,
    /// An unnamed pattern matching zero or more expressions
    BlankNullSeq,
    /// A named pattern matching a single expression
    Pattern(String),
    /// A named pattern matching one or more expressions
    PatternSeq(String),
    /// A named pattern matching zero or more expressions
    PatternNullSeq(String),
}

impl View for Node {
    type V = Term;

    open spec fn view(&self) -> Term
        decreases self,
    {
        match self {
            Node::List(ns) => Term::List(node_terms(ns@)),
            Node::Atom(s) => Term::Atom(s@),
            Node::Blank => Term::Blank,
            Node::BlankSeq => Term::BlankSeq,
            Node::BlankNullSeq => Term::BlankNullSeq,
            Node::Pattern(s) => Term::Pattern(s@),
            Node::PatternSeq(s) => Term::PatternSeq(s@),
            Node::PatternNullSeq(s) => Term::PatternNullSeq(s@),
        }
    }
}

/// The terms that a run of shared nodes stands for, in order.
pub open spec fn node_terms(ns: Seq<Rc<Node>>) -> Seq<Term>
    decreases ns,
{
    Seq::new(
        ns.len(),
        |i: int|
            if 0 <= i < ns.len() {
                (*ns[i]).view()
            } else {
                Term::Blank
            },
    )
}

/// A binding to a part of a tree of nodes.
#[derive(Clone, Copy)]
pub enum Capture<'a> {
    /// Binding for a single node
    Single(&'a Rc<Node>),
    /// Binding for a run of zero or more nodes
    Run(&'a [Rc<Node>]),
}

impl<'a> View for Capture<'a> {
    type V = Bound;

    open spec fn view(&self) -> Bound {
        match self {
            Capture::Single(n) => Bound::Single((***n).view()),
            Capture::Run(ns) => Bound::Run(node_terms(ns@)),
        }
    }
}

impl<'a> Subject<'a> for Rc<Node> {
    type Capture = Capture<'a>;

    open spec fn term(&self) -> Term {
        (**self).view()
    }

    open spec fn terms(es: Seq<Rc<Node>>) -> Seq<Term> {
        node_terms(es)
    }

    proof fn terms_are_termwise(es: Seq<Rc<Node>>) {
    }

    fn shape(&'a self) -> (shape: Shape<'a, Rc<Node>>) {
        match &**self {
            Node::List(ns) => Shape::List(ns.as_slice()),
            Node::Atom(n) => Shape::Atom(n),
            _ => Shape::Marker,
        }
    }

    fn single(&'a self) -> (capture: Capture<'a>) {
        Capture::Single(self)
    }

    fn run(es: &'a [Rc<Node>]) -> (capture: Capture<'a>) {
        Capture::Run(es)
    }
}

/// The expression `e` as a node.
pub fn lift(e: &Expression) -> (node: Rc<Node>)
    ensures
        node@ == e@,
    decreases e,
{
    match e {
        Expression::List(es) => {
            let mut v: Vec<Rc<Node>> = Vec::new();
            let mut i: usize = 0;
            while i < es.len()
                invariant
                    i <= es.len(),
                    v.len() == i,
                    *e == Expression::List(*es),
                    forall|j: int| 0 <= j < i ==> v[j]@ == es[j]@,
                decreases es.len() - i,
            {
                proof {
                    vstd::std_specs::vec::axiom_vec_index_decreases(*es, i as int);
                    assert(e->List_0 == *es);
                }
                v.push(lift(&es[i]));
                i += 1;
            }
            proof {
                assert(node_terms(v@) =~= views(es@));
            }
            Rc::new(Node::List(v))
        },
        Expression::Atom(s) => Rc::new(Node::Atom(s.clone())),
        Expression::Blank => Rc::new(Node::Blank),
        Expression::BlankSeq => Rc::new(Node::BlankSeq),
        Expression::BlankNullSeq => Rc::new(Node::BlankNullSeq),
        Expression::Pattern(s) => Rc::new(Node::Pattern(s.clone())),
        Expression::PatternSeq(s) => Rc::new(Node::PatternSeq(s.clone())),
        Expression::PatternNullSeq(s) => Rc::new(Node::PatternNullSeq(s.clone())),
    }
}

/// The node `node` as an expression of its own, which shares nothing.
pub fn lower(node: &Node) -> (e: Expression)
    ensures
        e@ == node@,
    decreases node,
{
    match node {
        Node::List(ns) => {
            let mut v: Vec<Expression> = Vec::new();
            let mut i: usize = 0;
            while i < ns.len()
                invariant
                    i <= ns.len(),
                    v.len() == i,
                    *node == Node::List(*ns),
                    forall|j: int| 0 <= j < i ==> v[j]@ == ns[j]@,
                decreases ns.len() - i,
            {
                proof {
                    vstd::std_specs::vec::axiom_vec_index_decreases(*ns, i as int);
                    assert(node->List_0 == *ns);
                }
                v.push(lower(&*ns[i]));
                i += 1;
            }
            proof {
                assert(views(v@) =~= node_terms(ns@));
            }
            Expression::List(v)
        },
        Node::Atom(s) => Expression::Atom(s.clone()),
        Node::Blank => Expression::Blank,
        Node::BlankSeq => Expression::BlankSeq,
        Node::BlankNullSeq => Expression::BlankNullSeq,
        Node::Pattern(s) => Expression::Pattern(s.clone()),
        Node::PatternSeq(s) => Expression::PatternSeq(s.clone()),
        Node::PatternNullSeq(s) => Expression::PatternNullSeq(s.clone()),
    }
}

/// Appends each node of `run` to `v`, shared.
fn append_shared(v: &mut Vec<Rc<Node>>, run: &[Rc<Node>])
    ensures
        node_terms(final(v)@) == node_terms(old(v)@) + node_terms(run@),
{
    let mut i: usize = 0;
    while i < run.len()
        invariant
            i <= run.len(),
            node_terms(v@) == node_terms(old(v)@) + node_terms(run@.take(i as int)),
        decreases run.len() - i,
    {
        let ghost before = v@;
        v.push(Rc::clone(&run[i]));
        proof {
            assert(node_terms(v@) =~= node_terms(before).push(run[i as int]@));
        }
        i += 1;
    }
}

/// The template with the bindings applied, as a node that shares what the
/// bindings hold.
pub fn instantiate(template: &Expression, bs: &BindingMap<Capture>) -> (node: Rc<Node>)
    ensures
        node@ == bind_term(template@, bs@),
    decreases template,
{
    match template {
        Expression::Atom(s) => {
            match bs.get(s) {
                Some(Capture::Run(run)) => {
                    let mut v: Vec<Rc<Node>> = Vec::new();
                    v.push(Rc::new(Node::Atom("Sequence".to_string())));
                    append_shared(&mut v, run);
                    proof {
                        assert(node_terms(v@) =~= seq![Term::Atom(sentinel())] + node_terms(run@));
                    }
                    Rc::new(Node::List(v))
                },
                Some(Capture::Single(n)) => Rc::clone(n),
                None => lift(template),
            }
        },
        Expression::List(ts) => {
            let mut v: Vec<Rc<Node>> = Vec::new();
            let mut i: usize = 0;
            while i < ts.len()
                invariant
                    i <= ts.len(),
                    *template == Expression::List(*ts),
                    node_terms(v@) == bind_items(views(ts@).take(i as int), bs@),
                decreases ts.len() - i,
            {
                let ghost upto = views(ts@).take(i + 1);
                proof {
                    vstd::std_specs::vec::axiom_vec_index_decreases(*ts, i as int);
                    assert(template->List_0 == *ts);
                    assert(upto.drop_last() =~= views(ts@).take(i as int));
                }
                let run = match &ts[i] {
                    Expression::Atom(s) => match bs.get(s) {
                        Some(Capture::Run(run)) => Some(run),
                        _ => None,
                    },
                    _ => None,
                };
                match run {
                    Some(run) => {
                        assert(bind_item(ts[i as int]@, bs@) == node_terms(run@));
                        append_shared(&mut v, run);
                    },
                    None => {
                        v.push(instantiate(&ts[i], bs));
                        proof {
                            assert(bind_item(upto.last(), bs@) == seq![
                                bind_term(ts[i as int]@, bs@),
                            ]);
                        }
                    },
                }
                i += 1;
            }
            proof {
                assert(views(ts@).take(i as int) =~= views(ts@));
            }
            Rc::new(Node::List(v))
        },
        _ => lift(template),
    }
}

/// One pass of rewriting over `node`, and whether it replaced anything.
pub fn rewrite(node: &Rc<Node>, pattern: &Expression, template: &Expression) -> (res: (
    Rc<Node>,
    bool,
))
    ensures
        res.0@ == replaced_all(node@, pattern@, template@).0,
        res.1 == replaced_all(node@, pattern@, template@).1,
    decreases node,
{
    let mut bs: BindingMap<Capture> = BindingMap::new();
    if match_expression(node, pattern, &mut bs) {
        proof {
            let env = crate::matching::match_term(node@, pattern@).unwrap();
            assert(Map::<Seq<char>, Bound>::empty().union_prefer_right(env) =~= env);
        }
        return (instantiate(template, &bs), true);
    }
    match &**node {
        Node::List(ns) => {
            let mut v: Vec<Rc<Node>> = Vec::new();
            let mut changed = false;
            let mut i: usize = 0;
            let ghost ts = node_terms(ns@);
            let ghost parts = replaced_each(ts, pattern@, template@);
            while i < ns.len()
                invariant
                    i <= ns.len(),
                    v.len() == i,
                    **node == Node::List(*ns),
                    ts == node_terms(ns@),
                    parts.len() == ns.len(),
                    forall|j: int|
                        0 <= j < ns.len() ==> #[trigger] parts[j] == replaced_all(
                            ts[j],
                            pattern@,
                            template@,
                        ),
                    forall|j: int| 0 <= j < i ==> v[j]@ == (#[trigger] parts[j]).0,
                    changed == exists|j: int| 0 <= j < i && (#[trigger] parts[j]).1,
                decreases ns.len() - i,
            {
                proof {
                    vstd::std_specs::vec::axiom_vec_index_decreases(*ns, i as int);
                    assert(node->List_0 == *ns);
                }
                let (new_n, r) = rewrite(&ns[i], pattern, template);
                proof {
                    assert(parts[i as int].1 == r);
                }
                if r {
                    changed = true;
                }
                v.push(new_n);
                i += 1;
            }
            proof {
                let out = replaced_all(node@, pattern@, template@);
                assert(node_terms(v@) =~= out.0->List_0);
            }
            if changed {
                (Rc::new(Node::List(v)), true)
            } else {
                proof {
                    pass_without_change(node@, pattern@, template@);
                }
                (Rc::clone(node), false)
            }
        },
        _ => (Rc::clone(node), false),
    }
}

} // verus!
