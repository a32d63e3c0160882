use std::rc::Rc;

use ers::binding::BindingMap;
use ers::matching::match_expression;
use ers::shared::{instantiate, lift, lower, rewrite, Capture, Node};
use ers::Expression;

fn read(text: &str) -> Expression {
    text.parse::<Expression>().unwrap()
}

#[test]
fn lift_and_lower_keep_the_tree() {
    let text = "(a (b c_) (__ d___) () _ e__ ___)";
    let node = lift(&read(text));
    assert_eq!(lower(&node).render(), text);
    match &*node {
        Node::List(ns) => assert_eq!(ns.len(), 7),
        _ => panic!("no list"),
    }
}

#[test]
fn nodes_match_as_expressions_do() {
    let node = lift(&read("(1 2 3)"));
    let mut bs: BindingMap<Capture> = BindingMap::new();
    assert!(match_expression(&node, &read("(x__ y_)"), &mut bs));
    match bs.get(&"x".to_string()) {
        Some(Capture::Run(ns)) => {
            let texts: Vec<String> = ns.iter().map(|n| lower(n).render()).collect();
            assert_eq!(texts, vec!["1", "2"]);
        }
        _ => panic!("no run"),
    }
    match bs.get(&"y".to_string()) {
        Some(Capture::Single(n)) => assert_eq!(lower(n).render(), "3"),
        _ => panic!("no single node"),
    }
    let mut bs: BindingMap<Capture> = BindingMap::new();
    assert!(!match_expression(&node, &read("(x__ 4)"), &mut bs));
    assert!(bs.get(&"x".to_string()).is_none());
}

#[test]
fn instantiate_shares_what_is_bound() {
    let node = lift(&read("(f (a b) c d)"));
    let mut bs: BindingMap<Capture> = BindingMap::new();
    assert!(match_expression(&node, &read("(f x_ r___)"), &mut bs));
    let out = instantiate(&read("(g x (x r) r q)"), &bs);
    assert_eq!(lower(&out).render(), "(g (a b) ((a b) c d) c d q)");
    let (first, second) = match &*out {
        Node::List(ns) => match &*ns[2] {
            Node::List(inner) => (Rc::clone(&ns[1]), Rc::clone(&inner[0])),
            _ => panic!("no list"),
        },
        _ => panic!("no list"),
    };
    assert!(Rc::ptr_eq(&first, &second));
    let at_root = instantiate(&read("r"), &bs);
    assert_eq!(lower(&at_root).render(), "(Sequence c d)");
    let single = instantiate(&read("x"), &bs);
    assert_eq!(lower(&single).render(), "(a b)");
    let unbound = instantiate(&read("(q_ __ z)"), &bs);
    assert_eq!(lower(&unbound).render(), "(q_ __ z)");
}

#[test]
fn rewrite_is_one_pass() {
    let pattern = read("(x a_)");
    let template = read("(y a a)");
    let (out, changed) = rewrite(&lift(&read("(k (x (x z)) (w))")), &pattern, &template);
    assert!(changed);
    assert_eq!(lower(&out).render(), "(k (y (x z) (x z)) (w))");
    let (out, changed) = rewrite(&lift(&read("(k (w))")), &pattern, &template);
    assert!(!changed);
    assert_eq!(lower(&out).render(), "(k (w))");
    let (out, changed) = rewrite(&lift(&read("k")), &pattern, &template);
    assert!(!changed);
    assert_eq!(lower(&out).render(), "k");
}

#[test]
fn a_rule_that_doubles_its_match_stays_small() {
    let pattern = read("(f x_)");
    let template = read("(f (x x))");
    let mut node = lift(&read("(f a)"));
    for _ in 0..200 {
        let (next, changed) = rewrite(&node, &pattern, &template);
        assert!(changed);
        node = next;
    }
    let mut depth = 0;
    let mut at = Rc::clone(&node);
    loop {
        let next = match &*at {
            Node::List(ns) => Rc::clone(&ns[ns.len() - 1]),
            _ => break,
        };
        depth += 1;
        at = next;
    }
    assert_eq!(depth, 201);
}
