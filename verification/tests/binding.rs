use ers::{Bind, Binding, Bindings, Expression, Match};

fn read(text: &str) -> Expression {
    text.parse::<Expression>().unwrap()
}

fn rewrite(subject: &str, pattern: &str, template: &str) -> String {
    let subject = read(subject);
    let bs = subject.match_pattern(&read(pattern)).unwrap();
    read(template).bind(&bs).render()
}

#[test]
fn bind_replaces_a_bound_atom() {
    assert_eq!(rewrite("(x (y z))", "(_ a_)", "(a b)"), "((y z) b)");
    assert_eq!(rewrite("(x (y z))", "(_ a_)", "(a)"), "((y z))");
    assert_eq!(rewrite("(x (y z))", "(_ a_)", "a"), "(y z)");
    assert_eq!(rewrite("(x (y z))", "(_ a_)", "(b (c (a a)))"), "(b (c ((y z) (y z))))");
}

#[test]
fn bind_keeps_what_is_not_bound() {
    assert_eq!(rewrite("(x y)", "(_ a_)", "(b c)"), "(b c)");
    assert_eq!(rewrite("(x y)", "(_ a_)", "b"), "b");
    assert_eq!(rewrite("(x y)", "(_ a_)", "(_ __ ___ a_ a__ a___)"), "(_ __ ___ a_ a__ a___)");
    assert_eq!(rewrite("(x y)", "(_ a_)", "a_"), "a_");
}

#[test]
fn bind_splices_a_run() {
    assert_eq!(rewrite("(1 2 3)", "(a__ _)", "(x a y)"), "(x 1 2 y)");
    assert_eq!(rewrite("(1 2 3)", "(a___)", "(a a)"), "(1 2 3 1 2 3)");
    assert_eq!(rewrite("(1 2 3)", "(a___ 1 2 3)", "(x a y)"), "(x y)");
    assert_eq!(rewrite("(1 2 3)", "(a___ 1 2 3)", "(a)"), "()");
    assert_eq!(rewrite("(1 (2 3) 4)", "(_ a__)", "(x (y a))"), "(x (y (2 3) 4))");
}

#[test]
fn bind_wraps_a_run_at_the_root() {
    assert_eq!(rewrite("(1 2 3)", "(a__ _)", "a"), "(Sequence 1 2)");
    assert_eq!(rewrite("(1 2 3)", "(a___ 1 2 3)", "a"), "(Sequence)");
}

#[test]
fn splice_changes_the_length_by_the_run_less_one() {
    let template = read("(x a y)");
    let unspliced = match &template {
        Expression::List(es) => es.len(),
        _ => panic!("no list"),
    };
    let subjects = ["()", "(1)", "(1 2)", "(1 2 3 4 5)"];
    for (k, subject) in subjects.iter().enumerate() {
        let k = if k == 3 { 5 } else { k };
        let subject = read(subject);
        let bs = subject.match_pattern(&read("(a___)")).unwrap();
        match template.clone().bind(&bs) {
            Expression::List(es) => assert_eq!(es.len() + 1, unspliced + k),
            _ => panic!("no list"),
        }
    }
}

#[test]
fn bind_on_a_list_of_expressions() {
    let subject = read("(1 2)");
    let bs = subject.match_pattern(&read("(a__)")).unwrap();
    let bound = vec![read("a"), read("(a)"), read("b")].bind(&bs);
    let texts: Vec<String> = bound.iter().map(|e| e.render()).collect();
    assert_eq!(texts, vec!["1", "2", "(1 2)", "b"]);
    let none: Vec<Expression> = Vec::new();
    assert!(none.bind(&bs).is_empty());
}

#[test]
fn bindings_keep_the_last_of_a_name() {
    let one = read("1");
    let two = read("2");
    let three = vec![read("3"), read("4")];
    let mut bs = Bindings::new();
    assert!(bs.get(&"a".to_string()).is_none());
    bs.insert("a".to_string(), Binding::Expression(&one));
    bs.insert("b".to_string(), Binding::Expression(&one));
    bs.insert("a".to_string(), Binding::Expression(&two));
    assert!(matches!(bs.get(&"a".to_string()), Some(Binding::Expression(e)) if e.render() == "2"));
    assert!(matches!(bs.get(&"b".to_string()), Some(Binding::Expression(e)) if e.render() == "1"));
    let mut other = Bindings::new();
    other.insert("b".to_string(), Binding::Sequence(&three));
    other.insert("c".to_string(), Binding::Expression(&one));
    bs.merge(other);
    assert!(matches!(bs.get(&"a".to_string()), Some(Binding::Expression(e)) if e.render() == "2"));
    assert!(matches!(bs.get(&"b".to_string()), Some(Binding::Sequence(es)) if es.len() == 2));
    assert!(matches!(bs.get(&"c".to_string()), Some(Binding::Expression(e)) if e.render() == "1"));
    assert!(bs.get(&"d".to_string()).is_none());
}

#[test]
fn bound_tree_does_not_depend_on_the_subject() {
    let bound = {
        let subject = read("(x (y z))");
        let bs = subject.match_pattern(&read("(_ a_)")).unwrap();
        read("(a a)").bind(&bs)
    };
    assert_eq!(bound.render(), "((y z) (y z))");
}

#[test]
fn binding_the_pattern_gives_the_subject_again() {
    let cases = [
        ("(f 1 (g 2 3) 4)", "(f a_ (g b__) c___)", "(f a (g b) c)"),
        ("(f 1 (g 2 3) 4)", "(f r___)", "(f r)"),
        ("(1 2 3)", "(a___ b___)", "(a b)"),
        ("(1 2 3)", "(a__ b__)", "(a b)"),
        ("(1 (2) 3)", "x_", "x"),
        ("(1 (2) 3)", "x__", "x"),
        ("()", "(a___)", "(a)"),
        ("(k)", "(k)", "(k)"),
    ];
    for (subject, pattern, template) in cases {
        assert_eq!(rewrite(subject, pattern, template), subject);
    }
}
