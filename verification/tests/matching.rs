use ers::matching::{match_expression, match_seq};
use ers::{Binding, Bindings, Expression, Match};

fn read(text: &str) -> Expression {
    text.parse::<Expression>().unwrap()
}

fn single(bs: &Bindings, name: &str) -> String {
    match bs.get(&name.to_string()) {
        Some(Binding::Expression(e)) => e.render(),
        _ => panic!("no single binding"),
    }
}

fn run(bs: &Bindings, name: &str) -> Vec<String> {
    match bs.get(&name.to_string()) {
        Some(Binding::Sequence(es)) => es.iter().map(|e| e.render()).collect(),
        _ => panic!("no sequence binding"),
    }
}

fn matches(subject: &str, pattern: &str) -> bool {
    read(subject).match_pattern(&read(pattern)).is_some()
}

#[test]
fn sequence_variable_takes_the_shortest_run() {
    let subject = read("(1 2 3)");
    let bs = subject.match_pattern(&read("(x__ y_)")).unwrap();
    assert_eq!(run(&bs, "x"), vec!["1", "2"]);
    assert_eq!(single(&bs, "y"), "3");
    assert!(bs.get(&"z".to_string()).is_none());
}

#[test]
fn leftmost_sequence_variable_is_shortest() {
    let subject = read("(1 2 3 4)");
    let bs = subject.match_pattern(&read("(x__ y__)")).unwrap();
    assert_eq!(run(&bs, "x"), vec!["1"]);
    assert_eq!(run(&bs, "y"), vec!["2", "3", "4"]);
    let bs = subject.match_pattern(&read("(x___ y___)")).unwrap();
    assert_eq!(run(&bs, "x"), Vec::<String>::new());
    assert_eq!(run(&bs, "y"), vec!["1", "2", "3", "4"]);
    let bs = subject.match_pattern(&read("(x___ 3 y___)")).unwrap();
    assert_eq!(run(&bs, "x"), vec!["1", "2"]);
    assert_eq!(run(&bs, "y"), vec!["4"]);
}

#[test]
fn node_cases() {
    assert!(matches("a", "_"));
    assert!(matches("(a b)", "_"));
    assert!(matches("a", "__"));
    assert!(matches("a", "___"));
    assert!(matches("a", "a"));
    assert!(!matches("a", "b"));
    assert!(!matches("a", "(a)"));
    assert!(!matches("(a)", "a"));
    assert!(matches("()", "()"));
    assert!(!matches("(a)", "()"));
    assert!(!matches("()", "(a)"));
    assert!(!matches("_", "a"));
    assert!(!matches("a_", "a"));
}

#[test]
fn variable_alone_binds_the_subject() {
    let subject = read("(a b)");
    let bs = subject.match_pattern(&read("x_")).unwrap();
    assert_eq!(single(&bs, "x"), "(a b)");
    let bs = subject.match_pattern(&read("x__")).unwrap();
    assert_eq!(single(&bs, "x"), "(a b)");
    let bs = subject.match_pattern(&read("x___")).unwrap();
    assert_eq!(single(&bs, "x"), "(a b)");
}

#[test]
fn sequence_cases() {
    assert!(matches("(a b c)", "(_ _ _)"));
    assert!(!matches("(a b c)", "(_ _)"));
    assert!(matches("(a b c)", "(__)"));
    assert!(!matches("()", "(__)"));
    assert!(matches("()", "(___)"));
    assert!(matches("(a)", "(a ___)"));
    assert!(!matches("(a)", "(a __)"));
    assert!(matches("(a b c)", "(__ c)"));
    assert!(!matches("(a b c)", "(__ b)"));
    assert!(matches("(a b c b)", "(__ b)"));
    assert!(matches("(a (b c) d)", "(a (_ x_) ___)"));
}

#[test]
fn null_sequence_before_more_patterns_on_an_empty_run() {
    assert!(!matches("()", "(___ x)"));
    assert!(!matches("()", "(a___ x)"));
    assert!(!matches("(a)", "(a ___ b)"));
    assert!(matches("()", "(___ ___)"));
    let subject = read("()");
    let bs = subject.match_pattern(&read("(a___ b___)")).unwrap();
    assert_eq!(run(&bs, "a"), Vec::<String>::new());
    assert_eq!(run(&bs, "b"), Vec::<String>::new());
}

#[test]
fn later_binding_of_a_name_wins() {
    let subject = read("(1 2)");
    let bs = subject.match_pattern(&read("(a_ a_)")).unwrap();
    assert_eq!(single(&bs, "a"), "2");
    let subject = read("(1 2 3)");
    let bs = subject.match_pattern(&read("(a__ a_)")).unwrap();
    assert_eq!(single(&bs, "a"), "3");
    let bs = subject.match_pattern(&read("(a_ a__)")).unwrap();
    assert_eq!(run(&bs, "a"), vec!["2", "3"]);
}

#[test]
fn failed_attempts_leave_no_binding() {
    let subject = read("(1 2 3)");
    let pattern = read("(x__ y_ 4)");
    let mut bs = Bindings::new();
    bs.insert("k".to_string(), Binding::Expression(&subject));
    assert!(!match_expression(&subject, &pattern, &mut bs));
    assert!(bs.get(&"x".to_string()).is_none());
    assert!(bs.get(&"y".to_string()).is_none());
    assert_eq!(single(&bs, "k"), "(1 2 3)");
}

#[test]
fn match_adds_to_the_bindings() {
    let subject = read("(1 2 3)");
    let other = read("k");
    let mut bs = Bindings::new();
    bs.insert("k".to_string(), Binding::Expression(&other));
    bs.insert("y".to_string(), Binding::Expression(&other));
    assert!(match_expression(&subject, &read("(_ y_ _)"), &mut bs));
    assert_eq!(single(&bs, "k"), "k");
    assert_eq!(single(&bs, "y"), "2");
}

#[test]
fn match_seq_on_slices() {
    let subject = vec![read("a"), read("b"), read("c")];
    let pattern = vec![read("a"), read("r___")];
    let mut bs = Bindings::new();
    assert!(match_seq(&subject, &pattern, &mut bs));
    assert_eq!(run(&bs, "r"), vec!["b", "c"]);
    let mut bs = Bindings::new();
    assert!(!match_seq(&subject[1..], &pattern, &mut bs));
    assert!(bs.get(&"r".to_string()).is_none());
    let mut bs = Bindings::new();
    assert!(match_seq(&subject[..0], &pattern[..0], &mut bs));
    assert!(!match_seq(&subject, &pattern[..0], &mut bs));
}

#[test]
fn match_is_present_where_an_assignment_exists() {
    // (x___ b y__) fits (a b c b d) with x = [a] and y = [c b d], and also
    // with x = [a b c] and y = [d]: the first is found.
    let subject = read("(a b c b d)");
    let bs = subject.match_pattern(&read("(x___ b y__)")).unwrap();
    assert_eq!(run(&bs, "x"), vec!["a"]);
    assert_eq!(run(&bs, "y"), vec!["c", "b", "d"]);
    // No assignment makes (x___ b) equal to (a b c).
    assert!(subject.match_pattern(&read("(x___ c)")).is_none());
}
