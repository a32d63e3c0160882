use ers::rewriting::ReplaceError;
use ers::Expression;

struct Shown<'a>(&'a Expression);

impl std::fmt::Debug for Shown<'_> {
    fn fmt(&self, f: &mut std::fmt::Formatter) -> std::fmt::Result {
        f.write_str(&self.0.render())
    }
}

fn read(text: &str) -> Expression {
    text.parse::<Expression>().unwrap()
}

#[test]
fn debug() {
    let a = Expression::Atom("a".to_string());
    let b = Expression::Atom("b".to_string());
    let c = Expression::Atom("c".to_string());
    let d = Expression::Atom("d".to_string());

    let ls = Expression::List(vec![c, d]);

    let expr = Expression::List(vec![a, b, ls]);

    assert_eq!(format!("{:?}", Shown(&expr)), "(a b (c d))");
}

#[test]
fn parse() {
    let expr = "(a b (c d))".parse::<Expression>();
    assert_eq!(format!("{:?}", Shown(&expr.unwrap())), "(a b (c d))");
}

#[test]
fn replace() {
    let expr = "(x z)".parse::<Expression>().unwrap();
    let pattern = "(x a_)".parse::<Expression>().unwrap();
    let template = "(y a)".parse::<Expression>().unwrap();

    let res = expr.replace(&pattern, template).unwrap();

    assert_eq!(format!("{:?}", Shown(&res)), "(y z)");
}

#[test]
fn replace_all() {
    let expr = "((x r) (x s))".parse::<Expression>().unwrap();
    let pattern = "(x a_)".parse::<Expression>().unwrap();
    let template = "(y a)".parse::<Expression>().unwrap();

    let res = expr.replace_all(&pattern, template);

    assert_eq!(format!("{:?}", Shown(&res)), "((y r) (y s))");
}

#[test]
fn replace_repeated() {
    let expr = "(x (x (x z)))".parse::<Expression>().unwrap();
    let pattern = "(x a_)".parse::<Expression>().unwrap();
    let template = "(y a)".parse::<Expression>().unwrap();

    let res = expr.replace_repeated(&pattern, template).unwrap();

    assert_eq!(format!("{:?}", Shown(&res)), "(y (y (y z)))");
}

#[test]
fn render_writes_every_kind() {
    let expr = Expression::List(vec![
        Expression::Blank,
        Expression::BlankSeq,
        Expression::BlankNullSeq,
        Expression::Pattern("a".to_string()),
        Expression::PatternSeq("b".to_string()),
        Expression::PatternNullSeq("c".to_string()),
        Expression::List(vec![]),
        Expression::Atom("d".to_string()),
    ]);
    assert_eq!(expr.render(), "(_ __ ___ a_ b__ c___ () d)");
}

#[test]
fn render_into_appends() {
    let mut out = "> ".to_string();
    read("(a (b))").render_into(&mut out);
    assert_eq!(out, "> (a (b))");
}

#[test]
fn clone_copies_the_whole_tree() {
    let expr = read("(a (b c_) (__ d___) ())");
    assert_eq!(expr.clone().render(), "(a (b c_) (__ d___) ())");
}

#[test]
fn replace_is_absent_without_a_match() {
    let expr = read("(x z)");
    assert!(expr.replace(&read("(w a_)"), read("(y a)")).is_none());
    assert!(expr.replace(&read("(x a_ b_)"), read("(y a)")).is_none());
    assert!(read("x").replace(&read("(x)"), read("y")).is_none());
}

#[test]
fn replace_matches_at_the_root_only() {
    let expr = read("((x z))");
    assert!(expr.replace(&read("(x a_)"), read("(y a)")).is_none());
}

#[test]
fn replace_all_keeps_what_does_not_match() {
    let expr = read("(a (x r) b (c (x s)) _)");
    let res = expr.replace_all(&read("(x a_)"), read("(y a)"));
    assert_eq!(res.render(), "(a (y r) b (c (y s)) _)");
}

#[test]
fn replace_all_does_not_look_into_a_replacement() {
    let expr = read("(x (x z))");
    let res = expr.replace_all(&read("(x a_)"), read("(y a)"));
    assert_eq!(res.render(), "(y (x z))");
}

#[test]
fn replace_rec_reports_a_change() {
    let pattern = read("(x a_)");
    let (res, changed) = read("(a (x r))").replace_rec(&pattern, read("(y a)"));
    assert_eq!(res.render(), "(a (y r))");
    assert!(changed);
    let (res, changed) = read("(a (w r))").replace_rec(&pattern, read("(y a)"));
    assert_eq!(res.render(), "(a (w r))");
    assert!(!changed);
    let (res, changed) = read("a").replace_rec(&pattern, read("(y a)"));
    assert_eq!(res.render(), "a");
    assert!(!changed);
}

#[test]
fn replace_repeated_stops_at_the_limit() {
    let res = read("x").replace_repeated(&read("x_"), read("(x x)"));
    assert!(matches!(res, Err(ReplaceError::LimitReached)));
}

#[test]
fn replace_repeated_within_counts_passes() {
    let expr = read("(x (x (x z)))");
    let pattern = read("(x a_)");
    // Three passes change the tree, the fourth finds it unchanged.
    let res = expr.replace_repeated_within(&pattern, read("(y a)"), 4);
    assert_eq!(res.unwrap().render(), "(y (y (y z)))");
    let res = expr.replace_repeated_within(&pattern, read("(y a)"), 3);
    assert!(matches!(res, Err(ReplaceError::LimitReached)));
    let res = expr.replace_repeated_within(&pattern, read("(y a)"), 0);
    assert!(matches!(res, Err(ReplaceError::LimitReached)));
    let res = read("(w z)").replace_repeated_within(&pattern, read("(y a)"), 1);
    assert_eq!(res.unwrap().render(), "(w z)");
}

#[test]
fn replacing_twice_gives_the_same() {
    let expr = read("((x r) (x s) (x (x t)))");
    let pattern = read("(x a_)");
    let template = read("(y a a)");
    let once = expr.replace(&pattern, template.clone()).map(|e| e.render());
    let again = expr.replace(&pattern, template.clone()).map(|e| e.render());
    assert_eq!(once, again);
    let once = expr.replace_all(&pattern, template.clone()).render();
    let again = expr.replace_all(&pattern, template.clone()).render();
    assert_eq!(once, "((y r r) (y s s) (y (x t) (x t)))");
    assert_eq!(once, again);
    let once = expr.replace_repeated(&pattern, template.clone()).unwrap().render();
    let again = expr.replace_repeated(&pattern, template.clone()).unwrap().render();
    assert_eq!(once, "((y r r) (y s s) (y (y t t) (y t t)))");
    assert_eq!(once, again);
    assert_eq!(expr.render(), "((x r) (x s) (x (x t)))");
    assert_eq!(pattern.render(), "(x a_)");
    assert_eq!(template.render(), "(y a a)");
}
