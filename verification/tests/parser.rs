use ers::parser::{char_is_whitespace, ErrorCode, Parser, ParserError};
use ers::Expression;

fn text_of(text: &str) -> Result<String, ParserError> {
    text.parse::<Expression>().map(|e| e.render())
}

fn syntax(code: ErrorCode) -> Result<String, ParserError> {
    Err(ParserError::SyntaxError(code))
}

#[test]
fn parse_errors() {
    assert_eq!(text_of("(a "), syntax(ErrorCode::UnbalancedParens));
    assert_eq!(text_of(""), syntax(ErrorCode::EmptyInput));
    assert_eq!(text_of("x____"), syntax(ErrorCode::InvalidPattern));
}

#[test]
fn unbalanced_parentheses() {
    assert_eq!(text_of(")"), syntax(ErrorCode::UnbalancedParens));
    assert_eq!(text_of("  )"), syntax(ErrorCode::UnbalancedParens));
    assert_eq!(text_of("("), syntax(ErrorCode::UnbalancedParens));
    assert_eq!(text_of("(a (b)"), syntax(ErrorCode::UnbalancedParens));
    assert_eq!(text_of("((a) (b"), syntax(ErrorCode::UnbalancedParens));
}

#[test]
fn empty_input() {
    assert_eq!(text_of(" \t\n "), syntax(ErrorCode::EmptyInput));
}

#[test]
fn invalid_patterns() {
    assert_eq!(text_of("____"), syntax(ErrorCode::InvalidPattern));
    assert_eq!(text_of("_a"), syntax(ErrorCode::InvalidPattern));
    assert_eq!(text_of("__a"), syntax(ErrorCode::InvalidPattern));
    assert_eq!(text_of("a_b"), syntax(ErrorCode::InvalidPattern));
    assert_eq!(text_of("a__b"), syntax(ErrorCode::InvalidPattern));
    assert_eq!(text_of("a___b"), syntax(ErrorCode::InvalidPattern));
    assert_eq!(text_of("a_b_"), syntax(ErrorCode::InvalidPattern));
    assert_eq!(text_of("(a x_____ b)"), syntax(ErrorCode::InvalidPattern));
}

#[test]
fn wildcards_and_variables() {
    assert!(matches!("_".parse::<Expression>(), Ok(Expression::Blank)));
    assert!(matches!("__".parse::<Expression>(), Ok(Expression::BlankSeq)));
    assert!(matches!("___".parse::<Expression>(), Ok(Expression::BlankNullSeq)));
    assert!(matches!("ab_".parse::<Expression>(), Ok(Expression::Pattern(s)) if s == "ab"));
    assert!(matches!("ab__".parse::<Expression>(), Ok(Expression::PatternSeq(s)) if s == "ab"));
    assert!(
        matches!("ab___".parse::<Expression>(), Ok(Expression::PatternNullSeq(s)) if s == "ab")
    );
    assert!(matches!("ab".parse::<Expression>(), Ok(Expression::Atom(s)) if s == "ab"));
    assert_eq!(text_of("(_ __ ___ a_ b__ c___)"), Ok("(_ __ ___ a_ b__ c___)".to_string()));
    assert_eq!(text_of("(_(__)___)"), Ok("(_ (__) ___)".to_string()));
}

#[test]
fn white_space_separates() {
    assert_eq!(text_of("  ( a\tb\n(c\u{3000}d ) ) "), Ok("(a b (c d))".to_string()));
    assert_eq!(text_of("(a(b)c)"), Ok("(a (b) c)".to_string()));
    assert_eq!(text_of("()"), Ok("()".to_string()));
    assert_eq!(text_of("( )"), Ok("()".to_string()));
    assert_eq!(text_of("é→x"), Ok("é→x".to_string()));
}

#[test]
fn what_follows_the_expression_is_not_read() {
    assert_eq!(text_of("a b"), Ok("a".to_string()));
    assert_eq!(text_of("a)"), Ok("a".to_string()));
    assert_eq!(text_of("(a) )"), Ok("(a)".to_string()));
    assert_eq!(text_of("a_ ____"), Ok("a_".to_string()));
}

#[test]
fn parser_reads_one_expression_after_another() {
    let mut parser = Parser::new(" (a b) c_ ) ");
    assert_eq!(parser.parse().map(|e| e.render()), Ok("(a b)".to_string()));
    assert_eq!(parser.parse().map(|e| e.render()), Ok("c_".to_string()));
    assert_eq!(parser.parse().map(|e| e.render()), syntax(ErrorCode::UnbalancedParens));
}

#[test]
fn text_of_a_plain_tree_reads_back() {
    let tree = Expression::List(vec![
        Expression::Atom("a".to_string()),
        Expression::List(vec![]),
        Expression::List(vec![
            Expression::Atom("b-c".to_string()),
            Expression::List(vec![Expression::Atom("d".to_string())]),
        ]),
        Expression::Atom("e".to_string()),
    ]);
    let text = tree.render();
    assert_eq!(text, "(a () (b-c (d)) e)");
    let back = text.parse::<Expression>().unwrap();
    assert_eq!(back.render(), text);
    match back {
        Expression::List(es) => {
            assert_eq!(es.len(), 4);
            assert!(matches!(&es[0], Expression::Atom(s) if s == "a"));
            assert!(matches!(&es[1], Expression::List(l) if l.is_empty()));
            assert!(matches!(&es[2], Expression::List(l) if l.len() == 2));
            assert!(matches!(&es[3], Expression::Atom(s) if s == "e"));
        }
        _ => panic!("no list"),
    }
}

#[test]
fn white_space_is_what_the_standard_library_says() {
    let mut c = '\0';
    loop {
        assert_eq!(char_is_whitespace(c), c.is_whitespace());
        if c == char::MAX {
            break;
        }
        c = match char::from_u32(c as u32 + 1) {
            Some(next) => next,
            None => '\u{e000}',
        };
    }
}

#[test]
fn parse_reads_what_from_str_reads() {
    for text in ["(a (b c_) __)", "", "(", "x____", "  k  "] {
        let read = Expression::parse(text).map(|e| e.render());
        assert_eq!(read, text_of(text));
    }
    assert_eq!(Expression::parse(" (x  y) ").map(|e| e.render()), Ok("(x y)".to_string()));
}
