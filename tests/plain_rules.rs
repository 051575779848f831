use toylang::{and, exec, lit, or, ParserState, Rule};

#[test]
fn parser_state_basics() {
    let mut s = ParserState::new(" ab");
    assert_eq!(s.peek(), Some(' '));
    s.ignore_whitespace();
    assert_eq!(s.pos, 1);
    assert_eq!(s.consume(), Some('a'));
    s.push();
    assert_eq!(s.consume(), Some('b'));
    assert!(s.eof());
    assert_eq!(s.consume(), None);
    s.pop();
    assert_eq!(s.pos, 2);
    s.push();
    s.consume();
    s.commit();
    assert_eq!(s.pos, 3);
    assert!(s.stack.is_empty());
}

#[test]
fn parser_state_consume_while() {
    let mut s = ParserState::new("123abc");
    assert_eq!(s.consume_while(|c| c.is_ascii_digit()), "123");
    assert_eq!(s.pos, 3);
}

#[test]
fn plain_literal() {
    let mut s = ParserState::new("  let x");
    assert_eq!(exec(lit("let"), &mut s), Some("let".to_string()));
    assert_eq!(s.pos, 5);
    let mut t = ParserState::new("  lex");
    assert_eq!(lit("let").parse(&mut t), None);
    assert_eq!(t.pos, 0);
}

#[test]
fn plain_alternative() {
    let mut s = ParserState::new(" b ");
    assert_eq!(exec(or(lit("a"), lit("b")), &mut s), Some("b".to_string()));
    assert_eq!(s.pos, 2);
    let mut t = ParserState::new("a  c");
    assert_eq!(exec(or(lit("a"), lit("b")), &mut t), Some("a".to_string()));
    assert_eq!(t.pos, 3);
    let mut u = ParserState::new(" c");
    assert_eq!(exec(or(lit("a"), lit("b")), &mut u), None);
    assert_eq!(u.pos, 0);
}

#[test]
fn plain_sequence() {
    let mut s = ParserState::new("a b c");
    assert_eq!(exec(and(lit("a"), and(lit("b"), lit("c"))), &mut s), Some("abc".to_string()));
    assert_eq!(s.pos, 5);
    let mut t = ParserState::new(" a b d");
    assert_eq!(exec(and(lit("a"), and(lit("b"), lit("c"))), &mut t), None);
    assert_eq!(t.pos, 0);
}
