use toylang::ast::{ExprKind, StmtKind};
use toylang::lexer::{Ident, Number, Str};
use toylang::parser::{numeral_to_i32, Parser};
use toylang::rules::{And, Lit, Or, Rule};
use toylang::token::{Location, TokenKind};
use toylang::tokenizer::{same_text, Tokenizer};

fn show(e: &ExprKind) -> String {
    match e {
        ExprKind::Number(n) => format!("Number({})", n),
        ExprKind::Ident(s) => format!("Ident({})", s),
        ExprKind::String(s) => format!("String({})", s),
        ExprKind::Binary(op, lhs, rhs) => {
            let name = match op.literal.as_str() {
                "+" => "Add",
                "-" => "Sub",
                "*" => "Mul",
                "/" => "Div",
                other => panic!("unexpected operator {}", other),
            };
            format!("{}({}, {})", name, show(lhs), show(rhs))
        }
    }
}

fn single_expr(input: &str) -> String {
    let mut parser = Parser::new(input);
    let ast = parser.parse();
    assert_eq!(ast.stmts.len(), 1);
    match &ast.stmts[0] {
        StmtKind::Expr(e) => show(e),
        _ => panic!("expected an expression statement"),
    }
}

#[test]
fn tokenizer_tracks_lines_and_columns() {
    let mut t = Tokenizer::new("ab\nc", vec![]);
    assert_eq!(t.peek(), Some('a'));
    assert_eq!(t.consume(), Some('a'));
    assert_eq!(t.location, Location { line: 1, column: 2 });
    assert_eq!(t.consume(), Some('b'));
    assert_eq!(t.consume(), Some('\n'));
    assert_eq!(t.location, Location { line: 2, column: 1 });
    assert!(!t.eof());
    assert_eq!(t.consume(), Some('c'));
    assert_eq!(t.location, Location { line: 2, column: 2 });
    assert!(t.eof());
    assert_eq!(t.consume(), None);
    assert_eq!(t.pos, 4);
}

#[test]
fn consume_while_takes_longest_run() {
    let mut t = Tokenizer::new("  abc1 x", vec![]);
    t.ignore_whitespace();
    assert_eq!(t.pos, 2);
    let word = t.consume_while(|c| c.is_alphabetic());
    assert_eq!(word, "abc");
    assert_eq!(t.pos, 5);
    let none = t.consume_while(|c| c == 'z');
    assert_eq!(none, "");
    assert_eq!(t.pos, 5);
}

#[test]
fn pop_restores_position_and_location() {
    let mut t = Tokenizer::new("x\ny", vec![]);
    t.push();
    t.consume();
    t.consume();
    assert_eq!(t.location, Location { line: 2, column: 1 });
    t.pop();
    assert_eq!(t.pos, 0);
    assert_eq!(t.location, Location { line: 1, column: 1 });
    assert!(t.stack.is_empty());
}

#[test]
fn commit_keeps_position() {
    let mut t = Tokenizer::new("xy", vec![]);
    t.push();
    t.consume();
    t.commit();
    assert_eq!(t.pos, 1);
    assert!(t.stack.is_empty());
}

#[test]
fn keyword_table_membership() {
    let t = Tokenizer::new("", vec!["if", "fn"]);
    assert!(t.is_keyword("if"));
    assert!(t.is_keyword("fn"));
    assert!(!t.is_keyword("ifx"));
    assert!(!t.is_keyword(""));
    assert!(same_text("abc", "abc"));
    assert!(!same_text("abc", "abd"));
}

#[test]
fn literal_mismatch_leaves_cursor_unchanged() {
    let mut t = Tokenizer::new("  abd", vec![]);
    assert!(Lit("abc").parse(&mut t).is_none());
    assert_eq!(t.pos, 0);
    assert_eq!(t.location, Location { line: 1, column: 1 });
    assert!(t.stack.is_empty());
    let mut short = Tokenizer::new("ab", vec![]);
    assert!(Lit("abc").parse(&mut short).is_none());
    assert_eq!(short.pos, 0);
}

#[test]
fn literal_match_gives_start_location() {
    let mut t = Tokenizer::new("\n  if x", vec!["if"]);
    let tok = Lit("if").parse(&mut t).unwrap();
    assert_eq!(tok.kind, TokenKind::Keyword);
    assert_eq!(tok.literal, "if");
    assert_eq!(tok.location, Location { line: 2, column: 3 });
    assert_eq!(t.pos, 5);
    let mut u = Tokenizer::new("+", vec!["if"]);
    assert_eq!(Lit("+").parse(&mut u).unwrap().kind, TokenKind::Unknown);
}

#[test]
fn or_takes_first_then_second() {
    let mut t = Tokenizer::new(" a  b", vec![]);
    let tok = Or(Lit("a"), Lit("b")).parse(&mut t).unwrap();
    assert_eq!(tok.literal, "a");
    assert_eq!(t.pos, 4);
    let mut u = Tokenizer::new(" b", vec![]);
    let tok = Or(Lit("a"), Lit("b")).parse(&mut u).unwrap();
    assert_eq!(tok.literal, "b");
    assert_eq!(u.pos, 2);
    let mut v = Tokenizer::new(" c", vec![]);
    assert!(Or(Lit("a"), Lit("b")).parse(&mut v).is_none());
    assert_eq!(v.pos, 0);
    let mut w = Tokenizer::new("ab", vec![]);
    assert_eq!(Or(Lit("ac"), Lit("ab")).parse(&mut w).unwrap().literal, "ab");
}

#[test]
fn and_is_all_or_nothing() {
    let mut t = Tokenizer::new("a  b", vec![]);
    let tok = And(Lit("a"), Lit("b")).parse(&mut t).unwrap();
    assert_eq!(tok.literal, "ab");
    assert_eq!(tok.kind, TokenKind::Unknown);
    assert_eq!(tok.location, Location { line: 1, column: 1 });
    assert_eq!(t.pos, 4);
    let mut u = Tokenizer::new(" a c", vec![]);
    assert!(And(Lit("a"), Lit("b")).parse(&mut u).is_none());
    assert_eq!(u.pos, 0);
    assert_eq!(u.location, Location { line: 1, column: 1 });
    let mut v = Tokenizer::new("b", vec![]);
    assert!(And(Lit("a"), Lit("b")).parse(&mut v).is_none());
    assert_eq!(v.pos, 0);
}

#[test]
fn keyword_classification() {
    let mut t = Tokenizer::new("if", vec!["if", "fn"]);
    assert_eq!(Ident.parse(&mut t).unwrap().kind, TokenKind::Keyword);
    let mut u = Tokenizer::new("ifx", vec!["if", "fn"]);
    let tok = Ident.parse(&mut u).unwrap();
    assert_eq!(tok.kind, TokenKind::Ident);
    assert_eq!(tok.literal, "ifx");
}

#[test]
fn identifier_rule() {
    let mut t = Tokenizer::new("  _a1 b", vec![]);
    let tok = Ident.parse(&mut t).unwrap();
    assert_eq!(tok.literal, "_a1");
    assert_eq!(tok.location, Location { line: 1, column: 3 });
    assert_eq!(t.pos, 5);
    let mut u = Tokenizer::new(" 1a", vec![]);
    assert!(Ident.parse(&mut u).is_none());
    assert_eq!(u.pos, 0);
}

#[test]
fn number_rule() {
    let mut t = Tokenizer::new(" 42+", vec![]);
    let tok = Number.parse(&mut t).unwrap();
    assert_eq!(tok.kind, TokenKind::Value);
    assert_eq!(tok.literal, "42");
    assert_eq!(t.pos, 3);
    let mut u = Tokenizer::new(" x", vec![]);
    assert!(Number.parse(&mut u).is_none());
    assert_eq!(u.pos, 0);
}

#[test]
fn string_rule() {
    let mut t = Tokenizer::new(" \"hi there\" x", vec![]);
    let tok = Str.parse(&mut t).unwrap();
    assert_eq!(tok.kind, TokenKind::Value);
    assert_eq!(tok.literal, "hi there");
    assert_eq!(t.pos, 11);
    let mut u = Tokenizer::new("\"abc", vec![]);
    assert!(Str.parse(&mut u).is_none());
    assert_eq!(u.pos, 0);
    assert_eq!(u.location, Location { line: 1, column: 1 });
}

#[test]
fn numerals() {
    assert_eq!(numeral_to_i32("0"), Some(0));
    assert_eq!(numeral_to_i32("007"), Some(7));
    assert_eq!(numeral_to_i32("2147483647"), Some(2147483647));
    assert_eq!(numeral_to_i32("2147483648"), None);
    assert_eq!(numeral_to_i32(""), None);
    assert_eq!(numeral_to_i32("1x"), None);
}

#[test]
fn subtraction_is_left_associative() {
    assert_eq!(single_expr("8 - 3 - 2"), "Sub(Sub(Number(8), Number(3)), Number(2))");
}

#[test]
fn product_binds_tighter() {
    assert_eq!(single_expr("2 + 3 * 4"), "Add(Number(2), Mul(Number(3), Number(4)))");
}

#[test]
fn parentheses_override_precedence() {
    assert_eq!(single_expr("(2 + 3) * 4"), "Mul(Add(Number(2), Number(3)), Number(4))");
}

#[test]
fn division_chain() {
    assert_eq!(single_expr("8 / 4 / 2"), "Div(Div(Number(8), Number(4)), Number(2))");
}

#[test]
fn declaration_statement() {
    let mut parser = Parser::new("a : int = 10");
    let ast = parser.parse();
    assert_eq!(ast.stmts.len(), 1);
    match &ast.stmts[0] {
        StmtKind::Decl(name, ty, init) => {
            assert_eq!(name.literal, "a");
            assert_eq!(ty.literal, "int");
            assert_eq!(show(init), "Number(10)");
        }
        _ => panic!("expected a declaration"),
    }
}

#[test]
fn string_literals_in_expression() {
    assert_eq!(single_expr("\"Hello, \" + \"World!\""), "Add(String(Hello, ), String(World!))");
}

#[test]
fn unterminated_string_fails_expression() {
    let mut parser = Parser::new("\"abc");
    let ast = parser.parse();
    assert!(ast.stmts.is_empty());
    assert_eq!(parser.state.pos, 0);
}

#[test]
fn unknown_character_gives_empty_program() {
    let mut parser = Parser::new("@abc");
    let (ast, stopped) = parser.parse_program();
    assert!(ast.stmts.is_empty());
    assert!(!stopped);
    assert_eq!(parser.state.pos, 0);
}

#[test]
fn statements_on_separate_lines() {
    let mut parser = Parser::new("a : b = 10\n2");
    let (ast, stopped) = parser.parse_program();
    assert!(!stopped);
    assert_eq!(ast.stmts.len(), 2);
    match &ast.stmts[1] {
        StmtKind::Expr(e) => assert_eq!(show(e), "Number(2)"),
        _ => panic!("expected an expression statement"),
    }
}

#[test]
fn missing_line_break_stops_parsing() {
    let mut parser = Parser::new("1 ; 2");
    let (ast, stopped) = parser.parse_program();
    assert!(stopped);
    assert_eq!(ast.stmts.len(), 1);
}

#[test]
fn bare_name_statement() {
    let mut parser = Parser::new("x\ny");
    let ast = parser.parse();
    assert_eq!(ast.stmts.len(), 2);
    match &ast.stmts[0] {
        StmtKind::Expr(e) => assert_eq!(show(e), "Ident(x)"),
        _ => panic!("expected an expression statement"),
    }
}

#[test]
fn keyword_statement_does_not_parse() {
    let mut parser = Parser::new("if x");
    let ast = parser.parse();
    assert!(ast.stmts.is_empty());
    assert_eq!(parser.state.pos, 0);
}

#[test]
fn definition_does_not_parse() {
    let mut parser = Parser::new("f :: fn");
    let ast = parser.parse();
    assert!(ast.stmts.is_empty());
    assert_eq!(parser.state.pos, 0);
}

#[test]
fn overflowing_number_does_not_parse() {
    let mut parser = Parser::new("99999999999");
    let ast = parser.parse();
    assert!(ast.stmts.is_empty());
    assert_eq!(parser.state.pos, 0);
}
