use lox::ast_printer::AstPrinter;
use lox::environment::Environment;
use lox::error::{error_line, error_token, Error};
use lox::expr::{Expr, ExprVisitor};
use lox::number::Number;
use lox::parser::Parser;
use lox::scanner::{scan, Scanner};
use lox::stmt::Stmt;
use lox::token::{Literal, Token, TokenType, Value};

fn kinds(tokens: &[Token]) -> Vec<TokenType> {
    tokens.iter().map(|t| t.type_).collect()
}

#[test]
fn scans_operators_by_maximal_munch() {
    let (tokens, diagnostics) = scan("!= = == <= < >= > ! / ( ) { } , . - + ; *");
    assert!(diagnostics.is_empty());
    assert_eq!(
        kinds(&tokens),
        vec![
            TokenType::BangEqual,
            TokenType::Equal,
            TokenType::EqualEqual,
            TokenType::LessEqual,
            TokenType::Less,
            TokenType::GreaterEqual,
            TokenType::Greater,
            TokenType::Bang,
            TokenType::Slash,
            TokenType::LeftParen,
            TokenType::RightParen,
            TokenType::LeftBrace,
            TokenType::RightBrace,
            TokenType::Comma,
            TokenType::Dot,
            TokenType::Minus,
            TokenType::Plus,
            TokenType::Semicolon,
            TokenType::Star,
            TokenType::Eof,
        ]
    );
}

#[test]
fn scans_keywords_and_identifiers() {
    let (tokens, _) = scan("and class else false for fun if nil or print return super this true var while whilex _a1");
    let mut expected = vec![
        TokenType::And,
        TokenType::Class,
        TokenType::Else,
        TokenType::False,
        TokenType::For,
        TokenType::Fun,
        TokenType::If,
        TokenType::Nil,
        TokenType::Or,
        TokenType::Print,
        TokenType::Return,
        TokenType::Super,
        TokenType::This,
        TokenType::True,
        TokenType::Var,
        TokenType::While,
        TokenType::Identifier,
        TokenType::Identifier,
    ];
    expected.push(TokenType::Eof);
    assert_eq!(kinds(&tokens), expected);
    assert_eq!(tokens[17].lexeme, "_a1");
}

#[test]
fn scans_numbers_without_trailing_dot() {
    let (tokens, _) = scan("123. 4.5");
    assert_eq!(
        kinds(&tokens),
        vec![TokenType::Number, TokenType::Dot, TokenType::Number, TokenType::Eof]
    );
    match &tokens[0].literal {
        Literal::Number(n) => assert_eq!((n.num, n.den), (123, 1)),
        _ => panic!("expected a number"),
    }
    match &tokens[2].literal {
        Literal::Number(n) => assert_eq!((n.num, n.den), (9, 2)),
        _ => panic!("expected a number"),
    }
}

#[test]
fn scans_strings_across_lines() {
    let (tokens, diagnostics) = scan("\"a\nb\" x");
    assert!(diagnostics.is_empty());
    match &tokens[0].literal {
        Literal::String_(s) => assert_eq!(s, "a\nb"),
        _ => panic!("expected a string"),
    }
    assert_eq!(tokens[0].lexeme, "\"a\nb\"");
    assert_eq!(tokens[0].line, 2);
    assert_eq!(tokens[2].type_, TokenType::Eof);
    assert_eq!(tokens[2].line, 2);
}

#[test]
fn unterminated_string_is_reported() {
    let (tokens, diagnostics) = scan("x \"abc");
    assert_eq!(diagnostics, vec!["[line 1] Error: Unterminated string"]);
    assert_eq!(kinds(&tokens), vec![TokenType::Identifier, TokenType::Eof]);
}

#[test]
fn comments_are_skipped_and_lines_counted() {
    let (tokens, diagnostics) = scan("// one\n/* two\nthree */ x\n");
    assert!(diagnostics.is_empty());
    assert_eq!(kinds(&tokens), vec![TokenType::Identifier, TokenType::Eof]);
    assert_eq!(tokens[0].line, 3);
    assert_eq!(tokens[1].line, 4);
}

#[test]
fn unterminated_block_comment_is_reported() {
    let (tokens, diagnostics) = scan("x /* never closed");
    assert_eq!(diagnostics, vec!["[line 1] Error: Unterminated block comment"]);
    assert_eq!(kinds(&tokens), vec![TokenType::Identifier, TokenType::Eof]);
}

#[test]
fn several_lexical_errors_are_all_reported() {
    let mut scanner = Scanner::new("a # b $ c".to_string());
    let result = scanner.scan_tokens();
    assert!(matches!(result, Err(Error::ScanError)));
    assert_eq!(scanner.diagnostics().len(), 2);
    assert_eq!(scanner.tokens().len(), 4);
}

#[test]
fn oversized_number_literal_is_reported() {
    let (_, diagnostics) = scan("123456789012345678901234567890");
    assert_eq!(diagnostics, vec!["[line 1] Error: Number literal out of range"]);
}

#[test]
fn diagnostics_format() {
    assert_eq!(error_line(3, "Oops"), "[line 3] Error: Oops");
    let t = Token::new(TokenType::Identifier, "abc", Literal::Nil, 7);
    assert_eq!(error_token(&t, "Bad."), "[line 7] Error at 'abc': Bad.");
    let eof = Token::new(TokenType::Eof, "", Literal::Nil, 9);
    assert_eq!(error_token(&eof, "Bad."), "[line 9] Error at end: Bad.");
}

#[test]
fn parse_error_at_end() {
    let (tokens, _) = scan("print 1");
    let mut parser = Parser::new(tokens);
    let statements = parser.parse().ok().unwrap();
    assert!(statements.is_empty());
    assert_eq!(parser.diagnostics().len(), 1);
    assert_eq!(parser.diagnostics()[0], "[line 1] Error at end: Expected `;` after value.");
}

#[test]
fn for_loop_desugars_to_block_and_while() {
    let (tokens, _) = scan("for (var i = 0; i < 3; i = i + 1) print i;");
    let mut parser = Parser::new(tokens);
    let statements = parser.parse().ok().unwrap();
    assert_eq!(statements.len(), 1);
    match &statements[0] {
        Stmt::Block { statements } => {
            assert_eq!(statements.len(), 2);
            assert!(matches!(statements[0], Stmt::Var { .. }));
            match &statements[1] {
                Stmt::While { body, .. } => match body.as_ref() {
                    Stmt::Block { statements } => {
                        assert_eq!(statements.len(), 2);
                        assert!(matches!(statements[0], Stmt::Print { .. }));
                        assert!(matches!(statements[1], Stmt::Expression { .. }));
                    },
                    _ => panic!("expected the body and the increment"),
                },
                _ => panic!("expected a while loop"),
            }
        },
        _ => panic!("expected a block"),
    }
}

#[test]
fn for_loop_without_clauses_loops_on_true() {
    let (tokens, _) = scan("for (;;) print 1;");
    let mut parser = Parser::new(tokens);
    let statements = parser.parse().ok().unwrap();
    match &statements[0] {
        Stmt::While { condition, .. } => {
            assert!(matches!(condition, Expr::Literal { value: Literal::Bool(true) }))
        },
        _ => panic!("expected a bare while loop"),
    }
}

#[test]
fn printer_shows_prefix_form() {
    let (tokens, _) = scan("y = -1 * (2 + x) or z;");
    let mut parser = Parser::new(tokens);
    let statements = parser.parse().ok().unwrap();
    match &statements[0] {
        Stmt::Expression { expression } => {
            let mut printer = AstPrinter;
            assert_eq!(printer.print(expression), "(y (or (* (- 1) (group (+ 2 x))) z))");
        },
        _ => panic!("expected an expression statement"),
    }
}

#[test]
fn number_arithmetic_is_exact() {
    let third = Number::from_fraction(1, 3).unwrap();
    let sum = third.add(&third).unwrap().add(&third).unwrap();
    assert_eq!((sum.num, sum.den), (1, 1));
    let half = Number::from_fraction(-2, 4).unwrap();
    assert_eq!((half.num, half.den), (-1, 2));
    assert_eq!(half.to_string(), "-0.5");
    assert!(half.less(&third));
    assert!(Number::from_int(2).equals(&Number::from_fraction(4, 2).unwrap()));
    let big = Number::from_int(i64::MAX);
    assert!(big.mul(&big).is_none());
    assert_eq!(Number::from_int(10).div(&Number::from_int(4)).unwrap().to_string(), "2.5");
    assert_eq!(Number::from_int(-5).sub(&Number::from_int(5)).unwrap().to_string(), "-10");
}

#[test]
fn value_texts() {
    assert_eq!(Value::Bool(true).to_string(), "true");
    assert_eq!(Value::Nil.to_string(), "nil");
    assert_eq!(Value::String_("hi".to_string()).to_string(), "hi");
    assert_eq!(Value::Number(Number::from_int(0)).to_string(), "0");
}

#[test]
fn environment_define_get_assign() {
    let mut env = Environment::new(None);
    let name = Token::new(TokenType::Identifier, "v", Literal::Nil, 1);
    assert!(env.get(&name).is_err());
    env.define("v".to_string(), None);
    assert!(matches!(env.get(&name), Ok(None)));
    assert!(env.assign(&name, &Value::Bool(true)).is_ok());
    let mut inner = Environment::new(Some(env));
    inner.define("v".to_string(), Some(&Value::Nil));
    assert!(matches!(inner.get(&name), Ok(Some(Value::Nil))));
    inner.pop_frame();
    assert!(matches!(inner.get(&name), Ok(Some(Value::Bool(true)))));
    let missing = Token::new(TokenType::Identifier, "w", Literal::Nil, 1);
    assert!(inner.assign(&missing, &Value::Nil).is_err());
}

#[test]
fn long_fraction_literal_is_reported() {
    let (tokens, diagnostics) = scan("0.000000000000000000000000000000000001");
    assert_eq!(diagnostics, vec!["[line 1] Error: Number literal out of range"]);
    assert_eq!(kinds(&tokens), vec![TokenType::Eof]);
}

#[test]
fn every_dropped_declaration_is_reported() {
    let (tokens, _) = scan("var; print; if (; print 4;");
    let mut parser = Parser::new(tokens);
    let statements = parser.parse().ok().unwrap();
    assert_eq!(statements.len(), 1);
    assert!(parser.diagnostics().len() >= 3);
}

#[test]
fn number_after_dot_number_splits() {
    let (tokens, _) = scan("1.2.3");
    assert_eq!(
        kinds(&tokens),
        vec![TokenType::Number, TokenType::Dot, TokenType::Number, TokenType::Eof]
    );
    assert_eq!(tokens[0].lexeme, "1.2");
}

#[test]
fn parse_diagnostics_are_exact() {
    let (tokens, _) = scan("print ; var = 1; print 3;");
    let mut parser = Parser::new(tokens);
    let statements = parser.parse().ok().unwrap();
    assert_eq!(statements.len(), 1);
    assert_eq!(
        parser.diagnostics(),
        &vec![
            "[line 1] Error at ';': Expected expression.".to_string(),
            "[line 1] Error at '=': Expected variable name.".to_string(),
        ]
    );
}

#[test]
fn clean_parse_reports_nothing() {
    let (tokens, _) = scan("1+2*3;");
    let mut parser = Parser::new(tokens);
    let statements = parser.parse().ok().unwrap();
    assert_eq!(statements.len(), 1);
    assert!(parser.diagnostics().is_empty());
}

#[test]
fn invalid_target_keeps_statement() {
    let (tokens, _) = scan("1 = 2;");
    let mut parser = Parser::new(tokens);
    let statements = parser.parse().ok().unwrap();
    assert_eq!(statements.len(), 1);
    assert_eq!(
        parser.diagnostics(),
        &vec!["[line 1] Error at '=': Invalid assignment target.".to_string()]
    );
    match &statements[0] {
        Stmt::Expression { expression } => {
            assert!(matches!(expression, Expr::Literal { value: Literal::Number(_) }))
        },
        _ => panic!("expected an expression statement"),
    }
}

#[test]
fn visitor_dispatches_on_kind() {
    let (tokens, _) = scan("!(1 + x);");
    let mut parser = Parser::new(tokens);
    let statements = parser.parse().ok().unwrap();
    match &statements[0] {
        Stmt::Expression { expression } => {
            let mut printer = AstPrinter;
            assert_eq!(printer.accept_expr(expression), Ok("(! (group (+ 1 x)))".to_string()));
        },
        _ => panic!("expected an expression statement"),
    }
}
