use sql_parser::ast::{Delete, Expr, Insert, Op, Update, Value};
use sql_parser::parser::{Parser, ParserError};
use sql_parser::token::{Keyword, Location, Token, TokenWithLocation};

fn ident(name: &str) -> Expr {
    Expr::Ident(name.into())
}

fn message<T: std::fmt::Debug>(result: Result<T, ParserError>) -> String {
    match result {
        Err(ParserError::Unexpected(message)) => message,
        other => panic!("expected an unexpected-token error, got {:?}", other),
    }
}

#[test]
fn tokens_are_checked_one_after_another() {
    let mut parser = Parser::new("( ) , x").unwrap();
    assert!(!parser.check_tokens(&[Token::LParen, Token::Comma]));
    assert_eq!(Token::LParen, parser.peek().0);
    assert!(parser.check_tokens(&[]));
    assert_eq!(Token::LParen, parser.peek().0);
    assert!(parser.check_tokens(&[Token::LParen, Token::RParen]));
    assert_eq!(Token::Comma, parser.peek().0);
    assert!(!parser.check_tokens(&[Token::Comma, Token::Ident("y".into())]));
    assert!(parser.check_tokens(&[Token::Comma, Token::Ident("x".into())]));
    assert_eq!(Token::Eof, parser.peek().0);
}

#[test]
fn the_end_marker_can_be_checked_for_as_often_as_wanted() {
    let mut parser = Parser::new("x").unwrap();
    assert!(parser.check_tokens(&[Token::Ident("x".into()), Token::Eof, Token::Eof]));
    assert!(parser.check_tokens(&[Token::Eof]));
    assert!(!parser.check_tokens(&[Token::Eof, Token::Comma]));
    assert_eq!(TokenWithLocation(Token::Eof, Location::default()), parser.next());
    assert_eq!(TokenWithLocation(Token::Eof, Location::default()), parser.peek());
}

#[test]
fn keywords_are_checked_one_after_another() {
    let mut parser = Parser::new("group by order x").unwrap();
    assert!(!parser.check_keywords(&[Keyword::Group, Keyword::Order]));
    assert!(!parser.check_keywords(&[Keyword::Order, Keyword::By]));
    assert_eq!(Token::Keyword(Keyword::Group), parser.peek().0);
    assert!(parser.check_keywords(&[Keyword::Group, Keyword::By]));
    assert!(!parser.check_keywords(&[Keyword::Order, Keyword::By]));
    assert!(parser.check_keywords(&[Keyword::Order]));
    assert!(!parser.check_keywords(&[Keyword::By]));
    assert_eq!(Token::Ident("x".into()), parser.peek().0);
}

#[test]
fn wanted_tokens_must_stand_there() {
    let mut parser = Parser::new("( , )").unwrap();
    assert!(parser.parse_tokens(&[Token::LParen, Token::Comma]).is_ok());
    assert_eq!("1:5: unexpected token RParen", message(parser.parse_tokens(&[Token::Comma])));
    assert_eq!(Token::Eof, parser.peek().0);
    assert_eq!("0:0: unexpected token Eof", message(parser.parse_tokens(&[Token::RParen])));
    assert!(parser.parse_tokens(&[Token::Eof]).is_ok());
}

#[test]
fn wanted_keywords_must_stand_there() {
    let mut parser = Parser::new("create table t").unwrap();
    assert!(parser.parse_keywords(&[Keyword::Create, Keyword::Table]).is_ok());
    assert_eq!(
        "1:14: unexpected token Ident(\"t\")",
        message(parser.parse_keywords(&[Keyword::Table])),
    );
    assert_eq!("0:0: unexpected token Eof", message(parser.parse_keywords(&[Keyword::Table])));
}

#[test]
fn tokens_by_position() {
    let parser = Parser::new("a ,").unwrap();
    assert_eq!(TokenWithLocation(Token::Ident("a".into()), Location { line: 1, column: 1 }), parser.get(0));
    assert_eq!(TokenWithLocation(Token::Comma, Location { line: 1, column: 3 }), parser.get(1));
    assert_eq!(TokenWithLocation(Token::Eof, Location::default()), parser.get(2));
    assert_eq!(TokenWithLocation(Token::Eof, Location::default()), parser.get(usize::MAX));
}

#[test]
fn binding_powers() {
    let power = |input: &str| Parser::new(input).unwrap().next_prec().unwrap();
    for input in ["=", "<>", "<", "<=", ">", ">=", "between", "in", "not between", "not in"] {
        assert_eq!(20, power(input), "{}", input);
    }
    assert_eq!(17, power("is"));
    assert_eq!(10, power("and"));
    assert_eq!(5, power("or"));
    for input in ["", ")", ",", "x", "5", "from", "null", ".", "*", ";"] {
        assert_eq!(0, power(input), "{}", input);
    }
    let parser = Parser::new("not null").unwrap();
    assert_eq!("1:5: unexpected token Keyword(Null)", message(parser.next_prec()));
    assert_eq!(Token::Keyword(Keyword::Not), parser.peek().0);
}

#[test]
fn values_one_by_one() {
    let mut parser = Parser::new("true false null 'x' 7 y").unwrap();
    assert_eq!(Value::Bool(true), parser.parse_value().unwrap());
    assert_eq!(Value::Bool(false), parser.parse_value().unwrap());
    assert_eq!(Value::Null, parser.parse_value().unwrap());
    assert_eq!(Value::String("x".into()), parser.parse_value().unwrap());
    assert_eq!(Value::Number("7".into()), parser.parse_value().unwrap());
    assert_eq!("1:23: unexpected token Ident(\"y\")", message(parser.parse_value()));
}

#[test]
fn prefix_terms() {
    let mut parser = Parser::new("a.b (c < d) e < f").unwrap();
    assert_eq!(Expr::CompoundIdent(vec!["a".into(), "b".into()]), parser.parse_prefix().unwrap());
    let want = Expr::BinaryOp {
        left: Box::new(ident("c")),
        op: Op::Lt,
        right: Box::new(ident("d")),
    };
    assert_eq!(want, parser.parse_prefix().unwrap());
    assert_eq!(ident("e"), parser.parse_prefix().unwrap());
    assert_eq!("1:15: unexpected token Lt", message(parser.parse_prefix()));
    assert_eq!(Token::Lt, parser.peek().0);
}

#[test]
fn infix_forms_take_the_left_operand() {
    let mut parser = Parser::new("< b and c").unwrap();
    let want = Expr::BinaryOp {
        left: Box::new(ident("a")),
        op: Op::Lt,
        right: Box::new(ident("b")),
    };
    assert_eq!(want, parser.parse_infix(ident("a"), 20).unwrap());
    assert_eq!(Token::Keyword(Keyword::And), parser.peek().0);

    let mut parser = Parser::new("not between 1 and 2").unwrap();
    let want = Expr::Between {
        expr: Box::new(ident("a")),
        negated: true,
        low: Box::new(Expr::Value(Value::Number("1".into()))),
        high: Box::new(Expr::Value(Value::Number("2".into()))),
    };
    assert_eq!(want, parser.parse_infix(ident("a"), 20).unwrap());

    let mut parser = Parser::new("in (1)").unwrap();
    let want = Expr::InList {
        expr: Box::new(ident("a")),
        list: vec![Expr::Value(Value::Number("1".into()))],
        negated: false,
    };
    assert_eq!(want, parser.parse_infix(ident("a"), 20).unwrap());

    let mut parser = Parser::new("not x").unwrap();
    assert_eq!("1:1: unexpected token Keyword(Not)", message(parser.parse_infix(ident("a"), 20)));
    assert_eq!(Token::Ident("x".into()), parser.peek().0);

    let mut parser = Parser::new(", x").unwrap();
    assert_eq!("1:1: unexpected token Comma", message(parser.parse_infix(ident("a"), 0)));
    assert_eq!(Token::Ident("x".into()), parser.peek().0);
}

#[test]
fn between_and_in_after_their_keyword() {
    let mut parser = Parser::new("1 and 2 or").unwrap();
    let want = Expr::Between {
        expr: Box::new(ident("a")),
        negated: false,
        low: Box::new(Expr::Value(Value::Number("1".into()))),
        high: Box::new(Expr::Value(Value::Number("2".into()))),
    };
    assert_eq!(want, parser.parse_between(ident("a"), false).unwrap());
    assert_eq!(Token::Keyword(Keyword::Or), parser.peek().0);

    let mut parser = Parser::new("(x, y, z) w").unwrap();
    let want = Expr::InList {
        expr: Box::new(ident("a")),
        list: vec![ident("x"), ident("y"), ident("z")],
        negated: true,
    };
    assert_eq!(want, parser.parse_in(ident("a"), true).unwrap());
    assert_eq!(Token::Ident("w".into()), parser.peek().0);
}

#[test]
fn statements_of_which_only_the_kind_is_read() {
    let mut parser = Parser::new("insert update delete insert").unwrap();
    assert_eq!(Insert {}, parser.parse_insert().unwrap());
    assert_eq!(Update {}, parser.parse_update().unwrap());
    assert_eq!(Delete {}, parser.parse_delete().unwrap());
    assert_eq!("1:22: unexpected token Keyword(Insert)", message(parser.parse_delete()));
    assert_eq!(Token::Eof, parser.peek().0);
}
