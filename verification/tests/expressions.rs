use sql_parser::ast::{Expr, Op, Value};
use sql_parser::parser::{Parser, ParserError};

fn ident(name: &str) -> Expr {
    Expr::Ident(name.into())
}

fn number(text: &str) -> Expr {
    Expr::Value(Value::Number(text.into()))
}

fn string(text: &str) -> Expr {
    Expr::Value(Value::String(text.into()))
}

fn binary(left: Expr, op: Op, right: Expr) -> Expr {
    Expr::BinaryOp { left: Box::new(left), op, right: Box::new(right) }
}

fn parse_expr(input: &str) -> Expr {
    let mut parser = Parser::new(input).unwrap();
    parser.parse_expr(0).unwrap()
}

fn expr_error(input: &str) -> String {
    let mut parser = Parser::new(input).unwrap();
    match parser.parse_expr(0) {
        Err(ParserError::Unexpected(message)) => message,
        other => panic!("expected an unexpected-token error, got {:?}", other),
    }
}

#[test]
fn test_expr_binary_op() {
    let want = binary(ident("c1"), Op::Lt, number("5"));
    assert_eq!(want, parse_expr("c1 < 5"));
}

#[test]
fn test_expr_binary_op_in() {
    let want = binary(
        binary(ident("c1"), Op::Lt, number("5")),
        Op::And,
        Expr::InList {
            expr: Box::new(ident("c2")),
            list: vec![number("1"), string("2"), number("3"), string("4")],
            negated: false,
        },
    );
    assert_eq!(want, parse_expr("c1 < 5 and c2 in (1, \"2\", 3, \"4\")"));
}

#[test]
fn test_expr_binary_op_not_in() {
    let want = binary(
        binary(ident("c1"), Op::Lt, number("5")),
        Op::And,
        Expr::InList {
            expr: Box::new(ident("c2")),
            list: vec![number("1"), string("2"), number("3"), string("4")],
            negated: true,
        },
    );
    assert_eq!(want, parse_expr("c1 < 5 and c2 not in (1, \"2\", 3, \"4\")"));
}

#[test]
fn test_expr_binary_op_not_in_parens() {
    let want = binary(
        binary(ident("c1"), Op::Lt, number("5")),
        Op::And,
        Expr::InList {
            expr: Box::new(ident("c2")),
            list: vec![number("1"), string("2"), number("3"), string("4")],
            negated: true,
        },
    );
    assert_eq!(want, parse_expr("(c1 < 5) and (c2 not in (1, \"2\", 3, \"4\"))"));
}

#[test]
fn test_expr_parens() {
    let want = binary(
        binary(ident("c1"), Op::Lt, binary(number("5"), Op::Lt, ident("c2"))),
        Op::And,
        binary(binary(ident("c1"), Op::Lt, number("5")), Op::Lt, ident("c2")),
    );
    assert_eq!(want, parse_expr("c1 < (5 < c2) AND (c1 < 5) < c2"));
}

#[test]
fn test_expr_between() {
    let want = Expr::Between {
        expr: Box::new(ident("c1")),
        negated: false,
        low: Box::new(number("0")),
        high: Box::new(number("200")),
    };
    assert_eq!(want, parse_expr("c1 between 0 and 200"));
}

#[test]
fn test_expr_not_between() {
    let want = Expr::Between {
        expr: Box::new(ident("c1")),
        negated: true,
        low: Box::new(number("0")),
        high: Box::new(number("200")),
    };
    assert_eq!(want, parse_expr("c1 not between 0 and 200"));
}

#[test]
fn test_expr_compound_ident() {
    let want = binary(
        Expr::CompoundIdent(vec!["s1".into(), "t1".into(), "c1".into()]),
        Op::Gt,
        number("5"),
    );
    assert_eq!(want, parse_expr("s1.t1.c1 > 5"));
}

#[test]
fn two_part_names_are_compound() {
    assert_eq!(Expr::CompoundIdent(vec!["t1".into(), "c1".into()]), parse_expr("t1.c1"));
}

#[test]
fn literals_are_values() {
    assert_eq!(Expr::Value(Value::Bool(true)), parse_expr("TRUE"));
    assert_eq!(Expr::Value(Value::Bool(false)), parse_expr("false"));
    assert_eq!(Expr::Value(Value::Null), parse_expr("null"));
    assert_eq!(string("it"), parse_expr("'it'"));
    assert_eq!(number("1.50"), parse_expr("1.50"));
}

#[test]
fn every_comparison_has_its_operator() {
    assert_eq!(binary(ident("a"), Op::Eq, ident("b")), parse_expr("a = b"));
    assert_eq!(binary(ident("a"), Op::Neq, ident("b")), parse_expr("a <> b"));
    assert_eq!(binary(ident("a"), Op::Lt, ident("b")), parse_expr("a < b"));
    assert_eq!(binary(ident("a"), Op::Le, ident("b")), parse_expr("a <= b"));
    assert_eq!(binary(ident("a"), Op::Gt, ident("b")), parse_expr("a > b"));
    assert_eq!(binary(ident("a"), Op::Ge, ident("b")), parse_expr("a >= b"));
}

#[test]
fn and_binds_more_tightly_than_or() {
    let want = binary(ident("a"), Op::Or, binary(ident("b"), Op::And, ident("c")));
    assert_eq!(want, parse_expr("a or b and c"));
    let want = binary(binary(ident("a"), Op::And, ident("b")), Op::Or, ident("c"));
    assert_eq!(want, parse_expr("a and b or c"));
}

#[test]
fn comparison_binds_more_tightly_than_and() {
    let want = binary(
        binary(ident("a"), Op::Eq, number("1")),
        Op::And,
        binary(ident("b"), Op::Eq, number("2")),
    );
    assert_eq!(want, parse_expr("a = 1 and b = 2"));
}

#[test]
fn operators_of_one_power_group_to_the_left() {
    let want = binary(binary(ident("a"), Op::Lt, ident("b")), Op::Lt, ident("c"));
    assert_eq!(want, parse_expr("a < b < c"));
}

#[test]
fn a_threshold_stops_the_expression_early() {
    let mut parser = Parser::new("a and b").unwrap();
    assert_eq!(ident("a"), parser.parse_expr(10).unwrap());
    assert_eq!(binary(ident("and_is_next"), Op::Eq, number("1")), {
        let mut p = Parser::new("and_is_next = 1 and b").unwrap();
        p.parse_expr(10).unwrap()
    });
}

#[test]
fn is_null_and_is_not_null() {
    assert_eq!(Expr::IsNull(Box::new(ident("c1"))), parse_expr("c1 is null"));
    assert_eq!(Expr::IsNotNull(Box::new(ident("c1"))), parse_expr("c1 IS NOT NULL"));
    let want = binary(Expr::IsNull(Box::new(ident("a"))), Op::And, ident("b"));
    assert_eq!(want, parse_expr("a is null and b"));
}

#[test]
fn is_takes_the_comparison_before_it() {
    let want = Expr::IsNull(Box::new(binary(ident("a"), Op::Eq, ident("b"))));
    assert_eq!(want, parse_expr("a = b is null"));
}

#[test]
fn between_bounds_stop_at_and() {
    let want = binary(
        Expr::Between {
            expr: Box::new(ident("a")),
            negated: false,
            low: Box::new(number("1")),
            high: Box::new(number("2")),
        },
        Op::And,
        ident("b"),
    );
    assert_eq!(want, parse_expr("a between 1 and 2 and b"));
}

#[test]
fn a_dangling_parenthesis_is_an_unexpected_end() {
    assert_eq!("0:0: unexpected token Eof", expr_error("(c1 < 5"));
    assert_eq!("0:0: unexpected token Eof", expr_error("("));
    assert_eq!("1:3: unexpected token Comma", expr_error("(a, b)"));
}

#[test]
fn an_empty_expression_is_an_unexpected_token() {
    assert_eq!("0:0: unexpected token Eof", expr_error(""));
    assert_eq!("1:1: unexpected token RParen", expr_error(")"));
    assert_eq!("1:1: unexpected token Keyword(Select)", expr_error("select"));
    assert_eq!("1:5: unexpected token Asterisk", expr_error("a < *"));
}

#[test]
fn not_must_come_before_between_or_in() {
    assert_eq!("1:8: unexpected token Ident(\"b\")", expr_error("a  not b"));
    assert_eq!("0:0: unexpected token Eof", expr_error("a not"));
}

#[test]
fn is_must_come_before_null() {
    assert_eq!("1:6: unexpected token Keyword(True)", expr_error("a is true"));
    assert_eq!("1:10: unexpected token NumberLiteral(\"5\")", expr_error("a is not 5"));
}

#[test]
fn a_dot_needs_an_identifier_after_it() {
    assert_eq!("1:3: unexpected token NumberLiteral(\"5\")", expr_error("a.5"));
    assert_eq!("1:5: unexpected token Asterisk", expr_error("a.b.*"));
    assert_eq!("0:0: unexpected token Eof", expr_error("a."));
}

#[test]
fn in_needs_a_list_in_parentheses() {
    assert_eq!("1:6: unexpected token NumberLiteral(\"1\")", expr_error("a in 1"));
    assert_eq!("1:7: unexpected token RParen", expr_error("a in ()"));
    assert_eq!("0:0: unexpected token Eof", expr_error("a in (1, 2"));
    assert_eq!("1:9: unexpected token RParen", expr_error("a in (1,)"));
}

#[test]
fn between_needs_and() {
    assert_eq!("1:13: unexpected token Keyword(Or)", expr_error("a between 1 or 2"));
    assert_eq!("0:0: unexpected token Eof", expr_error("a between 1 and"));
}

#[test]
fn what_follows_an_expression_is_left_unread() {
    let mut parser = Parser::new("a b").unwrap();
    assert_eq!(ident("a"), parser.parse_expr(0).unwrap());
    assert_eq!(ident("b"), parser.parse_expr(0).unwrap());
    assert!(matches!(parser.parse_expr(0), Err(ParserError::Unexpected(_))));
}

#[test]
fn compound_operands_in_parentheses_read_back() {
    let want = binary(
        binary(ident("a"), Op::Or, ident("b")),
        Op::And,
        Expr::IsNotNull(Box::new(binary(ident("c"), Op::Ge, number("1")))),
    );
    assert_eq!(want, parse_expr("(a or b) and ((c >= 1) is not null)"));
    let want = Expr::Between {
        expr: Box::new(binary(ident("a"), Op::Eq, ident("b"))),
        negated: true,
        low: Box::new(binary(ident("c"), Op::And, ident("d"))),
        high: Box::new(Expr::InList {
            expr: Box::new(ident("e")),
            list: vec![binary(ident("f"), Op::Or, ident("g")), Expr::Value(Value::Null)],
            negated: false,
        }),
    };
    assert_eq!(want, parse_expr("(a = b) not between (c and d) and (e in (f or g, null))"));
}

#[test]
fn parentheses_leave_no_trace_in_the_tree() {
    assert_eq!(ident("a"), parse_expr("((a))"));
    assert_eq!(parse_expr("a < b"), parse_expr("((a) < (b))"));
}
