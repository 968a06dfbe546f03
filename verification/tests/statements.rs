use sql_parser::ast::{
    ColumnDef, ColumnType, Create, Delete, Expr, FromTable, Insert, Op, OrderByExpr, Select,
    SelectItem, Statement, Update, Value,
};
use sql_parser::parser::{Parser, ParserError};
use sql_parser::token::Token;

fn ident(name: &str) -> Expr {
    Expr::Ident(name.into())
}

fn number(text: &str) -> Expr {
    Expr::Value(Value::Number(text.into()))
}

fn parse(input: &str) -> Vec<Statement> {
    Parser::new(input).unwrap().parse().unwrap()
}

fn parse_error(input: &str) -> String {
    match Parser::new(input).unwrap().parse() {
        Err(ParserError::Unexpected(message)) => message,
        other => panic!("expected an unexpected-token error, got {:?}", other),
    }
}

fn plain_select(projection: Vec<SelectItem>, table: &str) -> Select {
    Select {
        projection,
        from: FromTable::Table { name: vec![table.into()], alias: None },
        joins: vec![],
        filter: None,
        group: vec![],
        order: None,
        limit: None,
    }
}

#[test]
fn test_create_statement() {
    let input = "
            CREATE TABLE t1 (
                c1 INT,
                c2 VARCHAR(1024)
            )";

    let want = vec![Statement::Create(Create {
        name: "t1".into(),
        columns: vec![
            ColumnDef { ty: ColumnType::Int, name: "c1".into() },
            ColumnDef { ty: ColumnType::Varchar(1024), name: "c2".into() },
        ],
    })];

    let have = Parser::new(input).unwrap().parse().unwrap();
    assert_eq!(want, have)
}

#[test]
fn test_parse_projection() {
    let input = "t1.*, *, s1.t1.c1";

    let want = vec![
        SelectItem::QualifiedWildcard(vec!["t1".into()]),
        SelectItem::Wildcard,
        SelectItem::Expr(Expr::CompoundIdent(vec!["s1".into(), "t1".into(), "c1".into()])),
    ];
    let have = Parser::new(input).unwrap().parse_projection().unwrap();
    assert_eq!(want, have)
}

#[test]
fn create_on_one_line() {
    let want = vec![Statement::Create(Create {
        name: "t1".into(),
        columns: vec![
            ColumnDef { ty: ColumnType::Int, name: "c1".into() },
            ColumnDef { ty: ColumnType::Varchar(1024), name: "c2".into() },
        ],
    })];
    assert_eq!(want, parse("CREATE TABLE t1 (c1 INT, c2 VARCHAR(1024))"));
}

#[test]
fn blank_input_has_no_statements() {
    assert_eq!(Vec::<Statement>::new(), parse(""));
    assert_eq!(Vec::<Statement>::new(), parse("   \n\t \r\n"));
    assert_eq!(Vec::<Statement>::new(), parse(";"));
    assert_eq!(Vec::<Statement>::new(), parse(" ; ;\n;; "));
}

#[test]
fn statements_come_in_source_order() {
    let have = parse("insert; update delete;; create table t (c int);");
    let want = vec![
        Statement::Insert(Insert {}),
        Statement::Update(Update {}),
        Statement::Delete(Delete {}),
        Statement::Create(Create {
            name: "t".into(),
            columns: vec![ColumnDef { ty: ColumnType::Int, name: "c".into() }],
        }),
    ];
    assert_eq!(want, have);
}

#[test]
fn only_the_keyword_of_an_insert_is_read() {
    assert_eq!("1:8: unexpected token Ident(\"into\")", parse_error("insert into t"));
}

#[test]
fn select_without_clauses() {
    let want = vec![Statement::Select(plain_select(vec![SelectItem::Wildcard], "t1"))];
    assert_eq!(want, parse("select * from t1"));
}

#[test]
fn select_with_every_clause() {
    let input = "SELECT a, t1.b AS x, t1.* FROM s1.t1 AS t \
                 WHERE a < 5 GROUP BY a, b ORDER BY a DESC LIMIT 10;";
    let want = vec![Statement::Select(Select {
        projection: vec![
            SelectItem::Expr(ident("a")),
            SelectItem::AliasedExpr {
                expr: Expr::CompoundIdent(vec!["t1".into(), "b".into()]),
                alias: "x".into(),
            },
            SelectItem::QualifiedWildcard(vec!["t1".into()]),
        ],
        from: FromTable::Table { name: vec!["s1".into(), "t1".into()], alias: Some("t".into()) },
        joins: vec![],
        filter: Some(Expr::BinaryOp {
            left: Box::new(ident("a")),
            op: Op::Lt,
            right: Box::new(number("5")),
        }),
        group: vec![ident("a"), ident("b")],
        order: Some(OrderByExpr { expr: ident("a"), desc: true }),
        limit: Some(number("10")),
    })];
    assert_eq!(want, parse(input));
}

#[test]
fn order_is_ascending_unless_desc_is_written() {
    let mut want = plain_select(vec![SelectItem::Wildcard], "t");
    want.order = Some(OrderByExpr { expr: ident("a"), desc: false });
    assert_eq!(vec![Statement::Select(want)], parse("select * from t order by a"));
    let mut want = plain_select(vec![SelectItem::Wildcard], "t");
    want.order = Some(OrderByExpr { expr: ident("a"), desc: false });
    assert_eq!(vec![Statement::Select(want)], parse("select * from t order by a asc"));
}

#[test]
fn two_selects_in_one_input() {
    let want = vec![
        Statement::Select(plain_select(vec![SelectItem::Expr(ident("a"))], "t")),
        Statement::Select(plain_select(vec![SelectItem::Expr(ident("b"))], "u")),
    ];
    assert_eq!(want, parse("select a from t; select b from u"));
}

#[test]
fn select_needs_from() {
    assert_eq!("0:0: unexpected token Eof", parse_error("select a"));
    assert_eq!("1:10: unexpected token Keyword(Where)", parse_error("select a where b"));
    assert_eq!("1:15: unexpected token NumberLiteral(\"5\")", parse_error("select a from 5"));
}

#[test]
fn group_without_by_is_not_a_clause() {
    assert_eq!("1:17: unexpected token Keyword(Group)", parse_error("select a from t group a"));
}

#[test]
fn clauses_out_of_order_are_refused() {
    assert_eq!(
        "1:25: unexpected token Keyword(Where)",
        parse_error("select a from t limit 1 where a"),
    );
}

#[test]
fn an_alias_needs_an_identifier() {
    assert_eq!("1:13: unexpected token Keyword(From)", parse_error("select a as from t"));
    assert_eq!("0:0: unexpected token Eof", parse_error("select a from t as"));
}

#[test]
fn a_failed_wildcard_attempt_reads_nothing() {
    let mut parser = Parser::new("t1.c1 as x, t1.c2.c3.*").unwrap();
    let want = SelectItem::AliasedExpr {
        expr: Expr::CompoundIdent(vec!["t1".into(), "c1".into()]),
        alias: "x".into(),
    };
    assert_eq!(want, parser.parse_select_item().unwrap());
    let mut parser = Parser::new("a.b.*").unwrap();
    assert_eq!(
        SelectItem::QualifiedWildcard(vec!["a".into(), "b".into()]),
        parser.parse_select_item().unwrap(),
    );
}

#[test]
fn a_statement_starts_with_its_keyword() {
    assert_eq!("1:1: unexpected token Ident(\"t1\")", parse_error("t1"));
    assert_eq!("1:1: unexpected token Keyword(From)", parse_error("from t1"));
    assert_eq!("1:3: unexpected token RParen", parse_error("; )"));
}

#[test]
fn one_bad_statement_fails_the_whole_input() {
    assert_eq!(
        "1:32: unexpected token Keyword(Table)",
        parse_error("create table t (c int); select table"),
    );
}

#[test]
fn varchar_needs_a_number_that_fits() {
    assert_eq!(
        "1:27: unexpected token Ident(\"abc\")",
        parse_error("CREATE TABLE t (c VARCHAR(abc))"),
    );
    assert_eq!(
        "1:27: unexpected token NumberLiteral(\"65536\")",
        parse_error("CREATE TABLE t (c VARCHAR(65536))"),
    );
    assert_eq!(
        "1:27: unexpected token NumberLiteral(\"1.5\")",
        parse_error("CREATE TABLE t (c VARCHAR(1.5))"),
    );
    let want = vec![Statement::Create(Create {
        name: "t".into(),
        columns: vec![ColumnDef { ty: ColumnType::Varchar(65535), name: "c".into() }],
    })];
    assert_eq!(want, parse("CREATE TABLE t (c VARCHAR(65535))"));
    let want = vec![Statement::Create(Create {
        name: "t".into(),
        columns: vec![ColumnDef { ty: ColumnType::Varchar(7), name: "c".into() }],
    })];
    assert_eq!(want, parse("CREATE TABLE t (c VARCHAR(0007))"));
}

#[test]
fn create_needs_its_parts() {
    assert_eq!("1:8: unexpected token Ident(\"t\")", parse_error("create t (c int)"));
    assert_eq!("1:14: unexpected token LParen", parse_error("create table (c int)"));
    assert_eq!("1:17: unexpected token RParen", parse_error("create table t ()"));
    assert_eq!("1:19: unexpected token RParen", parse_error("create table t (c )"));
    assert_eq!("0:0: unexpected token Eof", parse_error("create table t (c int"));
    assert_eq!("0:0: unexpected token Eof", parse_error("create table t (c int,"));
    assert_eq!("1:27: unexpected token Comma", parse_error("create table t (c varchar , d int)"));
}

#[test]
fn column_definitions_one_by_one() {
    let mut parser = Parser::new("c1 int c2 varchar(3)").unwrap();
    assert_eq!(
        ColumnDef { ty: ColumnType::Int, name: "c1".into() },
        parser.parse_column_def().unwrap(),
    );
    assert_eq!(
        ColumnDef { ty: ColumnType::Varchar(3), name: "c2".into() },
        parser.parse_column_def().unwrap(),
    );
}

#[test]
fn lexical_errors_come_through_the_parser() {
    match Parser::new("select a ? b") {
        Err(ParserError::TokeniserError(message)) => {
            assert_eq!("1:10: unexpected character ?", message)
        }
        _ => panic!("expected a tokeniser error"),
    }
    match Parser::new("select\n  'abc") {
        Err(ParserError::TokeniserError(message)) => {
            assert_eq!("2:3: unterminated string literal", message)
        }
        _ => panic!("expected a tokeniser error"),
    }
}

#[test]
fn parsing_again_after_the_end_gives_nothing() {
    let mut parser = Parser::new("delete").unwrap();
    assert_eq!(vec![Statement::Delete(Delete {})], parser.parse().unwrap());
    assert_eq!(Vec::<Statement>::new(), parser.parse().unwrap());
}

#[test]
fn a_wildcard_attempt_that_fails_leaves_the_cursor() {
    for input in ["a", "a.b", "a.b.c", "a.b.c.*", "a.5", "a.b.5", "a,*", "5.*", ".*", "*", ""] {
        let mut parser = Parser::new(input).unwrap();
        let first = parser.peek();
        let second = parser.peek_n(1);
        assert_eq!(None, parser.try_qualified_wildcard(), "{}", input);
        assert_eq!(first, parser.peek(), "{}", input);
        assert_eq!(second, parser.peek_n(1), "{}", input);
    }
}

#[test]
fn a_wildcard_attempt_that_succeeds_reads_the_wildcard() {
    let mut parser = Parser::new("a.*, a.b.* x").unwrap();
    assert_eq!(Some(vec!["a".to_string()]), parser.try_qualified_wildcard());
    assert_eq!(Token::Comma, parser.next().0);
    assert_eq!(Some(vec!["a".to_string(), "b".to_string()]), parser.try_qualified_wildcard());
    assert_eq!(Token::Ident("x".into()), parser.next().0);
}

#[test]
fn the_message_writes_the_token_escaped() {
    assert_eq!(
        "1:1: unexpected token StringLiteral(\"a\\\\b\")",
        parse_error("'a\\b' select"),
    );
    assert_eq!(
        "2:2: unexpected token StringLiteral(\"say \\\"hi\\\"\\n\")",
        parse_error(";\n 'say \"hi\"\n'"),
    );
}

#[test]
fn reading_goes_on_where_a_failure_left_the_cursor() {
    let mut parser = Parser::new("select ; delete").unwrap();
    assert!(parser.parse().is_err());
    assert_eq!(vec![Statement::Delete(Delete {})], parser.parse().unwrap());
    let mut parser = Parser::new("create table").unwrap();
    assert!(parser.parse().is_err());
    assert_eq!(Vec::<Statement>::new(), parser.parse().unwrap());
    assert_eq!(Token::Eof, parser.next().0);
    assert_eq!(Token::Eof, parser.peek_n(7).0);
    assert_eq!(Vec::<Statement>::new(), parser.parse().unwrap());
}
