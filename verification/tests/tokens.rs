use sql_parser::parser::Parser;
use sql_parser::text::{parse_bounded_number, push_decimal, to_lower};
use sql_parser::token::{label, Keyword, Location, Token, TokenWithLocation};
use sql_parser::tokeniser::{Tokeniser, TokeniserError};

fn tokens(input: &str) -> Vec<Token> {
    let located = Tokeniser::new(input).collect_with_location().unwrap();
    located.into_iter().map(|t| t.0).collect()
}

fn at(line: usize, column: usize) -> Location {
    Location { line, column }
}

#[test]
fn punctuation_and_comparisons() {
    let want = vec![
        Token::Dot,
        Token::Comma,
        Token::LParen,
        Token::RParen,
        Token::Semicolon,
        Token::Asterisk,
        Token::Eq,
        Token::Neq,
        Token::Lt,
        Token::Le,
        Token::Gt,
        Token::Ge,
    ];
    assert_eq!(want, tokens(". , ( ) ; * = <> < <= > >="));
    assert_eq!(want, tokens(".,();*=<><<=>>="));
}

#[test]
fn keywords_in_any_case() {
    let want = vec![
        Token::Keyword(Keyword::Select),
        Token::Keyword(Keyword::From),
        Token::Keyword(Keyword::Where),
        Token::Keyword(Keyword::Group),
        Token::Keyword(Keyword::By),
        Token::Keyword(Keyword::Order),
        Token::Keyword(Keyword::Limit),
        Token::Keyword(Keyword::And),
        Token::Keyword(Keyword::Or),
        Token::Keyword(Keyword::Not),
        Token::Keyword(Keyword::Is),
        Token::Keyword(Keyword::Null),
        Token::Keyword(Keyword::Between),
    ];
    assert_eq!(
        want,
        tokens("select FROM Where gRoUp by ORDER limit and OR not Is NULL between"),
    );
    let want = vec![
        Token::Keyword(Keyword::In),
        Token::Keyword(Keyword::As),
        Token::Keyword(Keyword::Create),
        Token::Keyword(Keyword::Table),
        Token::Keyword(Keyword::Insert),
        Token::Keyword(Keyword::Update),
        Token::Keyword(Keyword::Delete),
        Token::Keyword(Keyword::Int),
        Token::Keyword(Keyword::Varchar),
        Token::Keyword(Keyword::True),
        Token::Keyword(Keyword::False),
        Token::Keyword(Keyword::Asc),
        Token::Keyword(Keyword::Desc),
    ];
    assert_eq!(
        want,
        tokens("in as create table insert update delete int varchar true false asc desc"),
    );
}

#[test]
fn words_that_are_no_keywords_are_identifiers() {
    let want = vec![
        Token::Ident("selects".into()),
        Token::Ident("_from".into()),
        Token::Ident("In1".into()),
        Token::Ident("T_1".into()),
    ];
    assert_eq!(want, tokens("selects _from In1 T_1"));
}

#[test]
fn numbers_keep_their_text() {
    let want = vec![
        Token::NumberLiteral("007".into()),
        Token::NumberLiteral("1.50".into()),
        Token::NumberLiteral("3".into()),
        Token::Dot,
        Token::Ident("x".into()),
        Token::NumberLiteral("4".into()),
        Token::Dot,
    ];
    assert_eq!(want, tokens("007 1.50 3.x 4."));
}

#[test]
fn strings_hold_what_is_between_the_quotes() {
    let want = vec![
        Token::StringLiteral("2".into()),
        Token::StringLiteral("it's".into()),
        Token::StringLiteral("say \"hi\"".into()),
        Token::StringLiteral("".into()),
        Token::StringLiteral("caf\u{e9} \n".into()),
    ];
    assert_eq!(want, tokens("\"2\" \"it's\" 'say \"hi\"' '' 'caf\u{e9} \n'"));
}

#[test]
fn locations_count_lines_and_columns_from_one() {
    let have = Tokeniser::new("a\n  bc 'x\ny' d\r\n;").collect_with_location().unwrap();
    let want = vec![
        TokenWithLocation(Token::Ident("a".into()), at(1, 1)),
        TokenWithLocation(Token::Ident("bc".into()), at(2, 3)),
        TokenWithLocation(Token::StringLiteral("x\ny".into()), at(2, 6)),
        TokenWithLocation(Token::Ident("d".into()), at(3, 4)),
        TokenWithLocation(Token::Semicolon, at(4, 1)),
    ];
    assert_eq!(want, have);
}

#[test]
fn blank_text_has_no_tokens() {
    assert_eq!(Vec::<Token>::new(), tokens(""));
    assert_eq!(Vec::<Token>::new(), tokens(" \t\r\n "));
}

#[test]
fn a_character_that_starts_no_token_is_an_error() {
    let have = Tokeniser::new("a\n #").collect_with_location();
    assert_eq!(Err(TokeniserError::UnexpectedChar { found: '#', location: at(2, 2) }), have);
    assert_eq!("2:2: unexpected character #", have.unwrap_err().message());
    let have = Tokeniser::new("a ! b").collect_with_location();
    assert_eq!(Err(TokeniserError::UnexpectedChar { found: '!', location: at(1, 3) }), have);
}

#[test]
fn a_string_without_its_closing_quote_is_an_error() {
    let have = Tokeniser::new("a 'bc\" ").collect_with_location();
    assert_eq!(Err(TokeniserError::UnterminatedString { location: at(1, 3) }), have);
    assert_eq!("1:3: unterminated string literal", have.unwrap_err().message());
}

#[test]
fn the_default_location_is_nowhere() {
    assert_eq!(at(0, 0), Location::default());
    assert_eq!("0:0", Location::default().describe());
    assert_eq!("12:345", at(12, 345).describe());
}

#[test]
fn tokens_are_written_with_their_kind() {
    assert_eq!("Keyword(Varchar)", Token::Keyword(Keyword::Varchar).describe());
    assert_eq!("Ident(\"c1\")", Token::Ident("c1".into()).describe());
    assert_eq!("StringLiteral(\"a b\")", Token::StringLiteral("a b".into()).describe());
    assert_eq!("NumberLiteral(\"42\")", Token::NumberLiteral("42".into()).describe());
    assert_eq!("LParen", Token::LParen.describe());
    assert_eq!("Neq", Token::Neq.describe());
    assert_eq!("Eof", Token::Eof.describe());
}

#[test]
fn every_keyword_has_its_name() {
    assert_eq!("Select", Keyword::Select.name());
    assert_eq!("Between", Keyword::Between.name());
    assert_eq!("Desc", Keyword::Desc.name());
}

#[test]
fn tokens_are_the_same_when_kind_and_text_agree() {
    assert!(Token::Ident("a".into()).same(&Token::Ident("a".into())));
    assert!(!Token::Ident("a".into()).same(&Token::Ident("b".into())));
    assert!(!Token::Ident("a".into()).same(&Token::StringLiteral("a".into())));
    assert!(Token::Keyword(Keyword::By).same(&Token::Keyword(Keyword::By)));
    assert!(!Token::Keyword(Keyword::By).same(&Token::Keyword(Keyword::In)));
    assert!(Token::Comma.same(&Token::Comma));
    assert!(!Token::Comma.same(&Token::Dot));
    assert_eq!(Token::Ident("a".into()), Token::Ident("a".into()).clone());
}

#[test]
fn decimal_numerals() {
    let mut out = String::from("n=");
    push_decimal(&mut out, 0);
    out.push(',');
    push_decimal(&mut out, 9);
    out.push(',');
    push_decimal(&mut out, 10);
    out.push(',');
    push_decimal(&mut out, 65535);
    assert_eq!("n=0,9,10,65535", out);
}

#[test]
fn bounded_numbers() {
    assert_eq!(Some(0), parse_bounded_number("0"));
    assert_eq!(Some(1024), parse_bounded_number("1024"));
    assert_eq!(Some(65535), parse_bounded_number("65535"));
    assert_eq!(Some(12), parse_bounded_number("+12"));
    assert_eq!(Some(12), parse_bounded_number("00000000012"));
    assert_eq!(None, parse_bounded_number("65536"));
    assert_eq!(None, parse_bounded_number("99999999999999999999999"));
    assert_eq!(None, parse_bounded_number(""));
    assert_eq!(None, parse_bounded_number("+"));
    assert_eq!(None, parse_bounded_number("-1"));
    assert_eq!(None, parse_bounded_number("1.5"));
    assert_eq!(None, parse_bounded_number("12a"));
    assert_eq!(None, parse_bounded_number("1+2"));
}

#[test]
fn lower_case_folding() {
    assert_eq!('a', to_lower('A'));
    assert_eq!('z', to_lower('Z'));
    assert_eq!('q', to_lower('q'));
    assert_eq!('_', to_lower('_'));
    assert_eq!('\u{c9}', to_lower('\u{c9}'));
}

#[test]
fn a_parser_can_start_from_tokens() {
    let located = vec![
        TokenWithLocation(Token::Keyword(Keyword::Delete), at(1, 1)),
        TokenWithLocation(Token::Eof, at(1, 7)),
        TokenWithLocation(Token::Keyword(Keyword::Insert), at(2, 1)),
    ];
    let have = Parser::from_tokens(located).parse().unwrap();
    assert_eq!(1, have.len());
}

#[test]
fn reading_past_the_end_gives_the_end_marker() {
    let mut parser = Parser::new("a ,").unwrap();
    let end = TokenWithLocation(Token::Eof, at(0, 0));
    assert_eq!(TokenWithLocation(Token::Ident("a".into()), at(1, 1)), parser.peek());
    assert_eq!(TokenWithLocation(Token::Comma, at(1, 3)), parser.peek_n(1));
    assert_eq!(end, parser.peek_n(2));
    assert_eq!(end, parser.peek_n(usize::MAX));
    assert_eq!(TokenWithLocation(Token::Ident("a".into()), at(1, 1)), parser.next());
    assert_eq!(TokenWithLocation(Token::Comma, at(1, 3)), parser.next());
    assert_eq!(end, parser.next());
    assert_eq!(end, parser.next());
    assert_eq!(end, parser.peek());
    assert_eq!(end, parser.peek_n(usize::MAX));
}

#[test]
fn peeking_does_not_move_the_cursor() {
    let mut parser = Parser::new("a b").unwrap();
    assert_eq!(parser.peek(), parser.peek());
    assert_eq!(parser.peek_n(1), parser.peek_n(1));
    assert_eq!(TokenWithLocation(Token::Ident("a".into()), at(1, 1)), parser.next());
    assert_eq!(TokenWithLocation(Token::Ident("b".into()), at(1, 3)), parser.peek());
}

#[test]
fn carried_text_is_written_escaped() {
    assert_eq!(
        "StringLiteral(\"a\\\\b\\\"c\\n\\t'\")",
        Token::StringLiteral("a\\b\"c\n\t'".into()).describe(),
    );
    assert_eq!("Ident(\"\\u{1}\")", Token::Ident("\u{1}".into()).describe());
    assert_eq!("NumberLiteral(\"\")", Token::NumberLiteral("".into()).describe());
    assert_eq!("StringLiteral(\"caf\u{e9}\")", Token::StringLiteral("caf\u{e9}".into()).describe());
}

#[test]
fn tokens_are_written_as_their_debug_form() {
    let all = vec![
        Token::Keyword(Keyword::Select),
        Token::Keyword(Keyword::Varchar),
        Token::Keyword(Keyword::Desc),
        Token::Ident("c1".into()),
        Token::StringLiteral("it's \"so\"\\\r\n".into()),
        Token::NumberLiteral("1.50".into()),
        Token::Dot,
        Token::Comma,
        Token::LParen,
        Token::RParen,
        Token::Semicolon,
        Token::Asterisk,
        Token::Eq,
        Token::Neq,
        Token::Lt,
        Token::Le,
        Token::Gt,
        Token::Ge,
        Token::Eof,
    ];
    for token in all {
        assert_eq!(format!("{:?}", token), token.describe());
    }
}

#[test]
fn a_kind_with_what_it_carries() {
    assert_eq!("Ident(x)", label("Ident", "x"));
    assert_eq!("()", label("", ""));
    assert_eq!("Keyword(By)", label("Keyword", Keyword::By.name()));
}

#[test]
fn every_keyword_is_named_as_its_debug_form() {
    let all = vec![
        Keyword::Select,
        Keyword::From,
        Keyword::Where,
        Keyword::Group,
        Keyword::By,
        Keyword::Order,
        Keyword::Limit,
        Keyword::And,
        Keyword::Or,
        Keyword::Not,
        Keyword::Is,
        Keyword::Null,
        Keyword::Between,
        Keyword::In,
        Keyword::As,
        Keyword::Create,
        Keyword::Table,
        Keyword::Insert,
        Keyword::Update,
        Keyword::Delete,
        Keyword::Int,
        Keyword::Varchar,
        Keyword::True,
        Keyword::False,
        Keyword::Asc,
        Keyword::Desc,
    ];
    for keyword in all {
        assert_eq!(format!("{:?}", keyword), keyword.name());
    }
}
