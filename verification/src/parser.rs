//! The parser: a cursor over a token vector, and one method for each
//! production of the grammar.

use crate::ast::{
    ColumnDef, ColumnType, Create, Delete, Expr, FromTable, Insert, Op, OrderByExpr, Select,
    SelectItem, SpecColumnDef, SpecExpr, SpecSelectItem, SpecStatement, Statement, Update, Value,
};
use crate::grammar::{
    accept, between, binding_power, clauses, climb, column_def, column_list, create, expect,
    expr, expr_list, filter, group, in_list, infix, joined, keyword_tokens, kind_only, limit,
    located_at, message, moved, name, null_test, order, prefix, projection, qualified_wildcard,
    select, select_item, statement, statements, table, value, Failure, Outcome,
};
use crate::text::parse_bounded_number;
use crate::tokeniser::{tokens_of, Tokeniser};
use crate::token::{Keyword, Location, SpecLocated, Token, TokenWithLocation};
use vstd::prelude::*;
use vstd::string::StringExecFns;

verus! {

/// Why no syntax tree was produced. Either variant holds the message.
#[derive(Debug)]
pub enum ParserError {
    /// The source text could not be split into tokens.
    TokeniserError(String),
    /// A token stood where the grammar has no use for it.
    Unexpected(String),
}

/// The mathematical value of a [`ParserError`].
pub enum SpecParserError {
    TokeniserError(Seq<char>),
    Unexpected(Seq<char>),
}

impl View for ParserError {
    type V = SpecParserError;

    open spec fn view(&self) -> SpecParserError {
        match self {
            ParserError::TokeniserError(s) => SpecParserError::TokeniserError(s@),
            ParserError::Unexpected(s) => SpecParserError::Unexpected(s@),
        }
    }
}

impl ParserError {
    /// The error for a token that was not expected, found at `location`.
    pub fn unexpected(token: &Token, location: &Location) -> (e: ParserError)
        ensures
            e@ == SpecParserError::Unexpected(message(token@, *location)),
    {
        let mut message = location.describe();
        message.append(": unexpected token ");
        let what = token.describe();
        message.append(what.as_str());
        ParserError::Unexpected(message)
    }
}

/// The state of a parser: the tokens it reads, which never change, and the
/// position of the next token to read. The position counts every token that
/// was read, so it passes the end of the tokens when the end-of-input marker
/// is read.
pub struct Cursor {
    pub tokens: Seq<SpecLocated>,
    pub position: nat,
}

/// A parser over a token vector. Its position is unbounded; what it keeps
/// to find the next token is the position where that lies within the
/// tokens, and their number where it lies past them.
pub struct Parser {
    tokens: Vec<TokenWithLocation>,
    at: Place,
}

/// Where a parser's cursor stands: its position, and the index at which the
/// next token is looked up, which is the position within the tokens and
/// their number past them.
struct Place {
    index: usize,
    position: Ghost<nat>,
}

impl Place {
    /// Whether the index is the one that belongs to the position, among
    /// `len` tokens.
    spec fn fits(self, len: nat) -> bool {
        self.index == if self.position@ < len {
            self.position@
        } else {
            len
        }
    }
}

impl View for Parser {
    type V = Cursor;

    closed spec fn view(&self) -> Cursor {
        Cursor { tokens: self.tokens.deep_view(), position: self.at.position@ }
    }
}

/// The model of what a parsing method returned.
pub open spec fn seen<T: DeepView>(r: Result<T, ParserError>) -> Result<T::V, SpecParserError> {
    match r {
        Ok(v) => Ok(v.deep_view()),
        Err(e) => Err(e@),
    }
}

/// Whether a parsing method that took the parser from `before` to `now` and
/// returned `got` did what the grammar says of reading at `before`'s
/// position, which is `want`: the same value with the cursor after it, or
/// the same failure with the cursor where the failure leaves it. The tokens
/// are unchanged either way.
pub open spec fn agrees<T>(
    before: Cursor,
    now: Cursor,
    got: Result<T, SpecParserError>,
    want: Outcome<T>,
) -> bool {
    &&& now.tokens == before.tokens
    &&& match want {
        Ok((value, next)) => got == Ok::<T, SpecParserError>(value) && now.position == next,
        Err(f) => got == Err::<T, SpecParserError>(SpecParserError::Unexpected(f.message()))
            && now.position == f.cursor,
    }
}

impl Parser {
    #[verifier::type_invariant]
    spec fn index_follows_position(self) -> bool {
        self.at.fits(self.tokens.len() as nat)
    }

    /// A parser at the start of the tokens of `src`, or the error that the
    /// tokeniser found in it.
    pub fn new(src: &str) -> (r: Result<Parser, ParserError>)
        ensures
            match tokens_of(src@) {
                Ok(tokens) => r matches Ok(p) && p@ == (Cursor { tokens, position: 0 }),
                Err(error) => r matches Err(e) && e@ == SpecParserError::TokeniserError(
                    error.text(),
                ),
            },
    {
        match Tokeniser::new(src).collect_with_location() {
            Ok(tokens) => Ok(Parser::from_tokens(tokens)),
            Err(error) => Err(ParserError::TokeniserError(error.message())),
        }
    }

    /// A parser at the start of `tokens`.
    pub fn from_tokens(tokens: Vec<TokenWithLocation>) -> (p: Parser)
        ensures
            p@ == (Cursor { tokens: tokens.deep_view(), position: 0 }),
    {
        Parser { tokens, at: Place { index: 0, position: Ghost(0) } }
    }

    /// The token at position `i`, or the end-of-input marker past the end.
    pub fn get(&self, i: usize) -> (r: TokenWithLocation)
        ensures
            r@ == located_at(self@.tokens, i as nat),
    {
        if i < self.tokens.len() {
            self.tokens[i].clone()
        } else {
            TokenWithLocation(Token::Eof, Location::default())
        }
    }

    /// The token `n` positions after the cursor, which does not move. Past
    /// the last token this is the end-of-input marker, however far.
    pub fn peek_n(&self, n: usize) -> (r: TokenWithLocation)
        ensures
            r@ == located_at(self@.tokens, (self@.position + n) as nat),
    {
        proof {
            use_type_invariant(self);
        }
        if n < self.tokens.len() - self.at.index {
            self.get(self.at.index + n)
        } else {
            TokenWithLocation(Token::Eof, Location::default())
        }
    }

    /// The token at the cursor, which does not move.
    pub fn peek(&self) -> (r: TokenWithLocation)
        ensures
            r@ == located_at(self@.tokens, self@.position),
    {
        self.peek_n(0)
    }

    /// The token at the cursor, which moves forward by one. Past the last
    /// token this is the end-of-input marker, and the cursor moves all the
    /// same.
    pub fn next(&mut self) -> (r: TokenWithLocation)
        ensures
            r@ == located_at(old(self)@.tokens, old(self)@.position),
            final(self)@.tokens == old(self)@.tokens,
            final(self)@.position == old(self)@.position + 1,
    {
        proof {
            use_type_invariant(&*self);
        }
        let r = self.get(self.at.index);
        let index = if self.at.index < self.tokens.len() {
            self.at.index + 1
        } else {
            self.at.index
        };
        self.at = Place { index, position: Ghost(self.at.position@ + 1) };
        r
    }

    /// The place of the cursor, to come back to.
    fn mark(&self) -> (m: Place)
        ensures
            m.position@ == self@.position,
            m.fits(self@.tokens.len()),
    {
        proof {
            use_type_invariant(self);
        }
        Place { index: self.at.index, position: self.at.position }
    }

    /// Moves the cursor back to a place that `mark` gave.
    fn reset(&mut self, mark: Place)
        requires
            mark.fits(old(self)@.tokens.len()),
        ensures
            final(self)@.tokens == old(self)@.tokens,
            final(self)@.position == mark.position@,
    {
        self.at = mark;
    }

    /// Moves past the keywords `keywords` if they stand at the cursor one
    /// after another, and says whether they did; the cursor stays where it
    /// was if they did not.
    pub fn check_keywords(&mut self, keywords: &[Keyword]) -> (r: bool)
        ensures
            final(self)@.tokens == old(self)@.tokens,
            match accept(old(self)@.tokens, old(self)@.position, keyword_tokens(keywords@)) {
                Some(end) => r && final(self)@.position == end,
                None => !r && final(self)@.position == old(self)@.position,
            },
    {
        let mark = self.mark();
        let ghost toks = self@.tokens;
        let ghost want = keyword_tokens(keywords@);
        let mut k: usize = 0;
        assert(want.skip(0) =~= want);
        while k < keywords.len()
            invariant
                k <= keywords.len(),
                self@.tokens == toks,
                toks == old(self)@.tokens,
                mark.position@ == old(self)@.position,
                mark.fits(toks.len()),
                want == keyword_tokens(keywords@),
                accept(toks, mark.position@, want) == accept(toks, self@.position, want.skip(k as int)),
            decreases keywords.len() - k,
        {
            let have = self.peek();
            let hit = match have.0 {
                Token::Keyword(kw) => kw == keywords[k],
                _ => false,
            };
            proof {
                assert(want.skip(k as int).drop_first() =~= want.skip(k + 1));
            }
            if !hit {
                self.reset(mark);
                return false;
            }
            self.next();
            k += 1;
        }
        true
    }

    /// Moves past the tokens `tokens` if they stand at the cursor one after
    /// another, and says whether they did; the cursor stays where it was if
    /// they did not.
    pub fn check_tokens(&mut self, tokens: &[Token]) -> (r: bool)
        ensures
            final(self)@.tokens == old(self)@.tokens,
            match accept(old(self)@.tokens, old(self)@.position, tokens.deep_view()) {
                Some(end) => r && final(self)@.position == end,
                None => !r && final(self)@.position == old(self)@.position,
            },
    {
        let mark = self.mark();
        let ghost toks = self@.tokens;
        let ghost want = tokens.deep_view();
        let mut k: usize = 0;
        assert(want.skip(0) =~= want);
        while k < tokens.len()
            invariant
                k <= tokens.len(),
                self@.tokens == toks,
                toks == old(self)@.tokens,
                mark.position@ == old(self)@.position,
                mark.fits(toks.len()),
                want == tokens.deep_view(),
                accept(toks, mark.position@, want) == accept(toks, self@.position, want.skip(k as int)),
            decreases tokens.len() - k,
        {
            let have = self.peek();
            let hit = have.0.same(&tokens[k]);
            proof {
                assert(want.skip(k as int).drop_first() =~= want.skip(k + 1));
            }
            if !hit {
                self.reset(mark);
                return false;
            }
            self.next();
            k += 1;
        }
        true
    }

    /// Moves past the keywords `keywords`, which must stand at the cursor
    /// one after another.
    pub fn parse_keywords(&mut self, keywords: &[Keyword]) -> (r: Result<(), ParserError>)
        ensures
            agrees(
                old(self)@,
                final(self)@,
                seen(r),
                expect(old(self)@.tokens, old(self)@.position, keyword_tokens(keywords@)),
            ),
    {
        let ghost toks = self@.tokens;
        let ghost start = self@.position;
        let ghost want = keyword_tokens(keywords@);
        let mut k: usize = 0;
        assert(want.skip(0) =~= want);
        while k < keywords.len()
            invariant
                k <= keywords.len(),
                self@.tokens == toks,
                toks == old(self)@.tokens,
                start == old(self)@.position,
                want == keyword_tokens(keywords@),
                expect(toks, start, want) == expect(toks, self@.position, want.skip(k as int)),
            decreases keywords.len() - k,
        {
            let have = self.next();
            let hit = match have.0 {
                Token::Keyword(kw) => kw == keywords[k],
                _ => false,
            };
            proof {
                assert(want.skip(k as int).drop_first() =~= want.skip(k + 1));
            }
            if !hit {
                return Err(ParserError::unexpected(&have.0, &have.1));
            }
            k += 1;
        }
        Ok(())
    }

    /// Moves past the tokens `tokens`, which must stand at the cursor one
    /// after another.
    pub fn parse_tokens(&mut self, tokens: &[Token]) -> (r: Result<(), ParserError>)
        ensures
            agrees(
                old(self)@,
                final(self)@,
                seen(r),
                expect(old(self)@.tokens, old(self)@.position, tokens.deep_view()),
            ),
    {
        let ghost toks = self@.tokens;
        let ghost start = self@.position;
        let ghost want = tokens.deep_view();
        let mut k: usize = 0;
        assert(want.skip(0) =~= want);
        while k < tokens.len()
            invariant
                k <= tokens.len(),
                self@.tokens == toks,
                toks == old(self)@.tokens,
                start == old(self)@.position,
                want == tokens.deep_view(),
                expect(toks, start, want) == expect(toks, self@.position, want.skip(k as int)),
            decreases tokens.len() - k,
        {
            let have = self.next();
            let hit = have.0.same(&tokens[k]);
            proof {
                assert(want.skip(k as int).drop_first() =~= want.skip(k + 1));
            }
            if !hit {
                return Err(ParserError::unexpected(&have.0, &have.1));
            }
            k += 1;
        }
        Ok(())
    }
}

/// Putting items before a list that already has items before it is putting
/// all of them before it.
proof fn lemma_joined_twice<T>(front: Seq<T>, middle: Seq<T>, rest: Outcome<Seq<T>>)
    ensures
        joined(front, joined(middle, rest)) == joined(front + middle, rest),
{
    match rest {
        Ok((items, end)) => {
            assert(front + (middle + items) =~= (front + middle) + items);
        },
        Err(_) => {},
    }
}

impl Parser {
    /// How tightly the token at the cursor binds as an infix operator. The
    /// cursor does not move.
    pub fn next_prec(&self) -> (r: Result<u8, ParserError>)
        ensures
            match binding_power(self@.tokens, self@.position) {
                Ok(power) => r matches Ok(p) && p == power,
                Err(f) => r matches Err(e) && e@ == SpecParserError::Unexpected(f.message())
                    && f.cursor == self@.position,
            },
    {
        let TokenWithLocation(token, _) = self.peek();
        match token {
            Token::Eq | Token::Neq | Token::Lt | Token::Le | Token::Gt | Token::Ge => Ok(20),
            Token::Keyword(Keyword::And) => Ok(10),
            Token::Keyword(Keyword::Or) => Ok(5),
            Token::Keyword(Keyword::Not) => {
                let TokenWithLocation(token, location) = self.peek_n(1);
                match token {
                    Token::Keyword(Keyword::Between) => Ok(20),
                    Token::Keyword(Keyword::In) => Ok(20),
                    _ => Err(ParserError::unexpected(&token, &location)),
                }
            },
            Token::Keyword(Keyword::Is) => Ok(17),
            Token::Keyword(Keyword::Between) => Ok(20),
            Token::Keyword(Keyword::In) => Ok(20),
            _ => Ok(0),
        }
    }

    /// Reads a literal value.
    pub fn parse_value(&mut self) -> (r: Result<Value, ParserError>)
        ensures
            agrees(
                old(self)@,
                final(self)@,
                seen(r),
                value(old(self)@.tokens, old(self)@.position),
            ),
    {
        let TokenWithLocation(token, location) = self.next();
        match token {
            Token::Keyword(Keyword::False) => Ok(Value::Bool(false)),
            Token::Keyword(Keyword::True) => Ok(Value::Bool(true)),
            Token::Keyword(Keyword::Null) => Ok(Value::Null),
            Token::StringLiteral(s) => Ok(Value::String(s)),
            Token::NumberLiteral(n) => Ok(Value::Number(n)),
            _ => Err(ParserError::unexpected(&token, &location)),
        }
    }

    /// Reads a name of one to three identifiers joined by dots.
    fn parse_name(&mut self) -> (r: Result<Vec<String>, ParserError>)
        ensures
            agrees(
                old(self)@,
                final(self)@,
                seen(r),
                name(old(self)@.tokens, old(self)@.position),
            ),
    {
        proof {
            reveal_with_fuel(accept, 2);
        }
        let TokenWithLocation(a, location) = self.next();
        let mut parts: Vec<String> = Vec::new();
        match a {
            Token::Ident(a) => parts.push(a),
            _ => {
                return Err(ParserError::unexpected(&a, &location));
            },
        }
        if self.check_tokens(&[Token::Dot]) {
            let TokenWithLocation(b, location) = self.next();
            match b {
                Token::Ident(b) => parts.push(b),
                _ => {
                    return Err(ParserError::unexpected(&b, &location));
                },
            }
            if self.check_tokens(&[Token::Dot]) {
                let TokenWithLocation(c, location) = self.next();
                match c {
                    Token::Ident(c) => parts.push(c),
                    _ => {
                        return Err(ParserError::unexpected(&c, &location));
                    },
                }
            }
        }
        assert(parts.deep_view() =~= name(old(self)@.tokens, old(self)@.position)->Ok_0.0);
        Ok(parts)
    }

    /// Reads an expression that extends over every infix operator binding
    /// more tightly than `prec`. A successful reading moves the cursor
    /// forward.
    pub fn parse_expr(&mut self, prec: u8) -> (r: Result<Expr, ParserError>)
        ensures
            agrees(
                old(self)@,
                final(self)@,
                seen(r),
                expr(old(self)@.tokens, old(self)@.position, prec as nat),
            ),
            r is Ok ==> moved(old(self)@.tokens, old(self)@.position, final(self)@.position),
        decreases old(self)@.tokens.len() - old(self)@.position, 1nat,
    {
        let ghost toks = self@.tokens;
        let ghost start = self@.position;
        let mut left = self.parse_prefix()?;
        loop
            invariant_except_break
                expr(toks, start, prec as nat) == climb(toks, self@.position, prec as nat, left@),
            invariant
                self@.tokens == toks,
                toks == old(self)@.tokens,
                start == old(self)@.position,
                moved(toks, start, self@.position),
            ensures
                expr(toks, start, prec as nat) == Ok::<(SpecExpr, nat), Failure>(
                    (left@, self@.position),
                ),
            decreases toks.len() - self@.position,
        {
            let power = self.next_prec()?;
            if prec >= power {
                break ;
            }
            left = self.parse_infix(left, power)?;
        }
        Ok(left)
    }

    /// Reads a prefix term: a literal value, a name, or an expression in
    /// parentheses.
    pub fn parse_prefix(&mut self) -> (r: Result<Expr, ParserError>)
        ensures
            agrees(
                old(self)@,
                final(self)@,
                seen(r),
                prefix(old(self)@.tokens, old(self)@.position),
            ),
            r is Ok ==> moved(old(self)@.tokens, old(self)@.position, final(self)@.position),
        decreases old(self)@.tokens.len() - old(self)@.position, 0nat,
    {
        proof {
            reveal_with_fuel(expect, 2);
        }
        let TokenWithLocation(token, location) = self.peek();
        match token {
            Token::Keyword(Keyword::False)
            | Token::Keyword(Keyword::True)
            | Token::Keyword(Keyword::Null)
            | Token::StringLiteral(_)
            | Token::NumberLiteral(_) => {
                let v = self.parse_value()?;
                Ok(Expr::Value(v))
            },
            Token::Ident(_) => {
                let mut parts = self.parse_name()?;
                if parts.len() == 1 {
                    if let Some(a) = parts.pop() {
                        return Ok(Expr::Ident(a));
                    }
                }
                Ok(Expr::CompoundIdent(parts))
            },
            Token::LParen => {
                self.next();
                let inner = self.parse_expr(0)?;
                self.parse_tokens(&[Token::RParen])?;
                Ok(inner)
            },
            _ => Err(ParserError::unexpected(&token, &location)),
        }
    }

    /// Reads the infix form that the token at the cursor opens, with `left`
    /// as its left operand and `prec` as the binding power of that token.
    pub fn parse_infix(&mut self, left: Expr, prec: u8) -> (r: Result<Expr, ParserError>)
        ensures
            agrees(
                old(self)@,
                final(self)@,
                seen(r),
                infix(old(self)@.tokens, old(self)@.position, left@, prec as nat),
            ),
            r is Ok ==> moved(old(self)@.tokens, old(self)@.position, final(self)@.position),
        decreases old(self)@.tokens.len() - old(self)@.position, 0nat,
    {
        proof {
            reveal_with_fuel(accept, 2);
        }
        let start = self.mark();
        let TokenWithLocation(token, location) = self.next();
        let op = match token {
            Token::Keyword(Keyword::And) => Some(Op::And),
            Token::Keyword(Keyword::Or) => Some(Op::Or),
            Token::Eq => Some(Op::Eq),
            Token::Neq => Some(Op::Neq),
            Token::Lt => Some(Op::Lt),
            Token::Le => Some(Op::Le),
            Token::Gt => Some(Op::Gt),
            Token::Ge => Some(Op::Ge),
            _ => None,
        };
        if let Some(op) = op {
            let right = self.parse_expr(prec)?;
            return Ok(Expr::BinaryOp { left: Box::new(left), op, right: Box::new(right) });
        }
        match token {
            Token::Keyword(Keyword::Is) => self.parse_null_test(left),
            Token::Keyword(Keyword::Not)
            | Token::Keyword(Keyword::Between)
            | Token::Keyword(Keyword::In) => {
                self.reset(start);
                let negated = self.check_keywords(&[Keyword::Not]);
                if self.check_keywords(&[Keyword::Between]) {
                    self.parse_between(left, negated)
                } else if self.check_keywords(&[Keyword::In]) {
                    self.parse_in(left, negated)
                } else {
                    Err(ParserError::unexpected(&token, &location))
                }
            },
            _ => Err(ParserError::unexpected(&token, &location)),
        }
    }

    /// Reads what follows `IS`: `NULL` or `NOT NULL`, testing `probe`.
    fn parse_null_test(&mut self, probe: Expr) -> (r: Result<Expr, ParserError>)
        ensures
            agrees(
                old(self)@,
                final(self)@,
                seen(r),
                null_test(old(self)@.tokens, old(self)@.position, probe@),
            ),
            r is Ok ==> old(self)@.position < final(self)@.position <= old(self)@.tokens.len(),
    {
        proof {
            reveal_with_fuel(accept, 2);
            reveal_with_fuel(expect, 2);
        }
        let negated = self.check_keywords(&[Keyword::Not]);
        self.parse_keywords(&[Keyword::Null])?;
        if negated {
            Ok(Expr::IsNotNull(Box::new(probe)))
        } else {
            Ok(Expr::IsNull(Box::new(probe)))
        }
    }

    /// Reads what follows `BETWEEN`: the low bound, `AND`, the high bound.
    pub fn parse_between(&mut self, probe: Expr, negated: bool) -> (r: Result<Expr, ParserError>)
        ensures
            agrees(
                old(self)@,
                final(self)@,
                seen(r),
                between(old(self)@.tokens, old(self)@.position, probe@, negated),
            ),
            r is Ok ==> moved(old(self)@.tokens, old(self)@.position, final(self)@.position),
        decreases old(self)@.tokens.len() - old(self)@.position, 2nat,
    {
        proof {
            reveal_with_fuel(expect, 2);
        }
        let low = self.parse_expr(20)?;
        self.parse_keywords(&[Keyword::And])?;
        let high = self.parse_expr(20)?;
        Ok(Expr::Between { expr: Box::new(probe), negated, low: Box::new(low), high: Box::new(high) })
    }

    /// Reads what follows `IN`: a list of expressions in parentheses.
    pub fn parse_in(&mut self, probe: Expr, negated: bool) -> (r: Result<Expr, ParserError>)
        ensures
            agrees(
                old(self)@,
                final(self)@,
                seen(r),
                in_list(old(self)@.tokens, old(self)@.position, probe@, negated),
            ),
            r is Ok ==> moved(old(self)@.tokens, old(self)@.position, final(self)@.position),
        decreases old(self)@.tokens.len() - old(self)@.position, 0nat,
    {
        proof {
            reveal_with_fuel(expect, 2);
        }
        self.parse_tokens(&[Token::LParen])?;
        let list = self.parse_expr_list()?;
        self.parse_tokens(&[Token::RParen])?;
        let whole = Expr::InList { expr: Box::new(probe), list, negated };
        assert(whole@->list =~= list.deep_view());
        Ok(whole)
    }

    /// Reads one or more expressions separated by commas.
    fn parse_expr_list(&mut self) -> (r: Result<Vec<Expr>, ParserError>)
        ensures
            agrees(
                old(self)@,
                final(self)@,
                seen(r),
                expr_list(old(self)@.tokens, old(self)@.position),
            ),
            r is Ok ==> moved(old(self)@.tokens, old(self)@.position, final(self)@.position),
        decreases old(self)@.tokens.len() - old(self)@.position, 2nat,
    {
        let ghost toks = self@.tokens;
        let ghost start = self@.position;
        let mut list: Vec<Expr> = Vec::new();
        proof {
            use_type_invariant(&*self);
        }
        loop
            invariant_except_break
                expr_list(toks, start) == joined(
                    list.deep_view(),
                    expr_list(toks, self@.position),
                ),
            invariant
                self@.tokens == toks,
                toks == old(self)@.tokens,
                start == old(self)@.position,
                self@.position == start || moved(toks, start, self@.position),
            ensures
                moved(toks, start, self@.position),
                expr_list(toks, start) == Ok::<(Seq<SpecExpr>, nat), Failure>(
                    (list.deep_view(), self@.position),
                ),
            decreases toks.len() - self@.position,
        {
            let ghost before = list.deep_view();
            let item = self.parse_expr(0)?;
            let ghost there = self@.position;
            list.push(item);
            let more = self.check_tokens(&[Token::Comma]);
            proof {
                reveal_with_fuel(accept, 2);
                assert(list.deep_view() =~= before + seq![item@]);
                lemma_joined_twice(before, seq![item@], expr_list(toks, (there + 1) as nat));
            }
            if !more {
                break ;
            }
        }
        Ok(list)
    }
}

impl Parser {
    /// Reads a qualified wildcard, `a.*` or `a.b.*`, if the tokens at the
    /// cursor have that shape, and gives the parts before the asterisk. If
    /// they have not, nothing is read: the cursor is where it was.
    pub fn try_qualified_wildcard(&mut self) -> (r: Option<Vec<String>>)
        ensures
            final(self)@.tokens == old(self)@.tokens,
            match qualified_wildcard(old(self)@.tokens, old(self)@.position) {
                Some((parts, next)) => r matches Some(p) && p.deep_view() == parts
                    && final(self)@.position == next,
                None => r is None && final(self)@.position == old(self)@.position,
            },
    {
        proof {
            reveal_with_fuel(accept, 3);
        }
        let mark = self.mark();
        let TokenWithLocation(first, _) = self.next();
        if let Token::Ident(a) = first {
            if self.check_tokens(&[Token::Dot]) {
                let mut parts: Vec<String> = Vec::new();
                parts.push(a);
                let TokenWithLocation(second, _) = self.next();
                match second {
                    Token::Asterisk => {
                        return Some(parts);
                    },
                    Token::Ident(b) => {
                        if self.check_tokens(&[Token::Dot, Token::Asterisk]) {
                            parts.push(b);
                            return Some(parts);
                        }
                    },
                    _ => {},
                }
            }
        }
        self.reset(mark);
        None
    }

    /// Reads one item of a projection list. A successful reading moves the
    /// cursor forward.
    pub fn parse_select_item(&mut self) -> (r: Result<SelectItem, ParserError>)
        ensures
            agrees(
                old(self)@,
                final(self)@,
                seen(r),
                select_item(old(self)@.tokens, old(self)@.position),
            ),
            r is Ok ==> moved(old(self)@.tokens, old(self)@.position, final(self)@.position),
    {
        proof {
            reveal_with_fuel(accept, 2);
        }
        let TokenWithLocation(token, _) = self.peek();
        if let Token::Asterisk = token {
            self.next();
            return Ok(SelectItem::Wildcard);
        }
        if let Some(parts) = self.try_qualified_wildcard() {
            return Ok(SelectItem::QualifiedWildcard(parts));
        }
        let expr = self.parse_expr(0)?;
        if self.check_keywords(&[Keyword::As]) {
            let TokenWithLocation(token, location) = self.next();
            match token {
                Token::Ident(alias) => Ok(SelectItem::AliasedExpr { expr, alias }),
                _ => Err(ParserError::unexpected(&token, &location)),
            }
        } else {
            Ok(SelectItem::Expr(expr))
        }
    }

    /// Reads a projection list: one or more items separated by commas.
    pub fn parse_projection(&mut self) -> (r: Result<Vec<SelectItem>, ParserError>)
        ensures
            agrees(
                old(self)@,
                final(self)@,
                seen(r),
                projection(old(self)@.tokens, old(self)@.position),
            ),
            r is Ok ==> moved(old(self)@.tokens, old(self)@.position, final(self)@.position),
    {
        let ghost toks = self@.tokens;
        let ghost start = self@.position;
        let mut items: Vec<SelectItem> = Vec::new();
        proof {
            use_type_invariant(&*self);
        }
        loop
            invariant_except_break
                projection(toks, start) == joined(
                    items.deep_view(),
                    projection(toks, self@.position),
                ),
            invariant
                self@.tokens == toks,
                toks == old(self)@.tokens,
                start == old(self)@.position,
                self@.position == start || moved(toks, start, self@.position),
            ensures
                moved(toks, start, self@.position),
                projection(toks, start) == Ok::<(Seq<SpecSelectItem>, nat), Failure>(
                    (items.deep_view(), self@.position),
                ),
            decreases toks.len() - self@.position,
        {
            let ghost before = items.deep_view();
            let item = self.parse_select_item()?;
            let ghost there = self@.position;
            items.push(item);
            let more = self.check_tokens(&[Token::Comma]);
            proof {
                reveal_with_fuel(accept, 2);
                assert(items.deep_view() =~= before + seq![item@]);
                lemma_joined_twice(before, seq![item@], projection(toks, (there + 1) as nat));
            }
            if !more {
                break ;
            }
        }
        Ok(items)
    }

    /// Reads a table reference: a name, with an alias if `AS` follows it.
    fn parse_table(&mut self) -> (r: Result<FromTable, ParserError>)
        ensures
            agrees(
                old(self)@,
                final(self)@,
                seen(r),
                table(old(self)@.tokens, old(self)@.position),
            ),
            r is Ok ==> final(self)@.position == old(self)@.position || moved(
                old(self)@.tokens,
                old(self)@.position,
                final(self)@.position,
            ),
    {
        proof {
            reveal_with_fuel(accept, 2);
        }
        let name = self.parse_name()?;
        if self.check_keywords(&[Keyword::As]) {
            let TokenWithLocation(token, location) = self.next();
            match token {
                Token::Ident(alias) => Ok(FromTable::Table { name, alias: Some(alias) }),
                _ => Err(ParserError::unexpected(&token, &location)),
            }
        } else {
            Ok(FromTable::Table { name, alias: None })
        }
    }

    /// Reads the filter of a query: the expression after `WHERE`, if that
    /// keyword stands at the cursor.
    fn parse_filter(&mut self) -> (r: Result<Option<Expr>, ParserError>)
        ensures
            agrees(
                old(self)@,
                final(self)@,
                seen(r),
                filter(old(self)@.tokens, old(self)@.position),
            ),
            r is Ok ==> final(self)@.position == old(self)@.position || moved(
                old(self)@.tokens,
                old(self)@.position,
                final(self)@.position,
            ),
    {
        proof {
            reveal_with_fuel(accept, 2);
            use_type_invariant(&*self);
        }
        if self.check_keywords(&[Keyword::Where]) {
            let e = self.parse_expr(0)?;
            Ok(Some(e))
        } else {
            Ok(None)
        }
    }

    /// Reads the grouping of a query: the expressions after `GROUP BY`, if
    /// those keywords stand at the cursor.
    fn parse_group(&mut self) -> (r: Result<Vec<Expr>, ParserError>)
        ensures
            agrees(
                old(self)@,
                final(self)@,
                seen(r),
                group(old(self)@.tokens, old(self)@.position),
            ),
            r is Ok ==> final(self)@.position == old(self)@.position || moved(
                old(self)@.tokens,
                old(self)@.position,
                final(self)@.position,
            ),
    {
        proof {
            reveal_with_fuel(accept, 3);
            use_type_invariant(&*self);
        }
        if self.check_keywords(&[Keyword::Group, Keyword::By]) {
            self.parse_expr_list()
        } else {
            let none: Vec<Expr> = Vec::new();
            assert(none.deep_view() =~= Seq::empty());
            Ok(none)
        }
    }

    /// Reads the ordering of a query: the expression after `ORDER BY` and
    /// its direction, if those keywords stand at the cursor.
    fn parse_order(&mut self) -> (r: Result<Option<OrderByExpr>, ParserError>)
        ensures
            agrees(
                old(self)@,
                final(self)@,
                seen(r),
                order(old(self)@.tokens, old(self)@.position),
            ),
            r is Ok ==> final(self)@.position == old(self)@.position || moved(
                old(self)@.tokens,
                old(self)@.position,
                final(self)@.position,
            ),
    {
        proof {
            reveal_with_fuel(accept, 3);
            use_type_invariant(&*self);
        }
        if self.check_keywords(&[Keyword::Order, Keyword::By]) {
            let expr = self.parse_expr(0)?;
            let desc = self.check_keywords(&[Keyword::Desc]);
            if !desc {
                self.check_keywords(&[Keyword::Asc]);
            }
            Ok(Some(OrderByExpr { expr, desc }))
        } else {
            Ok(None)
        }
    }

    /// Reads the limit of a query: the expression after `LIMIT`, if that
    /// keyword stands at the cursor.
    fn parse_limit(&mut self) -> (r: Result<Option<Expr>, ParserError>)
        ensures
            agrees(
                old(self)@,
                final(self)@,
                seen(r),
                limit(old(self)@.tokens, old(self)@.position),
            ),
            r is Ok ==> final(self)@.position == old(self)@.position || moved(
                old(self)@.tokens,
                old(self)@.position,
                final(self)@.position,
            ),
    {
        proof {
            reveal_with_fuel(accept, 2);
            use_type_invariant(&*self);
        }
        if self.check_keywords(&[Keyword::Limit]) {
            let e = self.parse_expr(0)?;
            Ok(Some(e))
        } else {
            Ok(None)
        }
    }

    /// Reads the clauses that may follow the table reference of a query,
    /// and puts the query together.
    fn parse_clauses(&mut self, projection: Vec<SelectItem>, from: FromTable) -> (r: Result<
        Select,
        ParserError,
    >)
        ensures
            agrees(
                old(self)@,
                final(self)@,
                seen(r),
                clauses(
                    old(self)@.tokens,
                    old(self)@.position,
                    projection.deep_view(),
                    from@,
                ),
            ),
            r is Ok ==> final(self)@.position == old(self)@.position || moved(
                old(self)@.tokens,
                old(self)@.position,
                final(self)@.position,
            ),
    {
        let filter = self.parse_filter()?;
        let group = self.parse_group()?;
        let order = self.parse_order()?;
        let limit = self.parse_limit()?;
        let joins: Vec<Select> = Vec::new();
        let whole = Select { projection, from, joins, filter, group, order, limit };
        assert(whole@.joins =~= Seq::empty());
        Ok(whole)
    }

    /// Reads a `SELECT` statement. A successful reading moves the cursor
    /// forward.
    pub fn parse_select(&mut self) -> (r: Result<Select, ParserError>)
        ensures
            agrees(
                old(self)@,
                final(self)@,
                seen(r),
                select(old(self)@.tokens, old(self)@.position),
            ),
            r is Ok ==> moved(old(self)@.tokens, old(self)@.position, final(self)@.position),
    {
        proof {
            reveal_with_fuel(expect, 2);
        }
        self.parse_keywords(&[Keyword::Select])?;
        let projection = self.parse_projection()?;
        self.parse_keywords(&[Keyword::From])?;
        let from = self.parse_table()?;
        self.parse_clauses(projection, from)
    }

    /// Reads an `INSERT` statement: its keyword.
    pub fn parse_insert(&mut self) -> (r: Result<Insert, ParserError>)
        ensures
            agrees(
                old(self)@,
                final(self)@,
                seen(r),
                kind_only(old(self)@.tokens, old(self)@.position, Keyword::Insert, Insert {  }),
            ),
    {
        proof {
            reveal_with_fuel(expect, 2);
        }
        self.parse_keywords(&[Keyword::Insert])?;
        Ok(Insert {  })
    }

    /// Reads an `UPDATE` statement: its keyword.
    pub fn parse_update(&mut self) -> (r: Result<Update, ParserError>)
        ensures
            agrees(
                old(self)@,
                final(self)@,
                seen(r),
                kind_only(old(self)@.tokens, old(self)@.position, Keyword::Update, Update {  }),
            ),
    {
        proof {
            reveal_with_fuel(expect, 2);
        }
        self.parse_keywords(&[Keyword::Update])?;
        Ok(Update {  })
    }

    /// Reads a `DELETE` statement: its keyword.
    pub fn parse_delete(&mut self) -> (r: Result<Delete, ParserError>)
        ensures
            agrees(
                old(self)@,
                final(self)@,
                seen(r),
                kind_only(old(self)@.tokens, old(self)@.position, Keyword::Delete, Delete {  }),
            ),
    {
        proof {
            reveal_with_fuel(expect, 2);
        }
        self.parse_keywords(&[Keyword::Delete])?;
        Ok(Delete {  })
    }

    /// Reads one column definition. A successful reading moves the cursor
    /// forward.
    pub fn parse_column_def(&mut self) -> (r: Result<ColumnDef, ParserError>)
        ensures
            agrees(
                old(self)@,
                final(self)@,
                seen(r),
                column_def(old(self)@.tokens, old(self)@.position),
            ),
            r is Ok ==> moved(old(self)@.tokens, old(self)@.position, final(self)@.position),
    {
        proof {
            reveal_with_fuel(expect, 2);
        }
        let TokenWithLocation(token, location) = self.next();
        let name = match token {
            Token::Ident(name) => name,
            _ => {
                return Err(ParserError::unexpected(&token, &location));
            },
        };
        let TokenWithLocation(token, location) = self.next();
        let ty = match token {
            Token::Keyword(Keyword::Int) => ColumnType::Int,
            Token::Keyword(Keyword::Varchar) => {
                self.parse_tokens(&[Token::LParen])?;
                let TokenWithLocation(token, location) = self.next();
                let max = match &token {
                    Token::NumberLiteral(max) => match parse_bounded_number(max.as_str()) {
                        Some(max) => max,
                        None => {
                            return Err(ParserError::unexpected(&token, &location));
                        },
                    },
                    _ => {
                        return Err(ParserError::unexpected(&token, &location));
                    },
                };
                self.parse_tokens(&[Token::RParen])?;
                ColumnType::Varchar(max)
            },
            _ => {
                return Err(ParserError::unexpected(&token, &location));
            },
        };
        Ok(ColumnDef { ty, name })
    }

    /// Reads one or more column definitions separated by commas.
    fn parse_column_list(&mut self) -> (r: Result<Vec<ColumnDef>, ParserError>)
        ensures
            agrees(
                old(self)@,
                final(self)@,
                seen(r),
                column_list(old(self)@.tokens, old(self)@.position),
            ),
            r is Ok ==> moved(old(self)@.tokens, old(self)@.position, final(self)@.position),
    {
        let ghost toks = self@.tokens;
        let ghost start = self@.position;
        let mut columns: Vec<ColumnDef> = Vec::new();
        proof {
            use_type_invariant(&*self);
        }
        loop
            invariant_except_break
                column_list(toks, start) == joined(
                    columns.deep_view(),
                    column_list(toks, self@.position),
                ),
            invariant
                self@.tokens == toks,
                toks == old(self)@.tokens,
                start == old(self)@.position,
                self@.position == start || moved(toks, start, self@.position),
            ensures
                moved(toks, start, self@.position),
                column_list(toks, start) == Ok::<(Seq<SpecColumnDef>, nat), Failure>(
                    (columns.deep_view(), self@.position),
                ),
            decreases toks.len() - self@.position,
        {
            let ghost before = columns.deep_view();
            let column = self.parse_column_def()?;
            let ghost there = self@.position;
            columns.push(column);
            let more = self.check_tokens(&[Token::Comma]);
            proof {
                reveal_with_fuel(accept, 2);
                assert(columns.deep_view() =~= before + seq![column@]);
                lemma_joined_twice(before, seq![column@], column_list(toks, (there + 1) as nat));
            }
            if !more {
                break ;
            }
        }
        Ok(columns)
    }

    /// Reads a `CREATE TABLE` statement. A successful reading moves the
    /// cursor forward.
    pub fn parse_create(&mut self) -> (r: Result<Create, ParserError>)
        ensures
            agrees(
                old(self)@,
                final(self)@,
                seen(r),
                create(old(self)@.tokens, old(self)@.position),
            ),
            r is Ok ==> moved(old(self)@.tokens, old(self)@.position, final(self)@.position),
    {
        proof {
            reveal_with_fuel(expect, 3);
        }
        self.parse_keywords(&[Keyword::Create, Keyword::Table])?;
        let TokenWithLocation(token, location) = self.next();
        let name = match token {
            Token::Ident(name) => name,
            _ => {
                return Err(ParserError::unexpected(&token, &location));
            },
        };
        self.parse_tokens(&[Token::LParen])?;
        let columns = self.parse_column_list()?;
        self.parse_tokens(&[Token::RParen])?;
        Ok(Create { name, columns })
    }

    /// Reads the statement that the keyword at the cursor announces. A
    /// successful reading moves the cursor forward.
    fn parse_statement(&mut self) -> (r: Result<Statement, ParserError>)
        ensures
            agrees(
                old(self)@,
                final(self)@,
                seen(r),
                statement(old(self)@.tokens, old(self)@.position),
            ),
            r is Ok ==> moved(old(self)@.tokens, old(self)@.position, final(self)@.position),
    {
        let TokenWithLocation(token, location) = self.peek();
        match token {
            Token::Keyword(Keyword::Select) => Ok(Statement::Select(self.parse_select()?)),
            Token::Keyword(Keyword::Insert) => Ok(Statement::Insert(self.parse_insert()?)),
            Token::Keyword(Keyword::Update) => Ok(Statement::Update(self.parse_update()?)),
            Token::Keyword(Keyword::Delete) => Ok(Statement::Delete(self.parse_delete()?)),
            Token::Keyword(Keyword::Create) => Ok(Statement::Create(self.parse_create()?)),
            _ => Err(ParserError::unexpected(&token, &location)),
        }
    }

    /// Reads every statement from the cursor to the end of input, in source
    /// order. Semicolons between statements are skipped. The first failure
    /// ends the parse: no statement is returned then.
    pub fn parse(&mut self) -> (r: Result<Vec<Statement>, ParserError>)
        ensures
            agrees(
                old(self)@,
                final(self)@,
                seen(r),
                statements(old(self)@.tokens, old(self)@.position),
            ),
    {
        let ghost toks = self@.tokens;
        let ghost start = self@.position;
        let mut list: Vec<Statement> = Vec::new();
        proof {
            use_type_invariant(&*self);
        }
        loop
            invariant_except_break
                statements(toks, start) == joined(
                    list.deep_view(),
                    statements(toks, self@.position),
                ),
            invariant
                self@.tokens == toks,
                toks == old(self)@.tokens,
                start == old(self)@.position,
            ensures
                statements(toks, start) == Ok::<(Seq<SpecStatement>, nat), Failure>(
                    (list.deep_view(), self@.position),
                ),
            decreases toks.len() - self@.position,
        {
            let ghost before = list.deep_view();
            let TokenWithLocation(token, _) = self.peek();
            match token {
                Token::Semicolon => {
                    self.next();
                },
                Token::Eof => {
                    break ;
                },
                _ => {
                    let statement = self.parse_statement()?;
                    list.push(statement);
                    proof {
                        assert(list.deep_view() =~= before + seq![statement@]);
                        lemma_joined_twice(
                            before,
                            seq![statement@],
                            statements(toks, self@.position),
                        );
                    }
                },
            }
        }
        Ok(list)
    }
}

} // verus!
