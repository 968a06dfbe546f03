//! The grammar, as mathematical functions.
//!
//! Each function takes the whole token sequence and the position at which
//! reading starts, and says what is read there: either a tree and the
//! position after it, or the failure that ends the parse. The parser's
//! contracts are stated over these functions.

use crate::ast::{
    ColumnType, Delete, Insert, Op, SpecColumnDef, SpecCreate, SpecExpr, SpecFromTable,
    SpecOrderByExpr, SpecSelect, SpecSelectItem, SpecStatement, SpecValue, Update,
};
use crate::text::bounded_number;
use crate::token::{Keyword, Location, SpecLocated, SpecToken};
use vstd::prelude::*;

verus! {

/// The token at position `i`: the end-of-input marker at every position
/// past the last token.
pub open spec fn token_at(toks: Seq<SpecLocated>, i: nat) -> SpecToken {
    if i < toks.len() {
        toks[i as int].token
    } else {
        SpecToken::Eof
    }
}

/// The location of the token at position `i`: the default location at
/// every position past the last token.
pub open spec fn location_at(toks: Seq<SpecLocated>, i: nat) -> Location {
    if i < toks.len() {
        toks[i as int].location
    } else {
        Location::nowhere()
    }
}

/// The token at position `i` with its location.
pub open spec fn located_at(toks: Seq<SpecLocated>, i: nat) -> SpecLocated {
    SpecLocated { token: token_at(toks, i), location: location_at(toks, i) }
}

/// Why a parse ended: the token that was not expected, where that token
/// stands in the source, and where the cursor was left. The cursor counts
/// every token that was read, the end-of-input marker too, so it may stand
/// past the end of the input.
pub struct Failure {
    pub token: SpecToken,
    pub location: Location,
    pub cursor: nat,
}

/// The message for a token that was not expected, found at `location`:
/// `<location>: unexpected token <token>`.
pub open spec fn message(token: SpecToken, location: Location) -> Seq<char> {
    location.text() + ": unexpected token "@ + token.text()
}

impl Failure {
    /// The failure's message.
    pub open spec fn message(self) -> Seq<char> {
        message(self.token, self.location)
    }
}

/// The failure on the token at position `at`, with the cursor left at
/// `cursor`.
pub open spec fn unexpected(toks: Seq<SpecLocated>, at: nat, cursor: nat) -> Failure {
    Failure { token: token_at(toks, at), location: location_at(toks, at), cursor }
}

/// What reading at some position gives: a value and the position after it,
/// or a failure.
pub type Outcome<T> = Result<(T, nat), Failure>;

/// Whether a reading that started at `from` and ended at `to` moved forward
/// within the input. Every successful reading of an expression, a statement
/// or a list item does: that is a law of this grammar, proved of each
/// function below. The recursive definitions test it before they go on, so
/// that they are well-founded; the branch for a reading that stood still is
/// never taken.
pub open spec fn moved(toks: Seq<SpecLocated>, from: nat, to: nat) -> bool {
    from < to <= toks.len()
}

/// The value of the branch that is never taken.
pub open spec fn stuck(toks: Seq<SpecLocated>, i: nat) -> Failure {
    unexpected(toks, i, i)
}

/// The tokens that stand for the keywords `ks`, one for one.
pub open spec fn keyword_tokens(ks: Seq<Keyword>) -> Seq<SpecToken> {
    Seq::new(ks.len(), |k: int| SpecToken::Keyword(ks[k]))
}

/// The position after the tokens `want`, if they stand at `i` one after
/// another; otherwise nothing.
pub open spec fn accept(toks: Seq<SpecLocated>, i: nat, want: Seq<SpecToken>) -> Option<nat>
    decreases want.len(),
{
    if want.len() == 0 {
        Some(i)
    } else if token_at(toks, i) == want[0] {
        accept(toks, i + 1, want.drop_first())
    } else {
        None
    }
}

/// The position after the tokens `want`, which must stand at `i` one after
/// another: the first token that differs from the one wanted is a failure,
/// with the cursor left after it. Each token read moves the position by one,
/// the end-of-input marker too.
pub open spec fn expect(toks: Seq<SpecLocated>, i: nat, want: Seq<SpecToken>) -> Outcome<()>
    decreases want.len(),
{
    if want.len() == 0 {
        Ok(((), i))
    } else if token_at(toks, i) == want[0] {
        expect(toks, i + 1, want.drop_first())
    } else {
        Err(unexpected(toks, i, i + 1))
    }
}

/// The items `front` put before the items that `rest` gives.
pub open spec fn joined<T>(front: Seq<T>, rest: Outcome<Seq<T>>) -> Outcome<Seq<T>> {
    match rest {
        Err(f) => Err(f),
        Ok((items, end)) => Ok((front + items, end)),
    }
}

/// The binary operator that a token denotes, if any.
pub open spec fn binary_op(t: SpecToken) -> Option<Op> {
    match t {
        SpecToken::Keyword(Keyword::And) => Some(Op::And),
        SpecToken::Keyword(Keyword::Or) => Some(Op::Or),
        SpecToken::Eq => Some(Op::Eq),
        SpecToken::Neq => Some(Op::Neq),
        SpecToken::Lt => Some(Op::Lt),
        SpecToken::Le => Some(Op::Le),
        SpecToken::Gt => Some(Op::Gt),
        SpecToken::Ge => Some(Op::Ge),
        _ => None,
    }
}

/// How tightly the token at `i` binds as an infix operator: 20 for the
/// comparisons, `BETWEEN`, `IN`, and for `NOT` before either of these; 17
/// for `IS`; 10 for `AND`; 5 for `OR`; 0 for every other token, which ends
/// an expression. `NOT` before anything else fails on the token after it,
/// with the cursor unmoved.
pub open spec fn binding_power(toks: Seq<SpecLocated>, i: nat) -> Result<nat, Failure> {
    match token_at(toks, i) {
        SpecToken::Eq | SpecToken::Neq | SpecToken::Lt | SpecToken::Le | SpecToken::Gt
        | SpecToken::Ge => Ok(20),
        SpecToken::Keyword(Keyword::And) => Ok(10),
        SpecToken::Keyword(Keyword::Or) => Ok(5),
        SpecToken::Keyword(Keyword::Not) => match token_at(toks, i + 1) {
            SpecToken::Keyword(Keyword::Between) | SpecToken::Keyword(Keyword::In) => Ok(20),
            _ => Err(unexpected(toks, i + 1, i)),
        },
        SpecToken::Keyword(Keyword::Is) => Ok(17),
        SpecToken::Keyword(Keyword::Between) | SpecToken::Keyword(Keyword::In) => Ok(20),
        _ => Ok(0),
    }
}

/// The literal value at `i`: `TRUE`, `FALSE`, `NULL`, a string or a number.
pub open spec fn value(toks: Seq<SpecLocated>, i: nat) -> Outcome<SpecValue> {
    match token_at(toks, i) {
        SpecToken::Keyword(Keyword::False) => Ok((SpecValue::Bool(false), i + 1)),
        SpecToken::Keyword(Keyword::True) => Ok((SpecValue::Bool(true), i + 1)),
        SpecToken::Keyword(Keyword::Null) => Ok((SpecValue::Null, i + 1)),
        SpecToken::StringLiteral(s) => Ok((SpecValue::String(s), i + 1)),
        SpecToken::NumberLiteral(n) => Ok((SpecValue::Number(n), i + 1)),
        _ => Err(unexpected(toks, i, i + 1)),
    }
}

/// The name at `i`: one to three identifiers joined by dots. A dot that no
/// identifier follows fails on the token after the dot.
pub open spec fn name(toks: Seq<SpecLocated>, i: nat) -> Outcome<Seq<Seq<char>>> {
    match token_at(toks, i) {
        SpecToken::Ident(a) => if !(token_at(toks, i + 1) is Dot) {
            Ok((seq![a], i + 1))
        } else {
            match token_at(toks, i + 2) {
                SpecToken::Ident(b) => if !(token_at(toks, i + 3) is Dot) {
                    Ok((seq![a, b], i + 3))
                } else {
                    match token_at(toks, i + 4) {
                        SpecToken::Ident(c) => Ok((seq![a, b, c], i + 5)),
                        _ => Err(unexpected(toks, i + 4, i + 5)),
                    }
                },
                _ => Err(unexpected(toks, i + 2, i + 3)),
            }
        },
        _ => Err(unexpected(toks, i, i + 1)),
    }
}

/// The expression at `i` that extends over every infix operator binding
/// more tightly than `prec`.
pub open spec fn expr(toks: Seq<SpecLocated>, i: nat, prec: nat) -> Outcome<SpecExpr>
    decreases toks.len() - i, 1nat,
{
    match prefix(toks, i) {
        Err(f) => Err(f),
        Ok((left, j)) => if moved(toks, i, j) {
            climb(toks, j, prec, left)
        } else {
            Err(stuck(toks, i))
        },
    }
}

/// The prefix term at `i`: a literal value; a name, which is an identifier
/// if it has one part and a compound identifier otherwise; or an expression
/// in parentheses, which stands for the expression itself.
pub open spec fn prefix(toks: Seq<SpecLocated>, i: nat) -> Outcome<SpecExpr>
    decreases toks.len() - i, 0nat,
{
    match token_at(toks, i) {
        SpecToken::Keyword(Keyword::False)
        | SpecToken::Keyword(Keyword::True)
        | SpecToken::Keyword(Keyword::Null)
        | SpecToken::StringLiteral(_)
        | SpecToken::NumberLiteral(_) => match value(toks, i) {
            Err(f) => Err(f),
            Ok((v, j)) => Ok((SpecExpr::Value(v), j)),
        },
        SpecToken::Ident(_) => match name(toks, i) {
            Err(f) => Err(f),
            Ok((parts, j)) => if parts.len() == 1 {
                Ok((SpecExpr::Ident(parts[0]), j))
            } else {
                Ok((SpecExpr::CompoundIdent(parts), j))
            },
        },
        SpecToken::LParen => match expr(toks, i + 1, 0) {
            Err(f) => Err(f),
            Ok((inner, j)) => if token_at(toks, j) is RParen {
                Ok((inner, j + 1))
            } else {
                Err(unexpected(toks, j, j + 1))
            },
        },
        _ => Err(unexpected(toks, i, i)),
    }
}

/// The expression that starts with the finished operand `left` and goes on
/// at `i`: as long as the token there binds more tightly than `prec`, the
/// infix form it opens takes what was read so far as its left operand.
pub open spec fn climb(toks: Seq<SpecLocated>, i: nat, prec: nat, left: SpecExpr) -> Outcome<
    SpecExpr,
>
    decreases toks.len() - i, 1nat,
{
    match binding_power(toks, i) {
        Err(f) => Err(f),
        Ok(power) => if power <= prec {
            Ok((left, i))
        } else {
            match infix(toks, i, left, power) {
                Err(f) => Err(f),
                Ok((whole, j)) => if moved(toks, i, j) {
                    climb(toks, j, prec, whole)
                } else {
                    Err(stuck(toks, i))
                },
            }
        },
    }
}

/// The infix form that the token at `i` opens, with `left` as its left
/// operand: a binary operator, whose right operand is the expression after
/// it at the operator's own binding power `prec`; `IS [NOT] NULL`;
/// `[NOT] BETWEEN`; or `[NOT] IN`.
pub open spec fn infix(toks: Seq<SpecLocated>, i: nat, left: SpecExpr, prec: nat) -> Outcome<
    SpecExpr,
>
    decreases toks.len() - i, 0nat,
{
    match binary_op(token_at(toks, i)) {
        Some(op) => match expr(toks, i + 1, prec) {
            Err(f) => Err(f),
            Ok((right, j)) => Ok(
                (SpecExpr::BinaryOp { left: Box::new(left), op, right: Box::new(right) }, j),
            ),
        },
        None => match token_at(toks, i) {
            SpecToken::Keyword(Keyword::Is) => null_test(toks, i + 1, left),
            SpecToken::Keyword(Keyword::Not) => match token_at(toks, i + 1) {
                SpecToken::Keyword(Keyword::Between) => between(toks, i + 2, left, true),
                SpecToken::Keyword(Keyword::In) => in_list(toks, i + 2, left, true),
                _ => Err(unexpected(toks, i, i + 1)),
            },
            SpecToken::Keyword(Keyword::Between) => between(toks, i + 1, left, false),
            SpecToken::Keyword(Keyword::In) => in_list(toks, i + 1, left, false),
            _ => Err(unexpected(toks, i, i + 1)),
        },
    }
}

/// What follows `IS` at `i`: `NULL` or `NOT NULL`, testing `probe`.
pub open spec fn null_test(toks: Seq<SpecLocated>, i: nat, probe: SpecExpr) -> Outcome<SpecExpr> {
    match token_at(toks, i) {
        SpecToken::Keyword(Keyword::Null) => Ok((SpecExpr::IsNull(Box::new(probe)), i + 1)),
        SpecToken::Keyword(Keyword::Not) => match token_at(toks, i + 1) {
            SpecToken::Keyword(Keyword::Null) => Ok(
                (SpecExpr::IsNotNull(Box::new(probe)), i + 2),
            ),
            _ => Err(unexpected(toks, i + 1, i + 2)),
        },
        _ => Err(unexpected(toks, i, i + 1)),
    }
}

/// What follows `BETWEEN` at `i`: the low bound, `AND`, the high bound,
/// each bound read at binding power 20.
pub open spec fn between(toks: Seq<SpecLocated>, i: nat, probe: SpecExpr, negated: bool) -> Outcome<
    SpecExpr,
>
    decreases toks.len() - i, 2nat,
{
    match expr(toks, i, 20) {
        Err(f) => Err(f),
        Ok((low, j)) => if !(token_at(toks, j) is Keyword && token_at(toks, j)->Keyword_0
            == Keyword::And) {
            Err(unexpected(toks, j, j + 1))
        } else if !moved(toks, i, j) {
            Err(stuck(toks, i))
        } else {
            match expr(toks, j + 1, 20) {
                Err(f) => Err(f),
                Ok((high, k)) => Ok(
                    (
                        SpecExpr::Between {
                            expr: Box::new(probe),
                            negated,
                            low: Box::new(low),
                            high: Box::new(high),
                        },
                        k,
                    ),
                ),
            }
        },
    }
}

/// What follows `IN` at `i`: a list of expressions in parentheses.
pub open spec fn in_list(toks: Seq<SpecLocated>, i: nat, probe: SpecExpr, negated: bool) -> Outcome<
    SpecExpr,
>
    decreases toks.len() - i, 0nat,
{
    if !(token_at(toks, i) is LParen) {
        Err(unexpected(toks, i, i + 1))
    } else {
        match expr_list(toks, i + 1) {
            Err(f) => Err(f),
            Ok((list, j)) => if token_at(toks, j) is RParen {
                Ok((SpecExpr::InList { expr: Box::new(probe), list, negated }, j + 1))
            } else {
                Err(unexpected(toks, j, j + 1))
            },
        }
    }
}

/// The expressions at `i`, one or more, separated by commas and each read
/// at binding power 0.
pub open spec fn expr_list(toks: Seq<SpecLocated>, i: nat) -> Outcome<Seq<SpecExpr>>
    decreases toks.len() - i, 2nat,
{
    match expr(toks, i, 0) {
        Err(f) => Err(f),
        Ok((first, j)) => if !(token_at(toks, j) is Comma) {
            Ok((seq![first], j))
        } else if !moved(toks, i, j) {
            Err(stuck(toks, i))
        } else {
            joined(seq![first], expr_list(toks, j + 1))
        },
    }
}

/// The qualified wildcard at `i`, if the tokens there have that shape:
/// `a.*` or `a.b.*`. The result holds the parts before the asterisk.
pub open spec fn qualified_wildcard(toks: Seq<SpecLocated>, i: nat) -> Option<
    (Seq<Seq<char>>, nat),
> {
    match token_at(toks, i) {
        SpecToken::Ident(a) => if !(token_at(toks, i + 1) is Dot) {
            None
        } else {
            match token_at(toks, i + 2) {
                SpecToken::Asterisk => Some((seq![a], i + 3)),
                SpecToken::Ident(b) => if token_at(toks, i + 3) is Dot && token_at(toks, i + 4)
                    is Asterisk {
                    Some((seq![a, b], i + 5))
                } else {
                    None
                },
                _ => None,
            }
        },
        _ => None,
    }
}

/// The projection item at `i`: `*`; a qualified wildcard; or an expression,
/// with an alias if `AS` follows it.
pub open spec fn select_item(toks: Seq<SpecLocated>, i: nat) -> Outcome<SpecSelectItem> {
    if token_at(toks, i) is Asterisk {
        Ok((SpecSelectItem::Wildcard, i + 1))
    } else {
        match qualified_wildcard(toks, i) {
            Some((parts, j)) => Ok((SpecSelectItem::QualifiedWildcard(parts), j)),
            None => match expr(toks, i, 0) {
                Err(f) => Err(f),
                Ok((e, j)) => if !(token_at(toks, j) is Keyword && token_at(toks, j)->Keyword_0
                    == Keyword::As) {
                    Ok((SpecSelectItem::Expr(e), j))
                } else {
                    match token_at(toks, j + 1) {
                        SpecToken::Ident(alias) => Ok(
                            (SpecSelectItem::AliasedExpr { expr: e, alias }, j + 2),
                        ),
                        _ => Err(unexpected(toks, j + 1, j + 2)),
                    }
                },
            },
        }
    }
}

/// The projection list at `i`: one or more items separated by commas.
pub open spec fn projection(toks: Seq<SpecLocated>, i: nat) -> Outcome<Seq<SpecSelectItem>>
    decreases toks.len() - i,
{
    match select_item(toks, i) {
        Err(f) => Err(f),
        Ok((first, j)) => if !(token_at(toks, j) is Comma) {
            Ok((seq![first], j))
        } else if !moved(toks, i, j) {
            Err(stuck(toks, i))
        } else {
            joined(seq![first], projection(toks, j + 1))
        },
    }
}

/// Whether the token at `i` is the keyword `k`.
pub open spec fn keyword_at(toks: Seq<SpecLocated>, i: nat, k: Keyword) -> bool {
    token_at(toks, i) == SpecToken::Keyword(k)
}

/// The table reference at `i`: a name, with an alias if `AS` follows it.
pub open spec fn table(toks: Seq<SpecLocated>, i: nat) -> Outcome<SpecFromTable> {
    match name(toks, i) {
        Err(f) => Err(f),
        Ok((parts, j)) => if !keyword_at(toks, j, Keyword::As) {
            Ok((SpecFromTable::Table { name: parts, alias: None }, j))
        } else {
            match token_at(toks, j + 1) {
                SpecToken::Ident(alias) => Ok(
                    (SpecFromTable::Table { name: parts, alias: Some(alias) }, j + 2),
                ),
                _ => Err(unexpected(toks, j + 1, j + 2)),
            }
        },
    }
}

/// The filter at `i`: the expression after `WHERE`, or nothing.
pub open spec fn filter(toks: Seq<SpecLocated>, i: nat) -> Outcome<Option<SpecExpr>> {
    if keyword_at(toks, i, Keyword::Where) {
        match expr(toks, i + 1, 0) {
            Err(f) => Err(f),
            Ok((e, j)) => Ok((Some(e), j)),
        }
    } else {
        Ok((None, i))
    }
}

/// The grouping at `i`: the expressions after `GROUP BY`, or none.
pub open spec fn group(toks: Seq<SpecLocated>, i: nat) -> Outcome<Seq<SpecExpr>> {
    if keyword_at(toks, i, Keyword::Group) && keyword_at(toks, i + 1, Keyword::By) {
        expr_list(toks, i + 2)
    } else {
        Ok((Seq::empty(), i))
    }
}

/// The ordering at `i`: the expression after `ORDER BY` with its direction,
/// which is ascending unless `DESC` follows; or nothing.
pub open spec fn order(toks: Seq<SpecLocated>, i: nat) -> Outcome<Option<SpecOrderByExpr>> {
    if keyword_at(toks, i, Keyword::Order) && keyword_at(toks, i + 1, Keyword::By) {
        match expr(toks, i + 2, 0) {
            Err(f) => Err(f),
            Ok((e, j)) => if keyword_at(toks, j, Keyword::Desc) {
                Ok((Some(SpecOrderByExpr { expr: e, desc: true }), j + 1))
            } else if keyword_at(toks, j, Keyword::Asc) {
                Ok((Some(SpecOrderByExpr { expr: e, desc: false }), j + 1))
            } else {
                Ok((Some(SpecOrderByExpr { expr: e, desc: false }), j))
            },
        }
    } else {
        Ok((None, i))
    }
}

/// The limit at `i`: the expression after `LIMIT`, or nothing.
pub open spec fn limit(toks: Seq<SpecLocated>, i: nat) -> Outcome<Option<SpecExpr>> {
    if keyword_at(toks, i, Keyword::Limit) {
        match expr(toks, i + 1, 0) {
            Err(f) => Err(f),
            Ok((e, j)) => Ok((Some(e), j)),
        }
    } else {
        Ok((None, i))
    }
}

/// The clauses of a query that may follow its table reference, starting at
/// `i`, in their fixed order: `WHERE`, `GROUP BY`, `ORDER BY`, `LIMIT`.
pub open spec fn clauses(
    toks: Seq<SpecLocated>,
    i: nat,
    projection: Seq<SpecSelectItem>,
    from: SpecFromTable,
) -> Outcome<SpecSelect> {
    match filter(toks, i) {
        Err(f) => Err(f),
        Ok((filter, j)) => match group(toks, j) {
            Err(f) => Err(f),
            Ok((group, k)) => match order(toks, k) {
                Err(f) => Err(f),
                Ok((order, l)) => match limit(toks, l) {
                    Err(f) => Err(f),
                    Ok((limit, m)) => Ok(
                        (
                            SpecSelect {
                                projection,
                                from,
                                joins: Seq::empty(),
                                filter,
                                group,
                                order,
                                limit,
                            },
                            m,
                        ),
                    ),
                },
            },
        },
    }
}

/// The query at `i`: `SELECT`, a projection list, `FROM`, a table
/// reference, and the optional clauses.
pub open spec fn select(toks: Seq<SpecLocated>, i: nat) -> Outcome<SpecSelect> {
    if !keyword_at(toks, i, Keyword::Select) {
        Err(unexpected(toks, i, i + 1))
    } else {
        match projection(toks, i + 1) {
            Err(f) => Err(f),
            Ok((items, j)) => if !keyword_at(toks, j, Keyword::From) {
                Err(unexpected(toks, j, j + 1))
            } else {
                match table(toks, j + 1) {
                    Err(f) => Err(f),
                    Ok((from, k)) => clauses(toks, k, items, from),
                }
            },
        }
    }
}

/// The column definition at `i`: an identifier and a type, which is `INT`
/// or `VARCHAR(n)` with `n` a number that fits in sixteen bits.
pub open spec fn column_def(toks: Seq<SpecLocated>, i: nat) -> Outcome<SpecColumnDef> {
    match token_at(toks, i) {
        SpecToken::Ident(name) => match token_at(toks, i + 1) {
            SpecToken::Keyword(Keyword::Int) => Ok(
                (SpecColumnDef { ty: ColumnType::Int, name }, i + 2),
            ),
            SpecToken::Keyword(Keyword::Varchar) => if !(token_at(toks, i + 2) is LParen) {
                Err(unexpected(toks, i + 2, i + 3))
            } else {
                match token_at(toks, i + 3) {
                    SpecToken::NumberLiteral(n) => match bounded_number(n) {
                        Some(max) => if token_at(toks, i + 4) is RParen {
                            Ok((SpecColumnDef { ty: ColumnType::Varchar(max), name }, i + 5))
                        } else {
                            Err(unexpected(toks, i + 4, i + 5))
                        },
                        None => Err(unexpected(toks, i + 3, i + 4)),
                    },
                    _ => Err(unexpected(toks, i + 3, i + 4)),
                }
            },
            _ => Err(unexpected(toks, i + 1, i + 2)),
        },
        _ => Err(unexpected(toks, i, i + 1)),
    }
}

/// The column definitions at `i`: one or more, separated by commas.
pub open spec fn column_list(toks: Seq<SpecLocated>, i: nat) -> Outcome<Seq<SpecColumnDef>>
    decreases toks.len() - i,
{
    match column_def(toks, i) {
        Err(f) => Err(f),
        Ok((first, j)) => if !(token_at(toks, j) is Comma) {
            Ok((seq![first], j))
        } else if !moved(toks, i, j) {
            Err(stuck(toks, i))
        } else {
            joined(seq![first], column_list(toks, j + 1))
        },
    }
}

/// The table definition at `i`: `CREATE TABLE`, the table's name, and its
/// column definitions in parentheses.
pub open spec fn create(toks: Seq<SpecLocated>, i: nat) -> Outcome<SpecCreate> {
    if !keyword_at(toks, i, Keyword::Create) {
        Err(unexpected(toks, i, i + 1))
    } else if !keyword_at(toks, i + 1, Keyword::Table) {
        Err(unexpected(toks, i + 1, i + 2))
    } else {
        match token_at(toks, i + 2) {
            SpecToken::Ident(name) => if !(token_at(toks, i + 3) is LParen) {
                Err(unexpected(toks, i + 3, i + 4))
            } else {
                match column_list(toks, i + 4) {
                    Err(f) => Err(f),
                    Ok((columns, j)) => if token_at(toks, j) is RParen {
                        Ok((SpecCreate { name, columns }, j + 1))
                    } else {
                        Err(unexpected(toks, j, j + 1))
                    },
                }
            },
            _ => Err(unexpected(toks, i + 2, i + 3)),
        }
    }
}

/// The statement at `i` of which only the kind is read: the keyword `k`,
/// giving `kind`.
pub open spec fn kind_only<T>(toks: Seq<SpecLocated>, i: nat, k: Keyword, kind: T) -> Outcome<T> {
    if keyword_at(toks, i, k) {
        Ok((kind, i + 1))
    } else {
        Err(unexpected(toks, i, i + 1))
    }
}

/// The statement at `i`, which its first keyword announces. Of `INSERT`,
/// `UPDATE` and `DELETE` only that keyword is read. Any other token fails,
/// with the cursor left on it.
pub open spec fn statement(toks: Seq<SpecLocated>, i: nat) -> Outcome<SpecStatement> {
    match token_at(toks, i) {
        SpecToken::Keyword(Keyword::Select) => match select(toks, i) {
            Err(f) => Err(f),
            Ok((s, j)) => Ok((SpecStatement::Select(s), j)),
        },
        SpecToken::Keyword(Keyword::Insert) => Ok((SpecStatement::Insert(Insert {  }), i + 1)),
        SpecToken::Keyword(Keyword::Update) => Ok((SpecStatement::Update(Update {  }), i + 1)),
        SpecToken::Keyword(Keyword::Delete) => Ok((SpecStatement::Delete(Delete {  }), i + 1)),
        SpecToken::Keyword(Keyword::Create) => match create(toks, i) {
            Err(f) => Err(f),
            Ok((c, j)) => Ok((SpecStatement::Create(c), j)),
        },
        _ => Err(unexpected(toks, i, i)),
    }
}

/// The statements from `i` to the end of input, in source order.
/// Semicolons between statements are skipped.
pub open spec fn statements(toks: Seq<SpecLocated>, i: nat) -> Outcome<Seq<SpecStatement>>
    decreases toks.len() - i,
{
    match token_at(toks, i) {
        SpecToken::Semicolon => statements(toks, i + 1),
        SpecToken::Eof => Ok((Seq::empty(), i)),
        _ => match statement(toks, i) {
            Err(f) => Err(f),
            Ok((first, j)) => if moved(toks, i, j) {
                joined(seq![first], statements(toks, j))
            } else {
                Err(stuck(toks, i))
            },
        },
    }
}

} // verus!
