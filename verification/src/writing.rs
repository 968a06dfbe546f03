//! Writing an expression out as tokens, and the law that reading what was
//! written gives the expression back.
//!
//! The written form puts every operand that is itself a compound form in
//! parentheses, so that it depends on no rule of precedence.

use crate::ast::{Op, SpecExpr, SpecValue};
use crate::grammar::{
    between, binding_power, climb, expr, expr_list, in_list, infix, name, null_test,
    prefix, token_at, value, Failure,
};
use crate::token::{Keyword, SpecLocated, SpecToken};
use vstd::prelude::*;

verus! {

/// The token that stands for a literal value.
pub open spec fn value_token(v: SpecValue) -> SpecToken {
    match v {
        SpecValue::Number(n) => SpecToken::NumberLiteral(n),
        SpecValue::String(s) => SpecToken::StringLiteral(s),
        SpecValue::Bool(b) => if b {
            SpecToken::Keyword(Keyword::True)
        } else {
            SpecToken::Keyword(Keyword::False)
        },
        SpecValue::Null => SpecToken::Keyword(Keyword::Null),
    }
}

/// The token that stands for a binary operator.
pub open spec fn op_token(op: Op) -> SpecToken {
    match op {
        Op::Eq => SpecToken::Eq,
        Op::Neq => SpecToken::Neq,
        Op::Lt => SpecToken::Lt,
        Op::Le => SpecToken::Le,
        Op::Gt => SpecToken::Gt,
        Op::Ge => SpecToken::Ge,
        Op::And => SpecToken::Keyword(Keyword::And),
        Op::Or => SpecToken::Keyword(Keyword::Or),
    }
}

/// Whether `e` is written without an operator: an identifier, a compound
/// identifier or a literal value.
pub open spec fn is_primary(e: SpecExpr) -> bool {
    e is Ident || e is CompoundIdent || e is Value
}

/// Whether `e` is an expression that the grammar can give: it holds no
/// wildcard, every compound identifier in it has two or three parts, and
/// every list in it has an item.
pub open spec fn readable(e: SpecExpr) -> bool
    decreases e,
{
    match e {
        SpecExpr::Ident(_) => true,
        SpecExpr::CompoundIdent(parts) => 2 <= parts.len() <= 3,
        SpecExpr::Wildcard => false,
        SpecExpr::QualifiedWildcard(_) => false,
        SpecExpr::Value(_) => true,
        SpecExpr::IsNull(x) => readable(*x),
        SpecExpr::IsNotNull(x) => readable(*x),
        SpecExpr::InList { expr, list, negated } => readable(*expr) && list.len() > 0 && forall|
            k: int,
        |
            0 <= k < list.len() ==> readable(#[trigger] list[k]),
        SpecExpr::Between { expr, negated, low, high } => readable(*expr) && readable(*low)
            && readable(*high),
        SpecExpr::BinaryOp { left, op, right } => readable(*left) && readable(*right),
    }
}

/// `NOT` if `negated`, nothing if not.
pub open spec fn negation(negated: bool) -> Seq<SpecToken> {
    if negated {
        seq![SpecToken::Keyword(Keyword::Not)]
    } else {
        Seq::empty()
    }
}

/// The tokens of `e`, written with every compound operand in parentheses.
pub open spec fn written(e: SpecExpr) -> Seq<SpecToken>
    decreases e, 0nat,
{
    match e {
        SpecExpr::Ident(a) => seq![SpecToken::Ident(a)],
        SpecExpr::CompoundIdent(parts) => if parts.len() == 2 {
            seq![SpecToken::Ident(parts[0]), SpecToken::Dot, SpecToken::Ident(parts[1])]
        } else {
            seq![
                SpecToken::Ident(parts[0]),
                SpecToken::Dot,
                SpecToken::Ident(parts[1]),
                SpecToken::Dot,
                SpecToken::Ident(parts[2]),
            ]
        },
        SpecExpr::Wildcard => Seq::empty(),
        SpecExpr::QualifiedWildcard(_) => Seq::empty(),
        SpecExpr::Value(v) => seq![value_token(v)],
        SpecExpr::IsNull(x) => operand(*x) + seq![
            SpecToken::Keyword(Keyword::Is),
            SpecToken::Keyword(Keyword::Null),
        ],
        SpecExpr::IsNotNull(x) => operand(*x) + seq![
            SpecToken::Keyword(Keyword::Is),
            SpecToken::Keyword(Keyword::Not),
            SpecToken::Keyword(Keyword::Null),
        ],
        SpecExpr::InList { expr, list, negated } => operand(*expr) + negation(negated) + seq![
            SpecToken::Keyword(Keyword::In),
            SpecToken::LParen,
        ] + written_from(list, 0) + seq![SpecToken::RParen],
        SpecExpr::Between { expr, negated, low, high } => operand(*expr) + negation(negated)
            + seq![SpecToken::Keyword(Keyword::Between)] + operand(*low) + seq![
            SpecToken::Keyword(Keyword::And),
        ] + operand(*high),
        SpecExpr::BinaryOp { left, op, right } => operand(*left) + seq![op_token(op)] + operand(
            *right,
        ),
    }
}

/// The tokens of `e` as an operand: as written if it is primary, in
/// parentheses if not.
pub open spec fn operand(e: SpecExpr) -> Seq<SpecToken>
    decreases e, 1nat,
{
    if is_primary(e) {
        written(e)
    } else {
        seq![SpecToken::LParen] + written(e) + seq![SpecToken::RParen]
    }
}

/// The tokens of the items of `list` from the `k`th on, with commas between
/// them.
pub open spec fn written_from(list: Seq<SpecExpr>, k: nat) -> Seq<SpecToken>
    decreases list, list.len() - k,
{
    if k >= list.len() {
        Seq::empty()
    } else if k + 1 == list.len() {
        written(list[k as int])
    } else {
        written(list[k as int]) + seq![SpecToken::Comma] + written_from(list, k + 1)
    }
}

/// Whether the tokens `s` stand in `toks` from position `i` on.
pub open spec fn stands(toks: Seq<SpecLocated>, i: nat, s: Seq<SpecToken>) -> bool {
    &&& i + s.len() <= toks.len()
    &&& forall|k: int| 0 <= k < s.len() ==> token_at(toks, (i + k) as nat) == #[trigger] s[k]
}

/// Whether the token at position `p` ends an expression that stands before
/// it: it binds as no infix operator, and it is no dot, which would go on
/// with a name.
pub open spec fn closes(toks: Seq<SpecLocated>, p: nat) -> bool {
    binding_power(toks, p) == Ok::<nat, Failure>(0) && !(token_at(toks, p) is Dot)
}

/// Where tokens stand, each of them stands at its place.
proof fn lemma_stands_at(toks: Seq<SpecLocated>, i: nat, s: Seq<SpecToken>, k: int)
    requires
        stands(toks, i, s),
        0 <= k < s.len(),
    ensures
        token_at(toks, (i + k) as nat) == s[k],
        i + k < toks.len(),
{
}

/// Where two runs of tokens stand one after the other, each stands at its
/// place.
proof fn lemma_stands_split(toks: Seq<SpecLocated>, i: nat, a: Seq<SpecToken>, b: Seq<SpecToken>)
    requires
        stands(toks, i, a + b),
    ensures
        stands(toks, i, a),
        stands(toks, i + a.len(), b),
{
    assert forall|k: int| 0 <= k < a.len() implies token_at(toks, (i + k) as nat)
        == #[trigger] a[k] by {
        assert((a + b)[k] == a[k]);
    }
    assert forall|k: int| 0 <= k < b.len() implies token_at(toks, (i + a.len() + k) as nat)
        == #[trigger] b[k] by {
        assert((a + b)[a.len() + k] == b[k]);
    }
}

/// A primary expression that stands written at `i`, with no dot after it,
/// is the prefix term there.
proof fn lemma_reads_primary(toks: Seq<SpecLocated>, i: nat, e: SpecExpr)
    requires
        is_primary(e),
        readable(e),
        stands(toks, i, written(e)),
        !(token_at(toks, i + written(e).len()) is Dot),
    ensures
        written(e).len() > 0,
        prefix(toks, i) == Ok::<(SpecExpr, nat), Failure>((e, i + written(e).len())),
{
    let w = written(e);
    match e {
        SpecExpr::Ident(a) => {
            lemma_stands_at(toks, i, w, 0);
            assert(name(toks, i) == Ok::<(Seq<Seq<char>>, nat), Failure>((seq![a], i + 1)));
        },
        SpecExpr::CompoundIdent(parts) => {
            lemma_stands_at(toks, i, w, 0);
            lemma_stands_at(toks, i, w, 1);
            lemma_stands_at(toks, i, w, 2);
            if parts.len() == 2 {
                assert(parts =~= seq![parts[0], parts[1]]);
                assert(name(toks, i) == Ok::<(Seq<Seq<char>>, nat), Failure>((parts, i + 3)));
            } else {
                lemma_stands_at(toks, i, w, 3);
                lemma_stands_at(toks, i, w, 4);
                assert(parts =~= seq![parts[0], parts[1], parts[2]]);
                assert(name(toks, i) == Ok::<(Seq<Seq<char>>, nat), Failure>((parts, i + 5)));
            }
        },
        SpecExpr::Value(v) => {
            lemma_stands_at(toks, i, w, 0);
            assert(value(toks, i) == Ok::<(SpecValue, nat), Failure>((v, i + 1)));
        },
        _ => {},
    }
}

/// A readable expression that stands at `i` as an operand, with no dot
/// after it, is the prefix term there.
proof fn lemma_reads_operand(toks: Seq<SpecLocated>, i: nat, e: SpecExpr)
    requires
        readable(e),
        stands(toks, i, operand(e)),
        !(token_at(toks, i + operand(e).len()) is Dot),
    ensures
        operand(e).len() > 0,
        prefix(toks, i) == Ok::<(SpecExpr, nat), Failure>((e, i + operand(e).len())),
    decreases e, 2nat,
{
    if is_primary(e) {
        lemma_reads_primary(toks, i, e);
    } else {
        let w = written(e);
        lemma_stands_split(toks, i, seq![SpecToken::LParen] + w, seq![SpecToken::RParen]);
        lemma_stands_split(toks, i, seq![SpecToken::LParen], w);
        lemma_stands_at(toks, i, seq![SpecToken::LParen], 0);
        lemma_stands_at(toks, i + 1 + w.len(), seq![SpecToken::RParen], 0);
        assert(closes(toks, i + 1 + w.len()));
        law_reads_back(toks, i + 1, e);
    }
}

/// The law of writing and reading back: where a readable expression stands
/// written at `i` and the token after it ends an expression, the expression
/// that the grammar reads at `i` is that very expression, and it ends where
/// the written form ends.
pub proof fn law_reads_back(toks: Seq<SpecLocated>, i: nat, e: SpecExpr)
    requires
        readable(e),
        stands(toks, i, written(e)),
        closes(toks, i + written(e).len()),
    ensures
        written(e).len() > 0,
        expr(toks, i, 0) == Ok::<(SpecExpr, nat), Failure>((e, i + written(e).len())),
    decreases e, 1nat,
{
    if is_primary(e) {
        lemma_reads_primary(toks, i, e);
        let end = i + written(e).len();
        assert(climb(toks, end, 0, e) == Ok::<(SpecExpr, nat), Failure>((e, end)));
    } else {
        match e {
            SpecExpr::BinaryOp { left, op, right } => {
                lemma_reads_binary(toks, i, e);
            },
            SpecExpr::IsNull(x) => {
                lemma_reads_null_test(toks, i, e);
            },
            SpecExpr::IsNotNull(x) => {
                lemma_reads_null_test(toks, i, e);
            },
            SpecExpr::Between { expr, negated, low, high } => {
                lemma_reads_between(toks, i, e);
            },
            SpecExpr::InList { expr, list, negated } => {
                lemma_reads_in_list(toks, i, e);
            },
            _ => {},
        }
    }
}

/// Writing and reading back, for a binary operator.
proof fn lemma_reads_binary(toks: Seq<SpecLocated>, i: nat, e: SpecExpr)
    requires
        e is BinaryOp,
        readable(e),
        stands(toks, i, written(e)),
        closes(toks, i + written(e).len()),
    ensures
        written(e).len() > 0,
        expr(toks, i, 0) == Ok::<(SpecExpr, nat), Failure>((e, i + written(e).len())),
    decreases e, 0nat,
{
    let left = *e->left;
    let right = *e->right;
    let op = e->op;
    let a = operand(left);
    let b = operand(right);
    let j = i + a.len();
    let m = j + 1 + b.len();
    lemma_stands_split(toks, i, a + seq![op_token(op)], b);
    lemma_stands_split(toks, i, a, seq![op_token(op)]);
    lemma_stands_at(toks, j, seq![op_token(op)], 0);
    lemma_reads_operand(toks, i, left);
    lemma_reads_operand(toks, j + 1, right);
    let power = binding_power(toks, j)->Ok_0;
    assert(binding_power(toks, j) is Ok && power > 0);
    assert(climb(toks, m, power, right) == Ok::<(SpecExpr, nat), Failure>((right, m)));
    assert(expr(toks, j + 1, power) == Ok::<(SpecExpr, nat), Failure>((right, m)));
    assert(infix(toks, j, left, power) == Ok::<(SpecExpr, nat), Failure>((e, m)));
    assert(climb(toks, m, 0, e) == Ok::<(SpecExpr, nat), Failure>((e, m)));
    assert(climb(toks, j, 0, left) == Ok::<(SpecExpr, nat), Failure>((e, m)));
}

/// Writing and reading back, for `IS NULL` and `IS NOT NULL`.
proof fn lemma_reads_null_test(toks: Seq<SpecLocated>, i: nat, e: SpecExpr)
    requires
        e is IsNull || e is IsNotNull,
        readable(e),
        stands(toks, i, written(e)),
        closes(toks, i + written(e).len()),
    ensures
        written(e).len() > 0,
        expr(toks, i, 0) == Ok::<(SpecExpr, nat), Failure>((e, i + written(e).len())),
    decreases e, 0nat,
{
    let probe = match e {
        SpecExpr::IsNull(x) => *x,
        SpecExpr::IsNotNull(x) => *x,
        _ => arbitrary(),
    };
    let a = operand(probe);
    let j = i + a.len();
    let rest = if e is IsNull {
        seq![SpecToken::Keyword(Keyword::Is), SpecToken::Keyword(Keyword::Null)]
    } else {
        seq![
            SpecToken::Keyword(Keyword::Is),
            SpecToken::Keyword(Keyword::Not),
            SpecToken::Keyword(Keyword::Null),
        ]
    };
    let m = j + rest.len();
    lemma_stands_split(toks, i, a, rest);
    lemma_stands_at(toks, j, rest, 0);
    lemma_stands_at(toks, j, rest, 1);
    if e is IsNotNull {
        lemma_stands_at(toks, j, rest, 2);
    }
    lemma_reads_operand(toks, i, probe);
    assert(binding_power(toks, j) == Ok::<nat, Failure>(17));
    assert(null_test(toks, j + 1, probe) == Ok::<(SpecExpr, nat), Failure>((e, m)));
    assert(infix(toks, j, probe, 17) == Ok::<(SpecExpr, nat), Failure>((e, m)));
    assert(climb(toks, m, 0, e) == Ok::<(SpecExpr, nat), Failure>((e, m)));
    assert(climb(toks, j, 0, probe) == Ok::<(SpecExpr, nat), Failure>((e, m)));
}

/// Writing and reading back, for `BETWEEN` and `NOT BETWEEN`.
proof fn lemma_reads_between(toks: Seq<SpecLocated>, i: nat, e: SpecExpr)
    requires
        e is Between,
        readable(e),
        stands(toks, i, written(e)),
        closes(toks, i + written(e).len()),
    ensures
        written(e).len() > 0,
        expr(toks, i, 0) == Ok::<(SpecExpr, nat), Failure>((e, i + written(e).len())),
    decreases e, 0nat,
{
    let probe = *e->Between_expr;
    let negated = e->Between_negated;
    let low = *e->low;
    let high = *e->high;
    let a = operand(probe);
    let n = negation(negated);
    let kw = seq![SpecToken::Keyword(Keyword::Between)];
    let l = operand(low);
    let and = seq![SpecToken::Keyword(Keyword::And)];
    let h = operand(high);
    let j = i + a.len();
    let b = j + n.len() + 1;
    let c = b + l.len();
    let m = c + 1 + h.len();
    lemma_stands_split(toks, i, a + n + kw + l + and, h);
    lemma_stands_split(toks, i, a + n + kw + l, and);
    lemma_stands_split(toks, i, a + n + kw, l);
    lemma_stands_split(toks, i, a + n, kw);
    lemma_stands_split(toks, i, a, n);
    lemma_stands_at(toks, j + n.len(), kw, 0);
    lemma_stands_at(toks, c, and, 0);
    if negated {
        lemma_stands_at(toks, j, n, 0);
    }
    lemma_reads_operand(toks, i, probe);
    lemma_reads_operand(toks, b, low);
    lemma_reads_operand(toks, c + 1, high);
    assert(binding_power(toks, j) == Ok::<nat, Failure>(20));
    assert(binding_power(toks, c) == Ok::<nat, Failure>(10));
    assert(climb(toks, c, 20, low) == Ok::<(SpecExpr, nat), Failure>((low, c)));
    assert(expr(toks, b, 20) == Ok::<(SpecExpr, nat), Failure>((low, c)));
    assert(climb(toks, m, 20, high) == Ok::<(SpecExpr, nat), Failure>((high, m)));
    assert(expr(toks, c + 1, 20) == Ok::<(SpecExpr, nat), Failure>((high, m)));
    assert(between(toks, b, probe, negated) == Ok::<(SpecExpr, nat), Failure>((e, m)));
    assert(infix(toks, j, probe, 20) == Ok::<(SpecExpr, nat), Failure>((e, m)));
    assert(climb(toks, m, 0, e) == Ok::<(SpecExpr, nat), Failure>((e, m)));
    assert(climb(toks, j, 0, probe) == Ok::<(SpecExpr, nat), Failure>((e, m)));
}

/// Writing and reading back, for `IN` and `NOT IN`.
proof fn lemma_reads_in_list(toks: Seq<SpecLocated>, i: nat, e: SpecExpr)
    requires
        e is InList,
        readable(e),
        stands(toks, i, written(e)),
        closes(toks, i + written(e).len()),
    ensures
        written(e).len() > 0,
        expr(toks, i, 0) == Ok::<(SpecExpr, nat), Failure>((e, i + written(e).len())),
    decreases e, 0nat,
{
    let probe = *e->InList_expr;
    let negated = e->InList_negated;
    let list = e->list;
    let a = operand(probe);
    let n = negation(negated);
    let kw = seq![SpecToken::Keyword(Keyword::In), SpecToken::LParen];
    let items = written_from(list, 0);
    let close = seq![SpecToken::RParen];
    let j = i + a.len();
    let b = j + n.len() + 1;
    let c = b + 1 + items.len();
    let m = c + 1;
    lemma_stands_split(toks, i, a + n + kw + items, close);
    lemma_stands_split(toks, i, a + n + kw, items);
    lemma_stands_split(toks, i, a + n, kw);
    lemma_stands_split(toks, i, a, n);
    lemma_stands_at(toks, j + n.len(), kw, 0);
    lemma_stands_at(toks, j + n.len(), kw, 1);
    lemma_stands_at(toks, c, close, 0);
    if negated {
        lemma_stands_at(toks, j, n, 0);
    }
    lemma_reads_operand(toks, i, probe);
    lemma_reads_list(toks, b + 1, list, 0);
    assert(list.skip(0) =~= list);
    assert(binding_power(toks, j) == Ok::<nat, Failure>(20));
    assert(expr_list(toks, b + 1) == Ok::<(Seq<SpecExpr>, nat), Failure>((list, c)));
    assert(in_list(toks, b, probe, negated) == Ok::<(SpecExpr, nat), Failure>((e, m)));
    assert(infix(toks, j, probe, 20) == Ok::<(SpecExpr, nat), Failure>((e, m)));
    assert(climb(toks, m, 0, e) == Ok::<(SpecExpr, nat), Failure>((e, m)));
    assert(climb(toks, j, 0, probe) == Ok::<(SpecExpr, nat), Failure>((e, m)));
}

/// Writing and reading back, for the items of a list from the `k`th on,
/// where a closing parenthesis stands after them.
proof fn lemma_reads_list(toks: Seq<SpecLocated>, i: nat, list: Seq<SpecExpr>, k: nat)
    requires
        k < list.len(),
        forall|x: int| 0 <= x < list.len() ==> readable(#[trigger] list[x]),
        stands(toks, i, written_from(list, k)),
        token_at(toks, i + written_from(list, k).len()) is RParen,
    ensures
        written_from(list, k).len() > 0,
        expr_list(toks, i) == Ok::<(Seq<SpecExpr>, nat), Failure>(
            (list.skip(k as int), i + written_from(list, k).len()),
        ),
    decreases list, list.len() - k,
{
    let first = list[k as int];
    let w = written(first);
    let j = i + w.len();
    assert(readable(first));
    if k + 1 == list.len() {
        assert(closes(toks, j));
        law_reads_back(toks, i, first);
        assert(list.skip(k as int) =~= seq![first]);
    } else {
        let rest = written_from(list, k + 1);
        lemma_stands_split(toks, i, w + seq![SpecToken::Comma], rest);
        lemma_stands_split(toks, i, w, seq![SpecToken::Comma]);
        lemma_stands_at(toks, j, seq![SpecToken::Comma], 0);
        assert(closes(toks, j));
        law_reads_back(toks, i, first);
        lemma_reads_list(toks, j + 1, list, k + 1);
        assert(list.skip(k as int) =~= seq![first] + list.skip(k + 1 as int));
    }
}

/// How tightly a binary operator binds: the comparisons most tightly, then
/// `AND`, then `OR`.
pub open spec fn power(op: Op) -> nat {
    match op {
        Op::And => 10,
        Op::Or => 5,
        _ => 20,
    }
}

/// The expression of the operator `op` between `left` and `right`.
pub open spec fn binary(left: SpecExpr, op: Op, right: SpecExpr) -> SpecExpr {
    SpecExpr::BinaryOp { left: Box::new(left), op, right: Box::new(right) }
}

/// The law of precedence: where three operands stand with two operators
/// between them and no parentheses around either pair, the second operator
/// takes the middle operand if it binds more tightly than the first, and
/// the first operator takes it if not. So `a OR b AND c` is `a OR (b AND
/// c)`, and operators that bind equally group from the left.
pub proof fn law_precedence(
    toks: Seq<SpecLocated>,
    i: nat,
    a: SpecExpr,
    first: Op,
    b: SpecExpr,
    second: Op,
    c: SpecExpr,
)
    requires
        readable(a),
        readable(b),
        readable(c),
        stands(
            toks,
            i,
            operand(a) + seq![op_token(first)] + operand(b) + seq![op_token(second)] + operand(c),
        ),
        closes(
            toks,
            i + operand(a).len() + 1 + operand(b).len() + 1 + operand(c).len(),
        ),
    ensures
        expr(toks, i, 0) == Ok::<(SpecExpr, nat), Failure>(
            (
                if power(second) > power(first) {
                    binary(a, first, binary(b, second, c))
                } else {
                    binary(binary(a, first, b), second, c)
                },
                i + operand(a).len() + 1 + operand(b).len() + 1 + operand(c).len(),
            ),
        ),
{
    let wa = operand(a);
    let wb = operand(b);
    let wc = operand(c);
    let first_token = seq![op_token(first)];
    let second_token = seq![op_token(second)];
    let here = i + wa.len();
    let there = here + 1 + wb.len();
    let end = there + 1 + wc.len();
    lemma_stands_split(toks, i, wa + first_token + wb + second_token, wc);
    lemma_stands_split(toks, i, wa + first_token + wb, second_token);
    lemma_stands_split(toks, i, wa + first_token, wb);
    lemma_stands_split(toks, i, wa, first_token);
    lemma_stands_at(toks, here, first_token, 0);
    lemma_stands_at(toks, there, second_token, 0);
    lemma_reads_operand(toks, i, a);
    lemma_reads_operand(toks, here + 1, b);
    lemma_reads_operand(toks, there + 1, c);
    let one = power(first);
    let two = power(second);
    assert(binding_power(toks, here) == Ok::<nat, Failure>(one));
    assert(binding_power(toks, there) == Ok::<nat, Failure>(two));
    assert(climb(toks, end, two, c) == Ok::<(SpecExpr, nat), Failure>((c, end)));
    assert(expr(toks, there + 1, two) == Ok::<(SpecExpr, nat), Failure>((c, end)));
    if two > one {
        let inner = binary(b, second, c);
        let whole = binary(a, first, inner);
        assert(infix(toks, there, b, two) == Ok::<(SpecExpr, nat), Failure>((inner, end)));
        assert(climb(toks, end, one, inner) == Ok::<(SpecExpr, nat), Failure>((inner, end)));
        assert(climb(toks, there, one, b) == Ok::<(SpecExpr, nat), Failure>((inner, end)));
        assert(expr(toks, here + 1, one) == Ok::<(SpecExpr, nat), Failure>((inner, end)));
        assert(infix(toks, here, a, one) == Ok::<(SpecExpr, nat), Failure>((whole, end)));
        assert(climb(toks, end, 0, whole) == Ok::<(SpecExpr, nat), Failure>((whole, end)));
        assert(climb(toks, here, 0, a) == Ok::<(SpecExpr, nat), Failure>((whole, end)));
    } else {
        let inner = binary(a, first, b);
        let whole = binary(inner, second, c);
        assert(climb(toks, there, one, b) == Ok::<(SpecExpr, nat), Failure>((b, there)));
        assert(expr(toks, here + 1, one) == Ok::<(SpecExpr, nat), Failure>((b, there)));
        assert(infix(toks, here, a, one) == Ok::<(SpecExpr, nat), Failure>((inner, there)));
        assert(infix(toks, there, inner, two) == Ok::<(SpecExpr, nat), Failure>((whole, end)));
        assert(climb(toks, end, 0, whole) == Ok::<(SpecExpr, nat), Failure>((whole, end)));
        assert(climb(toks, there, 0, inner) == Ok::<(SpecExpr, nat), Failure>((whole, end)));
        assert(climb(toks, here, 0, a) == Ok::<(SpecExpr, nat), Failure>((whole, end)));
    }
}

} // verus!
