//! Laws of the grammar and of the lexical rules, proved of the functions
//! over which the parser's and the tokeniser's contracts are stated.

use crate::ast::{SpecExpr, SpecStatement};
use crate::grammar::{
    accept, between, binding_power, clauses, climb, column_def, column_list, create, expect, expr,
    keyword_at,
    expr_list, filter, group, in_list, infix, limit, moved, name, null_test, order, prefix,
    projection, qualified_wildcard, select, select_item, statement, statements, table,
    token_at, unexpected, Failure, Outcome,
};
use crate::parser::SpecParserError;
use crate::text::bounded_number;
use crate::token::{Keyword, SpecLocated, SpecToken};
use crate::tokeniser::{is_space, lemma_lexeme_advances, lex, tokens_of};
use vstd::prelude::*;

verus! {

/// Whether the failure `f` of a reading that started at `from` is sound:
/// the token it names is the token at some position at or after `from`, or
/// the end-of-input marker, with that position's location; and the cursor
/// is left at or after `from`, and no further than just after that token.
pub open spec fn failure_sound(toks: Seq<SpecLocated>, from: nat, f: Failure) -> bool {
    exists|at: nat|
        from <= at && from <= f.cursor <= at + 1 && f == #[trigger] unexpected(toks, at, f.cursor)
}

/// Whether the outcome `o` of a reading that started at `from` is sound: a
/// success ends at or after `from`, and within the input if it has read
/// anything; a failure is sound.
pub open spec fn sound<T>(toks: Seq<SpecLocated>, from: nat, o: Outcome<T>) -> bool {
    match o {
        Ok((_, to)) => from <= to && (to == from || to <= toks.len()),
        Err(f) => failure_sound(toks, from, f),
    }
}

/// Whether the outcome `o` of a reading that started at `from` is sound and
/// a success has moved forward.
pub open spec fn sound_and_moving<T>(toks: Seq<SpecLocated>, from: nat, o: Outcome<T>) -> bool {
    &&& sound(toks, from, o)
    &&& o matches Ok((_, to)) ==> moved(toks, from, to)
}

/// A failure that is sound for a reading from `later` is sound for a
/// reading from any position before it.
proof fn lemma_sound_from_earlier(toks: Seq<SpecLocated>, from: nat, later: nat, f: Failure)
    requires
        from <= later,
        failure_sound(toks, later, f),
    ensures
        failure_sound(toks, from, f),
{
    let at = choose|at: nat|
        later <= at && later <= f.cursor <= at + 1 && f == #[trigger] unexpected(
            toks,
            at,
            f.cursor,
        );
    assert(from <= at && from <= f.cursor <= at + 1 && f == unexpected(toks, at, f.cursor));
}

/// The failure on the token at `at` is sound for a reading from `from`.
proof fn lemma_unexpected_sound(toks: Seq<SpecLocated>, from: nat, at: nat, cursor: nat)
    requires
        from <= at,
        from <= cursor <= at + 1,
    ensures
        failure_sound(toks, from, unexpected(toks, at, cursor)),
{
    let f = unexpected(toks, at, cursor);
    assert(from <= at && from <= f.cursor <= at + 1 && f == unexpected(toks, at, f.cursor));
}

/// Reading a name gives a sound outcome, and a success moves forward.
pub proof fn law_name_sound(toks: Seq<SpecLocated>, i: nat)
    ensures
        sound_and_moving(toks, i, name(toks, i)),
{
    lemma_unexpected_sound(toks, i, i, i + 1);
    lemma_unexpected_sound(toks, i, i + 2, i + 3);
    lemma_unexpected_sound(toks, i, i + 4, i + 5);
}

/// Reading an expression gives a sound outcome, and a success moves
/// forward: the token that a failure names is a token of the input at or
/// after the start, and the test of progress in the grammar's definitions
/// never fails.
pub proof fn law_expr_sound(toks: Seq<SpecLocated>, i: nat, prec: nat)
    ensures
        sound_and_moving(toks, i, expr(toks, i, prec)),
    decreases toks.len() - i, 1nat,
{
    law_prefix_sound(toks, i);
    if let Ok((left, j)) = prefix(toks, i) {
        law_climb_sound(toks, j, prec, left);
        if let Err(f) = climb(toks, j, prec, left) {
            lemma_sound_from_earlier(toks, i, j, f);
        }
    }
}

/// Reading a prefix term gives a sound outcome, and a success moves
/// forward.
pub proof fn law_prefix_sound(toks: Seq<SpecLocated>, i: nat)
    ensures
        sound_and_moving(toks, i, prefix(toks, i)),
    decreases toks.len() - i, 0nat,
{
    lemma_unexpected_sound(toks, i, i, i);
    lemma_unexpected_sound(toks, i, i, i + 1);
    law_name_sound(toks, i);
    if token_at(toks, i) is LParen {
        law_expr_sound(toks, i + 1, 0);
        match expr(toks, i + 1, 0) {
            Ok((_, j)) => {
                lemma_unexpected_sound(toks, i, j, j + 1);
            },
            Err(f) => {
                lemma_sound_from_earlier(toks, i, i + 1, f);
            },
        }
    }
}

/// Going on with an expression gives a sound outcome.
pub proof fn law_climb_sound(toks: Seq<SpecLocated>, i: nat, prec: nat, left: SpecExpr)
    ensures
        sound(toks, i, climb(toks, i, prec, left)),
    decreases toks.len() - i, 1nat,
{
    lemma_unexpected_sound(toks, i, i + 1, i);
    if let Ok(power) = binding_power(toks, i) {
        if power > prec {
            law_infix_sound(toks, i, left, power);
            if let Ok((whole, j)) = infix(toks, i, left, power) {
                law_climb_sound(toks, j, prec, whole);
                if let Err(f) = climb(toks, j, prec, whole) {
                    lemma_sound_from_earlier(toks, i, j, f);
                }
            }
        }
    }
}

/// Reading an infix form gives a sound outcome, and a success moves
/// forward.
pub proof fn law_infix_sound(toks: Seq<SpecLocated>, i: nat, left: SpecExpr, prec: nat)
    ensures
        sound_and_moving(toks, i, infix(toks, i, left, prec)),
    decreases toks.len() - i, 0nat,
{
    lemma_unexpected_sound(toks, i, i, i + 1);
    if i < toks.len() {
        lemma_unexpected_sound(toks, i, i, i + 1);
        law_expr_sound(toks, i + 1, prec);
        if let Err(f) = expr(toks, i + 1, prec) {
            lemma_sound_from_earlier(toks, i, i + 1, f);
        }
        law_null_test_sound(toks, i + 1, left);
        if let Err(f) = null_test(toks, i + 1, left) {
            lemma_sound_from_earlier(toks, i, i + 1, f);
        }
        law_between_sound(toks, i + 1, left, false);
        if let Err(f) = between(toks, i + 1, left, false) {
            lemma_sound_from_earlier(toks, i, i + 1, f);
        }
        law_in_list_sound(toks, i + 1, left, false);
        if let Err(f) = in_list(toks, i + 1, left, false) {
            lemma_sound_from_earlier(toks, i, i + 1, f);
        }
        if i + 1 < toks.len() {
            law_between_sound(toks, i + 2, left, true);
            if let Err(f) = between(toks, i + 2, left, true) {
                lemma_sound_from_earlier(toks, i, i + 2, f);
            }
            law_in_list_sound(toks, i + 2, left, true);
            if let Err(f) = in_list(toks, i + 2, left, true) {
                lemma_sound_from_earlier(toks, i, i + 2, f);
            }
        }
    }
}

/// Reading what follows `IS` gives a sound outcome, and a success moves
/// forward.
pub proof fn law_null_test_sound(toks: Seq<SpecLocated>, i: nat, probe: SpecExpr)
    ensures
        sound_and_moving(toks, i, null_test(toks, i, probe)),
{
    lemma_unexpected_sound(toks, i, i, i + 1);
    lemma_unexpected_sound(toks, i, i + 1, i + 2);
}

/// Reading what follows `BETWEEN` gives a sound outcome, and a success
/// moves forward.
pub proof fn law_between_sound(toks: Seq<SpecLocated>, i: nat, probe: SpecExpr, negated: bool)
    ensures
        sound_and_moving(toks, i, between(toks, i, probe, negated)),
    decreases toks.len() - i, 2nat,
{
    law_expr_sound(toks, i, 20);
    if let Ok((low, j)) = expr(toks, i, 20) {
        lemma_unexpected_sound(toks, i, j, j + 1);
        if j < toks.len() {
            law_expr_sound(toks, j + 1, 20);
            if let Err(f) = expr(toks, j + 1, 20) {
                lemma_sound_from_earlier(toks, i, j + 1, f);
            }
        }
    }
}

/// Reading what follows `IN` gives a sound outcome, and a success moves
/// forward.
pub proof fn law_in_list_sound(toks: Seq<SpecLocated>, i: nat, probe: SpecExpr, negated: bool)
    ensures
        sound_and_moving(toks, i, in_list(toks, i, probe, negated)),
    decreases toks.len() - i, 0nat,
{
    lemma_unexpected_sound(toks, i, i, i + 1);
    if i < toks.len() {
        law_expr_list_sound(toks, i + 1);
        match expr_list(toks, i + 1) {
            Ok((_, j)) => {
                lemma_unexpected_sound(toks, i, j, j + 1);
            },
            Err(f) => {
                lemma_sound_from_earlier(toks, i, i + 1, f);
            },
        }
    }
}

/// Reading a list of expressions gives a sound outcome, and a success
/// moves forward.
pub proof fn law_expr_list_sound(toks: Seq<SpecLocated>, i: nat)
    ensures
        sound_and_moving(toks, i, expr_list(toks, i)),
    decreases toks.len() - i, 2nat,
{
    law_expr_sound(toks, i, 0);
    if let Ok((_, j)) = expr(toks, i, 0) {
        if j < toks.len() {
            law_expr_list_sound(toks, j + 1);
            if let Err(f) = expr_list(toks, j + 1) {
                lemma_sound_from_earlier(toks, i, j + 1, f);
            }
        }
    }
}

/// Reading a projection item gives a sound outcome, and a success moves
/// forward.
pub proof fn law_select_item_sound(toks: Seq<SpecLocated>, i: nat)
    ensures
        sound_and_moving(toks, i, select_item(toks, i)),
{
    law_expr_sound(toks, i, 0);
    if let Ok((_, j)) = expr(toks, i, 0) {
        if j < toks.len() {
            lemma_unexpected_sound(toks, i, j + 1, j + 2);
        }
    }
}

/// Reading a projection list gives a sound outcome, and a success moves
/// forward.
pub proof fn law_projection_sound(toks: Seq<SpecLocated>, i: nat)
    ensures
        sound_and_moving(toks, i, projection(toks, i)),
    decreases toks.len() - i,
{
    law_select_item_sound(toks, i);
    if let Ok((_, j)) = select_item(toks, i) {
        if j < toks.len() {
            law_projection_sound(toks, j + 1);
            if let Err(f) = projection(toks, j + 1) {
                lemma_sound_from_earlier(toks, i, j + 1, f);
            }
        }
    }
}

/// Reading a table reference gives a sound outcome, and a success moves
/// forward.
pub proof fn law_table_sound(toks: Seq<SpecLocated>, i: nat)
    ensures
        sound_and_moving(toks, i, table(toks, i)),
{
    law_name_sound(toks, i);
    if let Ok((_, j)) = name(toks, i) {
        if j < toks.len() {
            lemma_unexpected_sound(toks, i, j + 1, j + 2);
        }
    }
}

/// Reading the clauses of a query gives a sound outcome.
pub proof fn law_clauses_sound(
    toks: Seq<SpecLocated>,
    i: nat,
    items: Seq<crate::ast::SpecSelectItem>,
    from: crate::ast::SpecFromTable,
)
    ensures
        sound(toks, i, clauses(toks, i, items, from)),
{
    if i < toks.len() {
        law_expr_sound(toks, i + 1, 0);
        if let Err(f) = expr(toks, i + 1, 0) {
            lemma_sound_from_earlier(toks, i, i + 1, f);
        }
    }
    if let Ok((_, j)) = filter(toks, i) {
        if j + 1 < toks.len() {
            law_expr_list_sound(toks, j + 2);
            if let Err(f) = expr_list(toks, j + 2) {
                lemma_sound_from_earlier(toks, j, j + 2, f);
            }
        }
        if let Err(f) = group(toks, j) {
            lemma_sound_from_earlier(toks, i, j, f);
        }
        if let Ok((_, k)) = group(toks, j) {
            if k + 1 < toks.len() {
                law_expr_sound(toks, k + 2, 0);
                if let Err(f) = expr(toks, k + 2, 0) {
                    lemma_sound_from_earlier(toks, k, k + 2, f);
                }
            }
            if let Err(f) = order(toks, k) {
                lemma_sound_from_earlier(toks, i, k, f);
            }
            if let Ok((_, l)) = order(toks, k) {
                if l < toks.len() {
                    law_expr_sound(toks, l + 1, 0);
                    if let Err(f) = expr(toks, l + 1, 0) {
                        lemma_sound_from_earlier(toks, l, l + 1, f);
                    }
                }
                if let Err(f) = limit(toks, l) {
                    lemma_sound_from_earlier(toks, i, l, f);
                }
            }
        }
    }
}

/// Reading a query gives a sound outcome, and a success moves forward.
pub proof fn law_select_sound(toks: Seq<SpecLocated>, i: nat)
    ensures
        sound_and_moving(toks, i, select(toks, i)),
{
    lemma_unexpected_sound(toks, i, i, i + 1);
    if i < toks.len() {
        law_projection_sound(toks, i + 1);
        match projection(toks, i + 1) {
            Err(f) => {
                lemma_sound_from_earlier(toks, i, i + 1, f);
            },
            Ok((items, j)) => {
                lemma_unexpected_sound(toks, i, j, j + 1);
                if j < toks.len() {
                    law_table_sound(toks, j + 1);
                    match table(toks, j + 1) {
                        Err(f) => {
                            lemma_sound_from_earlier(toks, i, j + 1, f);
                        },
                        Ok((from, k)) => {
                            law_clauses_sound(toks, k, items, from);
                            if let Err(f) = clauses(toks, k, items, from) {
                                lemma_sound_from_earlier(toks, i, k, f);
                            }
                        },
                    }
                }
            },
        }
    }
}

/// Reading a column definition gives a sound outcome, and a success moves
/// forward.
pub proof fn law_column_def_sound(toks: Seq<SpecLocated>, i: nat)
    ensures
        sound_and_moving(toks, i, column_def(toks, i)),
{
    lemma_unexpected_sound(toks, i, i, i + 1);
    lemma_unexpected_sound(toks, i, i + 1, i + 2);
    lemma_unexpected_sound(toks, i, i + 2, i + 3);
    lemma_unexpected_sound(toks, i, i + 3, i + 4);
    lemma_unexpected_sound(toks, i, i + 4, i + 5);
}

/// Reading a list of column definitions gives a sound outcome, and a
/// success moves forward.
pub proof fn law_column_list_sound(toks: Seq<SpecLocated>, i: nat)
    ensures
        sound_and_moving(toks, i, column_list(toks, i)),
    decreases toks.len() - i,
{
    law_column_def_sound(toks, i);
    if let Ok((_, j)) = column_def(toks, i) {
        if j < toks.len() {
            law_column_list_sound(toks, j + 1);
            if let Err(f) = column_list(toks, j + 1) {
                lemma_sound_from_earlier(toks, i, j + 1, f);
            }
        }
    }
}

/// Reading a table definition gives a sound outcome, and a success moves
/// forward.
pub proof fn law_create_sound(toks: Seq<SpecLocated>, i: nat)
    ensures
        sound_and_moving(toks, i, create(toks, i)),
{
    lemma_unexpected_sound(toks, i, i, i + 1);
    lemma_unexpected_sound(toks, i, i + 1, i + 2);
    lemma_unexpected_sound(toks, i, i + 2, i + 3);
    lemma_unexpected_sound(toks, i, i + 3, i + 4);
    if i + 3 < toks.len() {
        law_column_list_sound(toks, i + 4);
        match column_list(toks, i + 4) {
            Err(f) => {
                lemma_sound_from_earlier(toks, i, i + 4, f);
            },
            Ok((_, j)) => {
                lemma_unexpected_sound(toks, i, j, j + 1);
            },
        }
    }
}

/// Reading a statement gives a sound outcome, and a success moves forward.
pub proof fn law_statement_sound(toks: Seq<SpecLocated>, i: nat)
    ensures
        sound_and_moving(toks, i, statement(toks, i)),
{
    lemma_unexpected_sound(toks, i, i, i);
    law_select_sound(toks, i);
    law_create_sound(toks, i);
}

/// Malformed input yields the unexpected-token failure and nothing else:
/// whenever reading the statements fails, the failure names a token that
/// stands in the input at or after the start, or the end-of-input marker,
/// together with that token's own location; and a success has read the
/// input to a position within it.
pub proof fn law_statements_sound(toks: Seq<SpecLocated>, i: nat)
    ensures
        sound(toks, i, statements(toks, i)),
    decreases toks.len() - i,
{
    lemma_unexpected_sound(toks, i, i, i);
    if token_at(toks, i) is Semicolon {
        law_statements_sound(toks, i + 1);
        if let Err(f) = statements(toks, i + 1) {
            lemma_sound_from_earlier(toks, i, i + 1, f);
        }
    } else if !(token_at(toks, i) is Eof) {
        law_statement_sound(toks, i);
        if let Ok((_, j)) = statement(toks, i) {
            law_statements_sound(toks, j);
            if let Err(f) = statements(toks, j) {
                lemma_sound_from_earlier(toks, i, j, f);
            }
        }
    }
}

/// A parenthesis that is opened and not closed is a failure on the token
/// that stands where the closing parenthesis is due.
pub proof fn law_unclosed_parenthesis(toks: Seq<SpecLocated>, i: nat)
    requires
        token_at(toks, i) is LParen,
        expr(toks, i + 1, 0) is Ok,
        !(token_at(toks, expr(toks, i + 1, 0)->Ok_0.1) is RParen),
    ensures
        prefix(toks, i) == Err::<(SpecExpr, nat), Failure>(
            unexpected(
                toks,
                expr(toks, i + 1, 0)->Ok_0.1,
                expr(toks, i + 1, 0)->Ok_0.1 + 1,
            ),
        ),
{
}

/// A `VARCHAR` whose length is not a number that fits in sixteen bits is a
/// failure on the token that stands where the length is due.
pub proof fn law_varchar_needs_bounded_number(toks: Seq<SpecLocated>, i: nat)
    requires
        token_at(toks, i) is Ident,
        token_at(toks, i + 1) == SpecToken::Keyword(Keyword::Varchar),
        token_at(toks, i + 2) is LParen,
        !(token_at(toks, i + 3) matches SpecToken::NumberLiteral(n) && bounded_number(n) is Some),
    ensures
        column_def(toks, i) == Err::<(crate::ast::SpecColumnDef, nat), Failure>(
            unexpected(toks, i + 3, i + 4),
        ),
{
}

/// The attempt to read a qualified wildcard reads nothing when it fails:
/// where neither an asterisk nor a qualified wildcard stands, the
/// projection item is the expression that starts at the very same
/// position, and it fails if and only if that expression fails.
pub proof fn law_failed_wildcard_reads_nothing(toks: Seq<SpecLocated>, i: nat)
    requires
        !(token_at(toks, i) is Asterisk),
        qualified_wildcard(toks, i) is None,
    ensures
        match expr(toks, i, 0) {
            Err(f) => select_item(toks, i) == Err::<(crate::ast::SpecSelectItem, nat), Failure>(f),
            Ok((e, j)) => match select_item(toks, i) {
                Ok((crate::ast::SpecSelectItem::Expr(x), k)) => x == e && k == j,
                Ok((crate::ast::SpecSelectItem::AliasedExpr { expr: x, alias }, k)) => x == e && k
                    == j + 2,
                Ok(_) => false,
                Err(f) => f == unexpected(toks, j + 1, j + 2),
            },
        },
{
}

/// Where only semicolons stand from `i` on, there are no statements, and
/// the input is read to its end.
pub proof fn law_semicolons_are_no_statements(toks: Seq<SpecLocated>, i: nat)
    requires
        i <= toks.len(),
        forall|k: int| i <= k < toks.len() ==> (#[trigger] toks[k]).token is Semicolon,
    ensures
        statements(toks, i) == Ok::<(Seq<SpecStatement>, nat), Failure>(
            (Seq::empty(), toks.len()),
        ),
    decreases toks.len() - i,
{
    if i < toks.len() {
        assert(toks[i as int].token is Semicolon);
        law_semicolons_are_no_statements(toks, i + 1);
    }
}

/// Whether every character of `src` is a space or a semicolon.
pub open spec fn is_blank(src: Seq<char>) -> bool {
    forall|k: int| 0 <= k < src.len() ==> is_space(#[trigger] src[k]) || src[k] == ';'
}

/// A text of spaces and semicolons has only semicolons as tokens.
proof fn lemma_blank_text_lexes_to_semicolons(src: Seq<char>, i: nat)
    requires
        is_blank(src),
        i <= src.len(),
    ensures
        lex(src, i) matches Ok(toks) && forall|k: int|
            0 <= k < toks.len() ==> (#[trigger] toks[k]).token is Semicolon,
    decreases src.len() - i,
{
    if i < src.len() {
        assert(is_space(src[i as int]) || src[i as int] == ';');
        lemma_blank_text_lexes_to_semicolons(src, i + 1);
    }
}

/// What a text gives when it is split into tokens and its statements are
/// read from the first token on: the statements, or the message of the
/// tokeniser's or the parser's failure.
pub open spec fn statements_of(src: Seq<char>) -> Result<Seq<SpecStatement>, SpecParserError> {
    match tokens_of(src) {
        Err(e) => Err(SpecParserError::TokeniserError(e.text())),
        Ok(toks) => match statements(toks, 0) {
            Err(f) => Err(SpecParserError::Unexpected(f.message())),
            Ok((list, _)) => Ok(list),
        },
    }
}

/// A text that consists only of spaces and semicolons has no statements.
pub proof fn law_blank_text_has_no_statements(src: Seq<char>)
    requires
        is_blank(src),
    ensures
        statements_of(src) == Ok::<Seq<SpecStatement>, SpecParserError>(Seq::empty()),
{
    lemma_blank_text_lexes_to_semicolons(src, 0);
    law_semicolons_are_no_statements(tokens_of(src)->Ok_0, 0);
}

/// The tokens of a text hold no end-of-input marker: the marker is read
/// only past the last token.
pub proof fn law_tokens_hold_no_end_marker(src: Seq<char>, i: nat)
    requires
        i <= src.len(),
    ensures
        lex(src, i) matches Ok(toks) ==> forall|k: int|
            0 <= k < toks.len() ==> !((#[trigger] toks[k]).token is Eof),
    decreases src.len() - i,
{
    if i < src.len() {
        if is_space(src[i as int]) {
            law_tokens_hold_no_end_marker(src, i + 1);
        } else if let Ok((_, end)) = crate::tokeniser::lexeme_at(src, i) {
            lemma_lexeme_advances(src, i);
            law_tokens_hold_no_end_marker(src, end);
        }
    }
}

/// Where the tokens hold no end-of-input marker, reading the statements
/// succeeds only by reading every token.
pub proof fn law_statements_read_every_token(toks: Seq<SpecLocated>, i: nat)
    requires
        i <= toks.len(),
        forall|k: int| 0 <= k < toks.len() ==> !((#[trigger] toks[k]).token is Eof),
    ensures
        statements(toks, i) matches Ok((_, end)) ==> end == toks.len(),
    decreases toks.len() - i,
{
    if i < toks.len() {
        assert(!(toks[i as int].token is Eof));
        if token_at(toks, i) is Semicolon {
            law_statements_read_every_token(toks, i + 1);
        } else {
            law_statement_sound(toks, i);
            if let Ok((_, j)) = statement(toks, i) {
                law_statements_read_every_token(toks, j);
            }
        }
    }
}

/// A text has statements only if every one of its tokens was read as part
/// of them: nothing is left unread after the last statement.
pub proof fn law_text_is_read_to_its_end(src: Seq<char>)
    ensures
        tokens_of(src) matches Ok(toks) ==> (statements(toks, 0) matches Ok((_, end)) ==> end
            == toks.len()),
{
    law_tokens_hold_no_end_marker(src, 0);
    if let Ok(toks) = tokens_of(src) {
        law_statements_read_every_token(toks, 0);
    }
}

/// Parentheses add nothing to the tree: where an opening parenthesis
/// stands at `i`, an expression reads after it and a closing parenthesis
/// stands where that expression ends, the prefix term at `i` is that very
/// expression, and it ends just after the closing parenthesis.
pub proof fn law_parentheses_add_nothing(toks: Seq<SpecLocated>, i: nat)
    requires
        token_at(toks, i) is LParen,
        expr(toks, i + 1, 0) is Ok,
        token_at(toks, expr(toks, i + 1, 0)->Ok_0.1) is RParen,
    ensures
        prefix(toks, i) == Ok::<(SpecExpr, nat), Failure>(
            (expr(toks, i + 1, 0)->Ok_0.0, expr(toks, i + 1, 0)->Ok_0.1 + 1),
        ),
{
}

/// A dotted name of two parts is one compound identifier of those parts,
/// in their order.
pub proof fn law_two_part_name(toks: Seq<SpecLocated>, i: nat, a: Seq<char>, b: Seq<char>)
    requires
        token_at(toks, i) == SpecToken::Ident(a),
        token_at(toks, i + 1) is Dot,
        token_at(toks, i + 2) == SpecToken::Ident(b),
        !(token_at(toks, i + 3) is Dot),
    ensures
        prefix(toks, i) == Ok::<(SpecExpr, nat), Failure>(
            (SpecExpr::CompoundIdent(seq![a, b]), i + 3),
        ),
{
}

/// A dotted name of three parts is one compound identifier of those parts,
/// in their order, whatever follows it.
pub proof fn law_three_part_name(
    toks: Seq<SpecLocated>,
    i: nat,
    a: Seq<char>,
    b: Seq<char>,
    c: Seq<char>,
)
    requires
        token_at(toks, i) == SpecToken::Ident(a),
        token_at(toks, i + 1) is Dot,
        token_at(toks, i + 2) == SpecToken::Ident(b),
        token_at(toks, i + 3) is Dot,
        token_at(toks, i + 4) == SpecToken::Ident(c),
    ensures
        prefix(toks, i) == Ok::<(SpecExpr, nat), Failure>(
            (SpecExpr::CompoundIdent(seq![a, b, c]), i + 5),
        ),
{
}

/// Whether `BETWEEN` or `IN`, which is `word`, stands at `i` with or without
/// `NOT` before it.
pub open spec fn word_stands(toks: Seq<SpecLocated>, i: nat, word: Keyword) -> bool {
    keyword_at(toks, i, word) || (keyword_at(toks, i, Keyword::Not) && keyword_at(
        toks,
        i + 1,
        word,
    ))
}

/// Whether `NOT` stands at `i`.
pub open spec fn negated_at(toks: Seq<SpecLocated>, i: nat) -> bool {
    keyword_at(toks, i, Keyword::Not)
}

/// The position after the word that stands at `i` with or without `NOT`
/// before it.
pub open spec fn after_word(toks: Seq<SpecLocated>, i: nat) -> nat {
    if negated_at(toks, i) {
        i + 2
    } else {
        i + 1
    }
}

/// `NOT` before `BETWEEN` is carried into the tree and nothing else of it:
/// the infix form is a `Between` whose flag says whether `NOT` stood there,
/// whose probe is the left operand, and whose bounds are the expressions
/// read at binding power 20 before and after `AND`.
pub proof fn law_between_carries_negation(
    toks: Seq<SpecLocated>,
    i: nat,
    left: SpecExpr,
    power: nat,
)
    requires
        word_stands(toks, i, Keyword::Between),
    ensures
        infix(toks, i, left, power) == between(
            toks,
            after_word(toks, i),
            left,
            negated_at(toks, i),
        ),
        infix(toks, i, left, power) matches Ok((whole, end)) ==> {
            &&& whole matches SpecExpr::Between { expr: probe, negated, low, high }
            &&& *probe == left
            &&& negated == negated_at(toks, i)
            &&& expr(toks, after_word(toks, i), 20) matches Ok((l, j))
            &&& l == *low
            &&& keyword_at(toks, j, Keyword::And)
            &&& expr(toks, j + 1, 20) == Ok::<(SpecExpr, nat), Failure>((*high, end))
        },
{
}

/// `NOT` before `IN` is carried into the tree and nothing else of it: the
/// infix form is an `InList` whose flag says whether `NOT` stood there,
/// whose probe is the left operand, and whose list is the list of
/// expressions read between the parentheses.
pub proof fn law_in_carries_negation(toks: Seq<SpecLocated>, i: nat, left: SpecExpr, power: nat)
    requires
        word_stands(toks, i, Keyword::In),
    ensures
        infix(toks, i, left, power) == in_list(
            toks,
            after_word(toks, i),
            left,
            negated_at(toks, i),
        ),
        infix(toks, i, left, power) matches Ok((whole, end)) ==> {
            &&& whole matches SpecExpr::InList { expr: probe, list, negated }
            &&& *probe == left
            &&& negated == negated_at(toks, i)
            &&& token_at(toks, after_word(toks, i)) is LParen
            &&& expr_list(toks, after_word(toks, i) + 1) matches Ok((items, close))
            &&& items == list
            &&& token_at(toks, close) is RParen
            &&& end == close + 1
        },
{
}

/// The position at which the `k`th expression of the list at `i` starts,
/// counting from 0: each starts after the comma that follows the one
/// before it.
pub open spec fn item_start(toks: Seq<SpecLocated>, i: nat, k: nat) -> nat
    decreases k,
{
    if k == 0 {
        i
    } else {
        match expr(toks, i, 0) {
            Ok((_, j)) => item_start(toks, j + 1, (k - 1) as nat),
            Err(_) => i,
        }
    }
}

/// Whether `list`, ending at `end`, holds the expressions that stand at `i`
/// with commas between them, one for one and in their order: the `k`th item
/// is the expression read where the `k`th starts, a comma stands after
/// every item but the last, and the last ends at `end`, where no comma
/// stands.
pub open spec fn holds_items_in_order(
    toks: Seq<SpecLocated>,
    i: nat,
    list: Seq<SpecExpr>,
    end: nat,
) -> bool {
    &&& list.len() >= 1
    &&& forall|k: nat|
        k < list.len() ==> {
            &&& #[trigger] expr(toks, item_start(toks, i, k), 0) matches Ok((e, j))
            &&& e == list[k as int]
            &&& if k + 1 < list.len() {
                token_at(toks, j) is Comma
            } else {
                j == end && !(token_at(toks, j) is Comma)
            }
        }
}

/// A list of expressions, of any length, holds the expressions in the order
/// of the source, none left out and none twice.
pub proof fn law_list_keeps_order(toks: Seq<SpecLocated>, i: nat)
    ensures
        expr_list(toks, i) matches Ok((list, end)) ==> holds_items_in_order(toks, i, list, end),
    decreases toks.len() - i,
{
    if let Ok((list, end)) = expr_list(toks, i) {
        let first = expr(toks, i, 0)->Ok_0.0;
        let j = expr(toks, i, 0)->Ok_0.1;
        if token_at(toks, j) is Comma {
            law_list_keeps_order(toks, j + 1);
            let rest = expr_list(toks, j + 1)->Ok_0.0;
            assert(list =~= seq![first] + rest);
            assert forall|k: nat| k < list.len() implies {
                &&& #[trigger] expr(toks, item_start(toks, i, k), 0) matches Ok((e, m))
                &&& e == list[k as int]
                &&& if k + 1 < list.len() {
                    token_at(toks, m) is Comma
                } else {
                    m == end && !(token_at(toks, m) is Comma)
                }
            } by {
                if k > 0 {
                    let before = (k - 1) as nat;
                    assert(item_start(toks, i, k) == item_start(toks, j + 1, before));
                    assert(expr(toks, item_start(toks, j + 1, before), 0) is Ok);
                    assert(list[k as int] == rest[before as int]);
                }
            }
        } else {
            assert(list =~= seq![first]);
        }
    }
}

/// Whether each of the tokens `want` stands at its place from `i` on, the
/// end-of-input marker standing at every place past the last token.
pub open spec fn all_stand(toks: Seq<SpecLocated>, i: nat, want: Seq<SpecToken>) -> bool {
    forall|k: int| 0 <= k < want.len() ==> token_at(toks, (i + k) as nat) == #[trigger] want[k]
}

/// Whether `m` is the place of the first of the tokens `want` that does not
/// stand at its place from `i` on.
pub open spec fn first_absent(toks: Seq<SpecLocated>, i: nat, want: Seq<SpecToken>, m: int) -> bool {
    &&& 0 <= m < want.len()
    &&& token_at(toks, (i + m) as nat) != want[m]
    &&& forall|k: int| 0 <= k < m ==> token_at(toks, (i + k) as nat) == #[trigger] want[k]
}

/// Wanted tokens are accepted if and only if every one of them stands at
/// its place, and the position after them is then further by their number,
/// the end-of-input marker counting like any other token.
pub proof fn law_accept_counts_every_token(toks: Seq<SpecLocated>, i: nat, want: Seq<SpecToken>)
    ensures
        accept(toks, i, want) == if all_stand(toks, i, want) {
            Some(i + want.len())
        } else {
            None
        },
    decreases want.len(),
{
    if want.len() > 0 {
        let rest = want.drop_first();
        law_accept_counts_every_token(toks, i + 1, rest);
        if token_at(toks, i) == want[0] {
            if all_stand(toks, i + 1, rest) {
                assert forall|k: int| 0 <= k < want.len() implies token_at(toks, (i + k) as nat)
                    == #[trigger] want[k] by {
                    if k > 0 {
                        assert(rest[k - 1] == want[k]);
                    }
                }
            } else {
                let k = choose|k: int|
                    0 <= k < rest.len() && token_at(toks, (i + 1 + k) as nat) != #[trigger] rest[k];
                assert(want[k + 1] == rest[k]);
                assert(token_at(toks, (i + (k + 1)) as nat) != want[k + 1]);
            }
        } else {
            assert(token_at(toks, (i + 0) as nat) != want[0]);
        }
    }
}

/// Wanted tokens are passed if every one of them stands at its place, and
/// the position after them is then further by their number. If not, the
/// failure is on the token that stands where the first absent one was
/// wanted, and the cursor is left just after it.
pub proof fn law_expect_fails_on_first_absent(
    toks: Seq<SpecLocated>,
    i: nat,
    want: Seq<SpecToken>,
)
    ensures
        match expect(toks, i, want) {
            Ok((_, end)) => all_stand(toks, i, want) && end == i + want.len(),
            Err(f) => exists|m: int| #[trigger]
                first_absent(toks, i, want, m) && f == unexpected(
                    toks,
                    (i + m) as nat,
                    (i + m + 1) as nat,
                ),
        },
    decreases want.len(),
{
    if want.len() > 0 {
        let rest = want.drop_first();
        if token_at(toks, i) == want[0] {
            law_expect_fails_on_first_absent(toks, i + 1, rest);
            match expect(toks, i + 1, rest) {
                Ok(_) => {
                    assert forall|k: int| 0 <= k < want.len() implies token_at(
                        toks,
                        (i + k) as nat,
                    ) == #[trigger] want[k] by {
                        if k > 0 {
                            assert(rest[k - 1] == want[k]);
                        }
                    }
                },
                Err(f) => {
                    let m = choose|m: int| #[trigger]
                        first_absent(toks, i + 1, rest, m) && f == unexpected(
                            toks,
                            (i + 1 + m) as nat,
                            (i + 1 + m + 1) as nat,
                        );
                    assert(want[m + 1] == rest[m]);
                    assert forall|k: int| 0 <= k < m + 1 implies token_at(toks, (i + k) as nat)
                        == #[trigger] want[k] by {
                        if k > 0 {
                            assert(rest[k - 1] == want[k]);
                        }
                    }
                    assert(first_absent(toks, i, want, m + 1));
                },
            }
        } else {
            assert(first_absent(toks, i, want, 0));
        }
    }
}

} // verus!
