//! The tokeniser: from source text to located tokens.
//!
//! The lexical rules are stated as mathematical functions on the sequence of
//! characters (`lex` and what it is built from); the tokeniser is proved to
//! compute them.

use crate::text::{digit, is_digit, lowered, to_lower};
use crate::token::{Keyword, Location, SpecLocated, SpecToken, Token, TokenWithLocation};
use vstd::prelude::*;
use vstd::string::StrSliceExecFns;
use vstd::string::StringExecFns;

verus! {

/// Why a text could not be split into tokens.
#[derive(Clone, Copy, PartialEq, Eq, Debug)]
pub enum TokeniserError {
    /// A character that no token starts with.
    UnexpectedChar { found: char, location: Location },
    /// A string literal whose closing quote is missing; the location is that
    /// of the opening quote.
    UnterminatedString { location: Location },
}

impl TokeniserError {
    /// The error's message.
    pub open spec fn text(self) -> Seq<char> {
        match self {
            TokeniserError::UnexpectedChar { found, location } => location.text()
                + ": unexpected character "@ + seq![found],
            TokeniserError::UnterminatedString { location } => location.text()
                + ": unterminated string literal"@,
        }
    }

    /// Writes the error's message.
    pub fn message(&self) -> (r: String)
        ensures
            r@ == self.text(),
    {
        match self {
            TokeniserError::UnexpectedChar { found, location } => {
                let mut out = location.describe();
                out.append(": unexpected character ");
                out.push(*found);
                assert(out@ =~= self.text());
                out
            },
            TokeniserError::UnterminatedString { location } => {
                let mut out = location.describe();
                out.append(": unterminated string literal");
                out
            },
        }
    }
}

/// Whether `c` separates tokens without being one: a space, a tab, a line
/// feed or a carriage return.
pub open spec fn is_space(c: char) -> bool {
    c == ' ' || c == '\t' || c == '\n' || c == '\r'
}

/// Whether `c` can start a word: an ASCII letter or an underscore.
pub open spec fn is_word_start(c: char) -> bool {
    ('a' <= c <= 'z') || ('A' <= c <= 'Z') || c == '_'
}

/// Whether `c` can continue a word: an ASCII letter, a digit or an
/// underscore.
pub open spec fn is_word_part(c: char) -> bool {
    is_word_start(c) || is_digit(c)
}

/// Whether `c` opens a string literal, which the same character closes.
pub open spec fn is_quote(c: char) -> bool {
    c == '"' || c == '\''
}

/// The end of the longest run of word characters that starts at `i`.
pub open spec fn word_end(s: Seq<char>, i: nat) -> nat
    decreases s.len() - i,
{
    if i < s.len() && is_word_part(s[i as int]) {
        word_end(s, i + 1)
    } else {
        i
    }
}

/// The end of the longest run of digits that starts at `i`.
pub open spec fn digits_end(s: Seq<char>, i: nat) -> nat
    decreases s.len() - i,
{
    if i < s.len() && is_digit(s[i as int]) {
        digits_end(s, i + 1)
    } else {
        i
    }
}

/// The end of the number that starts at `i`: a run of digits, and after it
/// a point and another run of digits if a point and a digit follow.
pub open spec fn number_end(s: Seq<char>, i: nat) -> nat {
    let whole = digits_end(s, i);
    if whole + 1 < s.len() && s[whole as int] == '.' && is_digit(s[whole + 1 as int]) {
        digits_end(s, whole + 1)
    } else {
        whole
    }
}

/// The position of the first `quote` at or after `i`, or the length of `s`
/// if there is none.
pub open spec fn quote_at(s: Seq<char>, i: nat, quote: char) -> nat
    decreases s.len() - i,
{
    if i < s.len() && s[i as int] != quote {
        quote_at(s, i + 1, quote)
    } else {
        i
    }
}

/// The keyword that `word` spells, in upper or lower case or any mixture of
/// them, if it spells one.
pub open spec fn keyword_of(word: Seq<char>) -> Option<Keyword> {
    let w = lowered(word);
    if w == "select"@ {
        Some(Keyword::Select)
    } else if w == "from"@ {
        Some(Keyword::From)
    } else if w == "where"@ {
        Some(Keyword::Where)
    } else if w == "group"@ {
        Some(Keyword::Group)
    } else if w == "by"@ {
        Some(Keyword::By)
    } else if w == "order"@ {
        Some(Keyword::Order)
    } else if w == "limit"@ {
        Some(Keyword::Limit)
    } else if w == "and"@ {
        Some(Keyword::And)
    } else if w == "or"@ {
        Some(Keyword::Or)
    } else if w == "not"@ {
        Some(Keyword::Not)
    } else if w == "is"@ {
        Some(Keyword::Is)
    } else if w == "null"@ {
        Some(Keyword::Null)
    } else if w == "between"@ {
        Some(Keyword::Between)
    } else if w == "in"@ {
        Some(Keyword::In)
    } else if w == "as"@ {
        Some(Keyword::As)
    } else if w == "create"@ {
        Some(Keyword::Create)
    } else if w == "table"@ {
        Some(Keyword::Table)
    } else if w == "insert"@ {
        Some(Keyword::Insert)
    } else if w == "update"@ {
        Some(Keyword::Update)
    } else if w == "delete"@ {
        Some(Keyword::Delete)
    } else if w == "int"@ {
        Some(Keyword::Int)
    } else if w == "varchar"@ {
        Some(Keyword::Varchar)
    } else if w == "true"@ {
        Some(Keyword::True)
    } else if w == "false"@ {
        Some(Keyword::False)
    } else if w == "asc"@ {
        Some(Keyword::Asc)
    } else if w == "desc"@ {
        Some(Keyword::Desc)
    } else {
        None
    }
}

/// The number of line feeds before position `i`.
pub open spec fn newlines_before(s: Seq<char>, i: nat) -> nat
    decreases i,
{
    if i == 0 || i > s.len() {
        0
    } else if s[i - 1] == '\n' {
        newlines_before(s, (i - 1) as nat) + 1
    } else {
        newlines_before(s, (i - 1) as nat)
    }
}

/// The position at which the line that holds position `i` starts: after
/// the last line feed before `i`, or at 0.
pub open spec fn line_start(s: Seq<char>, i: nat) -> nat
    decreases i,
{
    if i == 0 || i > s.len() {
        0
    } else if s[i - 1] == '\n' {
        i
    } else {
        line_start(s, (i - 1) as nat)
    }
}

/// The location of the character at position `i`: its line, counting the
/// line feeds before it from one, and its column, counting the characters
/// of its line up to it from one.
pub open spec fn location_of(s: Seq<char>, i: nat) -> Location {
    Location {
        line: (newlines_before(s, i) + 1) as usize,
        column: (i - line_start(s, i) + 1) as usize,
    }
}

/// The token that starts at position `i`, where a character stands that is
/// no space, and the position after it. The longest token is taken: a word
/// runs to its last word character and is a keyword if it spells one, an
/// identifier if not; a number runs to its last digit; a string literal
/// runs to the next quote of the kind that opened it; `<=`, `<>` and `>=`
/// are one token each.
pub open spec fn lexeme_at(s: Seq<char>, i: nat) -> Result<(SpecToken, nat), TokeniserError> {
    let c = s[i as int];
    let then = if i + 1 < s.len() {
        Some(s[i + 1 as int])
    } else {
        None
    };
    if is_word_start(c) {
        let end = word_end(s, i + 1);
        let word = s.subrange(i as int, end as int);
        match keyword_of(word) {
            Some(k) => Ok((SpecToken::Keyword(k), end)),
            None => Ok((SpecToken::Ident(word), end)),
        }
    } else if is_digit(c) {
        let end = number_end(s, i);
        Ok((SpecToken::NumberLiteral(s.subrange(i as int, end as int)), end))
    } else if is_quote(c) {
        let close = quote_at(s, i + 1, c);
        if close < s.len() {
            Ok((SpecToken::StringLiteral(s.subrange(i + 1 as int, close as int)), close + 1))
        } else {
            Err(TokeniserError::UnterminatedString { location: location_of(s, i) })
        }
    } else if c == '<' {
        if then == Some('=') {
            Ok((SpecToken::Le, i + 2))
        } else if then == Some('>') {
            Ok((SpecToken::Neq, i + 2))
        } else {
            Ok((SpecToken::Lt, i + 1))
        }
    } else if c == '>' {
        if then == Some('=') {
            Ok((SpecToken::Ge, i + 2))
        } else {
            Ok((SpecToken::Gt, i + 1))
        }
    } else if c == '=' {
        Ok((SpecToken::Eq, i + 1))
    } else if c == '.' {
        Ok((SpecToken::Dot, i + 1))
    } else if c == ',' {
        Ok((SpecToken::Comma, i + 1))
    } else if c == '(' {
        Ok((SpecToken::LParen, i + 1))
    } else if c == ')' {
        Ok((SpecToken::RParen, i + 1))
    } else if c == ';' {
        Ok((SpecToken::Semicolon, i + 1))
    } else if c == '*' {
        Ok((SpecToken::Asterisk, i + 1))
    } else {
        Err(TokeniserError::UnexpectedChar { found: c, location: location_of(s, i) })
    }
}

/// A run of word characters ends at or after its start and within the
/// text.
pub proof fn lemma_word_end_bounds(s: Seq<char>, i: nat)
    requires
        i <= s.len(),
    ensures
        i <= word_end(s, i) <= s.len(),
    decreases s.len() - i,
{
    if i < s.len() && is_word_part(s[i as int]) {
        lemma_word_end_bounds(s, i + 1);
    }
}

/// A run of digits ends at or after its start and within the text.
pub proof fn lemma_digits_end_bounds(s: Seq<char>, i: nat)
    requires
        i <= s.len(),
    ensures
        i <= digits_end(s, i) <= s.len(),
    decreases s.len() - i,
{
    if i < s.len() && is_digit(s[i as int]) {
        lemma_digits_end_bounds(s, i + 1);
    }
}

/// The search for a quote ends at or after its start and within the text.
pub proof fn lemma_quote_at_bounds(s: Seq<char>, i: nat, quote: char)
    requires
        i <= s.len(),
    ensures
        i <= quote_at(s, i, quote) <= s.len(),
    decreases s.len() - i,
{
    if i < s.len() && s[i as int] != quote {
        lemma_quote_at_bounds(s, i + 1, quote);
    }
}

/// A token holds at least one character and ends within the text.
pub proof fn lemma_lexeme_advances(s: Seq<char>, i: nat)
    requires
        i < s.len(),
    ensures
        lexeme_at(s, i) matches Ok((_, end)) ==> i < end <= s.len(),
{
    lemma_word_end_bounds(s, i + 1);
    lemma_digits_end_bounds(s, i);
    let whole = digits_end(s, i);
    if whole + 1 < s.len() {
        lemma_digits_end_bounds(s, whole + 1);
    }
    lemma_quote_at_bounds(s, i + 1, s[i as int]);
}

/// The tokens of `s` from position `i` on, each with the location of its
/// first character; or the first error. Spaces between tokens are skipped.
pub open spec fn lex(s: Seq<char>, i: nat) -> Result<Seq<SpecLocated>, TokeniserError>
    decreases s.len() - i,
{
    if i >= s.len() {
        Ok(Seq::empty())
    } else if is_space(s[i as int]) {
        lex(s, i + 1)
    } else {
        match lexeme_at(s, i) {
            Err(e) => Err(e),
            Ok((token, end)) => {
                proof {
                    lemma_lexeme_advances(s, i);
                }
                prepended(seq![SpecLocated { token, location: location_of(s, i) }], lex(s, end))
            },
        }
    }
}

/// The tokens of the text `s`, or the first error in it.
pub open spec fn tokens_of(s: Seq<char>) -> Result<Seq<SpecLocated>, TokeniserError> {
    lex(s, 0)
}

/// The tokens `front` put before the tokens that `rest` gives.
pub open spec fn prepended(front: Seq<SpecLocated>, rest: Result<Seq<SpecLocated>, TokeniserError>)
    -> Result<Seq<SpecLocated>, TokeniserError> {
    match rest {
        Err(e) => Err(e),
        Ok(tokens) => Ok(front + tokens),
    }
}

/// Whether `c` is a space.
fn space(c: char) -> (r: bool)
    ensures
        r == is_space(c),
{
    c == ' ' || c == '\t' || c == '\n' || c == '\r'
}

/// Whether `c` can start a word.
fn word_start(c: char) -> (r: bool)
    ensures
        r == is_word_start(c),
{
    ('a' <= c && c <= 'z') || ('A' <= c && c <= 'Z') || c == '_'
}

/// Whether `c` can continue a word.
fn word_part(c: char) -> (r: bool)
    ensures
        r == is_word_part(c),
{
    word_start(c) || digit(c)
}

/// The end of the run of word characters that starts at `i`.
fn scan_word(chars: &Vec<char>, i: usize) -> (end: usize)
    requires
        i <= chars.len(),
    ensures
        end == word_end(chars@, i as nat),
        i <= end <= chars.len(),
{
    let mut j = i;
    while j < chars.len() && word_part(chars[j])
        invariant
            i <= j <= chars.len(),
            word_end(chars@, i as nat) == word_end(chars@, j as nat),
        decreases chars.len() - j,
    {
        j += 1;
    }
    j
}

/// The end of the run of digits that starts at `i`.
fn scan_digits(chars: &Vec<char>, i: usize) -> (end: usize)
    requires
        i <= chars.len(),
    ensures
        end == digits_end(chars@, i as nat),
        i <= end <= chars.len(),
{
    let mut j = i;
    while j < chars.len() && digit(chars[j])
        invariant
            i <= j <= chars.len(),
            digits_end(chars@, i as nat) == digits_end(chars@, j as nat),
        decreases chars.len() - j,
    {
        j += 1;
    }
    j
}

/// The end of the number that starts at `i`.
fn scan_number(chars: &Vec<char>, i: usize) -> (end: usize)
    requires
        i <= chars.len(),
    ensures
        end == number_end(chars@, i as nat),
        i <= end <= chars.len(),
{
    let whole = scan_digits(chars, i);
    if whole < chars.len() && chars.len() - whole > 1 && chars[whole] == '.' && digit(
        chars[whole + 1],
    ) {
        scan_digits(chars, whole + 1)
    } else {
        whole
    }
}

/// The position of the first `quote` at or after `i`, or the length of the
/// text.
fn scan_quote(chars: &Vec<char>, i: usize, quote: char) -> (end: usize)
    requires
        i <= chars.len(),
    ensures
        end == quote_at(chars@, i as nat, quote),
        i <= end <= chars.len(),
{
    let mut j = i;
    while j < chars.len() && chars[j] != quote
        invariant
            i <= j <= chars.len(),
            quote_at(chars@, i as nat, quote) == quote_at(chars@, j as nat, quote),
        decreases chars.len() - j,
    {
        j += 1;
    }
    j
}

/// The characters from `from` up to `to`, as a string.
fn text_between(chars: &Vec<char>, from: usize, to: usize) -> (r: String)
    requires
        from <= to <= chars.len(),
    ensures
        r@ == chars@.subrange(from as int, to as int),
{
    let mut out = String::new();
    let mut j = from;
    while j < to
        invariant
            from <= j <= to <= chars.len(),
            out@ == chars@.subrange(from as int, j as int),
        decreases to - j,
    {
        out.push(chars[j]);
        j += 1;
        assert(out@ =~= chars@.subrange(from as int, j as int));
    }
    out
}

/// Whether the characters from `from` up to `to`, folded to lower case,
/// are `word`.
fn spells(chars: &Vec<char>, from: usize, to: usize, word: &str) -> (r: bool)
    requires
        from <= to <= chars.len(),
    ensures
        r == (lowered(chars@.subrange(from as int, to as int)) == word@),
{
    let n = word.unicode_len();
    if n != to - from {
        return false;
    }
    let ghost have = lowered(chars@.subrange(from as int, to as int));
    let mut k: usize = 0;
    while k < n
        invariant
            k <= n,
            n == to - from,
            n == word@.len(),
            from <= to <= chars.len(),
            have == lowered(chars@.subrange(from as int, to as int)),
            forall|j: int| 0 <= j < k ==> have[j] == word@[j],
        decreases n - k,
    {
        if to_lower(chars[from + k]) != word.get_char(k) {
            assert(have[k as int] != word@[k as int]);
            return false;
        }
        k += 1;
    }
    assert(have =~= word@);
    true
}

/// The keyword that the characters from `from` up to `to` spell, if any.
fn keyword_between(chars: &Vec<char>, from: usize, to: usize) -> (r: Option<Keyword>)
    requires
        from <= to <= chars.len(),
    ensures
        r == keyword_of(chars@.subrange(from as int, to as int)),
{
    if spells(chars, from, to, "select") {
        Some(Keyword::Select)
    } else if spells(chars, from, to, "from") {
        Some(Keyword::From)
    } else if spells(chars, from, to, "where") {
        Some(Keyword::Where)
    } else if spells(chars, from, to, "group") {
        Some(Keyword::Group)
    } else if spells(chars, from, to, "by") {
        Some(Keyword::By)
    } else if spells(chars, from, to, "order") {
        Some(Keyword::Order)
    } else if spells(chars, from, to, "limit") {
        Some(Keyword::Limit)
    } else if spells(chars, from, to, "and") {
        Some(Keyword::And)
    } else if spells(chars, from, to, "or") {
        Some(Keyword::Or)
    } else if spells(chars, from, to, "not") {
        Some(Keyword::Not)
    } else if spells(chars, from, to, "is") {
        Some(Keyword::Is)
    } else if spells(chars, from, to, "null") {
        Some(Keyword::Null)
    } else if spells(chars, from, to, "between") {
        Some(Keyword::Between)
    } else if spells(chars, from, to, "in") {
        Some(Keyword::In)
    } else if spells(chars, from, to, "as") {
        Some(Keyword::As)
    } else if spells(chars, from, to, "create") {
        Some(Keyword::Create)
    } else if spells(chars, from, to, "table") {
        Some(Keyword::Table)
    } else if spells(chars, from, to, "insert") {
        Some(Keyword::Insert)
    } else if spells(chars, from, to, "update") {
        Some(Keyword::Update)
    } else if spells(chars, from, to, "delete") {
        Some(Keyword::Delete)
    } else if spells(chars, from, to, "int") {
        Some(Keyword::Int)
    } else if spells(chars, from, to, "varchar") {
        Some(Keyword::Varchar)
    } else if spells(chars, from, to, "true") {
        Some(Keyword::True)
    } else if spells(chars, from, to, "false") {
        Some(Keyword::False)
    } else if spells(chars, from, to, "asc") {
        Some(Keyword::Asc)
    } else if spells(chars, from, to, "desc") {
        Some(Keyword::Desc)
    } else {
        None
    }
}

/// The token that starts at position `i`, and the position after it.
/// `location` is the location of position `i`, for the error.
fn lexeme(chars: &Vec<char>, i: usize, location: Location) -> (r: Result<
    (Token, usize),
    TokeniserError,
>)
    requires
        i < chars.len(),
        location == location_of(chars@, i as nat),
    ensures
        match lexeme_at(chars@, i as nat) {
            Ok((token, end)) => r matches Ok((t, e)) && t@ == token && e == end && i < e
                <= chars.len(),
            Err(error) => r matches Err(e) && e == error,
        },
{
    proof {
        lemma_lexeme_advances(chars@, i as nat);
    }
    let c = chars[i];
    let second = i + 1 < chars.len();
    if word_start(c) {
        let end = scan_word(chars, i + 1);
        match keyword_between(chars, i, end) {
            Some(k) => Ok((Token::Keyword(k), end)),
            None => Ok((Token::Ident(text_between(chars, i, end)), end)),
        }
    } else if digit(c) {
        let end = scan_number(chars, i);
        Ok((Token::NumberLiteral(text_between(chars, i, end)), end))
    } else if c == '"' || c == '\'' {
        let close = scan_quote(chars, i + 1, c);
        if close < chars.len() {
            Ok((Token::StringLiteral(text_between(chars, i + 1, close)), close + 1))
        } else {
            Err(TokeniserError::UnterminatedString { location })
        }
    } else if c == '<' {
        if second && chars[i + 1] == '=' {
            Ok((Token::Le, i + 2))
        } else if second && chars[i + 1] == '>' {
            Ok((Token::Neq, i + 2))
        } else {
            Ok((Token::Lt, i + 1))
        }
    } else if c == '>' {
        if second && chars[i + 1] == '=' {
            Ok((Token::Ge, i + 2))
        } else {
            Ok((Token::Gt, i + 1))
        }
    } else if c == '=' {
        Ok((Token::Eq, i + 1))
    } else if c == '.' {
        Ok((Token::Dot, i + 1))
    } else if c == ',' {
        Ok((Token::Comma, i + 1))
    } else if c == '(' {
        Ok((Token::LParen, i + 1))
    } else if c == ')' {
        Ok((Token::RParen, i + 1))
    } else if c == ';' {
        Ok((Token::Semicolon, i + 1))
    } else if c == '*' {
        Ok((Token::Asterisk, i + 1))
    } else {
        Err(TokeniserError::UnexpectedChar { found: c, location })
    }
}

/// A tokeniser over a text.
pub struct Tokeniser {
    chars: Vec<char>,
}

impl View for Tokeniser {
    type V = Seq<char>;

    closed spec fn view(&self) -> Seq<char> {
        self.chars@
    }
}

impl Tokeniser {
    /// A tokeniser over `src`.
    pub fn new(src: &str) -> (t: Tokeniser)
        ensures
            t@ == src@,
    {
        Tokeniser { chars: crate::text::chars(src) }
    }

    /// The tokens of the text, each with the location of its first
    /// character, or the first error in the text.
    pub fn collect_with_location(&self) -> (r: Result<Vec<TokenWithLocation>, TokeniserError>)
        ensures
            match tokens_of(self@) {
                Ok(tokens) => r matches Ok(v) && v.deep_view() == tokens,
                Err(error) => r matches Err(e) && e == error,
            },
    {
        let ghost s = self.chars@;
        let n = self.chars.len();
        let mut out: Vec<TokenWithLocation> = Vec::new();
        let mut i: usize = 0;
        let mut newlines: usize = 0;
        let mut start: usize = 0;
        proof {
            assert(out.deep_view() =~= Seq::empty());
            lemma_prepended_nothing(lex(s, 0));
        }
        while i < n
            invariant
                i <= n,
                n == s.len(),
                s == self.chars@,
                newlines == newlines_before(s, i as nat),
                start == line_start(s, i as nat),
                newlines <= i,
                start <= i,
                lex(s, 0) == prepended(out.deep_view(), lex(s, i as nat)),
            decreases n - i,
        {
            let c = self.chars[i];
            if space(c) {
                if c == '\n' {
                    newlines += 1;
                    start = i + 1;
                }
                i += 1;
            } else {
                let location = Location { line: newlines + 1, column: i - start + 1 };
                let ghost before = out.deep_view();
                let (token, end) = lexeme(&self.chars, i, location)?;
                let (lines, begin) = track(&self.chars, i, end, newlines, start);
                let ghost item = SpecLocated { token: token@, location };
                out.push(TokenWithLocation(token, location));
                proof {
                    assert(out.deep_view() =~= before + seq![item]);
                    lemma_prepended_twice(before, seq![item], lex(s, end as nat));
                }
                newlines = lines;
                start = begin;
                i = end;
            }
        }
        proof {
            assert(out.deep_view() + Seq::empty() =~= out.deep_view());
        }
        Ok(out)
    }
}

/// The count of line feeds and the start of the line at position `to`,
/// from those at position `from`.
fn track(chars: &Vec<char>, from: usize, to: usize, newlines: usize, start: usize) -> (r: (
    usize,
    usize,
))
    requires
        from <= to <= chars.len(),
        newlines == newlines_before(chars@, from as nat),
        start == line_start(chars@, from as nat),
        newlines <= from,
        start <= from,
    ensures
        r.0 == newlines_before(chars@, to as nat),
        r.1 == line_start(chars@, to as nat),
        r.0 <= to,
        r.1 <= to,
{
    let mut lines = newlines;
    let mut begin = start;
    let mut j = from;
    while j < to
        invariant
            from <= j <= to <= chars.len(),
            lines == newlines_before(chars@, j as nat),
            begin == line_start(chars@, j as nat),
            lines <= j,
            begin <= j,
        decreases to - j,
    {
        if chars[j] == '\n' {
            lines += 1;
            begin = j + 1;
        }
        j += 1;
    }
    (lines, begin)
}

/// Putting nothing before the tokens that follow leaves them as they are.
proof fn lemma_prepended_nothing(rest: Result<Seq<SpecLocated>, TokeniserError>)
    ensures
        prepended(Seq::empty(), rest) == rest,
{
    match rest {
        Ok(tokens) => {
            assert(Seq::<SpecLocated>::empty() + tokens =~= tokens);
        },
        Err(_) => {},
    }
}

/// Putting tokens before tokens that already have tokens before them is
/// putting all of them before.
proof fn lemma_prepended_twice(
    front: Seq<SpecLocated>,
    middle: Seq<SpecLocated>,
    rest: Result<Seq<SpecLocated>, TokeniserError>,
)
    ensures
        prepended(front, prepended(middle, rest)) == prepended(front + middle, rest),
{
    match rest {
        Ok(tokens) => {
            assert(front + (middle + tokens) =~= (front + middle) + tokens);
        },
        Err(_) => {},
    }
}

} // verus!
