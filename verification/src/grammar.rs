//! The grammar of formula text, as functions on sequences of characters.
//!
//! Every function here takes the whole input `s` and an index into it, and
//! says where a piece of syntax that starts at the index ends, or which token
//! it makes. Nothing is consumed: a shape that does not match simply has no
//! end, and another shape can be tried on the same index.
use vstd::prelude::*;
use crate::chars::{is_digit, is_letter, is_nonzero_digit, is_upper, CharClass};
use crate::text::uppercase_text;
use crate::token::{LexerErrorView, TokenView};

verus! {

/// What reading one token gives: the token or the error, and the index at
/// which reading stopped.
pub struct Scan {
    pub outcome: Result<TokenView, LexerErrorView>,
    pub end: int,
}

/// What tokenizing gives: the tokens or the first error, and the index at
/// which reading stopped.
pub struct Tokenization {
    pub outcome: Result<Seq<TokenView>, LexerErrorView>,
    pub end: int,
}

/// Whether `s` has the character `c` at index `i`.
pub open spec fn has_at(s: Seq<char>, i: int, c: char) -> bool {
    0 <= i < s.len() && s[i] == c
}

/// The index at which the longest run of characters of `class` that starts
/// at `from` ends: the first index from `from` on that is past the input or
/// holds a character outside the class.
pub open spec fn run_end(s: Seq<char>, from: int, class: CharClass) -> int
    decreases s.len() - from,
{
    if 0 <= from < s.len() && class.contains(s[from]) {
        run_end(s, from + 1, class)
    } else {
        from
    }
}

/// The index after the anchor `$` at `i`, or `i` where there is none.
pub open spec fn after_anchor(s: Seq<char>, i: int) -> int {
    if has_at(s, i, '$') {
        i + 1
    } else {
        i
    }
}

/// Where an anchored run, `$?` and then characters of `class`, that starts
/// at `p` ends. With `A` to `Z` for the class this is a column, with the
/// digits a row number as a range of rows takes it.
pub open spec fn anchored_run_end(s: Seq<char>, p: int, class: CharClass) -> int {
    run_end(s, after_anchor(s, p), class)
}

/// Whether an anchored run of `class` starts at `p`: at least one character
/// of the class stands after the optional anchor.
pub open spec fn has_anchored_run(s: Seq<char>, p: int, class: CharClass) -> bool {
    after_anchor(s, p) < anchored_run_end(s, p, class)
}

/// Where reading a column, `$?[A-Z]+`, at `p` stops.
pub open spec fn column_end(s: Seq<char>, p: int) -> int {
    anchored_run_end(s, p, CharClass::Uppercase)
}

/// Whether a column starts at `p`: at least one letter after the optional
/// anchor.
pub open spec fn has_column(s: Seq<char>, p: int) -> bool {
    has_anchored_run(s, p, CharClass::Uppercase)
}

/// Whether a row, `$?[1-9][0-9]*`, starts at `p`: after the optional anchor
/// stands a digit other than `0`.
pub open spec fn has_row(s: Seq<char>, p: int) -> bool {
    let a = after_anchor(s, p);
    0 <= a < s.len() && is_nonzero_digit(s[a])
}

/// Where reading a row at `p` stops. Without a row that is after the
/// optional anchor; the anchor alone is no row.
pub open spec fn row_end(s: Seq<char>, p: int) -> int {
    if has_row(s, p) {
        run_end(s, after_anchor(s, p) + 1, CharClass::Digit)
    } else {
        after_anchor(s, p)
    }
}

/// Where a cell reference, `$?[A-Z]+$?[1-9][0-9]*`, that starts at `p` ends;
/// `None` where none starts there.
pub open spec fn cell_end(s: Seq<char>, p: int) -> Option<int> {
    if has_column(s, p) && has_row(s, column_end(s, p)) {
        Some(row_end(s, column_end(s, p)))
    } else {
        None
    }
}

/// Where a range, two anchored runs of `class` joined by `:`, that starts at
/// `p` ends; `None` where none starts there.
pub open spec fn range_end(s: Seq<char>, p: int, class: CharClass) -> Option<int> {
    let colon = anchored_run_end(s, p, class);
    if has_anchored_run(s, p, class) && has_at(s, colon, ':') && has_anchored_run(
        s,
        colon + 1,
        class,
    ) {
        Some(anchored_run_end(s, colon + 1, class))
    } else {
        None
    }
}

/// Where a range of columns, `$?[A-Z]+:$?[A-Z]+`, that starts at `p` ends;
/// `None` where none starts there.
pub open spec fn vertical_range_end(s: Seq<char>, p: int) -> Option<int> {
    range_end(s, p, CharClass::Uppercase)
}

/// Where a range of rows, `$?[0-9]+:$?[0-9]+`, that starts at `p` ends;
/// `None` where none starts there. Unlike the row of a cell, the rows of a
/// range may start with `0`.
pub open spec fn horizontal_range_end(s: Seq<char>, p: int) -> Option<int> {
    range_end(s, p, CharClass::Digit)
}

/// The reference that starts with a column at `p`: a range of columns, or
/// else a cell. The two never compete, since after the first column a range
/// has `:` where a cell has its row. `None` where neither starts at `p`.
pub open spec fn column_reference_at(s: Seq<char>, p: int) -> Option<Scan> {
    match vertical_range_end(s, p) {
        Some(end) => Some(Scan { outcome: Ok(TokenView::VerticalRange(s.subrange(p, end))), end }),
        None => match cell_end(s, p) {
            Some(end) => Some(Scan { outcome: Ok(TokenView::Cell(s.subrange(p, end))), end }),
            None => None,
        },
    }
}

/// The range of rows that starts at `p`; `None` where none does.
pub open spec fn row_reference_at(s: Seq<char>, p: int) -> Option<Scan> {
    match horizontal_range_end(s, p) {
        Some(end) => Some(
            Scan { outcome: Ok(TokenView::HorizontalRange(s.subrange(p, end))), end },
        ),
        None => None,
    }
}

/// Where the integer part and the optional fraction of a number that starts
/// at `p` end: `[0-9]*` and then, if a `.` follows, the `.` and `[0-9]*`.
pub open spec fn mantissa_end(s: Seq<char>, p: int) -> int {
    let dot = run_end(s, p, CharClass::Digit);
    if has_at(s, dot, '.') {
        run_end(s, dot + 1, CharClass::Digit)
    } else {
        dot
    }
}

/// Whether the number that starts at `p` has an exponent marker, `e` or `E`,
/// after its mantissa.
pub open spec fn has_exponent(s: Seq<char>, p: int) -> bool {
    has_at(s, mantissa_end(s, p), 'e') || has_at(s, mantissa_end(s, p), 'E')
}

/// Where reading a number at `p` stops: after the mantissa, or after the
/// exponent marker and the digits that follow it.
pub open spec fn number_end(s: Seq<char>, p: int) -> int {
    if has_exponent(s, p) {
        run_end(s, mantissa_end(s, p) + 1, CharClass::Digit)
    } else {
        mantissa_end(s, p)
    }
}

/// Whether what is read as a number at `p` is a numeric literal: an exponent
/// marker, where there is one, is followed by at least one digit.
pub open spec fn number_is_valid(s: Seq<char>, p: int) -> bool {
    has_exponent(s, p) ==> mantissa_end(s, p) + 1 < number_end(s, p)
}

/// The numeric literal at `p`, where `s[p]` is a digit: the text read, as a
/// number where it is one and as the invalid-number error where it is not.
pub open spec fn number_at(s: Seq<char>, p: int) -> Scan {
    let end = number_end(s, p);
    let text = s.subrange(p, end);
    if number_is_valid(s, p) {
        Scan { outcome: Ok(TokenView::Number(text)), end }
    } else {
        Scan { outcome: Err(LexerErrorView::InvalidNumber(text)), end }
    }
}

/// Puts the decoded text `before` in front of the text of a string literal's
/// remainder.
pub open spec fn string_after(before: Seq<char>, rest: Option<(Seq<char>, int)>) -> Option<
    (Seq<char>, int),
> {
    match rest {
        Some((text, end)) => Some((before + text, end)),
        None => None,
    }
}

/// The rest of a string literal from index `i` inside it: the decoded text up
/// to the closing quote, and the index after that quote. A doubled quote
/// stands for one quote and does not close; any other character stands for
/// itself. `None` where the input ends before a closing quote.
pub open spec fn string_rest(s: Seq<char>, i: int) -> Option<(Seq<char>, int)>
    decreases s.len() - i,
{
    if !(0 <= i < s.len()) {
        None
    } else if s[i] != '"' {
        string_after(seq![s[i]], string_rest(s, i + 1))
    } else if has_at(s, i + 1, '"') {
        string_after(seq!['"'], string_rest(s, i + 2))
    } else {
        Some((Seq::<char>::empty(), i + 1))
    }
}

/// The string literal at `q`, where `s[q]` is the opening quote. Without a
/// closing quote the whole rest of the input is read and the literal is
/// unterminated.
pub open spec fn string_at(s: Seq<char>, q: int) -> Scan {
    match string_rest(s, q + 1) {
        Some((text, end)) => Scan { outcome: Ok(TokenView::String(text)), end },
        None => Scan { outcome: Err(LexerErrorView::UnterminatedString), end: s.len() as int },
    }
}

/// The text of the reference error, without its `#`.
pub open spec fn ref_text() -> Seq<char> {
    seq!['R', 'E', 'F', '!']
}

/// The error literal at `q`, where `s[q]` is `#`: the `#` and the longest run
/// of error-text characters after it. `#REF!` is the reference error; any
/// other text is a generic error literal that carries the text with its `#`.
pub open spec fn error_literal_at(s: Seq<char>, q: int) -> Scan {
    let end = run_end(s, q + 1, CharClass::ErrorText);
    if s.subrange(q + 1, end) =~= ref_text() {
        Scan { outcome: Ok(TokenView::ErrorRef), end }
    } else {
        Scan { outcome: Ok(TokenView::Error(s.subrange(q, end))), end }
    }
}

/// The uppercase text of the keyword for true.
pub open spec fn true_text() -> Seq<char> {
    seq!['T', 'R', 'U', 'E']
}

/// The uppercase text of the keyword for false.
pub open spec fn false_text() -> Seq<char> {
    seq!['F', 'A', 'L', 'S', 'E']
}

/// What a word makes, given its uppercase form and its first character: a
/// boolean where it is a keyword, and otherwise the unexpected-character
/// error for the character it starts with.
pub open spec fn keyword(folded: Seq<char>, first: char) -> Result<TokenView, LexerErrorView> {
    if folded =~= true_text() {
        Ok(TokenView::Bool(true))
    } else if folded =~= false_text() {
        Ok(TokenView::Bool(false))
    } else {
        Err(LexerErrorView::UnexpectedChar(first))
    }
}

/// The word at `q`: the longest run of identifier characters from `q`,
/// compared to the keywords without regard to case. Whatever it makes, the
/// whole word is read.
pub open spec fn word_at(s: Seq<char>, q: int) -> Scan {
    let end = run_end(s, q, CharClass::Identifier);
    Scan { outcome: keyword(uppercase_text(s.subrange(q, end)), s[q]), end }
}

/// The token that the character `c` makes by itself, whatever follows it.
pub open spec fn punctuation(c: char) -> Option<TokenView> {
    if c == '+' {
        Some(TokenView::Plus)
    } else if c == '-' {
        Some(TokenView::Minus)
    } else if c == '*' {
        Some(TokenView::Multiply)
    } else if c == '/' {
        Some(TokenView::Divide)
    } else if c == '^' {
        Some(TokenView::Power)
    } else if c == '&' {
        Some(TokenView::Concatenate)
    } else if c == '=' {
        Some(TokenView::Equal)
    } else if c == '{' {
        Some(TokenView::LeftBrace)
    } else if c == '}' {
        Some(TokenView::RightBrace)
    } else if c == ',' {
        Some(TokenView::Comma)
    } else if c == ';' {
        Some(TokenView::Semicolon)
    } else if c == ':' {
        Some(TokenView::Colon)
    } else {
        None
    }
}

/// The comparison operator at `q`, where `s[q]` is `<` or `>`: the longest of
/// `<=`, `<>`, `<` and of `>=`, `>`.
pub open spec fn comparison_at(s: Seq<char>, q: int) -> Scan {
    if s[q] == '<' {
        if has_at(s, q + 1, '=') {
            Scan { outcome: Ok(TokenView::LessEqual), end: q + 2 }
        } else if has_at(s, q + 1, '>') {
            Scan { outcome: Ok(TokenView::NotEqual), end: q + 2 }
        } else {
            Scan { outcome: Ok(TokenView::Less), end: q + 1 }
        }
    } else {
        if has_at(s, q + 1, '=') {
            Scan { outcome: Ok(TokenView::GreaterEqual), end: q + 2 }
        } else {
            Scan { outcome: Ok(TokenView::Greater), end: q + 1 }
        }
    }
}

/// The token that starts at `q`, an index of `s` that holds no whitespace.
///
/// The first character decides which shapes are tried, and in which order:
/// - an operator or delimiter stands for itself;
/// - `"` opens a string literal and `#` an error literal;
/// - a digit starts a range of rows, or else a number;
/// - `$` starts a reference by column, or else a range of rows, or else is
///   unexpected;
/// - a letter `A` to `Z` starts a reference by column, or else a word;
/// - any other letter starts a word;
/// - anything else is unexpected.
/// Where reading fails on the first character, nothing is read.
pub open spec fn token_at(s: Seq<char>, q: int) -> Scan {
    let c = s[q];
    if punctuation(c) is Some {
        Scan { outcome: Ok(punctuation(c)->0), end: q + 1 }
    } else if c == '<' || c == '>' {
        comparison_at(s, q)
    } else if c == '"' {
        string_at(s, q)
    } else if c == '#' {
        error_literal_at(s, q)
    } else if is_digit(c) {
        match row_reference_at(s, q) {
            Some(scan) => scan,
            None => number_at(s, q),
        }
    } else if c == '$' {
        match column_reference_at(s, q) {
            Some(scan) => scan,
            None => match row_reference_at(s, q) {
                Some(scan) => scan,
                None => Scan { outcome: Err(LexerErrorView::UnexpectedChar(c)), end: q },
            },
        }
    } else if is_upper(c) {
        match column_reference_at(s, q) {
            Some(scan) => scan,
            None => word_at(s, q),
        }
    } else if is_letter(c) {
        word_at(s, q)
    } else {
        Scan { outcome: Err(LexerErrorView::UnexpectedChar(c)), end: q }
    }
}

/// The next token from `p` on: whitespace is skipped, and then the input is
/// at its end, which makes the sentinel, or a token starts.
pub open spec fn next_token_at(s: Seq<char>, p: int) -> Scan {
    let q = run_end(s, p, CharClass::Whitespace);
    if 0 <= q < s.len() {
        token_at(s, q)
    } else {
        Scan { outcome: Ok(TokenView::Eof), end: q }
    }
}

/// Puts the tokens `before` in front of what tokenizing the rest gave. An
/// error in the rest is the error of the whole: the tokens before it are not
/// kept.
pub open spec fn tokens_after(before: Seq<TokenView>, rest: Tokenization) -> Tokenization {
    match rest.outcome {
        Ok(tokens) => Tokenization { outcome: Ok(before + tokens), end: rest.end },
        Err(e) => rest,
    }
}

/// Whether `tokens` ends with the sentinel and holds it nowhere else.
pub open spec fn has_one_sentinel_last(tokens: Seq<TokenView>) -> bool {
    &&& tokens.len() > 0
    &&& tokens.last() == TokenView::Eof
    &&& forall|i: int| 0 <= i < tokens.len() - 1 ==> #[trigger] tokens[i] != TokenView::Eof
}

/// Tokenizing `s` from `p` on: token after token up to and including the
/// sentinel, or up to the first error.
pub open spec fn tokens_from(s: Seq<char>, p: int) -> Tokenization
    decreases s.len() - p,
    via tokens_from_decreases
{
    let first = next_token_at(s, p);
    match first.outcome {
        Err(e) => Tokenization { outcome: Err(e), end: first.end },
        Ok(TokenView::Eof) => Tokenization {
            outcome: Ok(seq![TokenView::Eof]),
            end: first.end,
        },
        Ok(t) => tokens_after(seq![t], tokens_from(s, first.end)),
    }
}

#[via_fn]
proof fn tokens_from_decreases(s: Seq<char>, p: int) {
    lemma_token_consumes(s, p);
}

/// A run starts at `from` or later and stays inside the input.
pub proof fn lemma_run_end_bounds(s: Seq<char>, from: int, class: CharClass)
    ensures
        from <= run_end(s, from, class),
        from <= s.len() ==> run_end(s, from, class) <= s.len(),
    decreases s.len() - from,
{
    if 0 <= from < s.len() && class.contains(s[from]) {
        lemma_run_end_bounds(s, from + 1, class);
    }
}

/// Every character of a run is of its class, and the run is as long as it
/// can be: it ends at the end of the input or before a character outside the
/// class.
pub proof fn lemma_run_end_maximal(s: Seq<char>, from: int, class: CharClass)
    requires
        0 <= from,
    ensures
        forall|i: int| from <= i < run_end(s, from, class) ==> class.contains(#[trigger] s[i]),
        run_end(s, from, class) < s.len() ==> !class.contains(s[run_end(s, from, class)]),
    decreases s.len() - from,
{
    if from < s.len() && class.contains(s[from]) {
        lemma_run_end_maximal(s, from + 1, class);
    }
}

/// The end of a run is the only index with the two properties of
/// [`lemma_run_end_maximal`].
pub proof fn lemma_run_end_unique(s: Seq<char>, from: int, class: CharClass, end: int)
    requires
        0 <= from <= end <= s.len(),
        forall|i: int| from <= i < end ==> class.contains(#[trigger] s[i]),
        end < s.len() ==> !class.contains(s[end]),
    ensures
        run_end(s, from, class) == end,
    decreases end - from,
{
    if from < end {
        lemma_run_end_unique(s, from + 1, class, end);
    }
}

/// A string literal's closing quote lies inside the input, after the index
/// from which the literal was read.
pub proof fn lemma_string_rest_bounds(s: Seq<char>, i: int)
    ensures
        string_rest(s, i) matches Some((_, end)) ==> i < end <= s.len(),
    decreases s.len() - i,
{
    if 0 <= i < s.len() {
        if s[i] != '"' {
            lemma_string_rest_bounds(s, i + 1);
        } else if has_at(s, i + 1, '"') {
            lemma_string_rest_bounds(s, i + 2);
        }
    }
}

/// Reading a token at an index of the input stops inside the input, at that
/// index or after it, and every token is at least one character long.
pub proof fn lemma_token_at_bounds(s: Seq<char>, q: int)
    requires
        0 <= q < s.len(),
    ensures
        q <= token_at(s, q).end <= s.len(),
        token_at(s, q).outcome is Ok ==> q < token_at(s, q).end,
        token_at(s, q).outcome != Ok::<TokenView, LexerErrorView>(TokenView::Eof),
{
    lemma_run_end_bounds(s, q + 1, CharClass::Identifier);
    lemma_run_end_bounds(s, q + 1, CharClass::ErrorText);
    lemma_string_rest_bounds(s, q + 1);
    lemma_range_bounds(s, q, CharClass::Uppercase);
    lemma_range_bounds(s, q, CharClass::Digit);
    lemma_cell_bounds(s, q);
    if is_digit(s[q]) {
        lemma_number_bounds(s, q);
    }
}

/// A range that starts at an index of the input ends after that index,
/// inside the input.
pub proof fn lemma_range_bounds(s: Seq<char>, p: int, class: CharClass)
    requires
        0 <= p < s.len(),
    ensures
        range_end(s, p, class) matches Some(end) ==> p < end <= s.len(),
{
    lemma_run_end_bounds(s, after_anchor(s, p), class);
    let colon = anchored_run_end(s, p, class);
    lemma_run_end_bounds(s, after_anchor(s, colon + 1), class);
}

/// A cell reference that starts at an index of the input ends after that
/// index, inside the input.
pub proof fn lemma_cell_bounds(s: Seq<char>, p: int)
    requires
        0 <= p < s.len(),
    ensures
        cell_end(s, p) matches Some(end) ==> p < end <= s.len(),
{
    lemma_run_end_bounds(s, after_anchor(s, p), CharClass::Uppercase);
    lemma_run_end_bounds(s, after_anchor(s, column_end(s, p)) + 1, CharClass::Digit);
}

/// Reading a number at a digit stops after that digit, inside the input.
pub proof fn lemma_number_bounds(s: Seq<char>, p: int)
    requires
        0 <= p < s.len(),
        is_digit(s[p]),
    ensures
        p < mantissa_end(s, p) <= number_end(s, p) <= s.len(),
{
    let dot = run_end(s, p, CharClass::Digit);
    lemma_run_end_bounds(s, p + 1, CharClass::Digit);
    lemma_run_end_bounds(s, dot + 1, CharClass::Digit);
    lemma_run_end_bounds(s, mantissa_end(s, p) + 1, CharClass::Digit);
}

/// Every token but the sentinel takes at least one character, and reading
/// never leaves the input.
pub proof fn lemma_token_consumes(s: Seq<char>, p: int)
    ensures
        p <= next_token_at(s, p).end,
        p <= s.len() ==> next_token_at(s, p).end <= s.len(),
        next_token_at(s, p).outcome matches Ok(t) ==> t != TokenView::Eof ==> p < next_token_at(
            s,
            p,
        ).end <= s.len(),
{
    let q = run_end(s, p, CharClass::Whitespace);
    lemma_run_end_bounds(s, p, CharClass::Whitespace);
    if 0 <= q < s.len() {
        lemma_token_at_bounds(s, q);
    }
}

/// Tokenizing stops at or after the index it started from, inside the
/// input. Where it succeeds it has read the input to its end, and its tokens
/// end with the sentinel, which stands nowhere before.
pub proof fn lemma_tokens_from_bounds(s: Seq<char>, p: int)
    requires
        0 <= p <= s.len(),
    ensures
        p <= tokens_from(s, p).end <= s.len(),
        tokens_from(s, p).outcome matches Ok(tokens) ==> has_one_sentinel_last(tokens)
            && tokens_from(s, p).end == s.len(),
    decreases s.len() - p,
{
    let first = next_token_at(s, p);
    lemma_token_consumes(s, p);
    match first.outcome {
        Err(e) => {},
        Ok(TokenView::Eof) => {
            lemma_run_end_bounds(s, p, CharClass::Whitespace);
            if 0 <= first.end < s.len() {
                lemma_token_at_bounds(s, first.end);
            }
        },
        Ok(t) => {
            lemma_tokens_from_bounds(s, first.end);
            match tokens_from(s, first.end).outcome {
                Ok(rest) => {
                    let tokens = seq![t] + rest;
                    assert(tokens.last() == rest.last());
                    assert forall|i: int| 0 <= i < tokens.len() - 1 implies #[trigger] tokens[i]
                        != TokenView::Eof by {
                        if i > 0 {
                            assert(tokens[i] == rest[i - 1]);
                        }
                    }
                },
                Err(e) => {},
            }
        },
    }
}

} // verus!
