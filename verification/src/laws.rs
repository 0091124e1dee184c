//! Properties of the grammar and of the tokenizer, proved once for every
//! input.
//!
//! The shapes of the grammar are stated here a second time, as predicates on
//! a whole text in the manner of a regular expression. The laws tie the two
//! statements together: a text of a shape tokenizes to the one token of that
//! shape, and the text that a token carries is of the token's shape.
use vstd::prelude::*;
use crate::chars::{is_digit, is_nonzero_digit, is_upper, CharClass};
use crate::grammar::{
    after_anchor, anchored_run_end, cell_end, column_end, has_at, horizontal_range_end,
    lemma_run_end_bounds, lemma_run_end_maximal, lemma_run_end_unique, mantissa_end,
    next_token_at, number_at, number_end, number_is_valid, range_end, row_end, run_end,
    string_rest, tokens_from, vertical_range_end,
};
use crate::lexer::Lexer;
use crate::token::{tokens_outcome, LexerError, LexerErrorView, Token, TokenView};

verus! {

/// Whether the whole of `s` is a cell reference, `$?[A-Z]+$?[1-9][0-9]*`,
/// whose letters start at `letters`, whose row starts at `row` and whose
/// digits start at `digits`.
pub open spec fn is_cell_text_at(s: Seq<char>, letters: int, row: int, digits: int) -> bool {
    &&& letters == 0 || (letters == 1 && s[0] == '$')
    &&& letters < row <= digits < s.len()
    &&& forall|i: int| letters <= i < row ==> is_upper(#[trigger] s[i])
    &&& digits == row || (digits == row + 1 && s[row] == '$')
    &&& is_nonzero_digit(s[digits])
    &&& forall|i: int| digits < i < s.len() ==> is_digit(#[trigger] s[i])
}

/// Whether the whole of `s` is a cell reference: an optional `$`, one or
/// more letters `A` to `Z`, an optional `$`, a digit `1` to `9`, and digits
/// to the end.
pub open spec fn is_cell_text(s: Seq<char>) -> bool {
    exists|letters: int, row: int, digits: int| is_cell_text_at(s, letters, row, digits)
}

/// Whether the whole of `s` is a range over `class`, whose first side has
/// its characters of the class from `first` on, whose `:` is at `colon` and
/// whose second side has its characters of the class from `second` on.
pub open spec fn is_range_text_at(
    s: Seq<char>,
    class: CharClass,
    first: int,
    colon: int,
    second: int,
) -> bool {
    &&& first == 0 || (first == 1 && s[0] == '$')
    &&& first < colon < second < s.len()
    &&& forall|i: int| first <= i < colon ==> class.contains(#[trigger] s[i])
    &&& s[colon] == ':'
    &&& second == colon + 1 || (second == colon + 2 && s[colon + 1] == '$')
    &&& forall|i: int| second <= i < s.len() ==> class.contains(#[trigger] s[i])
}

/// Whether the whole of `s` is a range over `class`: an optional `$`, one
/// or more characters of the class, `:`, an optional `$`, and one or more
/// characters of the class to the end.
pub open spec fn is_range_text(s: Seq<char>, class: CharClass) -> bool {
    exists|first: int, colon: int, second: int| is_range_text_at(s, class, first, colon, second)
}

/// Whether the whole of `s` is a range of columns, `$?[A-Z]+:$?[A-Z]+`.
pub open spec fn is_column_range_text(s: Seq<char>) -> bool {
    is_range_text(s, CharClass::Uppercase)
}

/// Whether the whole of `s` is a range of rows, `$?[0-9]+:$?[0-9]+`.
pub open spec fn is_row_range_text(s: Seq<char>) -> bool {
    is_range_text(s, CharClass::Digit)
}

/// Whether the whole of `s` is a numeric literal,
/// `[0-9]+ ('.' [0-9]*)? (('e'|'E') [0-9]+)?`, whose integer part ends at
/// `dot` and whose mantissa ends at `exponent`.
pub open spec fn is_number_text_at(s: Seq<char>, dot: int, exponent: int) -> bool {
    &&& 0 < dot <= exponent <= s.len()
    &&& forall|i: int| 0 <= i < dot ==> is_digit(#[trigger] s[i])
    &&& dot < exponent ==> s[dot] == '.'
    &&& forall|i: int| dot < i < exponent ==> is_digit(#[trigger] s[i])
    &&& exponent < s.len() ==> (s[exponent] == 'e' || s[exponent] == 'E') && exponent + 1
        < s.len()
    &&& forall|i: int| exponent < i < s.len() ==> is_digit(#[trigger] s[i])
}

/// Whether the whole of `s` is a numeric literal: digits, then optionally
/// `.` and any digits, then optionally `e` or `E` and at least one digit.
pub open spec fn is_number_text(s: Seq<char>) -> bool {
    exists|dot: int, exponent: int| is_number_text_at(s, dot, exponent)
}

/// The inside of the string literal for `text`: the text with each of its
/// quotes doubled.
pub open spec fn quoted_body(text: Seq<char>) -> Seq<char>
    decreases text.len(),
{
    if text.len() == 0 {
        Seq::<char>::empty()
    } else if text[0] == '"' {
        seq!['"', '"'] + quoted_body(text.drop_first())
    } else {
        seq![text[0]] + quoted_body(text.drop_first())
    }
}

/// The string literal for `text`: its quotes doubled, between two quotes.
pub open spec fn quoted(text: Seq<char>) -> Seq<char> {
    seq!['"'] + quoted_body(text) + seq!['"']
}

/// The tokens of a text that is one token: that token and the sentinel.
pub open spec fn one_token(t: TokenView) -> Result<Seq<TokenView>, LexerErrorView> {
    Ok(seq![t, TokenView::Eof])
}

/// Where the first token of `s` is `t` and takes all of `s`, tokenizing `s`
/// gives `t` and the sentinel.
proof fn lemma_whole_text_token(s: Seq<char>, t: TokenView)
    requires
        next_token_at(s, 0).outcome == Ok::<TokenView, LexerErrorView>(t),
        next_token_at(s, 0).end == s.len(),
        t != TokenView::Eof,
    ensures
        tokens_from(s, 0).outcome == one_token(t),
        tokens_from(s, 0).end == s.len(),
{
    let n = s.len() as int;
    assert(run_end(s, n, CharClass::Whitespace) == n);
    assert(tokens_from(s, n).outcome == Ok::<Seq<TokenView>, LexerErrorView>(
        seq![TokenView::Eof],
    ));
    assert(seq![t] + seq![TokenView::Eof] =~= seq![t, TokenView::Eof]);
}

/// A text that is a cell reference tokenizes to that one cell token, which
/// carries the text as it stands, and the sentinel.
pub proof fn lemma_cell_text_is_one_cell(s: Seq<char>)
    requires
        is_cell_text(s),
    ensures
        tokens_from(s, 0).outcome == one_token(TokenView::Cell(s)),
        tokens_from(s, 0).end == s.len(),
{
    let (letters, row, digits) = choose|letters: int, row: int, digits: int|
        is_cell_text_at(s, letters, row, digits);
    let n = s.len() as int;
    assert(is_upper(s[letters]));
    lemma_run_end_unique(s, 0, CharClass::Whitespace, 0);
    assert(after_anchor(s, 0) == letters);
    lemma_run_end_unique(s, letters, CharClass::Uppercase, row);
    assert(column_end(s, 0) == row);
    assert(after_anchor(s, row) == digits);
    lemma_run_end_unique(s, digits + 1, CharClass::Digit, n);
    assert(row_end(s, row) == n);
    assert(vertical_range_end(s, 0) is None);
    assert(cell_end(s, 0) == Some(n));
    assert(s.subrange(0, n) =~= s);
    lemma_whole_text_token(s, TokenView::Cell(s));
}

/// The text of every cell token is a cell reference.
pub proof fn lemma_cell_token_is_cell_text(s: Seq<char>, p: int)
    requires
        0 <= p,
        cell_end(s, p) is Some,
    ensures
        is_cell_text(s.subrange(p, cell_end(s, p)->0)),
{
    let letters = after_anchor(s, p);
    let row = column_end(s, p);
    let digits = after_anchor(s, row);
    let end = cell_end(s, p)->0;
    let text = s.subrange(p, end);
    lemma_run_end_bounds(s, letters, CharClass::Uppercase);
    lemma_run_end_maximal(s, letters, CharClass::Uppercase);
    lemma_run_end_bounds(s, digits + 1, CharClass::Digit);
    lemma_run_end_maximal(s, digits + 1, CharClass::Digit);
    assert forall|i: int| letters - p <= i < row - p implies is_upper(#[trigger] text[i]) by {
        assert(text[i] == s[p + i]);
    }
    assert forall|i: int| digits - p < i < text.len() implies is_digit(#[trigger] text[i]) by {
        assert(text[i] == s[p + i]);
    }
    assert(is_cell_text_at(text, letters - p, row - p, digits - p));
}

/// Where `s` is a range over `class`, a class that holds neither `$` nor
/// `:`, the range of that class that starts at 0 takes all of `s`.
proof fn lemma_range_text_is_whole_range(s: Seq<char>, class: CharClass)
    requires
        is_range_text(s, class),
        !class.contains('$'),
        !class.contains(':'),
    ensures
        range_end(s, 0, class) == Some(s.len() as int),
        class.contains(s[after_anchor(s, 0)]),
{
    let (first, colon, second) = choose|first: int, colon: int, second: int|
        is_range_text_at(s, class, first, colon, second);
    assert(class.contains(s[first]));
    assert(class.contains(s[second]));
    assert(after_anchor(s, 0) == first);
    lemma_run_end_unique(s, first, class, colon);
    assert(after_anchor(s, colon + 1) == second);
    lemma_run_end_unique(s, second, class, s.len() as int);
}

/// A text that is a range of columns tokenizes to that one range token,
/// which carries the text as it stands, and the sentinel.
pub proof fn lemma_column_range_text_is_one_range(s: Seq<char>)
    requires
        is_column_range_text(s),
    ensures
        tokens_from(s, 0).outcome == one_token(TokenView::VerticalRange(s)),
        tokens_from(s, 0).end == s.len(),
{
    lemma_range_text_is_whole_range(s, CharClass::Uppercase);
    lemma_run_end_unique(s, 0, CharClass::Whitespace, 0);
    assert(s.subrange(0, s.len() as int) =~= s);
    lemma_whole_text_token(s, TokenView::VerticalRange(s));
}

/// A text that is a range of rows tokenizes to that one range token, which
/// carries the text as it stands, and the sentinel: never to a number, a
/// colon and a number.
pub proof fn lemma_row_range_text_is_one_range(s: Seq<char>)
    requires
        is_row_range_text(s),
    ensures
        tokens_from(s, 0).outcome == one_token(TokenView::HorizontalRange(s)),
        tokens_from(s, 0).end == s.len(),
{
    lemma_range_text_is_whole_range(s, CharClass::Digit);
    lemma_run_end_unique(s, 0, CharClass::Whitespace, 0);
    if s[0] == '$' {
        lemma_run_end_unique(s, 1, CharClass::Uppercase, 1);
    }
    assert(s.subrange(0, s.len() as int) =~= s);
    lemma_whole_text_token(s, TokenView::HorizontalRange(s));
}

/// The text of every range token is a range: of columns for a range of
/// columns, and of rows for a range of rows.
pub proof fn lemma_range_token_is_range_text(s: Seq<char>, p: int, class: CharClass)
    requires
        0 <= p,
        range_end(s, p, class) is Some,
    ensures
        is_range_text(s.subrange(p, range_end(s, p, class)->0), class),
{
    let first = after_anchor(s, p);
    let colon = anchored_run_end(s, p, class);
    let second = after_anchor(s, colon + 1);
    let end = range_end(s, p, class)->0;
    let text = s.subrange(p, end);
    lemma_run_end_bounds(s, first, class);
    lemma_run_end_maximal(s, first, class);
    lemma_run_end_bounds(s, second, class);
    lemma_run_end_maximal(s, second, class);
    assert forall|i: int| first - p <= i < colon - p implies class.contains(#[trigger] text[i]) by {
        assert(text[i] == s[p + i]);
    }
    assert forall|i: int| second - p <= i < text.len() implies class.contains(
        #[trigger] text[i],
    ) by {
        assert(text[i] == s[p + i]);
    }
    assert(is_range_text_at(text, class, first - p, colon - p, second - p));
}

/// A range of columns and a cell never start at the same index: after the
/// first column the one has `:` where the other has its row. So the order
/// in which the two are tried decides nothing.
pub proof fn lemma_column_range_excludes_cell(s: Seq<char>, p: int)
    ensures
        !(vertical_range_end(s, p) is Some && cell_end(s, p) is Some),
{
}

/// Where a range of rows starts at a digit it reaches further than the
/// number that starts there: of the two, the longer match is taken.
pub proof fn lemma_row_range_outruns_number(s: Seq<char>, p: int)
    requires
        0 <= p < s.len(),
        is_digit(s[p]),
        horizontal_range_end(s, p) is Some,
    ensures
        number_end(s, p) < horizontal_range_end(s, p)->0,
{
    let colon = anchored_run_end(s, p, CharClass::Digit);
    assert(mantissa_end(s, p) == colon);
    lemma_run_end_bounds(s, after_anchor(s, colon + 1), CharClass::Digit);
}

/// A text that is a numeric literal tokenizes to that one number token,
/// which carries the text as it stands, and the sentinel.
pub proof fn lemma_number_text_is_one_number(s: Seq<char>)
    requires
        is_number_text(s),
    ensures
        tokens_from(s, 0).outcome == one_token(TokenView::Number(s)),
        tokens_from(s, 0).end == s.len(),
{
    let (dot, exponent) = choose|dot: int, exponent: int| is_number_text_at(s, dot, exponent);
    let n = s.len() as int;
    assert(is_digit(s[0]));
    lemma_run_end_unique(s, 0, CharClass::Whitespace, 0);
    lemma_run_end_unique(s, 0, CharClass::Digit, dot);
    assert(horizontal_range_end(s, 0) is None);
    if dot < exponent {
        lemma_run_end_unique(s, dot + 1, CharClass::Digit, exponent);
    }
    assert(mantissa_end(s, 0) == exponent);
    if exponent < n {
        lemma_run_end_unique(s, exponent + 1, CharClass::Digit, n);
    }
    assert(number_end(s, 0) == n);
    assert(s.subrange(0, n) =~= s);
    lemma_whole_text_token(s, TokenView::Number(s));
}

/// The text of every number token is a numeric literal: what is read as a
/// number at a digit and is valid has the shape
/// `[0-9]+ ('.' [0-9]*)? (('e'|'E') [0-9]+)?`.
pub proof fn lemma_number_token_is_number_text(s: Seq<char>, p: int)
    requires
        0 <= p < s.len(),
        is_digit(s[p]),
        number_is_valid(s, p),
    ensures
        number_at(s, p).outcome matches Ok(TokenView::Number(text)) && is_number_text(text),
{
    let dot = run_end(s, p, CharClass::Digit);
    let exponent = mantissa_end(s, p);
    let end = number_end(s, p);
    let text = s.subrange(p, end);
    lemma_run_end_bounds(s, p + 1, CharClass::Digit);
    lemma_run_end_bounds(s, dot + 1, CharClass::Digit);
    lemma_run_end_bounds(s, exponent + 1, CharClass::Digit);
    lemma_run_end_maximal(s, p, CharClass::Digit);
    lemma_run_end_maximal(s, dot + 1, CharClass::Digit);
    lemma_run_end_maximal(s, exponent + 1, CharClass::Digit);
    assert forall|i: int| 0 <= i < dot - p implies is_digit(#[trigger] text[i]) by {
        assert(text[i] == s[p + i]);
    }
    assert forall|i: int| dot - p < i < exponent - p implies is_digit(#[trigger] text[i]) by {
        assert(text[i] == s[p + i]);
    }
    assert forall|i: int| exponent - p < i < text.len() implies is_digit(#[trigger] text[i]) by {
        assert(text[i] == s[p + i]);
    }
    assert(is_number_text_at(text, dot - p, exponent - p));
}

/// Reading a string literal undoes the doubling of quotes: where the input
/// holds, from `i` on, the quoted body of `text` and then a quote that no
/// second quote follows, the literal decodes to `text` and ends after that
/// quote.
pub proof fn lemma_string_rest_decodes(s: Seq<char>, i: int, text: Seq<char>)
    requires
        0 <= i,
        i + quoted_body(text).len() < s.len(),
        s.subrange(i, i + quoted_body(text).len()) == quoted_body(text),
        s[i + quoted_body(text).len()] == '"',
        !has_at(s, i + quoted_body(text).len() + 1, '"'),
    ensures
        string_rest(s, i) == Some((text, i + quoted_body(text).len() + 1)),
    decreases text.len(),
{
    let body = quoted_body(text);
    let part = s.subrange(i, i + body.len());
    if text.len() == 0 {
        assert(text =~= Seq::<char>::empty());
    } else {
        let rest = text.drop_first();
        let rest_body = quoted_body(rest);
        let step: int = if text[0] == '"' {
            2
        } else {
            1
        };
        assert(body.len() == step + rest_body.len());
        assert(s[i] == part[0]);
        if text[0] == '"' {
            assert(s[i + 1] == part[1]);
        }
        assert forall|k: int| 0 <= k < rest_body.len() implies s.subrange(
            i + step,
            i + step + rest_body.len(),
        )[k] == rest_body[k] by {
            assert(s[i + step + k] == part[step + k]);
        }
        assert(s.subrange(i + step, i + step + rest_body.len()) =~= rest_body);
        lemma_string_rest_decodes(s, i + step, rest);
        assert(seq![text[0]] + rest =~= text);
    }
}

/// A text written as a string literal tokenizes to that one string token,
/// which carries the text, and the sentinel.
pub proof fn lemma_quoted_text_is_one_string(text: Seq<char>)
    ensures
        tokens_from(quoted(text), 0).outcome == one_token(TokenView::String(text)),
        tokens_from(quoted(text), 0).end == quoted(text).len(),
{
    let s = quoted(text);
    let body = quoted_body(text);
    let close = 1 + body.len() as int;
    assert(s[0] == '"');
    assert(s.subrange(1, close) =~= body);
    assert(s[close] == '"');
    lemma_string_rest_decodes(s, 1, text);
    lemma_run_end_unique(s, 0, CharClass::Whitespace, 0);
    lemma_whole_text_token(s, TokenView::String(text));
}

/// Tokenizing is a function of the text and of the position in it: whatever
/// [`Lexer::tokenize`] returns on two tokenizers that hold the same text at
/// the same position is the same, token for token and character for
/// character, or the same error.
pub proof fn lemma_tokenize_is_deterministic(
    first: Lexer,
    second: Lexer,
    first_result: Result<Vec<Token>, LexerError>,
    second_result: Result<Vec<Token>, LexerError>,
)
    requires
        first.input() == second.input(),
        first.position() == second.position(),
        tokens_outcome(first_result) == tokens_from(first.input(), first.position()).outcome,
        tokens_outcome(second_result) == tokens_from(second.input(), second.position()).outcome,
    ensures
        tokens_outcome(first_result) == tokens_outcome(second_result),
{
}

} // verus!
