//! The tokenizer: a cursor over the input, and the productions that move it.
use vstd::prelude::*;
use vstd::string::*;
use crate::chars::{is_ascii_digit, is_ascii_uppercase, is_digit, is_row_start, CharClass};
use crate::grammar::{
    after_anchor, column_end, column_reference_at, comparison_at, false_text, has_at,
    has_one_sentinel_last, keyword, lemma_run_end_bounds, lemma_token_consumes,
    lemma_tokens_from_bounds, next_token_at, number_at, punctuation, range_end, ref_text, row_end,
    row_reference_at, run_end, string_after, string_rest, tokens_after, tokens_from, true_text,
    word_at, Tokenization,
};
use crate::text::{chars_of, string_of};
use crate::token::{
    token_outcome, token_views, tokens_outcome, LexerError, LexerErrorView, Token, TokenView,
};

verus! {

/// The character of `s` at index `i`, if `i` is an index of `s`.
pub open spec fn char_at(s: Seq<char>, i: int) -> Option<char> {
    if 0 <= i < s.len() {
        Some(s[i])
    } else {
        None
    }
}

/// The token that `c` makes by itself, if it makes one.
pub fn punctuation_token(c: char) -> (r: Option<Token>)
    ensures
        match r {
            Some(t) => punctuation(c) == Some(t@),
            None => punctuation(c) is None,
        },
{
    if c == '+' {
        Some(Token::Plus)
    } else if c == '-' {
        Some(Token::Minus)
    } else if c == '*' {
        Some(Token::Multiply)
    } else if c == '/' {
        Some(Token::Divide)
    } else if c == '^' {
        Some(Token::Power)
    } else if c == '&' {
        Some(Token::Concatenate)
    } else if c == '=' {
        Some(Token::Equal)
    } else if c == '{' {
        Some(Token::LeftBrace)
    } else if c == '}' {
        Some(Token::RightBrace)
    } else if c == ',' {
        Some(Token::Comma)
    } else if c == ';' {
        Some(Token::Semicolon)
    } else if c == ':' {
        Some(Token::Colon)
    } else {
        None
    }
}

/// What a word makes, given its uppercase form `folded` and its first
/// character: `TRUE` and `FALSE` are the booleans, and any other word is the
/// unexpected-character error for `first`.
pub fn keyword_token(folded: &str, first: char) -> (r: Result<Token, LexerError>)
    ensures
        token_outcome(r) == keyword(folded@, first),
{
    let word = folded.to_owned();
    let yes = "TRUE".to_owned();
    let no = "FALSE".to_owned();
    proof {
        reveal_strlit("TRUE");
        reveal_strlit("FALSE");
        assert(yes@ =~= true_text());
        assert(no@ =~= false_text());
    }
    if word == yes {
        Ok(Token::Bool(true))
    } else if word == no {
        Ok(Token::Bool(false))
    } else {
        Err(LexerError::UnexpectedChar(first))
    }
}

/// A tokenizer over one input text. It owns the characters of the text and a
/// position in them, which only moves forward.
pub struct Lexer {
    input: Vec<char>,
    position: usize,
}

impl Lexer {
    /// The position is an index of the input or its length.
    #[verifier::type_invariant]
    spec fn position_in_input(self) -> bool {
        self.position <= self.input.len()
    }

    /// The characters of the text being tokenized.
    pub closed spec fn input(&self) -> Seq<char> {
        self.input@
    }

    /// The index of the next character to read; the length of the input
    /// once all of it is read.
    pub closed spec fn position(&self) -> int {
        self.position as int
    }

    /// A tokenizer at the start of `input`.
    pub fn new(input: &str) -> (lexer: Self)
        ensures
            lexer.input() == input@,
            lexer.position() == 0,
    {
        Self { input: chars_of(input), position: 0 }
    }

    /// The character at the position, if the input has not ended.
    fn current(&self) -> (c: Option<char>)
        ensures
            c == char_at(self.input(), self.position()),
    {
        if self.position < self.input.len() {
            Some(self.input[self.position])
        } else {
            None
        }
    }

    /// Moves the position past one character.
    fn advance(&mut self)
        requires
            old(self).position() < old(self).input().len(),
        ensures
            final(self).input() == old(self).input(),
            final(self).position() == old(self).position() + 1,
    {
        proof {
            use_type_invariant(&*self);
        }
        self.position += 1;
    }

    /// The character `offset` places after the position, if the input
    /// reaches that far.
    fn peek(&self, offset: usize) -> (c: Option<char>)
        ensures
            c == char_at(self.input(), self.position() + offset),
    {
        proof {
            use_type_invariant(self);
        }
        if offset < self.input.len() - self.position {
            Some(self.input[self.position + offset])
        } else {
            None
        }
    }

    /// Whether the input has `c` at index `i`.
    fn has_at(&self, i: usize, c: char) -> (r: bool)
        ensures
            r == has_at(self.input(), i as int, c),
    {
        i < self.input.len() && self.input[i] == c
    }

    /// The index after the anchor at `i`, or `i` where there is none.
    fn skip_anchor(&self, i: usize) -> (r: usize)
        requires
            i <= self.input().len(),
        ensures
            r == after_anchor(self.input(), i as int),
            i <= r <= self.input().len(),
    {
        proof {
            use_type_invariant(self);
        }
        if self.has_at(i, '$') {
            i + 1
        } else {
            i
        }
    }

    /// The end of the longest run of characters of `class` from `from` on.
    fn skip_run(&self, from: usize, class: CharClass) -> (end: usize)
        requires
            from <= self.input().len(),
        ensures
            end == run_end(self.input(), from as int, class),
            from <= end <= self.input().len(),
    {
        let mut i = from;
        while i < self.input.len() && class.accepts(self.input[i])
            invariant
                from <= i <= self.input@.len(),
                run_end(self.input@, i as int, class) == run_end(self.input@, from as int, class),
            decreases self.input@.len() - i,
        {
            i += 1;
        }
        i
    }

    /// The input from `from` up to the position, as a string.
    fn text_since(&self, from: usize) -> (text: String)
        requires
            from <= self.position(),
        ensures
            text@ == self.input().subrange(from as int, self.position()),
    {
        proof {
            use_type_invariant(self);
        }
        string_of(&self.input, from, self.position)
    }

    /// Moves the position past the whitespace that it stands at.
    fn skip_whitespace(&mut self)
        ensures
            final(self).input() == old(self).input(),
            final(self).position() == run_end(
                old(self).input(),
                old(self).position(),
                CharClass::Whitespace,
            ),
    {
        proof {
            use_type_invariant(&*self);
        }
        self.position = self.skip_run(self.position, CharClass::Whitespace);
    }

    /// Reads the numeric literal at the position, which holds a digit:
    /// digits, then optionally `.` and digits, then optionally `e` or `E`
    /// and digits. Gives the text read, as an error where the exponent marker
    /// is followed by no digit.
    fn read_number(&mut self) -> (r: Result<String, LexerError>)
        requires
            0 <= old(self).position() < old(self).input().len(),
            is_digit(old(self).input()[old(self).position()]),
        ensures
            final(self).input() == old(self).input(),
            final(self).position() == number_at(old(self).input(), old(self).position()).end,
            number_at(old(self).input(), old(self).position()).outcome == match r {
                Ok(text) => Ok(TokenView::Number(text@)),
                Err(e) => Err(e@),
            },
    {
        proof {
            use_type_invariant(&*self);
        }
        let start = self.position;
        self.position = self.skip_run(start, CharClass::Digit);
        if self.has_at(self.position, '.') {
            self.position = self.skip_run(self.position + 1, CharClass::Digit);
        }
        let mut valid = true;
        if self.has_at(self.position, 'e') || self.has_at(self.position, 'E') {
            let digits = self.position + 1;
            self.position = self.skip_run(digits, CharClass::Digit);
            valid = digits < self.position;
        }
        let text = self.text_since(start);
        if valid {
            Ok(text)
        } else {
            Err(LexerError::InvalidNumber(text))
        }
    }

    /// Reads the string literal whose opening quote is at the position, and
    /// gives its decoded text. Without a closing quote the rest of the input
    /// is read and the literal is unterminated.
    fn read_string(&mut self) -> (r: Result<String, LexerError>)
        requires
            has_at(old(self).input(), old(self).position(), '"'),
        ensures
            final(self).input() == old(self).input(),
            match string_rest(old(self).input(), old(self).position() + 1) {
                Some((text, end)) => {
                    &&& r matches Ok(t) && t@ == text
                    &&& final(self).position() == end
                },
                None => {
                    &&& r matches Err(e) && e@ == LexerErrorView::UnterminatedString
                    &&& final(self).position() == old(self).input().len()
                },
            },
    {
        self.advance();
        let mut result = String::new();
        loop
            invariant
                self.input@ == old(self).input@,
                old(self).position < self.position <= self.input.len(),
                string_rest(old(self).input@, old(self).position + 1) == string_after(
                    result@,
                    string_rest(self.input@, self.position as int),
                ),
            decreases self.input.len() - self.position,
        {
            let ghost before = result@;
            let ghost at = self.position as int;
            match self.current() {
                None => {
                    return Err(LexerError::UnterminatedString);
                },
                Some(c) => {
                    if c != '"' {
                        result.push(c);
                        self.advance();
                        proof {
                            lemma_string_after_twice(
                                before,
                                seq![c],
                                string_rest(self.input@, at + 1),
                            );
                        }
                    } else if matches!(self.peek(1), Some('"')) {
                        result.push('"');
                        self.advance();
                        self.advance();
                        proof {
                            lemma_string_after_twice(
                                before,
                                seq!['"'],
                                string_rest(self.input@, at + 2),
                            );
                        }
                    } else {
                        self.advance();
                        assert(before + Seq::<char>::empty() =~= before);
                        return Ok(result);
                    }
                },
            }
        }
    }

    /// Reads the text of an error literal, after its `#`: the longest run of
    /// letters, numbers, `/`, `!` and `?`.
    fn read_error(&mut self) -> (text: String)
        ensures
            final(self).input() == old(self).input(),
            old(self).position() <= final(self).position() <= old(self).input().len(),
            final(self).position() == run_end(
                old(self).input(),
                old(self).position(),
                CharClass::ErrorText,
            ),
            text@ == old(self).input().subrange(old(self).position(), final(self).position()),
    {
        proof {
            use_type_invariant(&*self);
        }
        let start = self.position;
        self.position = self.skip_run(start, CharClass::ErrorText);
        self.text_since(start)
    }

    /// Reads a word: the longest run of letters, numbers and `_`.
    fn read_identifier(&mut self) -> (text: String)
        ensures
            final(self).input() == old(self).input(),
            old(self).position() <= final(self).position() <= old(self).input().len(),
            final(self).position() == run_end(
                old(self).input(),
                old(self).position(),
                CharClass::Identifier,
            ),
            text@ == old(self).input().subrange(old(self).position(), final(self).position()),
    {
        proof {
            use_type_invariant(&*self);
        }
        let start = self.position;
        self.position = self.skip_run(start, CharClass::Identifier);
        self.text_since(start)
    }

    /// Reads a column, `$?[A-Z]+`, as far as it goes: the anchor if there is
    /// one, and the letters that follow.
    fn read_column(&mut self) -> (text: String)
        ensures
            final(self).input() == old(self).input(),
            old(self).position() <= final(self).position() <= old(self).input().len(),
            final(self).position() == column_end(old(self).input(), old(self).position()),
            text@ == old(self).input().subrange(old(self).position(), final(self).position()),
    {
        proof {
            use_type_invariant(&*self);
        }
        let start = self.position;
        let letters = self.skip_anchor(start);
        self.position = self.skip_run(letters, CharClass::Uppercase);
        self.text_since(start)
    }

    /// Reads a row, `$?[1-9][0-9]*`, as far as it goes: the anchor if there
    /// is one, and the digits that follow if the first of them is not `0`.
    fn read_row(&mut self) -> (text: String)
        ensures
            final(self).input() == old(self).input(),
            old(self).position() <= final(self).position() <= old(self).input().len(),
            final(self).position() == row_end(old(self).input(), old(self).position()),
            text@ == old(self).input().subrange(old(self).position(), final(self).position()),
    {
        proof {
            use_type_invariant(&*self);
        }
        let start = self.position;
        self.position = self.skip_anchor(start);
        if self.position < self.input.len() && is_row_start(self.input[self.position]) {
            self.position = self.skip_run(self.position + 1, CharClass::Digit);
        }
        self.text_since(start)
    }

    /// Where the range of `class` that starts at `from` ends, if one starts
    /// there. Nothing is read.
    fn find_range_end(&self, from: usize, class: CharClass) -> (r: Option<usize>)
        requires
            from <= self.input().len(),
        ensures
            match r {
                Some(end) => range_end(self.input(), from as int, class) == Some(end as int)
                    && from < end <= self.input().len(),
                None => range_end(self.input(), from as int, class) is None,
            },
    {
        proof {
            use_type_invariant(self);
        }
        let first = self.skip_anchor(from);
        let colon = self.skip_run(first, class);
        if colon == first || !self.has_at(colon, ':') {
            return None;
        }
        let second = self.skip_anchor(colon + 1);
        let end = self.skip_run(second, class);
        if end == second {
            return None;
        }
        Some(end)
    }

    /// Tries the references that start with a column: a range of columns,
    /// or else a cell. Where neither is at the position nothing is read: the
    /// position stays where it was, for another shape to be tried.
    pub fn try_read_cell_or_vertical_range(&mut self) -> (r: Option<Token>)
        ensures
            final(self).input() == old(self).input(),
            match column_reference_at(old(self).input(), old(self).position()) {
                Some(scan) => {
                    &&& r matches Some(t) && scan.outcome == token_outcome(Ok(t))
                    &&& final(self).position() == scan.end
                },
                None => r is None && final(self).position() == old(self).position(),
            },
    {
        proof {
            use_type_invariant(&*self);
        }
        let start = self.position;
        match self.find_range_end(start, CharClass::Uppercase) {
            Some(end) => {
                self.position = end;
                return Some(Token::VerticalRange(self.text_since(start)));
            },
            None => {},
        }
        let letters = self.skip_anchor(start);
        let column_text = self.read_column();
        let column = self.position;
        proof {
            use_type_invariant(&*self);
        }
        let digits = self.skip_anchor(column);
        let row_text = self.read_row();
        proof {
            use_type_invariant(&*self);
            lemma_run_end_bounds(self.input@, digits + 1, CharClass::Digit);
        }
        if letters < column && digits < self.position {
            proof {
                let s = self.input@;
                assert(s.subrange(start as int, column as int) + s.subrange(
                    column as int,
                    self.position as int,
                ) =~= s.subrange(start as int, self.position as int));
            }
            Some(Token::Cell(column_text.concat(row_text.as_str())))
        } else {
            self.position = start;
            None
        }
    }

    /// Tries a range of rows, `$?[0-9]+:$?[0-9]+`. Where none is at the
    /// position nothing is read: the position stays where it was, for another
    /// shape to be tried.
    pub fn try_read_horizontal_range(&mut self) -> (r: Option<Token>)
        ensures
            final(self).input() == old(self).input(),
            match row_reference_at(old(self).input(), old(self).position()) {
                Some(scan) => {
                    &&& r matches Some(t) && scan.outcome == token_outcome(Ok(t))
                    &&& final(self).position() == scan.end
                },
                None => r is None && final(self).position() == old(self).position(),
            },
    {
        proof {
            use_type_invariant(&*self);
        }
        let start = self.position;
        match self.find_range_end(start, CharClass::Digit) {
            Some(end) => {
                self.position = end;
                Some(Token::HorizontalRange(self.text_since(start)))
            },
            None => None,
        }
    }

    /// Reads the comparison operator at the position, which holds `<` or
    /// `>`.
    fn read_comparison(&mut self) -> (token: Token)
        requires
            has_at(old(self).input(), old(self).position(), '<') || has_at(
                old(self).input(),
                old(self).position(),
                '>',
            ),
        ensures
            final(self).input() == old(self).input(),
            final(self).position() == comparison_at(old(self).input(), old(self).position()).end,
            comparison_at(old(self).input(), old(self).position()).outcome == token_outcome(
                Ok(token),
            ),
    {
        let less = self.has_at(self.position, '<');
        self.advance();
        if self.has_at(self.position, '=') {
            self.advance();
            if less {
                Token::LessEqual
            } else {
                Token::GreaterEqual
            }
        } else if less && self.has_at(self.position, '>') {
            self.advance();
            Token::NotEqual
        } else if less {
            Token::Less
        } else {
            Token::Greater
        }
    }

    /// Reads the word at the position and resolves it as a keyword; `first`
    /// is the character at the position.
    fn read_keyword(&mut self, first: char) -> (r: Result<Token, LexerError>)
        requires
            has_at(old(self).input(), old(self).position(), first),
        ensures
            final(self).input() == old(self).input(),
            final(self).position() == word_at(old(self).input(), old(self).position()).end,
            token_outcome(r) == word_at(old(self).input(), old(self).position()).outcome,
    {
        let word = self.read_identifier();
        let folded = word.as_str().to_uppercase();
        keyword_token(folded.as_str(), first)
    }

    /// Produces the next token: skips whitespace, then reads the token that
    /// starts at the position, or makes the sentinel at the end of the input.
    /// An error ends the tokenization; what was read up to it stays read.
    pub fn next_token(&mut self) -> (r: Result<Token, LexerError>)
        ensures
            final(self).input() == old(self).input(),
            final(self).position() == next_token_at(old(self).input(), old(self).position()).end,
            token_outcome(r) == next_token_at(old(self).input(), old(self).position()).outcome,
            old(self).position() <= final(self).position() <= old(self).input().len(),
    {
        proof {
            use_type_invariant(&*self);
            lemma_token_consumes(self.input@, self.position as int);
        }
        self.skip_whitespace();
        let c = match self.current() {
            Some(c) => c,
            None => {
                return Ok(Token::Eof);
            },
        };
        match punctuation_token(c) {
            Some(token) => {
                self.advance();
                return Ok(token);
            },
            None => {},
        }
        if c == '<' || c == '>' {
            Ok(self.read_comparison())
        } else if c == '"' {
            match self.read_string() {
                Ok(text) => Ok(Token::String(text)),
                Err(e) => Err(e),
            }
        } else if c == '#' {
            let start = self.position;
            self.advance();
            let text = self.read_error();
            let reference = "REF!".to_owned();
            proof {
                reveal_strlit("REF!");
                assert(reference@ =~= ref_text());
            }
            if text == reference {
                Ok(Token::ErrorRef)
            } else {
                Ok(Token::Error(self.text_since(start)))
            }
        } else if is_ascii_digit(c) {
            match self.try_read_horizontal_range() {
                Some(token) => Ok(token),
                None => match self.read_number() {
                    Ok(text) => Ok(Token::Number(text)),
                    Err(e) => Err(e),
                },
            }
        } else if c == '$' {
            match self.try_read_cell_or_vertical_range() {
                Some(token) => Ok(token),
                None => match self.try_read_horizontal_range() {
                    Some(token) => Ok(token),
                    None => Err(LexerError::UnexpectedChar(c)),
                },
            }
        } else if is_ascii_uppercase(c) {
            match self.try_read_cell_or_vertical_range() {
                Some(token) => Ok(token),
                None => self.read_keyword(c),
            }
        } else if c.is_alphabetic() {
            self.read_keyword(c)
        } else {
            Err(LexerError::UnexpectedChar(c))
        }
    }

    /// Tokenizes the input from the position on: the tokens up to and
    /// including the sentinel, or the first error and no token.
    pub fn tokenize(&mut self) -> (r: Result<Vec<Token>, LexerError>)
        ensures
            final(self).input() == old(self).input(),
            final(self).position() == tokens_from(old(self).input(), old(self).position()).end,
            tokens_outcome(r) == tokens_from(old(self).input(), old(self).position()).outcome,
            old(self).position() <= final(self).position() <= old(self).input().len(),
            r matches Ok(tokens) ==> {
                &&& has_one_sentinel_last(token_views(tokens@))
                &&& final(self).position() == old(self).input().len()
            },
    {
        let mut tokens: Vec<Token> = Vec::new();
        proof {
            use_type_invariant(&*self);
            lemma_tokens_from_bounds(self.input@, self.position as int);
            lemma_tokens_after_nothing(tokens_from(self.input@, self.position as int));
        }
        loop
            invariant
                self.input@ == old(self).input@,
                tokens_from(old(self).input@, old(self).position as int) == tokens_after(
                    token_views(tokens@),
                    tokens_from(self.input@, self.position as int),
                ),
                old(self).position <= tokens_from(old(self).input@, old(self).position as int).end
                    <= old(self).input@.len(),
                tokens_from(old(self).input@, old(self).position as int).outcome matches Ok(all)
                    ==> has_one_sentinel_last(all) && tokens_from(
                    old(self).input@,
                    old(self).position as int,
                ).end == old(self).input@.len(),
            decreases self.input.len() - self.position,
        {
            proof {
                use_type_invariant(&*self);
                lemma_token_consumes(self.input@, self.position as int);
            }
            let ghost before = token_views(tokens@);
            match self.next_token() {
                Err(e) => {
                    return Err(e);
                },
                Ok(token) => {
                    let done = matches!(token, Token::Eof);
                    let ghost t = token@;
                    tokens.push(token);
                    assert(token_views(tokens@) =~= before.push(t));
                    if done {
                        assert(before + seq![TokenView::Eof] =~= before.push(t));
                        return Ok(tokens);
                    }
                    proof {
                        use_type_invariant(&*self);
                        lemma_tokens_after_twice(
                            before,
                            seq![t],
                            tokens_from(self.input@, self.position as int),
                        );
                        assert(before + seq![t] =~= before.push(t));
                    }
                },
            }
        }
    }

} // impl Lexer

/// Tokenizes `input` from its start: the tokens up to and including the
/// sentinel, or the first error and no token.
pub fn tokenize(input: &str) -> (r: Result<Vec<Token>, LexerError>)
    ensures
        tokens_outcome(r) == tokens_from(input@, 0).outcome,
        r matches Ok(tokens) ==> has_one_sentinel_last(token_views(tokens@)),
{
    let mut lexer = Lexer::new(input);
    lexer.tokenize()
}

/// Putting two texts in front of a string literal's remainder, one after the
/// other, is putting their concatenation in front of it.
proof fn lemma_string_after_twice(
    first: Seq<char>,
    second: Seq<char>,
    rest: Option<(Seq<char>, int)>,
)
    ensures
        string_after(first, string_after(second, rest)) == string_after(first + second, rest),
{
    match rest {
        Some((text, end)) => {
            assert(first + (second + text) =~= (first + second) + text);
        },
        None => {},
    }
}

/// Putting no tokens in front of a tokenization leaves it as it is.
proof fn lemma_tokens_after_nothing(rest: Tokenization)
    ensures
        tokens_after(Seq::<TokenView>::empty(), rest) == rest,
{
    match rest.outcome {
        Ok(tokens) => {
            assert(Seq::<TokenView>::empty() + tokens =~= tokens);
        },
        Err(e) => {},
    }
}

/// Putting two sequences of tokens in front of a tokenization, one after the
/// other, is putting their concatenation in front of it.
proof fn lemma_tokens_after_twice(
    first: Seq<TokenView>,
    second: Seq<TokenView>,
    rest: Tokenization,
)
    ensures
        tokens_after(first, tokens_after(second, rest)) == tokens_after(first + second, rest),
{
    match rest.outcome {
        Ok(tokens) => {
            assert(first + (second + tokens) =~= (first + second) + tokens);
        },
        Err(e) => {},
    }
}

} // verus!
