//! The lexer: statement text in, tokens out.

use vstd::prelude::*;

use crate::text::{
    alphabetic, byte_offset, char_is_alphabetic, char_is_alphanumeric, char_is_numeric,
    char_is_whitespace, first_char, lemma_byte_offset_monotonic, lemma_byte_offset_next,
    lemma_char_boundary, lemma_encode_concat, lemma_encode_single, lowercase, numeric, push_spaces, same_text, spaces, str_slice,
    str_suffix, str_to_lowercase, string_push, utf8_len, whitespace,
};
use crate::token::{token_views, Token, TokenKind, TokenView};

verus! {

broadcast use vstd::string::group_string_axioms;

// ---------------------------------------------------------------------------
// Specification
// ---------------------------------------------------------------------------

/// The classes of character that make up the runs the lexer scans over.
pub enum Run {
    /// Whitespace between tokens.
    Blank,
    /// The letters, digits and underscores that continue a word.
    Word,
    /// The numeric characters of a number.
    Digits,
    /// Anything but the closing quote of a string.
    Quoted,
}

/// Whether a word may start with `c`: an alphabetic character or an underscore.
pub open spec fn is_word_start(c: char) -> bool {
    alphabetic(c) || c == '_'
}

/// Whether a word may go on with `c`: an alphanumeric character or an underscore.
pub open spec fn is_word_char(c: char) -> bool {
    (alphabetic(c) || numeric(c)) || c == '_'
}

/// Whether `c` continues a run of the given class.
pub open spec fn continues(run: Run, c: char) -> bool {
    match run {
        Run::Blank => whitespace(c),
        Run::Word => is_word_char(c),
        Run::Digits => numeric(c),
        Run::Quoted => c != '\'',
    }
}

/// The index where the run of class `run` that starts at `i` ends: the first index at or
/// after `i` whose character does not continue the run, or the end of `s`.
pub open spec fn run_end(s: Seq<char>, i: int, run: Run) -> int
    decreases s.len() - i,
{
    if 0 <= i < s.len() && continues(run, s[i]) {
        run_end(s, i + 1, run)
    } else {
        i
    }
}

/// The token kind of a keyword, given its lowercase spelling.
pub open spec fn keyword(word: Seq<char>) -> Option<TokenKind> {
    if word == "create"@ {
        Some(TokenKind::Create)
    } else if word == "table"@ {
        Some(TokenKind::Table)
    } else if word == "insert"@ {
        Some(TokenKind::Insert)
    } else if word == "into"@ {
        Some(TokenKind::Into)
    } else if word == "select"@ {
        Some(TokenKind::Select)
    } else if word == "values"@ {
        Some(TokenKind::Values)
    } else if word == "from"@ {
        Some(TokenKind::From)
    } else if word == "where"@ {
        Some(TokenKind::Where)
    } else {
        None
    }
}

/// The kind of a word: the keyword its lowercase form spells, or an identifier.
pub open spec fn word_kind(word: Seq<char>) -> TokenKind {
    match keyword(lowercase(word)) {
        Some(k) => k,
        None => TokenKind::Identifier,
    }
}

/// The token of the given kind whose lexeme is `s[from..to]`.
pub open spec fn token_at(s: Seq<char>, kind: TokenKind, from: int, to: int) -> TokenView {
    TokenView { kind, lexeme: s.subrange(from, to), position: byte_offset(s, from) as usize }
}

/// The operator that starts at index `j` of `s`, with the index just past it.
pub open spec fn operator_at(s: Seq<char>, j: int) -> Option<(TokenKind, int)> {
    let c = s[j];
    let then_equal = j + 1 < s.len() && s[j + 1] == '=';
    if c == '+' {
        Some((TokenKind::Plus, j + 1))
    } else if c == '=' {
        Some((TokenKind::Equal, j + 1))
    } else if c == '<' {
        if then_equal {
            Some((TokenKind::LessThanEqual, j + 2))
        } else {
            Some((TokenKind::LessThan, j + 1))
        }
    } else if c == '>' {
        if then_equal {
            Some((TokenKind::GreaterThanEqual, j + 2))
        } else {
            Some((TokenKind::GreaterThan, j + 1))
        }
    } else if c == '(' {
        Some((TokenKind::LeftParen, j + 1))
    } else if c == ')' {
        Some((TokenKind::RightParen, j + 1))
    } else if c == ',' {
        Some((TokenKind::Comma, j + 1))
    } else {
        None
    }
}

/// The word that starts at index `j` of `s`: the character at `j` and the word characters
/// after it, with the index after them.
pub open spec fn word_token(s: Seq<char>, j: int) -> (TokenView, int) {
    let e = run_end(s, j + 1, Run::Word);
    (token_at(s, word_kind(s.subrange(j, e)), j, e), e)
}

/// The number that starts at index `j` of `s`: the character at `j` and the numeric
/// characters after it, with the index after them.
pub open spec fn number_token(s: Seq<char>, j: int) -> (TokenView, int) {
    let e = run_end(s, j + 1, Run::Digits);
    (token_at(s, TokenKind::Number, j, e), e)
}

/// The string whose opening quote is at index `j` of `s`: its lexeme is what lies between
/// the quotes (an unclosed string runs to the end), and lexing goes on after the closing
/// quote.
pub open spec fn string_token(s: Seq<char>, j: int) -> (TokenView, int) {
    let e = run_end(s, j + 1, Run::Quoted);
    (token_at(s, TokenKind::String, j + 1, e), if e < s.len() { e + 1 } else { e })
}

/// The token that starts at index `j` of `s`, with the index where lexing goes on;
/// `None` when the character at `j` starts no token.
pub open spec fn token_from(s: Seq<char>, j: int) -> Option<(TokenView, int)> {
    let c = s[j];
    if is_word_start(c) {
        Some(word_token(s, j))
    } else if numeric(c) {
        Some(number_token(s, j))
    } else if c == '\'' {
        Some(string_token(s, j))
    } else {
        match operator_at(s, j) {
            Some((kind, e)) => Some((token_at(s, kind, j, e), e)),
            None => None,
        }
    }
}

/// The mathematical value of a [`LexerError`].
pub struct LexerErrorView {
    pub input: Seq<char>,
    pub position: usize,
    pub character: char,
}

/// How a lexer error is shown: the input, then a caret under the offending position, then the
/// character that is not valid there.
pub open spec fn lexer_error_text(e: LexerErrorView) -> Seq<char> {
    let pad = spaces(e.position as nat);
    "Syntax error: "@ + e.input + "\n"@ + "              "@ + pad + "^\n"@ + "              "@ + pad
        + "|\n"@ + "              "@ + pad + " ------- Invalid character ("@ + seq![e.character]
        + ")\n"@
}

/// Puts `front` before the tokens of a successful result.
pub open spec fn prepend(front: Seq<TokenView>, r: Result<Seq<TokenView>, LexerErrorView>) -> Result<
    Seq<TokenView>,
    LexerErrorView,
> {
    match r {
        Ok(ts) => Ok(front + ts),
        Err(e) => Err(e),
    }
}

/// The tokens of `s` from index `i` on (without the end marker), or the error at the
/// first character that starts no token.
pub open spec fn lex_from(s: Seq<char>, i: int) -> Result<Seq<TokenView>, LexerErrorView>
    decreases s.len() - i,
{
    let j = run_end(s, i, Run::Blank);
    if i < 0 || j >= s.len() {
        Ok(Seq::empty())
    } else {
        match token_from(s, j) {
            None => Err(LexerErrorView { input: s, position: byte_offset(s, j) as usize, character: s[j] }),
            Some((t, e)) => {
                proof {
                    lemma_run_end(s, i, Run::Blank);
                    lemma_token_from_advances(s, j);
                }
                prepend(seq![t], lex_from(s, e))
            },
        }
    }
}

/// The end marker of `s`: an empty lexeme at the byte length of the text.
pub open spec fn eof_token(s: Seq<char>) -> TokenView {
    TokenView { kind: TokenKind::Eof, lexeme: Seq::empty(), position: utf8_len(s) as usize }
}

/// What lexing `s` from index `i` gives: its tokens followed by the end marker, or the error.
pub open spec fn lex_spec(s: Seq<char>, i: int) -> Result<Seq<TokenView>, LexerErrorView> {
    match lex_from(s, i) {
        Ok(ts) => Ok(ts.push(eof_token(s))),
        Err(e) => Err(e),
    }
}

/// A run never ends before it starts, nor after the end of the text.
pub proof fn lemma_run_end(s: Seq<char>, i: int, run: Run)
    requires
        0 <= i <= s.len(),
    ensures
        i <= run_end(s, i, run) <= s.len(),
        run_end(s, i, run) < s.len() ==> !continues(run, s[run_end(s, i, run)]),
        forall|m: int| i <= m < run_end(s, i, run) ==> continues(run, #[trigger] s[m]),
    decreases s.len() - i,
{
    if i < s.len() && continues(run, s[i]) {
        lemma_run_end(s, i + 1, run);
    }
}

/// Lexing goes on strictly after the start of a token, and not past the end of the text.
pub proof fn lemma_token_from_advances(s: Seq<char>, j: int)
    requires
        0 <= j < s.len(),
    ensures
        token_from(s, j) matches Some((t, e)) ==> j < e <= s.len(),
{
    lemma_run_end(s, j + 1, Run::Word);
    lemma_run_end(s, j + 1, Run::Digits);
    lemma_run_end(s, j + 1, Run::Quoted);
}

// ---------------------------------------------------------------------------
// Implementation
// ---------------------------------------------------------------------------

/// The error of an input character that starts no token.
#[derive(Copy, Clone, Debug)]
pub struct LexerError<'a> {
    /// The original input
    input: &'a str,
    /// The byte position in the original input
    position: usize,
    /// The character that caused the error
    character: char,
}

impl<'a> View for LexerError<'a> {
    type V = LexerErrorView;

    closed spec fn view(&self) -> LexerErrorView {
        LexerErrorView { input: self.input@, position: self.position, character: self.character }
    }
}

impl<'a> LexerError<'a> {
    /// The error as the text a user is shown.
    pub fn to_string(&self) -> (r: String)
        ensures
            r@ == lexer_error_text(self@),
    {
        let mut out = String::from_str("Syntax error: ");
        out.append(self.input);
        out.append("\n");
        out.append("              ");
        push_spaces(&mut out, self.position);
        out.append("^\n");
        out.append("              ");
        push_spaces(&mut out, self.position);
        out.append("|\n");
        out.append("              ");
        push_spaces(&mut out, self.position);
        out.append(" ------- Invalid character (");
        let ghost before = out@;
        string_push(&mut out, self.character);
        out.append(")\n");
        proof {
            assert(before.push(self.character) =~= before + seq![self.character]);
        }
        out
    }
}

/// A lexer over one input text; it reads the text from a cursor.
pub struct Lexer<'a> {
    /// The input string to lex
    input: &'a str,
    /// The byte offset of the cursor in the input
    current: usize,
    /// The character index of the cursor in the input
    chars_read: Ghost<int>,
}

impl<'a> Lexer<'a> {
    /// The characters of the input.
    pub closed spec fn text(&self) -> Seq<char> {
        self.input@
    }

    /// The character index of the cursor.
    pub closed spec fn cursor(&self) -> int {
        self.chars_read@
    }

    /// The byte offset of the cursor.
    pub closed spec fn offset(&self) -> usize {
        self.current
    }

    /// The cursor stands on a character boundary of the input, whose byte length fits a `usize`.
    pub closed spec fn wf(&self) -> bool {
        &&& 0 <= self.cursor() <= self.text().len()
        &&& self.current == byte_offset(self.text(), self.cursor())
        &&& utf8_len(self.text()) <= usize::MAX
    }

    /// A lexer at the start of `input`.
    pub fn new(input: &'a str) -> (r: Self)
        ensures
            r.wf(),
            r.text() == input@,
            r.cursor() == 0,
            r.offset() == 0,
    {
        let bytes = input.as_bytes();
        proof {
            // the encoding of the input is a slice, whose length fits a usize
            assert(bytes@.len() == bytes.len());
            assert(input@.take(0) =~= Seq::<char>::empty());
        }
        Self { input, current: 0, chars_read: Ghost(0) }
    }

    /// Peeks at the next character to process but doesn't consume it
    fn peek(&self) -> (r: Option<char>)
        requires
            self.wf(),
        ensures
            self.cursor() < self.text().len() ==> r == Some(self.text()[self.cursor()]),
            self.cursor() >= self.text().len() ==> r is None,
    {
        let rest = str_suffix(self.input, self.current, Ghost(self.chars_read@));
        first_char(rest)
    }

    /// Advances the cursor and returns the character at the current position
    fn advance(&mut self) -> (r: Option<char>)
        requires
            old(self).wf(),
        ensures
            final(self).wf(),
            final(self).text() == old(self).text(),
            old(self).cursor() < old(self).text().len() ==> r == Some(
                old(self).text()[old(self).cursor()],
            ) && final(self).cursor() == old(self).cursor() + 1,
            old(self).cursor() >= old(self).text().len() ==> r is None && final(self).cursor()
                == old(self).cursor(),
    {
        let rest = str_suffix(self.input, self.current, Ghost(self.chars_read@));
        if let Some(next) = first_char(rest) {
            // grabbed something from the input, advance current
            proof {
                lemma_byte_offset_next(self.input@, self.chars_read@);
            }
            self.current = self.current + next.len_utf8();
            self.chars_read = Ghost(self.chars_read@ + 1);
            Some(next)
        } else {
            None
        }
    }

    /// Checks if we have exhausted the input
    fn finished(&self) -> (r: bool)
        requires
            self.wf(),
        ensures
            r == (self.cursor() >= self.text().len()),
    {
        proof {
            lemma_byte_offset_monotonic(self.input@, self.chars_read@, self.input@.len() as int);
            assert(self.input@.take(self.input@.len() as int) =~= self.input@);
        }
        self.current >= self.input.len()
    }

    /// Provides a slice of the input from a given byte offset up to the current position
    /// (exclusive)
    fn input_slice(&self, from: usize, Ghost(j): Ghost<int>) -> (r: &'a str)
        requires
            self.wf(),
            0 <= j <= self.cursor(),
            from == byte_offset(self.text(), j),
        ensures
            r@ == self.text().subrange(j, self.cursor()),
    {
        str_slice(self.input, from, self.current, Ghost(j), Ghost(self.chars_read@))
    }

    /// A more comprehensive "alphabetic" check
    fn is_alphabetic_with_underscore(c: char) -> (r: bool)
        ensures
            r == is_word_start(c),
    {
        char_is_alphabetic(c) || c == '_'
    }

    /// A comprehensive "alphanumeric" check
    fn is_alphanumeric_with_underscore(c: char) -> (r: bool)
        ensures
            r == is_word_char(c),
    {
        char_is_alphanumeric(c) || c == '_'
    }

    /// Checks if a alphanumeric string is a SQL keyword
    fn check_keyword(start: usize, lexeme: &'a str) -> (r: Option<Token<'a>>)
        ensures
            match keyword(lowercase(lexeme@)) {
                Some(k) => r == Some(Token { kind: k, lexeme, position: start }),
                None => r is None,
            },
    {
        let normalized = str_to_lowercase(lexeme);
        let word = normalized.as_str();
        let mut token = Token { kind: TokenKind::Create, lexeme, position: start };
        token.kind = if same_text(word, "create") {
            TokenKind::Create
        } else if same_text(word, "table") {
            TokenKind::Table
        } else if same_text(word, "insert") {
            TokenKind::Insert
        } else if same_text(word, "into") {
            TokenKind::Into
        } else if same_text(word, "select") {
            TokenKind::Select
        } else if same_text(word, "values") {
            TokenKind::Values
        } else if same_text(word, "from") {
            TokenKind::From
        } else if same_text(word, "where") {
            TokenKind::Where
        } else {
            // anything else will be treated as an identifier
            return None;
        };
        Some(token)
    }

    /// Lex a word after peeking that it is alphabetic. The first character of the word should have
    /// been 'peeked' but will be advanced on behalf of the caller.
    fn lex_word(&mut self) -> (t: Token<'a>)
        requires
            old(self).wf(),
            old(self).cursor() < old(self).text().len(),
        ensures
            final(self).wf(),
            final(self).text() == old(self).text(),
            word_token(old(self).text(), old(self).cursor()) == (t@, final(self).cursor()),
    {
        let ghost s = self.input@;
        let ghost j = self.chars_read@;
        let start = self.current;
        self.advance();
        loop
            invariant
                self.wf(),
                self.text() == s,
                0 <= j < self.cursor() <= s.len(),
                start == byte_offset(s, j),
                run_end(s, j + 1, Run::Word) == run_end(s, self.cursor(), Run::Word),
            ensures
                self.cursor() == run_end(s, j + 1, Run::Word),
            decreases s.len() - self.cursor(),
        {
            match self.peek() {
                Some(ch) => {
                    if Self::is_alphanumeric_with_underscore(ch) {
                        self.advance();
                    } else {
                        break ;
                    }
                },
                None => break ,
            }
        }
        let lexeme = self.input_slice(start, Ghost(j));
        // if the word is a keyword, a fully formed Token is provided otherwise we construct one as
        // an identifier
        match Self::check_keyword(start, lexeme) {
            Some(token) => token,
            None => Token { kind: TokenKind::Identifier, lexeme, position: start },
        }
    }

    /// Lex a number. The first chracter should have been 'peeked' but will be advanced on behalf
    /// of the caller.
    fn lex_number(&mut self) -> (t: Token<'a>)
        requires
            old(self).wf(),
            old(self).cursor() < old(self).text().len(),
        ensures
            final(self).wf(),
            final(self).text() == old(self).text(),
            number_token(old(self).text(), old(self).cursor()) == (t@, final(self).cursor()),
    {
        let ghost s = self.input@;
        let ghost j = self.chars_read@;
        // lex a number until we can't
        let start = self.current;
        self.advance();
        loop
            invariant
                self.wf(),
                self.text() == s,
                0 <= j < self.cursor() <= s.len(),
                start == byte_offset(s, j),
                run_end(s, j + 1, Run::Digits) == run_end(s, self.cursor(), Run::Digits),
            ensures
                self.cursor() == run_end(s, j + 1, Run::Digits),
            decreases s.len() - self.cursor(),
        {
            match self.peek() {
                Some(ch) => {
                    if char_is_numeric(ch) {
                        self.advance();
                    } else {
                        break ;
                    }
                },
                None => break ,
            }
        }
        let lexeme = self.input_slice(start, Ghost(j));
        Token { kind: TokenKind::Number, lexeme, position: start }
    }

    /// Lex a string. The first quote should have been 'peeked' but will be advanced on behalf of
    /// the caller.
    fn lex_string(&mut self) -> (t: Token<'a>)
        requires
            old(self).wf(),
            old(self).cursor() < old(self).text().len(),
            old(self).text()[old(self).cursor()] == '\'',
        ensures
            final(self).wf(),
            final(self).text() == old(self).text(),
            string_token(old(self).text(), old(self).cursor()) == (t@, final(self).cursor()),
    {
        let ghost s = self.input@;
        let ghost j = self.chars_read@;
        proof {
            lemma_byte_offset_next(s, j);
            lemma_encode_single(s[j]);
        }
        // lex a string until another '
        let start = self.current;
        self.advance();
        loop
            invariant
                self.wf(),
                self.text() == s,
                0 <= j < self.cursor() <= s.len(),
                start + 1 == byte_offset(s, j + 1),
                run_end(s, j + 1, Run::Quoted) == run_end(s, self.cursor(), Run::Quoted),
            ensures
                self.cursor() == run_end(s, j + 1, Run::Quoted),
            decreases s.len() - self.cursor(),
        {
            match self.peek() {
                Some(ch) => {
                    if ch != '\'' {
                        self.advance();
                    } else {
                        break ;
                    }
                },
                None => break ,
            }
        }
        // now we are at the ', so slice from one past the quote then advance
        let lexeme = self.input_slice(start + 1, Ghost(j + 1));
        self.advance();
        Token { kind: TokenKind::String, lexeme, position: start + 1 }
    }

    /// Try to lex an operator with the 'peeked' character, 'c'. This could return an Error if an
    /// invalid character that isn't an operator is encountered.
    fn lex_operator(&mut self, c: char) -> (r: Result<Token<'a>, LexerError<'a>>)
        requires
            old(self).wf(),
            old(self).cursor() < old(self).text().len(),
            old(self).text()[old(self).cursor()] == c,
        ensures
            final(self).wf(),
            final(self).text() == old(self).text(),
            match operator_at(old(self).text(), old(self).cursor()) {
                Some((kind, e)) => r matches Ok(t) && t@ == token_at(
                    old(self).text(),
                    kind,
                    old(self).cursor(),
                    e,
                ) && final(self).cursor() == e,
                None => r matches Err(err) && err@ == (LexerErrorView {
                    input: old(self).text(),
                    position: byte_offset(old(self).text(), old(self).cursor()) as usize,
                    character: c,
                }) && final(self).cursor() == old(self).cursor(),
            },
    {
        let ghost j = self.chars_read@;
        let start = self.current;
        let token = match c {
            '+' => {
                self.advance();
                Token { kind: TokenKind::Plus, lexeme: self.input_slice(start, Ghost(j)), position: start }
            },
            '=' => {
                self.advance();
                Token { kind: TokenKind::Equal, lexeme: self.input_slice(start, Ghost(j)), position: start }
            },
            '<' => {
                self.advance();
                let kind = match self.peek() {
                    Some(ch) => {
                        if ch == '=' {
                            self.advance();
                            TokenKind::LessThanEqual
                        } else {
                            TokenKind::LessThan
                        }
                    },
                    None => TokenKind::LessThan,
                };
                Token { kind, lexeme: self.input_slice(start, Ghost(j)), position: start }
            },
            '>' => {
                self.advance();
                let kind = match self.peek() {
                    Some(ch) => {
                        if ch == '=' {
                            self.advance();
                            TokenKind::GreaterThanEqual
                        } else {
                            TokenKind::GreaterThan
                        }
                    },
                    None => TokenKind::GreaterThan,
                };
                Token { kind, lexeme: self.input_slice(start, Ghost(j)), position: start }
            },
            '(' => {
                self.advance();
                Token { kind: TokenKind::LeftParen, lexeme: self.input_slice(start, Ghost(j)), position: start }
            },
            ')' => {
                self.advance();
                Token { kind: TokenKind::RightParen, lexeme: self.input_slice(start, Ghost(j)), position: start }
            },
            ',' => {
                self.advance();
                Token { kind: TokenKind::Comma, lexeme: self.input_slice(start, Ghost(j)), position: start }
            },
            _ => {
                // anything else, we have hit an error at this spot
                return Err(LexerError { input: self.input, position: self.current, character: c });
            },
        };
        Ok(token)
    }


    /// The brains of the lexer to actually lex out a sequence of Token's
    pub fn lex(&mut self) -> (r: Result<Vec<Token<'a>>, LexerError<'a>>)
        requires
            old(self).wf(),
        ensures
            final(self).wf(),
            final(self).text() == old(self).text(),
            match r {
                Ok(tokens) => lex_spec(old(self).text(), old(self).cursor()) == Ok::<
                    Seq<TokenView>,
                    LexerErrorView,
                >(token_views(tokens@)) && final(self).cursor() == old(self).text().len()
                    && final(self).offset() == utf8_len(old(self).text()),
                Err(e) => lex_spec(old(self).text(), old(self).cursor()) == Err::<
                    Seq<TokenView>,
                    LexerErrorView,
                >(e@) && e@.position == final(self).offset(),
            },
    {
        let ghost s = self.input@;
        let ghost k0 = self.chars_read@;
        let mut tokens: Vec<Token<'a>> = Vec::new();
        while !self.finished()
            invariant
                self.wf(),
                self.text() == s,
                s == old(self).text(),
                k0 == old(self).cursor(),
                0 <= k0 <= self.cursor(),
                lex_from(s, k0) == prepend(token_views(tokens@), lex_from(s, self.cursor())),
            ensures
                self.wf(),
                self.text() == s,
                self.cursor() == s.len(),
                lex_from(s, k0) == prepend(token_views(tokens@), lex_from(s, self.cursor())),
            decreases s.len() - self.cursor(),
        {
            let ghost k1 = self.cursor();
            // eat whitespace
            loop
                invariant
                    self.wf(),
                    self.text() == s,
                    k1 <= self.cursor() <= s.len(),
                    run_end(s, k1, Run::Blank) == run_end(s, self.cursor(), Run::Blank),
                ensures
                    self.wf(),
                    self.text() == s,
                    self.cursor() == run_end(s, k1, Run::Blank),
                decreases s.len() - self.cursor(),
            {
                match self.peek() {
                    Some(c) => {
                        if char_is_whitespace(c) {
                            self.advance();
                        } else {
                            break ;
                        }
                    },
                    None => break ,
                }
            }
            // peek at the next character to choose our path
            let c = match self.peek() {
                Some(c) => c,
                None => {
                    // break if there is somehow no more
                    proof {
                        assert(lex_from(s, self.cursor()) == lex_from(s, k1));
                    }
                    break ;
                },
            };
            let ghost j = self.cursor();
            let ghost before = token_views(tokens@);
            proof {
                lemma_token_from_advances(s, j);
            }
            if Self::is_alphabetic_with_underscore(c) {
                let t = self.lex_word();
                tokens.push(t);
            } else if char_is_numeric(c) {
                let t = self.lex_number();
                tokens.push(t);
            } else if c == '\'' {
                let t = self.lex_string();
                tokens.push(t);
            } else {
                // anything else is either an operator or an invalid character
                match self.lex_operator(c) {
                    Ok(t) => tokens.push(t),
                    Err(e) => {
                        proof {
                            assert(lex_from(s, k0) == prepend(before, lex_from(s, j)));
                        }
                        return Err(e);
                    },
                }
            }
            proof {
                let t = tokens@.last()@;
                assert(token_views(tokens@) =~= before + seq![t]);
                assert(before + (seq![t] + lex_from(s, self.cursor())->Ok_0) =~= before + seq![t]
                    + lex_from(s, self.cursor())->Ok_0);
            }
        }
        // push final Eof token
        proof {
            reveal_strlit("");
        }
        let eof = Token { kind: TokenKind::Eof, lexeme: "", position: self.input.len() };
        let ghost body = tokens@;
        tokens.push(eof);
        proof {
            assert(token_views(tokens@) =~= token_views(body).push(eof@));
            assert(lex_from(s, s.len() as int) == Ok::<Seq<TokenView>, LexerErrorView>(Seq::empty()));
            assert(token_views(body) + Seq::<TokenView>::empty() =~= token_views(body));
            assert(eof@.lexeme =~= Seq::<char>::empty());
            assert(eof@ == eof_token(s));
            assert(s.take(s.len() as int) =~= s);
        }
        Ok(tokens)
    }

}

// ---------------------------------------------------------------------------
// Laws
// ---------------------------------------------------------------------------

/// Whether the token's lexeme is the text of `s` that starts at character `a`, and its
/// position is the byte offset of `a`.
pub open spec fn anchored(s: Seq<char>, t: TokenView, a: int) -> bool {
    &&& 0 <= a
    &&& a + t.lexeme.len() <= s.len()
    &&& t.position == byte_offset(s, a)
    &&& t.lexeme == s.subrange(a, a + t.lexeme.len())
}

/// Whether the token is a piece of the text `s` at or after character `k`.
pub open spec fn in_text(s: Seq<char>, t: TokenView, k: int) -> bool {
    exists|a: int| k <= a && #[trigger] anchored(s, t, a)
}

/// The character index where the lexeme of the token that starts at `j` begins: after the
/// opening quote for a string, at `j` otherwise.
pub open spec fn lexeme_start(s: Seq<char>, j: int) -> int {
    if !is_word_start(s[j]) && !numeric(s[j]) && s[j] == '\'' {
        j + 1
    } else {
        j
    }
}

/// The character indexes where the lexemes of the tokens of `lex_from(s, i)` begin.
pub open spec fn lex_anchors(s: Seq<char>, i: int) -> Seq<int>
    decreases s.len() - i,
{
    let j = run_end(s, i, Run::Blank);
    if i < 0 || j >= s.len() {
        Seq::empty()
    } else {
        match token_from(s, j) {
            None => Seq::empty(),
            Some((t, e)) => {
                proof {
                    lemma_run_end(s, i, Run::Blank);
                    lemma_token_from_advances(s, j);
                }
                seq![lexeme_start(s, j)] + lex_anchors(s, e)
            },
        }
    }
}

/// The token that starts at `j` is anchored at its lexeme start, never an end marker, and
/// the next token cannot start before its lexeme ends.
proof fn lemma_token_from_anchored(s: Seq<char>, j: int)
    requires
        0 <= j < s.len(),
        utf8_len(s) <= usize::MAX,
    ensures
        token_from(s, j) matches Some((t, e)) ==> {
            &&& anchored(s, t, lexeme_start(s, j))
            &&& j <= lexeme_start(s, j)
            &&& t.kind != TokenKind::Eof
            &&& (lexeme_start(s, j) < e || e == s.len())
        },
{
    lemma_token_from_advances(s, j);
    lemma_run_end(s, j + 1, Run::Word);
    lemma_run_end(s, j + 1, Run::Digits);
    lemma_run_end(s, j + 1, Run::Quoted);
    lemma_byte_offset_monotonic(s, j, s.len() as int);
    lemma_byte_offset_monotonic(s, j + 1, s.len() as int);
    assert(s.take(s.len() as int) =~= s);
    if let Some((t, e)) = token_from(s, j) {
        let a = lexeme_start(s, j);
        assert(t.lexeme.len() == e - a || t.lexeme.len() + 1 == e - a || e == s.len());
        assert(s.subrange(a, a + t.lexeme.len()) =~= t.lexeme);
    }
}

/// What `lex_from` gives is anchored in the text at increasing character indexes, and holds
/// no end marker; an error names a character of the text that starts no token.
proof fn lemma_lex_from_facts(s: Seq<char>, i: int)
    requires
        0 <= i <= s.len(),
        utf8_len(s) <= usize::MAX,
    ensures
        lex_from(s, i) matches Ok(ts) ==> {
            let an = lex_anchors(s, i);
            &&& an.len() == ts.len()
            &&& forall|x: int| 0 <= x < ts.len() ==> i <= an[x] && anchored(s, #[trigger] ts[x], an[x])
            &&& forall|x: int, y: int| 0 <= x < y < ts.len() ==> #[trigger] an[x] < #[trigger] an[y]
            &&& forall|x: int| 0 <= x < ts.len() ==> (#[trigger] ts[x]).kind != TokenKind::Eof
        },
        lex_from(s, i) matches Err(e) ==> exists|a: int|
            i <= a < s.len() && e == (LexerErrorView {
                input: s,
                position: byte_offset(s, a) as usize,
                character: s[a],
            }) && #[trigger] token_from(s, a) is None,
    decreases s.len() - i,
{
    lemma_run_end(s, i, Run::Blank);
    let j = run_end(s, i, Run::Blank);
    if j < s.len() {
        lemma_token_from_anchored(s, j);
        lemma_token_from_advances(s, j);
        if let Some((t, e)) = token_from(s, j) {
            lemma_lex_from_facts(s, e);
            if let Err(err) = lex_from(s, e) {
                let a = choose|a: int|
                    e <= a < s.len() && err == (LexerErrorView {
                        input: s,
                        position: byte_offset(s, a) as usize,
                        character: s[a],
                    }) && #[trigger] token_from(s, a) is None;
                assert(token_from(s, a) is None);
            }
            if let Ok(rest) = lex_from(s, e) {
                let ts = seq![t] + rest;
                let an = lex_anchors(s, i);
                let tail = lex_anchors(s, e);
                assert(an =~= seq![lexeme_start(s, j)] + tail);
                assert(lex_from(s, i) == Ok::<Seq<TokenView>, LexerErrorView>(ts));
                if rest.len() > 0 {
                    lemma_run_end(s, e, Run::Blank);
                    assert(e < s.len());
                }
                assert forall|x: int| 0 <= x < ts.len() implies i <= an[x] && anchored(s, #[trigger] ts[x], an[x]) by {
                    if x == 0 {
                        assert(ts[0] == t && an[0] == lexeme_start(s, j));
                    } else {
                        assert(ts[x] == rest[x - 1]);
                        assert(an[x] == tail[x - 1]);
                    }
                }
                assert forall|x: int, y: int| 0 <= x < y < ts.len() implies #[trigger] an[x] < #[trigger] an[y] by {
                    assert(an[y] == tail[y - 1]);
                    assert(rest[y - 1] == ts[y]);
                    assert(e <= tail[y - 1]);
                    if x > 0 {
                        assert(an[x] == tail[x - 1]);
                        assert(tail[x - 1] < tail[y - 1]);
                    }
                }
                assert forall|x: int| 0 <= x < ts.len() implies (#[trigger] ts[x]).kind != TokenKind::Eof by {
                    if x > 0 {
                        assert(ts[x] == rest[x - 1]);
                    }
                }
                assert(an.len() == ts.len());
            } else {
                assert(lex_from(s, i) is Err);
            }
        } else {
            assert(token_from(s, j) is None);
        }
    } else {
        assert(lex_from(s, i) == Ok::<Seq<TokenView>, LexerErrorView>(Seq::empty()));
    }
}

/// Lexing ends with exactly one end marker: a successful result is the tokens, none of them
/// an end marker, followed by an empty-lexeme end marker at the byte length of the input.
pub proof fn law_lex_ends_with_eof(s: Seq<char>, k: int)
    requires
        0 <= k <= s.len(),
        utf8_len(s) <= usize::MAX,
    ensures
        lex_spec(s, k) matches Ok(ts) ==> {
            &&& ts.len() >= 1
            &&& ts.last() == eof_token(s)
            &&& ts.last().lexeme.len() == 0
            &&& ts.last().position == utf8_len(s)
            &&& forall|x: int| 0 <= x < ts.len() - 1 ==> (#[trigger] ts[x]).kind != TokenKind::Eof
        },
{
    lemma_lex_from_facts(s, k);
    if let Ok(body) = lex_from(s, k) {
        let ts = body.push(eof_token(s));
        assert forall|x: int| 0 <= x < ts.len() - 1 implies (#[trigger] ts[x]).kind != TokenKind::Eof by {
            assert(ts[x] == body[x]);
        }
    }
}

/// Every token but the end marker stands for a piece of the input: its lexeme is the text
/// that starts at its position, and the positions of the tokens strictly increase, none past
/// the end marker's.
pub proof fn law_tokens_are_input_text(s: Seq<char>, k: int)
    requires
        0 <= k <= s.len(),
        utf8_len(s) <= usize::MAX,
    ensures
        lex_spec(s, k) matches Ok(ts) ==> {
            &&& forall|x: int| 0 <= x < ts.len() - 1 ==> in_text(s, #[trigger] ts[x], k)
            &&& forall|x: int, y: int| #![trigger ts[x], ts[y]]
                0 <= x < y < ts.len() - 1 ==> ts[x].position < ts[y].position
            &&& forall|x: int| #![trigger ts[x]] 0 <= x < ts.len() ==> ts[x].position <= ts.last().position
        },
{
    lemma_lex_from_facts(s, k);
    if let Ok(body) = lex_from(s, k) {
        let ts = body.push(eof_token(s));
        assert(lex_spec(s, k) == Ok::<Seq<TokenView>, LexerErrorView>(ts));
        let an = lex_anchors(s, k);
        lemma_byte_offset_monotonic(s, 0, s.len() as int);
        assert(s.take(s.len() as int) =~= s);
        assert forall|x: int| 0 <= x < ts.len() - 1 implies in_text(s, #[trigger] ts[x], k) by {
            assert(ts[x] == body[x]);
            assert(k <= an[x] && anchored(s, ts[x], an[x]));
        }
        assert forall|x: int, y: int| #![trigger ts[x], ts[y]] 0 <= x < y < ts.len() - 1 implies ts[x].position < ts[y].position by {
            assert(ts[x] == body[x] && ts[y] == body[y]);
            assert(anchored(s, body[x], an[x]) && anchored(s, body[y], an[y]));
            assert(an[x] < an[y]);
            lemma_byte_offset_monotonic(s, an[x], an[y]);
        }
        assert forall|x: int| #![trigger ts[x]] 0 <= x < ts.len() implies ts[x].position <= ts.last().position by {
            if x < ts.len() - 1 {
                assert(ts[x] == body[x]);
                assert(anchored(s, body[x], an[x]));
                lemma_byte_offset_monotonic(s, an[x], s.len() as int);
            }
        }
    }
}

/// A lexing error names a character of the input: the error's character is the one at its
/// position, no token can start with it there, and the error carries the whole input.
pub proof fn law_lex_error_points_at_input(s: Seq<char>, k: int)
    requires
        0 <= k <= s.len(),
        utf8_len(s) <= usize::MAX,
    ensures
        lex_spec(s, k) matches Err(e) ==> {
            &&& e.input == s
            &&& exists|a: int| #![trigger s[a]]
                k <= a < s.len() && e.position == byte_offset(s, a) && e.character == s[a]
                    && token_from(s, a) is None
        },
{
    lemma_lex_from_facts(s, k);
    if let Err(e) = lex_from(s, k) {
        let a = choose|a: int|
            k <= a < s.len() && e == (LexerErrorView {
                input: s,
                position: byte_offset(s, a) as usize,
                character: s[a],
            }) && #[trigger] token_from(s, a) is None;
        lemma_byte_offset_monotonic(s, a, s.len() as int);
        assert(s.take(s.len() as int) =~= s);
        assert(s[a] == e.character);
    }
}

/// Lexing again after a successful lex, from the end of the input, gives the end marker alone.
pub proof fn law_lex_at_end(s: Seq<char>)
    ensures
        lex_spec(s, s.len() as int) == Ok::<Seq<TokenView>, LexerErrorView>(seq![eof_token(s)]),
{
    assert(Seq::<TokenView>::empty().push(eof_token(s)) =~= seq![eof_token(s)]);
}

/// Keywords are recognized without regard to case: two words with the same lowercase form
/// lex to the same kind.
pub proof fn law_keywords_ignore_case(w1: Seq<char>, w2: Seq<char>)
    requires
        lowercase(w1) == lowercase(w2),
    ensures
        word_kind(w1) == word_kind(w2),
{
}

/// The token one byte further on in the text: the same kind and lexeme, the position plus one.
pub open spec fn shifted(t: TokenView) -> TokenView {
    TokenView { kind: t.kind, lexeme: t.lexeme, position: (t.position + 1) as usize }
}

/// Each token one byte further on.
pub open spec fn shifted_all(ts: Seq<TokenView>) -> Seq<TokenView> {
    ts.map_values(|t: TokenView| shifted(t))
}

/// A space before the text moves every byte offset on by one.
proof fn lemma_byte_offset_after_space(s: Seq<char>, a: int)
    requires
        0 <= a <= s.len(),
    ensures
        byte_offset(seq![' '] + s, a + 1) == byte_offset(s, a) + 1,
        utf8_len(seq![' '] + s) == utf8_len(s) + 1,
{
    let s2 = seq![' '] + s;
    assert(s2.take(a + 1) =~= seq![' '] + s.take(a));
    lemma_encode_concat(seq![' '], s.take(a));
    lemma_encode_concat(seq![' '], s);
    lemma_encode_single(' ');
}

/// A space before the text moves every run on by one character.
proof fn lemma_run_end_after_space(s: Seq<char>, i: int, run: Run)
    requires
        0 <= i <= s.len(),
    ensures
        run_end(seq![' '] + s, i + 1, run) == run_end(s, i, run) + 1,
    decreases s.len() - i,
{
    let s2 = seq![' '] + s;
    if i < s.len() {
        assert(s2[i + 1] == s[i]);
        lemma_run_end_after_space(s, i + 1, run);
    }
}

/// A space before the text moves the token that starts at `j` one character and one byte on.
proof fn lemma_token_after_space(s: Seq<char>, j: int)
    requires
        0 <= j < s.len(),
        utf8_len(s) < usize::MAX,
    ensures
        match token_from(s, j) {
            None => token_from(seq![' '] + s, j + 1) is None,
            Some((t, e)) => token_from(seq![' '] + s, j + 1) == Some((shifted(t), e + 1)),
        },
{
    let s2 = seq![' '] + s;
    assert(s2[j + 1] == s[j]);
    if j + 1 < s.len() {
        assert(s2[j + 2] == s[j + 1]);
    }
    lemma_run_end(s, j + 1, Run::Word);
    lemma_run_end(s, j + 1, Run::Digits);
    lemma_run_end(s, j + 1, Run::Quoted);
    lemma_run_end_after_space(s, j + 1, Run::Word);
    lemma_run_end_after_space(s, j + 1, Run::Digits);
    lemma_run_end_after_space(s, j + 1, Run::Quoted);
    lemma_byte_offset_after_space(s, j);
    lemma_byte_offset_after_space(s, j + 1);
    lemma_byte_offset_monotonic(s, j + 1, s.len() as int);
    lemma_byte_offset_monotonic(s, j, s.len() as int);
    assert(s.take(s.len() as int) =~= s);
    let ew = run_end(s, j + 1, Run::Word);
    let ed = run_end(s, j + 1, Run::Digits);
    let eq = run_end(s, j + 1, Run::Quoted);
    assert(s2.subrange(j + 1, ew + 1) =~= s.subrange(j, ew));
    assert(s2.subrange(j + 1, ed + 1) =~= s.subrange(j, ed));
    assert(s2.subrange(j + 2, eq + 1) =~= s.subrange(j + 1, eq));
    if j + 2 <= s.len() {
        assert(s2.subrange(j + 1, j + 3) =~= s.subrange(j, j + 2));
    }
    assert(s2.subrange(j + 1, j + 2) =~= s.subrange(j, j + 1));
}

/// Lexing after a leading space gives the tokens of the text one byte further on.
proof fn lemma_lex_from_after_space(s: Seq<char>, i: int)
    requires
        0 <= i <= s.len(),
        utf8_len(s) < usize::MAX,
    ensures
        match lex_from(s, i) {
            Ok(ts) => lex_from(seq![' '] + s, i + 1) == Ok::<Seq<TokenView>, LexerErrorView>(
                shifted_all(ts),
            ),
            Err(e) => lex_from(seq![' '] + s, i + 1) == Err::<Seq<TokenView>, LexerErrorView>(
                LexerErrorView {
                    input: seq![' '] + s,
                    position: (e.position + 1) as usize,
                    character: e.character,
                },
            ),
        },
    decreases s.len() - i,
{
    let s2 = seq![' '] + s;
    lemma_run_end(s, i, Run::Blank);
    lemma_run_end_after_space(s, i, Run::Blank);
    let j = run_end(s, i, Run::Blank);
    if j >= s.len() {
        assert(shifted_all(Seq::<TokenView>::empty()) =~= Seq::<TokenView>::empty());
    } else {
        lemma_token_after_space(s, j);
        lemma_token_from_advances(s, j);
        assert(s2[j + 1] == s[j]);
        match token_from(s, j) {
            None => {
                lemma_byte_offset_after_space(s, j);
                lemma_byte_offset_monotonic(s, j, s.len() as int);
                assert(s.take(s.len() as int) =~= s);
            },
            Some((t, e)) => {
                lemma_lex_from_after_space(s, e);
                if let Ok(rest) = lex_from(s, e) {
                    assert(shifted_all(seq![t] + rest) =~= seq![shifted(t)] + shifted_all(rest));
                }
            },
        }
    }
}

/// A space before the text shifts every token one byte on: lexing it gives the tokens of
/// the text with each position plus one (the end marker's too), or the error of the text
/// one byte further on.
pub proof fn law_leading_space_shifts_tokens(s: Seq<char>)
    requires
        utf8_len(s) < usize::MAX,
    ensures
        lex_spec(s, 0) matches Ok(ts) ==> lex_spec(seq![' '] + s, 0) == Ok::<
            Seq<TokenView>,
            LexerErrorView,
        >(shifted_all(ts)),
        lex_spec(s, 0) matches Err(e) ==> lex_spec(seq![' '] + s, 0) == Err::<
            Seq<TokenView>,
            LexerErrorView,
        >(
            LexerErrorView {
                input: seq![' '] + s,
                position: (e.position + 1) as usize,
                character: e.character,
            },
        ),
{
    let s2 = seq![' '] + s;
    assert(s2[0] == ' ');
    assert(whitespace(' '));
    assert(run_end(s2, 0, Run::Blank) == run_end(s2, 1, Run::Blank));
    assert(lex_from(s2, 0) == lex_from(s2, 1));
    lemma_lex_from_after_space(s, 0);
    lemma_byte_offset_after_space(s, s.len() as int);
    if let Ok(body) = lex_from(s, 0) {
        assert(shifted_all(body.push(eof_token(s))) =~= shifted_all(body).push(eof_token(s2)));
    }
}


/// The lexer's cursor steps from character to character of the text: every character index
/// stands at a character boundary of the UTF-8 bytes, the step over character `k` moves the
/// byte offset on by that character's width in bytes, and the cursor at the end of the text
/// stands at its byte length.
pub proof fn law_cursor_steps_by_character(s: Seq<char>, k: int)
    requires
        0 <= k <= s.len(),
    ensures
        vstd::utf8::is_char_boundary(vstd::utf8::encode_utf8(s), byte_offset(s, k) as int),
        k < s.len() ==> byte_offset(s, k + 1) == byte_offset(s, k) + utf8_len(seq![s[k]]),
        byte_offset(s, s.len() as int) == utf8_len(s),
{
    lemma_char_boundary(s, k);
    if k < s.len() {
        lemma_byte_offset_next(s, k);
    }
    assert(s.take(s.len() as int) =~= s);
}

} // verus!
