use crate::lexer::classes::{CharClass, Classifier};
use crate::lexer::scan::{
    begin, emit, emit_operator, emit_word, flush, initial, is_keyword, is_operator_text,
    lemma_scan_failure_stays, lemma_scan_next, on_alpha, on_digit, on_operator, on_quote,
    on_structural, on_whitespace, open_comment, opens_comment, scan, scan_char, step, tokens_of,
    LexErrorView, ScanState, Scanned, State,
};
use crate::laws::lexing::{fits_kind, lemma_token_lines, lemma_tokens_fit_their_kinds};
use crate::text::{chars_of, same_text, string_of};
use crate::token::token::{token_views, Token, TokenType, TokenView};
use vstd::prelude::*;
use vstd::string::StringExecFns;

verus! {

/// Why a source text has no tokens.
#[derive(Debug, PartialEq)]
pub enum LexError {
    /// A character of no class.
    InvalidCharacter(char),
    /// A run of operator characters that is no operator.
    InvalidOperator(String),
}

impl View for LexError {
    type V = LexErrorView;

    open spec fn view(&self) -> LexErrorView {
        match self {
            LexError::InvalidCharacter(c) => LexErrorView::InvalidCharacter(*c),
            LexError::InvalidOperator(text) => LexErrorView::InvalidOperator(text@),
        }
    }
}

impl LexError {
    /// The text of the error.
    pub open spec fn text(self) -> Seq<char> {
        match self {
            LexError::InvalidCharacter(c) => "Invalid character: "@.push(c),
            LexError::InvalidOperator(text) => "Invalid operator: "@ + text@,
        }
    }

    /// The text of the error, for display.
    pub fn message(&self) -> (s: String)
        ensures
            s@ == self.text(),
    {
        match self {
            LexError::InvalidCharacter(c) => {
                let mut s = "Invalid character: ".to_owned();
                s.push(*c);
                s
            },
            LexError::InvalidOperator(text) => {
                let mut s = "Invalid operator: ".to_owned();
                s.append(text.as_str());
                s
            },
        }
    }
}

/// The model of the outcome of a step: the scanner it leaves, or the failure.
pub open spec fn stepped(r: Result<(), LexError>, st: ScanState) -> Scanned {
    match r {
        Ok(_) => Ok(st),
        Err(e) => Err(e@),
    }
}

/// The model of the outcome of lexing.
pub open spec fn lexed(r: Result<Vec<Token>, LexError>) -> Result<Seq<TokenView>, LexErrorView> {
    match r {
        Ok(tokens) => Ok(token_views(tokens@)),
        Err(e) => Err(e@),
    }
}

/// Whether a word is reserved.
pub fn is_reserved(word: &str) -> (r: bool)
    ensures
        r == is_keyword(word@),
{
    same_text(word, "let") || same_text(word, "if") || same_text(word, "else") || same_text(
        word,
        "funk",
    ) || same_text(word, "print") || same_text(word, "println") || same_text(word, "true")
        || same_text(word, "false") || same_text(word, "head") || same_text(word, "tail")
        || same_text(word, "len") || same_text(word, "type") || same_text(word, "is_bool")
        || same_text(word, "is_number") || same_text(word, "is_string") || same_text(
        word,
        "is_list",
    ) || same_text(word, "is_function") || same_text(word, "input") || same_text(word, "return")
        || same_text(word, "bool") || same_text(word, "int") || same_text(word, "str")
        || same_text(word, "list") || same_text(word, "function")
}

/// Whether a run of operator characters is an operator.
pub fn is_operator(text: &str) -> (r: bool)
    ensures
        r == is_operator_text(text@),
{
    same_text(text, "+") || same_text(text, "-") || same_text(text, "*") || same_text(text, "/")
        || same_text(text, "%") || same_text(text, "=") || same_text(text, "==") || same_text(
        text,
        ">=",
    ) || same_text(text, "<=") || same_text(text, ">") || same_text(text, "<") || same_text(
        text,
        "!=",
    )
}

/// The vector that holds one character.
fn single(c: char) -> (v: Vec<char>)
    ensures
        v@ == seq![c],
{
    let mut v: Vec<char> = Vec::new();
    v.push(c);
    v
}

/// A scanner over a source text.
pub struct Lexer {
    input: String,
    tokens: Vec<Token>,
    state: State,
    buffer: Vec<char>,
    current_line: i32,
}

impl View for Lexer {
    type V = ScanState;

    closed spec fn view(&self) -> ScanState {
        ScanState {
            mode: self.state,
            buffer: self.buffer@,
            tokens: token_views(self.tokens@),
            line: self.current_line,
        }
    }
}

impl Lexer {
    /// The source text.
    pub closed spec fn source(&self) -> Seq<char> {
        self.input@
    }

    /// A scanner at the start of the given text.
    pub fn new(input: String) -> (lexer: Lexer)
        ensures
            lexer.source() == input@,
            lexer@ == initial(),
    {
        let lexer = Lexer {
            input,
            tokens: Vec::new(),
            state: State::Start,
            buffer: Vec::new(),
            current_line: 1,
        };
        assert(lexer@.tokens =~= Seq::empty());
        lexer
    }

    /// The tokens of the source text, or why it has none. Every token is on
    /// a line, counted from 1, and has a text that fits its kind.
    pub fn lex(&mut self) -> (r: Result<Vec<Token>, LexError>)
        ensures
            lexed(r) == tokens_of(old(self).source()),
            final(self).source() == old(self).source(),
            r matches Ok(tokens) ==> forall|i: int|
                0 <= i < tokens.len() ==> (#[trigger] tokens[i]).line >= 1 && fits_kind(
                    tokens[i]@,
                ),
    {
        proof {
            lemma_token_lines(self.source());
            lemma_tokens_fit_their_kinds(self.source());
        }
        let classes = Classifier::new();
        let chars = chars_of(self.input.as_str());
        self.tokens = Vec::new();
        self.state = State::Start;
        self.buffer = Vec::new();
        self.current_line = 1;
        assert(self@.tokens =~= Seq::empty());
        assert(chars@.take(0) =~= Seq::empty());
        let mut i: usize = 0;
        while i < chars.len()
            invariant
                i <= chars.len(),
                classes.wf(),
                chars@ == old(self).source(),
                self.source() == old(self).source(),
                scan(initial(), chars@.take(i as int)) == Ok::<ScanState, LexErrorView>(self@),
            decreases chars.len() - i,
        {
            proof {
                lemma_scan_next(initial(), chars@, i as int);
            }
            match self.scan_char(&classes, chars[i]) {
                Ok(()) => {},
                Err(e) => {
                    proof {
                        lemma_scan_failure_stays(initial(), chars@, i as int + 1);
                    }
                    return Err(e);
                },
            }
            i += 1;
        }
        assert(chars@.take(i as int) =~= chars@);
        match self.flush() {
            Ok(()) => {},
            Err(e) => {
                return Err(e);
            },
        }
        let mut tokens: Vec<Token> = Vec::new();
        std::mem::swap(&mut self.tokens, &mut tokens);
        assert forall|i: int| 0 <= i < tokens.len() implies (#[trigger] tokens[i]).line >= 1
            && fits_kind(tokens[i]@) by {
            assert(token_views(tokens@)[i].line >= 1);
            assert(fits_kind(token_views(tokens@)[i]));
        }
        Ok(tokens)
    }

    /// One character of the source text.
    pub fn scan_char(&mut self, classes: &Classifier, c: char) -> (r: Result<(), LexError>)
        requires
            classes.wf(),
        ensures
            stepped(r, final(self)@) == scan_char(old(self)@, c),
            final(self).source() == old(self).source(),
    {
        let class = classes.classify(c);
        self.step(class, c)?;
        if c == '\n' && self.current_line < i32::MAX {
            self.current_line = self.current_line + 1;
        }
        Ok(())
    }

    /// One character of the source text, given its class.
    pub fn step(&mut self, class: Option<CharClass>, c: char) -> (r: Result<(), LexError>)
        ensures
            stepped(r, final(self)@) == step(old(self)@, class, c),
            final(self).source() == old(self).source(),
    {
        match self.state {
            State::String => {
                self.buffer.push(c);
                if c == '"' {
                    self.push_string();
                }
                return Ok(());
            },
            State::Comment => {
                let n = self.buffer.len();
                if n > 0 && self.buffer[n - 1] == '*' && c == '/' {
                    self.state = State::Start;
                    self.buffer = Vec::new();
                } else {
                    self.buffer = single(c);
                }
                return Ok(());
            },
            State::LineComment => {
                if c == '\n' {
                    self.state = State::Start;
                }
                return Ok(());
            },
            _ => {},
        }
        let n = self.buffer.len();
        if matches!(self.state, State::Operator) && n > 0 && self.buffer[n - 1] == '/' && (c == '*'
            || c == '/') {
            return self.comment(c);
        }
        match class {
            None => Err(LexError::InvalidCharacter(c)),
            Some(CharClass::Digit) => self.number(c),
            Some(CharClass::Alpha) => self.alpha(c),
            Some(CharClass::Operator) => self.operator(c),
            Some(CharClass::RightParen) => self.right_paren(c),
            Some(CharClass::LeftParen) => self.left_paren(c),
            Some(CharClass::Whitespace) => self.whitespace(),
            Some(CharClass::Semicolon) => self.whitespace(),
            Some(CharClass::Newline) => self.whitespace(),
            Some(CharClass::LeftBrace) => self.left_brace(c),
            Some(CharClass::RightBrace) => self.right_brace(c),
            Some(CharClass::LeftBracket) => self.left_bracket(c),
            Some(CharClass::RightBracket) => self.right_bracket(c),
            Some(CharClass::Comma) => self.comma(c),
            Some(CharClass::Quote) => self.string(c),
        }
    }

    /// Opens a comment at the `*` or `/` that follows a `/`.
    fn comment(&mut self, c: char) -> (r: Result<(), LexError>)
        requires
            opens_comment(old(self)@, c),
        ensures
            stepped(r, final(self)@) == open_comment(old(self)@, c),
            final(self).source() == old(self).source(),
    {
        self.buffer.pop();
        if self.buffer.len() > 0 {
            self.push_operator()?;
        }
        if c == '*' {
            self.state = State::Comment;
        } else {
            self.state = State::LineComment;
        }
        Ok(())
    }

    /// Ends the number, word or operator under way, if there is one.
    fn flush(&mut self) -> (r: Result<(), LexError>)
        ensures
            stepped(r, final(self)@) == flush(old(self)@),
            final(self).source() == old(self).source(),
    {
        match self.state {
            State::Alpha => {
                self.push_alpha();
                Ok(())
            },
            State::Number => {
                self.push_number();
                Ok(())
            },
            State::Operator => self.push_operator(),
            _ => Ok(()),
        }
    }

    fn begin(&mut self, state: State, c: char)
        ensures
            final(self)@ == begin(old(self)@, state, c),
            final(self).source() == old(self).source(),
    {
        self.state = state;
        self.buffer = single(c);
    }

    fn number(&mut self, c: char) -> (r: Result<(), LexError>)
        ensures
            stepped(r, final(self)@) == on_digit(old(self)@, c),
            final(self).source() == old(self).source(),
    {
        if matches!(self.state, State::Alpha) || matches!(self.state, State::Number) {
            self.buffer.push(c);
            return Ok(());
        }
        self.flush()?;
        self.begin(State::Number, c);
        Ok(())
    }

    fn operator(&mut self, c: char) -> (r: Result<(), LexError>)
        ensures
            stepped(r, final(self)@) == on_operator(old(self)@, c),
            final(self).source() == old(self).source(),
    {
        if matches!(self.state, State::Operator) {
            self.buffer.push(c);
            return Ok(());
        }
        self.flush()?;
        self.begin(State::Operator, c);
        Ok(())
    }

    fn whitespace(&mut self) -> (r: Result<(), LexError>)
        ensures
            stepped(r, final(self)@) == on_whitespace(old(self)@),
            final(self).source() == old(self).source(),
    {
        self.flush()?;
        self.state = State::Whitespace;
        self.buffer = Vec::new();
        Ok(())
    }

    fn left_paren(&mut self, c: char) -> (r: Result<(), LexError>)
        ensures
            stepped(r, final(self)@) == on_structural(
                old(self)@,
                c,
                State::LeftParen,
                TokenType::LeftParen,
            ),
            final(self).source() == old(self).source(),
    {
        self.flush()?;
        self.begin(State::LeftParen, c);
        self.push_left_paren();
        Ok(())
    }

    fn right_paren(&mut self, c: char) -> (r: Result<(), LexError>)
        ensures
            stepped(r, final(self)@) == on_structural(
                old(self)@,
                c,
                State::RightParen,
                TokenType::RightParen,
            ),
            final(self).source() == old(self).source(),
    {
        self.flush()?;
        self.begin(State::RightParen, c);
        self.push_right_paren();
        Ok(())
    }

    fn left_brace(&mut self, c: char) -> (r: Result<(), LexError>)
        ensures
            stepped(r, final(self)@) == on_structural(
                old(self)@,
                c,
                State::LeftBrace,
                TokenType::LeftBrace,
            ),
            final(self).source() == old(self).source(),
    {
        self.flush()?;
        self.begin(State::LeftBrace, c);
        self.push_left_brace();
        Ok(())
    }

    fn right_brace(&mut self, c: char) -> (r: Result<(), LexError>)
        ensures
            stepped(r, final(self)@) == on_structural(
                old(self)@,
                c,
                State::RightBrace,
                TokenType::RightBrace,
            ),
            final(self).source() == old(self).source(),
    {
        self.flush()?;
        self.begin(State::RightBrace, c);
        self.push_right_brace();
        Ok(())
    }

    fn left_bracket(&mut self, c: char) -> (r: Result<(), LexError>)
        ensures
            stepped(r, final(self)@) == on_structural(
                old(self)@,
                c,
                State::LeftBracket,
                TokenType::LeftBracket,
            ),
            final(self).source() == old(self).source(),
    {
        self.flush()?;
        self.begin(State::LeftBracket, c);
        self.push_left_bracket();
        Ok(())
    }

    fn right_bracket(&mut self, c: char) -> (r: Result<(), LexError>)
        ensures
            stepped(r, final(self)@) == on_structural(
                old(self)@,
                c,
                State::RightBracket,
                TokenType::RightBracket,
            ),
            final(self).source() == old(self).source(),
    {
        self.flush()?;
        self.begin(State::RightBracket, c);
        self.push_right_bracket();
        Ok(())
    }

    fn comma(&mut self, c: char) -> (r: Result<(), LexError>)
        ensures
            stepped(r, final(self)@) == on_structural(
                old(self)@,
                c,
                State::Comma,
                TokenType::Comma,
            ),
            final(self).source() == old(self).source(),
    {
        self.flush()?;
        self.begin(State::Comma, c);
        self.push_comma();
        Ok(())
    }

    fn alpha(&mut self, c: char) -> (r: Result<(), LexError>)
        ensures
            stepped(r, final(self)@) == on_alpha(old(self)@, c),
            final(self).source() == old(self).source(),
    {
        if matches!(self.state, State::Alpha) {
            self.buffer.push(c);
            return Ok(());
        }
        self.flush()?;
        self.begin(State::Alpha, c);
        Ok(())
    }

    fn string(&mut self, c: char) -> (r: Result<(), LexError>)
        ensures
            stepped(r, final(self)@) == on_quote(old(self)@, c),
            final(self).source() == old(self).source(),
    {
        self.flush()?;
        self.begin(State::String, c);
        Ok(())
    }

    /// The gathered text becomes a token of the given kind.
    fn push_token(&mut self, kind: TokenType)
        ensures
            final(self)@ == emit(old(self)@, kind),
            final(self).source() == old(self).source(),
    {
        let token = Token::new(kind, string_of(&self.buffer), self.current_line);
        assert(token_views(self.tokens@.push(token)) =~= token_views(self.tokens@).push(token@));
        self.tokens.push(token);
        self.buffer = Vec::new();
    }

    fn push_alpha(&mut self)
        ensures
            final(self)@ == emit_word(old(self)@),
            final(self).source() == old(self).source(),
    {
        let word = string_of(&self.buffer);
        if is_reserved(word.as_str()) {
            self.push_token(TokenType::Keyword);
        } else {
            self.push_token(TokenType::Identifier);
        }
    }

    fn push_number(&mut self)
        ensures
            final(self)@ == emit(old(self)@, TokenType::Number),
            final(self).source() == old(self).source(),
    {
        self.push_token(TokenType::Number);
    }

    fn push_operator(&mut self) -> (r: Result<(), LexError>)
        ensures
            stepped(r, final(self)@) == emit_operator(old(self)@),
            final(self).source() == old(self).source(),
    {
        let text = string_of(&self.buffer);
        if !is_operator(text.as_str()) {
            return Err(LexError::InvalidOperator(text));
        }
        self.push_token(TokenType::Operator);
        Ok(())
    }

    fn push_left_paren(&mut self)
        ensures
            final(self)@ == emit(old(self)@, TokenType::LeftParen),
            final(self).source() == old(self).source(),
    {
        self.push_token(TokenType::LeftParen);
    }

    fn push_right_paren(&mut self)
        ensures
            final(self)@ == emit(old(self)@, TokenType::RightParen),
            final(self).source() == old(self).source(),
    {
        self.push_token(TokenType::RightParen);
    }

    fn push_left_brace(&mut self)
        ensures
            final(self)@ == emit(old(self)@, TokenType::LeftBrace),
            final(self).source() == old(self).source(),
    {
        self.push_token(TokenType::LeftBrace);
    }

    fn push_right_brace(&mut self)
        ensures
            final(self)@ == emit(old(self)@, TokenType::RightBrace),
            final(self).source() == old(self).source(),
    {
        self.push_token(TokenType::RightBrace);
    }

    fn push_left_bracket(&mut self)
        ensures
            final(self)@ == emit(old(self)@, TokenType::LeftBracket),
            final(self).source() == old(self).source(),
    {
        self.push_token(TokenType::LeftBracket);
    }

    fn push_right_bracket(&mut self)
        ensures
            final(self)@ == emit(old(self)@, TokenType::RightBracket),
            final(self).source() == old(self).source(),
    {
        self.push_token(TokenType::RightBracket);
    }

    fn push_comma(&mut self)
        ensures
            final(self)@ == emit(old(self)@, TokenType::Comma),
            final(self).source() == old(self).source(),
    {
        self.push_token(TokenType::Comma);
    }

    /// The gathered text becomes a string token, and the string is closed.
    fn push_string(&mut self)
        ensures
            final(self)@ == (ScanState { mode: State::Start, ..emit(old(self)@, TokenType::String) }),
            final(self).source() == old(self).source(),
    {
        self.push_token(TokenType::String);
        self.state = State::Start;
    }
}

} // verus!
