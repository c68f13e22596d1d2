use crate::lexer::classes::{class_of, CharClass};
use crate::token::token::{TokenType, TokenView};
use vstd::prelude::*;

verus! {

/// What the scanner is in the middle of.
#[derive(PartialEq, Eq, Structural, Clone, Copy, Debug)]
pub enum State {
    Start,
    Number,
    Operator,
    Whitespace,
    LeftParen,
    RightParen,
    LeftBrace,
    RightBrace,
    LeftBracket,
    RightBracket,
    Alpha,
    Comma,
    String,
    Comment,
    LineComment,
}

/// The scanner between two characters: what it is in the middle of, the text
/// gathered for the token under way, the tokens emitted, and the current line.
pub struct ScanState {
    pub mode: State,
    pub buffer: Seq<char>,
    pub tokens: Seq<TokenView>,
    pub line: i32,
}

/// Why scanning failed.
pub enum LexErrorView {
    /// A character of no class.
    InvalidCharacter(char),
    /// A run of operator characters that is no operator.
    InvalidOperator(Seq<char>),
}

/// The result of one step of the scanner.
pub type Scanned = Result<ScanState, LexErrorView>;

/// The scanner before the first character.
pub open spec fn initial() -> ScanState {
    ScanState { mode: State::Start, buffer: Seq::empty(), tokens: Seq::empty(), line: 1 }
}

/// The reserved words.
pub open spec fn is_keyword(text: Seq<char>) -> bool {
    ||| text == "let"@
    ||| text == "if"@
    ||| text == "else"@
    ||| text == "funk"@
    ||| text == "print"@
    ||| text == "println"@
    ||| text == "true"@
    ||| text == "false"@
    ||| text == "head"@
    ||| text == "tail"@
    ||| text == "len"@
    ||| text == "type"@
    ||| text == "is_bool"@
    ||| text == "is_number"@
    ||| text == "is_string"@
    ||| text == "is_list"@
    ||| text == "is_function"@
    ||| text == "input"@
    ||| text == "return"@
    ||| text == "bool"@
    ||| text == "int"@
    ||| text == "str"@
    ||| text == "list"@
    ||| text == "function"@
}

/// The operators.
pub open spec fn is_operator_text(text: Seq<char>) -> bool {
    ||| text == "+"@
    ||| text == "-"@
    ||| text == "*"@
    ||| text == "/"@
    ||| text == "%"@
    ||| text == "="@
    ||| text == "=="@
    ||| text == ">="@
    ||| text == "<="@
    ||| text == ">"@
    ||| text == "<"@
    ||| text == "!="@
}

/// The line after a line break: one more, up to the largest line number.
pub open spec fn next_line(line: i32) -> i32 {
    if line < i32::MAX {
        (line + 1) as i32
    } else {
        line
    }
}

/// The gathered text becomes a token of the given kind on the current line.
pub open spec fn emit(st: ScanState, kind: TokenType) -> ScanState {
    ScanState {
        tokens: st.tokens.push(TokenView { kind, lexeme: st.buffer, line: st.line }),
        buffer: Seq::empty(),
        ..st
    }
}

/// One more character for the token under way.
pub open spec fn gather(st: ScanState, c: char) -> ScanState {
    ScanState { buffer: st.buffer.push(c), ..st }
}

/// A new token begins with the character `c`.
pub open spec fn begin(st: ScanState, mode: State, c: char) -> ScanState {
    ScanState { mode, buffer: seq![c], ..st }
}

/// A run of operator characters becomes an operator token, if it is one.
pub open spec fn emit_operator(st: ScanState) -> Scanned {
    if is_operator_text(st.buffer) {
        Ok(emit(st, TokenType::Operator))
    } else {
        Err(LexErrorView::InvalidOperator(st.buffer))
    }
}

/// A word becomes a keyword if it is reserved, and an identifier if not.
pub open spec fn emit_word(st: ScanState) -> ScanState {
    if is_keyword(st.buffer) {
        emit(st, TokenType::Keyword)
    } else {
        emit(st, TokenType::Identifier)
    }
}

/// Ends the number, word or operator under way, if there is one.
pub open spec fn flush(st: ScanState) -> Scanned {
    match st.mode {
        State::Alpha => Ok(emit_word(st)),
        State::Number => Ok(emit(st, TokenType::Number)),
        State::Operator => emit_operator(st),
        _ => Ok(st),
    }
}

/// A digit continues a number or a word, and begins a number otherwise.
pub open spec fn on_digit(st: ScanState, c: char) -> Scanned {
    if st.mode == State::Alpha || st.mode == State::Number {
        Ok(gather(st, c))
    } else {
        match flush(st) {
            Ok(s) => Ok(begin(s, State::Number, c)),
            Err(e) => Err(e),
        }
    }
}

/// A letter or underscore continues a word, and begins one otherwise.
pub open spec fn on_alpha(st: ScanState, c: char) -> Scanned {
    if st.mode == State::Alpha {
        Ok(gather(st, c))
    } else {
        match flush(st) {
            Ok(s) => Ok(begin(s, State::Alpha, c)),
            Err(e) => Err(e),
        }
    }
}

/// An operator character continues a run of them, and begins one otherwise.
pub open spec fn on_operator(st: ScanState, c: char) -> Scanned {
    if st.mode == State::Operator {
        Ok(gather(st, c))
    } else {
        match flush(st) {
            Ok(s) => Ok(begin(s, State::Operator, c)),
            Err(e) => Err(e),
        }
    }
}

/// White space, a semicolon or a line break ends the token under way.
pub open spec fn on_whitespace(st: ScanState) -> Scanned {
    match flush(st) {
        Ok(s) => Ok(ScanState { mode: State::Whitespace, buffer: Seq::empty(), ..s }),
        Err(e) => Err(e),
    }
}

/// A bracket or a comma ends the token under way and is a token by itself.
pub open spec fn on_structural(st: ScanState, c: char, mode: State, kind: TokenType) -> Scanned {
    match flush(st) {
        Ok(s) => Ok(emit(begin(s, mode, c), kind)),
        Err(e) => Err(e),
    }
}

/// A quote ends the token under way and opens a string.
pub open spec fn on_quote(st: ScanState, c: char) -> Scanned {
    match flush(st) {
        Ok(s) => Ok(begin(s, State::String, c)),
        Err(e) => Err(e),
    }
}

/// Inside a string every character is kept as it is; the next quote closes it.
pub open spec fn in_string(st: ScanState, c: char) -> ScanState {
    if c == '"' {
        ScanState { mode: State::Start, ..emit(gather(st, c), TokenType::String) }
    } else {
        gather(st, c)
    }
}

/// Inside a block comment only the last character is remembered; `*/` closes it.
pub open spec fn in_comment(st: ScanState, c: char) -> ScanState {
    if st.buffer.len() > 0 && st.buffer.last() == '*' && c == '/' {
        ScanState { mode: State::Start, buffer: Seq::empty(), ..st }
    } else {
        ScanState { buffer: seq![c], ..st }
    }
}

/// A line comment runs to the end of the line.
pub open spec fn in_line_comment(st: ScanState, c: char) -> ScanState {
    if c == '\n' {
        ScanState { mode: State::Start, ..st }
    } else {
        st
    }
}

/// Whether `c` directly after a `/` opens a comment.
pub open spec fn opens_comment(st: ScanState, c: char) -> bool {
    &&& st.mode == State::Operator
    &&& st.buffer.len() > 0
    &&& st.buffer.last() == '/'
    &&& (c == '*' || c == '/')
}

/// Opens a comment: the operator characters before the `/`, if any, are an
/// operator, and the `/` itself is not.
pub open spec fn open_comment(st: ScanState, c: char) -> Scanned {
    let mode = if c == '*' {
        State::Comment
    } else {
        State::LineComment
    };
    let before = ScanState { buffer: st.buffer.drop_last(), ..st };
    if before.buffer.len() == 0 {
        Ok(ScanState { mode, ..before })
    } else {
        match emit_operator(before) {
            Ok(s) => Ok(ScanState { mode, ..s }),
            Err(e) => Err(e),
        }
    }
}

/// What a character of a given class does outside strings and comments.
pub open spec fn on_class(st: ScanState, class: CharClass, c: char) -> Scanned {
    match class {
        CharClass::Digit => on_digit(st, c),
        CharClass::Alpha => on_alpha(st, c),
        CharClass::Operator => on_operator(st, c),
        CharClass::RightParen => on_structural(st, c, State::RightParen, TokenType::RightParen),
        CharClass::LeftParen => on_structural(st, c, State::LeftParen, TokenType::LeftParen),
        CharClass::Whitespace => on_whitespace(st),
        CharClass::Semicolon => on_whitespace(st),
        CharClass::Newline => on_whitespace(st),
        CharClass::LeftBrace => on_structural(st, c, State::LeftBrace, TokenType::LeftBrace),
        CharClass::RightBrace => on_structural(st, c, State::RightBrace, TokenType::RightBrace),
        CharClass::LeftBracket => on_structural(
            st,
            c,
            State::LeftBracket,
            TokenType::LeftBracket,
        ),
        CharClass::RightBracket => on_structural(
            st,
            c,
            State::RightBracket,
            TokenType::RightBracket,
        ),
        CharClass::Comma => on_structural(st, c, State::Comma, TokenType::Comma),
        CharClass::Quote => on_quote(st, c),
    }
}

/// What a character does to the scanner, given the class of the character.
pub open spec fn step(st: ScanState, class: Option<CharClass>, c: char) -> Scanned {
    if st.mode == State::String {
        Ok(in_string(st, c))
    } else if st.mode == State::Comment {
        Ok(in_comment(st, c))
    } else if st.mode == State::LineComment {
        Ok(in_line_comment(st, c))
    } else if opens_comment(st, c) {
        open_comment(st, c)
    } else {
        match class {
            Some(k) => on_class(st, k, c),
            None => Err(LexErrorView::InvalidCharacter(c)),
        }
    }
}

/// A line break moves the scanner to the next line.
pub open spec fn count_line(st: ScanState, c: char) -> ScanState {
    if c == '\n' {
        ScanState { line: next_line(st.line), ..st }
    } else {
        st
    }
}

/// The scanner after one more character.
pub open spec fn scan_char(st: ScanState, c: char) -> Scanned {
    match step(st, class_of(c), c) {
        Ok(s) => Ok(count_line(s, c)),
        Err(e) => Err(e),
    }
}

/// The scanner after a sequence of characters, taken in order.
pub open spec fn scan(st: ScanState, input: Seq<char>) -> Scanned
    decreases input.len(),
{
    if input.len() == 0 {
        Ok(st)
    } else {
        match scan(st, input.drop_last()) {
            Ok(s) => scan_char(s, input.last()),
            Err(e) => Err(e),
        }
    }
}

/// The tokens of a source text, or why it has none.
///
/// A string or a block comment that the text leaves open is dropped.
pub open spec fn tokens_of(input: Seq<char>) -> Result<Seq<TokenView>, LexErrorView> {
    match scan(initial(), input) {
        Ok(s) => match flush(s) {
            Ok(done) => Ok(done.tokens),
            Err(e) => Err(e),
        },
        Err(e) => Err(e),
    }
}

/// Once scanning has failed on a prefix of the text, it fails in the same way
/// on the whole text.
pub proof fn lemma_scan_failure_stays(st: ScanState, input: Seq<char>, i: int)
    requires
        0 <= i <= input.len(),
        scan(st, input.take(i)) is Err,
    ensures
        scan(st, input) == scan(st, input.take(i)),
    decreases input.len() - i,
{
    if i == input.len() {
        assert(input.take(i) =~= input);
    } else {
        assert(input.take(i + 1).drop_last() =~= input.take(i));
        lemma_scan_failure_stays(st, input, i + 1);
    }
}

/// Scanning one more character of the text continues from the scanner reached
/// so far.
pub proof fn lemma_scan_next(st: ScanState, input: Seq<char>, i: int)
    requires
        0 <= i < input.len(),
    ensures
        scan(st, input.take(i + 1)) == match scan(st, input.take(i)) {
            Ok(s) => scan_char(s, input[i]),
            Err(e) => Err(e),
        },
{
    assert(input.take(i + 1).drop_last() =~= input.take(i));
}

} // verus!
