use crate::interpreter::number::{all_digits, is_digit};
use crate::lexer::classes::{class_of, CharClass};
use crate::lexer::classes::class_has;
use crate::lexer::scan::{
    flush, initial, is_keyword, is_operator_text, opens_comment, scan, scan_char, step,
    tokens_of, LexErrorView, ScanState, State,
};
use crate::token::token::{TokenType, TokenView};
use vstd::prelude::*;

verus! {

/// A number as it is written: one or more decimal digits.
pub open spec fn is_number_word(word: Seq<char>) -> bool {
    word.len() > 0 && all_digits(word)
}

/// One of the operators `+`, `-` and `*` as it is written.
pub open spec fn is_operator_word(word: Seq<char>) -> bool {
    word == "+"@ || word == "-"@ || word == "*"@
}

/// A number or one of the operators `+`, `-` and `*`.
pub open spec fn is_word(word: Seq<char>) -> bool {
    is_number_word(word) || is_operator_word(word)
}

/// The words of a text, with one space between each two.
pub open spec fn spaced(words: Seq<Seq<char>>) -> Seq<char>
    decreases words.len(),
{
    if words.len() == 0 {
        Seq::empty()
    } else if words.len() == 1 {
        words[0]
    } else {
        spaced(words.drop_last()) + seq![' '] + words.last()
    }
}

/// The token of a word on the first line.
pub open spec fn word_token(word: Seq<char>) -> TokenView {
    TokenView {
        kind: if is_number_word(word) {
            TokenType::Number
        } else {
            TokenType::Operator
        },
        lexeme: word,
        line: 1,
    }
}

/// The tokens of a sequence of words.
pub open spec fn word_tokens(words: Seq<Seq<char>>) -> Seq<TokenView> {
    Seq::new(words.len(), |i: int| word_token(words[i]))
}

/// What the scanner is in the middle of at the end of a word.
pub open spec fn word_mode(word: Seq<char>) -> State {
    if is_number_word(word) {
        State::Number
    } else {
        State::Operator
    }
}

/// The operators `+`, `-` and `*` are texts of one character, and operators.
pub proof fn lemma_operator_words(word: Seq<char>)
    requires
        is_operator_word(word),
    ensures
        word.len() == 1,
        word[0] == '+' || word[0] == '-' || word[0] == '*',
        is_operator_text(word),
        !is_number_word(word),
{
    reveal_strlit("+");
    reveal_strlit("-");
    reveal_strlit("*");
    assert(!is_digit(word[0]));
}

/// Scanning two texts one after the other is scanning them joined.
pub proof fn lemma_scan_joined(st: ScanState, first: Seq<char>, second: Seq<char>)
    ensures
        scan(st, first + second) == match scan(st, first) {
            Ok(s) => scan(s, second),
            Err(e) => Err(e),
        },
    decreases second.len(),
{
    if second.len() == 0 {
        assert(first + second =~= first);
    } else {
        lemma_scan_joined(st, first, second.drop_last());
        assert((first + second).drop_last() =~= first + second.drop_last());
    }
}

/// Scanning a text of one character is scanning the character.
pub proof fn lemma_scan_one(st: ScanState, c: char)
    ensures
        scan(st, seq![c]) == scan_char(st, c),
{
    assert(seq![c].drop_last() =~= Seq::<char>::empty());
    assert(scan(st, seq![c].drop_last()) == Ok::<ScanState, LexErrorView>(st));
}

/// Whether the scanner is between two tokens, on the first line.
pub open spec fn resting(st: ScanState) -> bool {
    &&& st.mode == State::Start || st.mode == State::Whitespace
    &&& st.line == 1
}

/// The scanner at the end of a word that it has not yet made a token of.
pub open spec fn pending(st: ScanState, word: Seq<char>) -> ScanState {
    ScanState { mode: word_mode(word), buffer: word, ..st }
}

/// Scanning the digits of a number gathers them.
proof fn lemma_scan_number(st: ScanState, word: Seq<char>)
    requires
        resting(st),
        is_number_word(word),
    ensures
        scan(st, word) == Ok::<ScanState, LexErrorView>(pending(st, word)),
    decreases word.len(),
{
    let c = word.last();
    assert(is_digit(word[word.len() - 1]));
    assert(class_of(c) == Some(CharClass::Digit));
    if word.len() == 1 {
        assert(word.drop_last() =~= Seq::<char>::empty());
        assert(scan(st, word.drop_last()) == Ok::<ScanState, LexErrorView>(st));
        assert(seq![c] =~= word);
    } else {
        let before = word.drop_last();
        assert forall|i: int| 0 <= i < before.len() implies is_digit(#[trigger] before[i]) by {
            assert(before[i] == word[i]);
        }
        lemma_scan_number(st, before);
        assert(before.push(c) =~= word);
    }
}

/// Scanning a word from between two tokens gathers it.
pub proof fn lemma_scan_word(st: ScanState, word: Seq<char>)
    requires
        resting(st),
        is_word(word),
    ensures
        scan(st, word) == Ok::<ScanState, LexErrorView>(pending(st, word)),
{
    if is_number_word(word) {
        lemma_scan_number(st, word);
    } else {
        lemma_operator_words(word);
        lemma_scan_one(st, word[0]);
        assert(seq![word[0]] =~= word);
        assert(class_of(word[0]) == Some(CharClass::Operator));
    }
}

/// A space after a word makes a token of the word.
pub proof fn lemma_scan_space(st: ScanState, word: Seq<char>)
    requires
        is_word(word),
        st.mode == word_mode(word),
        st.buffer == word,
        st.line == 1,
    ensures
        scan_char(st, ' ') == Ok::<ScanState, LexErrorView>(
            ScanState {
                mode: State::Whitespace,
                buffer: Seq::empty(),
                tokens: st.tokens.push(word_token(word)),
                line: 1,
            },
        ),
{
    assert(class_of(' ') == Some(CharClass::Whitespace));
    if !is_number_word(word) {
        lemma_operator_words(word);
    }
}

/// Scanning words with spaces between them makes a token of each but the
/// last, which it gathers.
pub proof fn lemma_scan_words(words: Seq<Seq<char>>)
    requires
        words.len() > 0,
        forall|i: int| 0 <= i < words.len() ==> is_word(#[trigger] words[i]),
    ensures
        scan(initial(), spaced(words)) == Ok::<ScanState, LexErrorView>(
            ScanState {
                mode: word_mode(words.last()),
                buffer: words.last(),
                tokens: word_tokens(words.drop_last()),
                line: 1,
            },
        ),
    decreases words.len(),
{
    let last = words.last();
    assert(is_word(words[words.len() - 1]));
    if words.len() == 1 {
        lemma_scan_word(initial(), last);
        assert(word_tokens(words.drop_last()) =~= Seq::<TokenView>::empty());
    } else {
        let before = words.drop_last();
        assert forall|i: int| 0 <= i < before.len() implies is_word(#[trigger] before[i]) by {
            assert(before[i] == words[i]);
        }
        lemma_scan_words(before);
        let gathered = ScanState {
            mode: word_mode(before.last()),
            buffer: before.last(),
            tokens: word_tokens(before.drop_last()),
            line: 1,
        };
        assert(is_word(before[before.len() - 1]));
        lemma_scan_space(gathered, before.last());
        let rested = ScanState {
            mode: State::Whitespace,
            buffer: Seq::empty(),
            tokens: word_tokens(before.drop_last()).push(word_token(before.last())),
            line: 1,
        };
        assert(rested.tokens =~= word_tokens(before));
        lemma_scan_word(rested, last);
        lemma_scan_joined(initial(), spaced(before), seq![' ']);
        lemma_scan_one(gathered, ' ');
        lemma_scan_joined(initial(), spaced(before) + seq![' '], last);
    }
}

/// The tokens of words with spaces between them are the tokens of the words.
pub proof fn lemma_tokens_of_words(words: Seq<Seq<char>>)
    requires
        words.len() > 0,
        forall|i: int| 0 <= i < words.len() ==> is_word(#[trigger] words[i]),
    ensures
        tokens_of(spaced(words)) == Ok::<Seq<TokenView>, LexErrorView>(word_tokens(words)),
{
    lemma_scan_words(words);
    let last = words.last();
    assert(is_word(words[words.len() - 1]));
    if !is_number_word(last) {
        lemma_operator_words(last);
    }
    assert(word_tokens(words.drop_last()).push(word_token(last)) =~= word_tokens(words));
}

/// Whether the scanner is on a line and every token it has emitted is on a
/// line, counted from 1.
pub open spec fn on_lines(st: ScanState) -> bool {
    &&& st.line >= 1
    &&& forall|i: int| 0 <= i < st.tokens.len() ==> (#[trigger] st.tokens[i]).line >= 1
}

/// Ending the token under way keeps the scanner on its lines.
proof fn lemma_flush_on_lines(st: ScanState)
    requires
        on_lines(st),
    ensures
        flush(st) matches Ok(after) ==> on_lines(after),
{
}

/// One more character keeps the scanner on its lines.
proof fn lemma_scan_char_on_lines(st: ScanState, c: char)
    requires
        on_lines(st),
    ensures
        scan_char(st, c) matches Ok(after) ==> on_lines(after),
{
    lemma_flush_on_lines(st);
}

/// Scanning keeps the scanner on its lines.
proof fn lemma_scan_on_lines(st: ScanState, input: Seq<char>)
    requires
        on_lines(st),
    ensures
        scan(st, input) matches Ok(after) ==> on_lines(after),
    decreases input.len(),
{
    if input.len() > 0 {
        lemma_scan_on_lines(st, input.drop_last());
        match scan(st, input.drop_last()) {
            Ok(s) => {
                lemma_scan_char_on_lines(s, input.last());
            },
            Err(_) => {},
        }
    }
}

/// Every token of a source text is on a line, counted from 1.
pub proof fn lemma_token_lines(input: Seq<char>)
    ensures
        tokens_of(input) matches Ok(tokens) ==> forall|i: int|
            0 <= i < tokens.len() ==> (#[trigger] tokens[i]).line >= 1,
{
    lemma_scan_on_lines(initial(), input);
    match scan(initial(), input) {
        Ok(s) => {
            lemma_flush_on_lines(s);
        },
        Err(_) => {},
    }
}

/// Whether a character may stand in a word: a letter, an underscore or a
/// digit.
pub open spec fn is_word_char(c: char) -> bool {
    class_has(CharClass::Alpha, c) || is_digit(c)
}

/// Whether a text is a word: a letter or an underscore, then letters,
/// underscores and digits.
pub open spec fn is_word_text(text: Seq<char>) -> bool {
    &&& text.len() > 0
    &&& class_has(CharClass::Alpha, text[0])
    &&& forall|i: int| 0 <= i < text.len() ==> is_word_char(#[trigger] text[i])
}

/// Whether a text is a string as it is written: a double quote, characters
/// that are no double quotes, and a double quote.
pub open spec fn is_string_text(text: Seq<char>) -> bool {
    &&& text.len() >= 2
    &&& text[0] == '"'
    &&& text.last() == '"'
    &&& forall|i: int| 0 < i < text.len() - 1 ==> #[trigger] text[i] != '"'
}

/// Whether the text of a token is one that its kind can have.
pub open spec fn fits_kind(token: TokenView) -> bool {
    match token.kind {
        TokenType::Number => is_number_word(token.lexeme),
        TokenType::Operator => is_operator_text(token.lexeme),
        TokenType::Keyword => is_keyword(token.lexeme),
        TokenType::Identifier => is_word_text(token.lexeme) && !is_keyword(token.lexeme),
        TokenType::String => is_string_text(token.lexeme),
        TokenType::LeftParen => token.lexeme == seq!['('],
        TokenType::RightParen => token.lexeme == seq![')'],
        TokenType::LeftBrace => token.lexeme == seq!['{'],
        TokenType::RightBrace => token.lexeme == seq!['}'],
        TokenType::LeftBracket => token.lexeme == seq!['['],
        TokenType::RightBracket => token.lexeme == seq![']'],
        TokenType::Comma => token.lexeme == seq![','],
    }
}

/// Whether every token that the scanner has emitted fits its kind.
pub open spec fn tokens_fit(st: ScanState) -> bool {
    forall|i: int| 0 <= i < st.tokens.len() ==> fits_kind(#[trigger] st.tokens[i])
}

/// Whether the text that the scanner has gathered is the beginning of a
/// token of the kind that it is in the middle of, and every token that it
/// has emitted fits its kind.
pub open spec fn coherent(st: ScanState) -> bool {
    &&& match st.mode {
        State::Number => is_number_word(st.buffer),
        State::Alpha => is_word_text(st.buffer),
        State::Operator => st.buffer.len() > 0,
        State::String => {
            &&& st.buffer.len() > 0
            &&& st.buffer[0] == '"'
            &&& forall|i: int| 0 < i < st.buffer.len() ==> #[trigger] st.buffer[i] != '"'
        },
        _ => true,
    }
    &&& forall|i: int| 0 <= i < st.tokens.len() ==> fits_kind(#[trigger] st.tokens[i])
}

/// The class of a character is a class that has it.
proof fn lemma_class_of_has(c: char)
    ensures
        class_of(c) matches Some(class) ==> class_has(class, c),
{
}

/// The token that ends when the token under way is ended fits its kind.
proof fn lemma_flush_coherent(st: ScanState)
    requires
        coherent(st),
    ensures
        flush(st) matches Ok(after) ==> tokens_fit(after) && after.mode == st.mode,
{
    match flush(st) {
        Ok(after) => {
            assert forall|i: int| 0 <= i < after.tokens.len() implies fits_kind(
                #[trigger] after.tokens[i],
            ) by {
                if i < st.tokens.len() {
                    assert(after.tokens[i] == st.tokens[i]);
                }
            }
        },
        Err(_) => {},
    }
}

/// One more character keeps the scanner coherent.
proof fn lemma_scan_char_coherent(st: ScanState, c: char)
    requires
        coherent(st),
    ensures
        scan_char(st, c) matches Ok(after) ==> coherent(after),
{
    lemma_class_of_has(c);
    lemma_flush_coherent(st);
    match step(st, class_of(c), c) {
        Ok(after) => {
            assert forall|i: int| 0 <= i < after.tokens.len() implies fits_kind(
                #[trigger] after.tokens[i],
            ) by {
                if i < st.tokens.len() {
                    assert(after.tokens[i] == st.tokens[i]);
                } else if st.mode == State::String {
                    let text = st.buffer.push(c);
                    assert(text.last() == c);
                    assert forall|j: int| 0 < j < text.len() - 1 implies #[trigger] text[j]
                        != '"' by {
                        assert(text[j] == st.buffer[j]);
                    }
                } else if st.mode != State::Comment && st.mode != State::LineComment
                    && !opens_comment(st, c) {
                    match flush(st) {
                        Ok(flushed) => {
                            if i < flushed.tokens.len() {
                                assert(after.tokens[i] == flushed.tokens[i]);
                            }
                        },
                        Err(_) => {},
                    }
                }
            }
            if after.mode == State::Alpha {
                if st.mode == State::Alpha {
                    assert forall|i: int| 0 <= i < after.buffer.len() implies is_word_char(
                        #[trigger] after.buffer[i],
                    ) by {
                        if i < st.buffer.len() {
                            assert(after.buffer[i] == st.buffer[i]);
                        }
                    }
                }
            }
            if after.mode == State::Number {
                if st.mode == State::Number {
                    assert forall|i: int| 0 <= i < after.buffer.len() implies is_digit(
                        #[trigger] after.buffer[i],
                    ) by {
                        if i < st.buffer.len() {
                            assert(after.buffer[i] == st.buffer[i]);
                        }
                    }
                }
            }
            if after.mode == State::String && st.mode == State::String {
                assert forall|i: int| 0 < i < after.buffer.len() implies #[trigger] after.buffer[i]
                    != '"' by {
                    if i < st.buffer.len() {
                        assert(after.buffer[i] == st.buffer[i]);
                    }
                }
            }
        },
        Err(_) => {},
    }
}

/// Scanning keeps the scanner coherent.
proof fn lemma_scan_coherent(st: ScanState, input: Seq<char>)
    requires
        coherent(st),
    ensures
        scan(st, input) matches Ok(after) ==> coherent(after),
    decreases input.len(),
{
    if input.len() > 0 {
        lemma_scan_coherent(st, input.drop_last());
        match scan(st, input.drop_last()) {
            Ok(s) => {
                lemma_scan_char_coherent(s, input.last());
            },
            Err(_) => {},
        }
    }
}

/// The text of every token of a source text is one that the kind of the
/// token can have: a number is made of digits, an operator is one of the
/// operators, a keyword is reserved, an identifier is a word that is not
/// reserved, a string stands between two double quotes and holds no other,
/// and a bracket or a comma is its one character.
pub proof fn lemma_tokens_fit_their_kinds(input: Seq<char>)
    ensures
        tokens_of(input) matches Ok(tokens) ==> forall|i: int|
            0 <= i < tokens.len() ==> fits_kind(#[trigger] tokens[i]),
{
    lemma_scan_coherent(initial(), input);
    match scan(initial(), input) {
        Ok(s) => {
            lemma_flush_coherent(s);
        },
        Err(_) => {},
    }
}

} // verus!
