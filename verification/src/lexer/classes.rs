use regex::Regex;
use vstd::pervasive::unreached;
use vstd::prelude::*;

verus! {

/// `regex::Regex`, a compiled regular expression. Nothing is known of what
/// is inside one.
#[verifier::external_type_specification]
#[verifier::external_body]
pub struct ExRegex(regex::Regex);

/// `regex::Error`, why a pattern could not be compiled.
#[verifier::external_type_specification]
#[verifier::external_body]
pub struct ExRegexError(regex::Error);

/// The classes of characters that the lexer tells apart, each given by a
/// regular expression.
#[derive(Debug, PartialEq, Eq, Structural, Clone, Copy)]
pub enum CharClass {
    Digit,
    Alpha,
    Operator,
    RightParen,
    LeftParen,
    Whitespace,
    Semicolon,
    Newline,
    LeftBrace,
    RightBrace,
    LeftBracket,
    RightBracket,
    Comma,
    Quote,
}

/// The regular expression of a class.
pub open spec fn class_pattern(class: CharClass) -> Seq<char> {
    match class {
        CharClass::Digit => "[0-9]"@,
        CharClass::Alpha => "[a-zA-Z_]"@,
        CharClass::Operator => "[+\\-*/=><!%]"@,
        CharClass::RightParen => "\\)"@,
        CharClass::LeftParen => "\\("@,
        CharClass::Whitespace => "\\s"@,
        CharClass::Semicolon => ";"@,
        CharClass::Newline => "\\n"@,
        CharClass::LeftBrace => "\\{"@,
        CharClass::RightBrace => "\\}"@,
        CharClass::LeftBracket => "\\["@,
        CharClass::RightBracket => "\\]"@,
        CharClass::Comma => ","@,
        CharClass::Quote => "\""@,
    }
}

/// Whether a character has the Unicode property `White_Space`.
pub open spec fn is_white_space(c: char) -> bool {
    ||| '\t' <= c <= '\r'
    ||| c == ' '
    ||| c == '\u{85}'
    ||| c == '\u{a0}'
    ||| c == '\u{1680}'
    ||| '\u{2000}' <= c <= '\u{200a}'
    ||| c == '\u{2028}'
    ||| c == '\u{2029}'
    ||| c == '\u{202f}'
    ||| c == '\u{205f}'
    ||| c == '\u{3000}'
}

/// Whether a character is one of the operator characters.
pub open spec fn is_operator_char(c: char) -> bool {
    ||| c == '+'
    ||| c == '-'
    ||| c == '*'
    ||| c == '/'
    ||| c == '='
    ||| c == '>'
    ||| c == '<'
    ||| c == '!'
    ||| c == '%'
}

/// Whether a character belongs to a class: what the class's regular
/// expression matches among the texts of one character.
pub open spec fn class_has(class: CharClass, c: char) -> bool {
    match class {
        CharClass::Digit => '0' <= c <= '9',
        CharClass::Alpha => 'a' <= c <= 'z' || 'A' <= c <= 'Z' || c == '_',
        CharClass::Operator => is_operator_char(c),
        CharClass::RightParen => c == ')',
        CharClass::LeftParen => c == '(',
        CharClass::Whitespace => is_white_space(c),
        CharClass::Semicolon => c == ';',
        CharClass::Newline => c == '\n',
        CharClass::LeftBrace => c == '{',
        CharClass::RightBrace => c == '}',
        CharClass::LeftBracket => c == '[',
        CharClass::RightBracket => c == ']',
        CharClass::Comma => c == ',',
        CharClass::Quote => c == '"',
    }
}

/// The class of a character: the first class that has it, in the order in
/// which the lexer asks. `None` for a character of no class.
pub open spec fn class_of(c: char) -> Option<CharClass> {
    if class_has(CharClass::Digit, c) {
        Some(CharClass::Digit)
    } else if class_has(CharClass::Alpha, c) {
        Some(CharClass::Alpha)
    } else if class_has(CharClass::Operator, c) {
        Some(CharClass::Operator)
    } else if class_has(CharClass::RightParen, c) {
        Some(CharClass::RightParen)
    } else if class_has(CharClass::LeftParen, c) {
        Some(CharClass::LeftParen)
    } else if class_has(CharClass::Whitespace, c) {
        Some(CharClass::Whitespace)
    } else if class_has(CharClass::Semicolon, c) {
        Some(CharClass::Semicolon)
    } else if class_has(CharClass::Newline, c) {
        Some(CharClass::Newline)
    } else if class_has(CharClass::LeftBrace, c) {
        Some(CharClass::LeftBrace)
    } else if class_has(CharClass::RightBrace, c) {
        Some(CharClass::RightBrace)
    } else if class_has(CharClass::LeftBracket, c) {
        Some(CharClass::LeftBracket)
    } else if class_has(CharClass::RightBracket, c) {
        Some(CharClass::RightBracket)
    } else if class_has(CharClass::Comma, c) {
        Some(CharClass::Comma)
    } else if class_has(CharClass::Quote, c) {
        Some(CharClass::Quote)
    } else {
        None
    }
}

/// What a compiled regular expression matches: whether
/// `regex::Regex::is_match` finds a match in the text.
pub uninterp spec fn matched_by(re: Regex, text: Seq<char>) -> bool;

/// Whether an expression matches, among the texts of one character, exactly
/// the characters of a class.
pub open spec fn matches_class(re: Regex, class: CharClass) -> bool {
    forall|c: char| #[trigger] matched_by(re, seq![c]) == class_has(class, c)
}

/// Calls `regex::Regex::new`, which compiles a pattern with the options that
/// the crate starts from: Unicode classes, and letters told apart by case.
/// Assumed, not proved: the pattern of every character class is well formed,
/// so that compiling it succeeds, and the expression that comes of it
/// matches, among the texts of one character, exactly the characters that
/// `class_has` gives the class.
#[verifier::external_body]
fn compile(pattern: &str) -> (r: Result<Regex, regex::Error>)
    ensures
        r matches Ok(re) ==> forall|class: CharClass, c: char|
            pattern@ == class_pattern(class) ==> matched_by(re, seq![c]) == #[trigger] class_has(
                class,
                c,
            ),
        (exists|class: CharClass| pattern@ == #[trigger] class_pattern(class)) ==> r is Ok,
{
    Regex::new(pattern)
}

/// Calls `regex::Regex::is_match` on the text made of the one character `c`.
/// Assumed, not proved: the call tells whether the expression matches the
/// text, and tells the same of the same expression and text every time.
#[verifier::external_body]
fn matches_char(re: &Regex, c: char) -> (r: bool)
    ensures
        r == matched_by(*re, seq![c]),
{
    re.is_match(c.encode_utf8(&mut [0u8; 4]))
}

/// The compiled regular expression of one class.
fn class_matcher(class: CharClass) -> (re: Regex)
    ensures
        matches_class(re, class),
{
    let pattern = match class {
        CharClass::Digit => "[0-9]",
        CharClass::Alpha => "[a-zA-Z_]",
        CharClass::Operator => "[+\\-*/=><!%]",
        CharClass::RightParen => "\\)",
        CharClass::LeftParen => "\\(",
        CharClass::Whitespace => "\\s",
        CharClass::Semicolon => ";",
        CharClass::Newline => "\\n",
        CharClass::LeftBrace => "\\{",
        CharClass::RightBrace => "\\}",
        CharClass::LeftBracket => "\\[",
        CharClass::RightBracket => "\\]",
        CharClass::Comma => ",",
        CharClass::Quote => "\"",
    };
    assert(pattern@ == class_pattern(class));
    match compile(pattern) {
        Ok(re) => {
            assert forall|c: char| #[trigger] matched_by(re, seq![c]) == class_has(class, c) by {
                assert(pattern@ == class_pattern(class));
            }
            re
        },
        Err(_) => unreached(),
    }
}

/// The compiled regular expressions of all the classes.
pub struct Classifier {
    digit: Regex,
    alpha: Regex,
    operator: Regex,
    right_paren: Regex,
    left_paren: Regex,
    whitespace: Regex,
    semicolon: Regex,
    newline: Regex,
    left_brace: Regex,
    right_brace: Regex,
    left_bracket: Regex,
    right_bracket: Regex,
    comma: Regex,
    quote: Regex,
}

impl Classifier {
    /// Each expression matches exactly the characters of its class.
    pub closed spec fn wf(&self) -> bool {
        &&& matches_class(self.digit, CharClass::Digit)
        &&& matches_class(self.alpha, CharClass::Alpha)
        &&& matches_class(self.operator, CharClass::Operator)
        &&& matches_class(self.right_paren, CharClass::RightParen)
        &&& matches_class(self.left_paren, CharClass::LeftParen)
        &&& matches_class(self.whitespace, CharClass::Whitespace)
        &&& matches_class(self.semicolon, CharClass::Semicolon)
        &&& matches_class(self.newline, CharClass::Newline)
        &&& matches_class(self.left_brace, CharClass::LeftBrace)
        &&& matches_class(self.right_brace, CharClass::RightBrace)
        &&& matches_class(self.left_bracket, CharClass::LeftBracket)
        &&& matches_class(self.right_bracket, CharClass::RightBracket)
        &&& matches_class(self.comma, CharClass::Comma)
        &&& matches_class(self.quote, CharClass::Quote)
    }

    /// Compiles the regular expression of every class.
    pub fn new() -> (classifier: Classifier)
        ensures
            classifier.wf(),
    {
        Classifier {
            digit: class_matcher(CharClass::Digit),
            alpha: class_matcher(CharClass::Alpha),
            operator: class_matcher(CharClass::Operator),
            right_paren: class_matcher(CharClass::RightParen),
            left_paren: class_matcher(CharClass::LeftParen),
            whitespace: class_matcher(CharClass::Whitespace),
            semicolon: class_matcher(CharClass::Semicolon),
            newline: class_matcher(CharClass::Newline),
            left_brace: class_matcher(CharClass::LeftBrace),
            right_brace: class_matcher(CharClass::RightBrace),
            left_bracket: class_matcher(CharClass::LeftBracket),
            right_bracket: class_matcher(CharClass::RightBracket),
            comma: class_matcher(CharClass::Comma),
            quote: class_matcher(CharClass::Quote),
        }
    }

    /// The class of a character, found by asking each expression in turn.
    pub fn classify(&self, c: char) -> (class: Option<CharClass>)
        requires
            self.wf(),
        ensures
            class == class_of(c),
    {
        if matches_char(&self.digit, c) {
            Some(CharClass::Digit)
        } else if matches_char(&self.alpha, c) {
            Some(CharClass::Alpha)
        } else if matches_char(&self.operator, c) {
            Some(CharClass::Operator)
        } else if matches_char(&self.right_paren, c) {
            Some(CharClass::RightParen)
        } else if matches_char(&self.left_paren, c) {
            Some(CharClass::LeftParen)
        } else if matches_char(&self.whitespace, c) {
            Some(CharClass::Whitespace)
        } else if matches_char(&self.semicolon, c) {
            Some(CharClass::Semicolon)
        } else if matches_char(&self.newline, c) {
            Some(CharClass::Newline)
        } else if matches_char(&self.left_brace, c) {
            Some(CharClass::LeftBrace)
        } else if matches_char(&self.right_brace, c) {
            Some(CharClass::RightBrace)
        } else if matches_char(&self.left_bracket, c) {
            Some(CharClass::LeftBracket)
        } else if matches_char(&self.right_bracket, c) {
            Some(CharClass::RightBracket)
        } else if matches_char(&self.comma, c) {
            Some(CharClass::Comma)
        } else if matches_char(&self.quote, c) {
            Some(CharClass::Quote)
        } else {
            None
        }
    }
}

} // verus!
