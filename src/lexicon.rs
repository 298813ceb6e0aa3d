use vstd::prelude::*;
use crate::input_stream::location;

verus! {

pub open spec fn whitespace_char(c: char) -> bool {
    c == ' ' || c == '\t' || c == '\n'
}

pub open spec fn digit_char(c: char) -> bool {
    '0' <= c <= '9'
}

pub open spec fn ident_start_char(c: char) -> bool {
    ('a' <= c <= 'z') || ('A' <= c <= 'Z') || c == '_'
}

/// Characters that may continue an identifier once it has started.
pub open spec fn ident_char(c: char) -> bool {
    ident_start_char(c) || digit_char(c) || c == '?' || c == '!' || c == '-' || c == '<' || c
        == '>' || c == '='
}

pub open spec fn operator_char(c: char) -> bool {
    c == '+' || c == '-' || c == '*' || c == '/' || c == '%' || c == '=' || c == '&' || c == '|'
        || c == '<' || c == '>' || c == '!'
}

pub open spec fn punctuation_char(c: char) -> bool {
    c == ',' || c == ';' || c == '(' || c == ')' || c == '{' || c == '}' || c == '[' || c == ']'
}

pub open spec fn keyword(s: Seq<char>) -> bool {
    s == seq!['i', 'f'] || s == seq!['t', 'h', 'e', 'n'] || s == seq!['e', 'l', 's', 'e'] || s
        == seq!['l', 'a', 'm', 'b', 'd', 'a'] || s == seq!['t', 'r', 'u', 'e'] || s == seq![
        'f',
        'a',
        'l',
        's',
        'e',
    ]
}

/// The classes of characters that the lexer consumes in maximal runs.
pub enum CharClass {
    Blank,
    Digit,
    Ident,
    Operator,
    /// Anything but a newline: the body of a comment.
    CommentBody,
}

pub open spec fn in_class(class: CharClass, c: char) -> bool {
    match class {
        CharClass::Blank => whitespace_char(c),
        CharClass::Digit => digit_char(c),
        CharClass::Ident => ident_char(c),
        CharClass::Operator => operator_char(c),
        CharClass::CommentBody => c != '\n',
    }
}

/// End of the maximal run of characters satisfying `p` that starts at `i`.
pub open spec fn run_end_by(text: Seq<char>, i: int, p: spec_fn(char) -> bool) -> int
    decreases text.len() - i,
{
    if 0 <= i < text.len() && p(text[i]) {
        run_end_by(text, i + 1, p)
    } else {
        i
    }
}

/// The run starting at `i` lies within the text, all its characters satisfy
/// `p`, and the character after it, if any, does not.
pub proof fn lemma_run_end_by(text: Seq<char>, i: int, p: spec_fn(char) -> bool)
    requires
        0 <= i <= text.len(),
    ensures
        i <= run_end_by(text, i, p) <= text.len(),
        run_end_by(text, i, p) < text.len() ==> !p(text[run_end_by(text, i, p)]),
        forall|k: int| i <= k < run_end_by(text, i, p) ==> p(#[trigger] text[k]),
    decreases text.len() - i,
{
    if i < text.len() && p(text[i]) {
        lemma_run_end_by(text, i + 1, p);
    }
}

/// Membership in `class` as a predicate.
pub open spec fn class_pred(class: CharClass) -> spec_fn(char) -> bool {
    |c: char| in_class(class, c)
}

/// End of the maximal run of `class` characters that starts at `i`.
pub open spec fn run_end(text: Seq<char>, i: int, class: CharClass) -> int {
    run_end_by(text, i, class_pred(class))
}

pub proof fn lemma_run_end(text: Seq<char>, i: int, class: CharClass)
    requires
        0 <= i <= text.len(),
    ensures
        i <= run_end(text, i, class) <= text.len(),
        run_end(text, i, class) < text.len() ==> !in_class(class, text[run_end(text, i, class)]),
        forall|k: int| i <= k < run_end(text, i, class) ==> in_class(class, #[trigger] text[k]),
{
    lemma_run_end_by(text, i, class_pred(class));
    assert forall|k: int| i <= k < run_end(text, i, class) implies in_class(
        class,
        #[trigger] text[k],
    ) by {
        assert(class_pred(class)(text[k]));
    }
}

/// A run that covers the rest of the text ends at the end of the text.
pub proof fn lemma_run_to_end(text: Seq<char>, i: int, class: CharClass)
    requires
        0 <= i <= text.len(),
        forall|k: int| i <= k < text.len() ==> in_class(class, #[trigger] text[k]),
    ensures
        run_end(text, i, class) == text.len(),
    decreases text.len() - i,
{
    if i < text.len() {
        assert(class_pred(class)(text[i]));
        lemma_run_to_end(text, i + 1, class);
    }
}

/// Value of a run of decimal digits.
pub open spec fn decimal_value(s: Seq<char>) -> int
    decreases s.len(),
{
    if s.len() == 0 {
        0
    } else {
        10 * decimal_value(s.drop_last()) + ((s.last() as u32) as int - ('0' as u32) as int)
    }
}

/// Content and end of a string literal whose body starts at `i`, closed by
/// `close`; a backslash makes the character after it literal. Without a
/// closing character the literal runs to the end of the text.
pub open spec fn scan_string(text: Seq<char>, i: int, close: char, escaped: bool) -> (
    Seq<char>,
    int,
)
    decreases text.len() - i,
{
    if i < 0 || i >= text.len() {
        (Seq::empty(), i)
    } else {
        let c = text[i];
        if escaped {
            let (rest, end) = scan_string(text, i + 1, close, false);
            (seq![c] + rest, end)
        } else if c == '\\' {
            scan_string(text, i + 1, close, true)
        } else if c == close {
            (Seq::empty(), i + 1)
        } else {
            let (rest, end) = scan_string(text, i + 1, close, false);
            (seq![c] + rest, end)
        }
    }
}

/// The token as the lexer's rules see it.
pub enum TokenView {
    Num(int),
    Punc(char),
    Str(Seq<char>),
    Kw(Seq<char>),
    Var(Seq<char>),
    Op(Seq<char>),
    Empty,
}

/// A lexical error as its message and coordinates.
pub struct ErrorView {
    pub message: Seq<char>,
    pub line: int,
    pub column: int,
}

/// What one classification step finds from an index of the text.
pub enum Scan {
    /// Only whitespace and comments remain.
    Done,
    /// A token, and the index just after it.
    Found(TokenView, int),
    /// A lexical error raised with the stream at the index, and its message.
    Failed(int, Seq<char>),
}

pub open spec fn unexpected_message(c: char) -> Seq<char> {
    "Can't handle character: '"@.push(c) + "'"@
}

pub open spec fn out_of_range_message(digits: Seq<char>) -> Seq<char> {
    "Number out of range: "@ + digits
}

/// The error raised with the stream after the first `at` characters.
pub open spec fn error_at(text: Seq<char>, at: int, message: Seq<char>) -> ErrorView {
    ErrorView {
        message,
        line: location(text.take(at)).0,
        column: location(text.take(at)).1,
    }
}

/// Where classification resumes after the comment whose `#` is at `j`: past
/// the newline that ends it, or at the end of the text.
pub open spec fn comment_resume(text: Seq<char>, j: int) -> int {
    let k = run_end(text, j, CharClass::CommentBody);
    if k < text.len() {
        k + 1
    } else {
        k
    }
}

/// One classification step from index `i`: skip whitespace, then dispatch on
/// the next character (comment, string, number, identifier or keyword,
/// punctuation, operator, in that order).
pub open spec fn lex_step(text: Seq<char>, i: int) -> Scan
    decreases text.len() - i,
    via lex_step_decreases
{
    let j = run_end(text, i, CharClass::Blank);
    if i < 0 || j >= text.len() {
        Scan::Done
    } else {
        let c = text[j];
        if c == '#' {
            lex_step(text, comment_resume(text, j))
        } else if c == '"' {
            let (content, end) = scan_string(text, j + 1, '"', false);
            Scan::Found(TokenView::Str(content), end)
        } else if digit_char(c) {
            let k = run_end(text, j, CharClass::Digit);
            let digits = text.subrange(j, k);
            if decimal_value(digits) <= i32::MAX {
                Scan::Found(TokenView::Num(decimal_value(digits)), k)
            } else {
                Scan::Failed(k, out_of_range_message(digits))
            }
        } else if ident_start_char(c) {
            let k = run_end(text, j, CharClass::Ident);
            let word = text.subrange(j, k);
            if keyword(word) {
                Scan::Found(TokenView::Kw(word), k)
            } else {
                Scan::Found(TokenView::Var(word), k)
            }
        } else if punctuation_char(c) {
            Scan::Found(TokenView::Punc(c), j + 1)
        } else if operator_char(c) {
            let k = run_end(text, j, CharClass::Operator);
            Scan::Found(TokenView::Op(text.subrange(j, k)), k)
        } else {
            Scan::Failed(j, unexpected_message(c))
        }
    }
}

/// Classification never yields the placeholder token.
pub proof fn lemma_never_empty(text: Seq<char>, i: int)
    ensures
        lex_step(text, i) matches Scan::Found(t, _) ==> !(t is Empty),
    decreases text.len() - i,
{
    let j = run_end(text, i, CharClass::Blank);
    if 0 <= i <= text.len() && j < text.len() && text[j] == '#' {
        lemma_run_end(text, i, CharClass::Blank);
        lemma_run_end(text, j + 1, CharClass::CommentBody);
        assert(run_end(text, j, CharClass::CommentBody) == run_end(
            text,
            j + 1,
            CharClass::CommentBody,
        ));
        lemma_never_empty(text, comment_resume(text, j));
    }
}

#[via_fn]
proof fn lex_step_decreases(text: Seq<char>, i: int) {
    let j = run_end(text, i, CharClass::Blank);
    if 0 <= i && j < text.len() && text[j] == '#' {
        if i > text.len() {
            assert(j == i);
        } else {
            lemma_run_end(text, i, CharClass::Blank);
            lemma_run_end(text, j + 1, CharClass::CommentBody);
            assert(run_end(text, j, CharClass::CommentBody) == run_end(
                text,
                j + 1,
                CharClass::CommentBody,
            ));
        }
    }
}

} // verus!
