use vstd::prelude::*;
use vstd::string::StrSliceExecFns;
use vstd::string::StringExecFns;
use crate::input_stream::{InputStream, LexicalError, push_char};
use crate::lexicon::{
    CharClass,
    class_pred,
    ErrorView,
    Scan,
    TokenView,
    comment_resume,
    decimal_value,
    digit_char,
    error_at,
    ident_char,
    ident_start_char,
    in_class,
    keyword,
    lemma_never_empty,
    lemma_run_end,
    lex_step,
    operator_char,
    out_of_range_message,
    punctuation_char,
    run_end,
    run_end_by,
    scan_string,
    whitespace_char,
};

verus! {

#[derive(Clone, PartialEq, Debug)]
pub enum Token {
    Num(i32),
    Punc(char),
    Str(String),
    Kw(String),
    Var(String),
    Op(String),
    /// Never produced by the tokenizer.
    Empty,
}

impl View for Token {
    type V = TokenView;

    open spec fn view(&self) -> TokenView {
        match self {
            Token::Num(n) => TokenView::Num(*n as int),
            Token::Punc(c) => TokenView::Punc(*c),
            Token::Str(s) => TokenView::Str(s@),
            Token::Kw(s) => TokenView::Kw(s@),
            Token::Var(s) => TokenView::Var(s@),
            Token::Op(s) => TokenView::Op(s@),
            Token::Empty => TokenView::Empty,
        }
    }
}

impl Token {
    fn duplicate(&self) -> (r: Token)
        ensures
            r@ == self@,
    {
        match self {
            Token::Num(n) => Token::Num(*n),
            Token::Punc(c) => Token::Punc(*c),
            Token::Str(s) => Token::Str(s.clone()),
            Token::Kw(s) => Token::Kw(s.clone()),
            Token::Var(s) => Token::Var(s.clone()),
            Token::Op(s) => Token::Op(s.clone()),
            Token::Empty => Token::Empty,
        }
    }
}

impl View for LexicalError {
    type V = ErrorView;

    open spec fn view(&self) -> ErrorView {
        ErrorView { message: self.message@, line: self.line as int, column: self.column as int }
    }
}

impl LexicalError {
    fn duplicate(&self) -> (r: LexicalError)
        ensures
            r@ == self@,
    {
        LexicalError { message: self.message.clone(), line: self.line, column: self.column }
    }
}

/// What asking the tokenizer for a token gives.
pub enum Outcome {
    /// The input holds no more tokens.
    Exhausted,
    Produced(TokenView),
    Rejected(ErrorView),
}

pub open spec fn outcome_of(r: Result<Option<Token>, LexicalError>) -> Outcome {
    match r {
        Ok(None) => Outcome::Exhausted,
        Ok(Some(t)) => Outcome::Produced(t@),
        Err(e) => Outcome::Rejected(e@),
    }
}

/// The outcome of one classification step from index `i`.
pub open spec fn scan_outcome(text: Seq<char>, i: int) -> Outcome {
    match lex_step(text, i) {
        Scan::Done => Outcome::Exhausted,
        Scan::Found(t, _) => Outcome::Produced(t),
        Scan::Failed(at, message) => Outcome::Rejected(error_at(text, at, message)),
    }
}

/// Where the character stream stands after one classification step from `i`.
pub open spec fn scan_stop(text: Seq<char>, i: int) -> int {
    match lex_step(text, i) {
        Scan::Done => text.len() as int,
        Scan::Found(_, end) => end,
        Scan::Failed(at, _) => at,
    }
}

/// The tokenizer's state: the text, how far the character stream has read,
/// the buffered token, and the error that stopped it, if any.
pub struct TokenStreamView {
    pub text: Seq<char>,
    pub pos: int,
    pub cur: Option<TokenView>,
    pub failure: Option<ErrorView>,
}

/// What the next `next` or `peek` returns.
pub open spec fn pending(v: TokenStreamView) -> Outcome {
    match v.failure {
        Some(e) => Outcome::Rejected(e),
        None => match v.cur {
            Some(t) => Outcome::Produced(t),
            None => scan_outcome(v.text, v.pos),
        },
    }
}

/// The state after running classification once, with nothing buffered.
pub open spec fn scanned(v: TokenStreamView) -> TokenStreamView {
    TokenStreamView {
        text: v.text,
        pos: scan_stop(v.text, v.pos),
        cur: None,
        failure: match scan_outcome(v.text, v.pos) {
            Outcome::Rejected(e) => Some(e),
            _ => None,
        },
    }
}

/// The state after `peek`.
pub open spec fn after_peek(v: TokenStreamView) -> TokenStreamView {
    if v.failure is Some || v.cur is Some {
        v
    } else {
        match scan_outcome(v.text, v.pos) {
            Outcome::Produced(t) => TokenStreamView { cur: Some(t), ..scanned(v) },
            _ => scanned(v),
        }
    }
}

/// The state after `next`.
pub open spec fn after_next(v: TokenStreamView) -> TokenStreamView {
    if v.failure is Some {
        v
    } else if v.cur is Some {
        TokenStreamView { cur: None, ..v }
    } else {
        scanned(v)
    }
}

/// Relies on `regex::Regex::new` and `regex::Regex::is_match`: the two
/// character-class patterns below compile without error, and a one-character
/// text holds a match exactly when its character lies in the class.
#[verifier::external_body]
fn class_matches(class: &str, c: char) -> (r: bool)
    requires
        class@ == "[0-9]"@ || class@ == "[a-zA-Z_]"@,
    ensures
        class@ == "[0-9]"@ ==> r == digit_char(c),
        class@ == "[a-zA-Z_]"@ ==> r == ident_start_char(c),
{
    regex::Regex::new(class).unwrap().is_match(&c.to_string())
}

/// A pull-based token cursor with one token of lookahead over a character
/// stream. The first lexical error is fatal: every later request returns it.
pub struct TokenStream {
    cur: Option<Token>,
    failure: Option<LexicalError>,
    iter: InputStream,
}

impl View for TokenStream {
    type V = TokenStreamView;

    closed spec fn view(&self) -> TokenStreamView {
        TokenStreamView {
            text: self.iter.text(),
            pos: self.iter.pos(),
            cur: match self.cur {
                Some(t) => Some(t@),
                None => None,
            },
            failure: match self.failure {
                Some(e) => Some(e@),
                None => None,
            },
        }
    }
}

impl TokenStream {
    pub closed spec fn wf(&self) -> bool {
        &&& self.iter.wf()
        &&& self.cur matches Some(t) ==> !(t@ is Empty)
    }

    pub proof fn lemma_wf(&self)
        requires
            self.wf(),
        ensures
            0 <= self@.pos <= self@.text.len(),
    {
        self.iter.lemma_wf();
    }

    pub fn new(input: InputStream) -> (r: TokenStream)
        requires
            input.wf(),
        ensures
            r.wf(),
            r@ == (TokenStreamView { text: input.text(), pos: input.pos(), cur: None, failure: None }),
    {
        TokenStream { cur: None, failure: None, iter: input }
    }

    /// Consumes and returns the maximal run of characters that satisfy
    /// `predicate`, whose meaning is the spec predicate `p`.
    fn read_while<F: Fn(char) -> bool>(
        &mut self,
        predicate: F,
        Ghost(p): Ghost<spec_fn(char) -> bool>,
    ) -> (r: String)
        requires
            old(self).iter.wf(),
            forall|c: char| predicate.requires((c,)),
            forall|c: char, b: bool| predicate.ensures((c,), b) ==> b == p(c),
        ensures
            final(self).iter.wf(),
            final(self).iter.text() == old(self).iter.text(),
            final(self).iter.pos() == run_end_by(old(self).iter.text(), old(self).iter.pos(), p),
            r@ == old(self).iter.text().subrange(old(self).iter.pos(), final(self).iter.pos()),
            final(self).cur == old(self).cur,
            final(self).failure == old(self).failure,
    {
        let ghost text = self.iter.text();
        let ghost start = self.iter.pos();
        proof {
            self.iter.lemma_wf();
        }
        let mut string: String = String::new();
        while !self.iter.eof() && predicate(self.iter.peek().unwrap())
            invariant
                self.iter.wf(),
                text == old(self).iter.text(),
                start == old(self).iter.pos(),
                self.iter.text() == text,
                0 <= start <= self.iter.pos() <= text.len(),
                run_end_by(text, self.iter.pos(), p) == run_end_by(text, start, p),
                string@ == text.subrange(start, self.iter.pos()),
                self.cur == old(self).cur,
                self.failure == old(self).failure,
                forall|c: char| predicate.requires((c,)),
                forall|c: char, b: bool| predicate.ensures((c,), b) ==> b == p(c),
            decreases text.len() - self.iter.pos(),
        {
            let c = self.iter.next().unwrap();
            push_char(&mut string, c);
            proof {
                self.iter.lemma_wf();
                assert(string@ =~= text.subrange(start, self.iter.pos()));
            }
        }
        proof {
            self.iter.lemma_wf();
        }
        string
    }

    fn read_number(&mut self) -> (r: Result<Option<Token>, LexicalError>)
        requires
            old(self).iter.wf(),
            old(self).iter.current() matches Some(c) && digit_char(c),
        ensures
            final(self).iter.wf(),
            final(self).iter.text() == old(self).iter.text(),
            ({
                let text = old(self).iter.text();
                let k = run_end(text, old(self).iter.pos(), CharClass::Digit);
                let digits = text.subrange(old(self).iter.pos(), k);
                &&& final(self).iter.pos() == k
                &&& if decimal_value(digits) <= i32::MAX {
                    outcome_of(r) == Outcome::Produced(TokenView::Num(decimal_value(digits)))
                } else {
                    outcome_of(r) == Outcome::Rejected(
                        error_at(text, k, out_of_range_message(digits)),
                    )
                }
            }),
            final(self).cur == old(self).cur,
            final(self).failure == old(self).failure,
    {
        let ghost text = self.iter.text();
        let ghost p = self.iter.pos();
        proof {
            self.iter.lemma_wf();
            lemma_run_end(text, p, CharClass::Digit);
        }
        let number = self.read_while(
            TokenStream::is_digit,
            Ghost(class_pred(CharClass::Digit)),
        );
        assert forall|k: int| 0 <= k < number@.len() implies digit_char(#[trigger] number@[k]) by {
            assert(number@[k] == text[p + k]);
            assert(in_class(CharClass::Digit, text[p + k]));
        }
        proof {
            lemma_decimal_nonneg(number@);
        }
        match parse_decimal(&number) {
            Some(n) => Ok(Some(Token::Num(n))),
            None => {
                let mut message = String::from_str("Number out of range: ");
                message.append(number.as_str());
                Err(self.iter.croak(message))
            },
        }
    }

    fn read_ident(&mut self) -> (r: Option<Token>)
        requires
            old(self).iter.wf(),
        ensures
            final(self).iter.wf(),
            final(self).iter.text() == old(self).iter.text(),
            ({
                let text = old(self).iter.text();
                let k = run_end(text, old(self).iter.pos(), CharClass::Ident);
                let word = text.subrange(old(self).iter.pos(), k);
                &&& final(self).iter.pos() == k
                &&& r matches Some(t) && t@ == if keyword(word) {
                    TokenView::Kw(word)
                } else {
                    TokenView::Var(word)
                }
            }),
            final(self).cur == old(self).cur,
            final(self).failure == old(self).failure,
    {
        let id = self.read_while(TokenStream::is_id, Ghost(class_pred(CharClass::Ident)));
        let token: Token;
        if TokenStream::is_keyword(&id) {
            token = Token::Kw(id);
        } else {
            token = Token::Var(id);
        }
        Some(token)
    }

    fn read_escaped(&mut self, end: char) -> (r: String)
        requires
            old(self).iter.wf(),
            old(self).iter.current() is Some,
        ensures
            final(self).iter.wf(),
            final(self).iter.text() == old(self).iter.text(),
            (r@, final(self).iter.pos()) == scan_string(
                old(self).iter.text(),
                old(self).iter.pos() + 1,
                end,
                false,
            ),
            final(self).cur == old(self).cur,
            final(self).failure == old(self).failure,
    {
        let ghost text = self.iter.text();
        let ghost start = self.iter.pos() + 1;
        let mut escaped = false;
        let mut done = false;
        let mut string = String::new();
        self.iter.next();
        proof {
            self.iter.lemma_wf();
        }
        while !done && !self.iter.eof()
            invariant
                self.iter.wf(),
                text == old(self).iter.text(),
                start == old(self).iter.pos() + 1,
                self.iter.text() == text,
                start <= self.iter.pos() <= text.len(),
                done ==> (string@, self.iter.pos()) == scan_string(text, start, end, false),
                !done ==> ({
                    let (rest, stop) = scan_string(text, self.iter.pos(), end, escaped);
                    (string@ + rest, stop) == scan_string(text, start, end, false)
                }),
                self.cur == old(self).cur,
                self.failure == old(self).failure,
            decreases text.len() - self.iter.pos(),
        {
            let ghost before = string@;
            let ghost was_escaped = escaped;
            let ghost p = self.iter.pos();
            let ch = self.iter.next().unwrap();
            if escaped {
                push_char(&mut string, ch);
                escaped = false;
            } else if ch == '\\' {
                escaped = true;
            } else if ch == end {
                done = true;
            } else {
                push_char(&mut string, ch);
            }
            proof {
                self.iter.lemma_wf();
                assert(ch == text[p]);
                let (rest, stop) = scan_string(text, p + 1, end, false);
                if was_escaped || (ch != '\\' && ch != end) {
                    assert(before + (seq![ch] + rest) =~= string@ + rest);
                }
            }
        }
        proof {
            if !done {
                assert(string@ + Seq::<char>::empty() =~= string@);
            }
        }
        string
    }

    fn read_string(&mut self) -> (r: Option<Token>)
        requires
            old(self).iter.wf(),
            old(self).iter.current() is Some,
        ensures
            final(self).iter.wf(),
            final(self).iter.text() == old(self).iter.text(),
            ({
                let (content, stop) = scan_string(
                    old(self).iter.text(),
                    old(self).iter.pos() + 1,
                    '"',
                    false,
                );
                &&& final(self).iter.pos() == stop
                &&& r matches Some(t) && t@ == TokenView::Str(content)
            }),
            final(self).cur == old(self).cur,
            final(self).failure == old(self).failure,
    {
        return Some(Token::Str(self.read_escaped('"')));
    }

    fn skip_comment(&mut self)
        requires
            old(self).iter.wf(),
        ensures
            final(self).iter.wf(),
            final(self).iter.text() == old(self).iter.text(),
            final(self).iter.pos() == comment_resume(old(self).iter.text(), old(self).iter.pos()),
            final(self).cur == old(self).cur,
            final(self).failure == old(self).failure,
    {
        let not_newline = |c: char| -> (r: bool)
            ensures
                r == (c != '\n'),
            { c != '\n' };
        self.read_while(not_newline, Ghost(class_pred(CharClass::CommentBody)));
        proof {
            self.iter.lemma_wf();
        }
        self.iter.next();
    }
}

impl TokenStream {
    /// One classification step: skip whitespace and comments, then read one
    /// token, or report that the input is exhausted or holds a character no
    /// rule accepts.
    fn read_next(&mut self) -> (r: Result<Option<Token>, LexicalError>)
        requires
            old(self).iter.wf(),
        ensures
            final(self).iter.wf(),
            final(self).iter.text() == old(self).iter.text(),
            final(self).iter.pos() == scan_stop(old(self).iter.text(), old(self).iter.pos()),
            outcome_of(r) == scan_outcome(old(self).iter.text(), old(self).iter.pos()),
            final(self).cur == old(self).cur,
            final(self).failure == old(self).failure,
    {
        let ghost text = self.iter.text();
        let ghost start = self.iter.pos();
        proof {
            self.iter.lemma_wf();
        }
        loop
            invariant
                self.iter.wf(),
                text == old(self).iter.text(),
                start == old(self).iter.pos(),
                self.iter.text() == text,
                0 <= start <= self.iter.pos() <= text.len(),
                lex_step(text, self.iter.pos()) == lex_step(text, start),
                self.cur == old(self).cur,
                self.failure == old(self).failure,
            decreases text.len() - self.iter.pos(),
        {
            let ghost p = self.iter.pos();
            self.read_while(TokenStream::is_whitespace, Ghost(class_pred(CharClass::Blank)));
            proof {
                self.iter.lemma_wf();
                lemma_run_end(text, p, CharClass::Blank);
            }
            let ghost j = self.iter.pos();
            if self.iter.eof() {
                return Ok(None);
            }
            let c = self.iter.peek().unwrap();
            assert(c == text[j]);
            if c == '#' {
                self.skip_comment();
                proof {
                    lemma_run_end(text, j + 1, CharClass::CommentBody);
                    assert(run_end(text, j, CharClass::CommentBody) == run_end(
                        text,
                        j + 1,
                        CharClass::CommentBody,
                    ));
                }
            } else if c == '"' {
                return Ok(self.read_string());
            } else if TokenStream::is_digit(c) {
                return self.read_number();
            } else if TokenStream::is_id_start(c) {
                return Ok(self.read_ident());
            } else if TokenStream::is_punc(c) {
                return Ok(Some(Token::Punc(self.iter.next().unwrap())));
            } else if TokenStream::is_op_char(c) {
                let op = self.read_while(
                    TokenStream::is_op_char,
                    Ghost(class_pred(CharClass::Operator)),
                );
                return Ok(Some(Token::Op(op)));
            } else {
                let mut message = String::from_str("Can't handle character: '");
                push_char(&mut message, c);
                message.append("'");
                return Err(self.iter.croak(message));
            }
        }
    }

    /// Returns the buffered token, or runs classification once when none is
    /// buffered; `Ok(None)` at the end of the input.
    pub fn next(&mut self) -> (r: Result<Option<Token>, LexicalError>)
        requires
            old(self).wf(),
        ensures
            final(self).wf(),
            outcome_of(r) == pending(old(self)@),
            final(self)@ == after_next(old(self)@),
            outcome_of(r) matches Outcome::Produced(t) ==> !(t is Empty),
    {
        proof {
            lemma_never_empty(self.iter.text(), self.iter.pos());
        }
        if let Some(e) = &self.failure {
            return Err(e.duplicate());
        }
        let tok = self.cur.take();
        match tok {
            Some(t) => Ok(Some(t)),
            None => {
                let r = self.read_next();
                if let Err(e) = &r {
                    self.failure = Some(e.duplicate());
                }
                r
            },
        }
    }

    /// The token that `next` would return, buffered so that `next` returns it.
    pub fn peek(&mut self) -> (r: Result<Option<Token>, LexicalError>)
        requires
            old(self).wf(),
        ensures
            final(self).wf(),
            outcome_of(r) == pending(old(self)@),
            final(self)@ == after_peek(old(self)@),
            outcome_of(r) matches Outcome::Produced(t) ==> !(t is Empty),
    {
        proof {
            lemma_never_empty(self.iter.text(), self.iter.pos());
        }
        if let Some(e) = &self.failure {
            return Err(e.duplicate());
        }
        if let Some(t) = &self.cur {
            return Ok(Some(t.duplicate()));
        }
        match self.read_next() {
            Ok(Some(t)) => {
                let copy = t.duplicate();
                self.cur = Some(t);
                Ok(Some(copy))
            },
            Ok(None) => Ok(None),
            Err(e) => {
                self.failure = Some(e.duplicate());
                Err(e)
            },
        }
    }

    /// Whether `peek` finds the input exhausted.
    pub fn eof(&mut self) -> (r: bool)
        requires
            old(self).wf(),
        ensures
            final(self).wf(),
            r == (pending(old(self)@) is Exhausted),
            final(self)@ == after_peek(old(self)@),
    {
        match self.peek() {
            Ok(None) => true,
            _ => false,
        }
    }

    /// The fatal error carrying `msg` at the character stream's position.
    pub fn croak(&self, msg: String) -> (r: LexicalError)
        requires
            self.wf(),
        ensures
            r@ == error_at(self@.text, self@.pos, msg@),
    {
        self.iter.croak(msg)
    }

    fn is_whitespace(c: char) -> (r: bool)
        ensures
            r == whitespace_char(c),
    {
        c == ' ' || c == '\t' || c == '\n'
    }

    fn is_keyword(s: &String) -> (r: bool)
        ensures
            r == keyword(s@),
    {
        let r = s.eq(&String::from_str("if")) || s.eq(&String::from_str("then")) || s.eq(
            &String::from_str("else"),
        ) || s.eq(&String::from_str("lambda")) || s.eq(&String::from_str("true")) || s.eq(
            &String::from_str("false"),
        );
        proof {
            reveal_strlit("if");
            reveal_strlit("then");
            reveal_strlit("else");
            reveal_strlit("lambda");
            reveal_strlit("true");
            reveal_strlit("false");
            assert("if"@ =~= seq!['i', 'f']);
            assert("then"@ =~= seq!['t', 'h', 'e', 'n']);
            assert("else"@ =~= seq!['e', 'l', 's', 'e']);
            assert("lambda"@ =~= seq!['l', 'a', 'm', 'b', 'd', 'a']);
            assert("true"@ =~= seq!['t', 'r', 'u', 'e']);
            assert("false"@ =~= seq!['f', 'a', 'l', 's', 'e']);
        }
        r
    }

    fn is_digit(c: char) -> (r: bool)
        ensures
            r == digit_char(c),
    {
        class_matches("[0-9]", c)
    }

    fn is_id_start(c: char) -> (r: bool)
        ensures
            r == ident_start_char(c),
    {
        class_matches("[a-zA-Z_]", c)
    }

    fn is_id(c: char) -> (r: bool)
        ensures
            r == ident_char(c),
    {
        TokenStream::is_id_start(c) || c == '?' || c == '!' || c == '-' || c == '<' || c == '>'
            || c == '=' || ('0' <= c && c <= '9')
    }

    fn is_op_char(c: char) -> (r: bool)
        ensures
            r == operator_char(c),
    {
        c == '+' || c == '-' || c == '*' || c == '/' || c == '%' || c == '=' || c == '&' || c
            == '|' || c == '<' || c == '>' || c == '!'
    }

    fn is_punc(c: char) -> (r: bool)
        ensures
            r == punctuation_char(c),
    {
        c == ',' || c == ';' || c == '(' || c == ')' || c == '{' || c == '}' || c == '[' || c
            == ']'
    }
}

/// The value of a run of decimal digits, when it fits in an `i32`.
fn parse_decimal(digits: &String) -> (r: Option<i32>)
    requires
        forall|k: int| 0 <= k < digits@.len() ==> digit_char(#[trigger] digits@[k]),
    ensures
        decimal_value(digits@) <= i32::MAX ==> r == Some(decimal_value(digits@) as i32),
        decimal_value(digits@) > i32::MAX ==> r is None,
{
    let text = digits.as_str();
    let n = text.unicode_len();
    let mut value: i64 = 0;
    let mut i: usize = 0;
    while i < n
        invariant
            n == digits@.len(),
            text@ == digits@,
            i <= n,
            0 <= value <= i32::MAX,
            value == decimal_value(digits@.take(i as int)),
            forall|k: int| 0 <= k < digits@.len() ==> digit_char(#[trigger] digits@[k]),
        decreases n - i,
    {
        let c = text.get_char(i);
        assert(digit_char(digits@[i as int]));
        let d = (c as u32 - '0' as u32) as i64;
        assert(digits@.take(i + 1).drop_last() =~= digits@.take(i as int));
        value = value * 10 + d;
        i = i + 1;
        if value > i32::MAX as i64 {
            proof {
                lemma_decimal_grows(digits@, i as int);
            }
            return None;
        }
    }
    assert(digits@.take(n as int) =~= digits@);
    Some(value as i32)
}

/// Appending digits never makes a decimal value smaller.
proof fn lemma_decimal_grows(s: Seq<char>, i: int)
    requires
        0 <= i <= s.len(),
        forall|k: int| 0 <= k < s.len() ==> digit_char(#[trigger] s[k]),
    ensures
        decimal_value(s.take(i)) <= decimal_value(s),
    decreases s.len() - i,
{
    if i < s.len() {
        lemma_decimal_grows(s, i + 1);
        assert(s.take(i + 1).drop_last() =~= s.take(i));
        lemma_decimal_nonneg(s.take(i));
    } else {
        assert(s.take(i) =~= s);
    }
}

proof fn lemma_decimal_nonneg(s: Seq<char>)
    requires
        forall|k: int| 0 <= k < s.len() ==> digit_char(#[trigger] s[k]),
    ensures
        decimal_value(s) >= 0,
    decreases s.len(),
{
    if s.len() > 0 {
        lemma_decimal_nonneg(s.drop_last());
    }
}

} // verus!
