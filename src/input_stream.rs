use vstd::prelude::*;
use vstd::string::StrSliceExecFns;
use vstd::string::StringExecFns;

verus! {

/// Line and column (both 1-based) reached after reading `s` from the start of
/// a text: a newline moves to column 1 of the next line, any other character
/// moves one column to the right.
pub open spec fn location(s: Seq<char>) -> (int, int)
    decreases s.len(),
{
    if s.len() == 0 {
        (1, 1)
    } else {
        let (line, col) = location(s.drop_last());
        if s.last() == '\n' {
            (line + 1, 1)
        } else {
            (line, col + 1)
        }
    }
}

/// Neither coordinate can exceed one more than the number of characters read.
pub proof fn lemma_location_bounds(s: Seq<char>)
    ensures
        1 <= location(s).0 <= s.len() + 1,
        1 <= location(s).1 <= s.len() + 1,
    decreases s.len(),
{
    if s.len() > 0 {
        lemma_location_bounds(s.drop_last());
    }
}

/// A fatal lexical error, with the position of the stream when it was raised.
#[derive(Debug)]
pub struct LexicalError {
    pub message: String,
    pub line: usize,
    pub column: usize,
}

/// The character of a decimal digit.
pub open spec fn digit_for(d: int) -> char {
    seq!['0', '1', '2', '3', '4', '5', '6', '7', '8', '9'][d]
}

/// Decimal digits of `n`, most significant first, without leading zeros.
pub open spec fn decimal_text(n: nat) -> Seq<char>
    decreases n,
{
    if n < 10 {
        seq![digit_for(n as int)]
    } else {
        decimal_text(n / 10).push(digit_for((n % 10) as int))
    }
}

/// Relies on `String::push`: appends one character.
#[verifier::external_body]
pub(crate) fn push_char(s: &mut String, c: char)
    ensures
        final(s)@ == old(s)@.push(c),
{
    s.push(c);
}

fn push_decimal(s: &mut String, n: usize)
    ensures
        final(s)@ == old(s)@ + decimal_text(n as nat),
    decreases n,
{
    let digits: [char; 10] = ['0', '1', '2', '3', '4', '5', '6', '7', '8', '9'];
    assert(digits@ =~= seq!['0', '1', '2', '3', '4', '5', '6', '7', '8', '9']);
    let ghost start = s@;
    if n >= 10 {
        push_decimal(s, n / 10);
    }
    let ghost middle = s@;
    push_char(s, digits[n % 10]);
    assert(s@ =~= start + decimal_text(n as nat)) by {
        if n >= 10 {
            assert(middle == start + decimal_text((n / 10) as nat));
        } else {
            assert(middle == start);
        }
    }
}

impl LexicalError {
    /// The message annotated with the position, as `<message> (<line>:<column>)`.
    pub fn report(&self) -> (r: String)
        ensures
            r@ == self.message@ + " ("@ + decimal_text(self.line as nat) + ":"@ + decimal_text(
                self.column as nat,
            ) + ")"@,
    {
        let mut r = self.message.clone();
        r.append(" (");
        push_decimal(&mut r, self.line);
        r.append(":");
        push_decimal(&mut r, self.column);
        r.append(")");
        r
    }
}

/// A cursor over the characters of a text that buffers exactly one character
/// and tracks its line and column.
pub struct InputStream {
    chars: Vec<char>,
    pos: usize,
    line: usize,
    col: usize,
}

impl InputStream {
    /// The whole text the stream was made from.
    pub closed spec fn text(&self) -> Seq<char> {
        self.chars@
    }

    /// How many characters have been consumed.
    pub closed spec fn pos(&self) -> int {
        self.pos as int
    }

    /// The buffered character: the next one `next` returns.
    pub open spec fn current(&self) -> Option<char> {
        if 0 <= self.pos() < self.text().len() {
            Some(self.text()[self.pos()])
        } else {
            None
        }
    }

    /// Line and column of the buffered character, or of the place just after
    /// the last character once the text is exhausted.
    pub open spec fn position(&self) -> (int, int) {
        location(self.text().take(self.pos()))
    }

    pub closed spec fn wf(&self) -> bool {
        &&& self.pos <= self.chars@.len()
        &&& self.chars@.len() < usize::MAX
        &&& location(self.chars@.take(self.pos as int)) == (self.line as int, self.col as int)
    }

    pub proof fn lemma_wf(&self)
        requires
            self.wf(),
        ensures
            0 <= self.pos() <= self.text().len(),
            self.text().len() < usize::MAX,
    {
    }

    pub fn new(s: &String) -> (r: InputStream)
        requires
            s@.len() < usize::MAX,
        ensures
            r.wf(),
            r.text() == s@,
            r.pos() == 0,
    {
        let text = s.as_str();
        let n = text.unicode_len();
        let mut chars: Vec<char> = Vec::new();
        let mut i: usize = 0;
        while i < n
            invariant
                n == text@.len(),
                i <= n,
                chars@ == text@.take(i as int),
            decreases n - i,
        {
            chars.push(text.get_char(i));
            i = i + 1;
            assert(chars@ =~= text@.take(i as int));
        }
        assert(chars@ =~= text@);
        assert(chars@.take(0) =~= Seq::<char>::empty());
        InputStream { chars, pos: 0, line: 1, col: 1 }
    }

    pub fn peek(&self) -> (r: Option<char>)
        requires
            self.wf(),
        ensures
            r == self.current(),
    {
        if self.pos < self.chars.len() {
            Some(self.chars[self.pos])
        } else {
            None
        }
    }

    pub fn eof(&self) -> (r: bool)
        requires
            self.wf(),
        ensures
            r == (self.current() is None),
            r == (self.pos() == self.text().len()),
    {
        self.pos >= self.chars.len()
    }

    /// Returns the buffered character and buffers the one after it; at the
    /// end of the text returns `None` and changes nothing.
    pub fn next(&mut self) -> (r: Option<char>)
        requires
            old(self).wf(),
        ensures
            final(self).wf(),
            final(self).text() == old(self).text(),
            r == old(self).current(),
            final(self).pos() == if r is Some {
                old(self).pos() + 1
            } else {
                old(self).pos()
            },
    {
        if self.pos >= self.chars.len() {
            return None;
        }
        let c = self.chars[self.pos];
        proof {
            lemma_location_bounds(self.chars@.take(self.pos as int));
            assert(self.chars@.take(self.pos + 1).drop_last() =~= self.chars@.take(
                self.pos as int,
            ));
        }
        if c == '\n' {
            self.line = self.line + 1;
            self.col = 1;
        } else {
            self.col = self.col + 1;
        }
        self.pos = self.pos + 1;
        Some(c)
    }

    /// Line of the buffered character.
    pub fn line(&self) -> (r: usize)
        requires
            self.wf(),
        ensures
            r == self.position().0,
    {
        self.line
    }

    /// Column of the buffered character.
    pub fn col(&self) -> (r: usize)
        requires
            self.wf(),
        ensures
            r == self.position().1,
    {
        self.col
    }

    /// The fatal error carrying `msg` and the stream's current position.
    pub fn croak(&self, msg: String) -> (r: LexicalError)
        requires
            self.wf(),
        ensures
            r.message@ == msg@,
            r.line == self.position().0,
            r.column == self.position().1,
    {
        LexicalError { message: msg, line: self.line, column: self.col }
    }
}

} // verus!
