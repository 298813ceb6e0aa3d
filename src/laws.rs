use vstd::prelude::*;
use crate::lexicon::{
    CharClass,
    TokenView,
    decimal_value,
    digit_char,
    ident_char,
    ident_start_char,
    keyword,
    lemma_run_end,
    lemma_run_to_end,
    lex_step,
    run_end,
    whitespace_char,
};
use crate::token_stream::{
    Outcome,
    TokenStreamView,
    after_next,
    after_peek,
    pending,
};

verus! {

/// The state of a tokenizer freshly made over `text`.
pub open spec fn fresh(text: Seq<char>) -> TokenStreamView {
    TokenStreamView { text, pos: 0, cur: None, failure: None }
}

/// Whether the characters of `text` from `i` on are whitespace and comments
/// only; `in_comment` says whether a comment is open at `i`. A comment starts
/// at `#` and ends with the next newline.
pub open spec fn blank_from(text: Seq<char>, i: int, in_comment: bool) -> bool
    decreases text.len() - i,
{
    if i < 0 || i >= text.len() {
        true
    } else if in_comment {
        blank_from(text, i + 1, text[i] != '\n')
    } else if text[i] == '#' {
        blank_from(text, i + 1, true)
    } else {
        whitespace_char(text[i]) && blank_from(text, i + 1, false)
    }
}

/// A text made of whitespace and comments only.
pub open spec fn blank_text(text: Seq<char>) -> bool {
    blank_from(text, 0, false)
}

proof fn lemma_blank_skips_whitespace(text: Seq<char>, i: int)
    requires
        0 <= i <= text.len(),
        blank_from(text, i, false),
    ensures
        blank_from(text, run_end(text, i, CharClass::Blank), false),
    decreases text.len() - i,
{
    if i < text.len() && whitespace_char(text[i]) {
        lemma_blank_skips_whitespace(text, i + 1);
    }
}

/// Inside a comment of a blank text, the comment runs to the end of the text
/// or to a newline after which the text is blank again.
proof fn lemma_blank_comment(text: Seq<char>, i: int)
    requires
        0 <= i <= text.len(),
        blank_from(text, i, true),
    ensures
        ({
            let k = run_end(text, i, CharClass::CommentBody);
            k == text.len() || (k < text.len() && text[k] == '\n' && blank_from(
                text,
                k + 1,
                false,
            ))
        }),
    decreases text.len() - i,
{
    if i < text.len() && text[i] != '\n' {
        lemma_blank_comment(text, i + 1);
    }
}

proof fn lemma_blank_from_is_done(text: Seq<char>, i: int)
    requires
        0 <= i <= text.len(),
        blank_from(text, i, false),
    ensures
        lex_step(text, i) is Done,
    decreases text.len() - i,
{
    let j = run_end(text, i, CharClass::Blank);
    lemma_run_end(text, i, CharClass::Blank);
    lemma_blank_skips_whitespace(text, i);
    if j < text.len() {
        assert(text[j] == '#');
        lemma_blank_comment(text, j + 1);
        lemma_run_end(text, j + 1, CharClass::CommentBody);
        assert(run_end(text, j, CharClass::CommentBody) == run_end(
            text,
            j + 1,
            CharClass::CommentBody,
        ));
        let k = run_end(text, j, CharClass::CommentBody);
        if k < text.len() {
            lemma_blank_from_is_done(text, k + 1);
        } else {
            assert(lex_step(text, k) is Done);
        }
    }
}

/// A text of whitespace and comments only yields no token: the first request
/// finds the input exhausted.
pub proof fn lemma_blank_text_has_no_tokens(text: Seq<char>)
    requires
        blank_text(text),
    ensures
        pending(fresh(text)) == Outcome::Exhausted,
{
    lemma_blank_from_is_done(text, 0);
}

/// `peek` is idempotent: a second `peek` returns what the first did and
/// leaves the state as it was, the `next` after a `peek` returns what `next`
/// alone would have, and `peek` then `next` leaves the same state as `next`.
pub proof fn lemma_peek_idempotent(v: TokenStreamView)
    requires
        0 <= v.pos <= v.text.len(),
    ensures
        pending(after_peek(v)) == pending(v),
        after_peek(after_peek(v)) == after_peek(v),
        after_next(after_peek(v)) == after_next(v),
{
    assert(lex_step(v.text, v.text.len() as int) is Done);
}

/// A run of decimal digits whose value fits in an `i32` yields exactly one
/// number token, carrying that value.
pub proof fn lemma_digit_run(d: Seq<char>)
    requires
        d.len() >= 1,
        forall|k: int| 0 <= k < d.len() ==> digit_char(#[trigger] d[k]),
        decimal_value(d) <= i32::MAX,
    ensures
        pending(fresh(d)) == Outcome::Produced(TokenView::Num(decimal_value(d))),
        pending(after_next(fresh(d))) == Outcome::Exhausted,
{
    assert(run_end(d, 0, CharClass::Blank) == 0);
    lemma_run_to_end(d, 0, CharClass::Digit);
    assert(d.subrange(0, d.len() as int) =~= d);
    assert(lex_step(d, d.len() as int) is Done);
}

/// A maximal identifier run yields exactly one token: a keyword token when
/// the run is one of the keywords, an identifier token otherwise, carrying
/// the run's text.
pub proof fn lemma_identifier_run(s: Seq<char>)
    requires
        s.len() >= 1,
        ident_start_char(s[0]),
        forall|k: int| 0 <= k < s.len() ==> ident_char(#[trigger] s[k]),
    ensures
        pending(fresh(s)) == Outcome::Produced(
            if keyword(s) {
                TokenView::Kw(s)
            } else {
                TokenView::Var(s)
            },
        ),
        pending(after_next(fresh(s))) == Outcome::Exhausted,
{
    assert(run_end(s, 0, CharClass::Blank) == 0);
    lemma_run_to_end(s, 0, CharClass::Ident);
    assert(s.subrange(0, s.len() as int) =~= s);
    assert(lex_step(s, s.len() as int) is Done);
}

/// Wherever an identifier starts, the maximal identifier run from there is
/// the next token: a keyword token when the run is one of the keywords, an
/// identifier token otherwise. The stream then stands just after the run.
pub proof fn lemma_identifier_at(text: Seq<char>, i: int)
    requires
        0 <= i < text.len(),
        ident_start_char(text[i]),
    ensures
        ({
            let v = TokenStreamView { text, pos: i, cur: None, failure: None };
            let k = run_end(text, i, CharClass::Ident);
            let word = text.subrange(i, k);
            &&& pending(v) == Outcome::Produced(
                if keyword(word) {
                    TokenView::Kw(word)
                } else {
                    TokenView::Var(word)
                },
            )
            &&& after_next(v).pos == k
            &&& forall|m: int| i <= m < k ==> ident_char(#[trigger] text[m])
            &&& k < text.len() ==> !ident_char(text[k])
        }),
{
    assert(run_end(text, i, CharClass::Blank) == i);
    lemma_run_end(text, i, CharClass::Ident);
}

/// Each keyword, tokenized on its own, yields exactly one keyword token
/// carrying its text.
pub proof fn lemma_keyword_text(s: Seq<char>)
    requires
        keyword(s),
    ensures
        pending(fresh(s)) == Outcome::Produced(TokenView::Kw(s)),
        pending(after_next(fresh(s))) == Outcome::Exhausted,
{
    assert forall|k: int| 0 <= k < s.len() implies ident_start_char(#[trigger] s[k]) by {}
    lemma_identifier_run(s);
}

} // verus!
