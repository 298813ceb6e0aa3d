use vstd::prelude::*;
use crate::lexicon::TokenView;
use crate::token_stream::{Outcome, TokenStream, after_peek, pending};

verus! {

/// A node of the syntax tree that a parser builds from the token sequence.
pub enum Node {
    Num { value: i32 },
    Str { value: String },
    Bool { value: bool },
    Var { value: String },
    Lambda { vars: Vec<String>, body: Box<Node> },
    Call { func: Box<Node>, args: Vec<Node> },
    If { cond: Box<Node>, consequent: Box<Node>, elsethen: Box<Node> },
    Assign { operator: String, left: Box<Node>, right: Box<Node> },
    Binary { operator: String, left: Box<Node>, right: Box<Node> },
    Prog { prog: Vec<Node> },
    Empty,
}

/// A parser over a token stream. No grammar is defined yet.
pub struct Parser {
    input: TokenStream,
}

impl Parser {
    /// Parses nothing yet: every input gives the empty node.
    pub fn new(input: TokenStream) -> (r: Node)
        ensures
            r is Empty,
    {
        Node::Empty
    }

    /// Whether the next token is a punctuation token, of any character.
    fn is_punc(&mut self, _c: char) -> (r: bool)
        requires
            old(self).input.wf(),
        ensures
            final(self).input.wf(),
            final(self).input@ == after_peek(old(self).input@),
            r == (pending(old(self).input@) matches Outcome::Produced(TokenView::Punc(_))),
    {
        let tok = self.input.peek();
        match tok {
            Ok(Some(crate::token_stream::Token::Punc(_))) => true,
            _ => false,
        }
    }
}

} // verus!
