//! The errors of lexing and parsing.
use vstd::prelude::*;
use crate::token::{Token, TokenKind, TokenView};

verus! {

/// The construct that was being read when an error came up.
#[derive(Debug, Clone, Copy, PartialEq, Eq, Structural)]
pub enum Construct {
    Section,
    Subsection,
    Subsubsection,
    List,
    Quote,
    Table,
    Paragraph,
    Codeblock,
    Image,
    Button,
}

/// Why lexing or parsing stopped. Every error ends the call that met it.
#[derive(Debug, PartialEq)]
pub enum ParseError {
    /// A handler was entered on a token of another kind than its own.
    UnexpectedToken { context: Construct, expected: TokenKind, found: Token },
    /// A handler was entered with no token left.
    UnexpectedEndOfInput { context: Construct },
    /// A code block was opened and the input ended before it was closed.
    UnterminatedCodeblock,
    /// An inline link lacks its `(` or its `)`.
    MalformedInlineLink { context: Construct },
    /// A heading line with more than three markers or without a title; `line`
    /// counts from one.
    MalformedHeadingMarker { line: usize },
}

/// The mathematical value of a [`ParseError`].
pub enum ParseErrorView {
    UnexpectedToken { context: Construct, expected: TokenKind, found: TokenView },
    UnexpectedEndOfInput { context: Construct },
    UnterminatedCodeblock,
    MalformedInlineLink { context: Construct },
    MalformedHeadingMarker { line: nat },
}

impl View for ParseError {
    type V = ParseErrorView;

    open spec fn view(&self) -> ParseErrorView {
        match self {
            ParseError::UnexpectedToken { context, expected, found } => {
                ParseErrorView::UnexpectedToken {
                    context: *context,
                    expected: *expected,
                    found: found@,
                }
            },
            ParseError::UnexpectedEndOfInput { context } => ParseErrorView::UnexpectedEndOfInput {
                context: *context,
            },
            ParseError::UnterminatedCodeblock => ParseErrorView::UnterminatedCodeblock,
            ParseError::MalformedInlineLink { context } => ParseErrorView::MalformedInlineLink {
                context: *context,
            },
            ParseError::MalformedHeadingMarker { line } => ParseErrorView::MalformedHeadingMarker {
                line: *line as nat,
            },
        }
    }
}

/// Puts `head` in front of what `rest` holds; an error stays as it is.
pub open spec fn prepend<A>(head: Seq<A>, rest: Result<Seq<A>, ParseErrorView>) -> Result<
    Seq<A>,
    ParseErrorView,
> {
    match rest {
        Ok(tail) => Ok(head + tail),
        Err(e) => Err(e),
    }
}

/// Putting `b` and then `a` in front is putting `a + b` in front.
pub proof fn lemma_prepend_assoc<A>(a: Seq<A>, b: Seq<A>, r: Result<Seq<A>, ParseErrorView>)
    ensures
        prepend(a, prepend(b, r)) == prepend(a + b, r),
{
    match r {
        Ok(tail) => {
            assert(a + (b + tail) =~= (a + b) + tail);
        },
        Err(_) => {},
    }
}

/// Putting nothing in front changes nothing.
pub proof fn lemma_prepend_nothing<A>(r: Result<Seq<A>, ParseErrorView>)
    ensures
        prepend(Seq::empty(), r) == r,
{
    match r {
        Ok(tail) => {
            assert(Seq::<A>::empty() + tail =~= tail);
        },
        Err(_) => {},
    }
}

} // verus!
