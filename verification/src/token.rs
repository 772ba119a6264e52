//! The block tokens.
use vstd::prelude::*;
use crate::chars::string_views;

verus! {

/// One block-level unit of a document, as the lexer hands it to the parser.
#[derive(Debug, PartialEq)]
pub enum Token {
    Section(String),
    Subsection(String),
    Subsubsection(String),
    List { depth: usize, text: String },
    Quote(String),
    Table(Vec<String>),
    Image { caption: String, path: String },
    Codeblock(String),
    Button { text: String, link: String },
    Text(String),
    EOF,
}

/// The mathematical value of a [`Token`].
pub enum TokenView {
    Section(Seq<char>),
    Subsection(Seq<char>),
    Subsubsection(Seq<char>),
    List { depth: nat, text: Seq<char> },
    Quote(Seq<char>),
    Table(Seq<Seq<char>>),
    Image { caption: Seq<char>, path: Seq<char> },
    Codeblock(Seq<char>),
    Button { text: Seq<char>, link: Seq<char> },
    Text(Seq<char>),
    EOF,
}

/// The variant of a token, without its payload.
#[derive(Debug, Clone, Copy, PartialEq, Eq, Structural)]
pub enum TokenKind {
    Section,
    Subsection,
    Subsubsection,
    List,
    Quote,
    Table,
    Image,
    Codeblock,
    Button,
    Text,
    EOF,
}

impl View for Token {
    type V = TokenView;

    open spec fn view(&self) -> TokenView {
        match self {
            Token::Section(s) => TokenView::Section(s@),
            Token::Subsection(s) => TokenView::Subsection(s@),
            Token::Subsubsection(s) => TokenView::Subsubsection(s@),
            Token::List { depth, text } => TokenView::List { depth: *depth as nat, text: text@ },
            Token::Quote(s) => TokenView::Quote(s@),
            Token::Table(cells) => TokenView::Table(string_views(cells@)),
            Token::Image { caption, path } => TokenView::Image { caption: caption@, path: path@ },
            Token::Codeblock(s) => TokenView::Codeblock(s@),
            Token::Button { text, link } => TokenView::Button { text: text@, link: link@ },
            Token::Text(s) => TokenView::Text(s@),
            Token::EOF => TokenView::EOF,
        }
    }
}

impl TokenView {
    /// The variant of this token.
    pub open spec fn kind(self) -> TokenKind {
        match self {
            TokenView::Section(_) => TokenKind::Section,
            TokenView::Subsection(_) => TokenKind::Subsection,
            TokenView::Subsubsection(_) => TokenKind::Subsubsection,
            TokenView::List { .. } => TokenKind::List,
            TokenView::Quote(_) => TokenKind::Quote,
            TokenView::Table(_) => TokenKind::Table,
            TokenView::Image { .. } => TokenKind::Image,
            TokenView::Codeblock(_) => TokenKind::Codeblock,
            TokenView::Button { .. } => TokenKind::Button,
            TokenView::Text(_) => TokenKind::Text,
            TokenView::EOF => TokenKind::EOF,
        }
    }
}

/// The values of a sequence of tokens.
pub open spec fn token_views(ts: Seq<Token>) -> Seq<TokenView> {
    ts.map_values(|t: Token| t@)
}

impl Token {
    /// The variant of this token.
    pub fn kind(&self) -> (k: TokenKind)
        ensures
            k == self@.kind(),
    {
        match self {
            Token::Section(_) => TokenKind::Section,
            Token::Subsection(_) => TokenKind::Subsection,
            Token::Subsubsection(_) => TokenKind::Subsubsection,
            Token::List { .. } => TokenKind::List,
            Token::Quote(_) => TokenKind::Quote,
            Token::Table(_) => TokenKind::Table,
            Token::Image { .. } => TokenKind::Image,
            Token::Codeblock(_) => TokenKind::Codeblock,
            Token::Button { .. } => TokenKind::Button,
            Token::Text(_) => TokenKind::Text,
            Token::EOF => TokenKind::EOF,
        }
    }
}

} // verus!
