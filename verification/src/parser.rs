//! From block tokens to the document tree.
use vstd::prelude::*;
use crate::artefact::{artefact_views, lemma_list_view, lemma_table_view, ArtefactView, ParseArtefact};
use crate::blocks::{
    advance, block, block_len, blocks, cell_texts, deeper_run, depths_positive, gap, items,
    kind_run, lemma_block_len, lemma_deeper_run_bound, lemma_deeper_run_split, lemma_list_run,
    no_headings, paragraph_lines, table_rows, text_of, unread, Counters,
};
use crate::chars::{string_views, to_chars};
use crate::error::{
    lemma_prepend_assoc, lemma_prepend_nothing, prepend, Construct, ParseError, ParseErrorView,
};
use crate::inline::{scan_spans, span_views, text_views, SpanView, Text, TextArtefact};
use crate::token::{token_views, Token, TokenKind, TokenView};

verus! {

/// Reads a token sequence into a document tree. The parser owns the tokens
/// it has not read yet, the heading counters, and the level of the list it
/// is assembling.
pub struct Parser {
    /// The tokens that are left, the next one last.
    tokens: Vec<Token>,
    list_depth: usize,
    section_number: usize,
    subsection_number: usize,
    subsubsection_number: usize,
}

/// The values of some spans or the error in their place.
pub open spec fn spans_result(r: Result<Vec<TextArtefact>, ParseError>) -> Result<
    Seq<SpanView>,
    ParseErrorView,
> {
    match r {
        Ok(spans) => Ok(span_views(spans@)),
        Err(e) => Err(e@),
    }
}

/// The value of a text or the error in its place.
pub open spec fn text_result(r: Result<Text, ParseError>) -> Result<Seq<SpanView>, ParseErrorView> {
    match r {
        Ok(t) => Ok(t@),
        Err(e) => Err(e@),
    }
}

/// The values of some texts or the error in their place.
pub open spec fn texts_result(r: Result<Vec<Text>, ParseError>) -> Result<
    Seq<Seq<SpanView>>,
    ParseErrorView,
> {
    match r {
        Ok(ts) => Ok(text_views(ts@)),
        Err(e) => Err(e@),
    }
}

/// The value of a node, as the one block it is, or the error in its place.
pub open spec fn node_result(r: Result<ParseArtefact, ParseError>) -> Result<
    Option<ArtefactView>,
    ParseErrorView,
> {
    match r {
        Ok(a) => Ok(Some(a@)),
        Err(e) => Err(e@),
    }
}

/// The value of an optional node or the error in its place.
pub open spec fn step_result(r: Result<Option<ParseArtefact>, ParseError>) -> Result<
    Option<ArtefactView>,
    ParseErrorView,
> {
    match r {
        Ok(Some(a)) => Ok(Some(a@)),
        Ok(None) => Ok(None),
        Err(e) => Err(e@),
    }
}

/// The values of some nodes or the error in their place.
pub open spec fn nodes_result(r: Result<Vec<ParseArtefact>, ParseError>) -> Result<
    Seq<ArtefactView>,
    ParseErrorView,
> {
    match r {
        Ok(nodes) => Ok(artefact_views(nodes@)),
        Err(e) => Err(e@),
    }
}

/// The error of a handler for `kind` that finds another token, or none.
pub open spec fn mismatch(toks: Seq<TokenView>, context: Construct, kind: TokenKind)
    -> ParseErrorView {
    if toks.len() == 0 {
        ParseErrorView::UnexpectedEndOfInput { context }
    } else {
        ParseErrorView::UnexpectedToken { context, expected: kind, found: toks[0] }
    }
}

/// What a handler for one token of the kind `kind` returns: the block, where
/// the next token is of that kind, and else the mismatch.
pub open spec fn single(
    toks: Seq<TokenView>,
    c: Counters,
    context: Construct,
    kind: TokenKind,
) -> Result<Option<ArtefactView>, ParseErrorView> {
    if toks.len() > 0 && toks[0].kind() == kind {
        block(toks, c)
    } else {
        Err(mismatch(toks, context, kind))
    }
}

impl Parser {
    /// The tokens that are not read yet, the next one first.
    pub closed spec fn remaining(&self) -> Seq<TokenView> {
        Seq::new(self.tokens@.len(), |i: int| self.tokens@[self.tokens@.len() - 1 - i]@)
    }

    /// The heading counters.
    pub closed spec fn counters(&self) -> Counters {
        Counters {
            section: self.section_number as nat,
            subsection: self.subsection_number as nat,
            subsubsection: self.subsubsection_number as nat,
        }
    }

    /// The level of the list that is being assembled.
    pub closed spec fn list_depth(&self) -> nat {
        self.list_depth as nat
    }

    /// Every list line that is left has a positive depth, and no counter can
    /// overflow on the tokens that are left.
    pub closed spec fn wf(&self) -> bool {
        &&& depths_positive(self.remaining())
        &&& self.section_number + self.tokens@.len() <= usize::MAX
        &&& self.subsection_number + self.tokens@.len() <= usize::MAX
        &&& self.subsubsection_number + self.tokens@.len() <= usize::MAX
    }

    /// A parser for `tokens`, with all counters at zero.
    pub fn new(tokens: Vec<Token>) -> (parser: Parser)
        requires
            depths_positive(token_views(tokens@)),
        ensures
            parser.wf(),
            parser.remaining() == token_views(tokens@),
            parser.counters() == no_headings(),
            parser.list_depth() == 1,
    {
        let ghost all = tokens@;
        let mut rest = tokens;
        let mut reversed: Vec<Token> = Vec::new();
        loop
            invariant
                rest@.len() + reversed@.len() == all.len(),
                rest@ == all.take(rest@.len() as int),
                forall|i: int|
                    0 <= i < reversed@.len() ==> reversed@[i] == all[all.len() - 1 - i],
            ensures
                rest@.len() == 0,
            decreases rest@.len(),
        {
            match rest.pop() {
                Some(t) => {
                    reversed.push(t);
                },
                None => {
                    break ;
                },
            }
        }
        let count: usize = reversed.len();
        assert(count == all.len());
        let parser = Parser {
            tokens: reversed,
            list_depth: 1,
            section_number: 0,
            subsection_number: 0,
            subsubsection_number: 0,
        };
        assert(parser.remaining() =~= token_views(all));
        parser
    }

    /// The next token itself; meant for a parser that has one left.
    pub closed spec fn upcoming(&self) -> Token {
        self.tokens@[self.tokens@.len() - 1]
    }

    /// The next token, which stays where it is.
    pub fn next(&self) -> (r: Option<&Token>)
        ensures
            match r {
                Some(t) => self.remaining().len() > 0 && t@ == self.remaining()[0] && *t
                    == self.upcoming(),
                None => self.remaining().len() == 0,
            },
    {
        let n: usize = self.tokens.len();
        if n == 0 {
            None
        } else {
            Some(&self.tokens[n - 1])
        }
    }

    /// The kind of the next token.
    pub fn next_kind(&self) -> (r: Option<TokenKind>)
        ensures
            match r {
                Some(k) => self.remaining().len() > 0 && k == self.remaining()[0].kind(),
                None => self.remaining().len() == 0,
            },
    {
        match self.next() {
            Some(t) => Some(t.kind()),
            None => None,
        }
    }

    /// Takes the next token.
    pub fn consume(&mut self) -> (r: Option<Token>)
        requires
            old(self).wf(),
        ensures
            final(self).wf(),
            final(self).counters() == old(self).counters(),
            final(self).list_depth() == old(self).list_depth(),
            match r {
                Some(t) => old(self).remaining().len() > 0 && t@ == old(self).remaining()[0] && t
                    == old(self).upcoming() && final(self).remaining() == old(
                    self,
                ).remaining().skip(1),
                None => old(self).remaining().len() == 0 && final(self).remaining() == old(
                    self,
                ).remaining(),
            },
    {
        let ghost before = self.remaining();
        let r = self.tokens.pop();
        proof {
            if r is Some {
                assert(self.remaining() =~= before.skip(1));
                assert forall|i: int| 0 <= i < self.remaining().len() implies !(
                #[trigger] self.remaining()[i] is List) || self.remaining()[i]->List_depth
                    >= 1 by {
                    assert(self.remaining()[i] == before[i + 1]);
                }
            } else {
                assert(self.remaining() =~= before);
            }
        }
        r
    }

    /// Takes tokens as long as `f` says yes to the next one, and returns
    /// them in order. The first token that `f` refuses stays.
    pub fn consume_while<F: Fn(&Token) -> bool>(&mut self, f: F) -> (r: Vec<Token>)
        requires
            old(self).wf(),
            forall|t: &Token| #[trigger] f.requires((t,)),
        ensures
            final(self).wf(),
            final(self).counters() == old(self).counters(),
            final(self).list_depth() == old(self).list_depth(),
            r@.len() <= old(self).remaining().len(),
            token_views(r@) == old(self).remaining().take(r@.len() as int),
            final(self).remaining() == old(self).remaining().skip(r@.len() as int),
            forall|i: int| 0 <= i < r@.len() ==> f.ensures((&#[trigger] r@[i],), true),
            final(self).remaining().len() > 0 ==> f.ensures((&final(self).upcoming(),), false),
    {
        let ghost toks = self.remaining();
        let mut result: Vec<Token> = Vec::new();
        assert(toks.skip(0) =~= toks);
        assert(token_views(result@) =~= toks.take(0));
        loop
            invariant
                self.wf(),
                self.counters() == old(self).counters(),
                self.list_depth() == old(self).list_depth(),
                toks == old(self).remaining(),
                result@.len() <= toks.len(),
                token_views(result@) == toks.take(result@.len() as int),
                self.remaining() == toks.skip(result@.len() as int),
                forall|i: int| 0 <= i < result@.len() ==> f.ensures((&#[trigger] result@[i],), true),
                forall|t: &Token| #[trigger] f.requires((t,)),
            ensures
                self.remaining().len() > 0 ==> f.ensures((&self.upcoming(),), false),
            decreases self.remaining().len(),
        {
            let keep = match self.next() {
                Some(token) => f(token),
                None => false,
            };
            if !keep {
                break ;
            }
            let ghost taken = self.upcoming();
            let ghost before = result@;
            let ghost rest = self.remaining();
            match self.consume() {
                Some(token) => {
                    result.push(token);
                    assert(token == taken);
                    assert(rest.skip(1) =~= toks.skip(result@.len() as int));
                    assert(token_views(result@) =~= toks.take(result@.len() as int)) by {
                        assert(token_views(result@) =~= token_views(before).push(token@));
                        assert(toks[before.len() as int] == rest[0]);
                    }
                },
                None => {
                    assert(false);
                },
            }
        }
        result
    }

    /// Reads the spans of `text`, which belongs to `context`. A link that
    /// lacks its `(` or its `)` is an error; a styled span that is not
    /// closed is none, and becomes plain text.
    pub fn parse_text_artefacts(&self, text: &str, context: Construct) -> (r: Result<
        Vec<TextArtefact>,
        ParseError,
    >)
        ensures
            spans_result(r) == text_of(text@, context),
    {
        let chars = to_chars(text);
        match scan_spans(&chars) {
            Some(spans) => Ok(spans),
            None => Err(ParseError::MalformedInlineLink { context }),
        }
    }

    /// Reads `text`, which belongs to `context`, into a text value.
    pub fn parse_text(&self, text: &str, context: Construct) -> (r: Result<Text, ParseError>)
        ensures
            text_result(r) == text_of(text@, context),
    {
        Ok(Text(self.parse_text_artefacts(text, context)?))
    }
}

/// The current level once a list at `level` is read and `rest` is left: one
/// up where a list line, which then lies above the level, ended the list.
pub open spec fn level_after(rest: Seq<TokenView>, level: nat) -> int {
    if rest.len() > 0 && rest[0] is List {
        level - 1
    } else {
        level as int
    }
}

/// Parsing has no memory. What `parse` returns is fixed by the tokens that
/// are left and by the heading counters: two parsers that agree in these
/// return the same tree or the same error, whatever either has read before
/// and whatever list level it was left at. In particular two parsers made
/// by `new` from tokens of the same value return the same.
pub proof fn lemma_parse_has_no_memory(p: Parser, q: Parser)
    requires
        p.remaining() == q.remaining(),
        p.counters() == q.counters(),
    ensures
        blocks(p.remaining(), p.counters()) == blocks(q.remaining(), q.counters()),
{
}

impl Parser {
    /// Tells whether the next token is of the kind `kind`.
    pub fn next_is(&self, kind: TokenKind) -> (b: bool)
        ensures
            b == (self.remaining().len() > 0 && self.remaining()[0].kind() == kind),
    {
        match self.next_kind() {
            Some(k) => k == kind,
            None => false,
        }
    }

    /// Reads a heading of the first level.
    pub fn parse_section(&mut self) -> (r: Result<ParseArtefact, ParseError>)
        requires
            old(self).wf(),
        ensures
            final(self).wf(),
            final(self).list_depth() == old(self).list_depth(),
            node_result(r) == single(
                old(self).remaining(),
                old(self).counters(),
                Construct::Section,
                TokenKind::Section,
            ),
            r is Ok ==> final(self).remaining() == old(self).remaining().skip(1),
            r is Ok ==> final(self).counters() == advance(
                old(self).counters(),
                old(self).remaining()[0],
            ),
    {
        match self.consume() {
            Some(Token::Section(name)) => {
                let title = self.parse_text(name.as_str(), Construct::Section)?;
                let ghost rest = self.remaining();
                self.section_number += 1;
                self.subsection_number = 0;
                self.subsubsection_number = 0;
                assert(self.remaining() =~= rest);
                Ok(ParseArtefact::Section(self.section_number, title))
            },
            Some(token) => Err(
                ParseError::UnexpectedToken {
                    context: Construct::Section,
                    expected: TokenKind::Section,
                    found: token,
                },
            ),
            None => Err(ParseError::UnexpectedEndOfInput { context: Construct::Section }),
        }
    }

    /// Reads a heading of the second level.
    pub fn parse_subsection(&mut self) -> (r: Result<ParseArtefact, ParseError>)
        requires
            old(self).wf(),
        ensures
            final(self).wf(),
            final(self).list_depth() == old(self).list_depth(),
            node_result(r) == single(
                old(self).remaining(),
                old(self).counters(),
                Construct::Subsection,
                TokenKind::Subsection,
            ),
            r is Ok ==> final(self).remaining() == old(self).remaining().skip(1),
            r is Ok ==> final(self).counters() == advance(
                old(self).counters(),
                old(self).remaining()[0],
            ),
    {
        match self.consume() {
            Some(Token::Subsection(name)) => {
                let title = self.parse_text(name.as_str(), Construct::Subsection)?;
                let ghost rest = self.remaining();
                self.subsection_number += 1;
                self.subsubsection_number = 0;
                assert(self.remaining() =~= rest);
                Ok(ParseArtefact::Subsection(self.section_number, self.subsection_number, title))
            },
            Some(token) => Err(
                ParseError::UnexpectedToken {
                    context: Construct::Subsection,
                    expected: TokenKind::Subsection,
                    found: token,
                },
            ),
            None => Err(ParseError::UnexpectedEndOfInput { context: Construct::Subsection }),
        }
    }

    /// Reads a heading of the third level.
    pub fn parse_subsubsection(&mut self) -> (r: Result<ParseArtefact, ParseError>)
        requires
            old(self).wf(),
        ensures
            final(self).wf(),
            final(self).list_depth() == old(self).list_depth(),
            node_result(r) == single(
                old(self).remaining(),
                old(self).counters(),
                Construct::Subsubsection,
                TokenKind::Subsubsection,
            ),
            r is Ok ==> final(self).remaining() == old(self).remaining().skip(1),
            r is Ok ==> final(self).counters() == advance(
                old(self).counters(),
                old(self).remaining()[0],
            ),
    {
        match self.consume() {
            Some(Token::Subsubsection(name)) => {
                let title = self.parse_text(name.as_str(), Construct::Subsubsection)?;
                let ghost rest = self.remaining();
                self.subsubsection_number += 1;
                assert(self.remaining() =~= rest);
                Ok(
                    ParseArtefact::Subsubsection(
                        self.section_number,
                        self.subsection_number,
                        self.subsubsection_number,
                        title,
                    ),
                )
            },
            Some(token) => Err(
                ParseError::UnexpectedToken {
                    context: Construct::Subsubsection,
                    expected: TokenKind::Subsubsection,
                    found: token,
                },
            ),
            None => Err(ParseError::UnexpectedEndOfInput { context: Construct::Subsubsection }),
        }
    }

    /// Reads a quote.
    pub fn parse_quote(&mut self) -> (r: Result<ParseArtefact, ParseError>)
        requires
            old(self).wf(),
        ensures
            final(self).wf(),
            final(self).list_depth() == old(self).list_depth(),
            final(self).counters() == old(self).counters(),
            node_result(r) == single(
                old(self).remaining(),
                old(self).counters(),
                Construct::Quote,
                TokenKind::Quote,
            ),
            r is Ok ==> final(self).remaining() == old(self).remaining().skip(1),
    {
        match self.consume() {
            Some(Token::Quote(quote)) => {
                let text = self.parse_text(quote.as_str(), Construct::Quote)?;
                Ok(ParseArtefact::Quote(text))
            },
            Some(token) => Err(
                ParseError::UnexpectedToken {
                    context: Construct::Quote,
                    expected: TokenKind::Quote,
                    found: token,
                },
            ),
            None => Err(ParseError::UnexpectedEndOfInput { context: Construct::Quote }),
        }
    }

    /// Reads a code block.
    pub fn parse_codeblock(&mut self) -> (r: Result<ParseArtefact, ParseError>)
        requires
            old(self).wf(),
        ensures
            final(self).wf(),
            final(self).list_depth() == old(self).list_depth(),
            final(self).counters() == old(self).counters(),
            node_result(r) == single(
                old(self).remaining(),
                old(self).counters(),
                Construct::Codeblock,
                TokenKind::Codeblock,
            ),
            r is Ok ==> final(self).remaining() == old(self).remaining().skip(1),
    {
        match self.consume() {
            Some(Token::Codeblock(code)) => Ok(ParseArtefact::Codeblock(code)),
            Some(token) => Err(
                ParseError::UnexpectedToken {
                    context: Construct::Codeblock,
                    expected: TokenKind::Codeblock,
                    found: token,
                },
            ),
            None => Err(ParseError::UnexpectedEndOfInput { context: Construct::Codeblock }),
        }
    }

    /// Reads a block image.
    pub fn parse_image(&mut self) -> (r: Result<ParseArtefact, ParseError>)
        requires
            old(self).wf(),
        ensures
            final(self).wf(),
            final(self).list_depth() == old(self).list_depth(),
            final(self).counters() == old(self).counters(),
            node_result(r) == single(
                old(self).remaining(),
                old(self).counters(),
                Construct::Image,
                TokenKind::Image,
            ),
            r is Ok ==> final(self).remaining() == old(self).remaining().skip(1),
    {
        match self.consume() {
            Some(Token::Image { caption, path }) => Ok(ParseArtefact::Image(caption, path)),
            Some(token) => Err(
                ParseError::UnexpectedToken {
                    context: Construct::Image,
                    expected: TokenKind::Image,
                    found: token,
                },
            ),
            None => Err(ParseError::UnexpectedEndOfInput { context: Construct::Image }),
        }
    }

    /// Reads a button.
    pub fn parse_button(&mut self) -> (r: Result<ParseArtefact, ParseError>)
        requires
            old(self).wf(),
        ensures
            final(self).wf(),
            final(self).list_depth() == old(self).list_depth(),
            final(self).counters() == old(self).counters(),
            node_result(r) == single(
                old(self).remaining(),
                old(self).counters(),
                Construct::Button,
                TokenKind::Button,
            ),
            r is Ok ==> final(self).remaining() == old(self).remaining().skip(1),
    {
        match self.consume() {
            Some(Token::Button { text, link }) => Ok(ParseArtefact::Button(text, link)),
            Some(token) => Err(
                ParseError::UnexpectedToken {
                    context: Construct::Button,
                    expected: TokenKind::Button,
                    found: token,
                },
            ),
            None => Err(ParseError::UnexpectedEndOfInput { context: Construct::Button }),
        }
    }

    /// Reads the cells of one table row.
    pub fn parse_cells(&self, cells: &Vec<String>) -> (r: Result<Vec<Text>, ParseError>)
        ensures
            texts_result(r) == cell_texts(string_views(cells@)),
    {
        let ghost all = string_views(cells@);
        let mut row: Vec<Text> = Vec::new();
        let mut i: usize = 0;
        proof {
            assert(all.skip(0) =~= all);
            assert(text_views(row@) =~= Seq::<Seq<SpanView>>::empty());
            lemma_prepend_nothing(cell_texts(all));
        }
        while i < cells.len()
            invariant
                i <= cells.len(),
                all == string_views(cells@),
                cell_texts(all) == prepend(text_views(row@), cell_texts(all.skip(i as int))),
            decreases cells.len() - i,
        {
            let ghost before = text_views(row@);
            let ghost rest = all.skip(i as int);
            assert(rest[0] == cells@[i as int]@);
            assert(rest.skip(1) =~= all.skip(i + 1));
            let text = self.parse_text(cells[i].as_str(), Construct::Table)?;
            row.push(text);
            proof {
                assert(text_views(row@) =~= before + seq![text@]);
                lemma_prepend_assoc(before, seq![text@], cell_texts(all.skip(i + 1)));
            }
            i += 1;
        }
        proof {
            assert(all.skip(i as int).len() == 0);
            assert(text_views(row@) + Seq::<Seq<SpanView>>::empty() =~= text_views(row@));
        }
        Ok(row)
    }

    /// Reads the table rows that follow one another into one table.
    pub fn parse_table(&mut self) -> (r: Result<ParseArtefact, ParseError>)
        requires
            old(self).wf(),
        ensures
            final(self).wf(),
            final(self).list_depth() == old(self).list_depth(),
            final(self).counters() == old(self).counters(),
            node_result(r) == match table_rows(old(self).remaining()) {
                Ok(rows) => Ok(Some(ArtefactView::Table(rows))),
                Err(e) => Err(e),
            },
            r is Ok ==> final(self).remaining() == old(self).remaining().skip(
                kind_run(old(self).remaining(), TokenKind::Table) as int,
            ),
    {
        let ghost toks = self.remaining();
        let ghost mut used: nat = 0;
        let mut rows: Vec<ParseArtefact> = Vec::new();
        proof {
            assert(toks.skip(0) =~= toks);
            assert(artefact_views(rows@) =~= Seq::<ArtefactView>::empty());
            lemma_prepend_nothing(table_rows(toks));
        }
        while self.next_is(TokenKind::Table)
            invariant
                self.wf(),
                self.list_depth() == old(self).list_depth(),
                self.counters() == old(self).counters(),
                toks == old(self).remaining(),
                used <= toks.len(),
                self.remaining() == toks.skip(used as int),
                kind_run(toks, TokenKind::Table) == used + kind_run(
                    self.remaining(),
                    TokenKind::Table,
                ),
                table_rows(toks) == prepend(artefact_views(rows@), table_rows(self.remaining())),
            decreases self.remaining().len(),
        {
            let ghost before = artefact_views(rows@);
            let ghost rest = self.remaining();
            assert(rest.skip(1) =~= toks.skip(used as int + 1));
            match self.consume() {
                Some(Token::Table(cells)) => {
                    let row = ParseArtefact::TableRow(self.parse_cells(&cells)?);
                    rows.push(row);
                    proof {
                        used = used + 1;
                        assert(artefact_views(rows@) =~= before + seq![row@]);
                        lemma_prepend_assoc(before, seq![row@], table_rows(rest.skip(1)));
                    }
                },
                _ => {
                    assert(false);
                },
            }
        }
        proof {
            assert(artefact_views(rows@) + Seq::<ArtefactView>::empty() =~= artefact_views(rows@));
            lemma_table_view(rows);
        }
        Ok(ParseArtefact::Table(rows))
    }

    /// Reads the texts that follow one another into one paragraph.
    pub fn parse_paragraph(&mut self) -> (r: Result<ParseArtefact, ParseError>)
        requires
            old(self).wf(),
        ensures
            final(self).wf(),
            final(self).list_depth() == old(self).list_depth(),
            final(self).counters() == old(self).counters(),
            node_result(r) == match paragraph_lines(old(self).remaining()) {
                Ok(lines) => Ok(Some(ArtefactView::Paragraph(lines))),
                Err(e) => Err(e),
            },
            r is Ok ==> final(self).remaining() == old(self).remaining().skip(
                kind_run(old(self).remaining(), TokenKind::Text) as int,
            ),
    {
        let ghost toks = self.remaining();
        let ghost mut used: nat = 0;
        let mut lines: Vec<Text> = Vec::new();
        proof {
            assert(toks.skip(0) =~= toks);
            assert(text_views(lines@) =~= Seq::<Seq<SpanView>>::empty());
            lemma_prepend_nothing(paragraph_lines(toks));
        }
        while self.next_is(TokenKind::Text)
            invariant
                self.wf(),
                self.list_depth() == old(self).list_depth(),
                self.counters() == old(self).counters(),
                toks == old(self).remaining(),
                used <= toks.len(),
                self.remaining() == toks.skip(used as int),
                kind_run(toks, TokenKind::Text) == used + kind_run(
                    self.remaining(),
                    TokenKind::Text,
                ),
                paragraph_lines(toks) == prepend(
                    text_views(lines@),
                    paragraph_lines(self.remaining()),
                ),
            decreases self.remaining().len(),
        {
            let ghost before = text_views(lines@);
            let ghost rest = self.remaining();
            assert(rest.skip(1) =~= toks.skip(used as int + 1));
            match self.consume() {
                Some(Token::Text(text)) => {
                    let line = self.parse_text(text.as_str(), Construct::Paragraph)?;
                    lines.push(line);
                    proof {
                        used = used + 1;
                        assert(text_views(lines@) =~= before + seq![line@]);
                        lemma_prepend_assoc(before, seq![line@], paragraph_lines(rest.skip(1)));
                    }
                },
                _ => {
                    assert(false);
                },
            }
        }
        proof {
            assert(text_views(lines@) + Seq::<Seq<SpanView>>::empty() =~= text_views(lines@));
        }
        Ok(ParseArtefact::Paragraph(lines))
    }

    /// Reads the list at the current level into one node.
    pub fn parse_list(&mut self) -> (r: Result<ParseArtefact, ParseError>)
        requires
            old(self).wf(),
            old(self).list_depth() >= 1,
        ensures
            final(self).wf(),
            final(self).counters() == old(self).counters(),
            node_result(r) == match items(old(self).remaining(), old(self).list_depth()) {
                Ok(children) => Ok(Some(ArtefactView::List(children))),
                Err(e) => Err(e),
            },
            r is Ok ==> final(self).remaining() == old(self).remaining().skip(
                deeper_run(old(self).remaining(), (old(self).list_depth() - 1) as nat) as int,
            ),
            r is Ok ==> final(self).list_depth() == level_after(
                final(self).remaining(),
                old(self).list_depth(),
            ),
        decreases old(self).remaining().len(), gap(old(self).remaining(), old(self).list_depth()), 1nat,
    {
        let list_items = self.parse_list_items()?;
        proof {
            lemma_list_view(list_items);
        }
        Ok(ParseArtefact::List(list_items))
    }

    /// Reads the children of the list at the current level. A line of that
    /// level becomes an item; deeper lines go into a nested list, one level
    /// down; a line of a level above ends the list and moves the current
    /// level up by one, and so does not get read here.
    pub fn parse_list_items(&mut self) -> (r: Result<Vec<ParseArtefact>, ParseError>)
        requires
            old(self).wf(),
            old(self).list_depth() >= 1,
        ensures
            final(self).wf(),
            final(self).counters() == old(self).counters(),
            nodes_result(r) == items(old(self).remaining(), old(self).list_depth()),
            r is Ok ==> final(self).remaining() == old(self).remaining().skip(
                deeper_run(old(self).remaining(), (old(self).list_depth() - 1) as nat) as int,
            ),
            r is Ok ==> final(self).list_depth() == level_after(
                final(self).remaining(),
                old(self).list_depth(),
            ),
        decreases old(self).remaining().len(), gap(old(self).remaining(), old(self).list_depth()), 0nat,
    {
        let ghost toks = self.remaining();
        let ghost mut used: nat = 0;
        let level: usize = self.list_depth;
        let ghost above = (level - 1) as nat;
        let mut list_items: Vec<ParseArtefact> = Vec::new();
        proof {
            assert(toks.skip(0) =~= toks);
            assert(artefact_views(list_items@) =~= Seq::<ArtefactView>::empty());
            lemma_prepend_nothing(items(toks, level as nat));
        }
        loop
            invariant
                self.wf(),
                self.counters() == old(self).counters(),
                self.list_depth == level,
                level >= 1,
                above == level - 1,
                level == old(self).list_depth(),
                toks == old(self).remaining(),
                used <= toks.len(),
                self.remaining() == toks.skip(used as int),
                deeper_run(toks, above) == used + deeper_run(self.remaining(), above),
                items(toks, level as nat) == prepend(
                    artefact_views(list_items@),
                    items(self.remaining(), level as nat),
                ),
            decreases self.remaining().len(),
        {
            let ghost before = artefact_views(list_items@);
            let ghost rest = self.remaining();
            let depth: usize = match self.next() {
                Some(Token::List { depth, .. }) => *depth,
                _ => {
                    proof {
                        assert(before + Seq::<ArtefactView>::empty() =~= before);
                    }
                    return Ok(list_items);
                },
            };
            if depth == level {
                assert(rest.skip(1) =~= toks.skip(used as int + 1));
                match self.consume() {
                    Some(Token::List { depth: _, text }) => {
                        let item = ParseArtefact::ListItem(
                            self.parse_text(text.as_str(), Construct::List)?,
                        );
                        list_items.push(item);
                        proof {
                            used = used + 1;
                            assert(artefact_views(list_items@) =~= before + seq![item@]);
                            lemma_prepend_assoc(
                                before,
                                seq![item@],
                                items(rest.skip(1), level as nat),
                            );
                        }
                    },
                    _ => {
                        assert(false);
                    },
                }
            } else if depth > level {
                proof {
                    lemma_deeper_run_split(rest, above);
                    lemma_deeper_run_bound(rest, level as nat);
                    if used == 0 {
                        assert(rest == toks);
                    }
                }
                let ghost inner = deeper_run(rest, level as nat);
                assert(rest.skip(inner as int) =~= toks.skip((used + inner) as int));
                self.list_depth = level + 1;
                assert(self.remaining() =~= rest);
                let nested = self.parse_list()?;
                let ghost after = self.remaining();
                self.list_depth = level;
                assert(self.remaining() =~= after);
                list_items.push(nested);
                proof {
                    used = used + inner;
                    assert(artefact_views(list_items@) =~= before + seq![nested@]);
                    lemma_prepend_assoc(
                        before,
                        seq![nested@],
                        items(rest.skip(inner as int), level as nat),
                    );
                }
            } else {
                self.list_depth = level - 1;
                proof {
                    assert(self.remaining() =~= rest);
                    assert(before + Seq::<ArtefactView>::empty() =~= before);
                }
                return Ok(list_items);
            }
        }
    }

    /// Reads the next block. At the end marker, and where no token is left,
    /// there is none, and nothing is read.
    pub fn parse_token(&mut self) -> (r: Result<Option<ParseArtefact>, ParseError>)
        requires
            old(self).wf(),
        ensures
            final(self).wf(),
            step_result(r) == block(old(self).remaining(), old(self).counters()),
            r matches Ok(Some(_)) ==> final(self).remaining() == old(self).remaining().skip(
                block_len(old(self).remaining()) as int,
            ),
            r matches Ok(Some(_)) ==> final(self).counters() == advance(
                old(self).counters(),
                old(self).remaining()[0],
            ),
            r matches Ok(None) ==> final(self).remaining() == old(self).remaining(),
            r matches Ok(None) ==> final(self).counters() == old(self).counters(),
    {
        let ghost toks = self.remaining();
        match self.next_kind() {
            None => Ok(None),
            Some(TokenKind::EOF) => Ok(None),
            Some(TokenKind::Section) => Ok(Some(self.parse_section()?)),
            Some(TokenKind::Subsection) => Ok(Some(self.parse_subsection()?)),
            Some(TokenKind::Subsubsection) => Ok(Some(self.parse_subsubsection()?)),
            Some(TokenKind::List) => {
                self.list_depth = 1;
                proof {
                    assert(self.remaining() =~= toks);
                    lemma_list_run(toks);
                }
                Ok(Some(self.parse_list()?))
            },
            Some(TokenKind::Quote) => Ok(Some(self.parse_quote()?)),
            Some(TokenKind::Table) => Ok(Some(self.parse_table()?)),
            Some(TokenKind::Codeblock) => Ok(Some(self.parse_codeblock()?)),
            Some(TokenKind::Image) => Ok(Some(self.parse_image()?)),
            Some(TokenKind::Button) => Ok(Some(self.parse_button()?)),
            Some(TokenKind::Text) => Ok(Some(self.parse_paragraph()?)),
        }
    }

    /// Reads the tokens up to the end marker into the nodes of the document,
    /// in order. The first error ends the call, and no tree is returned.
    pub fn parse(&mut self) -> (r: Result<Vec<ParseArtefact>, ParseError>)
        requires
            old(self).wf(),
        ensures
            final(self).wf(),
            nodes_result(r) == blocks(old(self).remaining(), old(self).counters()),
            r is Ok ==> final(self).remaining() == unread(old(self).remaining()),
    {
        let ghost toks = self.remaining();
        let ghost start = self.counters();
        let mut result: Vec<ParseArtefact> = Vec::new();
        proof {
            assert(artefact_views(result@) =~= Seq::<ArtefactView>::empty());
            lemma_prepend_nothing(blocks(toks, start));
        }
        loop
            invariant
                self.wf(),
                toks == old(self).remaining(),
                start == old(self).counters(),
                unread(toks) == unread(self.remaining()),
                blocks(toks, start) == prepend(
                    artefact_views(result@),
                    blocks(self.remaining(), self.counters()),
                ),
            decreases self.remaining().len(),
        {
            let ghost before = artefact_views(result@);
            let ghost rest = self.remaining();
            let ghost c = self.counters();
            match self.parse_token()? {
                Some(node) => {
                    result.push(node);
                    proof {
                        lemma_block_len(rest, c);
                        assert(artefact_views(result@) =~= before + seq![node@]);
                        lemma_prepend_assoc(
                            before,
                            seq![node@],
                            blocks(self.remaining(), self.counters()),
                        );
                    }
                },
                None => {
                    proof {
                        assert(before + Seq::<ArtefactView>::empty() =~= before);
                    }
                    return Ok(result);
                },
            }
        }
    }
}

} // verus!
