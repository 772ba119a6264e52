//! What the tree of a token sequence is: the rules by which tokens become
//! headings, lists, tables, paragraphs and the other blocks.
use vstd::prelude::*;
use crate::artefact::ArtefactView;
use crate::error::{prepend, Construct, ParseErrorView};
use crate::inline::{inline_spans, SpanView};
use crate::token::{TokenKind, TokenView};

verus! {

/// The numbers of the last heading of each level; zero where there was none
/// since the last heading of a level above.
pub struct Counters {
    pub section: nat,
    pub subsection: nat,
    pub subsubsection: nat,
}

/// The counters before the first heading.
pub open spec fn no_headings() -> Counters {
    Counters { section: 0, subsection: 0, subsubsection: 0 }
}

/// The counters after the token `t`: a heading adds one at its level and
/// sets the levels below to zero; any other token leaves them.
pub open spec fn advance(c: Counters, t: TokenView) -> Counters {
    match t {
        TokenView::Section(_) => Counters {
            section: c.section + 1,
            subsection: 0,
            subsubsection: 0,
        },
        TokenView::Subsection(_) => Counters {
            section: c.section,
            subsection: c.subsection + 1,
            subsubsection: 0,
        },
        TokenView::Subsubsection(_) => Counters {
            section: c.section,
            subsection: c.subsection,
            subsubsection: c.subsubsection + 1,
        },
        _ => c,
    }
}

/// The spans of a text that belongs to `context`.
pub open spec fn text_of(s: Seq<char>, context: Construct) -> Result<
    Seq<SpanView>,
    ParseErrorView,
> {
    match inline_spans(s) {
        Some(spans) => Ok(spans),
        None => Err(ParseErrorView::MalformedInlineLink { context }),
    }
}

/// The number of tokens of the kind `kind` with which `toks` starts.
pub open spec fn kind_run(toks: Seq<TokenView>, kind: TokenKind) -> nat
    decreases toks.len(),
{
    if toks.len() > 0 && toks[0].kind() == kind {
        1 + kind_run(toks.skip(1), kind)
    } else {
        0
    }
}

/// True of a list line that lies deeper than `depth`.
pub open spec fn is_deeper(t: TokenView, depth: nat) -> bool {
    t matches TokenView::List { depth: d, .. } && d > depth
}

/// The number of list lines deeper than `depth` with which `toks` starts.
pub open spec fn deeper_run(toks: Seq<TokenView>, depth: nat) -> nat
    decreases toks.len(),
{
    if toks.len() > 0 && is_deeper(toks[0], depth) {
        1 + deeper_run(toks.skip(1), depth)
    } else {
        0
    }
}

/// How far the first token lies below `depth`; zero if it does not.
pub open spec fn gap(toks: Seq<TokenView>, depth: nat) -> nat {
    if toks.len() > 0 && is_deeper(toks[0], depth) {
        (toks[0]->List_depth - depth) as nat
    } else {
        0
    }
}

/// True where every list line has a depth of one or more.
pub open spec fn depths_positive(toks: Seq<TokenView>) -> bool {
    forall|i: int| 0 <= i < toks.len() ==> !(#[trigger] toks[i] is List) || toks[i]->List_depth >= 1
}

/// True of tokens that end with the end marker and hold it nowhere else.
pub open spec fn ends_with_marker(toks: Seq<TokenView>) -> bool {
    &&& toks.len() >= 1
    &&& forall|k: int| 0 <= k < toks.len() ==> ((#[trigger] toks[k]) is EOF <==> k == toks.len() - 1)
}

/// A run is no longer than the tokens it is counted in.
pub proof fn lemma_kind_run_bound(toks: Seq<TokenView>, kind: TokenKind)
    ensures
        kind_run(toks, kind) <= toks.len(),
    decreases toks.len(),
{
    if toks.len() > 0 && toks[0].kind() == kind {
        lemma_kind_run_bound(toks.skip(1), kind);
    }
}

/// A run of deeper lines is no longer than the tokens it is counted in.
pub proof fn lemma_deeper_run_bound(toks: Seq<TokenView>, depth: nat)
    ensures
        deeper_run(toks, depth) <= toks.len(),
    decreases toks.len(),
{
    if toks.len() > 0 && is_deeper(toks[0], depth) {
        lemma_deeper_run_bound(toks.skip(1), depth);
    }
}

/// The run of list lines at or below a level goes on where the run of the
/// lines below the next level ends.
pub proof fn lemma_deeper_run_split(toks: Seq<TokenView>, depth: nat)
    ensures
        deeper_run(toks, depth + 1) <= toks.len(),
        deeper_run(toks, depth) == deeper_run(toks, depth + 1) + deeper_run(
            toks.skip(deeper_run(toks, depth + 1) as int),
            depth,
        ),
    decreases toks.len(),
{
    lemma_deeper_run_bound(toks, depth + 1);
    if toks.len() > 0 && is_deeper(toks[0], depth + 1) {
        let rest = toks.skip(1);
        lemma_deeper_run_split(rest, depth);
        lemma_deeper_run_bound(rest, depth + 1);
        assert(rest.skip(deeper_run(rest, depth + 1) as int) =~= toks.skip(
            deeper_run(toks, depth + 1) as int,
        ));
    } else {
        assert(toks.skip(0) =~= toks);
    }
}

/// The children of a list at level `depth`, read from the start of `toks`
/// up to the first token that is no list line of that level or deeper.
///
/// A line of the level itself is an item. Lines that lie deeper form one
/// nested list, together with all the deeper lines that follow them
/// directly: that list is one child, at the level below.
pub open spec fn items(toks: Seq<TokenView>, depth: nat) -> Result<Seq<ArtefactView>, ParseErrorView>
    decreases toks.len(), gap(toks, depth),
    via items_decreases
{
    if toks.len() == 0 {
        Ok(Seq::empty())
    } else {
        match toks[0] {
            TokenView::List { depth: d, text } => {
                if d == depth {
                    match text_of(text, Construct::List) {
                        Ok(t) => prepend(seq![ArtefactView::ListItem(t)], items(toks.skip(1), depth)),
                        Err(e) => Err(e),
                    }
                } else if d > depth {
                    match items(toks, depth + 1) {
                        Ok(inner) => prepend(
                            seq![ArtefactView::List(inner)],
                            items(toks.skip(deeper_run(toks, depth) as int), depth),
                        ),
                        Err(e) => Err(e),
                    }
                } else {
                    Ok(Seq::empty())
                }
            },
            _ => Ok(Seq::empty()),
        }
    }
}

#[via_fn]
proof fn items_decreases(toks: Seq<TokenView>, depth: nat) {
    lemma_deeper_run_bound(toks, depth);
}

/// The texts of the cells of one table row.
pub open spec fn cell_texts(cells: Seq<Seq<char>>) -> Result<Seq<Seq<SpanView>>, ParseErrorView>
    decreases cells.len(),
{
    if cells.len() == 0 {
        Ok(Seq::empty())
    } else {
        match text_of(cells[0], Construct::Table) {
            Ok(t) => prepend(seq![t], cell_texts(cells.skip(1))),
            Err(e) => Err(e),
        }
    }
}

/// The rows of the table with which `toks` starts: one for each token up
/// to the first that is no table row.
pub open spec fn table_rows(toks: Seq<TokenView>) -> Result<Seq<ArtefactView>, ParseErrorView>
    decreases toks.len(),
{
    if toks.len() > 0 && toks[0] is Table {
        match cell_texts(toks[0]->Table_0) {
            Ok(cells) => prepend(seq![ArtefactView::TableRow(cells)], table_rows(toks.skip(1))),
            Err(e) => Err(e),
        }
    } else {
        Ok(Seq::empty())
    }
}

/// The lines of the paragraph with which `toks` starts: one for each token
/// up to the first that is no text.
pub open spec fn paragraph_lines(toks: Seq<TokenView>) -> Result<
    Seq<Seq<SpanView>>,
    ParseErrorView,
>
    decreases toks.len(),
{
    if toks.len() > 0 && toks[0] is Text {
        match text_of(toks[0]->Text_0, Construct::Paragraph) {
            Ok(t) => prepend(seq![t], paragraph_lines(toks.skip(1))),
            Err(e) => Err(e),
        }
    } else {
        Ok(Seq::empty())
    }
}

/// The number of tokens that make up the block with which `toks` starts:
/// the whole run of list lines, of table rows or of texts, and one token of
/// any other kind.
pub open spec fn block_len(toks: Seq<TokenView>) -> nat {
    if toks.len() == 0 {
        0
    } else if toks[0] is List {
        kind_run(toks, TokenKind::List)
    } else if toks[0] is Table {
        kind_run(toks, TokenKind::Table)
    } else if toks[0] is Text {
        kind_run(toks, TokenKind::Text)
    } else {
        1
    }
}

/// The node for the block with which `toks` starts, with the heading
/// counters `c` before it; `None` at the end marker and where no token is
/// left.
pub open spec fn block(toks: Seq<TokenView>, c: Counters) -> Result<
    Option<ArtefactView>,
    ParseErrorView,
> {
    if toks.len() == 0 {
        Ok(None)
    } else {
        match toks[0] {
            TokenView::EOF => Ok(None),
            TokenView::Section(s) => match text_of(s, Construct::Section) {
                Ok(t) => Ok(Some(ArtefactView::Section(c.section + 1, t))),
                Err(e) => Err(e),
            },
            TokenView::Subsection(s) => match text_of(s, Construct::Subsection) {
                Ok(t) => Ok(Some(ArtefactView::Subsection(c.section, c.subsection + 1, t))),
                Err(e) => Err(e),
            },
            TokenView::Subsubsection(s) => match text_of(s, Construct::Subsubsection) {
                Ok(t) => Ok(
                    Some(
                        ArtefactView::Subsubsection(
                            c.section,
                            c.subsection,
                            c.subsubsection + 1,
                            t,
                        ),
                    ),
                ),
                Err(e) => Err(e),
            },
            TokenView::List { .. } => match items(toks, 1) {
                Ok(children) => Ok(Some(ArtefactView::List(children))),
                Err(e) => Err(e),
            },
            TokenView::Quote(s) => match text_of(s, Construct::Quote) {
                Ok(t) => Ok(Some(ArtefactView::Quote(t))),
                Err(e) => Err(e),
            },
            TokenView::Table(_) => match table_rows(toks) {
                Ok(rows) => Ok(Some(ArtefactView::Table(rows))),
                Err(e) => Err(e),
            },
            TokenView::Text(_) => match paragraph_lines(toks) {
                Ok(lines) => Ok(Some(ArtefactView::Paragraph(lines))),
                Err(e) => Err(e),
            },
            TokenView::Image { caption, path } => Ok(Some(ArtefactView::Image(caption, path))),
            TokenView::Button { text, link } => Ok(Some(ArtefactView::Button(text, link))),
            TokenView::Codeblock(code) => Ok(Some(ArtefactView::Codeblock(code))),
        }
    }
}

/// The nodes of a document: the blocks of `toks` in order, up to the end
/// marker or the last token, or the first error. `c` holds the heading
/// counters before the first token.
pub open spec fn blocks(toks: Seq<TokenView>, c: Counters) -> Result<
    Seq<ArtefactView>,
    ParseErrorView,
>
    decreases toks.len(),
    via blocks_decreases
{
    match block(toks, c) {
        Ok(Some(node)) => prepend(
            seq![node],
            blocks(toks.skip(block_len(toks) as int), advance(c, toks[0])),
        ),
        Ok(None) => Ok(Seq::empty()),
        Err(e) => Err(e),
    }
}

#[via_fn]
proof fn blocks_decreases(toks: Seq<TokenView>, c: Counters) {
    lemma_kind_run_bound(toks, TokenKind::List);
    lemma_kind_run_bound(toks, TokenKind::Table);
    lemma_kind_run_bound(toks, TokenKind::Text);
}

/// What is left of `toks` once its blocks are read: the tokens from the end
/// marker on.
pub open spec fn unread(toks: Seq<TokenView>) -> Seq<TokenView>
    decreases toks.len(),
    via unread_decreases
{
    if toks.len() == 0 || toks[0] is EOF {
        toks
    } else {
        unread(toks.skip(block_len(toks) as int))
    }
}

#[via_fn]
proof fn unread_decreases(toks: Seq<TokenView>) {
    lemma_kind_run_bound(toks, TokenKind::List);
    lemma_kind_run_bound(toks, TokenKind::Table);
    lemma_kind_run_bound(toks, TokenKind::Text);
}

/// Where every list line has a positive depth, the list lines at the start
/// of `toks` are those that lie deeper than level zero.
pub proof fn lemma_list_run(toks: Seq<TokenView>)
    requires
        depths_positive(toks),
    ensures
        deeper_run(toks, 0) == kind_run(toks, TokenKind::List),
    decreases toks.len(),
{
    if toks.len() > 0 {
        assert(toks[0] is List ==> toks[0]->List_depth >= 1);
        assert forall|i: int| 0 <= i < toks.skip(1).len() implies !(#[trigger] toks.skip(1)[i]
            is List) || toks.skip(1)[i]->List_depth >= 1 by {
            assert(toks.skip(1)[i] == toks[i + 1]);
        }
        lemma_list_run(toks.skip(1));
    }
}

/// A block that is there takes at least one token and no more than are left.
pub proof fn lemma_block_len(toks: Seq<TokenView>, c: Counters)
    requires
        block(toks, c) matches Ok(Some(_)),
    ensures
        1 <= block_len(toks) <= toks.len(),
{
    lemma_kind_run_bound(toks, TokenKind::List);
    lemma_kind_run_bound(toks, TokenKind::Table);
    lemma_kind_run_bound(toks, TokenKind::Text);
}

/// The tree of a whole token sequence.
pub open spec fn document(toks: Seq<TokenView>) -> Result<Seq<ArtefactView>, ParseErrorView> {
    blocks(toks, no_headings())
}

} // verus!
