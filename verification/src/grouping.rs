//! Rows and lines of text that follow one another end up in one table and
//! in one paragraph.
use vstd::prelude::*;
use crate::blocks::{
    advance, block, block_len, blocks, cell_texts, ends_with_marker, kind_run, lemma_block_len,
    paragraph_lines, table_rows, unread, Counters,
};
use crate::token::{TokenKind, TokenView};

verus! {

/// A run of tokens of one kind holds only tokens of that kind, and the token
/// after it, if there is one, is of another kind.
pub proof fn lemma_kind_run_maximal(toks: Seq<TokenView>, kind: TokenKind)
    ensures
        kind_run(toks, kind) <= toks.len(),
        forall|i: int| 0 <= i < kind_run(toks, kind) ==> (#[trigger] toks[i]).kind() == kind,
        kind_run(toks, kind) < toks.len() ==> toks[kind_run(toks, kind) as int].kind() != kind,
    decreases toks.len(),
{
    if toks.len() > 0 && toks[0].kind() == kind {
        let rest = toks.skip(1);
        lemma_kind_run_maximal(rest, kind);
        assert forall|i: int| 0 <= i < kind_run(toks, kind) implies (#[trigger] toks[i]).kind()
            == kind by {
            if i > 0 {
                assert(toks[i] == rest[i - 1]);
            }
        }
        if kind_run(toks, kind) < toks.len() {
            assert(toks[kind_run(toks, kind) as int] == rest[kind_run(rest, kind) as int]);
        }
    }
}

/// A row has one text for each cell.
pub proof fn lemma_cells_kept(cells: Seq<Seq<char>>)
    requires
        cell_texts(cells) is Ok,
    ensures
        cell_texts(cells)->Ok_0.len() == cells.len(),
    decreases cells.len(),
{
    if cells.len() > 0 {
        lemma_cells_kept(cells.skip(1));
    }
}

/// A table holds the whole run of table rows with which `toks` starts: one
/// row for each token of the run, in order, with one text for each cell.
pub proof fn lemma_table_takes_run(toks: Seq<TokenView>)
    requires
        table_rows(toks) is Ok,
    ensures
        table_rows(toks)->Ok_0.len() == kind_run(toks, TokenKind::Table),
        forall|i: int|
            0 <= i < kind_run(toks, TokenKind::Table) ==> (#[trigger] table_rows(
                toks,
            )->Ok_0[i]) is TableRow && table_rows(toks)->Ok_0[i]->TableRow_0.len()
                == toks[i]->Table_0.len(),
    decreases toks.len(),
{
    if toks.len() > 0 && toks[0] is Table {
        let rest = toks.skip(1);
        lemma_table_takes_run(rest);
        lemma_cells_kept(toks[0]->Table_0);
        lemma_kind_run_maximal(toks, TokenKind::Table);
        let rows = table_rows(toks)->Ok_0;
        assert forall|i: int| 0 <= i < kind_run(toks, TokenKind::Table) implies (#[trigger] rows[i])
            is TableRow && rows[i]->TableRow_0.len() == toks[i]->Table_0.len() by {
            if i > 0 {
                assert(rows[i] == table_rows(rest)->Ok_0[i - 1]);
                assert(toks[i] == rest[i - 1]);
            }
        }
    }
}

/// A paragraph holds the whole run of texts with which `toks` starts: one
/// line for each token of the run.
pub proof fn lemma_paragraph_takes_run(toks: Seq<TokenView>)
    requires
        paragraph_lines(toks) is Ok,
    ensures
        paragraph_lines(toks)->Ok_0.len() == kind_run(toks, TokenKind::Text),
    decreases toks.len(),
{
    if toks.len() > 0 && toks[0] is Text {
        lemma_paragraph_takes_run(toks.skip(1));
    }
}

/// Tables and paragraphs are as long as they can be. In the tree of a
/// document no table follows a table directly and no paragraph a paragraph:
/// rows that follow one another are in one table, lines of text that follow
/// one another in one paragraph, and a token of any other kind between them
/// starts a new node.
pub proof fn lemma_groups_never_touch(toks: Seq<TokenView>, c: Counters, i: int)
    requires
        blocks(toks, c) is Ok,
        0 <= i,
        i + 1 < blocks(toks, c)->Ok_0.len(),
    ensures
        !(blocks(toks, c)->Ok_0[i] is Table && blocks(toks, c)->Ok_0[i + 1] is Table),
        !(blocks(toks, c)->Ok_0[i] is Paragraph && blocks(toks, c)->Ok_0[i + 1] is Paragraph),
    decreases toks.len(),
{
    let nodes = blocks(toks, c)->Ok_0;
    match block(toks, c) {
        Ok(Some(head)) => {
            lemma_block_len(toks, c);
            let rest = toks.skip(block_len(toks) as int);
            let next = advance(c, toks[0]);
            let tail = blocks(rest, next)->Ok_0;
            assert(nodes == seq![head] + tail);
            assert(nodes[i + 1] == tail[i]);
            if i == 0 {
                assert(nodes[0] == head);
                lemma_kind_run_maximal(toks, TokenKind::Table);
                lemma_kind_run_maximal(toks, TokenKind::Text);
                match block(rest, next) {
                    Ok(Some(second)) => {
                        let after = blocks(
                            rest.skip(block_len(rest) as int),
                            advance(next, rest[0]),
                        )->Ok_0;
                        assert(tail == seq![second] + after);
                        assert(tail[0] == second);
                        assert(rest[0] == toks[block_len(toks) as int]);
                    },
                    _ => {},
                }
            } else {
                assert(nodes[i] == tail[i - 1]);
                lemma_groups_never_touch(rest, next, i - 1);
            }
        },
        _ => {},
    }
}

/// Every token before the end marker goes into a block: of tokens that end
/// with the marker, the marker alone is left when the blocks are read.
pub proof fn lemma_blocks_take_every_token(toks: Seq<TokenView>)
    requires
        ends_with_marker(toks),
    ensures
        unread(toks) == seq![TokenView::EOF],
    decreases toks.len(),
{
    if toks[0] is EOF {
        assert(toks =~= seq![TokenView::EOF]);
    } else {
        lemma_kind_run_maximal(toks, TokenKind::List);
        lemma_kind_run_maximal(toks, TokenKind::Table);
        lemma_kind_run_maximal(toks, TokenKind::Text);
        let n = block_len(toks) as int;
        assert(1 <= n <= toks.len());
        assert(n < toks.len()) by {
            if n == toks.len() {
                assert(toks[n - 1] is EOF);
            }
        }
        let rest = toks.skip(n);
        assert forall|k: int| 0 <= k < rest.len() implies ((#[trigger] rest[k]) is EOF <==> k
            == rest.len() - 1) by {
            assert(rest[k] == toks[k + n]);
        }
        lemma_blocks_take_every_token(rest);
    }
}

} // verus!
