//! Headings are numbered by counting, level by level.
use vstd::prelude::*;
use crate::artefact::ArtefactView;
use crate::blocks::{
    advance, block, block_len, blocks, document, lemma_block_len, no_headings, Counters,
};
use crate::token::TokenView;

verus! {

/// The level of a heading, from one for a section to three; zero for a node
/// that is no heading.
pub open spec fn heading_level(node: ArtefactView) -> nat {
    match node {
        ArtefactView::Section(..) => 1,
        ArtefactView::Subsection(..) => 2,
        ArtefactView::Subsubsection(..) => 3,
        _ => 0,
    }
}

/// The number that a heading carries for `level`.
pub open spec fn number_at(node: ArtefactView, level: nat) -> nat {
    match node {
        ArtefactView::Section(a, _) => if level == 1 {
            a
        } else {
            0
        },
        ArtefactView::Subsection(a, b, _) => if level == 1 {
            a
        } else if level == 2 {
            b
        } else {
            0
        },
        ArtefactView::Subsubsection(a, b, c, _) => if level == 1 {
            a
        } else if level == 2 {
            b
        } else if level == 3 {
            c
        } else {
            0
        },
        _ => 0,
    }
}

/// The counter for `level`.
pub open spec fn counter_at(c: Counters, level: nat) -> nat {
    if level == 1 {
        c.section
    } else if level == 2 {
        c.subsection
    } else if level == 3 {
        c.subsubsection
    } else {
        0
    }
}

/// The number of headings of `level` among the first `i` nodes that come
/// after the last heading of a level above; where no heading of a level
/// above is among them, `start` is added.
pub open spec fn run(nodes: Seq<ArtefactView>, i: int, level: nat, start: nat) -> nat
    decreases i,
{
    if i <= 0 || i > nodes.len() {
        start
    } else {
        let l = heading_level(nodes[i - 1]);
        if 1 <= l < level {
            0
        } else if l == level {
            run(nodes, i - 1, level, start) + 1
        } else {
            run(nodes, i - 1, level, start)
        }
    }
}

/// True where the heading `nodes[i]` carries, for its own level, one more
/// than the run of that level before it, and for each level above, the run
/// of that level.
pub open spec fn numbered(nodes: Seq<ArtefactView>, i: int, c: Counters) -> bool {
    forall|level: nat|
        1 <= level <= heading_level(nodes[i]) ==> #[trigger] number_at(nodes[i], level) == run(
            nodes,
            i,
            level,
            counter_at(c, level),
        ) + if level == heading_level(nodes[i]) {
            1nat
        } else {
            0nat
        }
}

proof fn lemma_run_shift(
    head: ArtefactView,
    tail: Seq<ArtefactView>,
    t: TokenView,
    c: Counters,
    i: int,
    level: nat,
)
    requires
        1 <= i <= tail.len() + 1,
        1 <= level <= 3,
        heading_level(head) == match t {
            TokenView::Section(_) => 1nat,
            TokenView::Subsection(_) => 2nat,
            TokenView::Subsubsection(_) => 3nat,
            _ => 0nat,
        },
    ensures
        run(seq![head] + tail, i, level, counter_at(c, level)) == run(
            tail,
            i - 1,
            level,
            counter_at(advance(c, t), level),
        ),
    decreases i,
{
    let nodes = seq![head] + tail;
    if i == 1 {
        assert(nodes[0] == head);
        assert(run(nodes, 0, level, counter_at(c, level)) == counter_at(c, level));
    } else {
        assert(nodes[i - 1] == tail[i - 2]);
        lemma_run_shift(head, tail, t, c, i - 1, level);
    }
}

/// Every heading among the nodes of `toks` is numbered as [`numbered`]
/// says, with the counters `c` before the first token.
pub proof fn lemma_headings_numbered(toks: Seq<TokenView>, c: Counters, i: int)
    requires
        blocks(toks, c) is Ok,
        0 <= i < blocks(toks, c)->Ok_0.len(),
    ensures
        numbered(blocks(toks, c)->Ok_0, i, c),
    decreases toks.len(),
{
    let nodes = blocks(toks, c)->Ok_0;
    match block(toks, c) {
        Ok(Some(head)) => {
            lemma_block_len(toks, c);
            let rest = toks.skip(block_len(toks) as int);
            let next = advance(c, toks[0]);
            let tail = blocks(rest, next)->Ok_0;
            assert(nodes == seq![head] + tail);
            if i == 0 {
                assert(nodes[0] == head);
                assert forall|level: nat| 1 <= level <= heading_level(nodes[0]) implies 
                #[trigger] number_at(nodes[0], level) == run(nodes, 0, level, counter_at(c, level))
                    + if level == heading_level(nodes[0]) {
                    1nat
                } else {
                    0nat
                } by {}
            } else {
                lemma_headings_numbered(rest, next, i - 1);
                assert(nodes[i] == tail[i - 1]);
                assert forall|level: nat| 1 <= level <= heading_level(nodes[i]) implies 
                #[trigger] number_at(nodes[i], level) == run(nodes, i, level, counter_at(c, level))
                    + if level == heading_level(nodes[i]) {
                    1nat
                } else {
                    0nat
                } by {
                    lemma_run_shift(head, tail, toks[0], c, i, level);
                    assert(number_at(tail[i - 1], level) == run(
                        tail,
                        i - 1,
                        level,
                        counter_at(next, level),
                    ) + if level == heading_level(tail[i - 1]) {
                        1nat
                    } else {
                        0nat
                    });
                }
            }
        },
        _ => {},
    }
}

/// Headings are numbered by counting. In the tree of a document, a heading
/// carries for its own level the number of headings of that level since the
/// last heading of a level above, itself included, and for each level above
/// its own the number of headings of that level since the last heading
/// above that one. So the sections count 1, 2, 3, ...; the subsections of
/// one section count 1, 2, 3, ... and start again after the next section;
/// the same holds of the subsubsections of one subsection.
pub proof fn lemma_numbering(toks: Seq<TokenView>, i: int, level: nat)
    requires
        document(toks) is Ok,
        0 <= i < document(toks)->Ok_0.len(),
        1 <= level <= heading_level(document(toks)->Ok_0[i]),
    ensures
        number_at(document(toks)->Ok_0[i], level) == run(document(toks)->Ok_0, i, level, 0) + if level
            == heading_level(document(toks)->Ok_0[i]) {
            1nat
        } else {
            0nat
        },
{
    lemma_headings_numbered(toks, no_headings(), i);
    assert(counter_at(no_headings(), level) == 0);
}

} // verus!
