//! Lists are nested as their lines are marked.
use vstd::prelude::*;
use crate::artefact::ArtefactView;
use crate::blocks::{
    block, block_len, deeper_run, depths_positive, gap, is_deeper, items, lemma_deeper_run_bound,
    lemma_deeper_run_split, lemma_list_run, text_of, Counters,
};
use crate::error::Construct;
use crate::inline::SpanView;
use crate::token::TokenView;

verus! {

/// The depth of a list line and the spans of its text.
pub open spec fn line_entry(t: TokenView) -> (nat, Seq<SpanView>) {
    match t {
        TokenView::List { depth, text } => match text_of(text, Construct::List) {
            Ok(spans) => (depth, spans),
            Err(_) => (depth, Seq::empty()),
        },
        _ => (0, Seq::empty()),
    }
}

/// The entries of a sequence of list lines.
pub open spec fn line_entries(toks: Seq<TokenView>) -> Seq<(nat, Seq<SpanView>)> {
    toks.map_values(|t: TokenView| line_entry(t))
}

/// The items below `node`, in reading order, each with the number of lists
/// it lies in; `level` is the number of lists that `node` itself lies in.
pub open spec fn item_entries(node: ArtefactView, level: nat) -> Seq<(nat, Seq<SpanView>)>
    decreases node, 0nat,
{
    match node {
        ArtefactView::List(children) => entries_of(children, level + 1, children.len()),
        ArtefactView::ListItem(text) => seq![(level, text)],
        _ => Seq::empty(),
    }
}

/// The items below the first `n` of `children`, which lie in `level` lists.
pub open spec fn entries_of(children: Seq<ArtefactView>, level: nat, n: nat) -> Seq<
    (nat, Seq<SpanView>),
>
    decreases children, n,
{
    if n == 0 || n > children.len() {
        Seq::empty()
    } else {
        entries_of(children, level, (n - 1) as nat) + item_entries(children[n - 1], level)
    }
}

proof fn lemma_entries_prefix(a: Seq<ArtefactView>, b: Seq<ArtefactView>, level: nat, n: nat)
    requires
        n <= a.len(),
    ensures
        entries_of(a + b, level, n) == entries_of(a, level, n),
    decreases n,
{
    if n > 0 {
        lemma_entries_prefix(a, b, level, (n - 1) as nat);
        assert((a + b)[n - 1] == a[n - 1]);
    }
}

proof fn lemma_entries_concat(a: Seq<ArtefactView>, b: Seq<ArtefactView>, level: nat, n: nat)
    requires
        n <= b.len(),
    ensures
        entries_of(a + b, level, a.len() + n) == entries_of(a, level, a.len()) + entries_of(
            b,
            level,
            n,
        ),
    decreases n,
{
    if n == 0 {
        lemma_entries_prefix(a, b, level, a.len());
        assert(entries_of(a, level, a.len()) + Seq::<(nat, Seq<SpanView>)>::empty() =~= entries_of(
            a,
            level,
            a.len(),
        ));
    } else {
        lemma_entries_concat(a, b, level, (n - 1) as nat);
        assert((a + b)[a.len() + n - 1] == b[n - 1]);
        let x = entries_of(a, level, a.len());
        let y = entries_of(b, level, (n - 1) as nat);
        let z = item_entries(b[n - 1], level);
        assert((x + y) + z =~= x + (y + z));
    }
}

proof fn lemma_entries_single(head: ArtefactView, level: nat)
    ensures
        entries_of(seq![head], level, 1) == item_entries(head, level),
{
    let one = seq![head];
    assert(one.len() == 1);
    assert(one[0] == head);
    assert(entries_of(one, level, 0) == Seq::<(nat, Seq<SpanView>)>::empty());
    assert(entries_of(one, level, 1) == entries_of(one, level, 0) + item_entries(one[0], level));
    assert(Seq::<(nat, Seq<SpanView>)>::empty() + item_entries(head, level) =~= item_entries(
        head,
        level,
    ));
}

/// Every item of a list lies as deep in the tree as its line is marked, and
/// the items stand in the order of the lines. The children that a list of
/// the level `depth` gets from `toks`, read in order with the number of
/// lists around each item, are the list lines of that level or deeper with
/// which `toks` starts, each with its depth and its text.
pub proof fn lemma_items_keep_depths(toks: Seq<TokenView>, depth: nat)
    requires
        depth >= 1,
        items(toks, depth) is Ok,
    ensures
        deeper_run(toks, (depth - 1) as nat) <= toks.len(),
        entries_of(items(toks, depth)->Ok_0, depth, items(toks, depth)->Ok_0.len())
            == line_entries(toks.take(deeper_run(toks, (depth - 1) as nat) as int)),
    decreases toks.len(), gap(toks, depth),
{
    let above = (depth - 1) as nat;
    let children = items(toks, depth)->Ok_0;
    let none = Seq::<(nat, Seq<SpanView>)>::empty();
    lemma_deeper_run_bound(toks, above);
    if toks.len() > 0 && is_deeper(toks[0], above) {
        let d = toks[0]->List_depth;
        if d == depth {
            let rest = toks.skip(1);
            let tail = items(rest, depth)->Ok_0;
            let head = ArtefactView::ListItem(text_of(toks[0]->List_text, Construct::List)->Ok_0);
            lemma_items_keep_depths(rest, depth);
            assert(children == seq![head] + tail);
            lemma_entries_concat(seq![head], tail, depth, tail.len());
            lemma_entries_single(head, depth);
            assert(item_entries(head, depth) == seq![line_entry(toks[0])]);
            assert(line_entries(toks.take(deeper_run(toks, above) as int)) =~= seq![
                line_entry(toks[0]),
            ] + line_entries(rest.take(deeper_run(rest, above) as int)));
        } else {
            let n = deeper_run(toks, depth);
            lemma_deeper_run_split(toks, above);
            let rest = toks.skip(n as int);
            let inner = items(toks, depth + 1)->Ok_0;
            let tail = items(rest, depth)->Ok_0;
            let head = ArtefactView::List(inner);
            lemma_items_keep_depths(toks, depth + 1);
            lemma_items_keep_depths(rest, depth);
            lemma_deeper_run_bound(rest, above);
            assert(children == seq![head] + tail);
            lemma_entries_concat(seq![head], tail, depth, tail.len());
            lemma_entries_single(head, depth);
            assert(item_entries(head, depth) == entries_of(inner, depth + 1, inner.len()));
            assert(line_entries(toks.take(deeper_run(toks, above) as int)) =~= line_entries(
                toks.take(n as int),
            ) + line_entries(rest.take(deeper_run(rest, above) as int)));
        }
    } else {
        assert(children =~= Seq::<ArtefactView>::empty());
        assert(line_entries(toks.take(0)) =~= none);
    }
}

/// A list keeps the lines it was made of. Where every list line has a depth
/// of one or more and `toks` starts with list lines, the list that is read
/// from them takes all the list lines that follow one another, and its
/// items, read in order with the number of lists around each, are those
/// lines with their depths: an item lies as deep in the tree as its line is
/// marked.
pub proof fn lemma_list_keeps_lines(toks: Seq<TokenView>, c: Counters)
    requires
        depths_positive(toks),
        toks.len() > 0,
        toks[0] is List,
        block(toks, c) is Ok,
    ensures
        block(toks, c)->Ok_0 is Some,
        block_len(toks) <= toks.len(),
        item_entries(block(toks, c)->Ok_0->Some_0, 0) == line_entries(
            toks.take(block_len(toks) as int),
        ),
{
    lemma_list_run(toks);
    lemma_items_keep_depths(toks, 1);
}

} // verus!
