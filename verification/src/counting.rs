//! The markup of a tree holds the structure of the tree: headings, items,
//! rows and cells can be counted in it.
use vstd::prelude::*;
use crate::artefact::ArtefactView;
use crate::blocks::{
    advance, block, block_len, blocks, deeper_run, gap, items, lemma_block_len,
    lemma_deeper_run_bound, table_rows, Counters,
};
use crate::chars::to_chars;
use crate::html::{
    button_attributes, decimal, heading_number, href, image_attributes, render, render_cells,
    render_document, render_lines, render_range, render_span, render_spans, render_text,
};
use crate::inline::SpanView;
use crate::numbering::heading_level;
use crate::tags::{
    clean, element, end_tag, lemma_clean_concat, lemma_clean_holds_no_tag, lemma_marked,
    lemma_occurrences_concat, lemma_tag_in_end_tag, lemma_tag_in_tag_start,
    lemma_tag_in_tag_with, lemma_tags_in_element, marked, named, occurrences, plain,
    starts_with, tag, tag_with,
};
use crate::token::TokenView;

verus! {

/// True of the names of the elements that stand for the structure of a
/// document: headings, items, rows and cells.
pub open spec fn is_counted(p: Seq<char>) -> bool {
    p == "h1"@ || p == "h2"@ || p == "h3"@ || p == "li"@ || p == "tr"@ || p == "th"@ || p == "td"@
}

/// True of a text in which none of the tags `<h1>`, `<h2>`, `<h3>`, `<li>`,
/// `<tr>`, `<th>` and `<td>` stands.
pub open spec fn tagless(s: Seq<char>) -> bool {
    &&& occurrences(s, tag("h1"@)) == 0
    &&& occurrences(s, tag("h2"@)) == 0
    &&& occurrences(s, tag("h3"@)) == 0
    &&& occurrences(s, tag("li"@)) == 0
    &&& occurrences(s, tag("tr"@)) == 0
    &&& occurrences(s, tag("th"@)) == 0
    &&& occurrences(s, tag("td"@)) == 0
}

/// True of a span whose texts hold none of the counted tags.
pub open spec fn tagless_span(span: SpanView) -> bool {
    match span {
        SpanView::Raw(text) => tagless(text),
        SpanView::Bold(text) => tagless(text),
        SpanView::Italics(text) => tagless(text),
        SpanView::Strikethrough(text) => tagless(text),
        SpanView::Underline(text) => tagless(text),
        SpanView::Code(text) => tagless(text),
        SpanView::Link(label, url) => tagless(label) && tagless(url),
    }
}

/// True of a text whose spans hold none of the counted tags.
pub open spec fn tagless_text(text: Seq<SpanView>) -> bool {
    forall|i: int| 0 <= i < text.len() ==> tagless_span(#[trigger] text[i])
}

/// True of texts that hold none of the counted tags.
pub open spec fn tagless_texts(texts: Seq<Seq<SpanView>>) -> bool {
    forall|i: int| 0 <= i < texts.len() ==> tagless_text(#[trigger] texts[i])
}

/// True of a node in which no text, label, address or code holds one of
/// the counted tags.
pub open spec fn tagless_node(node: ArtefactView) -> bool
    decreases node,
{
    match node {
        ArtefactView::Section(_, title) => tagless_text(title),
        ArtefactView::Subsection(_, _, title) => tagless_text(title),
        ArtefactView::Subsubsection(_, _, _, title) => tagless_text(title),
        ArtefactView::Paragraph(lines) => tagless_texts(lines),
        ArtefactView::List(children) => forall|i: int|
            0 <= i < children.len() ==> tagless_node(#[trigger] children[i]),
        ArtefactView::ListItem(text) => tagless_text(text),
        ArtefactView::Quote(text) => tagless_text(text),
        ArtefactView::Table(rows) => forall|i: int|
            0 <= i < rows.len() ==> tagless_node(#[trigger] rows[i]),
        ArtefactView::TableRow(cells) => tagless_texts(cells),
        ArtefactView::Button(label, link) => tagless(label) && tagless(link),
        ArtefactView::Image(caption, path) => tagless(caption) && tagless(path),
        ArtefactView::Codeblock(code) => tagless(code),
    }
}

/// True of nodes in which no text, label, address or code holds one of the
/// counted tags.
pub open spec fn tagless_nodes(nodes: Seq<ArtefactView>) -> bool {
    forall|i: int| 0 <= i < nodes.len() ==> tagless_node(#[trigger] nodes[i])
}

/// The number of elements `p` without attributes that a span is shown
/// with.
pub open spec fn span_elements(span: SpanView, p: Seq<char>) -> nat {
    match span {
        SpanView::Raw(_) => 0,
        SpanView::Bold(_) => named("strong"@, p),
        SpanView::Italics(_) => named("em"@, p),
        SpanView::Strikethrough(_) => named("del"@, p),
        SpanView::Underline(_) => named("u"@, p),
        SpanView::Code(_) => named("code"@, p),
        SpanView::Link(..) => 0,
    }
}

/// The number of elements `p` in the first `n` spans.
pub open spec fn spans_elements(spans: Seq<SpanView>, n: nat, p: Seq<char>) -> nat
    decreases n,
{
    if n == 0 || n > spans.len() {
        0
    } else {
        spans_elements(spans, (n - 1) as nat, p) + span_elements(spans[n - 1], p)
    }
}

/// The number of elements `p` in the first `n` lines.
pub open spec fn lines_elements(lines: Seq<Seq<SpanView>>, n: nat, p: Seq<char>) -> nat
    decreases n,
{
    if n == 0 || n > lines.len() {
        0
    } else {
        lines_elements(lines, (n - 1) as nat, p) + spans_elements(
            lines[n - 1],
            lines[n - 1].len(),
            p,
        )
    }
}

/// The number of elements `p` in the first `n` cells, each of them an
/// element `name`.
pub open spec fn cells_elements(
    cells: Seq<Seq<SpanView>>,
    n: nat,
    name: Seq<char>,
    p: Seq<char>,
) -> nat
    decreases n,
{
    if n == 0 || n > cells.len() {
        0
    } else {
        cells_elements(cells, (n - 1) as nat, name, p) + named(name, p) + spans_elements(
            cells[n - 1],
            cells[n - 1].len(),
            p,
        )
    }
}

/// The number of elements `p` without attributes that a node is shown
/// with.
pub open spec fn node_elements(node: ArtefactView, p: Seq<char>) -> nat
    decreases node, 0nat,
{
    match node {
        ArtefactView::Section(_, title) => named("h1"@, p) + spans_elements(
            title,
            title.len(),
            p,
        ),
        ArtefactView::Subsection(_, _, title) => named("h2"@, p) + spans_elements(
            title,
            title.len(),
            p,
        ),
        ArtefactView::Subsubsection(_, _, _, title) => named("h3"@, p) + spans_elements(
            title,
            title.len(),
            p,
        ),
        ArtefactView::Paragraph(lines) => named("p"@, p) + lines_elements(lines, lines.len(), p),
        ArtefactView::List(children) => named("ol"@, p) + range_elements(
            children,
            0,
            children.len() as int,
            p,
        ),
        ArtefactView::ListItem(text) => named("li"@, p) + spans_elements(text, text.len(), p),
        ArtefactView::Quote(text) => named("blockquote"@, p) + spans_elements(
            text,
            text.len(),
            p,
        ),
        ArtefactView::Table(rows) => if rows.len() > 0 && rows[0] is TableRow {
            named("table"@, p) + named("thead"@, p) + named("tr"@, p) + cells_elements(
                rows[0]->TableRow_0,
                rows[0]->TableRow_0.len(),
                "th"@,
                p,
            ) + named("tbody"@, p) + range_elements(rows, 1, rows.len() as int, p)
        } else {
            0
        },
        ArtefactView::TableRow(cells) => named("tr"@, p) + cells_elements(
            cells,
            cells.len(),
            "td"@,
            p,
        ),
        ArtefactView::Button(..) => 0,
        ArtefactView::Image(..) => 0,
        ArtefactView::Codeblock(_) => named("pre"@, p) + named("code"@, p),
    }
}

/// The number of elements `p` that the nodes `lo..hi` are shown with.
pub open spec fn range_elements(nodes: Seq<ArtefactView>, lo: int, hi: int, p: Seq<char>) -> nat
    decreases nodes, hi,
{
    if lo < 0 || hi <= lo || hi > nodes.len() {
        0
    } else {
        range_elements(nodes, lo, hi - 1, p) + node_elements(nodes[hi - 1], p)
    }
}

/// The names of the elements that nodes are shown with can stand in a tag.
pub proof fn lemma_names_plain()
    ensures
        plain("h1"@),
        plain("h2"@),
        plain("h3"@),
        plain("p"@),
        plain("ol"@),
        plain("li"@),
        plain("blockquote"@),
        plain("table"@),
        plain("thead"@),
        plain("tbody"@),
        plain("tr"@),
        plain("th"@),
        plain("td"@),
        plain("a"@),
        plain("img"@),
        plain("pre"@),
        plain("code"@),
        plain("strong"@),
        plain("em"@),
        plain("del"@),
        plain("u"@),
{
    reveal_strlit("h1");
    reveal_strlit("h2");
    reveal_strlit("h3");
    reveal_strlit("p");
    reveal_strlit("ol");
    reveal_strlit("li");
    reveal_strlit("blockquote");
    reveal_strlit("table");
    reveal_strlit("thead");
    reveal_strlit("tbody");
    reveal_strlit("tr");
    reveal_strlit("th");
    reveal_strlit("td");
    reveal_strlit("a");
    reveal_strlit("img");
    reveal_strlit("pre");
    reveal_strlit("code");
    reveal_strlit("strong");
    reveal_strlit("em");
    reveal_strlit("del");
    reveal_strlit("u");
}

/// The fixed parts of the attributes hold no `<`, and they begin and end
/// with characters that stand in no name.
pub proof fn lemma_attribute_letters()
    ensures
        clean("href=\""@) && "href=\""@.len() > 0 && "href=\""@.last() == '"',
        clean("\""@) && "\""@.len() > 0 && "\""@[0] == '"',
        clean(" class=\"md-button\""@),
        clean("src=\""@) && "src=\""@.len() > 0 && "src=\""@.last() == '"',
        clean("\" alt=\""@) && "\" alt=\""@.len() > 0 && "\" alt=\""@[0] == '"' && "\" alt=\""@.last()
            == '"',
        clean("\" /"@) && "\" /"@.len() > 0 && "\" /"@[0] == '"',
        clean("class=\"img-caption\""@),
{
    reveal_strlit("href=\"");
    reveal_strlit("\"");
    reveal_strlit(" class=\"md-button\"");
    reveal_strlit("src=\"");
    reveal_strlit("\" alt=\"");
    reveal_strlit("\" /");
    reveal_strlit("class=\"img-caption\"");
}

/// The digits of a number hold no `<`.
pub proof fn lemma_decimal_clean(n: nat)
    ensures
        clean(decimal(n)),
    decreases n,
{
    if n >= 10 {
        lemma_decimal_clean(n / 10);
    }
}

/// The counted names can stand in a tag.
pub proof fn lemma_counted_is_plain(p: Seq<char>)
    requires
        is_counted(p),
    ensures
        plain(p),
{
    lemma_names_plain();
}

/// An opening tag whose attributes are a fixed text, a text of the
/// document and another fixed text holds the tags of the text of the
/// document and no others.
pub proof fn lemma_tag_around_payload(
    name: Seq<char>,
    before: Seq<char>,
    payload: Seq<char>,
    after: Seq<char>,
    p: Seq<char>,
)
    requires
        plain(name),
        plain(p),
        clean(before),
        clean(after),
        before.len() > 0 && before.last() == '"',
        after.len() > 0 && after[0] == '"',
    ensures
        occurrences(tag_with(name, before + payload + after), tag(p)) == occurrences(
            payload,
            tag(p),
        ),
        marked(tag_with(name, before + payload + after)),
{
    let start = seq!['<'] + name + seq![' '] + before;
    let tail = after + seq!['>'];
    let whole = tag_with(name, before + payload + after);
    assert(whole =~= start + payload + tail);
    lemma_tag_in_tag_start(name, before, p);
    assert(start.last() == before.last());
    lemma_occurrences_concat(start, payload, p);
    lemma_clean_concat(after, seq!['>']);
    lemma_clean_holds_no_tag(tail, p);
    assert(tail[0] == after[0]);
    lemma_occurrences_concat(start + payload, tail, p);
    assert(whole[0] == '<');
    assert(whole.last() == '>');
}

/// The markup of a span holds the tags of its elements, and no others
/// where its texts hold none.
pub proof fn lemma_span_counts(span: SpanView, p: Seq<char>)
    requires
        is_counted(p),
        tagless_span(span),
    ensures
        occurrences(render_span(span), tag(p)) == span_elements(span, p),
{
    lemma_names_plain();
    match span {
        SpanView::Raw(text) => {},
        SpanView::Bold(text) => {
            lemma_tags_in_element("strong"@, text, p);
        },
        SpanView::Italics(text) => {
            lemma_tags_in_element("em"@, text, p);
        },
        SpanView::Strikethrough(text) => {
            lemma_tags_in_element("del"@, text, p);
        },
        SpanView::Underline(text) => {
            lemma_tags_in_element("u"@, text, p);
        },
        SpanView::Code(text) => {
            lemma_tags_in_element("code"@, text, p);
        },
        SpanView::Link(label, url) => {
            lemma_attribute_letters();
            let opening = tag_with("a"@, href(url));
            lemma_tag_around_payload("a"@, "href=\""@, url, "\""@, p);
            lemma_marked(opening, p);
            lemma_occurrences_concat(opening, label, p);
            lemma_tag_in_end_tag("a"@, p);
            lemma_marked(end_tag("a"@), p);
            lemma_occurrences_concat(opening + label, end_tag("a"@), p);
        },
    }
}

/// Putting a space between two texts adds up their tags.
pub proof fn lemma_spaced(a: Seq<char>, b: Seq<char>, p: Seq<char>)
    requires
        plain(p),
    ensures
        occurrences(a + seq![' '] + b, tag(p)) == occurrences(a, tag(p)) + occurrences(b, tag(p)),
{
    let space = seq![' '];
    lemma_clean_holds_no_tag(space, p);
    assert(space[0] == ' ');
    lemma_occurrences_concat(a, space, p);
    assert((a + space).last() == ' ');
    lemma_occurrences_concat(a + space, b, p);
}

/// The markup of spans holds the tags of their elements.
pub proof fn lemma_spans_counts(spans: Seq<SpanView>, n: nat, p: Seq<char>)
    requires
        is_counted(p),
        tagless_text(spans),
        n <= spans.len(),
    ensures
        occurrences(render_spans(spans, n), tag(p)) == spans_elements(spans, n, p),
    decreases n,
{
    lemma_counted_is_plain(p);
    if n == 0 {
        lemma_clean_holds_no_tag(Seq::<char>::empty(), p);
    } else {
        lemma_span_counts(spans[n - 1], p);
        lemma_spans_counts(spans, (n - 1) as nat, p);
        if n > 1 {
            lemma_spaced(render_spans(spans, (n - 1) as nat), render_span(spans[n - 1]), p);
        } else {
            assert(spans_elements(spans, 0, p) == 0);
        }
    }
}

/// The markup of lines holds the tags of their elements.
pub proof fn lemma_lines_counts(lines: Seq<Seq<SpanView>>, n: nat, p: Seq<char>)
    requires
        is_counted(p),
        tagless_texts(lines),
        n <= lines.len(),
    ensures
        occurrences(render_lines(lines, n), tag(p)) == lines_elements(lines, n, p),
    decreases n,
{
    lemma_counted_is_plain(p);
    if n == 0 {
        lemma_clean_holds_no_tag(Seq::<char>::empty(), p);
    } else {
        lemma_lines_counts(lines, (n - 1) as nat, p);
        lemma_spans_counts(lines[n - 1], lines[n - 1].len(), p);
        if n > 1 {
            lemma_spaced(render_lines(lines, (n - 1) as nat), render_text(lines[n - 1]), p);
        } else {
            assert(lines_elements(lines, 0, p) == 0);
        }
    }
}

/// The markup of cells holds the tags of their elements.
pub proof fn lemma_cells_counts(cells: Seq<Seq<SpanView>>, n: nat, name: Seq<char>, p: Seq<char>)
    requires
        is_counted(p),
        plain(name),
        tagless_texts(cells),
        n <= cells.len(),
    ensures
        occurrences(render_cells(cells, n, name), tag(p)) == cells_elements(cells, n, name, p),
    decreases n,
{
    lemma_counted_is_plain(p);
    if n == 0 {
        lemma_clean_holds_no_tag(Seq::<char>::empty(), p);
    } else {
        let cell = element(name, render_text(cells[n - 1]));
        lemma_cells_counts(cells, (n - 1) as nat, name, p);
        lemma_spans_counts(cells[n - 1], cells[n - 1].len(), p);
        lemma_tags_in_element(name, render_text(cells[n - 1]), p);
        lemma_marked(cell, p);
        lemma_occurrences_concat(render_cells(cells, (n - 1) as nat, name), cell, p);
    }
}

/// The numbers of a heading hold no `<`.
pub proof fn lemma_heading_number_clean(node: ArtefactView)
    ensures
        clean(heading_number(node)),
{
    match node {
        ArtefactView::Section(a, _) => {
            lemma_decimal_clean(a);
        },
        ArtefactView::Subsection(a, b, _) => {
            lemma_decimal_clean(a);
            lemma_decimal_clean(b);
        },
        ArtefactView::Subsubsection(a, b, c, _) => {
            lemma_decimal_clean(a);
            lemma_decimal_clean(b);
            lemma_decimal_clean(c);
        },
        _ => {},
    }
}

/// The markup of a heading holds its own tag and those of its title.
pub proof fn lemma_heading_counts(
    node: ArtefactView,
    name: Seq<char>,
    title: Seq<SpanView>,
    p: Seq<char>,
)
    requires
        is_counted(p),
        plain(name),
        tagless_text(title),
    ensures
        occurrences(
            element(name, heading_number(node) + seq![' '] + render_text(title)),
            tag(p),
        ) == named(name, p) + spans_elements(title, title.len(), p),
        marked(element(name, heading_number(node) + seq![' '] + render_text(title))),
{
    lemma_counted_is_plain(p);
    lemma_heading_number_clean(node);
    lemma_clean_holds_no_tag(heading_number(node), p);
    lemma_spans_counts(title, title.len(), p);
    lemma_spaced(heading_number(node), render_text(title), p);
    lemma_tags_in_element(name, heading_number(node) + seq![' '] + render_text(title), p);
}

/// The markup of a node holds, for each counted name, as many opening tags
/// of that name as the node has elements of it, where no text, label,
/// address or code in the node holds a counted tag. It is empty or runs
/// from a `<` to a `>`.
pub proof fn lemma_node_counts(node: ArtefactView, p: Seq<char>)
    requires
        is_counted(p),
        tagless_node(node),
    ensures
        occurrences(render(node), tag(p)) == node_elements(node, p),
        marked(render(node)),
    decreases node, 0nat,
{
    lemma_names_plain();
    match node {
        ArtefactView::Section(_, title) => {
            lemma_heading_counts(node, "h1"@, title, p);
        },
        ArtefactView::Subsection(_, _, title) => {
            lemma_heading_counts(node, "h2"@, title, p);
        },
        ArtefactView::Subsubsection(_, _, _, title) => {
            lemma_heading_counts(node, "h3"@, title, p);
        },
        ArtefactView::Paragraph(lines) => {
            lemma_lines_counts(lines, lines.len(), p);
            lemma_tags_in_element("p"@, render_lines(lines, lines.len()), p);
        },
        ArtefactView::List(children) => {
            lemma_range_counts(children, 0, children.len() as int, p);
            lemma_tags_in_element("ol"@, render_range(children, 0, children.len() as int), p);
        },
        ArtefactView::ListItem(text) => {
            lemma_spans_counts(text, text.len(), p);
            lemma_tags_in_element("li"@, render_text(text), p);
        },
        ArtefactView::Quote(text) => {
            lemma_spans_counts(text, text.len(), p);
            lemma_tags_in_element("blockquote"@, render_text(text), p);
        },
        ArtefactView::Table(rows) => {
            if rows.len() > 0 && rows[0] is TableRow {
                let cells = rows[0]->TableRow_0;
                let head_cells = render_cells(cells, cells.len(), "th"@);
                let head = element("thead"@, element("tr"@, head_cells));
                let body = element("tbody"@, render_range(rows, 1, rows.len() as int));
                assert(tagless_node(rows[0]));
                lemma_cells_counts(cells, cells.len(), "th"@, p);
                lemma_tags_in_element("tr"@, head_cells, p);
                lemma_tags_in_element("thead"@, element("tr"@, head_cells), p);
                lemma_range_counts(rows, 1, rows.len() as int, p);
                lemma_tags_in_element("tbody"@, render_range(rows, 1, rows.len() as int), p);
                lemma_marked(body, p);
                lemma_occurrences_concat(head, body, p);
                lemma_tags_in_element("table"@, head + body, p);
            } else {
                lemma_clean_holds_no_tag(Seq::<char>::empty(), p);
            }
        },
        ArtefactView::TableRow(cells) => {
            lemma_cells_counts(cells, cells.len(), "td"@, p);
            lemma_tags_in_element("tr"@, render_cells(cells, cells.len(), "td"@), p);
        },
        ArtefactView::Button(label, link) => {
            lemma_attribute_letters();
            let after = "\""@ + " class=\"md-button\""@;
            let opening = tag_with("a"@, button_attributes(link));
            lemma_clean_concat("\""@, " class=\"md-button\""@);
            assert(after[0] == "\""@[0]);
            assert(button_attributes(link) =~= "href=\""@ + link + after);
            lemma_tag_around_payload("a"@, "href=\""@, link, after, p);
            lemma_marked(opening, p);
            lemma_occurrences_concat(opening, label, p);
            lemma_tag_in_end_tag("a"@, p);
            lemma_marked(end_tag("a"@), p);
            lemma_occurrences_concat(opening + label, end_tag("a"@), p);
            assert(render(node)[0] == opening[0]);
            assert(render(node).last() == end_tag("a"@).last());
        },
        ArtefactView::Image(caption, path) => {
            lemma_attribute_letters();
            let first = seq!['<'] + "img"@ + seq![' '] + "src=\""@;
            let mid = "\" alt=\""@;
            let tail = "\" /"@ + seq!['>'];
            let picture = tag_with("img"@, image_attributes(caption, path));
            let opening = tag_with("p"@, "class=\"img-caption\""@);
            assert(picture =~= first + path + mid + caption + tail);
            lemma_tag_in_tag_start("img"@, "src=\""@, p);
            assert(first.last() == "src=\""@.last());
            lemma_occurrences_concat(first, path, p);
            lemma_clean_holds_no_tag(mid, p);
            lemma_occurrences_concat(first + path, mid, p);
            assert((first + path + mid).last() == mid.last());
            lemma_occurrences_concat(first + path + mid, caption, p);
            lemma_clean_concat("\" /"@, seq!['>']);
            lemma_clean_holds_no_tag(tail, p);
            assert(tail[0] == "\" /"@[0]);
            lemma_occurrences_concat(first + path + mid + caption, tail, p);
            assert(picture[0] == '<');
            assert(picture.last() == '>');
            lemma_marked(picture, p);
            lemma_tag_in_tag_with("p"@, "class=\"img-caption\""@, p);
            lemma_marked(opening, p);
            lemma_occurrences_concat(picture, opening, p);
            assert((picture + opening).last() == opening.last());
            lemma_occurrences_concat(picture + opening, caption, p);
            lemma_tag_in_end_tag("p"@, p);
            lemma_marked(end_tag("p"@), p);
            lemma_occurrences_concat(picture + opening + caption, end_tag("p"@), p);
            assert(render(node)[0] == picture[0]);
            assert(render(node).last() == end_tag("p"@).last());
        },
        ArtefactView::Codeblock(code) => {
            lemma_tags_in_element("code"@, code, p);
            lemma_tags_in_element("pre"@, element("code"@, code), p);
        },
    }
}

/// The markup of nodes holds the tags of their elements.
pub proof fn lemma_range_counts(nodes: Seq<ArtefactView>, lo: int, hi: int, p: Seq<char>)
    requires
        is_counted(p),
        tagless_nodes(nodes),
    ensures
        occurrences(render_range(nodes, lo, hi), tag(p)) == range_elements(nodes, lo, hi, p),
    decreases nodes, hi,
{
    lemma_counted_is_plain(p);
    if lo < 0 || hi <= lo || hi > nodes.len() {
        lemma_clean_holds_no_tag(Seq::<char>::empty(), p);
    } else {
        lemma_range_counts(nodes, lo, hi - 1, p);
        lemma_node_counts(nodes[hi - 1], p);
        lemma_marked(render(nodes[hi - 1]), p);
        lemma_occurrences_concat(render_range(nodes, lo, hi - 1), render(nodes[hi - 1]), p);
    }
}

/// True of an item and of a list of such nodes.
pub open spec fn is_list_part(node: ArtefactView) -> bool
    decreases node,
{
    match node {
        ArtefactView::ListItem(_) => true,
        ArtefactView::List(children) => forall|i: int|
            0 <= i < children.len() ==> is_list_part(#[trigger] children[i]),
        _ => false,
    }
}

/// True of a node as it stands at the top of a document: a list holds
/// items and lists, a table holds rows, and items and rows stand nowhere
/// else.
pub open spec fn is_block(node: ArtefactView) -> bool {
    match node {
        ArtefactView::List(_) => is_list_part(node),
        ArtefactView::Table(rows) => forall|i: int|
            0 <= i < rows.len() ==> (#[trigger] rows[i]) is TableRow,
        ArtefactView::ListItem(_) => false,
        ArtefactView::TableRow(_) => false,
        _ => true,
    }
}

/// True of the nodes of a document.
pub open spec fn are_blocks(nodes: Seq<ArtefactView>) -> bool {
    forall|i: int| 0 <= i < nodes.len() ==> is_block(#[trigger] nodes[i])
}

/// The number of headings among the first `n` nodes.
pub open spec fn heading_count(nodes: Seq<ArtefactView>, n: nat) -> nat
    decreases n,
{
    if n == 0 || n > nodes.len() {
        0
    } else {
        heading_count(nodes, (n - 1) as nat) + if heading_level(nodes[n - 1]) >= 1 {
            1nat
        } else {
            0nat
        }
    }
}

/// The number of items in and below a node.
pub open spec fn item_count(node: ArtefactView) -> nat
    decreases node, 0nat,
{
    match node {
        ArtefactView::ListItem(_) => 1,
        ArtefactView::List(children) => items_in(children, children.len()),
        _ => 0,
    }
}

/// The number of items in and below the first `n` nodes.
pub open spec fn items_in(nodes: Seq<ArtefactView>, n: nat) -> nat
    decreases nodes, n,
{
    if n == 0 || n > nodes.len() {
        0
    } else {
        items_in(nodes, (n - 1) as nat) + item_count(nodes[n - 1])
    }
}

/// The number of cells in the first `n` rows.
pub open spec fn cells_in(rows: Seq<ArtefactView>, n: nat) -> nat
    decreases n,
{
    if n == 0 || n > rows.len() {
        0
    } else {
        cells_in(rows, (n - 1) as nat) + match rows[n - 1] {
            ArtefactView::TableRow(cells) => cells.len(),
            _ => 0,
        }
    }
}

/// The number of rows in the tables among the first `n` nodes.
pub open spec fn row_count(nodes: Seq<ArtefactView>, n: nat) -> nat
    decreases n,
{
    if n == 0 || n > nodes.len() {
        0
    } else {
        row_count(nodes, (n - 1) as nat) + match nodes[n - 1] {
            ArtefactView::Table(rows) => rows.len(),
            _ => 0,
        }
    }
}

/// The number of cells in the tables among the first `n` nodes.
pub open spec fn cell_count(nodes: Seq<ArtefactView>, n: nat) -> nat
    decreases n,
{
    if n == 0 || n > nodes.len() {
        0
    } else {
        cell_count(nodes, (n - 1) as nat) + match nodes[n - 1] {
            ArtefactView::Table(rows) => cells_in(rows, rows.len()),
            _ => 0,
        }
    }
}

/// The length and the first letters of each name.
pub proof fn lemma_name_letters()
    ensures
        "h1"@.len() == 2 && "h1"@[0] == 'h' && "h1"@[1] == '1',
        "h2"@.len() == 2 && "h2"@[0] == 'h' && "h2"@[1] == '2',
        "h3"@.len() == 2 && "h3"@[0] == 'h' && "h3"@[1] == '3',
        "p"@.len() == 1,
        "ol"@.len() == 2 && "ol"@[0] == 'o',
        "li"@.len() == 2 && "li"@[0] == 'l',
        "blockquote"@.len() == 10,
        "table"@.len() == 5,
        "thead"@.len() == 5,
        "tbody"@.len() == 5,
        "tr"@.len() == 2 && "tr"@[0] == 't' && "tr"@[1] == 'r',
        "th"@.len() == 2 && "th"@[0] == 't' && "th"@[1] == 'h',
        "td"@.len() == 2 && "td"@[0] == 't' && "td"@[1] == 'd',
        "pre"@.len() == 3,
        "code"@.len() == 4,
        "strong"@.len() == 6,
        "em"@.len() == 2 && "em"@[0] == 'e',
        "del"@.len() == 3,
        "u"@.len() == 1,
{
    reveal_strlit("h1");
    reveal_strlit("h2");
    reveal_strlit("h3");
    reveal_strlit("p");
    reveal_strlit("ol");
    reveal_strlit("li");
    reveal_strlit("blockquote");
    reveal_strlit("table");
    reveal_strlit("thead");
    reveal_strlit("tbody");
    reveal_strlit("tr");
    reveal_strlit("th");
    reveal_strlit("td");
    reveal_strlit("pre");
    reveal_strlit("code");
    reveal_strlit("strong");
    reveal_strlit("em");
    reveal_strlit("del");
    reveal_strlit("u");
}

/// Spans are shown with none of the counted elements.
pub proof fn lemma_spans_hold_none(spans: Seq<SpanView>, n: nat, p: Seq<char>)
    requires
        is_counted(p),
    ensures
        spans_elements(spans, n, p) == 0,
    decreases n,
{
    lemma_name_letters();
    if n > 0 && n <= spans.len() {
        lemma_spans_hold_none(spans, (n - 1) as nat, p);
    }
}

/// Lines are shown with none of the counted elements.
pub proof fn lemma_lines_hold_none(lines: Seq<Seq<SpanView>>, n: nat, p: Seq<char>)
    requires
        is_counted(p),
    ensures
        lines_elements(lines, n, p) == 0,
    decreases n,
{
    if n > 0 && n <= lines.len() {
        lemma_lines_hold_none(lines, (n - 1) as nat, p);
        lemma_spans_hold_none(lines[n - 1], lines[n - 1].len(), p);
    }
}

/// Cells are shown with one element of their own name each, and with no
/// other counted element.
pub proof fn lemma_cells_hold_their_own(
    cells: Seq<Seq<SpanView>>,
    n: nat,
    name: Seq<char>,
    p: Seq<char>,
)
    requires
        is_counted(p),
        n <= cells.len(),
    ensures
        cells_elements(cells, n, name, p) == if name == p {
            n
        } else {
            0
        },
    decreases n,
{
    if n > 0 {
        lemma_cells_hold_their_own(cells, (n - 1) as nat, name, p);
        lemma_spans_hold_none(cells[n - 1], cells[n - 1].len(), p);
    }
}

/// What holds items and lists is shown with one `li` for each item and
/// with no other counted element.
pub proof fn lemma_list_part_elements(node: ArtefactView, p: Seq<char>)
    requires
        is_counted(p),
        is_list_part(node),
    ensures
        node_elements(node, p) == if p == "li"@ {
            item_count(node)
        } else {
            0
        },
    decreases node, 0nat,
{
    lemma_name_letters();
    match node {
        ArtefactView::ListItem(text) => {
            lemma_spans_hold_none(text, text.len(), p);
        },
        ArtefactView::List(children) => {
            lemma_list_parts_elements(children, children.len(), p);
        },
        _ => {},
    }
}

/// See [`lemma_list_part_elements`].
pub proof fn lemma_list_parts_elements(nodes: Seq<ArtefactView>, n: nat, p: Seq<char>)
    requires
        is_counted(p),
        n <= nodes.len(),
        forall|i: int| 0 <= i < nodes.len() ==> is_list_part(#[trigger] nodes[i]),
    ensures
        range_elements(nodes, 0, n as int, p) == if p == "li"@ {
            items_in(nodes, n)
        } else {
            0
        },
    decreases nodes, n,
{
    if n > 0 {
        lemma_list_parts_elements(nodes, (n - 1) as nat, p);
        lemma_list_part_elements(nodes[n - 1], p);
    }
}

proof fn lemma_cells_in_grow(rows: Seq<ArtefactView>, lo: nat, hi: nat)
    requires
        lo <= hi <= rows.len(),
    ensures
        cells_in(rows, lo) <= cells_in(rows, hi),
    decreases hi - lo,
{
    if lo < hi {
        lemma_cells_in_grow(rows, lo, (hi - 1) as nat);
    }
}

/// The rows `lo..hi` of a table are shown with one `tr` each and one `td`
/// for each cell, and with no other counted element.
pub proof fn lemma_rows_elements(rows: Seq<ArtefactView>, lo: int, hi: int, p: Seq<char>)
    requires
        is_counted(p),
        0 <= lo <= hi <= rows.len(),
        forall|i: int| 0 <= i < rows.len() ==> (#[trigger] rows[i]) is TableRow,
    ensures
        range_elements(rows, lo, hi, p) == if p == "tr"@ {
            hi - lo
        } else if p == "td"@ {
            cells_in(rows, hi as nat) - cells_in(rows, lo as nat)
        } else {
            0
        },
    decreases hi - lo,
{
    lemma_name_letters();
    if hi > lo {
        lemma_rows_elements(rows, lo, hi - 1, p);
        assert(rows[hi - 1] is TableRow);
        let cells = rows[hi - 1]->TableRow_0;
        lemma_cells_hold_their_own(cells, cells.len(), "td"@, p);
        lemma_cells_in_grow(rows, lo as nat, (hi - 1) as nat);
        assert(cells_in(rows, hi as nat) == cells_in(rows, (hi - 1) as nat) + cells.len());
        assert(range_elements(rows, lo, hi, p) == range_elements(rows, lo, hi - 1, p)
            + node_elements(rows[hi - 1], p));
        assert(node_elements(rows[hi - 1], p) == named("tr"@, p) + cells_elements(
            cells,
            cells.len(),
            "td"@,
            p,
        ));
    }
}

/// The counted elements that a node of a document is shown with.
pub proof fn lemma_block_elements(node: ArtefactView)
    requires
        is_block(node),
    ensures
        node_elements(node, "h1"@) + node_elements(node, "h2"@) + node_elements(node, "h3"@)
            == if heading_level(node) >= 1 {
            1nat
        } else {
            0nat
        },
        node_elements(node, "li"@) == item_count(node),
        node_elements(node, "tr"@) == match node {
            ArtefactView::Table(rows) => rows.len(),
            _ => 0,
        },
        node_elements(node, "th"@) + node_elements(node, "td"@) == match node {
            ArtefactView::Table(rows) => cells_in(rows, rows.len()),
            _ => 0,
        },
{
    lemma_name_letters();
    let h1 = "h1"@;
    let h2 = "h2"@;
    let h3 = "h3"@;
    let li = "li"@;
    let tr = "tr"@;
    let th = "th"@;
    let td = "td"@;
    match node {
        ArtefactView::Section(_, text) | ArtefactView::Subsection(_, _, text)
        | ArtefactView::Subsubsection(_, _, _, text) | ArtefactView::Quote(text) => {
            lemma_spans_hold_none(text, text.len(), h1);
            lemma_spans_hold_none(text, text.len(), h2);
            lemma_spans_hold_none(text, text.len(), h3);
            lemma_spans_hold_none(text, text.len(), li);
            lemma_spans_hold_none(text, text.len(), tr);
            lemma_spans_hold_none(text, text.len(), th);
            lemma_spans_hold_none(text, text.len(), td);
        },
        ArtefactView::Paragraph(lines) => {
            lemma_lines_hold_none(lines, lines.len(), h1);
            lemma_lines_hold_none(lines, lines.len(), h2);
            lemma_lines_hold_none(lines, lines.len(), h3);
            lemma_lines_hold_none(lines, lines.len(), li);
            lemma_lines_hold_none(lines, lines.len(), tr);
            lemma_lines_hold_none(lines, lines.len(), th);
            lemma_lines_hold_none(lines, lines.len(), td);
        },
        ArtefactView::List(children) => {
            lemma_list_part_elements(node, h1);
            lemma_list_part_elements(node, h2);
            lemma_list_part_elements(node, h3);
            lemma_list_part_elements(node, li);
            lemma_list_part_elements(node, tr);
            lemma_list_part_elements(node, th);
            lemma_list_part_elements(node, td);
        },
        ArtefactView::Table(rows) => {
            if rows.len() > 0 {
                let cells = rows[0]->TableRow_0;
                let n = rows.len() as int;
                lemma_cells_hold_their_own(cells, cells.len(), th, h1);
                lemma_cells_hold_their_own(cells, cells.len(), th, h2);
                lemma_cells_hold_their_own(cells, cells.len(), th, h3);
                lemma_cells_hold_their_own(cells, cells.len(), th, li);
                lemma_cells_hold_their_own(cells, cells.len(), th, tr);
                lemma_cells_hold_their_own(cells, cells.len(), th, th);
                lemma_cells_hold_their_own(cells, cells.len(), th, td);
                lemma_rows_elements(rows, 1, n, h1);
                lemma_rows_elements(rows, 1, n, h2);
                lemma_rows_elements(rows, 1, n, h3);
                lemma_rows_elements(rows, 1, n, li);
                lemma_rows_elements(rows, 1, n, tr);
                lemma_rows_elements(rows, 1, n, th);
                lemma_rows_elements(rows, 1, n, td);
                assert(cells_in(rows, 1) == cells_in(rows, 0) + cells.len());
            }
        },
        _ => {},
    }
}

/// The counted elements that the first `n` nodes of a document are shown
/// with.
pub proof fn lemma_blocks_elements(nodes: Seq<ArtefactView>, n: nat)
    requires
        are_blocks(nodes),
        n <= nodes.len(),
    ensures
        range_elements(nodes, 0, n as int, "h1"@) + range_elements(nodes, 0, n as int, "h2"@)
            + range_elements(nodes, 0, n as int, "h3"@) == heading_count(nodes, n),
        range_elements(nodes, 0, n as int, "li"@) == items_in(nodes, n),
        range_elements(nodes, 0, n as int, "tr"@) == row_count(nodes, n),
        range_elements(nodes, 0, n as int, "th"@) + range_elements(nodes, 0, n as int, "td"@)
            == cell_count(nodes, n),
    decreases n,
{
    if n > 0 {
        lemma_blocks_elements(nodes, (n - 1) as nat);
        lemma_block_elements(nodes[n - 1]);
    }
}

/// What the tree says of the structure of a document can be read off its
/// markup. Where no text, label, address or code in the tree holds one of
/// the tags `<h1>`, `<h2>`, `<h3>`, `<li>`, `<tr>`, `<th>` and `<td>`, the
/// markup holds as many `<h1>`, `<h2>` and `<h3>` together as the tree has
/// headings, as many `<li>` as it has items, as many `<tr>` as its tables
/// have rows, and as many `<th>` and `<td>` together as those rows have
/// cells. Nothing is escaped in the markup, so a tag that stands in a text
/// is counted with the others.
pub proof fn lemma_markup_keeps_counts(nodes: Seq<ArtefactView>)
    requires
        are_blocks(nodes),
        tagless_nodes(nodes),
    ensures
        occurrences(render_document(nodes), tag("h1"@)) + occurrences(
            render_document(nodes),
            tag("h2"@),
        ) + occurrences(render_document(nodes), tag("h3"@)) == heading_count(nodes, nodes.len()),
        occurrences(render_document(nodes), tag("li"@)) == items_in(nodes, nodes.len()),
        occurrences(render_document(nodes), tag("tr"@)) == row_count(nodes, nodes.len()),
        occurrences(render_document(nodes), tag("th"@)) + occurrences(
            render_document(nodes),
            tag("td"@),
        ) == cell_count(nodes, nodes.len()),
{
    let n = nodes.len() as int;
    lemma_range_counts(nodes, 0, n, "h1"@);
    lemma_range_counts(nodes, 0, n, "h2"@);
    lemma_range_counts(nodes, 0, n, "h3"@);
    lemma_range_counts(nodes, 0, n, "li"@);
    lemma_range_counts(nodes, 0, n, "tr"@);
    lemma_range_counts(nodes, 0, n, "th"@);
    lemma_range_counts(nodes, 0, n, "td"@);
    lemma_blocks_elements(nodes, nodes.len());
}

/// The children that a list gets from the tokens are items and lists.
pub proof fn lemma_items_are_list_parts(toks: Seq<TokenView>, depth: nat, k: int)
    requires
        items(toks, depth) is Ok,
        0 <= k < items(toks, depth)->Ok_0.len(),
    ensures
        is_list_part(items(toks, depth)->Ok_0[k]),
    decreases toks.len(), gap(toks, depth), k,
{
    let children = items(toks, depth)->Ok_0;
    if toks.len() > 0 && toks[0] is List {
        let d = toks[0]->List_depth;
        if d == depth {
            let tail = items(toks.skip(1), depth)->Ok_0;
            assert(children[0] is ListItem);
            if k > 0 {
                assert(children[k] == tail[k - 1]);
                lemma_items_are_list_parts(toks.skip(1), depth, k - 1);
            }
        } else if d > depth {
            lemma_deeper_run_bound(toks, depth);
            let inner = items(toks, depth + 1)->Ok_0;
            let rest = toks.skip(deeper_run(toks, depth) as int);
            let tail = items(rest, depth)->Ok_0;
            assert(children == seq![ArtefactView::List(inner)] + tail);
            if k == 0 {
                assert(children[0] == ArtefactView::List(inner));
                assert forall|i: int| 0 <= i < inner.len() implies is_list_part(
                    #[trigger] inner[i],
                ) by {
                    lemma_items_are_list_parts(toks, depth + 1, i);
                }
            } else {
                assert(children[k] == tail[k - 1]);
                lemma_items_are_list_parts(rest, depth, k - 1);
            }
        }
    }
}

/// The nodes that a table gets from the tokens are rows.
pub proof fn lemma_table_rows_are_rows(toks: Seq<TokenView>, k: int)
    requires
        table_rows(toks) is Ok,
        0 <= k < table_rows(toks)->Ok_0.len(),
    ensures
        table_rows(toks)->Ok_0[k] is TableRow,
    decreases toks.len(),
{
    if toks.len() > 0 && toks[0] is Table {
        if k > 0 {
            assert(table_rows(toks)->Ok_0[k] == table_rows(toks.skip(1))->Ok_0[k - 1]);
            lemma_table_rows_are_rows(toks.skip(1), k - 1);
        }
    }
}

/// The tree that parsing returns is a document as [`are_blocks`] asks:
/// lists hold items and lists, tables hold rows, and neither an item nor a
/// row stands anywhere else.
pub proof fn lemma_parsed_are_blocks(toks: Seq<TokenView>, c: Counters)
    requires
        blocks(toks, c) is Ok,
    ensures
        are_blocks(blocks(toks, c)->Ok_0),
    decreases toks.len(),
{
    let nodes = blocks(toks, c)->Ok_0;
    match block(toks, c) {
        Ok(Some(head)) => {
            lemma_block_len(toks, c);
            let rest = toks.skip(block_len(toks) as int);
            let tail = blocks(rest, advance(c, toks[0]))->Ok_0;
            lemma_parsed_are_blocks(rest, advance(c, toks[0]));
            assert(nodes == seq![head] + tail);
            assert(is_block(head)) by {
                match head {
                    ArtefactView::List(children) => {
                        assert forall|i: int| 0 <= i < children.len() implies is_list_part(
                            #[trigger] children[i],
                        ) by {
                            lemma_items_are_list_parts(toks, 1, i);
                        }
                    },
                    ArtefactView::Table(rows) => {
                        assert forall|i: int| 0 <= i < rows.len() implies (#[trigger] rows[i])
                            is TableRow by {
                            lemma_table_rows_are_rows(toks, i);
                        }
                    },
                    _ => {},
                }
            }
            assert forall|i: int| 0 <= i < nodes.len() implies is_block(#[trigger] nodes[i]) by {
                if i > 0 {
                    assert(nodes[i] == tail[i - 1]);
                }
            }
        },
        _ => {},
    }
}

/// Counts the opening tags of the element `name` in `html`.
pub fn count_tag(html: &str, name: &str) -> (count: usize)
    ensures
        count == occurrences(html@, tag(name@)),
{
    let text = to_chars(html);
    let mut pattern: Vec<char> = Vec::new();
    pattern.push('<');
    let letters = to_chars(name);
    let mut k: usize = 0;
    while k < letters.len()
        invariant
            k <= letters.len(),
            letters@ == name@,
            pattern@ == seq!['<'] + name@.take(k as int),
        decreases letters.len() - k,
    {
        pattern.push(letters[k]);
        k += 1;
        assert(pattern@ =~= seq!['<'] + name@.take(k as int));
    }
    pattern.push('>');
    assert(pattern@ =~= tag(name@)) by {
        assert(name@.take(name@.len() as int) =~= name@);
    }
    let len: usize = text.len();
    let width: usize = pattern.len();
    let mut count: usize = 0;
    let mut i: usize = len;
    assert(text@.skip(len as int) =~= Seq::<char>::empty());
    while i > 0
        invariant
            i <= len == text.len(),
            width == pattern.len(),
            text@ == html@,
            pattern@ == tag(name@),
            count == occurrences(text@.skip(i as int), pattern@),
            count <= len - i,
        decreases i,
    {
        i -= 1;
        let ghost rest = text@.skip(i as int);
        assert(rest.skip(1) =~= text@.skip(i + 1));
        let mut found: bool = width <= len - i;
        let mut j: usize = 0;
        while found && j < width
            invariant
                j <= width == pattern.len(),
                i < len == text.len(),
                rest == text@.skip(i as int),
                found ==> width <= len - i && forall|k: int|
                    0 <= k < j ==> rest[k] == pattern@[k],
                !found ==> !starts_with(rest, pattern@),
            decreases width - j + if found {
                1int
            } else {
                0int
            },
        {
            assert(rest[j as int] == text@[i + j]);
            if text[i + j] != pattern[j] {
                found = false;
            } else {
                j += 1;
            }
        }
        assert(found == starts_with(rest, pattern@));
        if found {
            count += 1;
        }
    }
    assert(text@.skip(0) =~= text@);
    count
}

} // verus!
