//! The markup of a tree.
use vstd::prelude::*;
use vstd::string::StringExecFns;
use crate::artefact::{artefact_views, lemma_list_view, lemma_table_view, ArtefactView, ParseArtefact};
use crate::inline::{text_views, Text, TextArtefact};
use crate::inline::SpanView;
use crate::tags::{element, end_tag, tag, tag_with};

verus! {

/// The character for a digit.
pub open spec fn digit(d: nat) -> char {
    if d == 0 {
        '0'
    } else if d == 1 {
        '1'
    } else if d == 2 {
        '2'
    } else if d == 3 {
        '3'
    } else if d == 4 {
        '4'
    } else if d == 5 {
        '5'
    } else if d == 6 {
        '6'
    } else if d == 7 {
        '7'
    } else if d == 8 {
        '8'
    } else {
        '9'
    }
}

/// The digits of `n` to the base ten.
pub open spec fn decimal(n: nat) -> Seq<char>
    decreases n,
{
    if n < 10 {
        seq![digit(n)]
    } else {
        decimal(n / 10).push(digit(n % 10))
    }
}

/// The attributes of a link to `url`.
pub open spec fn href(url: Seq<char>) -> Seq<char> {
    "href=\""@ + url + "\""@
}

/// The markup of one span.
pub open spec fn render_span(span: SpanView) -> Seq<char> {
    match span {
        SpanView::Raw(text) => text,
        SpanView::Bold(text) => element("strong"@, text),
        SpanView::Italics(text) => element("em"@, text),
        SpanView::Strikethrough(text) => element("del"@, text),
        SpanView::Underline(text) => element("u"@, text),
        SpanView::Code(text) => element("code"@, text),
        SpanView::Link(label, url) => tag_with("a"@, href(url)) + label + end_tag("a"@),
    }
}

/// The markup of the first `n` spans, with a space between two of them.
pub open spec fn render_spans(spans: Seq<SpanView>, n: nat) -> Seq<char>
    decreases n,
{
    if n == 0 || n > spans.len() {
        Seq::empty()
    } else if n == 1 {
        render_span(spans[0])
    } else {
        render_spans(spans, (n - 1) as nat) + seq![' '] + render_span(spans[n - 1])
    }
}

/// The markup of a text.
pub open spec fn render_text(text: Seq<SpanView>) -> Seq<char> {
    render_spans(text, text.len())
}

/// The markup of the first `n` lines of a paragraph, with a space between
/// two of them.
pub open spec fn render_lines(lines: Seq<Seq<SpanView>>, n: nat) -> Seq<char>
    decreases n,
{
    if n == 0 || n > lines.len() {
        Seq::empty()
    } else if n == 1 {
        render_text(lines[0])
    } else {
        render_lines(lines, (n - 1) as nat) + seq![' '] + render_text(lines[n - 1])
    }
}

/// The markup of the first `n` cells of a row, each an element `name`.
pub open spec fn render_cells(cells: Seq<Seq<SpanView>>, n: nat, name: Seq<char>) -> Seq<char>
    decreases n,
{
    if n == 0 || n > cells.len() {
        Seq::empty()
    } else {
        render_cells(cells, (n - 1) as nat, name) + element(name, render_text(cells[n - 1]))
    }
}

/// The numbers of a heading, with dots between them.
pub open spec fn heading_number(node: ArtefactView) -> Seq<char> {
    match node {
        ArtefactView::Section(a, _) => decimal(a),
        ArtefactView::Subsection(a, b, _) => decimal(a) + seq!['.'] + decimal(b),
        ArtefactView::Subsubsection(a, b, c, _) => decimal(a) + seq!['.'] + decimal(b) + seq!['.']
            + decimal(c),
        _ => Seq::empty(),
    }
}

/// The attributes of the picture of an image.
pub open spec fn image_attributes(caption: Seq<char>, path: Seq<char>) -> Seq<char> {
    "src=\""@ + path + "\" alt=\""@ + caption + "\" /"@
}

/// The attributes of a button that leads to `link`.
pub open spec fn button_attributes(link: Seq<char>) -> Seq<char> {
    href(link) + " class=\"md-button\""@
}

/// The markup of a node.
///
/// A table shows its first row as the head and the others as the body; a
/// table without rows, or whose first node is no row, has no markup.
pub open spec fn render(node: ArtefactView) -> Seq<char>
    decreases node, 0nat,
{
    match node {
        ArtefactView::Section(_, title) => element(
            "h1"@,
            heading_number(node) + seq![' '] + render_text(title),
        ),
        ArtefactView::Subsection(_, _, title) => element(
            "h2"@,
            heading_number(node) + seq![' '] + render_text(title),
        ),
        ArtefactView::Subsubsection(_, _, _, title) => element(
            "h3"@,
            heading_number(node) + seq![' '] + render_text(title),
        ),
        ArtefactView::Paragraph(lines) => element("p"@, render_lines(lines, lines.len())),
        ArtefactView::List(children) => element(
            "ol"@,
            render_range(children, 0, children.len() as int),
        ),
        ArtefactView::ListItem(text) => element("li"@, render_text(text)),
        ArtefactView::Quote(text) => element("blockquote"@, render_text(text)),
        ArtefactView::Table(rows) => if rows.len() > 0 && rows[0] is TableRow {
            element(
                "table"@,
                element(
                    "thead"@,
                    element(
                        "tr"@,
                        render_cells(rows[0]->TableRow_0, rows[0]->TableRow_0.len(), "th"@),
                    ),
                ) + element("tbody"@, render_range(rows, 1, rows.len() as int)),
            )
        } else {
            Seq::empty()
        },
        ArtefactView::TableRow(cells) => element("tr"@, render_cells(cells, cells.len(), "td"@)),
        ArtefactView::Button(label, link) => tag_with("a"@, button_attributes(link)) + label
            + end_tag("a"@),
        ArtefactView::Image(caption, path) => tag_with("img"@, image_attributes(caption, path))
            + tag_with("p"@, "class=\"img-caption\""@) + caption + end_tag("p"@),
        ArtefactView::Codeblock(code) => element("pre"@, element("code"@, code)),
    }
}

/// The markup of the nodes `lo..hi`, one after the other.
pub open spec fn render_range(nodes: Seq<ArtefactView>, lo: int, hi: int) -> Seq<char>
    decreases nodes, hi,
{
    if lo < 0 || hi <= lo || hi > nodes.len() {
        Seq::empty()
    } else {
        render_range(nodes, lo, hi - 1) + render(nodes[hi - 1])
    }
}

/// The markup of a whole tree.
pub open spec fn render_document(nodes: Seq<ArtefactView>) -> Seq<char> {
    render_range(nodes, 0, nodes.len() as int)
}

/// Appends the digits of `n` to `out`.
pub fn push_decimal(out: &mut String, n: usize)
    ensures
        final(out)@ == old(out)@ + decimal(n as nat),
    decreases n,
{
    if n >= 10 {
        push_decimal(out, n / 10);
    }
    let d: usize = n % 10;
    let c: char = if d == 0 {
        '0'
    } else if d == 1 {
        '1'
    } else if d == 2 {
        '2'
    } else if d == 3 {
        '3'
    } else if d == 4 {
        '4'
    } else if d == 5 {
        '5'
    } else if d == 6 {
        '6'
    } else if d == 7 {
        '7'
    } else if d == 8 {
        '8'
    } else {
        '9'
    };
    out.push(c);
    proof {
        if n < 10 {
            assert(out@ =~= old(out)@ + decimal(n as nat));
        } else {
            assert(out@ =~= old(out)@ + decimal(n as nat));
        }
    }
}

/// Appends the opening tag of `name` to `out`.
pub fn push_tag(out: &mut String, name: &str)
    ensures
        final(out)@ == old(out)@ + tag(name@),
{
    out.push('<');
    out.append(name);
    out.push('>');
    assert(out@ =~= old(out)@ + tag(name@));
}

/// Appends the closing tag of `name` to `out`.
pub fn push_end_tag(out: &mut String, name: &str)
    ensures
        final(out)@ == old(out)@ + end_tag(name@),
{
    out.push('<');
    out.push('/');
    out.append(name);
    out.push('>');
    assert(out@ =~= old(out)@ + end_tag(name@));
}

impl TextArtefact {
    /// Appends the markup of this span to `out`.
    pub fn render_into(&self, out: &mut String)
        ensures
            final(out)@ == old(out)@ + render_span(self@),
    {
        match self {
            TextArtefact::Raw(text) => {
                out.append(text.as_str());
            },
            TextArtefact::Bold(text) => {
                push_tag(out, "strong");
                out.append(text.as_str());
                push_end_tag(out, "strong");
                assert(out@ =~= old(out)@ + render_span(self@));
            },
            TextArtefact::Italics(text) => {
                push_tag(out, "em");
                out.append(text.as_str());
                push_end_tag(out, "em");
                assert(out@ =~= old(out)@ + render_span(self@));
            },
            TextArtefact::Strikethrough(text) => {
                push_tag(out, "del");
                out.append(text.as_str());
                push_end_tag(out, "del");
                assert(out@ =~= old(out)@ + render_span(self@));
            },
            TextArtefact::Underline(text) => {
                push_tag(out, "u");
                out.append(text.as_str());
                push_end_tag(out, "u");
                assert(out@ =~= old(out)@ + render_span(self@));
            },
            TextArtefact::Code(text) => {
                push_tag(out, "code");
                out.append(text.as_str());
                push_end_tag(out, "code");
                assert(out@ =~= old(out)@ + render_span(self@));
            },
            TextArtefact::Link(label, url) => {
                out.push('<');
                out.append("a");
                out.push(' ');
                out.append("href=\"");
                out.append(url.as_str());
                out.append("\"");
                out.push('>');
                out.append(label.as_str());
                push_end_tag(out, "a");
                assert(out@ =~= old(out)@ + render_span(self@));
            },
        }
    }

    /// The markup of this span.
    pub fn to_html(&self) -> (html: String)
        ensures
            html@ == render_span(self@),
    {
        let mut out = String::new();
        self.render_into(&mut out);
        assert(out@ =~= render_span(self@));
        out
    }
}

impl Text {
    /// Appends the markup of this text to `out`.
    pub fn render_into(&self, out: &mut String)
        ensures
            final(out)@ == old(out)@ + render_text(self@),
    {
        let mut i: usize = 0;
        assert(out@ =~= old(out)@ + render_spans(self@, 0));
        while i < self.0.len()
            invariant
                i <= self.0.len(),
                out@ == old(out)@ + render_spans(self@, i as nat),
            decreases self.0.len() - i,
        {
            if i > 0 {
                out.push(' ');
            }
            self.0[i].render_into(out);
            i += 1;
            assert(self@[i - 1] == self.0@[i - 1]@);
            assert(out@ =~= old(out)@ + render_spans(self@, i as nat));
        }
    }

    /// The markup of this text: its spans, with a space between two of them.
    pub fn to_html(&self) -> (html: String)
        ensures
            html@ == render_text(self@),
    {
        let mut out = String::new();
        self.render_into(&mut out);
        assert(out@ =~= render_text(self@));
        out
    }
}

/// Appends the markup of the cells of a row to `out`, each as an element
/// `name`.
pub fn push_cells(out: &mut String, cells: &Vec<Text>, name: &str)
    ensures
        final(out)@ == old(out)@ + render_cells(text_views(cells@), cells@.len(), name@),
{
    let ghost all = text_views(cells@);
    let mut i: usize = 0;
    assert(out@ =~= old(out)@ + render_cells(all, 0, name@));
    while i < cells.len()
        invariant
            i <= cells.len(),
            all == text_views(cells@),
            out@ == old(out)@ + render_cells(all, i as nat, name@),
        decreases cells.len() - i,
    {
        push_tag(out, name);
        cells[i].render_into(out);
        push_end_tag(out, name);
        i += 1;
        assert(all[i - 1] == cells@[i - 1]@);
        assert(out@ =~= old(out)@ + render_cells(all, i as nat, name@));
    }
}

/// Appends the numbers of a heading and the space after them to `out`.
fn push_heading_start(out: &mut String, node: &ParseArtefact)
    ensures
        final(out)@ == old(out)@ + heading_number(node@) + seq![' '],
{
    match node {
        ParseArtefact::Section(a, _) => {
            push_decimal(out, *a);
        },
        ParseArtefact::Subsection(a, b, _) => {
            push_decimal(out, *a);
            out.push('.');
            push_decimal(out, *b);
        },
        ParseArtefact::Subsubsection(a, b, c, _) => {
            push_decimal(out, *a);
            out.push('.');
            push_decimal(out, *b);
            out.push('.');
            push_decimal(out, *c);
        },
        _ => {},
    }
    out.push(' ');
    assert(out@ =~= old(out)@ + heading_number(node@) + seq![' ']);
}

/// Appends the element `name` around the markup of `text` to `out`.
fn push_text_element(out: &mut String, name: &str, text: &Text)
    ensures
        final(out)@ == old(out)@ + element(name@, render_text(text@)),
{
    push_tag(out, name);
    text.render_into(out);
    push_end_tag(out, name);
    assert(out@ =~= old(out)@ + element(name@, render_text(text@)));
}

/// Appends the heading `node`, as the element `name`, to `out`.
fn push_heading(out: &mut String, name: &str, node: &ParseArtefact, title: &Text)
    ensures
        final(out)@ == old(out)@ + element(
            name@,
            heading_number(node@) + seq![' '] + render_text(title@),
        ),
{
    push_tag(out, name);
    push_heading_start(out, node);
    title.render_into(out);
    push_end_tag(out, name);
    assert(out@ =~= old(out)@ + element(
        name@,
        heading_number(node@) + seq![' '] + render_text(title@),
    ));
}

/// Appends a paragraph of the lines `lines` to `out`.
fn push_paragraph(out: &mut String, lines: &Vec<Text>)
    ensures
        final(out)@ == old(out)@ + element(
            "p"@,
            render_lines(text_views(lines@), lines@.len()),
        ),
{
    push_tag(out, "p");
    let ghost all = text_views(lines@);
    let ghost start = out@;
    let mut i: usize = 0;
    assert(out@ =~= start + render_lines(all, 0));
    while i < lines.len()
        invariant
            i <= lines.len(),
            all == text_views(lines@),
            out@ == start + render_lines(all, i as nat),
        decreases lines.len() - i,
    {
        if i > 0 {
            out.push(' ');
        }
        lines[i].render_into(out);
        i += 1;
        assert(all[i - 1] == lines@[i - 1]@);
        assert(out@ =~= start + render_lines(all, i as nat));
    }
    push_end_tag(out, "p");
    assert(out@ =~= old(out)@ + element("p"@, render_lines(all, lines@.len())));
}

/// Appends a table row of the cells `cells` to `out`, each cell as an
/// element `name`.
fn push_row(out: &mut String, cells: &Vec<Text>, name: &str)
    ensures
        final(out)@ == old(out)@ + element(
            "tr"@,
            render_cells(text_views(cells@), cells@.len(), name@),
        ),
{
    push_tag(out, "tr");
    push_cells(out, cells, name);
    push_end_tag(out, "tr");
    assert(out@ =~= old(out)@ + element(
        "tr"@,
        render_cells(text_views(cells@), cells@.len(), name@),
    ));
}

/// Appends a button to `out`.
fn push_button(out: &mut String, label: &str, link: &str)
    ensures
        final(out)@ == old(out)@ + tag_with("a"@, button_attributes(link@)) + label@ + end_tag(
            "a"@,
        ),
{
    out.push('<');
    out.append("a");
    out.push(' ');
    out.append("href=\"");
    out.append(link);
    out.append("\"");
    out.append(" class=\"md-button\"");
    out.push('>');
    out.append(label);
    push_end_tag(out, "a");
    assert(out@ =~= old(out)@ + tag_with("a"@, button_attributes(link@)) + label@ + end_tag("a"@));
}

/// Appends an image and its caption to `out`.
fn push_image(out: &mut String, caption: &str, path: &str)
    ensures
        final(out)@ == old(out)@ + tag_with("img"@, image_attributes(caption@, path@)) + tag_with(
            "p"@,
            "class=\"img-caption\""@,
        ) + caption@ + end_tag("p"@),
{
    out.push('<');
    out.append("img");
    out.push(' ');
    out.append("src=\"");
    out.append(path);
    out.append("\" alt=\"");
    out.append(caption);
    out.append("\" /");
    out.push('>');
    let ghost mid = out@;
    assert(mid =~= old(out)@ + tag_with("img"@, image_attributes(caption@, path@)));
    out.push('<');
    out.append("p");
    out.push(' ');
    out.append("class=\"img-caption\"");
    out.push('>');
    assert(out@ =~= mid + tag_with("p"@, "class=\"img-caption\""@));
    out.append(caption);
    push_end_tag(out, "p");
}

/// Appends a code block to `out`.
fn push_codeblock(out: &mut String, code: &str)
    ensures
        final(out)@ == old(out)@ + element("pre"@, element("code"@, code@)),
{
    push_tag(out, "pre");
    push_tag(out, "code");
    out.append(code);
    push_end_tag(out, "code");
    push_end_tag(out, "pre");
    assert(out@ =~= old(out)@ + element("pre"@, element("code"@, code@)));
}

/// Appends the table of the rows `rows` to `out`: the first row as the
/// head, the others as the body.
fn push_table(out: &mut String, rows: &Vec<ParseArtefact>)
    ensures
        final(out)@ == old(out)@ + render(ArtefactView::Table(artefact_views(rows@))),
    decreases rows, 1nat,
{
    let ghost all = artefact_views(rows@);
    if rows.len() > 0 {
        assert(all[0] == rows@[0]@);
        match &rows[0] {
            ParseArtefact::TableRow(cells) => {
                push_tag(out, "table");
                push_tag(out, "thead");
                push_row(out, cells, "th");
                push_end_tag(out, "thead");
                let ghost head = out@;
                assert(head =~= old(out)@ + tag("table"@) + element(
                    "thead"@,
                    element("tr"@, render_cells(text_views(cells@), cells@.len(), "th"@)),
                ));
                push_tag(out, "tbody");
                render_nodes_into(rows, 1, out);
                push_end_tag(out, "tbody");
                assert(out@ =~= head + element(
                    "tbody"@,
                    render_range(all, 1, rows@.len() as int),
                ));
                push_end_tag(out, "table");
                assert(out@ =~= old(out)@ + render(ArtefactView::Table(all)));
            },
            _ => {
                assert(out@ =~= old(out)@ + render(ArtefactView::Table(all)));
            },
        }
    } else {
        assert(out@ =~= old(out)@ + render(ArtefactView::Table(all)));
    }
}

impl ParseArtefact {
    /// Appends the markup of this node to `out`.
    pub fn render_into(&self, out: &mut String)
        ensures
            final(out)@ == old(out)@ + render(self@),
        decreases self, 0nat,
    {
        match self {
            ParseArtefact::Section(_, title) => push_heading(out, "h1", self, title),
            ParseArtefact::Subsection(_, _, title) => push_heading(out, "h2", self, title),
            ParseArtefact::Subsubsection(_, _, _, title) => push_heading(out, "h3", self, title),
            ParseArtefact::Paragraph(lines) => push_paragraph(out, lines),
            ParseArtefact::List(children) => {
                proof {
                    lemma_list_view(*children);
                }
                push_tag(out, "ol");
                render_nodes_into(children, 0, out);
                push_end_tag(out, "ol");
                assert(out@ =~= old(out)@ + render(self@));
            },
            ParseArtefact::ListItem(text) => push_text_element(out, "li", text),
            ParseArtefact::Quote(text) => push_text_element(out, "blockquote", text),
            ParseArtefact::Table(rows) => {
                proof {
                    lemma_table_view(*rows);
                }
                push_table(out, rows);
            },
            ParseArtefact::TableRow(cells) => push_row(out, cells, "td"),
            ParseArtefact::Button(label, link) => push_button(out, label.as_str(), link.as_str()),
            ParseArtefact::Image(caption, path) => push_image(
                out,
                caption.as_str(),
                path.as_str(),
            ),
            ParseArtefact::Codeblock(code) => push_codeblock(out, code.as_str()),
        }
    }

    /// The markup of this node.
    pub fn to_html(&self) -> (html: String)
        ensures
            html@ == render(self@),
    {
        let mut out = String::new();
        self.render_into(&mut out);
        assert(out@ =~= render(self@));
        out
    }
}

/// Appends the markup of the nodes from `from` on to `out`.
pub fn render_nodes_into(nodes: &Vec<ParseArtefact>, from: usize, out: &mut String)
    ensures
        final(out)@ == old(out)@ + render_range(
            artefact_views(nodes@),
            from as int,
            nodes@.len() as int,
        ),
    decreases nodes, 0nat,
{
    let ghost all = artefact_views(nodes@);
    let mut i: usize = from;
    if from >= nodes.len() {
        assert(out@ =~= old(out)@ + render_range(all, from as int, nodes@.len() as int));
        return ;
    }
    assert(out@ =~= old(out)@ + render_range(all, from as int, from as int));
    while i < nodes.len()
        invariant
            from <= i <= nodes.len(),
            all == artefact_views(nodes@),
            out@ == old(out)@ + render_range(all, from as int, i as int),
        decreases nodes.len() - i,
    {
        nodes[i].render_into(out);
        i += 1;
        assert(all[i - 1] == nodes@[i - 1]@);
        assert(out@ =~= old(out)@ + render_range(all, from as int, i as int));
    }
}

/// The markup of a whole tree: that of its nodes, one after the other.
pub fn to_html(nodes: &Vec<ParseArtefact>) -> (html: String)
    ensures
        html@ == render_document(artefact_views(nodes@)),
{
    let mut out = String::new();
    render_nodes_into(nodes, 0, &mut out);
    assert(out@ =~= render_document(artefact_views(nodes@)));
    out
}

} // verus!
