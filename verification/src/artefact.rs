//! The nodes of the document tree.
use vstd::prelude::*;
use crate::inline::{text_views, SpanView, Text};

verus! {

/// A node of the document tree.
#[derive(Debug, PartialEq)]
pub enum ParseArtefact {
    /// A heading of the first level: its number, then its title.
    Section(usize, Text),
    /// A heading of the second level: the numbers of its section and of
    /// itself, then its title.
    Subsection(usize, usize, Text),
    /// A heading of the third level, with the numbers of all three levels.
    Subsubsection(usize, usize, usize, Text),
    /// One text for each line of the paragraph.
    Paragraph(Vec<Text>),
    /// Items and nested lists, in the order of the lines they came from.
    List(Vec<ParseArtefact>),
    ListItem(Text),
    Quote(Text),
    /// The rows of a table.
    Table(Vec<ParseArtefact>),
    /// One text for each cell of the row.
    TableRow(Vec<Text>),
    /// A label and the address it leads to.
    Button(String, String),
    /// A caption and the path of the picture.
    Image(String, String),
    /// Text that is shown as it was written.
    Codeblock(String),
}

/// The mathematical value of a [`ParseArtefact`].
pub enum ArtefactView {
    Section(nat, Seq<SpanView>),
    Subsection(nat, nat, Seq<SpanView>),
    Subsubsection(nat, nat, nat, Seq<SpanView>),
    Paragraph(Seq<Seq<SpanView>>),
    List(Seq<ArtefactView>),
    ListItem(Seq<SpanView>),
    Quote(Seq<SpanView>),
    Table(Seq<ArtefactView>),
    TableRow(Seq<Seq<SpanView>>),
    Button(Seq<char>, Seq<char>),
    Image(Seq<char>, Seq<char>),
    Codeblock(Seq<char>),
}

impl ParseArtefact {
    /// The value of this node: the same tree over mathematical sequences.
    pub open spec fn model(self) -> ArtefactView
        decreases self,
    {
        match self {
            ParseArtefact::Section(n, t) => ArtefactView::Section(n as nat, t@),
            ParseArtefact::Subsection(n, m, t) => ArtefactView::Subsection(n as nat, m as nat, t@),
            ParseArtefact::Subsubsection(n, m, k, t) => ArtefactView::Subsubsection(
                n as nat,
                m as nat,
                k as nat,
                t@,
            ),
            ParseArtefact::Paragraph(lines) => ArtefactView::Paragraph(text_views(lines@)),
            ParseArtefact::List(items) => ArtefactView::List(
                Seq::new(
                    items@.len(),
                    |i: int|
                        if 0 <= i < items@.len() {
                            items@[i].model()
                        } else {
                            ArtefactView::Codeblock(Seq::empty())
                        },
                ),
            ),
            ParseArtefact::ListItem(t) => ArtefactView::ListItem(t@),
            ParseArtefact::Quote(t) => ArtefactView::Quote(t@),
            ParseArtefact::Table(rows) => ArtefactView::Table(
                Seq::new(
                    rows@.len(),
                    |i: int|
                        if 0 <= i < rows@.len() {
                            rows@[i].model()
                        } else {
                            ArtefactView::Codeblock(Seq::empty())
                        },
                ),
            ),
            ParseArtefact::TableRow(cells) => ArtefactView::TableRow(text_views(cells@)),
            ParseArtefact::Button(label, link) => ArtefactView::Button(label@, link@),
            ParseArtefact::Image(caption, path) => ArtefactView::Image(caption@, path@),
            ParseArtefact::Codeblock(code) => ArtefactView::Codeblock(code@),
        }
    }
}

impl View for ParseArtefact {
    type V = ArtefactView;

    open spec fn view(&self) -> ArtefactView {
        self.model()
    }
}

/// The values of a sequence of nodes.
pub open spec fn artefact_views(nodes: Seq<ParseArtefact>) -> Seq<ArtefactView> {
    nodes.map_values(|a: ParseArtefact| a@)
}

/// A list node has the values of its children as its value.
pub proof fn lemma_list_view(items: Vec<ParseArtefact>)
    ensures
        ParseArtefact::List(items)@ == ArtefactView::List(artefact_views(items@)),
{
    let a = ParseArtefact::List(items);
    assert(a@->List_0 =~= artefact_views(items@));
}

/// A table node has the values of its rows as its value.
pub proof fn lemma_table_view(rows: Vec<ParseArtefact>)
    ensures
        ParseArtefact::Table(rows)@ == ArtefactView::Table(artefact_views(rows@)),
{
    let a = ParseArtefact::Table(rows);
    assert(a@->Table_0 =~= artefact_views(rows@));
}

} // verus!
