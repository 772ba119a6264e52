//! A document and the page it becomes.
use vstd::prelude::*;
use vstd::string::StringExecFns;
use crate::artefact::{ArtefactView, ParseArtefact};
use crate::blocks::{document, no_headings};
use crate::counting::{
    cell_count, heading_count, items_in, lemma_markup_keeps_counts, lemma_parsed_are_blocks,
    row_count, tagless_nodes,
};
use crate::error::{ParseError, ParseErrorView};
use crate::html::{render_document, to_html};
use crate::lexer::{lemma_lexed_depths, lex, Lexer};
use crate::parser::{nodes_result, Parser};
use crate::tags::{occurrences, tag};

verus! {

/// What the group `group` of the regular expression `pattern` captures in
/// the leftmost match of the pattern in `text`. `None` where `pattern` is no
/// regular expression, where it matches nowhere in `text`, and where the
/// group took no part in the match.
pub uninterp spec fn captured(pattern: Seq<char>, text: Seq<char>, group: nat) -> Option<
    Seq<char>,
>;

/// The value of an optional string.
pub open spec fn optional_view(s: Option<String>) -> Option<Seq<char>> {
    match s {
        Some(s) => Some(s@),
        None => None,
    }
}

/// Calls `regex::Regex::captures` on `text`, with the expression that
/// `regex::Regex::new` makes of `pattern`, and hands out the text of the
/// group `group` as `Captures::get` and `Match::as_str` give it. The
/// contract claims that the result depends on the three arguments alone,
/// and nothing of what it is.
#[verifier::external_body]
fn capture(pattern: &str, text: &str, group: usize) -> (r: Option<String>)
    ensures
        optional_view(r) == captured(pattern@, text@, group as nat),
{
    let expression = regex::Regex::new(pattern).ok()?;
    let found = expression.captures(text)?;
    Some(found.get(group)?.as_str().to_string())
}

/// The expression that finds the title of a document in the path of its
/// file. Its first group is what stands before the last `.` of the path,
/// from the last `/` before that `.` on: for a path that ends in a file
/// name with an extension, the name without the extension.
pub open spec fn title_pattern() -> Seq<char> {
    "([^/]*)(?:\\.)[^.]*?$"@
}

/// The title that a document gets from the path of its file: the name of
/// the file without its extension. `None` where the expression for it does
/// not match the path.
pub fn title_of(path: &str) -> (title: Option<String>)
    ensures
        optional_view(title) == captured(title_pattern(), path@, 1),
{
    capture("([^/]*)(?:\\.)[^.]*?$", path, 1)
}

/// A text in the markup language, with the title and the style sheet of
/// the page it is to become.
pub struct Document {
    input: String,
    converted: String,
    title: String,
    style: Option<String>,
}

/// The mathematical value of a [`Document`].
pub struct DocumentView {
    pub input: Seq<char>,
    pub converted: Seq<char>,
    pub title: Seq<char>,
    pub style: Option<Seq<char>>,
}

impl View for Document {
    type V = DocumentView;

    closed spec fn view(&self) -> DocumentView {
        DocumentView {
            input: self.input@,
            converted: self.converted@,
            title: self.title@,
            style: optional_view(self.style),
        }
    }
}

/// The tree of a text: that of its tokens, or the first error of the lexer
/// or of the parser.
pub open spec fn tree(input: Seq<char>) -> Result<Seq<ArtefactView>, ParseErrorView> {
    match lex(input) {
        Ok(toks) => document(toks),
        Err(e) => Err(e),
    }
}

/// The markup of a text keeps the counts of its tree. Where a text has a
/// tree, and nothing in it holds one of the tags `<h1>`, `<h2>`, `<h3>`,
/// `<li>`, `<tr>`, `<th>` and `<td>`, the markup of the tree holds as many
/// of these tags as the tree has headings, items, rows and cells.
pub proof fn lemma_text_keeps_counts(input: Seq<char>)
    requires
        tree(input) is Ok,
        tagless_nodes(tree(input)->Ok_0),
    ensures
        occurrences(render_document(tree(input)->Ok_0), tag("h1"@)) + occurrences(
            render_document(tree(input)->Ok_0),
            tag("h2"@),
        ) + occurrences(render_document(tree(input)->Ok_0), tag("h3"@)) == heading_count(
            tree(input)->Ok_0,
            tree(input)->Ok_0.len(),
        ),
        occurrences(render_document(tree(input)->Ok_0), tag("li"@)) == items_in(
            tree(input)->Ok_0,
            tree(input)->Ok_0.len(),
        ),
        occurrences(render_document(tree(input)->Ok_0), tag("tr"@)) == row_count(
            tree(input)->Ok_0,
            tree(input)->Ok_0.len(),
        ),
        occurrences(render_document(tree(input)->Ok_0), tag("th"@)) + occurrences(
            render_document(tree(input)->Ok_0),
            tag("td"@),
        ) == cell_count(tree(input)->Ok_0, tree(input)->Ok_0.len()),
{
    lemma_parsed_are_blocks(lex(input)->Ok_0, no_headings());
    lemma_markup_keeps_counts(tree(input)->Ok_0);
}

/// The page with the title `title`, the style sheet `style` and the markup
/// `body` as its content.
pub open spec fn page(title: Seq<char>, style: Option<Seq<char>>, body: Seq<char>) -> Seq<char> {
    "<!DOCTYPE html>\n<html>\n\t<head>\n\t\t<title>"@ + title + "</title>\n\t<style>"@ + match style {
        Some(sheet) => sheet,
        None => Seq::empty(),
    } + "</style>\n\t</head>\n\t<body>\n\t\t<div id=\"content\">"@ + body
        + "</div>\n\t</body>\n</html>"@
}

/// The page that a document becomes, or the error in its text.
pub open spec fn converted_page(d: DocumentView) -> Result<Seq<char>, ParseErrorView> {
    match tree(d.input) {
        Ok(nodes) => Ok(page(d.title, d.style, render_document(nodes))),
        Err(e) => Err(e),
    }
}

/// The value of a page or the error in its place.
pub open spec fn page_result(r: Result<String, ParseError>) -> Result<Seq<char>, ParseErrorView> {
    match r {
        Ok(html) => Ok(html@),
        Err(e) => Err(e@),
    }
}

/// Lexes and parses a text: its tree, or the first error in it.
pub fn parse_document(input: &str) -> (r: Result<Vec<ParseArtefact>, ParseError>)
    ensures
        nodes_result(r) == tree(input@),
{
    let lexer = Lexer::new(input.to_owned());
    let tokens = lexer.tokenize()?;
    proof {
        lemma_lexed_depths(input@);
    }
    let mut parser = Parser::new(tokens);
    parser.parse()
}

impl Document {
    /// A document that is not converted yet.
    pub fn new(input: String, title: String, style: Option<String>) -> (d: Document)
        ensures
            d@ == (DocumentView {
                input: input@,
                converted: Seq::empty(),
                title: title@,
                style: optional_view(style),
            }),
    {
        Document { input, converted: String::new(), title, style }
    }

    /// Lexes and parses the text and returns the page with the markup of
    /// its tree. The page is also kept in the document. On an error
    /// in the text the document stays as it was.
    pub fn convert_to_html(&mut self) -> (r: Result<String, ParseError>)
        ensures
            page_result(r) == converted_page(old(self)@),
            r matches Ok(html) ==> final(self)@ == (DocumentView {
                converted: html@,
                ..old(self)@
            }),
            r is Err ==> final(self)@ == old(self)@,
    {
        let nodes = parse_document(self.input.as_str())?;
        let body = to_html(&nodes);
        let mut html = String::new();
        html.append("<!DOCTYPE html>\n<html>\n\t<head>\n\t\t<title>");
        html.append(self.title.as_str());
        html.append("</title>\n\t<style>");
        match &self.style {
            Some(sheet) => {
                html.append(sheet.as_str());
            },
            None => {},
        }
        html.append("</style>\n\t</head>\n\t<body>\n\t\t<div id=\"content\">");
        html.append(body.as_str());
        html.append("</div>\n\t</body>\n</html>");
        assert(html@ =~= page(self.title@, optional_view(self.style), body@));
        self.converted = html.clone();
        Ok(html)
    }
}

} // verus!
