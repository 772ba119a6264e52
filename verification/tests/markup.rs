use waygum::artefact::ParseArtefact;
use waygum::counting::count_tag;
use waygum::document::{title_of, Document};
use waygum::error::{Construct, ParseError};
use waygum::html::{push_decimal, to_html};
use waygum::inline::{Text, TextArtefact};
use waygum::lexer::Lexer;
use waygum::parser::Parser;

fn parse(input: &str) -> Vec<ParseArtefact> {
    let tokens = Lexer::new(String::from(input)).tokenize().unwrap();
    Parser::new(tokens).parse().unwrap()
}

fn plain(s: &str) -> Text {
    Text(vec![TextArtefact::Raw(String::from(s))])
}

fn render(input: &str) -> String {
    to_html(&parse(input))
}

/// Headings, items, rows and cells of a tree, counted on the tree itself.
fn census(nodes: &[ParseArtefact], counts: &mut [usize; 4]) {
    for node in nodes {
        match node {
            ParseArtefact::Section(..)
            | ParseArtefact::Subsection(..)
            | ParseArtefact::Subsubsection(..) => counts[0] += 1,
            ParseArtefact::ListItem(_) => counts[1] += 1,
            ParseArtefact::List(children) => census(children, counts),
            ParseArtefact::Table(rows) => census(rows, counts),
            ParseArtefact::TableRow(cells) => {
                counts[2] += 1;
                counts[3] += cells.len();
            }
            _ => {}
        }
    }
}

#[test]
fn headings_show_their_numbers() {
    assert_eq!(
        render("@ One\n@@ Two\n@@@ Three"),
        "<h1>1 One</h1><h2>1.1 Two</h2><h3>1.1.1 Three</h3>"
    );
}

#[test]
fn decimal_digits() {
    let mut out = String::from("n=");
    push_decimal(&mut out, 0);
    out.push(',');
    push_decimal(&mut out, 7);
    out.push(',');
    push_decimal(&mut out, 10);
    out.push(',');
    push_decimal(&mut out, 1234567890);
    out.push(',');
    push_decimal(&mut out, usize::MAX);
    assert_eq!(out, format!("n=0,7,10,1234567890,{}", usize::MAX));
}

#[test]
fn spans_are_joined_by_a_space() {
    assert_eq!(
        render("*b* and /i/ `c` ~s~ _u_ ![l](u)"),
        "<p><strong>b</strong>  and  <em>i</em>   <code>c</code>   <del>s</del>   <u>u</u>   \
         <a href=\"u\">l</a></p>"
    );
    assert_eq!(plain("x").to_html(), "x");
    assert_eq!(Text(Vec::new()).to_html(), "");
    assert_eq!(TextArtefact::Bold(String::from("b")).to_html(), "<strong>b</strong>");
    assert_eq!(
        TextArtefact::Link(String::from("l"), String::from("u")).to_html(),
        "<a href=\"u\">l</a>"
    );
}

#[test]
fn paragraph_lines_follow_one_another() {
    assert_eq!(render("a\nb"), "<p>a b</p>");
    assert_eq!(render("a\n*b*\nc"), "<p>a <strong>b</strong> c</p>");
}

#[test]
fn lists_are_nested_elements() {
    assert_eq!(
        render("- a\n-- b\n- c"),
        "<ol><li>a</li><ol><li>b</li></ol><li>c</li></ol>"
    );
}

#[test]
fn first_row_is_the_head_of_the_table() {
    assert_eq!(
        render("| a | b |\n| c | d |\n| e |"),
        "<table><thead><tr><th>a</th><th>b</th></tr></thead><tbody><tr><td>c</td><td>d</td></tr>\
         <tr><td>e</td></tr></tbody></table>"
    );
    assert_eq!(
        render("| a |"),
        "<table><thead><tr><th>a</th></tr></thead><tbody></tbody></table>"
    );
}

#[test]
fn table_without_rows_has_no_markup() {
    assert_eq!(ParseArtefact::Table(Vec::new()).to_html(), "");
    assert_eq!(
        ParseArtefact::Table(vec![ParseArtefact::Quote(plain("q"))]).to_html(),
        ""
    );
    assert_eq!(
        ParseArtefact::TableRow(vec![plain("a"), plain("b")]).to_html(),
        "<tr><td>a</td><td>b</td></tr>"
    );
}

#[test]
fn other_blocks() {
    assert_eq!(render("> q"), "<blockquote>q</blockquote>");
    assert_eq!(render("#![Go]{/there}"), "<a href=\"/there\" class=\"md-button\">Go</a>");
    assert_eq!(
        render("![A cat](cat.png)"),
        "<img src=\"cat.png\" alt=\"A cat\" /><p class=\"img-caption\">A cat</p>"
    );
    assert_eq!(render("$$$\na *b*\n$$$"), "<pre><code>a *b*\n</code></pre>");
    assert_eq!(render(""), "");
}

#[test]
fn count_tag_counts_opening_tags() {
    assert_eq!(count_tag("<li>a</li><li><li>", "li"), 3);
    assert_eq!(count_tag("<li>a</li>", "/li"), 1);
    assert_eq!(count_tag("<li>a</li>", "l"), 0);
    assert_eq!(count_tag("<li class=\"x\">", "li"), 0);
    assert_eq!(count_tag("", "li"), 0);
    assert_eq!(count_tag("<>", ""), 1);
    assert_eq!(count_tag("li", "li"), 0);
    assert_eq!(count_tag("<<li>>", "li"), 1);
}

#[test]
fn markup_keeps_the_counts_of_the_tree() {
    let input = "@ One\ntext *bold* ![l](u)\n- a\n-- b\n--- c\n- d\n@@ Two\n| h1 | h2 |\n| a | b \
                 |\n| c |\n> q\n@@@ Three\n$$$\ncode\n$$$\n| x |\n- e\n#![b]{l}\n![c](p)\n@ Four";
    let tree = parse(input);
    let html = to_html(&tree);
    let mut counts = [0; 4];
    census(&tree, &mut counts);
    assert_eq!(counts, [4, 5, 4, 6]);
    let headings = count_tag(&html, "h1") + count_tag(&html, "h2") + count_tag(&html, "h3");
    assert_eq!(headings, counts[0]);
    assert_eq!(count_tag(&html, "li"), counts[1]);
    assert_eq!(count_tag(&html, "tr"), counts[2]);
    assert_eq!(count_tag(&html, "th") + count_tag(&html, "td"), counts[3]);
    assert_eq!(html.matches("<li>").count(), counts[1]);
    assert_eq!(html.matches("<tr>").count(), counts[2]);
}

#[test]
fn other_tags_in_the_text_leave_the_counts() {
    let input = "@ a < b\n- <i>x</i> <lix> <l i> < li>\n| <t r> | </td> |\n> <h4> <\n![<li](<tr)\nend <";
    let tree = parse(input);
    let html = to_html(&tree);
    let mut counts = [0; 4];
    census(&tree, &mut counts);
    assert_eq!(counts, [1, 1, 1, 2]);
    let headings = count_tag(&html, "h1") + count_tag(&html, "h2") + count_tag(&html, "h3");
    assert_eq!(headings, counts[0]);
    assert_eq!(count_tag(&html, "li"), counts[1]);
    assert_eq!(count_tag(&html, "tr"), counts[2]);
    assert_eq!(count_tag(&html, "th") + count_tag(&html, "td"), counts[3]);
}

#[test]
fn text_with_a_tag_in_it_is_counted_too() {
    // Nothing is escaped: a `<` in the text breaks the count.
    let tree = parse("- <li>");
    assert_eq!(count_tag(&to_html(&tree), "li"), 2);
}

#[test]
fn title_is_the_file_name_without_its_extension() {
    assert_eq!(title_of("notes.wg"), Some(String::from("notes")));
    assert_eq!(title_of("dir/sub/notes.wg"), Some(String::from("notes")));
    assert_eq!(title_of("./a.b.c"), Some(String::from("a.b")));
    assert_eq!(title_of("dir/.hidden"), Some(String::new()));
    assert_eq!(title_of("a.b/c"), Some(String::from("a")));
    assert_eq!(title_of("plain"), None);
    assert_eq!(title_of("dir/plain"), None);
    assert_eq!(title_of(""), None);
}

#[test]
fn document_becomes_a_page() {
    let mut document = Document::new(
        String::from("@ Hello\n- a"),
        String::from("greeting"),
        Some(String::from("p { margin: 0 }")),
    );
    let page = document.convert_to_html().unwrap();
    assert_eq!(
        page,
        "<!DOCTYPE html>\n<html>\n\t<head>\n\t\t<title>greeting</title>\n\t<style>p { margin: 0 \
         }</style>\n\t</head>\n\t<body>\n\t\t<div id=\"content\"><h1>1 \
         Hello</h1><ol><li>a</li></ol></div>\n\t</body>\n</html>"
    );
    assert_eq!(document.convert_to_html().unwrap(), page);
}

#[test]
fn document_without_style() {
    let mut document = Document::new(String::new(), String::from("t"), None);
    assert_eq!(
        document.convert_to_html().unwrap(),
        "<!DOCTYPE html>\n<html>\n\t<head>\n\t\t<title>t</title>\n\t<style></style>\n\t</head>\n\t\
         <body>\n\t\t<div id=\"content\"></div>\n\t</body>\n</html>"
    );
}

#[test]
fn document_with_an_error_is_not_converted() {
    let mut document = Document::new(String::from("@ a\n@@@@ b"), String::from("t"), None);
    assert_eq!(document.convert_to_html(), Err(ParseError::MalformedHeadingMarker { line: 2 }));
    let mut document = Document::new(String::from("$$$\nx"), String::from("t"), None);
    assert_eq!(document.convert_to_html(), Err(ParseError::UnterminatedCodeblock));
    let mut document = Document::new(String::from("> ![l]"), String::from("t"), None);
    assert_eq!(
        document.convert_to_html(),
        Err(ParseError::MalformedInlineLink { context: Construct::Quote })
    );
}
