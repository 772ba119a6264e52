use waygum::artefact::ParseArtefact;
use waygum::error::{Construct, ParseError};
use waygum::inline::{scan_spans, Text, TextArtefact};
use waygum::lexer::Lexer;
use waygum::parser::Parser;

fn spans(text: &str) -> Option<Vec<TextArtefact>> {
    scan_spans(&text.chars().collect())
}

fn raw(s: &str) -> TextArtefact {
    TextArtefact::Raw(String::from(s))
}

fn parse(input: &str) -> Result<Vec<ParseArtefact>, ParseError> {
    let tokens = Lexer::new(String::from(input)).tokenize().unwrap();
    Parser::new(tokens).parse()
}

#[test]
fn styled_spans_between_plain_text() {
    assert_eq!(
        spans("*bold* and /it/").unwrap(),
        vec![
            TextArtefact::Bold(String::from("bold")),
            raw(" and "),
            TextArtefact::Italics(String::from("it"))
        ]
    );
    assert_eq!(
        spans("a `c` ~s~ _u_ z").unwrap(),
        vec![
            raw("a "),
            TextArtefact::Code(String::from("c")),
            raw(" "),
            TextArtefact::Strikethrough(String::from("s")),
            raw(" "),
            TextArtefact::Underline(String::from("u")),
            raw(" z")
        ]
    );
}

#[test]
fn span_ends_at_the_next_marker_of_its_kind() {
    assert_eq!(
        spans("*a/b_c*d").unwrap(),
        vec![TextArtefact::Bold(String::from("a/b_c")), raw("d")]
    );
    assert_eq!(
        spans("**").unwrap(),
        vec![TextArtefact::Bold(String::new())]
    );
    assert_eq!(
        spans("***").unwrap(),
        vec![TextArtefact::Bold(String::new())]
    );
    assert_eq!(
        spans("*a**b*").unwrap(),
        vec![TextArtefact::Bold(String::from("a")), TextArtefact::Bold(String::from("b"))]
    );
}

#[test]
fn span_that_is_not_closed_becomes_plain_text() {
    assert_eq!(spans("a *b").unwrap(), vec![raw("a "), raw("b")]);
    assert_eq!(spans("2 * 3 / 4").unwrap(), vec![raw("2 "), raw(" 3 / 4")]);
    assert_eq!(spans("a*").unwrap(), vec![raw("a")]);
    assert_eq!(spans("_").unwrap(), Vec::<TextArtefact>::new());
    assert_eq!(spans("~x").unwrap(), vec![raw("x")]);
}

#[test]
fn empty_text_has_no_span() {
    assert_eq!(spans("").unwrap(), Vec::<TextArtefact>::new());
}

#[test]
fn link_inside_a_line() {
    assert_eq!(
        spans("x ![l](u) y").unwrap(),
        vec![raw("x "), TextArtefact::Link(String::from("l"), String::from("u")), raw(" y")]
    );
    assert_eq!(
        spans("![a*b](c/d)!").unwrap(),
        vec![TextArtefact::Link(String::from("a*b"), String::from("c/d")), raw("!")]
    );
    assert_eq!(
        spans("![]()").unwrap(),
        vec![TextArtefact::Link(String::new(), String::new())]
    );
}

#[test]
fn exclamation_mark_alone_is_plain() {
    assert_eq!(spans("hi! there").unwrap(), vec![raw("hi! there")]);
    assert_eq!(spans("wow!").unwrap(), vec![raw("wow!")]);
    assert_eq!(spans("!!").unwrap(), vec![raw("!!")]);
    assert_eq!(
        spans("!*b*").unwrap(),
        vec![raw("!"), TextArtefact::Bold(String::from("b"))]
    );
}

#[test]
fn link_without_its_parts_is_malformed() {
    assert_eq!(spans("![a]b"), None);
    assert_eq!(spans("![a]"), None);
    assert_eq!(spans("![a"), None);
    assert_eq!(spans("x ![a] (b)"), None);
    assert_eq!(spans("![a](b"), None);
    assert_eq!(spans("*ok* ![a](b"), None);
    assert_eq!(spans("!["), None);
}

#[test]
fn malformed_link_is_fatal() {
    assert_eq!(
        parse("![caption](unterminated"),
        Err(ParseError::MalformedInlineLink { context: Construct::Paragraph })
    );
}

#[test]
fn malformed_link_names_the_block_it_stands_in() {
    assert_eq!(
        parse("@ ![x"),
        Err(ParseError::MalformedInlineLink { context: Construct::Section })
    );
    assert_eq!(
        parse("@@ ![x"),
        Err(ParseError::MalformedInlineLink { context: Construct::Subsection })
    );
    assert_eq!(
        parse("@@@ ![x"),
        Err(ParseError::MalformedInlineLink { context: Construct::Subsubsection })
    );
    assert_eq!(parse("- ![x"), Err(ParseError::MalformedInlineLink { context: Construct::List }));
    assert_eq!(
        parse("- a\n-- ![x"),
        Err(ParseError::MalformedInlineLink { context: Construct::List })
    );
    assert_eq!(parse("> ![x"), Err(ParseError::MalformedInlineLink { context: Construct::Quote }));
    assert_eq!(
        parse("| a | ![x |"),
        Err(ParseError::MalformedInlineLink { context: Construct::Table })
    );
    assert_eq!(
        parse("fine\nnot ![x"),
        Err(ParseError::MalformedInlineLink { context: Construct::Paragraph })
    );
}

#[test]
fn spans_are_read_in_every_text() {
    assert_eq!(
        parse("@ *T*\n> /q/\n- `i`\n| ~c~ | _d_ |").unwrap(),
        vec![
            ParseArtefact::Section(1, Text(vec![TextArtefact::Bold(String::from("T"))])),
            ParseArtefact::Quote(Text(vec![TextArtefact::Italics(String::from("q"))])),
            ParseArtefact::List(vec![ParseArtefact::ListItem(Text(vec![TextArtefact::Code(
                String::from("i")
            )]))]),
            ParseArtefact::Table(vec![ParseArtefact::TableRow(vec![
                Text(vec![TextArtefact::Strikethrough(String::from("c"))]),
                Text(vec![TextArtefact::Underline(String::from("d"))])
            ])])
        ]
    );
}

#[test]
fn spans_are_not_read_in_code_images_and_buttons() {
    assert_eq!(
        parse("$$$\n*x* ![a\n$$$\n![*c*](/p/)\n#![_l_]{~k~}").unwrap(),
        vec![
            ParseArtefact::Codeblock(String::from("*x* ![a\n")),
            ParseArtefact::Image(String::from("*c*"), String::from("/p/")),
            ParseArtefact::Button(String::from("_l_"), String::from("~k~"))
        ]
    );
}

#[test]
fn parse_text_artefacts_reads_spans() {
    let parser = Parser::new(Vec::new());
    assert_eq!(
        parser.parse_text_artefacts("a *b*", Construct::Quote).unwrap(),
        vec![raw("a "), TextArtefact::Bold(String::from("b"))]
    );
    assert_eq!(
        parser.parse_text_artefacts("![a", Construct::Quote),
        Err(ParseError::MalformedInlineLink { context: Construct::Quote })
    );
    assert_eq!(parser.parse_text("x", Construct::List).unwrap(), Text(vec![raw("x")]));
}
