//! The spans inside a text: bold, italic, code, struck and underlined runs,
//! and links.
use vstd::prelude::*;
use crate::chars::{find, find_char, substring};

verus! {

/// One styled or plain run of characters inside a block.
#[derive(Debug, PartialEq)]
pub enum TextArtefact {
    Raw(String),
    Bold(String),
    Italics(String),
    Link(String, String),
    Strikethrough(String),
    Underline(String),
    Code(String),
}

/// The mathematical value of a [`TextArtefact`].
pub enum SpanView {
    Raw(Seq<char>),
    Bold(Seq<char>),
    Italics(Seq<char>),
    Link(Seq<char>, Seq<char>),
    Strikethrough(Seq<char>),
    Underline(Seq<char>),
    Code(Seq<char>),
}

impl View for TextArtefact {
    type V = SpanView;

    open spec fn view(&self) -> SpanView {
        match self {
            TextArtefact::Raw(s) => SpanView::Raw(s@),
            TextArtefact::Bold(s) => SpanView::Bold(s@),
            TextArtefact::Italics(s) => SpanView::Italics(s@),
            TextArtefact::Link(label, url) => SpanView::Link(label@, url@),
            TextArtefact::Strikethrough(s) => SpanView::Strikethrough(s@),
            TextArtefact::Underline(s) => SpanView::Underline(s@),
            TextArtefact::Code(s) => SpanView::Code(s@),
        }
    }
}

/// The spans of one piece of text, in the order in which they are shown.
#[derive(Debug, PartialEq)]
pub struct Text(pub Vec<TextArtefact>);

/// The values of a sequence of spans.
pub open spec fn span_views(spans: Seq<TextArtefact>) -> Seq<SpanView> {
    spans.map_values(|a: TextArtefact| a@)
}

impl View for Text {
    type V = Seq<SpanView>;

    open spec fn view(&self) -> Seq<SpanView> {
        span_views(self.0@)
    }
}

/// The values of a sequence of texts.
pub open spec fn text_views(texts: Seq<Text>) -> Seq<Seq<SpanView>> {
    texts.map_values(|t: Text| t@)
}

/// The characters that open and close a styled span.
pub open spec fn is_marker(c: char) -> bool {
    c == '*' || c == '/' || c == '`' || c == '~' || c == '_'
}

/// The span that the marker `c` makes of `content`.
pub open spec fn styled(c: char, content: Seq<char>) -> SpanView {
    if c == '*' {
        SpanView::Bold(content)
    } else if c == '/' {
        SpanView::Italics(content)
    } else if c == '`' {
        SpanView::Code(content)
    } else if c == '~' {
        SpanView::Strikethrough(content)
    } else {
        SpanView::Underline(content)
    }
}

/// The plain span that holds `raw`, or nothing when `raw` is empty.
pub open spec fn flush(raw: Seq<char>) -> Seq<SpanView> {
    if raw.len() > 0 {
        seq![SpanView::Raw(raw)]
    } else {
        Seq::empty()
    }
}

/// Puts `head` in front of the spans of `rest`; a failure stays one.
pub open spec fn chain(head: Seq<SpanView>, rest: Option<Seq<SpanView>>) -> Option<Seq<SpanView>> {
    match rest {
        Some(spans) => Some(head + spans),
        None => None,
    }
}

/// The spans of `s[i..]`, read with the plain characters `raw` pending;
/// `None` where a link is malformed.
///
/// A marker closes the pending plain span. Its span runs to the next
/// occurrence of the same marker; where there is none, the rest of the text
/// becomes a plain span, without the marker. `![` opens a link: the label
/// runs to the next `]`, which `(` must follow directly, and the address runs
/// to the next `)`.
pub open spec fn scan(s: Seq<char>, i: int, raw: Seq<char>) -> Option<Seq<SpanView>>
    decreases s.len() - i,
{
    if i < 0 || i >= s.len() {
        Some(flush(raw))
    } else if is_marker(s[i]) {
        let j = find_char(s, s[i], i + 1);
        if i < j < s.len() {
            chain(
                flush(raw) + seq![styled(s[i], s.subrange(i + 1, j))],
                scan(s, j + 1, Seq::empty()),
            )
        } else {
            Some(flush(raw) + flush(s.subrange(i + 1, s.len() as int)))
        }
    } else if s[i] == '!' && i + 1 < s.len() && s[i + 1] == '[' {
        let j = find_char(s, ']', i + 2);
        let k = find_char(s, ')', j + 2);
        if i < j && j + 1 < s.len() && s[j + 1] == '(' && j < k < s.len() {
            chain(
                flush(raw) + seq![SpanView::Link(s.subrange(i + 2, j), s.subrange(j + 2, k))],
                scan(s, k + 1, Seq::empty()),
            )
        } else {
            None
        }
    } else {
        scan(s, i + 1, raw.push(s[i]))
    }
}

/// The spans of a text; `None` where a link in it is malformed.
pub open spec fn inline_spans(s: Seq<char>) -> Option<Seq<SpanView>> {
    scan(s, 0, Seq::empty())
}

/// The value of an optional sequence of spans.
pub open spec fn scanned_view(r: Option<Vec<TextArtefact>>) -> Option<Seq<SpanView>> {
    match r {
        Some(spans) => Some(span_views(spans@)),
        None => None,
    }
}

proof fn lemma_chain_assoc(a: Seq<SpanView>, b: Seq<SpanView>, r: Option<Seq<SpanView>>)
    ensures
        chain(a, chain(b, r)) == chain(a + b, r),
{
    match r {
        Some(spans) => {
            assert(a + (b + spans) =~= (a + b) + spans);
        },
        None => {},
    }
}

proof fn lemma_chain_unit(r: Option<Seq<SpanView>>)
    ensures
        chain(Seq::empty(), r) == r,
{
    match r {
        Some(spans) => {
            assert(Seq::<SpanView>::empty() + spans =~= spans);
        },
        None => {},
    }
}

/// Tells whether `c` opens and closes a styled span.
pub fn is_span_marker(c: char) -> (b: bool)
    ensures
        b == is_marker(c),
{
    c == '*' || c == '/' || c == '`' || c == '~' || c == '_'
}

/// The span that the marker `c` makes of `content`.
pub fn styled_span(c: char, content: String) -> (a: TextArtefact)
    requires
        is_marker(c),
    ensures
        a@ == styled(c, content@),
{
    if c == '*' {
        TextArtefact::Bold(content)
    } else if c == '/' {
        TextArtefact::Italics(content)
    } else if c == '`' {
        TextArtefact::Code(content)
    } else if c == '~' {
        TextArtefact::Strikethrough(content)
    } else {
        TextArtefact::Underline(content)
    }
}

/// Appends the plain span that holds `raw` to `out`, unless `raw` is empty.
pub fn flush_raw(out: &mut Vec<TextArtefact>, raw: String)
    ensures
        span_views(final(out)@) == span_views(old(out)@) + flush(raw@),
{
    if raw.as_str().is_empty() {
        assert(span_views(out@) + flush(raw@) =~= span_views(out@));
    } else {
        let ghost before = span_views(out@);
        let span = TextArtefact::Raw(raw);
        out.push(span);
        assert(span_views(out@) =~= before + seq![span@]);
    }
}

/// Reads the spans of a text; `None` where a link in it is malformed.
pub fn scan_spans(text: &Vec<char>) -> (r: Option<Vec<TextArtefact>>)
    ensures
        scanned_view(r) == inline_spans(text@),
{
    let ghost s = text@;
    let len: usize = text.len();
    let mut out: Vec<TextArtefact> = Vec::new();
    let mut raw = String::new();
    let mut i: usize = 0;
    proof {
        assert(span_views(out@) =~= Seq::<SpanView>::empty());
        lemma_chain_unit(scan(s, 0, Seq::empty()));
    }
    while i < len
        invariant
            i <= len == text.len(),
            s == text@,
            inline_spans(s) == chain(span_views(out@), scan(s, i as int, raw@)),
        decreases len - i,
    {
        let c = text[i];
        let ghost before = span_views(out@);
        let ghost pending = raw@;
        if is_span_marker(c) {
            let j: usize = find(text, c, i + 1);
            flush_raw(&mut out, raw);
            raw = String::new();
            if j < len {
                let ghost mid = span_views(out@);
                let span = styled_span(c, substring(text, i + 1, j));
                out.push(span);
                proof {
                    assert(span_views(out@) =~= mid + seq![span@]);
                    assert(span_views(out@) =~= before + (flush(pending) + seq![span@]));
                    lemma_chain_assoc(
                        before,
                        flush(pending) + seq![span@],
                        scan(s, j + 1, Seq::empty()),
                    );
                }
                i = j + 1;
            } else {
                let rest = substring(text, i + 1, len);
                flush_raw(&mut out, rest);
                proof {
                    assert(span_views(out@) =~= before + (flush(pending) + flush(rest@)));
                }
                return Some(out);
            }
        } else if c == '!' && i + 1 < len && text[i + 1] == '[' {
            let j: usize = find(text, ']', i + 2);
            if j < len - 1 && text[j + 1] == '(' {
                let k: usize = find(text, ')', j + 2);
                if k < len {
                    flush_raw(&mut out, raw);
                    raw = String::new();
                    let ghost mid = span_views(out@);
                    let span = TextArtefact::Link(
                        substring(text, i + 2, j),
                        substring(text, j + 2, k),
                    );
                    out.push(span);
                    proof {
                        assert(span_views(out@) =~= mid + seq![span@]);
                        assert(span_views(out@) =~= before + (flush(pending) + seq![span@]));
                        lemma_chain_assoc(
                            before,
                            flush(pending) + seq![span@],
                            scan(s, k + 1, Seq::empty()),
                        );
                    }
                    i = k + 1;
                } else {
                    return None;
                }
            } else {
                return None;
            }
        } else {
            raw.push(c);
            i += 1;
        }
    }
    flush_raw(&mut out, raw);
    Some(out)
}

} // verus!
