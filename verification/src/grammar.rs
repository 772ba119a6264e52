//! The grammar of one line: which block a line is.
use vstd::prelude::*;
use crate::chars::{
    find, find_char, is_blank, lemma_find_char_bounds, skip_char, skip_chars, skip_space,
    skip_spaces, string_views, substring, trim, trimmed,
};
use crate::token::{Token, TokenView};

verus! {

/// What one line of input is, taken by itself.
pub enum LineClass {
    /// The line is a block of its own.
    Block(TokenView),
    /// The line opens or closes a code block.
    Fence,
    /// The line holds nothing but whitespace.
    Blank,
    /// The line starts like a heading and is none.
    Malformed,
}

/// A line as `classify_line` returns it.
pub enum Line {
    Block(Token),
    Fence,
    Blank,
    Malformed,
}

impl View for Line {
    type V = LineClass;

    open spec fn view(&self) -> LineClass {
        match self {
            Line::Block(t) => LineClass::Block(t@),
            Line::Fence => LineClass::Fence,
            Line::Blank => LineClass::Blank,
            Line::Malformed => LineClass::Malformed,
        }
    }
}

/// The value of an optional token.
pub open spec fn option_view(t: Option<Token>) -> Option<TokenView> {
    match t {
        Some(t) => Some(t@),
        None => None,
    }
}

/// A heading: one to three `@`, then a title that is not blank. The title is
/// trimmed at both ends. Meant for lines that start with `@`.
pub open spec fn heading(line: Seq<char>) -> Option<TokenView> {
    let level = skip_char(line, '@', 0);
    let title = trim(line.subrange(level, line.len() as int));
    if level < 1 || level > 3 || title.len() == 0 {
        None
    } else if level == 1 {
        Some(TokenView::Section(title))
    } else if level == 2 {
        Some(TokenView::Subsection(title))
    } else {
        Some(TokenView::Subsubsection(title))
    }
}

/// A list line: a run of `-`, whose length is the depth, then text that is
/// not blank. The text starts at the first character that is no whitespace.
pub open spec fn list_line(line: Seq<char>) -> Option<TokenView> {
    let depth = skip_char(line, '-', 0);
    let start = skip_space(line, depth);
    if depth >= 1 && start < line.len() {
        Some(TokenView::List { depth: depth as nat, text: line.subrange(start, line.len() as int) })
    } else {
        None
    }
}

/// A quote: one `>` that no second `>` follows, then text that is not blank.
pub open spec fn quote_line(line: Seq<char>) -> Option<TokenView> {
    let start = skip_space(line, 1);
    if line.len() >= 1 && line[0] == '>' && !(line.len() >= 2 && line[1] == '>') && start
        < line.len() {
        Some(TokenView::Quote(line.subrange(start, line.len() as int)))
    } else {
        None
    }
}

/// The cells of `s[i..]`: the pieces between the `|`, each trimmed.
pub open spec fn cells(s: Seq<char>, i: int) -> Seq<Seq<char>>
    decreases s.len() - i,
{
    let j = find_char(s, '|', i);
    if i <= j < s.len() {
        seq![trim(s.subrange(i, j))] + cells(s, j + 1)
    } else {
        seq![trim(s.subrange(i, s.len() as int))]
    }
}

/// A table row: a line of at least two characters that starts and ends
/// with `|`.
pub open spec fn table_row(line: Seq<char>) -> Option<TokenView> {
    if line.len() >= 2 && line[0] == '|' && line[line.len() - 1] == '|' {
        Some(TokenView::Table(cells(line.subrange(1, line.len() - 1), 0)))
    } else {
        None
    }
}

/// The last index `k` in `2..=j` at which `](` stands, or `-1`.
pub open spec fn last_caption_end(s: Seq<char>, j: int) -> int
    decreases j,
{
    if j < 2 {
        -1
    } else if j + 1 < s.len() && s[j] == ']' && s[j + 1] == '(' {
        j
    } else {
        last_caption_end(s, j - 1)
    }
}

/// A block image: `![caption](path)` as the whole line. Where `](` stands
/// more than once, the last one that leaves room for the closing `)` ends
/// the caption.
pub open spec fn image_line(line: Seq<char>) -> Option<TokenView> {
    let k = last_caption_end(line, line.len() - 3);
    if line.len() >= 5 && line[0] == '!' && line[1] == '[' && line[line.len() - 1] == ')' && k
        >= 2 {
        Some(
            TokenView::Image {
                caption: line.subrange(2, k),
                path: line.subrange(k + 2, line.len() - 1),
            },
        )
    } else {
        None
    }
}

/// A button: `#![label]{link}` as the whole line, with no `]` in the label
/// and no `}` in the link.
pub open spec fn button_line(line: Seq<char>) -> Option<TokenView> {
    let j = find_char(line, ']', 3);
    let k = find_char(line, '}', j + 2);
    if line.len() >= 6 && line[0] == '#' && line[1] == '!' && line[2] == '[' && j + 1 < line.len()
        && line[j + 1] == '{' && k == line.len() - 1 {
        Some(TokenView::Button { text: line.subrange(3, j), link: line.subrange(j + 2, k) })
    } else {
        None
    }
}

/// The line that opens and closes a code block.
pub open spec fn fence() -> Seq<char> {
    seq!['$', '$', '$']
}

/// The class of a line. The rules are tried in this order, and the first
/// that applies decides.
pub open spec fn classify(line: Seq<char>) -> LineClass {
    if line.len() > 0 && line[0] == '@' {
        match heading(line) {
            Some(t) => LineClass::Block(t),
            None => LineClass::Malformed,
        }
    } else if list_line(line) is Some {
        LineClass::Block(list_line(line)->0)
    } else if quote_line(line) is Some {
        LineClass::Block(quote_line(line)->0)
    } else if table_row(line) is Some {
        LineClass::Block(table_row(line)->0)
    } else if image_line(line) is Some {
        LineClass::Block(image_line(line)->0)
    } else if button_line(line) is Some {
        LineClass::Block(button_line(line)->0)
    } else if line == fence() {
        LineClass::Fence
    } else if is_blank(line) {
        LineClass::Blank
    } else {
        LineClass::Block(TokenView::Text(trim(line)))
    }
}

/// Reads a heading.
pub fn read_heading(line: &Vec<char>) -> (r: Option<Token>)
    ensures
        option_view(r) == heading(line@),
{
    let level: usize = skip_chars(line, '@', 0);
    if level < 1 || level > 3 {
        return None;
    }
    let title = trimmed(line, level, line.len());
    if title.as_str().is_empty() {
        None
    } else if level == 1 {
        Some(Token::Section(title))
    } else if level == 2 {
        Some(Token::Subsection(title))
    } else {
        Some(Token::Subsubsection(title))
    }
}

/// Reads a list line.
pub fn read_list_line(line: &Vec<char>) -> (r: Option<Token>)
    ensures
        option_view(r) == list_line(line@),
{
    let depth: usize = skip_chars(line, '-', 0);
    let start: usize = skip_spaces(line, depth);
    if depth >= 1 && start < line.len() {
        Some(Token::List { depth, text: substring(line, start, line.len()) })
    } else {
        None
    }
}

/// Reads a quote.
pub fn read_quote_line(line: &Vec<char>) -> (r: Option<Token>)
    ensures
        option_view(r) == quote_line(line@),
{
    if line.len() >= 1 && line[0] == '>' && !(line.len() >= 2 && line[1] == '>') {
        let start: usize = skip_spaces(line, 1);
        if start < line.len() {
            return Some(Token::Quote(substring(line, start, line.len())));
        }
    }
    None
}

/// Splits `line[from..to]` at each `|` and trims the pieces.
pub fn read_cells(line: &Vec<char>, from: usize, to: usize) -> (r: Vec<String>)
    requires
        from <= to <= line.len(),
    ensures
        string_views(r@) == cells(line@.subrange(from as int, to as int), 0),
{
    let ghost s = line@.subrange(from as int, to as int);
    let mut out: Vec<String> = Vec::new();
    let mut i: usize = from;
    loop
        invariant
            from <= i <= to <= line.len(),
            s == line@.subrange(from as int, to as int),
            cells(s, 0) == string_views(out@) + cells(s, i - from),
        decreases to - i,
    {
        let mut j: usize = i;
        while j < to && line[j] != '|'
            invariant
                i <= j <= to <= line.len(),
                from <= i,
                s == line@.subrange(from as int, to as int),
                find_char(s, '|', i - from) == find_char(s, '|', j - from),
            decreases to - j,
        {
            assert(s[j - from] == line@[j as int]);
            j += 1;
        }
        proof {
            if j < to {
                assert(s[j - from] == line@[j as int]);
            }
            assert(find_char(s, '|', i - from) == j - from);
            assert(s.subrange(i - from, j - from) =~= line@.subrange(i as int, j as int));
        }
        let cell = trimmed(line, i, j);
        let ghost before = out@;
        out.push(cell);
        assert(string_views(out@) =~= string_views(before) + seq![cell@]);
        if j < to {
            i = j + 1;
        } else {
            return out;
        }
    }
}

/// Reads a table row.
pub fn read_table_row(line: &Vec<char>) -> (r: Option<Token>)
    ensures
        option_view(r) == table_row(line@),
{
    let n: usize = line.len();
    if n >= 2 && line[0] == '|' && line[n - 1] == '|' {
        Some(Token::Table(read_cells(line, 1, n - 1)))
    } else {
        None
    }
}

/// Reads a block image.
pub fn read_image_line(line: &Vec<char>) -> (r: Option<Token>)
    ensures
        option_view(r) == image_line(line@),
{
    let n: usize = line.len();
    if n >= 5 && line[0] == '!' && line[1] == '[' && line[n - 1] == ')' {
        let mut k: usize = n - 3;
        while k >= 2 && !(line[k] == ']' && line[k + 1] == '(')
            invariant
                1 <= k <= n - 3,
                n == line.len(),
                last_caption_end(line@, n - 3) == last_caption_end(line@, k as int),
            decreases k,
        {
            k -= 1;
        }
        if k >= 2 {
            return Some(
                Token::Image { caption: substring(line, 2, k), path: substring(line, k + 2, n - 1) },
            );
        }
    }
    None
}

/// Reads a button.
pub fn read_button_line(line: &Vec<char>) -> (r: Option<Token>)
    ensures
        option_view(r) == button_line(line@),
{
    let n: usize = line.len();
    if n >= 6 && line[0] == '#' && line[1] == '!' && line[2] == '[' {
        let j: usize = find(line, ']', 3);
        if j < n - 1 && line[j + 1] == '{' {
            let k: usize = find(line, '}', j + 2);
            if k == n - 1 {
                return Some(
                    Token::Button { text: substring(line, 3, j), link: substring(line, j + 2, k) },
                );
            }
        } else {
            proof {
                lemma_find_char_bounds(line@, ']', 3);
            }
        }
    }
    None
}

/// Tells whether `line` is the line that opens and closes a code block.
pub fn is_fence(line: &Vec<char>) -> (b: bool)
    ensures
        b == (line@ == fence()),
{
    let b = line.len() == 3 && line[0] == '$' && line[1] == '$' && line[2] == '$';
    proof {
        if b {
            assert(line@ =~= fence());
        }
    }
    b
}

/// Classifies one line.
pub fn classify_line(line: &Vec<char>) -> (r: Line)
    ensures
        r@ == classify(line@),
{
    if line.len() > 0 && line[0] == '@' {
        return match read_heading(line) {
            Some(t) => Line::Block(t),
            None => Line::Malformed,
        };
    }
    if let Some(t) = read_list_line(line) {
        return Line::Block(t);
    }
    if let Some(t) = read_quote_line(line) {
        return Line::Block(t);
    }
    if let Some(t) = read_table_row(line) {
        return Line::Block(t);
    }
    if let Some(t) = read_image_line(line) {
        return Line::Block(t);
    }
    if let Some(t) = read_button_line(line) {
        return Line::Block(t);
    }
    if is_fence(line) {
        return Line::Fence;
    }
    if skip_spaces(line, 0) == line.len() {
        return Line::Blank;
    }
    assert(line@.subrange(0, line@.len() as int) =~= line@);
    Line::Block(Token::Text(trimmed(line, 0, line.len())))
}

} // verus!
