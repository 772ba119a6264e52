//! From a text to block tokens.
use vstd::prelude::*;
use crate::chars::{find, find_char, lemma_find_char_bounds, to_chars};
use crate::error::{
    lemma_prepend_assoc, lemma_prepend_nothing, prepend, ParseError, ParseErrorView,
};
use crate::blocks::{depths_positive, ends_with_marker};
use crate::grammar::{classify, classify_line, fence, is_fence, Line, LineClass};
use crate::token::{token_views, Token, TokenView};

verus! {

/// `s` without one carriage return at its end.
pub open spec fn strip_cr(s: Seq<char>) -> Seq<char> {
    if s.len() > 0 && s.last() == '\r' {
        s.drop_last()
    } else {
        s
    }
}

/// The lines of `s`. A line ends at a line feed, or at a carriage return
/// directly before one; neither belongs to the line. What follows the last
/// line feed is a line if it is not empty.
pub open spec fn split_lines(s: Seq<char>) -> Seq<Seq<char>>
    decreases s.len(),
{
    let n = find_char(s, '\n', 0);
    if s.len() == 0 {
        Seq::empty()
    } else if 0 <= n < s.len() {
        seq![strip_cr(s.subrange(0, n))] + split_lines(s.subrange(n + 1, s.len() as int))
    } else {
        seq![s]
    }
}

/// Index of the first line at or after `i` that is a fence; the number of
/// lines when there is none.
pub open spec fn closing_fence(lines: Seq<Seq<char>>, i: int) -> int
    decreases lines.len() - i,
{
    if 0 <= i < lines.len() && lines[i] != fence() {
        closing_fence(lines, i + 1)
    } else {
        i
    }
}

/// The lines `i..j`, each followed by a line feed, as one text.
pub open spec fn verbatim(lines: Seq<Seq<char>>, i: int, j: int) -> Seq<char>
    decreases j - i,
{
    if 0 <= i < j <= lines.len() {
        verbatim(lines, i, j - 1) + lines[j - 1].push('\n')
    } else {
        Seq::empty()
    }
}

/// The tokens of the lines from `i` on, closed by the end marker, or the
/// first error. A fence opens a code block that runs to the next fence.
pub open spec fn lex_from(lines: Seq<Seq<char>>, i: int) -> Result<Seq<TokenView>, ParseErrorView>
    decreases lines.len() - i,
{
    if i < 0 || i >= lines.len() {
        Ok(seq![TokenView::EOF])
    } else {
        match classify(lines[i]) {
            LineClass::Malformed => Err(
                ParseErrorView::MalformedHeadingMarker { line: (i + 1) as nat },
            ),
            LineClass::Blank => lex_from(lines, i + 1),
            LineClass::Block(t) => prepend(seq![t], lex_from(lines, i + 1)),
            LineClass::Fence => {
                let j = closing_fence(lines, i + 1);
                if i < j < lines.len() {
                    prepend(
                        seq![TokenView::Codeblock(verbatim(lines, i + 1, j))],
                        lex_from(lines, j + 1),
                    )
                } else {
                    Err(ParseErrorView::UnterminatedCodeblock)
                }
            },
        }
    }
}

/// The tokens of a whole input text, or the first error in it.
pub open spec fn lex(input: Seq<char>) -> Result<Seq<TokenView>, ParseErrorView> {
    lex_from(split_lines(input), 0)
}

/// The values of a sequence of lines.
pub open spec fn line_views(lines: Seq<Vec<char>>) -> Seq<Seq<char>> {
    lines.map_values(|l: Vec<char>| l@)
}

/// The value of what `tokenize` returns.
pub open spec fn lexed_view(r: Result<Vec<Token>, ParseError>) -> Result<
    Seq<TokenView>,
    ParseErrorView,
> {
    match r {
        Ok(ts) => Ok(token_views(ts@)),
        Err(e) => Err(e@),
    }
}

proof fn lemma_find_char_suffix(s: Seq<char>, c: char, start: int, i: int)
    requires
        0 <= start <= i <= s.len(),
    ensures
        find_char(s.subrange(start, s.len() as int), c, i - start) == find_char(s, c, i) - start,
    decreases s.len() - i,
{
    let t = s.subrange(start, s.len() as int);
    if i < s.len() {
        assert(t[i - start] == s[i]);
        if s[i] != c {
            lemma_find_char_suffix(s, c, start, i + 1);
        }
    }
}

/// A line becomes a list line only with a depth of one or more.
pub proof fn lemma_classified_depth(line: Seq<char>)
    ensures
        classify(line) matches LineClass::Block(TokenView::List { depth, .. }) ==> depth >= 1,
{
}

/// Every list line among the tokens of the lines from `i` on has a depth
/// of one or more.
pub proof fn lemma_lexed_depths_from(lines: Seq<Seq<char>>, i: int)
    requires
        lex_from(lines, i) is Ok,
    ensures
        depths_positive(lex_from(lines, i)->Ok_0),
    decreases lines.len() - i,
{
    let toks = lex_from(lines, i)->Ok_0;
    if 0 <= i < lines.len() {
        lemma_classified_depth(lines[i]);
        match classify(lines[i]) {
            LineClass::Malformed => {},
            LineClass::Blank => {
                lemma_lexed_depths_from(lines, i + 1);
            },
            LineClass::Block(t) => {
                lemma_lexed_depths_from(lines, i + 1);
                let rest = lex_from(lines, i + 1)->Ok_0;
                assert(toks == seq![t] + rest);
                assert forall|k: int| 0 <= k < toks.len() implies !(#[trigger] toks[k] is List)
                    || toks[k]->List_depth >= 1 by {
                    if k > 0 {
                        assert(toks[k] == rest[k - 1]);
                    }
                }
            },
            LineClass::Fence => {
                let j = closing_fence(lines, i + 1);
                lemma_lexed_depths_from(lines, j + 1);
                let rest = lex_from(lines, j + 1)->Ok_0;
                let code = TokenView::Codeblock(verbatim(lines, i + 1, j));
                assert(toks == seq![code] + rest);
                assert forall|k: int| 0 <= k < toks.len() implies !(#[trigger] toks[k] is List)
                    || toks[k]->List_depth >= 1 by {
                    if k > 0 {
                        assert(toks[k] == rest[k - 1]);
                    }
                }
            },
        }
    }
}

/// Every list line that lexing returns has a depth of one or more: what
/// the lexer returns, the parser takes.
pub proof fn lemma_lexed_depths(input: Seq<char>)
    requires
        lex(input) is Ok,
    ensures
        depths_positive(lex(input)->Ok_0),
{
    lemma_lexed_depths_from(split_lines(input), 0);
}

/// The tokens of a text end with the end marker, and the marker stands
/// nowhere else among them.
pub proof fn lemma_lexed_ends_with_marker(lines: Seq<Seq<char>>, i: int)
    requires
        lex_from(lines, i) is Ok,
    ensures
        ends_with_marker(lex_from(lines, i)->Ok_0),
    decreases lines.len() - i,
{
    let toks = lex_from(lines, i)->Ok_0;
    if 0 <= i < lines.len() {
        match classify(lines[i]) {
            LineClass::Malformed => {},
            LineClass::Blank => {
                lemma_lexed_ends_with_marker(lines, i + 1);
            },
            LineClass::Block(t) => {
                lemma_lexed_ends_with_marker(lines, i + 1);
                let rest = lex_from(lines, i + 1)->Ok_0;
                assert(toks == seq![t] + rest);
                assert forall|k: int| 0 <= k < toks.len() implies ((#[trigger] toks[k]) is EOF
                    <==> k == toks.len() - 1) by {
                    if k > 0 {
                        assert(toks[k] == rest[k - 1]);
                    }
                }
            },
            LineClass::Fence => {
                let j = closing_fence(lines, i + 1);
                lemma_lexed_ends_with_marker(lines, j + 1);
                let rest = lex_from(lines, j + 1)->Ok_0;
                let code = TokenView::Codeblock(verbatim(lines, i + 1, j));
                assert(toks == seq![code] + rest);
                assert forall|k: int| 0 <= k < toks.len() implies ((#[trigger] toks[k]) is EOF
                    <==> k == toks.len() - 1) by {
                    if k > 0 {
                        assert(toks[k] == rest[k - 1]);
                    }
                }
            },
        }
    }
}

/// Copies `v[from..to]`.
pub fn slice(v: &Vec<char>, from: usize, to: usize) -> (r: Vec<char>)
    requires
        from <= to <= v.len(),
    ensures
        r@ == v@.subrange(from as int, to as int),
{
    let mut r: Vec<char> = Vec::new();
    let mut i: usize = from;
    while i < to
        invariant
            from <= i <= to <= v.len(),
            r@ == v@.subrange(from as int, i as int),
        decreases to - i,
    {
        r.push(v[i]);
        i += 1;
        assert(r@ =~= v@.subrange(from as int, i as int));
    }
    r
}

/// Splits a text into its lines.
pub fn lines_of(v: &Vec<char>) -> (lines: Vec<Vec<char>>)
    ensures
        line_views(lines@) == split_lines(v@),
{
    let len: usize = v.len();
    let mut lines: Vec<Vec<char>> = Vec::new();
    let mut start: usize = 0;
    assert(v@.subrange(0, len as int) =~= v@);
    assert(line_views(lines@) =~= Seq::<Seq<char>>::empty());
    while start < len
        invariant
            start <= len == v.len(),
            split_lines(v@) == line_views(lines@) + split_lines(
                v@.subrange(start as int, len as int),
            ),
        decreases len - start,
    {
        let ghost rest = v@.subrange(start as int, len as int);
        let ghost before = line_views(lines@);
        let n: usize = find(v, '\n', start);
        proof {
            lemma_find_char_suffix(v@, '\n', start as int, start as int);
            lemma_find_char_bounds(v@, '\n', start as int);
        }
        if n < len {
            let end: usize = if n > start && v[n - 1] == '\r' {
                n - 1
            } else {
                n
            };
            let line = slice(v, start, end);
            proof {
                let whole = rest.subrange(0, n - start);
                assert(whole =~= v@.subrange(start as int, n as int));
                assert(line@ =~= strip_cr(whole));
                assert(rest.subrange(n - start + 1, rest.len() as int) =~= v@.subrange(
                    n + 1,
                    len as int,
                ));
            }
            lines.push(line);
            start = n + 1;
            proof {
                assert(line_views(lines@) =~= before + seq![line@]);
                assert(split_lines(v@) =~= line_views(lines@) + split_lines(
                    v@.subrange(start as int, len as int),
                ));
            }
        } else {
            let line = slice(v, start, len);
            lines.push(line);
            start = len;
            proof {
                assert(line_views(lines@) =~= before + seq![line@]);
                assert(split_lines(v@.subrange(len as int, len as int)) =~= Seq::<
                    Seq<char>,
                >::empty());
                assert(split_lines(v@) =~= line_views(lines@) + split_lines(
                    v@.subrange(start as int, len as int),
                ));
            }
        }
    }
    proof {
        assert(split_lines(v@.subrange(len as int, len as int)) =~= Seq::<Seq<char>>::empty());
        assert(split_lines(v@) =~= line_views(lines@));
    }
    lines
}

/// Turns a text into block tokens.
pub struct Lexer {
    input: String,
}

impl View for Lexer {
    type V = Seq<char>;

    closed spec fn view(&self) -> Seq<char> {
        self.input@
    }
}

impl Lexer {
    /// A lexer for `input`.
    pub fn new(input: String) -> (lexer: Lexer)
        ensures
            lexer@ == input@,
    {
        Lexer { input }
    }

    /// The tokens of the input, closed by the end marker. The first line
    /// that is a malformed heading, or a code block that is never closed,
    /// makes the whole call fail.
    pub fn tokenize(&self) -> (r: Result<Vec<Token>, ParseError>)
        ensures
            lexed_view(r) == lex(self@),
    {
        let text = to_chars(self.input.as_str());
        let lines = lines_of(&text);
        let ghost ls = line_views(lines@);
        let count: usize = lines.len();
        let mut tokens: Vec<Token> = Vec::new();
        let mut i: usize = 0;
        assert(token_views(tokens@) =~= Seq::<TokenView>::empty());
        proof {
            lemma_prepend_nothing(lex_from(ls, 0));
        }
        while i < count
            invariant
                i <= count == lines.len(),
                ls == line_views(lines@),
                ls == split_lines(self@),
                lex_from(ls, 0) == prepend(token_views(tokens@), lex_from(ls, i as int)),
            decreases count - i,
        {
            let ghost before = token_views(tokens@);
            assert(ls[i as int] == lines@[i as int]@);
            match classify_line(&lines[i]) {
                Line::Malformed => {
                    return Err(ParseError::MalformedHeadingMarker { line: i + 1 });
                },
                Line::Blank => {
                    i += 1;
                },
                Line::Block(t) => {
                    tokens.push(t);
                    proof {
                        assert(token_views(tokens@) =~= before + seq![t@]);
                        lemma_prepend_assoc(before, seq![t@], lex_from(ls, i + 1));
                    }
                    i += 1;
                },
                Line::Fence => {
                    let mut code = String::new();
                    let mut j: usize = i + 1;
                    assert(code@ =~= verbatim(ls, i + 1, j as int));
                    while j < count && !is_fence(&lines[j])
                        invariant
                            i < j <= count == lines.len(),
                            ls == line_views(lines@),
                            closing_fence(ls, i + 1) == closing_fence(ls, j as int),
                            code@ == verbatim(ls, i + 1, j as int),
                        decreases count - j,
                    {
                        assert(ls[j as int] == lines@[j as int]@);
                        let line = &lines[j];
                        let ghost start = code@;
                        let mut k: usize = 0;
                        while k < line.len()
                            invariant
                                k <= line.len(),
                                code@ == start + line@.take(k as int),
                            decreases line.len() - k,
                        {
                            code.push(line[k]);
                            k += 1;
                            assert(code@ =~= start + line@.take(k as int));
                        }
                        code.push('\n');
                        j += 1;
                        proof {
                            assert(line@.take(line@.len() as int) =~= line@);
                            assert(code@ =~= start + line@.push('\n'));
                        }
                    }
                    proof {
                        if j < count {
                            assert(ls[j as int] == lines@[j as int]@);
                        }
                    }
                    if j >= count {
                        return Err(ParseError::UnterminatedCodeblock);
                    }
                    let token = Token::Codeblock(code);
                    tokens.push(token);
                    proof {
                        assert(token_views(tokens@) =~= before + seq![token@]);
                        lemma_prepend_assoc(before, seq![token@], lex_from(ls, j + 1));
                    }
                    i = j + 1;
                },
            }
        }
        let ghost before = token_views(tokens@);
        tokens.push(Token::EOF);
        assert(token_views(tokens@) =~= before + seq![TokenView::EOF]);
        Ok(tokens)
    }
}

} // verus!
