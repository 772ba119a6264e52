//! Characters and runs of characters: whitespace, searching, trimming.
use vstd::prelude::*;

verus! {

/// `String::push` appends one character to the end of the string.
pub assume_specification[ String::push ](s: &mut String, ch: char)
    ensures
        final(s)@ == old(s)@.push(ch),
;

/// The code points that carry the Unicode `White_Space` property.
pub open spec fn is_space(c: char) -> bool {
    let n = c as u32;
    (0x09 <= n && n <= 0x0D) || n == 0x20 || n == 0x85 || n == 0xA0 || n == 0x1680 || (0x2000 <= n
        && n <= 0x200A) || n == 0x2028 || n == 0x2029 || n == 0x202F || n == 0x205F || n == 0x3000
}

/// Index of the first character at or after `i` that differs from `c`; the
/// length of `s` when every character from `i` on equals `c`.
pub open spec fn skip_char(s: Seq<char>, c: char, i: int) -> int
    decreases s.len() - i,
{
    if 0 <= i < s.len() && s[i] == c {
        skip_char(s, c, i + 1)
    } else {
        i
    }
}

/// Index of the first occurrence of `c` at or after `i`; the length of `s`
/// when there is none.
pub open spec fn find_char(s: Seq<char>, c: char, i: int) -> int
    decreases s.len() - i,
{
    if 0 <= i < s.len() && s[i] != c {
        find_char(s, c, i + 1)
    } else {
        i
    }
}

/// Index of the first character at or after `i` that is not whitespace.
pub open spec fn skip_space(s: Seq<char>, i: int) -> int
    decreases s.len() - i,
{
    if 0 <= i < s.len() && is_space(s[i]) {
        skip_space(s, i + 1)
    } else {
        i
    }
}

/// End of the part of `s[..j]` that remains once trailing whitespace is cut.
pub open spec fn trim_end(s: Seq<char>, j: int) -> int
    decreases j,
{
    if 0 < j <= s.len() && is_space(s[j - 1]) {
        trim_end(s, j - 1)
    } else {
        j
    }
}

/// `s` without the whitespace at either end.
pub open spec fn trim(s: Seq<char>) -> Seq<char> {
    let a = skip_space(s, 0);
    let b = trim_end(s, s.len() as int);
    if a < b {
        s.subrange(a, b)
    } else {
        Seq::empty()
    }
}

/// True when `s` holds nothing but whitespace.
pub open spec fn is_blank(s: Seq<char>) -> bool {
    skip_space(s, 0) == s.len()
}

/// The views of a sequence of strings.
pub open spec fn string_views(v: Seq<String>) -> Seq<Seq<char>> {
    v.map_values(|s: String| s@)
}

/// `find_char` stops at the first `c` from `i` on, or at the end.
pub proof fn lemma_find_char_bounds(s: Seq<char>, c: char, i: int)
    requires
        0 <= i <= s.len(),
    ensures
        i <= find_char(s, c, i) <= s.len(),
        forall|k: int| i <= k < find_char(s, c, i) ==> s[k] != c,
        find_char(s, c, i) < s.len() ==> s[find_char(s, c, i)] == c,
    decreases s.len() - i,
{
    if i < s.len() && s[i] != c {
        lemma_find_char_bounds(s, c, i + 1);
    }
}

/// Tells whether `c` is a whitespace character.
pub fn is_whitespace(c: char) -> (b: bool)
    ensures
        b == is_space(c),
{
    let n: u32 = c as u32;
    (0x09 <= n && n <= 0x0D) || n == 0x20 || n == 0x85 || n == 0xA0 || n == 0x1680 || (0x2000 <= n
        && n <= 0x200A) || n == 0x2028 || n == 0x2029 || n == 0x202F || n == 0x205F || n == 0x3000
}

/// Copies the characters of `s` into a vector.
pub fn to_chars(s: &str) -> (v: Vec<char>)
    ensures
        v@ == s@,
{
    let mut v: Vec<char> = Vec::new();
    for c in it: s.chars()
        invariant
            it.seq() == s@,
            v@ == s@.take(it.index() as int),
    {
        v.push(c);
    }
    assert(s@.take(s@.len() as int) == s@);
    v
}

/// Builds a string from the characters `v[from..to]`.
pub fn substring(v: &Vec<char>, from: usize, to: usize) -> (s: String)
    requires
        from <= to <= v.len(),
    ensures
        s@ == v@.subrange(from as int, to as int),
{
    let mut s = String::new();
    let mut i: usize = from;
    while i < to
        invariant
            from <= i <= to <= v.len(),
            s@ == v@.subrange(from as int, i as int),
        decreases to - i,
    {
        s.push(v[i]);
        i += 1;
        assert(s@ == v@.subrange(from as int, i as int));
    }
    s
}

/// First index at or after `i` whose character differs from `c`.
pub fn skip_chars(v: &Vec<char>, c: char, i: usize) -> (j: usize)
    requires
        i <= v.len(),
    ensures
        j == skip_char(v@, c, i as int),
        i <= j <= v.len(),
{
    let mut j: usize = i;
    while j < v.len() && v[j] == c
        invariant
            i <= j <= v.len(),
            skip_char(v@, c, i as int) == skip_char(v@, c, j as int),
        decreases v.len() - j,
    {
        j += 1;
    }
    j
}

/// First index at or after `i` that holds `c`, or the length of `v`.
pub fn find(v: &Vec<char>, c: char, i: usize) -> (j: usize)
    requires
        i <= v.len(),
    ensures
        j == find_char(v@, c, i as int),
        i <= j <= v.len(),
{
    let mut j: usize = i;
    while j < v.len() && v[j] != c
        invariant
            i <= j <= v.len(),
            find_char(v@, c, i as int) == find_char(v@, c, j as int),
        decreases v.len() - j,
    {
        j += 1;
    }
    j
}

/// First index at or after `i` that holds no whitespace, or the length of `v`.
pub fn skip_spaces(v: &Vec<char>, i: usize) -> (j: usize)
    requires
        i <= v.len(),
    ensures
        j == skip_space(v@, i as int),
        i <= j <= v.len(),
{
    let mut j: usize = i;
    while j < v.len() && is_whitespace(v[j])
        invariant
            i <= j <= v.len(),
            skip_space(v@, i as int) == skip_space(v@, j as int),
        decreases v.len() - j,
    {
        j += 1;
    }
    j
}

/// The characters `v[i..j]` without the whitespace at either end.
pub fn trimmed(v: &Vec<char>, i: usize, j: usize) -> (s: String)
    requires
        i <= j <= v.len(),
    ensures
        s@ == trim(v@.subrange(i as int, j as int)),
{
    let ghost t = v@.subrange(i as int, j as int);
    let mut b: usize = j;
    while b > i && is_whitespace(v[b - 1])
        invariant
            i <= b <= j <= v.len(),
            t == v@.subrange(i as int, j as int),
            trim_end(t, t.len() as int) == trim_end(t, b - i),
        decreases b,
    {
        assert(t[b - 1 - i] == v@[b - 1]);
        b -= 1;
    }
    let mut a: usize = i;
    while a < j && is_whitespace(v[a])
        invariant
            i <= a <= j <= v.len(),
            t == v@.subrange(i as int, j as int),
            skip_space(t, 0) == skip_space(t, a - i),
        decreases j - a,
    {
        assert(t[a - i] == v@[a as int]);
        a += 1;
    }
    proof {
        if a < j {
            assert(t[a - i] == v@[a as int]);
        }
        if b > i {
            assert(t[b - 1 - i] == v@[b - 1]);
        }
    }
    if a < b {
        let s = substring(v, a, b);
        assert(s@ =~= t.subrange(a - i, b - i));
        s
    } else {
        String::new()
    }
}

} // verus!
