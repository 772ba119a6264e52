//! Tags, and counting them in a text.
use vstd::prelude::*;

verus! {

/// The opening tag of the element `name`.
pub open spec fn tag(name: Seq<char>) -> Seq<char> {
    seq!['<'] + name + seq!['>']
}

/// The closing tag of the element `name`.
pub open spec fn end_tag(name: Seq<char>) -> Seq<char> {
    seq!['<', '/'] + name + seq!['>']
}

/// The opening tag of the element `name` with the attributes `attrs`.
pub open spec fn tag_with(name: Seq<char>, attrs: Seq<char>) -> Seq<char> {
    seq!['<'] + name + seq![' '] + attrs + seq!['>']
}

/// The element `name` around `body`.
pub open spec fn element(name: Seq<char>, body: Seq<char>) -> Seq<char> {
    tag(name) + body + end_tag(name)
}

/// True of a name that can stand in a tag: it is not empty and holds
/// neither `<`, `>`, `/`, `"` nor a space.
pub open spec fn plain(name: Seq<char>) -> bool {
    &&& name.len() > 0
    &&& forall|i: int|
        0 <= i < name.len() ==> name[i] != '<' && name[i] != '>' && name[i] != '/' && name[i]
            != '"' && name[i] != ' '
}

/// True of a text without `<`.
pub open spec fn clean(s: Seq<char>) -> bool {
    forall|i: int| 0 <= i < s.len() ==> s[i] != '<'
}

/// True where no opening tag of `p` can begin in `a` and go on behind it:
/// `a` is empty, or its last character is neither `<` nor one of `p`.
pub open spec fn sealed(a: Seq<char>, p: Seq<char>) -> bool {
    a.len() == 0 || (a.last() != '<' && forall|i: int| 0 <= i < p.len() ==> p[i] != a.last())
}

/// True where no opening tag of `p` that began before `b` can go on into
/// it: `b` is empty, or its first character is neither `>` nor one of `p`.
pub open spec fn breaks(b: Seq<char>, p: Seq<char>) -> bool {
    b.len() == 0 || (b[0] != '>' && forall|i: int| 0 <= i < p.len() ==> p[i] != b[0])
}

/// True of a text that is empty or runs from a `<` to a `>`.
pub open spec fn marked(s: Seq<char>) -> bool {
    s.len() == 0 || (s[0] == '<' && s.last() == '>')
}

/// True where `s` begins with `pat`.
pub open spec fn starts_with(s: Seq<char>, pat: Seq<char>) -> bool {
    pat.len() <= s.len() && forall|i: int| 0 <= i < pat.len() ==> s[i] == pat[i]
}

/// The number of places in `s` at which `pat` stands.
pub open spec fn occurrences(s: Seq<char>, pat: Seq<char>) -> nat
    decreases s.len(),
{
    if s.len() == 0 {
        0
    } else {
        occurrences(s.skip(1), pat) + if starts_with(s, pat) {
            1nat
        } else {
            0nat
        }
    }
}

/// One where the two names are the same, zero where they differ.
pub open spec fn named(name: Seq<char>, p: Seq<char>) -> nat {
    if name == p {
        1
    } else {
        0
    }
}

/// Two texts without `<` make one without `<`.
pub proof fn lemma_clean_concat(a: Seq<char>, b: Seq<char>)
    requires
        clean(a),
        clean(b),
    ensures
        clean(a + b),
{
}

/// A text that runs from `<` to `>` lets no tag of a plain name cross
/// either of its ends.
pub proof fn lemma_marked(s: Seq<char>, p: Seq<char>)
    requires
        plain(p),
        marked(s),
    ensures
        sealed(s, p),
        breaks(s, p),
{
}

/// A text without `<` holds no tag.
pub proof fn lemma_clean_holds_no_tag(s: Seq<char>, p: Seq<char>)
    requires
        clean(s),
    ensures
        occurrences(s, tag(p)) == 0,
    decreases s.len(),
{
    if s.len() > 0 {
        assert(tag(p)[0] == '<');
        assert(s[0] != '<');
        assert forall|i: int| 0 <= i < s.skip(1).len() implies s.skip(1)[i] != '<' by {
            assert(s.skip(1)[i] == s[i + 1]);
        }
        lemma_clean_holds_no_tag(s.skip(1), p);
    }
}

/// Where no tag can cross from `a` into `b`, the two together hold the tags
/// of `a` and those of `b`.
pub proof fn lemma_occurrences_concat(a: Seq<char>, b: Seq<char>, p: Seq<char>)
    requires
        plain(p),
        sealed(a, p) || breaks(b, p),
    ensures
        occurrences(a + b, tag(p)) == occurrences(a, tag(p)) + occurrences(b, tag(p)),
    decreases a.len(),
{
    let pat = tag(p);
    if a.len() == 0 {
        assert(a + b =~= b);
    } else {
        let s = a + b;
        let rest = a.skip(1);
        let n = a.len() as int;
        assert(s.skip(1) =~= rest + b);
        assert(sealed(rest, p) || breaks(b, p)) by {
            if rest.len() > 0 {
                assert(rest.last() == a.last());
            }
        }
        lemma_occurrences_concat(rest, b, p);
        assert(pat.len() == p.len() + 2);
        if starts_with(s, pat) && pat.len() > n {
            // The tag would cross the seam.
            assert(s[n - 1] == pat[n - 1]);
            assert(s[n] == pat[n]);
            assert(s[n - 1] == a.last());
            assert(s[n] == b[0]);
            if n - 1 > 0 {
                assert(pat[n - 1] == p[n - 2]);
            }
            if n < pat.len() - 1 {
                assert(pat[n] == p[n - 1]);
            }
            assert(false);
        }
        if starts_with(s, pat) {
            assert(starts_with(a, pat)) by {
                assert forall|i: int| 0 <= i < pat.len() implies a[i] == pat[i] by {
                    assert(s[i] == pat[i]);
                }
            }
        }
        if starts_with(a, pat) {
            assert(starts_with(s, pat)) by {
                assert forall|i: int| 0 <= i < pat.len() implies s[i] == pat[i] by {
                    assert(a[i] == pat[i]);
                }
            }
        }
    }
}

/// A text whose only `<` is its first character holds a tag only at its
/// start.
pub proof fn lemma_occurrences_piece(s: Seq<char>, p: Seq<char>)
    requires
        s.len() > 0,
        clean(s.skip(1)),
    ensures
        occurrences(s, tag(p)) == if starts_with(s, tag(p)) {
            1nat
        } else {
            0nat
        },
{
    lemma_clean_holds_no_tag(s.skip(1), p);
}

/// An opening tag holds itself and no other opening tag.
pub proof fn lemma_tag_in_tag(name: Seq<char>, p: Seq<char>)
    requires
        plain(name),
        plain(p),
    ensures
        occurrences(tag(name), tag(p)) == named(name, p),
        marked(tag(name)),
{
    let s = tag(name);
    let pat = tag(p);
    assert(s.len() == name.len() + 2);
    assert(pat.len() == p.len() + 2);
    assert forall|i: int| 0 <= i < s.skip(1).len() implies s.skip(1)[i] != '<' by {
        assert(s.skip(1)[i] == s[i + 1]);
        if i < name.len() {
            assert(s[i + 1] == name[i]);
        }
    }
    lemma_occurrences_piece(s, p);
    if starts_with(s, pat) {
        let m = p.len() as int;
        if m < name.len() {
            assert(s[m + 1] == pat[m + 1]);
            assert(s[m + 1] == name[m]);
        }
        assert(p.len() == name.len());
        assert forall|i: int| 0 <= i < p.len() implies name[i] == p[i] by {
            assert(s[i + 1] == pat[i + 1]);
            assert(s[i + 1] == name[i]);
            assert(pat[i + 1] == p[i]);
        }
        assert(name =~= p);
    }
    if name == p {
        assert(s == pat);
    }
    assert(s[s.len() - 1] == '>');
}

/// A closing tag holds no opening tag.
pub proof fn lemma_tag_in_end_tag(name: Seq<char>, p: Seq<char>)
    requires
        plain(name),
        plain(p),
    ensures
        occurrences(end_tag(name), tag(p)) == 0,
        marked(end_tag(name)),
{
    let s = end_tag(name);
    let pat = tag(p);
    assert(s.len() == name.len() + 3);
    assert forall|i: int| 0 <= i < s.skip(1).len() implies s.skip(1)[i] != '<' by {
        assert(s.skip(1)[i] == s[i + 1]);
        if 1 <= i <= name.len() {
            assert(s[i + 1] == name[i - 1]);
        }
    }
    lemma_occurrences_piece(s, p);
    if starts_with(s, pat) {
        assert(s[1] == pat[1]);
        assert(s[1] == '/');
        assert(pat[1] == p[0]);
    }
    assert(s[s.len() - 1] == '>');
}

/// The start of an opening tag with attributes, up to some point in the
/// attributes, holds no opening tag without attributes.
pub proof fn lemma_tag_in_tag_start(name: Seq<char>, attrs: Seq<char>, p: Seq<char>)
    requires
        plain(name),
        plain(p),
        clean(attrs),
    ensures
        occurrences(seq!['<'] + name + seq![' '] + attrs, tag(p)) == 0,
{
    let s = seq!['<'] + name + seq![' '] + attrs;
    let pat = tag(p);
    let n = name.len() as int;
    assert(s.len() == n + attrs.len() + 2);
    assert forall|i: int| 0 <= i < s.len() implies s[i] == if i == 0 {
        '<'
    } else if i <= n {
        name[i - 1]
    } else if i == n + 1 {
        ' '
    } else {
        attrs[i - n - 2]
    } by {}
    assert forall|i: int| 0 <= i < s.skip(1).len() implies s.skip(1)[i] != '<' by {
        assert(s.skip(1)[i] == s[i + 1]);
    }
    lemma_occurrences_piece(s, p);
    if starts_with(s, pat) {
        let m = p.len() as int;
        if m < n {
            assert(s[m + 1] == pat[m + 1]);
        } else if m == n {
            assert(s[n + 1] == pat[n + 1]);
        } else {
            assert(s[n + 1] == pat[n + 1]);
            assert(pat[n + 1] == p[n]);
        }
    }
}

/// An opening tag with attributes that hold no `<` holds no opening tag
/// without attributes.
pub proof fn lemma_tag_in_tag_with(name: Seq<char>, attrs: Seq<char>, p: Seq<char>)
    requires
        plain(name),
        plain(p),
        clean(attrs),
    ensures
        occurrences(tag_with(name, attrs), tag(p)) == 0,
        marked(tag_with(name, attrs)),
{
    let close = seq!['>'];
    lemma_clean_concat(attrs, close);
    lemma_tag_in_tag_start(name, attrs + close, p);
    assert(tag_with(name, attrs) =~= seq!['<'] + name + seq![' '] + (attrs + close));
    let s = tag_with(name, attrs);
    assert(s[0] == '<');
    assert(s[s.len() - 1] == '>');
}

/// An element holds its own opening tag and the tags of its body, whatever
/// the body is.
pub proof fn lemma_tags_in_element(name: Seq<char>, body: Seq<char>, p: Seq<char>)
    requires
        plain(name),
        plain(p),
    ensures
        occurrences(element(name, body), tag(p)) == named(name, p) + occurrences(body, tag(p)),
        marked(element(name, body)),
{
    lemma_tag_in_tag(name, p);
    lemma_tag_in_end_tag(name, p);
    lemma_marked(tag(name), p);
    lemma_marked(end_tag(name), p);
    lemma_occurrences_concat(tag(name), body, p);
    lemma_occurrences_concat(tag(name) + body, end_tag(name), p);
    let s = element(name, body);
    assert(s[0] == tag(name)[0]);
    assert(s.last() == end_tag(name).last());
}

} // verus!
