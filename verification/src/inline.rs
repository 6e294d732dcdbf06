//! Inline formatting of paragraph and list-item text.
//!
//! A line is first HTML-escaped, then rewritten by four passes in a fixed
//! order: code spans, links, bold, italic.  Each pass scans left to right,
//! rewrites the leftmost shortest match and continues after it; unmatched
//! delimiters are left as literal characters.

use vstd::prelude::*;
use vstd::string::StringExecFns;
use crate::escape::{escape_chars, escape_text};
use crate::text::{push_char, text_chars};

verus! {

/// Index of the first occurrence of `c` in `s`, or `s.len()` if absent.
pub open spec fn find_char(s: Seq<char>, c: char) -> int
    decreases s.len(),
{
    if s.len() == 0 {
        0
    } else if s[0] == c {
        0
    } else {
        1 + find_char(s.drop_first(), c)
    }
}

/// Index of the first `**` pair in `s`, or `s.len()` if absent.
pub open spec fn find_pair(s: Seq<char>) -> int
    decreases s.len(),
{
    if s.len() < 2 {
        s.len() as int
    } else if s[0] == '*' && s[1] == '*' {
        0
    } else {
        1 + find_pair(s.drop_first())
    }
}

/// `find_char` returns exactly the position characterized by "no earlier
/// occurrence, and an occurrence there unless past the end".
pub proof fn lemma_find_char_is(s: Seq<char>, c: char, m: int)
    requires
        0 <= m <= s.len(),
        m == s.len() || s[m] == c,
        forall|k: int| 0 <= k < m ==> s[k] != c,
    ensures
        find_char(s, c) == m,
    decreases s.len(),
{
    if s.len() == 0 {
    } else if s[0] == c {
        assert(m == 0);
    } else {
        assert(m >= 1);
        let t = s.drop_first();
        assert(forall|k: int| 0 <= k < m - 1 ==> t[k] == s[k + 1] && t[k] != c);
        assert(m - 1 == t.len() || t[m - 1] == c);
        lemma_find_char_is(t, c, m - 1);
    }
}

/// `find_pair` returns exactly the position characterized by "no earlier
/// pair, and a pair there unless past the end".
pub proof fn lemma_find_pair_is(s: Seq<char>, m: int)
    requires
        0 <= m <= s.len(),
        m == s.len() || (m + 1 < s.len() && s[m] == '*' && s[m + 1] == '*'),
        forall|k: int| 0 <= k < m ==> !(k + 1 < s.len() && #[trigger] s[k] == '*' && s[k + 1] == '*'),
        m == s.len() ==> forall|k: int|
            0 <= k < s.len() ==> !(k + 1 < s.len() && #[trigger] s[k] == '*' && s[k + 1] == '*'),
    ensures
        find_pair(s) == m,
    decreases s.len(),
{
    if s.len() < 2 {
        assert(m == s.len());
    } else if s[0] == '*' && s[1] == '*' {
        assert(m == 0);
    } else {
        assert(m >= 1);
        let t = s.drop_first();
        assert(forall|k: int| 0 <= k < t.len() ==> t[k] == s[k + 1]);
        lemma_find_pair_is(t, m - 1);
    }
}

/// Finds the first occurrence of `c` in `v` at or after `from`; returns
/// `v.len()` when there is none.
pub fn find_char_from(v: &Vec<char>, c: char, from: usize) -> (j: usize)
    requires
        from <= v.len(),
    ensures
        from <= j <= v.len(),
        j - from == find_char(v@.skip(from as int), c),
        j < v.len() ==> v@[j as int] == c,
        forall|k: int| from <= k < j ==> v@[k] != c,
{
    let mut j = from;
    while j < v.len() && v[j] != c
        invariant
            from <= j <= v.len(),
            forall|k: int| from <= k < j ==> v@[k] != c,
        decreases v.len() - j,
    {
        j = j + 1;
    }
    proof {
        let t = v@.skip(from as int);
        assert(forall|k: int| 0 <= k < j - from ==> t[k] == v@[k + from] && t[k] != c);
        assert(j - from == t.len() || t[j - from] == c);
        lemma_find_char_is(t, c, j - from);
    }
    j
}

/// Finds the first `**` pair in `v` at or after `from`; returns `v.len()`
/// when there is none.
pub fn find_pair_from(v: &Vec<char>, from: usize) -> (j: usize)
    requires
        from <= v.len(),
    ensures
        from <= j <= v.len(),
        j - from == find_pair(v@.skip(from as int)),
        j < v.len() ==> j + 1 < v.len() && v@[j as int] == '*' && v@[j + 1] == '*',
{
    if v.len() < 2 {
        proof {
            let t = v@.skip(from as int);
            lemma_find_pair_is(t, t.len() as int);
        }
        return v.len();
    }
    let last = v.len() - 1;
    let mut j = from;
    while j < last && (v[j] != '*' || v[j + 1] != '*')
        invariant
            from <= j <= v.len(),
            last == v.len() - 1,
            j > last ==> j == from,
            forall|k: int| from <= k < j ==> !(#[trigger] v@[k] == '*' && v@[k + 1] == '*'),
        decreases last - j,
    {
        j = j + 1;
    }
    let found = j < last;
    let r = if found {
        j
    } else {
        v.len()
    };
    proof {
        let t = v@.skip(from as int);
        assert(forall|k: int| 0 <= k < t.len() ==> t[k] == v@[k + from]);
        if found {
            assert(forall|k: int|
                0 <= k < r - from ==> !(k + 1 < t.len() && #[trigger] t[k] == '*' && t[k + 1] == '*'));
            lemma_find_pair_is(t, r - from);
        } else {
            assert(forall|k: int|
                0 <= k < t.len() ==> !(k + 1 < t.len() && #[trigger] t[k] == '*' && t[k + 1] == '*'));
            lemma_find_pair_is(t, t.len() as int);
        }
    }
    r
}

/// Appends the characters `v[a..b]` to `r`.
pub fn append_range(r: &mut String, v: &Vec<char>, a: usize, b: usize)
    requires
        a <= b <= v.len(),
    ensures
        final(r)@ == old(r)@ + v@.subrange(a as int, b as int),
{
    let mut i = a;
    while i < b
        invariant
            a <= i <= b <= v.len(),
            r@ == old(r)@ + v@.subrange(a as int, i as int),
        decreases b - i,
    {
        push_char(r, v[i]);
        proof {
            assert(v@.subrange(a as int, i + 1 as int) =~= v@.subrange(a as int, i as int).push(
                v@[i as int],
            ));
            assert(old(r)@ + v@.subrange(a as int, i as int).push(v@[i as int]) =~= (old(r)@
                + v@.subrange(a as int, i as int)) + seq![v@[i as int]]);
        }
        i = i + 1;
    }
    proof {
        if a == b {
            assert(old(r)@ + v@.subrange(a as int, b as int) =~= old(r)@);
        }
    }
}

/// One rewrite pass for a single-character delimiter `d`: the leftmost pair
/// of `d`s enclosing at least one character becomes `open` content `close`,
/// and scanning continues after the closing delimiter; a delimiter without a
/// later partner, or one whose partner is adjacent, stays literal.
pub open spec fn span_pass(s: Seq<char>, d: char, open: Seq<char>, close: Seq<char>) -> Seq<char>
    decreases s.len(),
{
    if s.len() == 0 {
        Seq::empty()
    } else if s[0] == d {
        let j = 1 + find_char(s.skip(1), d);
        if 1 < j && j < s.len() {
            open + s.subrange(1, j) + close + span_pass(s.skip(j + 1), d, open, close)
        } else {
            seq![s[0]] + span_pass(s.drop_first(), d, open, close)
        }
    } else {
        seq![s[0]] + span_pass(s.drop_first(), d, open, close)
    }
}

/// The code-span pass: `` `text` `` becomes `<code>text</code>`.
pub open spec fn code_pass(s: Seq<char>) -> Seq<char> {
    span_pass(s, '`', "<code>"@, "</code>"@)
}

/// The italic pass: `*text*` becomes `<em>text</em>`.
pub open spec fn italic_pass(s: Seq<char>) -> Seq<char> {
    span_pass(s, '*', "<em>"@, "</em>"@)
}

/// The link pass: `[text](url)` becomes `<a href="url">text</a>`.  The text
/// runs to the first `]`, which must be followed at once by `(`; the url
/// runs to the first `)`; both must be nonempty, else the `[` stays literal.
pub open spec fn link_pass(s: Seq<char>) -> Seq<char>
    decreases s.len(),
{
    if s.len() == 0 {
        Seq::empty()
    } else if s[0] == '[' {
        let j = 1 + find_char(s.skip(1), ']');
        if 1 < j && j + 1 < s.len() && s[j + 1] == '(' {
            let k = j + 2 + find_char(s.skip(j + 2), ')');
            if j + 2 < k && k < s.len() {
                "<a href=\""@ + s.subrange(j + 2, k) + "\">"@ + s.subrange(1, j) + "</a>"@
                    + link_pass(s.skip(k + 1))
            } else {
                seq![s[0]] + link_pass(s.drop_first())
            }
        } else {
            seq![s[0]] + link_pass(s.drop_first())
        }
    } else {
        seq![s[0]] + link_pass(s.drop_first())
    }
}

/// The bold pass: `**text**` becomes `<strong>text</strong>`.  The closing
/// pair is the first `**` after at least one character of content.
pub open spec fn bold_pass(s: Seq<char>) -> Seq<char>
    decreases s.len(),
{
    if s.len() == 0 {
        Seq::empty()
    } else if s.len() >= 3 && s[0] == '*' && s[1] == '*' {
        let j = 3 + find_pair(s.skip(3));
        if 3 <= j && j + 1 < s.len() {
            "<strong>"@ + s.subrange(2, j) + "</strong>"@ + bold_pass(s.skip(j + 2))
        } else {
            seq![s[0]] + bold_pass(s.drop_first())
        }
    } else {
        seq![s[0]] + bold_pass(s.drop_first())
    }
}

/// Rewrites single-character delimited spans in `v`, as `span_pass` says.
pub fn span_rewrite(v: &Vec<char>, d: char, open: &str, close: &str) -> (r: String)
    ensures
        r@ == span_pass(v@, d, open@, close@),
{
    let mut r = String::new();
    let mut i: usize = 0;
    proof {
        assert(v@.skip(0) =~= v@);
        assert(Seq::<char>::empty() + span_pass(v@, d, open@, close@) =~= span_pass(
            v@,
            d,
            open@,
            close@,
        ));
    }
    while i < v.len()
        invariant
            i <= v.len(),
            r@ + span_pass(v@.skip(i as int), d, open@, close@) == span_pass(
                v@,
                d,
                open@,
                close@,
            ),
        decreases v.len() - i,
    {
        let ghost s = v@;
        let ghost pre = r@;
        let ghost t = s.skip(i as int);
        let c = v[i];
        if c == d {
            let j = find_char_from(v, d, i + 1);
            if i + 1 < j && j < v.len() {
                r.append(open);
                append_range(&mut r, v, i + 1, j);
                r.append(close);
                proof {
                    assert(t.skip(1) =~= s.skip(i + 1));
                    assert(1 + find_char(t.skip(1), d) == j - i);
                    assert(t.subrange(1, j - i) =~= s.subrange(i + 1, j as int));
                    assert(t.skip(j - i + 1) =~= s.skip(j + 1));
                    assert(span_pass(t, d, open@, close@) == open@ + s.subrange(i + 1, j as int)
                        + close@ + span_pass(s.skip(j + 1), d, open@, close@));
                    assert(r@ + span_pass(s.skip(j + 1), d, open@, close@) =~= pre + span_pass(
                        t,
                        d,
                        open@,
                        close@,
                    ));
                }
                i = j + 1;
            } else {
                push_char(&mut r, c);
                proof {
                    assert(t.drop_first() =~= s.skip(i + 1));
                    assert(1 + find_char(t.skip(1), d) == j - i) by {
                        assert(t.skip(1) =~= s.skip(i + 1));
                    }
                    assert(span_pass(t, d, open@, close@) == seq![t[0]] + span_pass(
                        s.skip(i + 1),
                        d,
                        open@,
                        close@,
                    ));
                    assert(r@ + span_pass(s.skip(i + 1), d, open@, close@) =~= pre + span_pass(
                        t,
                        d,
                        open@,
                        close@,
                    ));
                }
                i = i + 1;
            }
        } else {
            push_char(&mut r, c);
            proof {
                assert(t.drop_first() =~= s.skip(i + 1));
                assert(span_pass(t, d, open@, close@) == seq![t[0]] + span_pass(
                    s.skip(i + 1),
                    d,
                    open@,
                    close@,
                ));
                assert(r@ + span_pass(s.skip(i + 1), d, open@, close@) =~= pre + span_pass(
                    t,
                    d,
                    open@,
                    close@,
                ));
            }
            i = i + 1;
        }
    }
    proof {
        assert(v@.skip(v@.len() as int) =~= Seq::<char>::empty());
        assert(r@ + span_pass(Seq::<char>::empty(), d, open@, close@) =~= r@);
    }
    r
}

/// Rewrites `[text](url)` links in `v`, as `link_pass` says.
#[verifier::rlimit(60)]
pub fn link_rewrite(v: &Vec<char>) -> (r: String)
    ensures
        r@ == link_pass(v@),
{
    let mut r = String::new();
    let mut i: usize = 0;
    proof {
        assert(v@.skip(0) =~= v@);
        assert(Seq::<char>::empty() + link_pass(v@) =~= link_pass(v@));
    }
    while i < v.len()
        invariant
            i <= v.len(),
            r@ + link_pass(v@.skip(i as int)) == link_pass(v@),
        decreases v.len() - i,
    {
        let ghost s = v@;
        let ghost pre = r@;
        let ghost t = s.skip(i as int);
        let c = v[i];
        let mut matched = false;
        if c == '[' {
            let j = find_char_from(v, ']', i + 1);
            proof {
                assert(t.skip(1) =~= s.skip(i + 1));
                assert(1 + find_char(t.skip(1), ']') == j - i);
            }
            if i + 1 < j && j < v.len() - 1 && v[j + 1] == '(' {
                let k = find_char_from(v, ')', j + 2);
                proof {
                    assert(t.skip(j - i + 2) =~= s.skip(j + 2));
                    assert(j - i + 2 + find_char(t.skip(j - i + 2), ')') == k - i);
                }
                if j + 2 < k && k < v.len() {
                    matched = true;
                    r.append("<a href=\"");
                    append_range(&mut r, v, j + 2, k);
                    r.append("\">");
                    append_range(&mut r, v, i + 1, j);
                    r.append("</a>");
                    proof {
                        assert(t.subrange(j - i + 2, k - i) =~= s.subrange(j + 2, k as int));
                        assert(t.subrange(1, j - i) =~= s.subrange(i + 1, j as int));
                        assert(t.skip(k - i + 1) =~= s.skip(k + 1));
                        assert(link_pass(t) == "<a href=\""@ + s.subrange(j + 2, k as int)
                            + "\">"@ + s.subrange(i + 1, j as int) + "</a>"@ + link_pass(
                            s.skip(k + 1),
                        ));
                        assert(r@ + link_pass(s.skip(k + 1)) =~= pre + link_pass(t));
                    }
                    i = k + 1;
                }
            }
        }
        if !matched {
            push_char(&mut r, c);
            proof {
                assert(t.drop_first() =~= s.skip(i + 1));
                assert(link_pass(t) == seq![t[0]] + link_pass(s.skip(i + 1)));
                assert(r@ + link_pass(s.skip(i + 1)) =~= pre + link_pass(t));
            }
            i = i + 1;
        }
    }
    proof {
        assert(v@.skip(v@.len() as int) =~= Seq::<char>::empty());
        assert(r@ + link_pass(Seq::<char>::empty()) =~= r@);
    }
    r
}

/// Rewrites `**text**` spans in `v`, as `bold_pass` says.
pub fn bold_rewrite(v: &Vec<char>) -> (r: String)
    ensures
        r@ == bold_pass(v@),
{
    let mut r = String::new();
    let mut i: usize = 0;
    proof {
        assert(v@.skip(0) =~= v@);
        assert(Seq::<char>::empty() + bold_pass(v@) =~= bold_pass(v@));
    }
    while i < v.len()
        invariant
            i <= v.len(),
            r@ + bold_pass(v@.skip(i as int)) == bold_pass(v@),
        decreases v.len() - i,
    {
        let ghost s = v@;
        let ghost pre = r@;
        let ghost t = s.skip(i as int);
        let c = v[i];
        let mut matched = false;
        if c == '*' && v.len() - i > 2 && v[i + 1] == '*' {
            let j = find_pair_from(v, i + 3);
            proof {
                assert(t.skip(3) =~= s.skip(i + 3));
                assert(3 + find_pair(t.skip(3)) == j - i);
            }
            if j < v.len() - 1 {
                matched = true;
                r.append("<strong>");
                append_range(&mut r, v, i + 2, j);
                r.append("</strong>");
                proof {
                    assert(t.subrange(2, j - i) =~= s.subrange(i + 2, j as int));
                    assert(t.skip(j - i + 2) =~= s.skip(j + 2));
                    assert(bold_pass(t) == "<strong>"@ + s.subrange(i + 2, j as int)
                        + "</strong>"@ + bold_pass(s.skip(j + 2)));
                    assert(r@ + bold_pass(s.skip(j + 2)) =~= pre + bold_pass(t));
                }
                i = j + 2;
            }
        }
        if !matched {
            push_char(&mut r, c);
            proof {
                assert(t.drop_first() =~= s.skip(i + 1));
                if t.len() >= 3 && t[0] == '*' && t[1] == '*' {
                    assert(t.skip(3) =~= s.skip(i + 3));
                }
                assert(bold_pass(t) == seq![t[0]] + bold_pass(s.skip(i + 1)));
                assert(r@ + bold_pass(s.skip(i + 1)) =~= pre + bold_pass(t));
            }
            i = i + 1;
        }
    }
    proof {
        assert(v@.skip(v@.len() as int) =~= Seq::<char>::empty());
        assert(r@ + bold_pass(Seq::<char>::empty()) =~= r@);
    }
    r
}

/// The whole inline-formatting transformation of one line: HTML escaping,
/// then code spans, links, bold and italic, in that order.
pub open spec fn inline_html(s: Seq<char>) -> Seq<char> {
    italic_pass(bold_pass(link_pass(code_pass(escape_text(s)))))
}

/// Formats one line of paragraph or list-item content, given as characters.
pub fn format_inline_chars(line: &Vec<char>) -> (r: String)
    ensures
        r@ == inline_html(line@),
{
    let escaped = escape_chars(line);
    let v0 = text_chars(escaped.as_str());
    let with_code = span_rewrite(&v0, '`', "<code>", "</code>");
    let v1 = text_chars(with_code.as_str());
    let with_links = link_rewrite(&v1);
    let v2 = text_chars(with_links.as_str());
    let with_bold = bold_rewrite(&v2);
    let v3 = text_chars(with_bold.as_str());
    span_rewrite(&v3, '*', "<em>", "</em>")
}

/// Rewrites emphasis, code-span and link markup in one line of text into
/// HTML, escaping the text first.
pub fn process_inline_formatting(text: &str) -> (r: String)
    ensures
        r@ == inline_html(text@),
{
    let chars = text_chars(text);
    format_inline_chars(&chars)
}

/// Compares two string slices character by character.
pub fn str_eq(a: &str, b: &str) -> (r: bool)
    ensures
        r == (a@ == b@),
{
    let va = text_chars(a);
    let vb = text_chars(b);
    if va.len() != vb.len() {
        return false;
    }
    let mut i: usize = 0;
    while i < va.len()
        invariant
            i <= va.len(),
            va.len() == vb.len(),
            va@ == a@,
            vb@ == b@,
            forall|k: int| 0 <= k < i ==> a@[k] == b@[k],
        decreases va.len() - i,
    {
        if va[i] != vb[i] {
            return false;
        }
        i = i + 1;
    }
    proof {
        assert(a@ =~= b@);
    }
    true
}

/// The rewrite that a given pattern and replacement pair selects: the three
/// rules the inline formatter needs are supported, written as the usual
/// regular expressions; any other pair leaves the text unchanged.
pub open spec fn regex_rewrite(t: Seq<char>, p: Seq<char>, rep: Seq<char>) -> Seq<char> {
    if p == "\\*([^*]+)\\*"@ && rep == "<em>$1</em>"@ {
        italic_pass(t)
    } else if p == "`([^`]+)`"@ && rep == "<code>$1</code>"@ {
        code_pass(t)
    } else if p == "\\[([^\\]]+)\\]\\(([^)]+)\\)"@ && rep == "<a href=\"$2\">$1</a>"@ {
        link_pass(t)
    } else {
        t
    }
}

/// Applies the rewrite rule selected by `pattern` and `replacement` to
/// `text`.  The italic, code-span and link rules of the inline formatter are
/// recognized; any other pair returns the text unchanged.
pub fn regex_replace(text: &str, pattern: &str, replacement: &str) -> (r: String)
    ensures
        r@ == regex_rewrite(text@, pattern@, replacement@),
{
    let v = text_chars(text);
    if str_eq(pattern, "\\*([^*]+)\\*") && str_eq(replacement, "<em>$1</em>") {
        span_rewrite(&v, '*', "<em>", "</em>")
    } else if str_eq(pattern, "`([^`]+)`") && str_eq(replacement, "<code>$1</code>") {
        span_rewrite(&v, '`', "<code>", "</code>")
    } else if str_eq(pattern, "\\[([^\\]]+)\\]\\(([^)]+)\\)") && str_eq(
        replacement,
        "<a href=\"$2\">$1</a>",
    ) {
        link_rewrite(&v)
    } else {
        String::from_str(text)
    }
}

} // verus!
