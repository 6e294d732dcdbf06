//! HTML escaping of raw text.
//!
//! Code-block content and inline-formatted text are passed through
//! [`html_escape`] so that the five HTML-special characters `&`, `<`, `>`,
//! `"` and `'` never reach the output unescaped.

use vstd::prelude::*;
use vstd::string::StringExecFns;
use crate::text::{push_char, text_chars};

verus! {

/// What one character of raw text becomes in escaped HTML output.
pub open spec fn escape_char(c: char) -> Seq<char> {
    if c == '&' {
        "&amp;"@
    } else if c == '<' {
        "&lt;"@
    } else if c == '>' {
        "&gt;"@
    } else if c == '"' {
        "&quot;"@
    } else if c == '\'' {
        "&#x27;"@
    } else {
        seq![c]
    }
}

/// The HTML escaping of a whole text: each character replaced independently.
pub open spec fn escape_text(s: Seq<char>) -> Seq<char>
    decreases s.len(),
{
    if s.len() == 0 {
        Seq::empty()
    } else {
        escape_char(s[0]) + escape_text(s.drop_first())
    }
}

/// Escaping a text one character longer appends that character's escape.
pub proof fn lemma_escape_push(s: Seq<char>, c: char)
    ensures
        escape_text(s.push(c)) == escape_text(s) + escape_char(c),
    decreases s.len(),
{
    assert(s.push(c)[0] == if s.len() == 0 { c } else { s[0] });
    if s.len() == 0 {
        assert(s.push(c).drop_first() =~= Seq::<char>::empty());
        assert(escape_text(s.push(c)) == escape_char(c) + escape_text(Seq::<char>::empty()));
        assert(escape_char(c) + Seq::<char>::empty() =~= escape_char(c));
        assert(escape_text(s) + escape_char(c) =~= escape_char(c));
    } else {
        assert(s.push(c).drop_first() =~= s.drop_first().push(c));
        lemma_escape_push(s.drop_first(), c);
        assert(escape_text(s.push(c)) == escape_char(s[0]) + (escape_text(s.drop_first())
            + escape_char(c)));
        assert(escape_char(s[0]) + (escape_text(s.drop_first()) + escape_char(c)) =~= (escape_char(
            s[0],
        ) + escape_text(s.drop_first())) + escape_char(c));
    }
}

/// Escapes the characters of a line for literal inclusion in HTML.
pub fn escape_chars(line: &Vec<char>) -> (r: String)
    ensures
        r@ == escape_text(line@),
{
    let mut r = String::new();
    let mut i: usize = 0;
    while i < line.len()
        invariant
            i <= line.len(),
            r@ == escape_text(line@.take(i as int)),
        decreases line.len() - i,
    {
        let c = line[i];
        if c == '&' {
            r.append("&amp;");
        } else if c == '<' {
            r.append("&lt;");
        } else if c == '>' {
            r.append("&gt;");
        } else if c == '"' {
            r.append("&quot;");
        } else if c == '\'' {
            r.append("&#x27;");
        } else {
            push_char(&mut r, c);
        }
        proof {
            lemma_escape_push(line@.take(i as int), line@[i as int]);
            assert(line@.take(i + 1 as int) =~= line@.take(i as int).push(line@[i as int]));
        }
        i = i + 1;
    }
    proof {
        assert(line@.take(line@.len() as int) =~= line@);
    }
    r
}

/// Replaces each of `&`, `<`, `>`, `"` and `'` in `text` with its HTML
/// character reference, leaving every other character unchanged.
pub fn html_escape(text: &str) -> (r: String)
    ensures
        r@ == escape_text(text@),
{
    let chars = text_chars(text);
    escape_chars(&chars)
}

} // verus!
