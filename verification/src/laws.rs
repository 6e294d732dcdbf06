//! The library's general guarantees, proved once and for all inputs:
//! escaping safety, list-container structure, balance of the emitted
//! tags, and that plain text passes through the renderer unchanged.

use vstd::prelude::*;
use crate::escape::{escape_char, escape_text};
use crate::inline::{bold_pass, inline_html, link_pass, span_pass};
use crate::render::{
    block_html, classify_line, classify_lines, close_list, doc_blocks, doc_lines, finish_blocks,
    is_blank, is_fence, is_h1, is_h2, is_h3, is_item, render_html, Block, RenderState,
};
use crate::request::has_prefix;

verus! {

/// Escaped text never contains a raw `<`, `>`, `"` or `'`.
pub proof fn lemma_escape_no_specials(s: Seq<char>)
    ensures
        forall|k: int|
            0 <= k < escape_text(s).len() ==> ((#[trigger] escape_text(s)[k]) != '<'
                && escape_text(s)[k] != '>' && escape_text(s)[k] != '"' && escape_text(s)[k]
                != '\''),
    decreases s.len(),
{
    reveal_strlit("&amp;");
    reveal_strlit("&lt;");
    reveal_strlit("&gt;");
    reveal_strlit("&quot;");
    reveal_strlit("&#x27;");
    if s.len() > 0 {
        lemma_escape_no_specials(s.drop_first());
        let e = escape_char(s[0]);
        let rest = escape_text(s.drop_first());
        assert forall|k: int| 0 <= k < escape_text(s).len() implies ((#[trigger] escape_text(
            s,
        )[k]) != '<' && escape_text(s)[k] != '>' && escape_text(s)[k] != '"' && escape_text(s)[k]
            != '\'') by {
            if k < e.len() {
                assert(escape_text(s)[k] == e[k]);
            } else {
                assert(escape_text(s)[k] == rest[k - e.len()]);
            }
        }
    }
}

/// Whether escaped output is well formed: every `&` begins one of the five
/// character references, and `<`, `>`, `"`, `'` never occur raw.
pub open spec fn well_escaped(s: Seq<char>) -> bool
    decreases s.len(),
{
    if s.len() == 0 {
        true
    } else if s[0] == '&' {
        (s.len() >= 5 && has_prefix(s, "&amp;"@) && well_escaped(s.skip(5))) || (s.len() >= 4
            && has_prefix(s, "&lt;"@) && well_escaped(s.skip(4))) || (s.len() >= 4 && has_prefix(
            s,
            "&gt;"@,
        ) && well_escaped(s.skip(4))) || (s.len() >= 6 && has_prefix(s, "&quot;"@)
            && well_escaped(s.skip(6))) || (s.len() >= 6 && has_prefix(s, "&#x27;"@)
            && well_escaped(s.skip(6)))
    } else {
        s[0] != '<' && s[0] != '>' && s[0] != '"' && s[0] != '\'' && well_escaped(s.drop_first())
    }
}

/// HTML escaping always yields well-formed escaped output: code-block
/// content and inline-formatted text contain no unescaped special
/// character.
pub proof fn lemma_escape_well_formed(s: Seq<char>)
    ensures
        well_escaped(escape_text(s)),
    decreases s.len(),
{
    reveal_strlit("&amp;");
    reveal_strlit("&lt;");
    reveal_strlit("&gt;");
    reveal_strlit("&quot;");
    reveal_strlit("&#x27;");
    if s.len() > 0 {
        lemma_escape_well_formed(s.drop_first());
        let es = escape_text(s);
        let e = escape_char(s[0]);
        let rest = escape_text(s.drop_first());
        let c = s[0];
        if c == '&' {
            assert(es.take(5) =~= "&amp;"@);
            assert(es.skip(5) =~= rest);
        } else if c == '<' {
            assert(es.take(4) =~= "&lt;"@);
            assert(es.skip(4) =~= rest);
        } else if c == '>' {
            assert(es.take(4) =~= "&gt;"@);
            assert(es.skip(4) =~= rest);
        } else if c == '"' {
            assert(es.take(6) =~= "&quot;"@);
            assert(es.skip(6) =~= rest);
        } else if c == '\'' {
            assert(es.take(6) =~= "&#x27;"@);
            assert(es.skip(6) =~= rest);
        } else {
            assert(es[0] == c);
            assert(es.drop_first() =~= rest);
        }
    }
}

/// The rendered fragment of one code-block content line never contains a
/// raw `<`, `>`, `"` or `'`: code content cannot open or close a tag.
pub proof fn lemma_code_line_safe(text: Seq<char>)
    ensures
        forall|k: int|
            0 <= k < block_html(Block::CodeLine { text }).len() ==> ((#[trigger] block_html(
                Block::CodeLine { text },
            )[k]) != '<' && block_html(Block::CodeLine { text })[k] != '>' && block_html(
                Block::CodeLine { text },
            )[k] != '"' && block_html(Block::CodeLine { text })[k] != '\''),
{
    reveal_strlit("\n");
    lemma_escape_no_specials(text);
    let es = escape_text(text);
    let frag = block_html(Block::CodeLine { text });
    assert forall|k: int| 0 <= k < frag.len() implies ((#[trigger] frag[k]) != '<' && frag[k]
        != '>' && frag[k] != '"' && frag[k] != '\'') by {
        if k < es.len() {
            assert(frag[k] == es[k]);
        } else {
            assert(frag[k] == "\n"@[k - es.len()]);
        }
    }
}

/// Escaping text that holds none of the five special characters leaves it
/// unchanged.
pub proof fn lemma_escape_plain(s: Seq<char>)
    requires
        forall|k: int|
            0 <= k < s.len() ==> ((#[trigger] s[k]) != '&' && s[k] != '<' && s[k] != '>' && s[k]
                != '"' && s[k] != '\''),
    ensures
        escape_text(s) == s,
    decreases s.len(),
{
    if s.len() > 0 {
        assert(forall|k: int| 0 <= k < s.drop_first().len() ==> (#[trigger] s.drop_first()[k])
            == s[k + 1]);
        lemma_escape_plain(s.drop_first());
        assert(escape_char(s[0]) == seq![s[0]]);
        assert(seq![s[0]] + s.drop_first() =~= s);
    }
}

/// A span pass leaves text without its delimiter unchanged.
pub proof fn lemma_span_plain(s: Seq<char>, d: char, open: Seq<char>, close: Seq<char>)
    requires
        forall|k: int| 0 <= k < s.len() ==> (#[trigger] s[k]) != d,
    ensures
        span_pass(s, d, open, close) == s,
    decreases s.len(),
{
    if s.len() > 0 {
        assert(forall|k: int| 0 <= k < s.drop_first().len() ==> (#[trigger] s.drop_first()[k])
            == s[k + 1]);
        lemma_span_plain(s.drop_first(), d, open, close);
        assert(seq![s[0]] + s.drop_first() =~= s);
    }
}

/// The link pass leaves text without `[` unchanged.
pub proof fn lemma_link_plain(s: Seq<char>)
    requires
        forall|k: int| 0 <= k < s.len() ==> (#[trigger] s[k]) != '[',
    ensures
        link_pass(s) == s,
    decreases s.len(),
{
    if s.len() > 0 {
        assert(forall|k: int| 0 <= k < s.drop_first().len() ==> (#[trigger] s.drop_first()[k])
            == s[k + 1]);
        lemma_link_plain(s.drop_first());
        assert(seq![s[0]] + s.drop_first() =~= s);
    }
}

/// The bold pass leaves text without `*` unchanged.
pub proof fn lemma_bold_plain(s: Seq<char>)
    requires
        forall|k: int| 0 <= k < s.len() ==> (#[trigger] s[k]) != '*',
    ensures
        bold_pass(s) == s,
    decreases s.len(),
{
    if s.len() > 0 {
        assert(forall|k: int| 0 <= k < s.drop_first().len() ==> (#[trigger] s.drop_first()[k])
            == s[k + 1]);
        lemma_bold_plain(s.drop_first());
        assert(seq![s[0]] + s.drop_first() =~= s);
    }
}

/// Plain text: free of markdown delimiters, HTML-special characters and
/// newlines.
pub open spec fn plain_text(s: Seq<char>) -> bool {
    forall|k: int|
        0 <= k < s.len() ==> ((#[trigger] s[k]) != '&' && s[k] != '<' && s[k] != '>' && s[k] != '"'
            && s[k] != '\'' && s[k] != '`' && s[k] != '*' && s[k] != '[' && s[k] != '\n')
}

/// Inline formatting is the identity on plain text.
pub proof fn lemma_inline_plain(s: Seq<char>)
    requires
        plain_text(s),
    ensures
        inline_html(s) == s,
{
    lemma_escape_plain(s);
    lemma_span_plain(s, '`', "<code>"@, "</code>"@);
    lemma_link_plain(s);
    lemma_bold_plain(s);
    lemma_span_plain(s, '*', "<em>"@, "</em>"@);
}

/// Rendering is the identity on a plain-text paragraph: a single line free
/// of markdown syntax and special characters renders to exactly one
/// paragraph element holding that text unchanged, between the fixed header
/// and footer.
pub proof fn lemma_plain_paragraph(doc: Seq<char>)
    requires
        doc.len() > 0,
        plain_text(doc),
        !is_fence(doc),
        !is_h1(doc),
        !is_h2(doc),
        !is_h3(doc),
        !is_item(doc),
        !is_blank(doc),
    ensures
        render_html(doc) == crate::render::header_html() + ("<p>"@ + doc + "</p>\n"@)
            + "</body></html>"@,
{
    crate::inline::lemma_find_char_is(doc, '\n', doc.len() as int);
    assert(doc_lines(doc) == seq![doc]);
    let (bs, st) = classify_lines(RenderState::Normal, seq![doc]);
    reveal_with_fuel(classify_lines, 3);
    assert(seq![doc].drop_first() =~~= Seq::<Seq<char>>::empty());
    let pb = Block::Paragraph { text: doc };
    assert(classify_line(RenderState::Normal, doc).0 =~~= seq![pb]) by {
        assert(close_list(RenderState::Normal) + seq![pb] =~~= seq![pb]);
    }
    assert(bs =~~= seq![pb] + Seq::<Block>::empty());
    assert(seq![pb] + Seq::<Block>::empty() =~~= seq![pb]);
    assert(st is Normal);
    assert(doc_blocks(doc) =~~= seq![pb]);
    crate::render::lemma_blocks_html_one(pb);
    lemma_inline_plain(doc);
}

/// The item block one list line contributes.
pub open spec fn item_block(l: Seq<char>) -> Block {
    Block::Item { text: l.skip(2) }
}

/// From inside a list, a run of list-item lines contributes exactly its
/// items and stays inside the list.
pub proof fn lemma_list_run_items(lines: Seq<Seq<char>>)
    requires
        forall|i: int| 0 <= i < lines.len() ==> is_item(#[trigger] lines[i]),
    ensures
        classify_lines(RenderState::InList, lines).0 == lines.map_values(
            |l: Seq<char>| item_block(l),
        ),
        classify_lines(RenderState::InList, lines).1 == RenderState::InList,
    decreases lines.len(),
{
    if lines.len() == 0 {
        assert(classify_lines(RenderState::InList, lines).0 =~~= lines.map_values(
            |l: Seq<char>| item_block(l),
        ));
    } else {
        let l = lines[0];
        assert(is_item(l));
        assert(classify_line(RenderState::InList, l).0 =~~= seq![item_block(l)]);
        lemma_list_run_items(lines.drop_first());
        assert(lines.map_values(|x: Seq<char>| item_block(x)) =~~= seq![item_block(l)]
            + lines.drop_first().map_values(|x: Seq<char>| item_block(x)));
    }
}

/// A document of `n ≥ 1` list-item lines yields exactly one list
/// container: one opening tag, the `n` items, one closing tag.
pub proof fn lemma_list_container(doc: Seq<char>)
    requires
        doc_lines(doc).len() >= 1,
        forall|i: int| 0 <= i < doc_lines(doc).len() ==> is_item(#[trigger] doc_lines(doc)[i]),
    ensures
        doc_blocks(doc) == seq![Block::ListOpen] + doc_lines(doc).map_values(
            |l: Seq<char>| item_block(l),
        ) + seq![Block::ListClose],
{
    let lines = doc_lines(doc);
    let l = lines[0];
    assert(is_item(l));
    assert(classify_line(RenderState::Normal, l).0 =~~= seq![Block::ListOpen, item_block(l)]);
    lemma_list_run_items(lines.drop_first());
    let items = lines.map_values(|x: Seq<char>| item_block(x));
    assert(items =~~= seq![item_block(l)] + lines.drop_first().map_values(
        |x: Seq<char>| item_block(x),
    ));
    assert(classify_lines(RenderState::Normal, lines).1 == RenderState::InList);
    assert(doc_blocks(doc) =~~= (seq![Block::ListOpen] + items) + seq![Block::ListClose]) by {
        assert(classify_lines(RenderState::Normal, lines).0 =~~= seq![
            Block::ListOpen,
            item_block(l),
        ] + lines.drop_first().map_values(|x: Seq<char>| item_block(x)));
    }
}

/// The same guarantee on the output text: a document of `n ≥ 1` list-item
/// lines renders to the header, one opening list tag, the items' HTML, one
/// closing list tag, and the footer — nothing else.
pub proof fn lemma_list_container_html(doc: Seq<char>)
    requires
        doc_lines(doc).len() >= 1,
        forall|i: int| 0 <= i < doc_lines(doc).len() ==> is_item(#[trigger] doc_lines(doc)[i]),
    ensures
        render_html(doc) == crate::render::header_html() + ("<ul>\n"@ + crate::render::blocks_html(
            doc_lines(doc).map_values(|l: Seq<char>| item_block(l)),
        ) + "</ul>\n"@) + "</body></html>"@,
{
    lemma_list_container(doc);
    let items = doc_lines(doc).map_values(|l: Seq<char>| item_block(l));
    crate::render::lemma_blocks_html_concat(seq![Block::ListOpen] + items, seq![Block::ListClose]);
    crate::render::lemma_blocks_html_concat(seq![Block::ListOpen], items);
    crate::render::lemma_blocks_html_one(Block::ListOpen);
    crate::render::lemma_blocks_html_one(Block::ListClose);
    assert(crate::render::blocks_html(doc_blocks(doc)) =~= "<ul>\n"@ + crate::render::blocks_html(
        items,
    ) + "</ul>\n"@);
}

/// The four tag-like blocks whose balance the renderer guarantees.
pub enum TagKind {
    FenceOpenTag,
    FenceCloseTag,
    ListOpenTag,
    ListCloseTag,
}

/// Whether a block is the given kind of tag.
pub open spec fn is_tag(b: Block, k: TagKind) -> bool {
    match k {
        TagKind::FenceOpenTag => b is FenceOpen,
        TagKind::FenceCloseTag => b is FenceClose,
        TagKind::ListOpenTag => b is ListOpen,
        TagKind::ListCloseTag => b is ListClose,
    }
}

/// How many blocks of a sequence are the given kind of tag.
pub open spec fn count_tag(bs: Seq<Block>, k: TagKind) -> int
    decreases bs.len(),
{
    if bs.len() == 0 {
        0
    } else {
        (if is_tag(bs[0], k) {
            1int
        } else {
            0int
        }) + count_tag(bs.drop_first(), k)
    }
}

/// Tag counts add over concatenation.
pub proof fn lemma_count_concat(a: Seq<Block>, b: Seq<Block>, k: TagKind)
    ensures
        count_tag(a + b, k) == count_tag(a, k) + count_tag(b, k),
    decreases a.len(),
{
    if a.len() == 0 {
        assert(a + b =~~= b);
    } else {
        assert((a + b)[0] == a[0]);
        assert((a + b).drop_first() =~~= a.drop_first() + b);
        lemma_count_concat(a.drop_first(), b, k);
    }
}

/// The tag counts of a one-block sequence.
proof fn lemma_counts_one(b: Block, k: TagKind)
    ensures
        count_tag(seq![b], k) == (if is_tag(b, k) {
            1int
        } else {
            0int
        }),
{
    reveal_with_fuel(count_tag, 2);
    assert(seq![b].drop_first() =~~= Seq::<Block>::empty());
}

/// The tag counts of a two-block sequence.
proof fn lemma_counts_two(a: Block, b: Block, k: TagKind)
    ensures
        count_tag(seq![a, b], k) == (if is_tag(a, k) {
            1int
        } else {
            0int
        }) + (if is_tag(b, k) {
            1int
        } else {
            0int
        }),
{
    reveal_with_fuel(count_tag, 3);
    assert(seq![a, b].drop_first() =~~= seq![b]);
    assert(seq![b].drop_first() =~~= Seq::<Block>::empty());
}

/// The tag counts of "close any open list, then one block".
proof fn lemma_counts_closed_one(st: RenderState, b: Block, k: TagKind)
    ensures
        count_tag(close_list(st) + seq![b], k) == (if st is InList && is_tag(Block::ListClose, k) {
            1int
        } else {
            0int
        }) + (if is_tag(b, k) {
            1int
        } else {
            0int
        }),
{
    if st is InList {
        assert(close_list(st) + seq![b] =~~= seq![Block::ListClose, b]);
        lemma_counts_two(Block::ListClose, b, k);
    } else {
        assert(close_list(st) + seq![b] =~~= seq![b]);
        lemma_counts_one(b, k);
    }
}

/// The tag counts of a one-block sequence, for all four kinds at once.
proof fn counts_one_all(b: Block)
    ensures
        count_tag(seq![b], TagKind::FenceOpenTag) == (if b is FenceOpen { 1int } else { 0int }),
        count_tag(seq![b], TagKind::FenceCloseTag) == (if b is FenceClose { 1int } else { 0int }),
        count_tag(seq![b], TagKind::ListOpenTag) == (if b is ListOpen { 1int } else { 0int }),
        count_tag(seq![b], TagKind::ListCloseTag) == (if b is ListClose { 1int } else { 0int }),
{
    lemma_counts_one(b, TagKind::FenceOpenTag);
    lemma_counts_one(b, TagKind::FenceCloseTag);
    lemma_counts_one(b, TagKind::ListOpenTag);
    lemma_counts_one(b, TagKind::ListCloseTag);
}

/// The tag counts of a two-block sequence, for all four kinds at once.
proof fn counts_two_all(a: Block, b: Block)
    ensures
        count_tag(seq![a, b], TagKind::FenceOpenTag) == (if a is FenceOpen { 1int } else { 0int })
            + (if b is FenceOpen { 1int } else { 0int }),
        count_tag(seq![a, b], TagKind::FenceCloseTag) == (if a is FenceClose { 1int } else { 0int })
            + (if b is FenceClose { 1int } else { 0int }),
        count_tag(seq![a, b], TagKind::ListOpenTag) == (if a is ListOpen { 1int } else { 0int })
            + (if b is ListOpen { 1int } else { 0int }),
        count_tag(seq![a, b], TagKind::ListCloseTag) == (if a is ListClose { 1int } else { 0int })
            + (if b is ListClose { 1int } else { 0int }),
{
    lemma_counts_two(a, b, TagKind::FenceOpenTag);
    lemma_counts_two(a, b, TagKind::FenceCloseTag);
    lemma_counts_two(a, b, TagKind::ListOpenTag);
    lemma_counts_two(a, b, TagKind::ListCloseTag);
}

/// The tag counts of "close any open list, then one block", for all four
/// kinds at once.
proof fn counts_closed_all(st: RenderState, b: Block)
    ensures
        count_tag(close_list(st) + seq![b], TagKind::FenceOpenTag) == (if b is FenceOpen { 1int } else { 0int }),
        count_tag(close_list(st) + seq![b], TagKind::FenceCloseTag) == (if b is FenceClose { 1int } else { 0int }),
        count_tag(close_list(st) + seq![b], TagKind::ListOpenTag) == (if b is ListOpen { 1int } else { 0int }),
        count_tag(close_list(st) + seq![b], TagKind::ListCloseTag) == (if st is InList { 1int } else { 0int })
            + (if b is ListClose { 1int } else { 0int }),
{
    lemma_counts_closed_one(st, b, TagKind::FenceOpenTag);
    lemma_counts_closed_one(st, b, TagKind::FenceCloseTag);
    lemma_counts_closed_one(st, b, TagKind::ListOpenTag);
    lemma_counts_closed_one(st, b, TagKind::ListCloseTag);
}

/// One when the state is inside a code block, else zero.
pub open spec fn code_depth(st: RenderState) -> int {
    if st is InCode {
        1
    } else {
        0
    }
}

/// One when the state is inside a list, else zero.
pub open spec fn list_depth(st: RenderState) -> int {
    if st is InList {
        1
    } else {
        0
    }
}

/// One line's blocks open and close exactly as the state changes say.
pub proof fn lemma_line_balance(st: RenderState, l: Seq<char>)
    ensures
        count_tag(classify_line(st, l).0, TagKind::FenceOpenTag) - count_tag(
            classify_line(st, l).0,
            TagKind::FenceCloseTag,
        ) == code_depth(classify_line(st, l).1) - code_depth(st),
        count_tag(classify_line(st, l).0, TagKind::ListOpenTag) - count_tag(
            classify_line(st, l).0,
            TagKind::ListCloseTag,
        ) == list_depth(classify_line(st, l).1) - list_depth(st),
{
    if is_fence(l) {
        if st is InCode {
            counts_one_all(Block::FenceClose);
        } else {
            counts_closed_all(st, Block::FenceOpen { lang: l.skip(3) });
        }
    } else if st is InCode {
        counts_one_all(Block::CodeLine { text: l });
    } else if is_h1(l) {
        counts_closed_all(st, Block::Heading { level: 1, text: l.skip(2) });
    } else if is_h2(l) {
        counts_closed_all(st, Block::Heading { level: 2, text: l.skip(3) });
    } else if is_h3(l) {
        counts_closed_all(st, Block::Heading { level: 3, text: l.skip(4) });
    } else if is_item(l) {
        if st is InList {
            counts_one_all(Block::Item { text: l.skip(2) });
        } else {
            counts_two_all(Block::ListOpen, Block::Item { text: l.skip(2) });
        }
    } else if is_blank(l) {
        counts_closed_all(st, Block::Break);
    } else {
        counts_closed_all(st, Block::Paragraph { text: l });
    }
}

/// Over any run of lines, tags open and close exactly as the state
/// changes say.
pub proof fn lemma_lines_balance(st: RenderState, lines: Seq<Seq<char>>)
    ensures
        count_tag(classify_lines(st, lines).0, TagKind::FenceOpenTag) - count_tag(
            classify_lines(st, lines).0,
            TagKind::FenceCloseTag,
        ) == code_depth(classify_lines(st, lines).1) - code_depth(st),
        count_tag(classify_lines(st, lines).0, TagKind::ListOpenTag) - count_tag(
            classify_lines(st, lines).0,
            TagKind::ListCloseTag,
        ) == list_depth(classify_lines(st, lines).1) - list_depth(st),
    decreases lines.len(),
{
    if lines.len() > 0 {
        let (first, st1) = classify_line(st, lines[0]);
        lemma_line_balance(st, lines[0]);
        lemma_lines_balance(st1, lines.drop_first());
        lemma_count_concat(first, classify_lines(st1, lines.drop_first()).0,
            TagKind::FenceOpenTag);
        lemma_count_concat(first, classify_lines(st1, lines.drop_first()).0,
            TagKind::FenceCloseTag);
        lemma_count_concat(first, classify_lines(st1, lines.drop_first()).0,
            TagKind::ListOpenTag);
        lemma_count_concat(first, classify_lines(st1, lines.drop_first()).0,
            TagKind::ListCloseTag);
    }
}

/// Every rendered document is balanced: it holds as many code-block
/// opening tags as closing tags, and as many list opening tags as closing
/// tags — also when a code fence or list is left unterminated at the end
/// of input.
pub proof fn lemma_render_balanced(doc: Seq<char>)
    ensures
        count_tag(doc_blocks(doc), TagKind::FenceOpenTag) == count_tag(
            doc_blocks(doc),
            TagKind::FenceCloseTag,
        ),
        count_tag(doc_blocks(doc), TagKind::ListOpenTag) == count_tag(
            doc_blocks(doc),
            TagKind::ListCloseTag,
        ),
{
    let lines = doc_lines(doc);
    let (bs, st) = classify_lines(RenderState::Normal, lines);
    lemma_lines_balance(RenderState::Normal, lines);
    let fin = finish_blocks(st);
    if st is InList {
        counts_one_all(Block::ListClose);
    } else if st is InCode {
        counts_one_all(Block::FenceClose);
    }
    lemma_count_concat(bs, fin, TagKind::FenceOpenTag);
    lemma_count_concat(bs, fin, TagKind::FenceCloseTag);
    lemma_count_concat(bs, fin, TagKind::ListOpenTag);
    lemma_count_concat(bs, fin, TagKind::ListCloseTag);
}

} // verus!
