//! The markdown rendering engine.
//!
//! A document is split into lines, each line is classified by its leading
//! characters together with a small state machine, and the resulting
//! block-level events are emitted as HTML.  The three states — ordinary
//! text, inside a list, inside a fenced code block — are mutually
//! exclusive by construction.

use vstd::prelude::*;
use vstd::string::StringExecFns;
use crate::escape::{escape_chars, escape_text};
use crate::inline::{find_char, find_char_from, format_inline_chars, inline_html, append_range};
use crate::text::{text_chars, vec_range};

verus! {

/// A line's trailing carriage return removed, if it has one.
pub open spec fn strip_cr(l: Seq<char>) -> Seq<char> {
    if l.len() > 0 && l[l.len() - 1] == '\r' {
        l.drop_last()
    } else {
        l
    }
}

/// The lines of a document: split at each newline, a carriage return
/// before a newline removed, and no empty final line for a document that
/// ends with a newline.
pub open spec fn doc_lines(s: Seq<char>) -> Seq<Seq<char>>
    decreases s.len(),
{
    if s.len() == 0 {
        Seq::empty()
    } else {
        let j = find_char(s, '\n');
        if 0 <= j < s.len() {
            seq![strip_cr(s.take(j))] + doc_lines(s.skip(j + 1))
        } else {
            seq![s]
        }
    }
}

/// Splits a document into its lines.
pub fn split_lines(v: &Vec<char>) -> (lines: Vec<Vec<char>>)
    ensures
        lines@.map_values(|l: Vec<char>| l@) == doc_lines(v@),
{
    let mut lines: Vec<Vec<char>> = Vec::new();
    let mut pos: usize = 0;
    proof {
        assert(v@.skip(0) =~= v@);
        assert(lines@.map_values(|l: Vec<char>| l@) + doc_lines(v@) =~~= doc_lines(v@));
    }
    while pos < v.len()
        invariant
            pos <= v.len(),
            lines@.map_values(|l: Vec<char>| l@) + doc_lines(v@.skip(pos as int)) == doc_lines(
                v@,
            ),
        decreases v.len() - pos,
    {
        let ghost s = v@;
        let ghost t = s.skip(pos as int);
        let ghost pre = lines@.map_values(|l: Vec<char>| l@);
        let j = find_char_from(v, '\n', pos);
        proof {
            assert(find_char(t, '\n') == j - pos);
        }
        let mut line = vec_range(v, pos, j);
        if j < v.len() {
            if line.len() > 0 && line[line.len() - 1] == '\r' {
                line.pop();
            }
            proof {
                assert(t.take(j - pos) =~= s.subrange(pos as int, j as int));
                assert(line@ == strip_cr(t.take(j - pos))) by {
                    if s.subrange(pos as int, j as int).len() > 0 && s.subrange(
                        pos as int,
                        j as int,
                    ).last() == '\r' {
                        assert(line@ =~= s.subrange(pos as int, j as int).drop_last());
                    }
                }
                assert(t.skip(j - pos + 1) =~= s.skip(j + 1));
                assert(doc_lines(t) == seq![strip_cr(t.take(j - pos))] + doc_lines(s.skip(j + 1)));
            }
            lines.push(line);
            proof {
                assert(lines@.map_values(|l: Vec<char>| l@) =~~= pre.push(strip_cr(
                    t.take(j - pos),
                )));
                assert(pre.push(strip_cr(t.take(j - pos))) + doc_lines(s.skip(j + 1)) =~~= pre + (
                seq![strip_cr(t.take(j - pos))] + doc_lines(s.skip(j + 1))));
            }
            pos = j + 1;
        } else {
            proof {
                assert(t =~= s.subrange(pos as int, v@.len() as int));
                assert(line@ == t);
                assert(doc_lines(t) == seq![t]);
            }
            lines.push(line);
            proof {
                assert(lines@.map_values(|l: Vec<char>| l@) =~~= pre.push(t));
                assert(pre.push(t) + doc_lines(s.skip(v@.len() as int)) =~~= pre + seq![t]) by {
                    assert(s.skip(v@.len() as int) =~= Seq::<char>::empty());
                }
            }
            pos = v.len();
        }
    }
    proof {
        assert(v@.skip(v@.len() as int) =~= Seq::<char>::empty());
        assert(lines@.map_values(|l: Vec<char>| l@) + doc_lines(Seq::<char>::empty())
            =~~= lines@.map_values(|l: Vec<char>| l@));
    }
    lines
}

/// The block-classification state: ordinary text, inside an open list, or
/// inside a fenced code block.
#[derive(PartialEq, Eq, Structural, Clone, Copy, Debug)]
pub enum RenderState {
    Normal,
    InList,
    InCode,
}

/// One block-level output event.
pub enum Block {
    FenceOpen { lang: Seq<char> },
    FenceClose,
    CodeLine { text: Seq<char> },
    Heading { level: int, text: Seq<char> },
    ListOpen,
    ListClose,
    Item { text: Seq<char> },
    Break,
    Paragraph { text: Seq<char> },
}

/// A line opening or closing a fenced code block: three leading backticks.
pub open spec fn is_fence(l: Seq<char>) -> bool {
    l.len() >= 3 && l[0] == '`' && l[1] == '`' && l[2] == '`'
}

/// A level-1 heading line: `# ` then the heading text.
pub open spec fn is_h1(l: Seq<char>) -> bool {
    l.len() >= 2 && l[0] == '#' && l[1] == ' '
}

/// A level-2 heading line.
pub open spec fn is_h2(l: Seq<char>) -> bool {
    l.len() >= 3 && l[0] == '#' && l[1] == '#' && l[2] == ' '
}

/// A level-3 heading line.
pub open spec fn is_h3(l: Seq<char>) -> bool {
    l.len() >= 4 && l[0] == '#' && l[1] == '#' && l[2] == '#' && l[3] == ' '
}

/// A list-item line: `- ` or `* ` then the item text.
pub open spec fn is_item(l: Seq<char>) -> bool {
    l.len() >= 2 && (l[0] == '-' || l[0] == '*') && l[1] == ' '
}

/// A line of only whitespace.
pub open spec fn is_blank(l: Seq<char>) -> bool {
    forall|k: int| 0 <= k < l.len() ==> (l[k] == ' ' || l[k] == '\t' || l[k] == '\r')
}

/// The list-closing event an open list contributes when a non-item line
/// arrives.
pub open spec fn close_list(st: RenderState) -> Seq<Block> {
    if st is InList {
        seq![Block::ListClose]
    } else {
        Seq::empty()
    }
}

/// The blocks one line contributes, and the state after that line.
pub open spec fn classify_line(st: RenderState, l: Seq<char>) -> (Seq<Block>, RenderState) {
    if is_fence(l) {
        if st is InCode {
            (seq![Block::FenceClose], RenderState::Normal)
        } else {
            (close_list(st) + seq![Block::FenceOpen { lang: l.skip(3) }], RenderState::InCode)
        }
    } else if st is InCode {
        (seq![Block::CodeLine { text: l }], RenderState::InCode)
    } else if is_h1(l) {
        (close_list(st) + seq![Block::Heading { level: 1, text: l.skip(2) }], RenderState::Normal)
    } else if is_h2(l) {
        (close_list(st) + seq![Block::Heading { level: 2, text: l.skip(3) }], RenderState::Normal)
    } else if is_h3(l) {
        (close_list(st) + seq![Block::Heading { level: 3, text: l.skip(4) }], RenderState::Normal)
    } else if is_item(l) {
        if st is InList {
            (seq![Block::Item { text: l.skip(2) }], RenderState::InList)
        } else {
            (seq![Block::ListOpen, Block::Item { text: l.skip(2) }], RenderState::InList)
        }
    } else if is_blank(l) {
        (close_list(st) + seq![Block::Break], RenderState::Normal)
    } else {
        (close_list(st) + seq![Block::Paragraph { text: l }], RenderState::Normal)
    }
}

/// The blocks of a sequence of lines from state `st`, and the final state.
pub open spec fn classify_lines(st: RenderState, lines: Seq<Seq<char>>) -> (Seq<Block>, RenderState)
    decreases lines.len(),
{
    if lines.len() == 0 {
        (Seq::empty(), st)
    } else {
        let (first, st1) = classify_line(st, lines[0]);
        let (rest, st2) = classify_lines(st1, lines.drop_first());
        (first + rest, st2)
    }
}

/// What the end of input appends: an open list or code block is closed.
pub open spec fn finish_blocks(st: RenderState) -> Seq<Block> {
    if st is InList {
        seq![Block::ListClose]
    } else if st is InCode {
        seq![Block::FenceClose]
    } else {
        Seq::empty()
    }
}

/// All blocks of a whole document.
pub open spec fn doc_blocks(doc: Seq<char>) -> Seq<Block> {
    let (bs, st) = classify_lines(RenderState::Normal, doc_lines(doc));
    bs + finish_blocks(st)
}

/// Classifying one more line appends that line's blocks.
pub proof fn lemma_classify_snoc(st: RenderState, lines: Seq<Seq<char>>, l: Seq<char>)
    ensures
        classify_lines(st, lines.push(l)).0 == classify_lines(st, lines).0 + classify_line(
            classify_lines(st, lines).1,
            l,
        ).0,
        classify_lines(st, lines.push(l)).1 == classify_line(classify_lines(st, lines).1, l).1,
    decreases lines.len(),
{
    if lines.len() == 0 {
        reveal_with_fuel(classify_lines, 3);
        assert(lines.push(l)[0] == l);
        assert(lines.push(l).drop_first() =~~= Seq::<Seq<char>>::empty());
        assert(classify_lines(st, lines.push(l)).0 =~~= classify_line(st, l).0 + Seq::<
            Block,
        >::empty());
        assert(classify_line(st, l).0 + Seq::<Block>::empty() =~~= classify_line(st, l).0);
        assert(classify_lines(st, lines).0 + classify_line(st, l).0 =~~= classify_line(st, l).0);
    } else {
        let (first, st1) = classify_line(st, lines[0]);
        assert(lines.push(l)[0] == lines[0]);
        assert(lines.push(l).drop_first() =~~= lines.drop_first().push(l));
        lemma_classify_snoc(st1, lines.drop_first(), l);
        assert(classify_lines(st, lines.push(l)).0 =~~= classify_lines(st, lines).0
            + classify_line(classify_lines(st, lines).1, l).0);
    }
}

/// The HTML text one block becomes.
pub open spec fn block_html(b: Block) -> Seq<char> {
    match b {
        Block::FenceOpen { lang } => "<pre><code class=\"language-"@ + lang + "\">\n"@,
        Block::FenceClose => "</code></pre>\n"@,
        Block::CodeLine { text } => escape_text(text) + "\n"@,
        Block::Heading { level, text } => {
            if level == 1 {
                "<h1>"@ + text + "</h1>\n"@
            } else if level == 2 {
                "<h2>"@ + text + "</h2>\n"@
            } else {
                "<h3>"@ + text + "</h3>\n"@
            }
        },
        Block::ListOpen => "<ul>\n"@,
        Block::ListClose => "</ul>\n"@,
        Block::Item { text } => "<li>"@ + inline_html(text) + "</li>\n"@,
        Block::Break => "<br>\n"@,
        Block::Paragraph { text } => "<p>"@ + inline_html(text) + "</p>\n"@,
    }
}

/// The HTML text of a sequence of blocks.
pub open spec fn blocks_html(bs: Seq<Block>) -> Seq<char>
    decreases bs.len(),
{
    if bs.len() == 0 {
        Seq::empty()
    } else {
        block_html(bs[0]) + blocks_html(bs.drop_first())
    }
}

/// `blocks_html` distributes over concatenation.
pub proof fn lemma_blocks_html_concat(a: Seq<Block>, b: Seq<Block>)
    ensures
        blocks_html(a + b) == blocks_html(a) + blocks_html(b),
    decreases a.len(),
{
    if a.len() == 0 {
        assert(a + b =~~= b);
        assert(Seq::<char>::empty() + blocks_html(b) =~= blocks_html(b));
    } else {
        assert((a + b)[0] == a[0]);
        assert((a + b).drop_first() =~~= a.drop_first() + b);
        lemma_blocks_html_concat(a.drop_first(), b);
        assert(block_html(a[0]) + (blocks_html(a.drop_first()) + blocks_html(b)) =~= (block_html(
            a[0],
        ) + blocks_html(a.drop_first())) + blocks_html(b));
    }
}

/// The HTML of a single block, as a one-element sequence.
pub proof fn lemma_blocks_html_one(b: Block)
    ensures
        blocks_html(seq![b]) == block_html(b),
{
    reveal_with_fuel(blocks_html, 3);
    assert(seq![b].drop_first() =~~= Seq::<Block>::empty());
    assert(block_html(b) + Seq::<char>::empty() =~= block_html(b));
}

/// The HTML of two blocks in sequence.
pub proof fn lemma_blocks_html_two(a: Block, b: Block)
    ensures
        blocks_html(seq![a, b]) == block_html(a) + block_html(b),
{
    assert(seq![a, b].drop_first() =~~= seq![b]);
    lemma_blocks_html_one(b);
}

/// The fixed document header: doctype, metadata and the embedded
/// stylesheet.
pub open spec fn header_html() -> Seq<char> {
    "<!DOCTYPE html>\n<html lang=\"en\">\n<head>\n<meta charset=\"UTF-8\">\n<meta name=\"viewport\" content=\"width=device-width, initial-scale=1.0\">\n<title>Markdown Server</title>\n<style>\nbody { font-family: sans-serif; line-height: 1.6; color: #333; max-width: 800px; margin: 0 auto; padding: 20px; background-color: #f8f9fa; }\npre { background-color: #f4f4f4; border: 1px solid #ddd; border-radius: 4px; padding: 12px; overflow-x: auto; }\ncode { background-color: #f4f4f4; padding: 2px 4px; border-radius: 3px; font-family: monospace; }\nh1, h2, h3 { color: #2c3e50; border-bottom: 2px solid #3498db; padding-bottom: 8px; }\na { color: #3498db; text-decoration: none; }\na:hover { text-decoration: underline; }\nul { padding-left: 20px; }\nli { margin-bottom: 5px; }\n</style>\n</head>\n<body>\n"@
}

/// The complete rendering of a markdown document.
pub open spec fn render_html(doc: Seq<char>) -> Seq<char> {
    header_html() + blocks_html(doc_blocks(doc)) + "</body></html>"@
}

/// Returns the fixed document header that every rendered page starts with.
pub fn get_html_header() -> (r: String)
    ensures
        r@ == header_html(),
{
    String::from_str(
        "<!DOCTYPE html>\n<html lang=\"en\">\n<head>\n<meta charset=\"UTF-8\">\n<meta name=\"viewport\" content=\"width=device-width, initial-scale=1.0\">\n<title>Markdown Server</title>\n<style>\nbody { font-family: sans-serif; line-height: 1.6; color: #333; max-width: 800px; margin: 0 auto; padding: 20px; background-color: #f8f9fa; }\npre { background-color: #f4f4f4; border: 1px solid #ddd; border-radius: 4px; padding: 12px; overflow-x: auto; }\ncode { background-color: #f4f4f4; padding: 2px 4px; border-radius: 3px; font-family: monospace; }\nh1, h2, h3 { color: #2c3e50; border-bottom: 2px solid #3498db; padding-bottom: 8px; }\na { color: #3498db; text-decoration: none; }\na:hover { text-decoration: underline; }\nul { padding-left: 20px; }\nli { margin-bottom: 5px; }\n</style>\n</head>\n<body>\n",
    )
}

/// Tests whether a line opens or closes a fenced code block.
fn fence_line(l: &Vec<char>) -> (r: bool)
    ensures
        r == is_fence(l@),
{
    l.len() >= 3 && l[0] == '`' && l[1] == '`' && l[2] == '`'
}

/// Tests for a level-1 heading line.
fn h1_line(l: &Vec<char>) -> (r: bool)
    ensures
        r == is_h1(l@),
{
    l.len() >= 2 && l[0] == '#' && l[1] == ' '
}

/// Tests for a level-2 heading line.
fn h2_line(l: &Vec<char>) -> (r: bool)
    ensures
        r == is_h2(l@),
{
    l.len() >= 3 && l[0] == '#' && l[1] == '#' && l[2] == ' '
}

/// Tests for a level-3 heading line.
fn h3_line(l: &Vec<char>) -> (r: bool)
    ensures
        r == is_h3(l@),
{
    l.len() >= 4 && l[0] == '#' && l[1] == '#' && l[2] == '#' && l[3] == ' '
}

/// Tests for a list-item line.
fn item_line(l: &Vec<char>) -> (r: bool)
    ensures
        r == is_item(l@),
{
    l.len() >= 2 && (l[0] == '-' || l[0] == '*') && l[1] == ' '
}

/// Tests whether a line is all whitespace.
fn blank_line(l: &Vec<char>) -> (r: bool)
    ensures
        r == is_blank(l@),
{
    let mut i: usize = 0;
    while i < l.len()
        invariant
            i <= l.len(),
            forall|k: int| 0 <= k < i ==> (l@[k] == ' ' || l@[k] == '\t' || l@[k] == '\r'),
        decreases l.len() - i,
    {
        let c = l[i];
        if c != ' ' && c != '\t' && c != '\r' {
            return false;
        }
        i = i + 1;
    }
    true
}

/// Appends the opening of a fenced code block with its language class.
fn emit_fence_open(html: &mut String, lang: &Vec<char>)
    ensures
        final(html)@ == old(html)@ + block_html(Block::FenceOpen { lang: lang@ }),
{
    html.append("<pre><code class=\"language-");
    append_range(html, lang, 0, lang.len());
    html.append("\">\n");
    proof {
        assert(lang@.subrange(0, lang@.len() as int) =~= lang@);
        assert(((old(html)@ + "<pre><code class=\"language-"@) + lang@) + "\">\n"@ =~= old(html)@
            + ("<pre><code class=\"language-"@ + lang@ + "\">\n"@));
    }
}

/// Appends one escaped line of code-block content.
fn emit_code_line(html: &mut String, line: &Vec<char>)
    ensures
        final(html)@ == old(html)@ + block_html(Block::CodeLine { text: line@ }),
{
    let escaped = escape_chars(line);
    html.append(escaped.as_str());
    html.append("\n");
    proof {
        assert((old(html)@ + escape_text(line@)) + "\n"@ =~= old(html)@ + (escape_text(line@)
            + "\n"@));
    }
}

/// Appends a heading of the given level.
fn emit_heading(html: &mut String, level: usize, text: &Vec<char>)
    requires
        1 <= level <= 3,
    ensures
        final(html)@ == old(html)@ + block_html(
            Block::Heading { level: level as int, text: text@ },
        ),
{
    if level == 1 {
        html.append("<h1>");
    } else if level == 2 {
        html.append("<h2>");
    } else {
        html.append("<h3>");
    }
    append_range(html, text, 0, text.len());
    if level == 1 {
        html.append("</h1>\n");
    } else if level == 2 {
        html.append("</h2>\n");
    } else {
        html.append("</h3>\n");
    }
    proof {
        assert(text@.subrange(0, text@.len() as int) =~= text@);
        if level == 1 {
            assert(((old(html)@ + "<h1>"@) + text@) + "</h1>\n"@ =~= old(html)@ + ("<h1>"@ + text@
                + "</h1>\n"@));
        } else if level == 2 {
            assert(((old(html)@ + "<h2>"@) + text@) + "</h2>\n"@ =~= old(html)@ + ("<h2>"@ + text@
                + "</h2>\n"@));
        } else {
            assert(((old(html)@ + "<h3>"@) + text@) + "</h3>\n"@ =~= old(html)@ + ("<h3>"@ + text@
                + "</h3>\n"@));
        }
    }
}

/// Appends one inline-formatted list item.
fn emit_item(html: &mut String, text: &Vec<char>)
    ensures
        final(html)@ == old(html)@ + block_html(Block::Item { text: text@ }),
{
    html.append("<li>");
    let formatted = format_inline_chars(text);
    html.append(formatted.as_str());
    html.append("</li>\n");
    proof {
        assert(((old(html)@ + "<li>"@) + inline_html(text@)) + "</li>\n"@ =~= old(html)@ + ("<li>"@
            + inline_html(text@) + "</li>\n"@));
    }
}

/// Appends one inline-formatted paragraph.
fn emit_paragraph(html: &mut String, text: &Vec<char>)
    ensures
        final(html)@ == old(html)@ + block_html(Block::Paragraph { text: text@ }),
{
    html.append("<p>");
    let formatted = format_inline_chars(text);
    html.append(formatted.as_str());
    html.append("</p>\n");
    proof {
        assert(((old(html)@ + "<p>"@) + inline_html(text@)) + "</p>\n"@ =~= old(html)@ + ("<p>"@
            + inline_html(text@) + "</p>\n"@));
    }
}

/// Renders a whole markdown document to a complete HTML page, as
/// `render_html` says: the fixed header, then the HTML of every block of
/// the document, with any unclosed list or code block closed, then the
/// closing tags.
pub fn markdown_to_html(markdown: &str) -> (html: String)
    ensures
        html@ == render_html(markdown@),
{
    let chars = text_chars(markdown);
    let lines = split_lines(&chars);
    let ghost ls = lines@.map_values(|l: Vec<char>| l@);
    let mut html = get_html_header();
    let mut st = RenderState::Normal;
    let mut i: usize = 0;
    proof {
        assert(ls.take(0) =~~= Seq::<Seq<char>>::empty());
        assert(header_html() + Seq::<char>::empty() =~= header_html());
    }
    while i < lines.len()
        invariant
            i <= lines.len(),
            ls == lines@.map_values(|l: Vec<char>| l@),
            html@ == header_html() + blocks_html(
                classify_lines(RenderState::Normal, ls.take(i as int)).0,
            ),
            st == classify_lines(RenderState::Normal, ls.take(i as int)).1,
        decreases lines.len() - i,
    {
        let ghost pre = html@;
        let ghost st0 = st;
        let line = &lines[i];
        let ghost lv = line@;
        proof {
            assert(ls[i as int] == lv);
        }
        if fence_line(line) {
            if st == RenderState::InCode {
                html.append("</code></pre>\n");
                st = RenderState::Normal;
                proof {
                    lemma_blocks_html_one(Block::FenceClose);
                }
            } else {
                if st == RenderState::InList {
                    html.append("</ul>\n");
                }
                let lang = vec_range(line, 3, line.len());
                emit_fence_open(&mut html, &lang);
                st = RenderState::InCode;
                proof {
                    assert(lang@ == lv.skip(3));
                    let fo = Block::FenceOpen { lang: lv.skip(3) };
                    if st0 is InList {
                        assert(close_list(st0) + seq![fo] =~~= seq![Block::ListClose, fo]);
                        lemma_blocks_html_two(Block::ListClose, fo);
                        assert(html@ =~= pre + (block_html(Block::ListClose) + block_html(fo)));
                    } else {
                        assert(close_list(st0) + seq![fo] =~~= seq![fo]);
                        lemma_blocks_html_one(fo);
                    }
                }
            }
        } else if st == RenderState::InCode {
            emit_code_line(&mut html, line);
            proof {
                lemma_blocks_html_one(Block::CodeLine { text: lv });
            }
        } else if h1_line(line) {
            if st == RenderState::InList {
                html.append("</ul>\n");
            }
            let text = vec_range(line, 2, line.len());
            emit_heading(&mut html, 1, &text);
            st = RenderState::Normal;
            proof {
                lemma_emit_closed_one(
                    pre,
                    html@,
                    st0,
                    Block::Heading { level: 1, text: lv.skip(2) },
                );
            }
        } else if h2_line(line) {
            if st == RenderState::InList {
                html.append("</ul>\n");
            }
            let text = vec_range(line, 3, line.len());
            emit_heading(&mut html, 2, &text);
            st = RenderState::Normal;
            proof {
                lemma_emit_closed_one(
                    pre,
                    html@,
                    st0,
                    Block::Heading { level: 2, text: lv.skip(3) },
                );
            }
        } else if h3_line(line) {
            if st == RenderState::InList {
                html.append("</ul>\n");
            }
            let text = vec_range(line, 4, line.len());
            emit_heading(&mut html, 3, &text);
            st = RenderState::Normal;
            proof {
                lemma_emit_closed_one(
                    pre,
                    html@,
                    st0,
                    Block::Heading { level: 3, text: lv.skip(4) },
                );
            }
        } else if item_line(line) {
            if st != RenderState::InList {
                html.append("<ul>\n");
            }
            let text = vec_range(line, 2, line.len());
            emit_item(&mut html, &text);
            st = RenderState::InList;
            proof {
                let it = Block::Item { text: lv.skip(2) };
                if st0 is InList {
                    lemma_blocks_html_one(it);
                } else {
                    lemma_blocks_html_two(Block::ListOpen, it);
                    assert(html@ =~= pre + (block_html(Block::ListOpen) + block_html(it)));
                }
            }
        } else if blank_line(line) {
            if st == RenderState::InList {
                html.append("</ul>\n");
            }
            html.append("<br>\n");
            st = RenderState::Normal;
            proof {
                lemma_emit_closed_one(pre, html@, st0, Block::Break);
            }
        } else {
            if st == RenderState::InList {
                html.append("</ul>\n");
            }
            emit_paragraph(&mut html, line);
            st = RenderState::Normal;
            proof {
                lemma_emit_closed_one(pre, html@, st0, Block::Paragraph { text: lv });
            }
        }
        proof {
            let (nb, st1) = classify_line(st0, lv);
            assert(html@ == pre + blocks_html(nb));
            assert(st == st1);
            lemma_classify_snoc(RenderState::Normal, ls.take(i as int), lv);
            assert(ls.take(i + 1 as int) =~~= ls.take(i as int).push(lv));
            let bs_pre = classify_lines(RenderState::Normal, ls.take(i as int)).0;
            lemma_blocks_html_concat(bs_pre, nb);
            assert((header_html() + blocks_html(bs_pre)) + blocks_html(nb) =~= header_html() + (
            blocks_html(bs_pre) + blocks_html(nb)));
        }
        i = i + 1;
    }
    proof {
        assert(ls.take(lines@.len() as int) =~~= ls);
    }
    let ghost body_pre = classify_lines(RenderState::Normal, ls).0;
    if st == RenderState::InList {
        html.append("</ul>\n");
        proof {
            lemma_blocks_html_one(Block::ListClose);
        }
    } else if st == RenderState::InCode {
        html.append("</code></pre>\n");
        proof {
            lemma_blocks_html_one(Block::FenceClose);
        }
    }
    proof {
        let fin = finish_blocks(classify_lines(RenderState::Normal, ls).1);
        lemma_blocks_html_concat(body_pre, fin);
        if classify_lines(RenderState::Normal, ls).1 is Normal {
            assert(body_pre + fin =~~= body_pre);
        }
        assert((header_html() + blocks_html(body_pre)) + blocks_html(fin) =~= header_html() + (
        blocks_html(body_pre) + blocks_html(fin)));
        assert(html@ == header_html() + blocks_html(doc_blocks(markdown@)));
    }
    html.append("</body></html>");
    html
}

/// The not-found page.
pub open spec fn not_found_html() -> Seq<char> {
    header_html()
        + "<h1>404 - Page Not Found</h1><p>The requested file could not be found.</p></body></html>"@
}

/// Builds the page returned for a request that matches no document.
pub fn generate_404_page() -> (r: String)
    ensures
        r@ == not_found_html(),
{
    let mut r = get_html_header();
    r.append(
        "<h1>404 - Page Not Found</h1><p>The requested file could not be found.</p></body></html>",
    );
    r
}

/// The list entries of a directory listing, one link per document name.
pub open spec fn listing_items(names: Seq<Seq<char>>) -> Seq<char>
    decreases names.len(),
{
    if names.len() == 0 {
        Seq::empty()
    } else {
        "<li><a href=\"/"@ + names[0] + "\">"@ + names[0] + "</a></li>\n"@ + listing_items(
            names.drop_first(),
        )
    }
}

/// The directory-listing page for the given document names; an empty
/// directory shows an explicit notice instead of links.
pub open spec fn listing_html(names: Seq<Seq<char>>) -> Seq<char> {
    header_html() + "<h1>Markdown Files</h1>\n<p>Available documents:</p>\n<ul>\n"@ + (
    if names.len() == 0 {
        "<li><em>No documents found</em></li>\n"@
    } else {
        listing_items(names)
    }) + "</ul>\n</body></html>"@
}

/// Builds the directory-listing page for the given document names, in the
/// order given (the caller sorts them).
pub fn directory_listing_page(files: &Vec<String>) -> (r: String)
    ensures
        r@ == listing_html(files@.map_values(|f: String| f@)),
{
    let ghost names = files@.map_values(|f: String| f@);
    let mut r = get_html_header();
    r.append("<h1>Markdown Files</h1>\n<p>Available documents:</p>\n<ul>\n");
    let ghost mid = r@;
    if files.len() == 0 {
        r.append("<li><em>No documents found</em></li>\n");
    } else {
        let mut i: usize = 0;
        let ghost mut items = Seq::<char>::empty();
        proof {
            assert(names.skip(0) =~~= names);
            assert(Seq::<char>::empty() + listing_items(names) =~= listing_items(names));
        }
        while i < files.len()
            invariant
                i <= files.len(),
                names == files@.map_values(|f: String| f@),
                r@ == mid + items,
                items + listing_items(names.skip(i as int)) == listing_items(names),
            decreases files.len() - i,
        {
            let ghost pre = r@;
            let ghost items0 = items;
            let ghost t = names.skip(i as int);
            let ghost nm = names[i as int];
            let ghost entry = "<li><a href=\"/"@ + nm + "\">"@ + nm + "</a></li>\n"@;
            proof {
                assert(names[i as int] == files@[i as int]@);
                assert(t[0] == names[i as int]);
            }
            r.append("<li><a href=\"/");
            r.append(files[i].as_str());
            r.append("\">");
            r.append(files[i].as_str());
            r.append("</a></li>\n");
            proof {
                assert(r@ =~= pre + entry);
                assert(t.drop_first() =~~= names.skip(i + 1));
                assert(listing_items(t) == entry + listing_items(names.skip(i + 1)));
                assert((items0 + entry) + listing_items(names.skip(i + 1)) =~= items0 + (entry
                    + listing_items(names.skip(i + 1))));
                assert(pre + entry =~= mid + (items0 + entry));
                items = items0 + entry;
            }
            i = i + 1;
        }
        proof {
            assert(names.skip(files@.len() as int) =~~= Seq::<Seq<char>>::empty());
            assert(items + Seq::<char>::empty() =~= items);
        }
    }
    r.append("</ul>\n</body></html>");
    r
}

/// The listing page shown when the directory cannot be read.
pub open spec fn listing_error_html() -> Seq<char> {
    header_html()
        + "<h1>Markdown Files</h1>\n<p><em>Error reading directory</em></p>\n</body></html>"@
}

/// Builds the listing page for a directory that could not be read.
pub fn directory_listing_error_page() -> (r: String)
    ensures
        r@ == listing_error_html(),
{
    let mut r = get_html_header();
    r.append("<h1>Markdown Files</h1>\n<p><em>Error reading directory</em></p>\n</body></html>");
    r
}

/// Bookkeeping for a branch that closes any open list and then emits one
/// block: the appended text is the HTML of that line's blocks.
proof fn lemma_emit_closed_one(pre: Seq<char>, now: Seq<char>, st0: RenderState, b: Block)
    requires
        st0 is InList ==> now == (pre + "</ul>\n"@) + block_html(b),
        !(st0 is InList) ==> now == pre + block_html(b),
    ensures
        now == pre + blocks_html(close_list(st0) + seq![b]),
{
    if st0 is InList {
        assert(close_list(st0) + seq![b] =~~= seq![Block::ListClose, b]);
        lemma_blocks_html_two(Block::ListClose, b);
        assert((pre + "</ul>\n"@) + block_html(b) =~= pre + ("</ul>\n"@ + block_html(b)));
    } else {
        assert(close_list(st0) + seq![b] =~~= seq![b]);
        lemma_blocks_html_one(b);
    }
}

} // verus!
