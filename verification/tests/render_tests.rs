use mdserve::escape::html_escape;
use mdserve::inline::{process_inline_formatting, regex_replace};
use mdserve::render::{
    directory_listing_error_page, directory_listing_page, generate_404_page, get_html_header,
    markdown_to_html,
};

fn count(haystack: &str, needle: &str) -> usize {
    haystack.matches(needle).count()
}

#[test]
fn heading_break_paragraph() {
    let html = markdown_to_html("# Title\n\nHello");
    let h = html.find("<h1>Title</h1>").expect("heading missing");
    let b = html.find("<br>").expect("break missing");
    let p = html.find("<p>Hello</p>").expect("paragraph missing");
    assert!(h < b && b < p);
}

#[test]
fn fenced_code_block_is_escaped() {
    let html = markdown_to_html("```js\n<script>\n```");
    assert!(html.contains("<pre><code class=\"language-js\">"));
    assert!(html.contains("&lt;script&gt;"));
    assert!(html.contains("</code></pre>"));
    assert!(!html.contains("<script>"));
}

#[test]
fn two_item_list() {
    let html = markdown_to_html("- a\n- b");
    assert!(html.contains("<ul>\n<li>a</li>\n<li>b</li>\n</ul>\n"));
    assert_eq!(count(&html, "<ul>"), 1);
    assert_eq!(count(&html, "</ul>"), 1);
}

#[test]
fn link_in_paragraph() {
    let html = markdown_to_html("Visit [site](http://x.com) now");
    assert!(html.contains("<p>Visit <a href=\"http://x.com\">site</a> now</p>"));
}

#[test]
fn list_container_wraps_items_once() {
    let html = markdown_to_html("- one\n- two\n- three");
    assert_eq!(count(&html, "<ul>"), 1);
    assert_eq!(count(&html, "</ul>"), 1);
    assert_eq!(count(&html, "<li>"), 3);
    assert_eq!(count(&html, "</li>"), 3);
}

#[test]
fn code_block_content_has_no_raw_specials() {
    let html = markdown_to_html("```\na < b & c > d \" e ' f\n```");
    let open_tag = "<pre><code class=\"language-\">\n";
    let start = html.find(open_tag).expect("code open missing") + open_tag.len();
    let end = html.find("</code></pre>").expect("code close missing");
    let body = &html[start..end];
    assert!(!body.contains('<'));
    assert!(!body.contains('>'));
    assert!(!body.contains('"'));
    assert!(!body.contains('\''));
    assert!(body.contains("a &lt; b &amp; c &gt; d &quot; e &#x27; f"));
}

#[test]
fn plain_paragraph_is_unchanged() {
    let html = markdown_to_html("Just plain text");
    let expected = format!("{}<p>Just plain text</p>\n</body></html>", get_html_header());
    assert_eq!(html, expected);
}

#[test]
fn unterminated_fence_is_closed() {
    let html = markdown_to_html("```rust\nlet x = 1;");
    assert_eq!(count(&html, "<pre><code"), 1);
    assert_eq!(count(&html, "</code></pre>"), 1);
}

#[test]
fn unterminated_list_is_closed() {
    let html = markdown_to_html("- tail item");
    assert_eq!(count(&html, "<ul>"), 1);
    assert_eq!(count(&html, "</ul>"), 1);
}

#[test]
fn heading_levels() {
    let html = markdown_to_html("# a\n## b\n### c");
    assert!(html.contains("<h1>a</h1>"));
    assert!(html.contains("<h2>b</h2>"));
    assert!(html.contains("<h3>c</h3>"));
}

#[test]
fn heading_text_is_not_inline_formatted() {
    let html = markdown_to_html("# *x*");
    assert!(html.contains("<h1>*x*</h1>"));
}

#[test]
fn blank_line_separates_lists() {
    let html = markdown_to_html("- a\n\n- b");
    assert_eq!(count(&html, "<ul>"), 2);
    assert_eq!(count(&html, "</ul>"), 2);
}

#[test]
fn blank_line_inside_code_block_is_content() {
    let html = markdown_to_html("```\n\n```");
    assert!(!html.contains("<br>"));
}

#[test]
fn paragraph_specials_are_escaped() {
    let html = markdown_to_html("a < b");
    assert!(html.contains("<p>a &lt; b</p>"));
}

#[test]
fn escape_all_five() {
    assert_eq!(html_escape("&<>\"'"), "&amp;&lt;&gt;&quot;&#x27;");
    assert_eq!(html_escape("none"), "none");
}

#[test]
fn inline_formatting_all_constructs() {
    let out = process_inline_formatting("**bold** and *em* and `code` and [t](u)");
    assert_eq!(
        out,
        "<strong>bold</strong> and <em>em</em> and <code>code</code> and <a href=\"u\">t</a>"
    );
}

#[test]
fn inline_unbalanced_delimiters_stay_literal() {
    assert_eq!(process_inline_formatting("*a and `b and [c](d"), "*a and `b and [c](d");
    assert_eq!(process_inline_formatting("**a"), "**a");
}

#[test]
fn inline_code_span_keeps_escaped_content() {
    assert_eq!(process_inline_formatting("`<b>`"), "<code>&lt;b&gt;</code>");
}

#[test]
fn regex_replace_italic_rule() {
    assert_eq!(regex_replace("a *b* c", r"\*([^*]+)\*", "<em>$1</em>"), "a <em>b</em> c");
}

#[test]
fn regex_replace_code_rule() {
    assert_eq!(regex_replace("x `y` z", r"`([^`]+)`", "<code>$1</code>"), "x <code>y</code> z");
}

#[test]
fn regex_replace_link_rule() {
    assert_eq!(
        regex_replace("see [a](b)!", r"\[([^\]]+)\]\(([^)]+)\)", "<a href=\"$2\">$1</a>"),
        "see <a href=\"b\">a</a>!"
    );
}

#[test]
fn regex_replace_unknown_pattern_is_identity() {
    assert_eq!(regex_replace("a *b* c", r"[0-9]+", "N"), "a *b* c");
}

#[test]
fn not_found_page_has_notice() {
    let page = generate_404_page();
    assert!(page.contains("404 - Page Not Found"));
    assert!(page.ends_with("</body></html>"));
}

#[test]
fn empty_listing_has_notice() {
    let page = directory_listing_page(&vec![]);
    assert!(page.contains("No documents found"));
    assert!(page.ends_with("</body></html>"));
}

#[test]
fn listing_links_each_file() {
    let files = vec![String::from("a.md"), String::from("b.md")];
    let page = directory_listing_page(&files);
    let a = page.find("<li><a href=\"/a.md\">a.md</a></li>").expect("first link missing");
    let b = page.find("<li><a href=\"/b.md\">b.md</a></li>").expect("second link missing");
    assert!(a < b);
}

#[test]
fn listing_error_page_has_notice() {
    let page = directory_listing_error_page();
    assert!(page.contains("Error reading directory"));
}

#[test]
fn empty_document_renders_header_and_footer() {
    let html = markdown_to_html("");
    let expected = format!("{}</body></html>", get_html_header());
    assert_eq!(html, expected);
}
