//! Tests of the inline markup lexer, the escaper, and the HTML wrapper.

use bulletnotes::{convert_text, convert_to_html, html_escape, render_fragment, wrap_html};

#[test]
fn test_convert_to_html_basic() {
    let input = "Hello world";
    let expected = "\n<html><body>\r\n<div>Hello world</div>\r\n</body></html>";
    let result = convert_to_html(input);
    assert_eq!(result, expected);
}

#[test]
fn test_convert_to_html_with_bold() {
    let input = "This is **bold** text";
    let expected = "\n<html><body>\r\n<div>This is <strong>bold</strong> text</div>\r\n</body></html>";
    let result = convert_to_html(input);
    assert_eq!(result, expected);
}

#[test]
fn test_convert_to_html_with_italic() {
    let input = "This is *italic* text";
    let expected = "\n<html><body>\r\n<div>This is <em>italic</em> text</div>\r\n</body></html>";
    let result = convert_to_html(input);
    assert_eq!(result, expected);
}

#[test]
fn test_convert_to_html_with_mixed_formatting() {
    let input = "This has **bold** and *italic* text";
    let expected = "\n<html><body>\r\n<div>This has <strong>bold</strong> and <em>italic</em> text</div>\r\n</body></html>";
    let result = convert_to_html(input);
    assert_eq!(result, expected);
}

#[test]
fn test_convert_to_html_with_newlines() {
    let input = "Line 1\nLine 2\nLine 3";
    let expected = "\n<html><body>\r\n<div>Line 1<br>Line 2<br>Line 3</div>\r\n</body></html>";
    let result = convert_to_html(input);
    assert_eq!(result, expected);
}

#[test]
fn test_convert_to_html_html_escaping() {
    let input = "Text with <tags> & \"quotes\"";
    let expected = "\n<html><body>\r\n<div>Text with &lt;tags&gt; &amp; &quot;quotes&quot;</div>\r\n</body></html>";
    let result = convert_to_html(input);
    assert_eq!(result, expected);
}

#[test]
fn test_convert_to_html_incomplete_formatting() {
    let input = "This has *incomplete italic and **incomplete bold";
    let expected = "\n<html><body>\r\n<div>This has *incomplete italic and **incomplete bold</div>\r\n</body></html>";
    let result = convert_to_html(input);
    assert_eq!(result, expected);
}

#[test]
fn test_convert_to_html_empty_formatting() {
    let input = "Empty ** and * markers";
    let expected = "\n<html><body>\r\n<div>Empty ** and * markers</div>\r\n</body></html>";
    let result = convert_to_html(input);
    assert_eq!(result, expected);
}

// Integration test combining both functions
#[test]
fn test_full_pipeline() {
    let input = "* This is **bold** text\n* This is *italic* text";
    let converted = convert_text(input);
    let expected_converted = "This is **bold** text\nThis is *italic* text";
    assert_eq!(converted, expected_converted);

    let html = convert_to_html(&converted);
    let expected_html = "\n<html><body>\r\n<div>This is <strong>bold</strong> text<br>This is <em>italic</em> text</div>\r\n</body></html>";
    assert_eq!(html, expected_html);
}

// The escaper maps exactly the five reserved characters to their entities.
#[test]
fn test_html_escape_exact() {
    assert_eq!(html_escape("&<>\"'"), "&amp;&lt;&gt;&quot;&#39;");
    assert_eq!(html_escape("plain text"), "plain text");
    assert_eq!(html_escape(""), "");
    assert_eq!(html_escape("a & b < c"), "a &amp; b &lt; c");
}

// The fragment renderer emits tags without the document skeleton.
#[test]
fn test_render_fragment_bold_italic() {
    assert_eq!(render_fragment("This is **bold** text"), "This is <strong>bold</strong> text");
    assert_eq!(render_fragment("This is *italic* text"), "This is <em>italic</em> text");
}

// Text with no markers renders as itself, escaped, with newlines as breaks.
#[test]
fn test_render_no_markup() {
    assert_eq!(render_fragment("a < b\nc & d"), "a &lt; b<br>c &amp; d");
    assert_eq!(render_fragment("no markup here"), "no markup here");
}

// Span content is escaped too.
#[test]
fn test_render_span_content_escaped() {
    assert_eq!(render_fragment("**a<b**"), "<strong>a&lt;b</strong>");
    assert_eq!(render_fragment("*a&b*"), "<em>a&amp;b</em>");
}

// Two stars at the cursor always open a bold span: a run of three stars
// keeps its extra star as content.
#[test]
fn test_bold_takes_priority_over_italic() {
    assert_eq!(render_fragment("***bold**"), "<strong>*bold</strong>");
    assert_eq!(render_fragment("***"), "***");
}

// An empty bold span keeps its tags; an empty italic span degrades to
// literal stars (reached only through the bold branch, so four stars).
#[test]
fn test_empty_bold_span() {
    assert_eq!(render_fragment("****"), "<strong></strong>");
}

// A star pair inside an italic scan rides along as content with one
// character of lookahead: it neither closes the span nor opens a bold one.
#[test]
fn test_pair_inside_italic_scan() {
    assert_eq!(render_fragment("*x**y"), "*x**y");
    assert_eq!(render_fragment("*x***y*"), "<em>x**</em>y*");
}

// The italic closer search runs past line breaks.
#[test]
fn test_italic_spans_newline() {
    assert_eq!(render_fragment("*a\nb*"), "<em>a\nb</em>");
}

// The wrapper embeds a pre-escaped fragment without touching it.
#[test]
fn test_wrap_html() {
    assert_eq!(
        wrap_html("frag"),
        "\n<html><body>\r\n<div>frag</div>\r\n</body></html>"
    );
    assert_eq!(wrap_html(""), "\n<html><body>\r\n<div></div>\r\n</body></html>");
}

// An unterminated bold opener after a completed span degrades literally.
#[test]
fn test_unterminated_after_span() {
    assert_eq!(render_fragment("**b** and **rest"), "<strong>b</strong> and **rest");
}
