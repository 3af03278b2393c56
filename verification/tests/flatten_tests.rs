//! Tests of the bullet flattener.

use bulletnotes::convert_text;

// Happy flow test: mixed bullet points, continuation lines, and blank lines.
#[test]
fn test_convert_text_happy_flow() {
    let input = "\
* 1st line.
    * Still 1st line. *italic text*,
    * and some more text.
* Here's the 2nd line. **BOLD**

* Here's the 3rd line.
*
* 4th line is empty, so this is the 5th line.";
    let expected = "\
1st line. Still 1st line. *italic text*, and some more text.
Here's the 2nd line. **BOLD**
Here's the 3rd line.

4th line is empty, so this is the 5th line.";
    let result = convert_text(input);
    assert_eq!(result, expected);
}

// Test continuation line: a bullet point followed by an indented line.
#[test]
fn test_continuation_line() {
    let input = "* First bullet\n  * continuation line";
    let expected = "First bullet continuation line";
    let result = convert_text(input);
    assert_eq!(result, expected);
}

// Test a line that contains only a "*" which should produce a newline.
#[test]
fn test_line_with_only_star() {
    let input = "*";
    let expected = "\n";
    let result = convert_text(input);
    assert_eq!(result, expected);
}

// Test that blank lines are ignored.
#[test]
fn test_blank_lines_ignored() {
    let input = "* Bullet one\n\n* Bullet two\n\n* Bullet three ";
    let expected = "Bullet one\nBullet two\nBullet three";
    let result = convert_text(input);
    assert_eq!(result, expected);
}

// Test that lines without a bullet or an indented bullet are ignored.
#[test]
fn test_normal_text_ignored() {
    let input = "Normal line\nAnother normal line";
    let expected = "";  // Since these lines don't match any condition, they are omitted.
    let result = convert_text(input);
    assert_eq!(result, expected);
}

// Test that extra spaces after the bullet marker are trimmed.
#[test]
fn test_extra_spaces_in_bullet() {
    let input = "*   Extra spaces text  ";
    let expected = "Extra spaces text";
    let result = convert_text(input);
    assert_eq!(result, expected);
}

#[test]
fn test_line_without_star_is_ignored() {
    let input = "* Valid 1\nInvalid\n* Valid \n  * 2 ";
    let expected = "Valid 1\nValid 2";
    let result = convert_text(input);
    assert_eq!(result, expected);
}

// Empty input flattens to empty output.
#[test]
fn test_flatten_empty() {
    assert_eq!(convert_text(""), "");
}

// A continuation line appends to the buffer however deep its indentation is.
#[test]
fn test_continuation_deep_indent() {
    let input = "* a\n        * b";
    assert_eq!(convert_text(input), "a b");
}

// A continuation line appends even before any bullet has opened a line.
#[test]
fn test_continuation_without_bullet() {
    let input = "  * solo";
    assert_eq!(convert_text(input), " solo");
}

// A star glued to a word opens no bullet: the line is dropped.
#[test]
fn test_star_without_space_ignored() {
    let input = "* a\n*word\n* b";
    assert_eq!(convert_text(input), "a\nb");
}

// A bare marker between bullets inserts one empty logical line.
#[test]
fn test_bare_marker_between_bullets() {
    let input = "* a\n*\n* b";
    assert_eq!(convert_text(input), "a\n\nb");
}

// Repeated bullet markers are all stripped from the front of a bullet line.
#[test]
fn test_repeated_markers_stripped() {
    let input = "* * * deep";
    assert_eq!(convert_text(input), "deep");
}

// Windows line endings are trimmed away with the rest of the trailing
// whitespace.
#[test]
fn test_crlf_input() {
    let input = "* one\r\n* two\r\n";
    assert_eq!(convert_text(input), "one\ntwo");
}

// Flattening is not idempotent: a flattened single bullet keeps no marker,
// so flattening it again drops all of its content.
#[test]
fn test_reflatten_drops_content() {
    let input = "* Single bullet line.";
    let once = convert_text(input);
    assert_eq!(once, "Single bullet line.");
    let twice = convert_text(&once);
    assert_eq!(twice, "");
}

// No whitespace-only line stands in the output: the only empty logical
// lines come from bare markers.
#[test]
fn test_no_blank_lines_in_output() {
    let input = "* a\n   \n\t\n* b\n*\n* c";
    let result = convert_text(input);
    assert_eq!(result, "a\nb\n\nc");
    for line in result.split('\n') {
        assert!(line.is_empty() || line.chars().any(|c| !c.is_whitespace()));
    }
}
