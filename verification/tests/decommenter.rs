use join_ai::decommenter::logic::strip_comments;
use join_ai::decommenter::LanguageDB;

fn assert_stripped_by_delimiters(ext: &str, input: &str, expected: &str) {
    let db = LanguageDB::new();
    let lang = db
        .find_by_extension(ext)
        .unwrap_or_else(|| panic!("Language for extension '{}' not found", ext));
    let stripped_bytes = strip_comments(input.as_bytes(), lang);
    let stripped_str = String::from_utf8(stripped_bytes).unwrap();

    // Normalize line endings for comparison on different OS
    let normalized_stripped = stripped_str.replace("\r\n", "\n");
    let normalized_expected = expected.replace("\r\n", "\n");

    assert_eq!(normalized_stripped.trim(), normalized_expected.trim());
}

#[test]
fn decommenter_strips_rust_single_line_comments() {
    let input = r#"
fn main() { // entry point
    println!("Hello"); // prints hello
}
"#;
    let expected = r#"
fn main() {
    println!("Hello");
}
"#;
    assert_stripped_by_delimiters("rs", input, expected);
}

#[test]
fn decommenter_strips_c_style_multi_line_comments() {
    let input = r#"
int main() {
    /* This is a block comment
       spanning multiple lines. */
    return 0; /* trailing comment */
}
"#;
    // The indentation before a block comment and the blank before a trailing
    // one are code, and the newline inside the comment is kept.
    let expected = "\nint main() {\n    \n\n    return 0; \n}\n";
    assert_stripped_by_delimiters("c", input, expected);
}

#[test]
fn decommenter_strips_python_comments() {
    let input = r#"
# Main function
def main():
    print("hello") # print statement
"#;
    let expected = r#"
def main():
    print("hello")
"#;
    assert_stripped_by_delimiters("py", input, expected);
}

#[test]
fn decommenter_preserves_content_when_no_comments() {
    let input = r#"
fn main() {
    println!("Hello");
}
"#;
    assert_stripped_by_delimiters("rs", input, input);
}

#[test]
fn decommenter_handles_empty_file() {
    assert_stripped_by_delimiters("rs", "", "");
}

#[test]
fn decommenter_handles_file_with_only_comments() {
    let input = r#"
// All comments
// Nothing to see here
/*
And a block comment too
*/
"#;
    assert_stripped_by_delimiters("rs", input, "");
}

#[test]
fn decommenter_handles_nested_comments_in_rust() {
    let input = r#"
/*
  outer comment
  /* inner comment */
  still outer
*/
fn test() {}
"#;
    let expected = r#"

fn test() {}
"#;
    assert_stripped_by_delimiters("rs", input, expected);
}

#[test]
fn decommenter_preserves_comment_syntax_in_string() {
    let input = r#"
let url = "http://example.com"; // This is a URL
let path = "C://Users/test";
"#;
    let expected = r#"
let url = "http://example.com";
let path = "C://Users/test";
"#;
    assert_stripped_by_delimiters("rs", input, expected);
}

#[test]
fn decommenter_preserves_blank_lines() {
    let input = r#"
fn main() {

    // A comment

    println!("Hello");

}
"#;
    // The line of the comment stays as a blank line between the two that
    // surround it.
    let expected = "\nfn main() {\n\n\n\n    println!(\"Hello\");\n\n}\n";
    assert_stripped_by_delimiters("rs", input, expected);
}

#[test]
fn decommenter_handles_unclosed_block_comment() {
    let input = r#"
fn main() {
    /* start of comment
    and it never ends...
"#;
    let expected = r#"
fn main() {
"#;
    assert_stripped_by_delimiters("rs", input, expected);
}
