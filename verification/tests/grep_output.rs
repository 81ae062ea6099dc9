use rgitui_git::grep::{git_grep, parse_grep_output};

#[test]
fn parse_grep_output_normal() {
    let raw = "src/main.rs:10:fn main() {";
    let results = parse_grep_output(raw);
    assert_eq!(results.len(), 1);
    assert_eq!(results[0].path, "src/main.rs");
    assert_eq!(results[0].line_number, 10);
    assert_eq!(results[0].content, "fn main() {");
}

#[test]
fn parse_grep_output_path_with_single_colon() {
    let raw = "src/foo:bar.rs:5:let x = 1;";
    let results = parse_grep_output(raw);
    assert_eq!(results.len(), 1);
    assert_eq!(results[0].path, "src/foo:bar.rs");
    assert_eq!(results[0].line_number, 5);
    assert_eq!(results[0].content, "let x = 1;");
}

#[test]
fn parse_grep_output_path_with_multiple_colons() {
    let raw = "a:b:c:42:hello world";
    let results = parse_grep_output(raw);
    assert_eq!(results.len(), 1);
    assert_eq!(results[0].path, "a:b:c");
    assert_eq!(results[0].line_number, 42);
    assert_eq!(results[0].content, "hello world");
}

#[test]
fn parse_grep_output_content_with_colon() {
    let raw = "file.rs:7:visit https://example.com for more";
    let results = parse_grep_output(raw);
    assert_eq!(results.len(), 1);
    assert_eq!(results[0].path, "file.rs");
    assert_eq!(results[0].line_number, 7);
    assert_eq!(results[0].content, "visit https://example.com for more");
}

#[test]
fn parse_grep_output_multiple_lines() {
    let raw = "a.rs:1:first\nb.rs:2:second\nc.rs:3:third";
    let results = parse_grep_output(raw);
    assert_eq!(results.len(), 3);
    assert_eq!(results[0].path, "a.rs");
    assert_eq!(results[0].line_number, 1);
    assert_eq!(results[0].content, "first");
    assert_eq!(results[1].path, "b.rs");
    assert_eq!(results[1].line_number, 2);
    assert_eq!(results[1].content, "second");
    assert_eq!(results[2].path, "c.rs");
    assert_eq!(results[2].line_number, 3);
    assert_eq!(results[2].content, "third");
}

#[test]
fn parse_grep_output_empty_content() {
    let raw = "main.rs:5:";
    let results = parse_grep_output(raw);
    assert_eq!(results.len(), 1);
    assert_eq!(results[0].line_number, 5);
    assert_eq!(results[0].content, "");
}

#[test]
fn parse_grep_output_non_numeric_lineno_falls_back_to_one() {
    let raw = "main.rs:abc:content";
    let results = parse_grep_output(raw);
    assert_eq!(results.len(), 1);
    assert_eq!(results[0].path, "main.rs");
    assert_eq!(results[0].line_number, 1);
    assert_eq!(results[0].content, "content");
}

#[test]
fn parse_grep_output_no_colon_skipped() {
    let raw = "main.rs no colon here";
    let results = parse_grep_output(raw);
    assert!(results.is_empty());
}

#[test]
fn parse_grep_output_only_path_and_lineno() {
    let raw = "main.rs:5:";
    let results = parse_grep_output(raw);
    assert_eq!(results.len(), 1);
    assert_eq!(results[0].path, "main.rs");
    assert_eq!(results[0].line_number, 5);
    assert_eq!(results[0].content, "");
}

#[test]
fn parse_grep_output_windows_style_path() {
    let raw = "C:/Users/foo:bar/src/main.rs:12:let x = 1;";
    let results = parse_grep_output(raw);
    assert_eq!(results.len(), 1);
    assert_eq!(results[0].path, "C:/Users/foo:bar/src/main.rs");
    assert_eq!(results[0].line_number, 12);
    assert_eq!(results[0].content, "let x = 1;");
}

#[test]
fn parse_grep_output_content_with_multiple_colons() {
    let raw = "config.rs:3:let cfg = Config { port: 8080, host: \"localhost\" };";
    let results = parse_grep_output(raw);
    assert_eq!(results.len(), 1);
    assert_eq!(results[0].path, "config.rs");
    assert_eq!(results[0].line_number, 3);
    assert_eq!(
        results[0].content,
        "let cfg = Config { port: 8080, host: \"localhost\" };"
    );
}

#[test]
fn parse_grep_output_ftp_url_in_content() {
    let raw = "readme.txt:1:Download from ftp://server.com/file";
    let results = parse_grep_output(raw);
    assert_eq!(results.len(), 1);
    assert_eq!(results[0].path, "readme.txt");
    assert_eq!(results[0].line_number, 1);
    assert_eq!(results[0].content, "Download from ftp://server.com/file");
}

#[test]
fn content_starting_with_a_digit_or_slash_reads_back() {
    let results = parse_grep_output("notes.txt:4:42 is the answer\nlib.rs:9:/// doc");
    assert_eq!(results.len(), 2);
    assert_eq!(results[0].path, "notes.txt");
    assert_eq!(results[0].line_number, 4);
    assert_eq!(results[0].content, "42 is the answer");
    assert_eq!(results[1].path, "lib.rs");
    assert_eq!(results[1].line_number, 9);
    assert_eq!(results[1].content, "/// doc");
}

#[test]
fn a_grep_with_no_matches_is_empty_and_a_failure_reports_stderr() {
    assert!(git_grep(false, Some(1), "", "").unwrap().is_empty());
    assert_eq!(
        git_grep(false, Some(2), "", "  fatal: bad pattern \n").unwrap_err(),
        "git grep failed: fatal: bad pattern"
    );
    let found = git_grep(true, Some(0), "a.rs:3:x\n", "").unwrap();
    assert_eq!(found.len(), 1);
    assert_eq!(found[0].line_number, 3);
}

#[test]
fn output_is_read_line_by_line() {
    let x = "a.rs:1:one\nnot a match";
    let y = "b.rs:2:two";
    let joined = parse_grep_output(&format!("{x}\n{y}"));
    let mut parts = parse_grep_output(x);
    parts.extend(parse_grep_output(y));
    assert_eq!(joined.len(), 2);
    assert_eq!(joined.len(), parts.len());
    for (a, b) in joined.iter().zip(parts.iter()) {
        assert_eq!(a.path, b.path);
        assert_eq!(a.line_number, b.line_number);
        assert_eq!(a.content, b.content);
    }
}
