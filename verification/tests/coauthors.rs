use rgitui_git::coauthor::{clean_co_author_lines, extract_co_authors, parse_co_authors};

#[test]
fn parse_single_co_author() {
    let message = "Fix a bug\n\nCo-Authored-By: Alice Smith <alice@example.com>";
    let (cleaned, authors) = parse_co_authors(message);
    assert_eq!(authors.len(), 1);
    assert_eq!(authors[0].name, "Alice Smith");
    assert_eq!(authors[0].email, "alice@example.com");
    assert_eq!(cleaned, "Fix a bug");
}

#[test]
fn parse_multiple_co_authors() {
    let message = "Refactor module\n\n\
        Co-Authored-By: Alice <alice@example.com>\n\
        Co-Authored-By: Bob Jones <bob@example.com>";
    let (cleaned, authors) = parse_co_authors(message);
    assert_eq!(authors.len(), 2);
    assert_eq!(authors[0].name, "Alice");
    assert_eq!(authors[1].name, "Bob Jones");
    assert_eq!(cleaned, "Refactor module");
}

#[test]
fn parse_co_author_case_insensitive() {
    let message = "Fix\n\nco-authored-by: Alice <alice@example.com>";
    let (_, authors) = parse_co_authors(message);
    assert_eq!(authors.len(), 1);
    assert_eq!(authors[0].name, "Alice");
}

#[test]
fn parse_no_co_authors() {
    let message = "Just a normal commit message\n\nWith a body.";
    let (cleaned, authors) = parse_co_authors(message);
    assert!(authors.is_empty());
    assert_eq!(cleaned, "Just a normal commit message\n\nWith a body.");
}

#[test]
fn parse_co_author_missing_email() {
    let message = "Fix\n\nCo-Authored-By: Alice";
    let (cleaned, authors) = parse_co_authors(message);
    assert!(authors.is_empty());
    assert!(cleaned.contains("Co-Authored-By: Alice"));
}

#[test]
fn parse_co_author_empty_name() {
    let message = "Fix\n\nCo-Authored-By: <alice@example.com>";
    let (_, authors) = parse_co_authors(message);
    assert!(authors.is_empty());
}

#[test]
fn parse_co_author_empty_email() {
    let message = "Fix\n\nCo-Authored-By: Alice <>";
    let (_, authors) = parse_co_authors(message);
    assert!(authors.is_empty());
}

#[test]
fn parse_co_author_empty_message() {
    let (cleaned, authors) = parse_co_authors("");
    assert!(authors.is_empty());
    assert_eq!(cleaned, "");
}

#[test]
fn parse_co_author_preserves_body_lines() {
    let message = "Title\n\nBody line 1\nBody line 2\n\nCo-Authored-By: A <a@b.com>";
    let (cleaned, authors) = parse_co_authors(message);
    assert_eq!(authors.len(), 1);
    assert!(cleaned.contains("Body line 1"));
    assert!(cleaned.contains("Body line 2"));
}

#[test]
fn each_line_is_either_kept_or_read_as_a_co_author() {
    let message = "T\n  CO-AUTHORED-BY:  Ann  < ann@x.org >  \nCo-authored-by: nobody\nend\n";
    let cleaned = clean_co_author_lines(message);
    let authors = extract_co_authors(message);
    assert_eq!(authors.len(), 1);
    assert_eq!(authors[0].name, "Ann");
    assert_eq!(authors[0].email, "ann@x.org");
    assert_eq!(cleaned, "T\nCo-authored-by: nobody\nend");
    assert_eq!(cleaned.lines().count() + authors.len(), message.lines().count());
}

#[test]
fn a_trailer_closing_before_it_opens_names_no_co_author() {
    let message = "Fix\n\nCo-Authored-By: Team -> Bob <bob@example.com>";
    assert!(extract_co_authors(message).is_empty());
    assert_eq!(clean_co_author_lines(message), message);
    let (cleaned, authors) = parse_co_authors(message);
    assert_eq!(cleaned, message);
    assert!(authors.is_empty());
}

#[test]
fn cleaning_keeps_exactly_the_lines_without_a_co_author() {
    let message = "Subject\n\nBody\nCo-authored-by: A <a@x>\nCo-authored-by: no email\n";
    let kept: Vec<&str> = message.lines().filter(|l| extract_co_authors(l).is_empty()).collect();
    assert_eq!(clean_co_author_lines(message), kept.join("\n").trim_end());
    assert_eq!(clean_co_author_lines(message), "Subject\n\nBody\nCo-authored-by: no email");
}
