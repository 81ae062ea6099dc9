use rgitui_git::conflict::{complete_conflict_marker_size, contains_conflict_markers, resolve_marker_size};

#[test]
fn every_partial_conflict_marker_is_rejected_on_its_own() {
    for marker in [
        b"<<<<<<< current\n".as_slice(),
        b"||||||| base\n".as_slice(),
        b"=======\n".as_slice(),
        b">>>>>>> incoming\n".as_slice(),
    ] {
        assert!(contains_conflict_markers(marker, 7));
    }
    assert!(!contains_conflict_markers(b"ordinary content\n", 7));
}

#[test]
fn longer_delimiter_runs_are_not_conflict_markers() {
    for content in [
        b"<<<<<<<< Markdown heading\n".as_slice(),
        b"|||||||| generated data\n".as_slice(),
        b"====================\n".as_slice(),
        b">>>>>>>> Markdown heading\n".as_slice(),
        b"======= not-a-separator-label\n".as_slice(),
    ] {
        assert!(!contains_conflict_markers(content, 7));
    }

    assert!(contains_conflict_markers(b"<<<<<<< current\n", 7));
    assert!(contains_conflict_markers(b"=======\n", 7));
    assert!(contains_conflict_markers(b">>>>>>> incoming\n", 7));
}

#[test]
fn a_complete_block_reports_its_marker_width() {
    let content = b"a\n<<<<<<<<< ours\nx\n=========\ny\n>>>>>>>>> theirs\nb\n";
    assert_eq!(complete_conflict_marker_size(content), Some(9));
    assert!(contains_conflict_markers(content, 9));
    assert!(!contains_conflict_markers(content, 7));
}

#[test]
fn a_block_with_an_ancestor_section_is_complete() {
    let content = b"<<<<<<< ours\r\nx\r\n||||||| base\r\nw\r\n=======\r\ny\r\n>>>>>>> theirs\r\n";
    assert_eq!(complete_conflict_marker_size(content), Some(7));
}

#[test]
fn an_unclosed_block_has_no_width() {
    assert_eq!(complete_conflict_marker_size(b"<<<<<<< ours\nx\n=======\ny\n"), None);
    assert_eq!(complete_conflict_marker_size(b"plain text\n"), None);
    // A closing marker of another width does not close the block.
    assert_eq!(
        complete_conflict_marker_size(b"<<<<<<< ours\n=======\n>>>>>>>> theirs\n"),
        None
    );
}

#[test]
fn the_marker_size_prefers_the_captured_block_then_the_attribute() {
    let captured = b"<<<<<<<<<< a\n==========\n>>>>>>>>>> b\n";
    assert_eq!(resolve_marker_size(Some(captured.as_slice()), Some("12")), 10);
    assert_eq!(resolve_marker_size(Some(b"no block".as_slice()), Some("12")), 12);
    assert_eq!(resolve_marker_size(None, Some("+9")), 9);
    assert_eq!(resolve_marker_size(None, Some("0")), 7);
    assert_eq!(resolve_marker_size(None, Some("many")), 7);
    assert_eq!(resolve_marker_size(None, None), 7);
}

#[test]
fn no_line_opening_with_a_left_angle_means_no_block() {
    assert_eq!(complete_conflict_marker_size(b"=======\n>>>>>>> x\n|||||||\n"), None);
    assert_eq!(complete_conflict_marker_size(b" <<<<<<< indented\n=======\n>>>>>>>\n"), None);
    let found = complete_conflict_marker_size(b"<<<<<<< a\nx\n=======\ny\n>>>>>>> b\n").unwrap();
    assert!(found > 0);
    assert!(contains_conflict_markers(b"<<<<<<< a\nx\n=======\ny\n>>>>>>> b\n", found));
}
