use rshell::history::History;

#[test]
fn listing_is_numbered_and_right_aligned() {
    let mut h = History::new();
    h.push("ls".to_string());
    h.push("echo hi".to_string());
    assert_eq!(h.write_to(None), vec!["    1  ls".to_string(), "    2  echo hi".to_string()]);
}

#[test]
fn limited_listing_shows_the_last_entries() {
    let mut h = History::new();
    for i in 0..12 {
        h.push(format!("cmd{}", i));
    }
    assert_eq!(h.write_to(Some(2)), vec!["   11  cmd10".to_string(), "   12  cmd11".to_string()]);
    assert_eq!(h.write_to(Some(50)).len(), 12);
    assert_eq!(h.write_to(Some(0)).len(), 0);
    let full = h.write_to(None);
    assert_eq!(h.write_to(Some(3)), full[9..].to_vec());
}

#[test]
fn wide_numbers_are_not_cut() {
    let mut h = History::new();
    for i in 0..100001 {
        h.push(format!("{}", i));
    }
    let last = h.write_to(Some(1));
    assert_eq!(last, vec!["100001  100000".to_string()]);
}

#[test]
fn file_lines_skip_empty_and_strip_crlf() {
    let mut h = History::new();
    h.append_lines("a\r\n\nb\nc\r");
    assert_eq!(h.entries(), &vec!["a".to_string(), "b".to_string(), "c\r".to_string()]);
}

#[test]
fn file_text_reads_back() {
    let mut h = History::new();
    h.push("ls -l".to_string());
    h.push("echo 'x y'".to_string());
    let text = h.file_text();
    assert_eq!(text, "ls -l\necho 'x y'\n");
    let mut back = History::new();
    back.append_lines(&text);
    assert_eq!(back.entries(), h.entries());
}

#[test]
fn append_takes_only_new_entries() {
    let mut h = History::new();
    h.push("one".to_string());
    h.mark_all_appended();
    h.push("two".to_string());
    h.push("three".to_string());
    assert_eq!(h.take_unappended(), "two\nthree\n");
    assert_eq!(h.take_unappended(), "");
    h.push("four".to_string());
    assert_eq!(h.take_unappended(), "four\n");
    assert_eq!(h.file_text(), "one\ntwo\nthree\nfour\n");
}
