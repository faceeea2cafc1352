use rshell::text::{join, lines, parse_usize, to_decimal};

#[test]
fn parse_usize_like_std() {
    for s in ["0", "42", "+7", "", "+", "-1", "12a", " 3", "18446744073709551615", "18446744073709551616", "007"] {
        assert_eq!(parse_usize(s), s.parse::<usize>().ok(), "input {:?}", s);
    }
}

#[test]
fn decimal_reads_back() {
    for n in [0usize, 9, 10, 99, 100, 12345, usize::MAX] {
        assert_eq!(to_decimal(n), n.to_string());
        assert_eq!(parse_usize(&to_decimal(n)), Some(n));
    }
}

#[test]
fn lines_like_std() {
    for s in ["", "a", "a\n", "a\nb", "a\r\nb\r\n", "\n\n", "x\r", "\r\n"] {
        let expected: Vec<String> = s.lines().map(|l| l.to_string()).collect();
        assert_eq!(lines(s), expected, "input {:?}", s);
    }
}

#[test]
fn join_with_separator() {
    let ws = vec!["a".to_string(), "bc".to_string(), "d".to_string()];
    assert_eq!(join(&ws, ", "), "a, bc, d");
    assert_eq!(join(&Vec::new(), "x"), "");
}
