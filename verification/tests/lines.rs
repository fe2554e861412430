use zstd_chunked::lines::split_lines;

fn lines(text: &str) -> Vec<String> {
    split_lines(text.as_bytes())
        .into_iter()
        .map(|line| String::from_utf8(line.to_vec()).unwrap())
        .collect()
}

#[test]
fn lines_of_a_text() {
    assert_eq!(lines(""), Vec::<String>::new());
    assert_eq!(lines("a"), ["a"]);
    assert_eq!(lines("a\n"), ["a"]);
    assert_eq!(lines("a\nb"), ["a", "b"]);
    assert_eq!(lines("a\r\nb\r\n"), ["a", "b"]);
    assert_eq!(lines("\n"), [""]);
    assert_eq!(lines("\n\n"), ["", ""]);
    assert_eq!(lines("a\n\nb"), ["a", "", "b"]);
    assert_eq!(lines("a\r"), ["a\r"]);
    assert_eq!(lines("a\r\r\n"), ["a\r"]);
    assert_eq!(lines("\r\n"), [""]);
    assert_eq!(lines("a\rb\n"), ["a\rb"]);
}

#[test]
fn lines_agree_with_std() {
    for text in ["", "x", "x\n", "\nx", "x\r\ny\rz\n\r\n", "\r", "\r\r", "\n\r", "é\nü\r\n", "a\n\n\n"] {
        let expected: Vec<String> = text.lines().map(str::to_string).collect();
        assert_eq!(lines(text), expected, "{text:?}");
    }
}
