use linearf::doc_block::{find_block, lines_of, load_block};

#[test]
fn lines_split_like_str_lines() {
    for text in ["", "a", "a\n", "a\nb", "a\r\nb\r\n", "\n\n", "x\ny\n\nz", "a\rb\n"] {
        let want: Vec<String> = text.lines().map(|l| l.to_string()).collect();
        assert_eq!(lines_of(text), want, "{:?}", text);
    }
}

#[test]
fn block_between_marker_lines() {
    let body = "intro\nfn a() {\n    1\n\n}\nrest\n".to_string();
    let b = load_block(body, "fn a() {", "}", 1);
    assert_eq!(b.render(), ">\n\t\t  fn a() {\n\t\t      1\n\n\t\t  }\n<");
}

#[test]
fn block_of_one_line() {
    let b = load_block("a\nb\nc".to_string(), "b", "b", 0);
    assert_eq!(b.render(), ">\n  b\n<");
}

#[test]
fn missing_lines_give_nothing() {
    assert!(find_block("a\nb".to_string(), "x", "b", 0).is_none());
    // the last line is looked for after the first one only
    assert!(find_block("end\nstart".to_string(), "start", "end", 0).is_none());
    let b = find_block("a\nb\nc".to_string(), "a", "c", 2).expect("both lines are there");
    assert_eq!(b.render(), ">\n\t\t\t\t  a\n\t\t\t\t  b\n\t\t\t\t  c\n<");
}
