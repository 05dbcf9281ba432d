use linegrep::lines::split_lines;

fn owned(lines: &[&str]) -> Vec<String> {
    lines.iter().map(|l| l.to_string()).collect()
}

#[test]
fn empty_text_has_no_line() {
    assert_eq!(split_lines(""), Vec::<String>::new());
}

#[test]
fn final_line_feed_adds_no_line() {
    assert_eq!(split_lines("one\ntwo\n"), owned(&["one", "two"]));
    assert_eq!(split_lines("one\ntwo"), owned(&["one", "two"]));
}

#[test]
fn single_line_feed_is_one_empty_line() {
    assert_eq!(split_lines("\n"), owned(&[""]));
    assert_eq!(split_lines("\n\n"), owned(&["", ""]));
    assert_eq!(split_lines("a\n\nb"), owned(&["a", "", "b"]));
}

#[test]
fn carriage_return_before_line_feed_is_dropped() {
    assert_eq!(split_lines("a\r\nb\r\n"), owned(&["a", "b"]));
    assert_eq!(split_lines("\r\n\r\n"), owned(&["", ""]));
}

#[test]
fn only_one_carriage_return_is_dropped() {
    assert_eq!(split_lines("a\r\r\nb"), owned(&["a\r", "b"]));
}

#[test]
fn lone_carriage_return_is_kept() {
    assert_eq!(split_lines("a\rb\n"), owned(&["a\rb"]));
    assert_eq!(split_lines("a\nb\r"), owned(&["a", "b\r"]));
    assert_eq!(split_lines("\r"), owned(&["\r"]));
}

#[test]
fn non_ascii_text_is_split_by_character() {
    assert_eq!(split_lines("héllo\nwörld ✓\r\n日本"), owned(&["héllo", "wörld ✓", "日本"]));
}

#[test]
fn agrees_with_the_standard_line_iterator() {
    let samples = [
        "",
        "\n",
        "\r",
        "\r\n",
        "a",
        "a\n",
        "a\r\n",
        "a\n\r",
        "a\r\r\n\r\nb\r",
        "x\ny\nz",
        "x\n\n\ny\n",
        "tab\there\r\nand there\n\rlast",
    ];
    for text in samples {
        let expected: Vec<String> = text.lines().map(|l| l.to_string()).collect();
        assert_eq!(split_lines(text), expected, "text {:?}", text);
    }
}
