use synq_codec::error::ParseError;

fn err(typ: &str, line: usize, col: usize) -> ParseError {
    ParseError::Unexpected { typ: typ.to_string(), line, col }
}

#[test]
fn message_text() {
    assert_eq!(err(",", 3, 14).to_string(), "Unexpected input: , at line 3:14");
}

#[test]
fn pretty_print_points_at_the_input() {
    let source = "frame A {\n  x, u8\n}";
    assert_eq!(
        err(",", 1, 3).pretty_print(source),
        "error: unexpected input ','\n --> 1:3\n  |\n1 |   x, u8\n  |    ^"
    );
}

#[test]
fn pretty_print_pointer_as_wide_as_the_input() {
    assert_eq!(
        err("EOF", 0, 0).pretty_print("const"),
        "error: unexpected input 'EOF'\n --> 0:0\n  |\n0 | const\n  | ^^^"
    );
    assert_eq!(
        err("", 12, 2).pretty_print("a"),
        "error: unexpected input ''\n --> 12:2\n  |\n12 | \n  |   ^"
    );
}

#[test]
fn pretty_print_lines_like_str_lines() {
    let source = "a\r\nb\r\n\nc\r";
    assert_eq!(err("x", 0, 0).pretty_print(source), "error: unexpected input 'x'\n --> 0:0\n  |\n0 | a\n  | ^");
    assert_eq!(err("x", 1, 0).pretty_print(source), "error: unexpected input 'x'\n --> 1:0\n  |\n1 | b\n  | ^");
    assert_eq!(err("x", 2, 0).pretty_print(source), "error: unexpected input 'x'\n --> 2:0\n  |\n2 | \n  | ^");
    assert_eq!(err("x", 3, 0).pretty_print(source), "error: unexpected input 'x'\n --> 3:0\n  |\n3 | c\r\n  | ^");
    assert_eq!(err("x", 4, 0).pretty_print(source), "error: unexpected input 'x'\n --> 4:0\n  |\n4 | \n  | ^");
    for (i, l) in source.lines().enumerate() {
        let want = format!("error: unexpected input 'x'\n --> {i}:0\n  |\n{i} | {l}\n  | ^");
        assert_eq!(err("x", i, 0).pretty_print(source), want);
    }
}

#[test]
fn pretty_print_multibyte() {
    assert_eq!(
        err("é", 0, 1).pretty_print("aé"),
        "error: unexpected input 'é'\n --> 0:1\n  |\n0 | aé\n  |  ^"
    );
}
