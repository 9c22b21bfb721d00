use mandelbrot::{sprinkle_line, trim_end, DECORATIONS};

#[test]
fn sprinkle_line_each_decoration() {
    assert_eq!(sprinkle_line("hello\n", 0), "echo: helloapp");
    assert_eq!(sprinkle_line("hello\n", 1), "echo: hellosite");
    assert_eq!(sprinkle_line("hello\n", 2), "echo: hellotime");
    assert_eq!(sprinkle_line("hello\n", 3), "echo: gethello");
    assert_eq!(sprinkle_line("hello\n", 4), "hello");
    assert_eq!(DECORATIONS, 5);
}

#[test]
fn sprinkle_line_keeps_leading_space() {
    assert_eq!(sprinkle_line("  a b \t\r\n", 3), "echo: get  a b");
    assert_eq!(sprinkle_line("", 0), "echo: app");
}

#[test]
fn trim_end_matches_std() {
    let samples = [
        "", " ", "abc", "abc  ", "a\u{3000}", "x\u{85}\u{a0}", "é\u{2009}", "a\u{200b}", "tab\t\n\r",
        "z\u{1680}\u{2028}\u{2029}\u{202f}\u{205f}", "q\u{b}\u{c}", "\u{180e}",
    ];
    for s in samples {
        assert_eq!(trim_end(s), s.trim_end(), "{:?}", s);
    }
    for c in (0u32..0x3100).filter_map(char::from_u32) {
        let s = format!("a{}", c);
        assert_eq!(trim_end(&s), s.trim_end(), "{:?}", c);
    }
}
