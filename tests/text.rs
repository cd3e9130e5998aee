use code_terminal::text::{join, lines, trimmed, words};

const SAMPLES: [&str; 14] = [
    "",
    "a",
    "  padded\t",
    "\u{a0}\u{3000}wide\u{2009}spaces\u{205f}",
    "one\ntwo\r\nthree",
    "trailing\n",
    "\n\n",
    "\r",
    "cr\rinside\r\n",
    "tabs\tand  double  spaces",
    "\u{85}next\u{2028}line\u{1680}",
    "x\u{200b}y",
    "mixed \r\n\t end ",
    "ends with cr\r",
];

#[test]
fn trim_matches_std() {
    for s in SAMPLES {
        assert_eq!(trimmed(s), s.trim(), "input {:?}", s);
    }
}

#[test]
fn words_match_std() {
    for s in SAMPLES {
        let expected: Vec<String> = s.split_whitespace().map(|w| w.to_string()).collect();
        assert_eq!(words(s), expected, "input {:?}", s);
    }
}

#[test]
fn lines_match_std() {
    for s in SAMPLES {
        let expected: Vec<String> = s.lines().map(|l| l.to_string()).collect();
        assert_eq!(lines(s), expected, "input {:?}", s);
    }
}

#[test]
fn join_concatenates() {
    assert_eq!(join("ab", "cd"), "abcd");
    assert_eq!(join("", "x"), "x");
}
