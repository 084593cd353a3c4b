use ftml::filter::blockquote::substitute;

const TEST_CASES: [(&str, &str); 9] = [
    ("", ""),
    (
        "> alpha\nbeta\n> gamma\ndelta",
        "[[quote]]\nalpha\n[[/quote]]\nbeta\n[[quote]]\ngamma\n[[/quote]]\ndelta",
    ),
    (
        "test\n> abc\n> def\n> ghi\n>> apple\n>> banana\n>>> durian\n>> fruit list\nend",
        "test\n[[quote]]\nabc\ndef\nghi\n[[quote]]\napple\nbanana\n[[quote]]\ndurian\n[[/quote]]\nfruit list\n[[/quote]]\n[[/quote]]\nend",
    ),
    (
        ">>>> deep quote block\n>>>> contents",
        "[[quote]]\n[[quote]]\n[[quote]]\n[[quote]]\ndeep quote block\ncontents\n[[/quote]]\n[[/quote]]\n[[/quote]]\n[[/quote]]\n",
    ),
    (
        ">no space test\n> it's weird wikidot requires it\n>  extra space",
        "[[quote]]\nno space test\nit's weird wikidot requires it\nextra space\n[[/quote]]\n",
    ),
    (
        "> multiple quotes test\n\n> another block\n>> omega\n",
        "[[quote]]\nmultiple quotes test\n[[/quote]]\n\n[[quote]]\nanother block\n[[quote]]\nomega\n[[/quote]]\n[[/quote]]\n",
    ),
    (
        "this string doesn't have any quotes in it",
        "this string doesn't have any quotes in it",
    ),
    (
        "> apple\n> > fake quote\n> >> even faker\n",
        "[[quote]]\napple\n> fake quote\n>> even faker\n[[/quote]]\n",
    ),
    (
        "[[div]]\napple\n> banana\n[[/div]]\n> durian\n",
        "[[div]]\napple\n[[quote]]\nbanana\n[[/quote]]\n[[/div]]\n[[quote]]\ndurian\n[[/quote]]\n",
    ),
];

fn filtered(input: &str) -> String {
    let mut text = String::from(input);
    if let Err(error) = substitute(&mut text) {
        panic!("blockquote filter failed on {:?}: {}", input, error.message());
    }
    text
}

fn count(text: &str, pattern: &str) -> usize {
    text.matches(pattern).count()
}

#[test]
fn test_substitute() {
    for (input, expected) in TEST_CASES.iter() {
        let mut text = String::from(*input);
        let result = substitute(&mut text);
        assert!(result.is_ok(), "blockquote filter failed on {:?}", input);
        assert_eq!(&text, expected, "blockquote filter gave another text for {:?}", input);
    }
}

#[test]
fn empty_text_stays_empty() {
    assert_eq!(filtered(""), "");
}

#[test]
fn two_separate_quotes() {
    assert_eq!(
        filtered("> alpha\nbeta\n> gamma\ndelta"),
        "[[quote]]\nalpha\n[[/quote]]\nbeta\n[[quote]]\ngamma\n[[/quote]]\ndelta"
    );
}

#[test]
fn deep_quote_is_closed_at_the_end() {
    assert_eq!(
        filtered(">>>> deep quote block\n>>>> contents"),
        "[[quote]]\n[[quote]]\n[[quote]]\n[[quote]]\ndeep quote block\ncontents\n[[/quote]]\n[[/quote]]\n[[/quote]]\n[[/quote]]\n"
    );
}

#[test]
fn text_without_quotes_is_unchanged() {
    for input in [
        "this string doesn't have any quotes in it",
        "one\ntwo\n\nthree\n",
        "\n",
        "\n\n",
        "a > b\n2 >> 1",
        " > indented marker",
        "caf\u{e9} \u{4e16}\u{754c}\n\u{1f600}",
    ] {
        assert_eq!(filtered(input), input);
    }
}

#[test]
fn markers_are_balanced_and_nested() {
    for input in [
        "> a",
        ">>> a\n> b\n>> c",
        "> a\n\n>> b\nc\n>>>> d",
        ">",
        ">>\n",
        "x\n> y\nz\n>> w",
    ] {
        let output = filtered(input);
        assert_eq!(count(&output, "[[quote]]\n"), count(&output, "[[/quote]]\n"));
        let mut open = 0usize;
        for line in output.split('\n') {
            if line == "[[quote]]" {
                open += 1;
            } else if line == "[[/quote]]" {
                assert!(open > 0, "a quote is closed before it is opened in {:?}", output);
                open -= 1;
            }
        }
        assert_eq!(open, 0);
    }
}

#[test]
fn depth_rises_and_falls_by_steps() {
    assert_eq!(
        filtered("> a\n>>> b\n>> c"),
        "[[quote]]\na\n[[quote]]\n[[quote]]\nb\n[[/quote]]\nc\n[[/quote]]\n[[/quote]]\n"
    );
}

#[test]
fn marker_alone_is_an_empty_quoted_line() {
    assert_eq!(filtered(">"), "[[quote]]\n\n[[/quote]]\n");
    assert_eq!(filtered(">   "), "[[quote]]\n\n[[/quote]]\n");
}

#[test]
fn only_spaces_after_the_markers_are_dropped() {
    assert_eq!(filtered(">\tx"), "[[quote]]\n\tx\n[[/quote]]\n");
    assert_eq!(filtered("> > x"), "[[quote]]\n> x\n[[/quote]]\n");
}

#[test]
fn text_outside_ascii_is_kept() {
    assert_eq!(
        filtered("> caf\u{e9}\n\u{4e16}\u{754c}"),
        "[[quote]]\ncaf\u{e9}\n[[/quote]]\n\u{4e16}\u{754c}"
    );
}

#[test]
fn text_spelled_like_a_marker_is_copied() {
    assert_eq!(filtered("[[/quote]]"), "[[/quote]]");
    assert_eq!(filtered("> [[quote]]"), "[[quote]]\n[[quote]]\n[[/quote]]\n");
}

#[test]
fn line_feeds_are_kept() {
    assert_eq!(filtered("\n> a\n\n"), "\n[[quote]]\na\n[[/quote]]\n\n");
    assert_eq!(filtered("> a\n"), "[[quote]]\na\n[[/quote]]\n");
}
