use ftml::parse::grammar::Pair;
use ftml::parse::rule::Rule;
use ftml::parse::token::{match_document, ExtractedToken, Token};

fn kinds(text: &str) -> Vec<Token> {
    Token::extract_all(text).iter().map(|token| token.token).collect()
}

fn token(token: Token, slice: &str, start: usize, end: usize) -> ExtractedToken<'_> {
    ExtractedToken { token, slice, span: start..end }
}

fn assert_covers(text: &str) {
    let tokens = Token::extract_all(text);
    assert!(!tokens.is_empty());
    let mut at = 0;
    for token in &tokens {
        assert_eq!(token.span.start, at, "gap or overlap in {:?}", text);
        assert!(token.span.start <= token.span.end);
        assert_eq!(token.slice, &text[token.span.start..token.span.end]);
        at = token.span.end;
    }
    assert_eq!(at, text.len());
}

#[test]
fn empty_text_is_the_end_of_input() {
    assert_eq!(Token::extract_all(""), vec![token(Token::InputEnd, "", 0, 0)]);
}

#[test]
fn words_and_formatting() {
    let text = "**bold** text";
    assert_eq!(
        Token::extract_all(text),
        vec![
            token(Token::Bold, "**", 0, 2),
            token(Token::Identifier, "bold", 2, 6),
            token(Token::Bold, "**", 6, 8),
            token(Token::Whitespace, " ", 8, 9),
            token(Token::Identifier, "text", 9, 13),
            token(Token::InputEnd, "", 13, 13),
        ]
    );
}

#[test]
fn every_fixed_text() {
    let cases = [
        ("[", Token::LeftBracket),
        ("]", Token::RightBracket),
        ("[[", Token::LeftTag),
        ("[[#", Token::LeftTagAnchor),
        ("[[*", Token::LeftTagSpecial),
        ("]]", Token::RightTag),
        ("[[/", Token::RightTagEnd),
        ("|", Token::Pipe),
        ("=", Token::Equals),
        ("\"", Token::Quote),
        ("--", Token::DoubleDash),
        ("---", Token::TripleDash),
        ("**", Token::Bold),
        ("//", Token::Italics),
        ("__", Token::Underline),
        ("^^", Token::Superscript),
        (",,", Token::Subscript),
        ("{{", Token::LeftMonospace),
        ("}}", Token::RightMonospace),
        ("##", Token::Color),
        ("@@", Token::Raw),
        ("@<", Token::LeftRaw),
        (">@", Token::RightRaw),
        ("[[[", Token::LeftLink),
        ("]]]", Token::RightLink),
        ("||", Token::TableColumn),
        ("||~", Token::TableColumnTitle),
        ("[[>]]", Token::RightAlignOpen),
        ("[[/>]]", Token::RightAlignClose),
        ("[[<]]", Token::LeftAlignOpen),
        ("[[/<]]", Token::LeftAlignClose),
        ("[[=]]", Token::CenterAlignOpen),
        ("[[/=]]", Token::CenterAlignClose),
        ("[[==]]", Token::JustifyAlignOpen),
        ("[[/==]]", Token::JustifyAlignClose),
    ];
    for (text, kind) in cases {
        assert_eq!(
            Token::extract_all(text),
            vec![token(kind, text, 0, text.len()), token(Token::InputEnd, "", text.len(), text.len())],
            "for {:?}",
            text
        );
    }
}

#[test]
fn the_longer_fixed_text_wins() {
    assert_eq!(kinds("----"), vec![Token::TripleDash, Token::Other, Token::InputEnd]);
    assert_eq!(kinds("[[[["), vec![Token::LeftLink, Token::LeftBracket, Token::InputEnd]);
    assert_eq!(kinds("|||"), vec![Token::TableColumn, Token::Pipe, Token::InputEnd]);
    assert_eq!(kinds("[[/div]]"), vec![
        Token::RightTagEnd,
        Token::Identifier,
        Token::RightTag,
        Token::InputEnd
    ]);
}

#[test]
fn line_breaks_and_blanks() {
    let text = "a\nb\n\n\nc \t d";
    assert_eq!(
        Token::extract_all(text),
        vec![
            token(Token::Identifier, "a", 0, 1),
            token(Token::LineBreak, "\n", 1, 2),
            token(Token::Identifier, "b", 2, 3),
            token(Token::ParagraphBreak, "\n\n\n", 3, 6),
            token(Token::Identifier, "c", 6, 7),
            token(Token::Whitespace, " \t ", 7, 10),
            token(Token::Identifier, "d", 10, 11),
            token(Token::InputEnd, "", 11, 11),
        ]
    );
}

#[test]
fn urls() {
    let text = "[[[https://example.com/a?b=1|site]]]";
    assert_eq!(
        Token::extract_all(text),
        vec![
            token(Token::LeftLink, "[[[", 0, 3),
            token(Token::Url, "https://example.com/a?b=1", 3, 28),
            token(Token::Pipe, "|", 28, 29),
            token(Token::Identifier, "site", 29, 33),
            token(Token::RightLink, "]]]", 33, 36),
            token(Token::InputEnd, "", 36, 36),
        ]
    );
    assert_eq!(kinds("http://x"), vec![Token::Url, Token::InputEnd]);
    assert_eq!(kinds("ftp://x"), vec![Token::Url, Token::InputEnd]);
    // A scheme with nothing after it is no URL.
    assert_eq!(kinds("http://"), vec![Token::Identifier, Token::Other, Token::Italics, Token::InputEnd]);
}

#[test]
fn emails() {
    let text = "mail john.doe+x@example.org now";
    assert_eq!(
        Token::extract_all(text),
        vec![
            token(Token::Identifier, "mail", 0, 4),
            token(Token::Whitespace, " ", 4, 5),
            token(Token::Email, "john.doe+x@example.org", 5, 27),
            token(Token::Whitespace, " ", 27, 28),
            token(Token::Identifier, "now", 28, 31),
            token(Token::InputEnd, "", 31, 31),
        ]
    );
    // Without a domain the name is a word and the sign is taken as it is.
    assert_eq!(kinds("john@"), vec![Token::Identifier, Token::Other, Token::InputEnd]);
}

#[test]
fn strings() {
    let text = "a=\"b c\"";
    assert_eq!(
        Token::extract_all(text),
        vec![
            token(Token::Identifier, "a", 0, 1),
            token(Token::Equals, "=", 1, 2),
            token(Token::String, "\"b c\"", 2, 7),
            token(Token::InputEnd, "", 7, 7),
        ]
    );
    assert_eq!(kinds("\"\""), vec![Token::String, Token::InputEnd]);
    // A quote that is not closed on its line is only a quote.
    assert_eq!(kinds("\"ab"), vec![Token::Quote, Token::Identifier, Token::InputEnd]);
    assert_eq!(
        kinds("\"ab\ncd\""),
        vec![
            Token::Quote,
            Token::Identifier,
            Token::LineBreak,
            Token::Identifier,
            Token::Quote,
            Token::InputEnd
        ]
    );
}

#[test]
fn characters_outside_ascii() {
    let text = "caf\u{e9} \u{4e16}\u{1f600}!";
    assert_eq!(
        Token::extract_all(text),
        vec![
            token(Token::Identifier, "caf", 0, 3),
            token(Token::Other, "\u{e9}", 3, 5),
            token(Token::Whitespace, " ", 5, 6),
            token(Token::Other, "\u{4e16}", 6, 9),
            token(Token::Other, "\u{1f600}", 9, 13),
            token(Token::Other, "!", 13, 14),
            token(Token::InputEnd, "", 14, 14),
        ]
    );
    assert_eq!(
        Token::extract_all("\"\u{e9}\""),
        vec![token(Token::String, "\"\u{e9}\"", 0, 4), token(Token::InputEnd, "", 4, 4)]
    );
}

#[test]
fn unmatched_text_is_one_other_token() {
    for text in ["\u{0}", "abc\u{1}def", "**x**\r\n", "\u{7f}", "a\u{b}", "[[\u{1b}]]"] {
        assert_eq!(match_document(text), None, "for {:?}", text);
        assert_eq!(
            Token::extract_all(text),
            vec![token(Token::Other, text, 0, text.len())],
            "for {:?}",
            text
        );
    }
}

#[test]
fn tokens_cover_the_text() {
    for text in [
        "",
        " ",
        "\n",
        "plain words",
        "[[div class=\"x\"]]\n> **a** //b// __c__\n[[/div]]",
        "|| a || b ||\n||~ h ||",
        "@@raw@@ @<x>@ {{m}} ^^s^^ ,,t,, ##red|c##",
        "[[>]]\nr\n[[/>]]\n[[==]]\nj\n[[/==]]",
        "\u{e9}\u{4e16}\u{1f600}",
        "bad \u{2} byte",
        "x -- y --- z",
        "\"open",
    ] {
        assert_covers(text);
    }
}

#[test]
fn matches_of_a_document() {
    assert_eq!(
        match_document("[[a]]"),
        Some(vec![
            Pair { rule: Rule::LeftTag, start: 0, end: 2 },
            Pair { rule: Rule::Identifier, start: 2, end: 3 },
            Pair { rule: Rule::RightTag, start: 3, end: 5 },
            Pair { rule: Rule::Eoi, start: 5, end: 5 },
        ])
    );
    assert_eq!(match_document(""), Some(vec![Pair { rule: Rule::Eoi, start: 0, end: 0 }]));
}

#[test]
fn tokens_from_given_matches() {
    let text = "ab cd";
    let pairs = vec![
        Pair { rule: Rule::Identifier, start: 0, end: 2 },
        Pair { rule: Rule::Space, start: 2, end: 3 },
        Pair { rule: Rule::Other, start: 3, end: 5 },
    ];
    assert_eq!(
        Token::from_matches(text, Some(pairs)),
        vec![
            token(Token::Identifier, "ab", 0, 2),
            token(Token::Whitespace, " ", 2, 3),
            token(Token::Other, "cd", 3, 5),
        ]
    );
    assert_eq!(Token::from_matches(text, None), vec![token(Token::Other, "ab cd", 0, 5)]);
    assert_eq!(Token::from_matches("", None), vec![token(Token::Other, "", 0, 0)]);
}

#[test]
fn one_pair_to_one_token() {
    let text = "x \u{e9}";
    assert_eq!(
        Token::convert_pair(text, Pair { rule: Rule::Other, start: 2, end: 4 }),
        token(Token::Other, "\u{e9}", 2, 4)
    );
    assert_eq!(
        Token::convert_pair(text, Pair { rule: Rule::Eoi, start: 4, end: 4 }),
        token(Token::InputEnd, "", 4, 4)
    );
}

#[test]
fn rules_to_tokens() {
    let table = [
        (Rule::LeftBracket, Token::LeftBracket),
        (Rule::RightBracket, Token::RightBracket),
        (Rule::LeftTag, Token::LeftTag),
        (Rule::LeftTagAnchor, Token::LeftTagAnchor),
        (Rule::LeftTagSpecial, Token::LeftTagSpecial),
        (Rule::RightTag, Token::RightTag),
        (Rule::RightTagEnd, Token::RightTagEnd),
        (Rule::Color, Token::Color),
        (Rule::Pipe, Token::Pipe),
        (Rule::Equals, Token::Equals),
        (Rule::Quote, Token::Quote),
        (Rule::DoubleDash, Token::DoubleDash),
        (Rule::TripleDash, Token::TripleDash),
        (Rule::LineBreak, Token::LineBreak),
        (Rule::ParagraphBreak, Token::ParagraphBreak),
        (Rule::Space, Token::Whitespace),
        (Rule::Bold, Token::Bold),
        (Rule::Italics, Token::Italics),
        (Rule::Underline, Token::Underline),
        (Rule::Superscript, Token::Superscript),
        (Rule::Subscript, Token::Subscript),
        (Rule::LeftMonospace, Token::LeftMonospace),
        (Rule::RightMonospace, Token::RightMonospace),
        (Rule::Raw, Token::Raw),
        (Rule::LeftRaw, Token::LeftRaw),
        (Rule::RightRaw, Token::RightRaw),
        (Rule::LeftLink, Token::LeftLink),
        (Rule::RightLink, Token::RightLink),
        (Rule::TableColumn, Token::TableColumn),
        (Rule::TableColumnTitle, Token::TableColumnTitle),
        (Rule::OpenRightAlign, Token::RightAlignOpen),
        (Rule::OpenLeftAlign, Token::LeftAlignOpen),
        (Rule::OpenCenterAlign, Token::CenterAlignOpen),
        (Rule::OpenJustifyAlign, Token::JustifyAlignOpen),
        (Rule::CloseRightAlign, Token::RightAlignClose),
        (Rule::CloseLeftAlign, Token::LeftAlignClose),
        (Rule::CloseCenterAlign, Token::CenterAlignClose),
        (Rule::CloseJustifyAlign, Token::JustifyAlignClose),
        (Rule::Identifier, Token::Identifier),
        (Rule::Email, Token::Email),
        (Rule::Url, Token::Url),
        (Rule::String, Token::String),
        (Rule::Other, Token::Other),
        (Rule::Eoi, Token::InputEnd),
    ];
    for (rule, expected) in table {
        assert!(rule.is_token_rule());
        assert_eq!(Token::get_from_rule(rule), expected);
    }
    for rule in [Rule::Char, Rule::Document, Rule::Token] {
        assert!(!rule.is_token_rule());
    }
}

#[test]
fn whitespace_tokens() {
    assert!(Token::LineBreak.is_whitespace());
    assert!(Token::ParagraphBreak.is_whitespace());
    assert!(Token::Whitespace.is_whitespace());
    assert!(!Token::Other.is_whitespace());
    assert!(!Token::InputEnd.is_whitespace());
    assert!(!Token::Identifier.is_whitespace());
}

#[test]
fn token_names() {
    assert_eq!(Token::LeftBracket.name(), "left-bracket");
    assert_eq!(Token::LeftTagAnchor.name(), "left-tag-anchor");
    assert_eq!(Token::RightTagEnd.name(), "right-tag-end");
    assert_eq!(Token::LeftAnchor.name(), "left-anchor");
    assert_eq!(Token::ParagraphBreak.name(), "paragraph-break");
    assert_eq!(Token::Whitespace.name(), "whitespace");
    assert_eq!(Token::TableColumnTitle.name(), "table-column-title");
    assert_eq!(Token::JustifyAlignClose.name(), "justify-align-close");
    assert_eq!(Token::String.name(), "string");
    assert_eq!(Token::InputEnd.name(), "input-end");
    assert_eq!(Token::Other.name(), "other");
}

#[test]
fn token_copies_are_equal() {
    let tokens = Token::extract_all("a b");
    let copy = tokens[0].clone();
    assert_eq!(copy, tokens[0]);
}
