//! Tokens: what the lexer makes of a text before it is parsed.

use crate::parse::grammar::{
    document_matches, has_at, is_control, lemma_literal_found, lemma_run_members, literal_from,
    matches_from, other_len, run, scan_token, scheme_len, string_len, token_at, Class, Match,
    Pair, LITERALS, SCHEMES,
};
use crate::parse::rule::Rule;
use crate::text::{lemma_boundary_after_ascii, lemma_literal_ascii, slice_between};
use std::ops::Range;
use vstd::prelude::*;
use vstd::string::StringSliceAdditionalSpecFns;
use vstd::utf8::{
    encode_utf8_valid_utf8, is_char_boundary, is_char_boundary_iff_not_is_continuation_byte,
    is_char_boundary_start_end_of_seq, valid_utf8,
};

verus! {

/// The kinds of token.
#[derive(Debug, Copy, Clone, PartialEq, Eq, Structural)]
pub enum Token {
    //
    // Symbols
    //
    LeftBracket,
    RightBracket,
    LeftTag,
    LeftTagAnchor,
    LeftTagSpecial,
    RightTag,
    RightTagEnd,
    LeftAnchor,
    Pipe,
    Equals,
    Quote,
    DoubleDash,
    TripleDash,
    //
    // Whitespace
    //
    LineBreak,
    ParagraphBreak,
    Whitespace,
    //
    // Formatting
    //
    Bold,
    Italics,
    Underline,
    Superscript,
    Subscript,
    LeftMonospace,
    RightMonospace,
    Color,
    Raw,
    LeftRaw,
    RightRaw,
    //
    // Links
    //
    LeftLink,
    RightLink,
    //
    // Tables
    //
    TableColumn,
    TableColumnTitle,
    //
    // Alignment
    //
    RightAlignOpen,
    RightAlignClose,
    LeftAlignOpen,
    LeftAlignClose,
    CenterAlignOpen,
    CenterAlignClose,
    JustifyAlignOpen,
    JustifyAlignClose,
    //
    // Text components
    //
    Identifier,
    Email,
    Url,
    String,
    //
    // Miscellaneous
    //
    InputEnd,
    //
    // Catch-all case
    //
    Other,
}

/// A token as it was found: its kind, the text it was made of, and where in the
/// source that text lies, in bytes.
#[derive(Debug, PartialEq)]
pub struct ExtractedToken<'a> {
    pub token: Token,
    pub slice: &'a str,
    pub span: Range<usize>,
}

impl<'a> Clone for ExtractedToken<'a> {
    fn clone(&self) -> (copy: Self)
        ensures
            copy == *self,
    {
        ExtractedToken { token: self.token, slice: self.slice, span: self.span.start..self.span.end }
    }
}

/// The model of an extracted token: its kind, its bytes, and the places in the
/// source where it starts and where it ends.
pub struct Lexeme {
    pub token: Token,
    pub bytes: Seq<u8>,
    pub start: int,
    pub end: int,
}

impl<'a> View for ExtractedToken<'a> {
    type V = Lexeme;

    open spec fn view(&self) -> Lexeme {
        Lexeme {
            token: self.token,
            bytes: self.slice.spec_bytes(),
            start: self.span.start as int,
            end: self.span.end as int,
        }
    }
}

/// The token that a match of `rule` in the source `s` gives.
pub open spec fn lexeme_of(s: Seq<u8>, found: Match) -> Lexeme {
    Lexeme {
        token: Token::of_rule(found.rule),
        bytes: s.subrange(found.start, found.end),
        start: found.start,
        end: found.end,
    }
}

/// The one token that stands for a source which the grammar does not match:
/// all of it, as `Other`.
pub open spec fn whole_as_other(s: Seq<u8>) -> Lexeme {
    Lexeme { token: Token::Other, bytes: s, start: 0, end: s.len() as int }
}

/// The tokens that the matches of a document give, or the single token for a
/// document that was not matched.
pub open spec fn lexemes_of(s: Seq<u8>, matched: Option<Seq<Match>>) -> Seq<Lexeme> {
    match matched {
        Some(found) => found.map_values(|one: Match| lexeme_of(s, one)),
        None => seq![whole_as_other(s)],
    }
}

/// The tokens of a source.
pub open spec fn lex(s: Seq<u8>) -> Seq<Lexeme> {
    lexemes_of(s, document_matches(s))
}

/// The tokens follow each other without a gap from the start of the source to
/// its end, and each holds the bytes of the source that its span names.
pub open spec fn covers(tokens: Seq<Lexeme>, s: Seq<u8>) -> bool {
    &&& tokens.len() > 0
    &&& tokens[0].start == 0
    &&& tokens.last().end == s.len()
    &&& forall|i: int|
        0 <= i < tokens.len() ==> 0 <= (#[trigger] tokens[i]).start <= tokens[i].end <= s.len()
            && tokens[i].bytes == s.subrange(tokens[i].start, tokens[i].end)
    &&& forall|i: int, j: int|
        0 <= i && j == i + 1 && j < tokens.len() ==> (#[trigger] tokens[i]).end
            == (#[trigger] tokens[j]).start
}

/// A match can be cut out of the text: it names a rule for a token, lies within
/// the text, and starts and ends between two characters.
pub open spec fn fits(text: &str, found: Match) -> bool {
    &&& found.rule.matches_token()
    &&& 0 <= found.start <= found.end <= text.spec_bytes().len()
    &&& is_char_boundary(text.spec_bytes(), found.start)
    &&& is_char_boundary(text.spec_bytes(), found.end)
}

impl Token {
    /// The kind of token that a rule of the grammar matches.
    pub open spec fn of_rule(rule: Rule) -> Token {
        match rule {
            Rule::LeftBracket => Token::LeftBracket,
            Rule::RightBracket => Token::RightBracket,
            Rule::LeftTag => Token::LeftTag,
            Rule::LeftTagAnchor => Token::LeftTagAnchor,
            Rule::LeftTagSpecial => Token::LeftTagSpecial,
            Rule::RightTag => Token::RightTag,
            Rule::RightTagEnd => Token::RightTagEnd,
            Rule::Color => Token::Color,
            Rule::Pipe => Token::Pipe,
            Rule::Equals => Token::Equals,
            Rule::Quote => Token::Quote,
            Rule::DoubleDash => Token::DoubleDash,
            Rule::TripleDash => Token::TripleDash,
            Rule::LineBreak => Token::LineBreak,
            Rule::ParagraphBreak => Token::ParagraphBreak,
            Rule::Space => Token::Whitespace,
            Rule::Bold => Token::Bold,
            Rule::Italics => Token::Italics,
            Rule::Underline => Token::Underline,
            Rule::Superscript => Token::Superscript,
            Rule::Subscript => Token::Subscript,
            Rule::LeftMonospace => Token::LeftMonospace,
            Rule::RightMonospace => Token::RightMonospace,
            Rule::Raw => Token::Raw,
            Rule::LeftRaw => Token::LeftRaw,
            Rule::RightRaw => Token::RightRaw,
            Rule::LeftLink => Token::LeftLink,
            Rule::RightLink => Token::RightLink,
            Rule::TableColumn => Token::TableColumn,
            Rule::TableColumnTitle => Token::TableColumnTitle,
            Rule::OpenRightAlign => Token::RightAlignOpen,
            Rule::OpenLeftAlign => Token::LeftAlignOpen,
            Rule::OpenCenterAlign => Token::CenterAlignOpen,
            Rule::OpenJustifyAlign => Token::JustifyAlignOpen,
            Rule::CloseRightAlign => Token::RightAlignClose,
            Rule::CloseLeftAlign => Token::LeftAlignClose,
            Rule::CloseCenterAlign => Token::CenterAlignClose,
            Rule::CloseJustifyAlign => Token::JustifyAlignClose,
            Rule::Identifier => Token::Identifier,
            Rule::Email => Token::Email,
            Rule::Url => Token::Url,
            Rule::String => Token::String,
            Rule::Eoi => Token::InputEnd,
            Rule::Other | Rule::Char | Rule::Document | Rule::Token => Token::Other,
        }
    }

    /// The kind of token that a rule of the grammar matches. The three rules
    /// that match no token are not to be asked for.
    pub fn get_from_rule(rule: Rule) -> (token: Token)
        requires
            rule.matches_token(),
        ensures
            token == Token::of_rule(rule),
    {
        match rule {
            // Symbols
            Rule::LeftBracket => Token::LeftBracket,
            Rule::RightBracket => Token::RightBracket,
            Rule::LeftTag => Token::LeftTag,
            Rule::LeftTagAnchor => Token::LeftTagAnchor,
            Rule::LeftTagSpecial => Token::LeftTagSpecial,
            Rule::RightTag => Token::RightTag,
            Rule::RightTagEnd => Token::RightTagEnd,
            Rule::Color => Token::Color,
            Rule::Pipe => Token::Pipe,
            Rule::Equals => Token::Equals,
            Rule::Quote => Token::Quote,
            Rule::DoubleDash => Token::DoubleDash,
            Rule::TripleDash => Token::TripleDash,
            // Whitespace
            Rule::LineBreak => Token::LineBreak,
            Rule::ParagraphBreak => Token::ParagraphBreak,
            Rule::Space => Token::Whitespace,
            // Formatting
            Rule::Bold => Token::Bold,
            Rule::Italics => Token::Italics,
            Rule::Underline => Token::Underline,
            Rule::Superscript => Token::Superscript,
            Rule::Subscript => Token::Subscript,
            Rule::LeftMonospace => Token::LeftMonospace,
            Rule::RightMonospace => Token::RightMonospace,
            Rule::Raw => Token::Raw,
            Rule::LeftRaw => Token::LeftRaw,
            Rule::RightRaw => Token::RightRaw,
            // Links
            Rule::LeftLink => Token::LeftLink,
            Rule::RightLink => Token::RightLink,
            // Tables
            Rule::TableColumn => Token::TableColumn,
            Rule::TableColumnTitle => Token::TableColumnTitle,
            // Alignment
            Rule::OpenRightAlign => Token::RightAlignOpen,
            Rule::OpenLeftAlign => Token::LeftAlignOpen,
            Rule::OpenCenterAlign => Token::CenterAlignOpen,
            Rule::OpenJustifyAlign => Token::JustifyAlignOpen,
            Rule::CloseRightAlign => Token::RightAlignClose,
            Rule::CloseLeftAlign => Token::LeftAlignClose,
            Rule::CloseCenterAlign => Token::CenterAlignClose,
            Rule::CloseJustifyAlign => Token::JustifyAlignClose,
            // Text components
            Rule::Identifier => Token::Identifier,
            Rule::Email => Token::Email,
            Rule::Url => Token::Url,
            Rule::String => Token::String,
            // Other
            Rule::Other => Token::Other,
            Rule::Eoi => Token::InputEnd,
            // Never asked for
            Rule::Char | Rule::Document | Rule::Token => Token::Other,
        }
    }

    /// Whether the token is made of blank space only.
    pub fn is_whitespace(self) -> (blank: bool)
        ensures
            blank == (self is LineBreak || self is ParagraphBreak || self is Whitespace),
    {
        matches!(self, Token::LineBreak | Token::ParagraphBreak | Token::Whitespace)
    }

    /// The name of each kind of token outside the program: lower case, its
    /// words joined by hyphens.
    pub open spec fn name_text(self) -> Seq<char> {
        match self {
            Token::LeftBracket => "left-bracket"@,
            Token::RightBracket => "right-bracket"@,
            Token::LeftTag => "left-tag"@,
            Token::LeftTagAnchor => "left-tag-anchor"@,
            Token::LeftTagSpecial => "left-tag-special"@,
            Token::RightTag => "right-tag"@,
            Token::RightTagEnd => "right-tag-end"@,
            Token::LeftAnchor => "left-anchor"@,
            Token::Pipe => "pipe"@,
            Token::Equals => "equals"@,
            Token::Quote => "quote"@,
            Token::DoubleDash => "double-dash"@,
            Token::TripleDash => "triple-dash"@,
            Token::LineBreak => "line-break"@,
            Token::ParagraphBreak => "paragraph-break"@,
            Token::Whitespace => "whitespace"@,
            Token::Bold => "bold"@,
            Token::Italics => "italics"@,
            Token::Underline => "underline"@,
            Token::Superscript => "superscript"@,
            Token::Subscript => "subscript"@,
            Token::LeftMonospace => "left-monospace"@,
            Token::RightMonospace => "right-monospace"@,
            Token::Color => "color"@,
            Token::Raw => "raw"@,
            Token::LeftRaw => "left-raw"@,
            Token::RightRaw => "right-raw"@,
            Token::LeftLink => "left-link"@,
            Token::RightLink => "right-link"@,
            Token::TableColumn => "table-column"@,
            Token::TableColumnTitle => "table-column-title"@,
            Token::RightAlignOpen => "right-align-open"@,
            Token::RightAlignClose => "right-align-close"@,
            Token::LeftAlignOpen => "left-align-open"@,
            Token::LeftAlignClose => "left-align-close"@,
            Token::CenterAlignOpen => "center-align-open"@,
            Token::CenterAlignClose => "center-align-close"@,
            Token::JustifyAlignOpen => "justify-align-open"@,
            Token::JustifyAlignClose => "justify-align-close"@,
            Token::Identifier => "identifier"@,
            Token::Email => "email"@,
            Token::Url => "url"@,
            Token::String => "string"@,
            Token::InputEnd => "input-end"@,
            Token::Other => "other"@,
        }
    }

    /// The name of this kind of token outside the program.
    pub fn name(self) -> (name: &'static str)
        ensures
            name@ == self.name_text(),
    {
        match self {
            Token::LeftBracket => "left-bracket",
            Token::RightBracket => "right-bracket",
            Token::LeftTag => "left-tag",
            Token::LeftTagAnchor => "left-tag-anchor",
            Token::LeftTagSpecial => "left-tag-special",
            Token::RightTag => "right-tag",
            Token::RightTagEnd => "right-tag-end",
            Token::LeftAnchor => "left-anchor",
            Token::Pipe => "pipe",
            Token::Equals => "equals",
            Token::Quote => "quote",
            Token::DoubleDash => "double-dash",
            Token::TripleDash => "triple-dash",
            Token::LineBreak => "line-break",
            Token::ParagraphBreak => "paragraph-break",
            Token::Whitespace => "whitespace",
            Token::Bold => "bold",
            Token::Italics => "italics",
            Token::Underline => "underline",
            Token::Superscript => "superscript",
            Token::Subscript => "subscript",
            Token::LeftMonospace => "left-monospace",
            Token::RightMonospace => "right-monospace",
            Token::Color => "color",
            Token::Raw => "raw",
            Token::LeftRaw => "left-raw",
            Token::RightRaw => "right-raw",
            Token::LeftLink => "left-link",
            Token::RightLink => "right-link",
            Token::TableColumn => "table-column",
            Token::TableColumnTitle => "table-column-title",
            Token::RightAlignOpen => "right-align-open",
            Token::RightAlignClose => "right-align-close",
            Token::LeftAlignOpen => "left-align-open",
            Token::LeftAlignClose => "left-align-close",
            Token::CenterAlignOpen => "center-align-open",
            Token::CenterAlignClose => "center-align-close",
            Token::JustifyAlignOpen => "justify-align-open",
            Token::JustifyAlignClose => "justify-align-close",
            Token::Identifier => "identifier",
            Token::Email => "email",
            Token::Url => "url",
            Token::String => "string",
            Token::InputEnd => "input-end",
            Token::Other => "other",
        }
    }

    /// Makes a token of one match in `text`.
    pub fn convert_pair<'a>(text: &'a str, pair: Pair) -> (token: ExtractedToken<'a>)
        requires
            fits(text, pair@),
        ensures
            token@ == lexeme_of(text.spec_bytes(), pair@),
    {
        let token = Token::get_from_rule(pair.rule);
        let slice = slice_between(text, pair.start, pair.end);
        ExtractedToken { token, slice, span: pair.start..pair.end }
    }
}


/// Every fixed text of the grammar is made of ASCII characters, at least one.
pub proof fn lemma_fixed_texts(k: int)
    requires
        0 <= k < LITERALS@.len(),
    ensures
        LITERALS[k].1@.len() > 0,
        vstd::utf8::is_ascii_chars(LITERALS[k].1@),
        forall|i: int|
            0 <= i < LITERALS[k].1@.len() ==> ' ' < (#[trigger] LITERALS[k].1@[i]) < '\u{7f}',
        LITERALS[k].0.matches_token(),
{
    reveal_strlit("[[[");
    reveal_strlit("]]]");
    reveal_strlit("[[>]]");
    reveal_strlit("[[/>]]");
    reveal_strlit("[[<]]");
    reveal_strlit("[[/<]]");
    reveal_strlit("[[==]]");
    reveal_strlit("[[/==]]");
    reveal_strlit("[[=]]");
    reveal_strlit("[[/=]]");
    reveal_strlit("[[#");
    reveal_strlit("[[*");
    reveal_strlit("[[/");
    reveal_strlit("[[");
    reveal_strlit("]]");
    reveal_strlit("[");
    reveal_strlit("]");
    reveal_strlit("||~");
    reveal_strlit("||");
    reveal_strlit("|");
    reveal_strlit("---");
    reveal_strlit("--");
    reveal_strlit("**");
    reveal_strlit("//");
    reveal_strlit("__");
    reveal_strlit("^^");
    reveal_strlit(",,");
    reveal_strlit("{{");
    reveal_strlit("}}");
    reveal_strlit("##");
    reveal_strlit("@@");
    reveal_strlit("@<");
    reveal_strlit(">@");
    reveal_strlit("=");
    reveal_strlit("\"");
}

/// A match of the grammar takes at least one byte, stays within the text and,
/// where it starts between two characters, ends between two characters.
pub proof fn lemma_match_is_whole(s: Seq<u8>, pos: int)
    requires
        valid_utf8(s),
        0 <= pos < s.len(),
        is_char_boundary(s, pos),
        token_at(s, pos) is Some,
    ensures
        match token_at(s, pos) {
            Some((rule, taken)) => rule.matches_token() && 0 < taken <= s.len() - pos
                && is_char_boundary(s, pos + taken),
            None => false,
        },
{
    reveal(token_at);
    let (rule, taken) = token_at(s, pos)->0;
    let end = pos + taken;
    lemma_run_members(s, pos, Class::Newline);
    lemma_run_members(s, pos, Class::Blank);
    lemma_run_members(s, pos, Class::Alnum);
    if string_len(s, pos) > 0 {
        lemma_run_members(s, pos + 1, Class::Quoted);
        lemma_boundary_after_ascii(s, end - 1);
    } else if literal_from(s, pos, 0) is Some {
        let k = literal_from(s, pos, 0)->0;
        lemma_literal_found(s, pos, 0);
        lemma_fixed_texts(k);
        lemma_literal_ascii(LITERALS[k].1@);
        let word = LITERALS[k].1.spec_bytes();
        assert(s.subrange(pos, pos + word.len())[word.len() - 1] == s[end - 1]);
        lemma_boundary_after_ascii(s, end - 1);
    } else if rule is ParagraphBreak || rule is LineBreak || rule is Space {
        lemma_boundary_after_ascii(s, end - 1);
    } else if rule is Url {
        let scheme = scheme_len(s, pos);
        lemma_run_members(s, pos + scheme, Class::Link);
        lemma_boundary_after_ascii(s, end - 1);
    } else if rule is Email {
        let local = run(s, pos, Class::Local);
        lemma_run_members(s, pos, Class::Local);
        lemma_run_members(s, pos + local + 1, Class::Domain);
        lemma_boundary_after_ascii(s, end - 1);
    } else if rule is Identifier {
        lemma_boundary_after_ascii(s, end - 1);
    } else {
        lemma_run_members(s, pos + 1, Class::Continuation);
        if end < s.len() {
            is_char_boundary_iff_not_is_continuation_byte(s, end);
        } else {
            is_char_boundary_start_end_of_seq(s);
        }
    }
}

/// The matches found so far, followed by those that the rest of the text gives.
pub open spec fn followed_by(done: Seq<Match>, rest: Option<Seq<Match>>) -> Option<Seq<Match>> {
    match rest {
        Some(more) => Some(done + more),
        None => None,
    }
}

/// The models of a list of matches, or of its absence.
pub open spec fn pairs_view(matched: Option<Vec<Pair>>) -> Option<Seq<Match>> {
    match matched {
        Some(pairs) => Some(pairs@.map_values(|pair: Pair| pair@)),
        None => None,
    }
}

/// The models of a list of tokens.
pub open spec fn tokens_view(tokens: Seq<ExtractedToken<'_>>) -> Seq<Lexeme> {
    tokens.map_values(|token: ExtractedToken<'_>| token@)
}

/// Matches the grammar against a whole text. Gives the matches in order, the
/// last of them the end of the input, or `None` where the grammar does not
/// match the text.
pub fn match_document(text: &str) -> (matched: Option<Vec<Pair>>)
    ensures
        pairs_view(matched) == document_matches(text.spec_bytes()),
        matched matches Some(pairs) ==> forall|i: int|
            0 <= i < pairs.len() ==> fits(text, #[trigger] pairs[i]@),
{
    let bytes = text.as_bytes();
    let mut pairs: Vec<Pair> = Vec::new();
    let mut pos: usize = 0;
    proof {
        encode_utf8_valid_utf8(text@);
        is_char_boundary_start_end_of_seq(bytes@);
        assert(pairs@.map_values(|pair: Pair| pair@) + matches_from(bytes@, 0)->0 =~= matches_from(
            bytes@,
            0,
        )->0);
    }
    while pos < bytes.len()
        invariant
            pos <= bytes.len(),
            bytes@ == text.spec_bytes(),
            valid_utf8(bytes@),
            is_char_boundary(bytes@, pos as int),
            forall|i: int| 0 <= i < pairs.len() ==> fits(text, #[trigger] pairs[i]@),
            document_matches(bytes@) == followed_by(
                pairs@.map_values(|pair: Pair| pair@),
                matches_from(bytes@, pos as int),
            ),
        decreases bytes.len() - pos,
    {
        match scan_token(bytes, pos) {
            Some((rule, taken)) => {
                let ghost before = pairs@.map_values(|pair: Pair| pair@);
                let pair = Pair { rule, start: pos, end: pos + taken };
                proof {
                    lemma_match_is_whole(bytes@, pos as int);
                }
                pairs.push(pair);
                proof {
                    let rest = matches_from(bytes@, pos + taken);
                    assert(pairs@.map_values(|pair: Pair| pair@) =~= before.push(pair@));
                    if rest is Some {
                        assert(before + (seq![pair@] + rest->0) =~= before.push(pair@) + rest->0);
                    }
                }
                pos += taken;
            },
            None => {
                return None;
            },
        }
    }
    let ghost before = pairs@.map_values(|pair: Pair| pair@);
    let end = Pair { rule: Rule::Eoi, start: pos, end: pos };
    pairs.push(end);
    proof {
        assert(pairs@.map_values(|pair: Pair| pair@) =~= before + seq![end@]);
    }
    Some(pairs)
}

impl Token {
    /// Makes tokens of what the grammar matched in `text`. Where it matched
    /// nothing, the whole text becomes one token of the kind `Other`.
    pub fn from_matches<'a>(text: &'a str, matched: Option<Vec<Pair>>) -> (tokens: Vec<
        ExtractedToken<'a>,
    >)
        requires
            matched matches Some(pairs) ==> forall|i: int|
                0 <= i < pairs.len() ==> fits(text, #[trigger] pairs[i]@),
        ensures
            tokens_view(tokens@) == lexemes_of(text.spec_bytes(), pairs_view(matched)),
    {
        let mut tokens: Vec<ExtractedToken<'a>> = Vec::new();
        match matched {
            Some(pairs) => {
                let ghost found = pairs@.map_values(|pair: Pair| pair@);
                let mut i: usize = 0;
                while i < pairs.len()
                    invariant
                        i <= pairs.len(),
                        found == pairs@.map_values(|pair: Pair| pair@),
                        forall|k: int| 0 <= k < pairs.len() ==> fits(text, #[trigger] pairs[k]@),
                        tokens_view(tokens@) == found.take(i as int).map_values(
                            |one: Match| lexeme_of(text.spec_bytes(), one),
                        ),
                    decreases pairs.len() - i,
                {
                    let ghost before = tokens_view(tokens@);
                    let token = Token::convert_pair(text, pairs[i]);
                    tokens.push(token);
                    proof {
                        assert(tokens_view(tokens@) =~= before.push(token@));
                        assert(found.take(i + 1) =~= found.take(i as int).push(pairs[i as int]@));
                        assert(tokens_view(tokens@) =~= found.take(i + 1).map_values(
                            |one: Match| lexeme_of(text.spec_bytes(), one),
                        ));
                    }
                    i += 1;
                }
                assert(found.take(i as int) =~= found);
            },
            None => {
                let token = ExtractedToken {
                    token: Token::Other,
                    slice: text,
                    span: 0..text.as_bytes().len(),
                };
                tokens.push(token);
                assert(tokens_view(tokens@) =~= seq![whole_as_other(text.spec_bytes())]);
            },
        }
        tokens
    }

    /// The tokens of a text.
    ///
    /// This never fails. A text that the grammar matches gives the tokens that were
    /// matched and, last, the end of the input. Any other text gives one token of
    /// the kind `Other` that holds all of it. Either way the tokens cover the text
    /// from its first byte to its last, in order and without a gap.
    pub fn extract_all<'a>(text: &'a str) -> (tokens: Vec<ExtractedToken<'a>>)
        ensures
            tokens_view(tokens@) == lex(text.spec_bytes()),
            covers(tokens_view(tokens@), text.spec_bytes()),
    {
        let matched = match_document(text);
        proof {
            lemma_tokens_cover(text.spec_bytes());
        }
        Token::from_matches(text, matched)
    }
}

proof fn lemma_matches_chain(s: Seq<u8>, pos: int)
    requires
        0 <= pos <= s.len(),
        matches_from(s, pos) is Some,
    ensures
        ({
            let found = matches_from(s, pos)->0;
            &&& found.len() > 0
            &&& found[0].start == pos
            &&& found.last().end == s.len()
            &&& forall|i: int| 0 <= i < found.len() ==> pos <= (#[trigger] found[i]).start <= found[i].end <= s.len()
            &&& forall|i: int, j: int|
                0 <= i && j == i + 1 && j < found.len() ==> (#[trigger] found[i]).end
                    == (#[trigger] found[j]).start
        }),
    decreases s.len() - pos,
{
    if pos < s.len() {
        let (rule, taken) = token_at(s, pos)->0;
        let first = Match { rule, start: pos, end: pos + taken };
        let rest = matches_from(s, pos + taken)->0;
        lemma_matches_chain(s, pos + taken);
        let found = matches_from(s, pos)->0;
        assert(found =~= seq![first] + rest);
        assert forall|i: int, j: int| 0 <= i && j == i + 1 && j < found.len() implies (
        #[trigger] found[i]).end == (#[trigger] found[j]).start by {
            assert(found[j] == rest[j - 1]);
            if i > 0 {
                assert(found[i] == rest[i - 1]);
            }
        }
        assert forall|i: int| 0 <= i < found.len() implies pos <= (#[trigger] found[i]).start
            <= found[i].end <= s.len() by {
            if i > 0 {
                assert(found[i] == rest[i - 1]);
            }
        }
    }
}

/// The tokens of any text cover it: there is at least one, the first starts
/// at the first byte, each starts where the one before it ends, the last ends
/// at the end of the text, and each holds the bytes that its span names.
pub proof fn lemma_tokens_cover(s: Seq<u8>)
    ensures
        covers(lex(s), s),
{
    let tokens = lex(s);
    match document_matches(s) {
        Some(found) => {
            lemma_matches_chain(s, 0);
        },
        None => {
            assert(s.subrange(0, s.len() as int) =~= s);
        },
    }
}

/// A text that the grammar does not match still gives tokens: exactly one, of
/// the kind `Other`, that holds the whole text.
pub proof fn lemma_unmatched_text_is_one_token(s: Seq<u8>)
    requires
        document_matches(s) is None,
    ensures
        lex(s) == seq![whole_as_other(s)],
        lex(s).len() == 1,
        lex(s)[0].token == Token::Other,
        lex(s)[0].start == 0,
        lex(s)[0].end == s.len(),
        lex(s)[0].bytes == s,
{
}


/// A byte that no rule of the grammar accepts: a control character other than
/// the line feed and the tab.
pub open spec fn is_rejected(byte: u8) -> bool {
    is_control(byte) && byte != 0x0a && byte != 0x09
}

/// The text holds a byte that no rule of the grammar accepts.
pub open spec fn has_rejected(s: Seq<u8>) -> bool {
    exists|i: int| 0 <= i < s.len() && is_rejected(#[trigger] s[i])
}

proof fn lemma_fixed_bytes(k: int)
    requires
        0 <= k < LITERALS@.len(),
    ensures
        forall|i: int|
            0 <= i < LITERALS[k].1.spec_bytes().len() ==> !is_control(
                #[trigger] LITERALS[k].1.spec_bytes()[i],
            ),
{
    let text = LITERALS[k].1@;
    lemma_fixed_texts(k);
    vstd::utf8::is_ascii_chars_encode_utf8(text);
    assert forall|i: int| 0 <= i < LITERALS[k].1.spec_bytes().len() implies !is_control(
        #[trigger] LITERALS[k].1.spec_bytes()[i],
    ) by {
        assert(text[i] as u8 == LITERALS[k].1.spec_bytes()[i]);
        assert(' ' < text[i] < '\u{7f}');
    }
}

proof fn lemma_scheme_bytes(s: Seq<u8>, pos: int)
    requires
        0 <= pos,
        scheme_len(s, pos) > 0,
    ensures
        pos + scheme_len(s, pos) <= s.len(),
        forall|i: int| pos <= i < pos + scheme_len(s, pos) ==> !is_control(#[trigger] s[i]),
{
    reveal_strlit("https://");
    reveal_strlit("http://");
    reveal_strlit("ftp://");
    let j: int = if has_at(s, pos, SCHEMES[0].spec_bytes()) {
        0
    } else if has_at(s, pos, SCHEMES[1].spec_bytes()) {
        1
    } else {
        2
    };
    let text = SCHEMES[j]@;
    let word = SCHEMES[j].spec_bytes();
    assert(vstd::utf8::is_ascii_chars(text));
    vstd::utf8::is_ascii_chars_encode_utf8(text);
    assert forall|i: int| pos <= i < pos + scheme_len(s, pos) implies !is_control(
        #[trigger] s[i],
    ) by {
        assert(s.subrange(pos, pos + word.len())[i - pos] == s[i]);
        assert(text[i - pos] as u8 == word[i - pos]);
        assert(' ' < text[i - pos] < '\u{7f}');
    }
}

/// Where no rule matches, a byte stands that no rule accepts.
pub proof fn lemma_unmatched_place(s: Seq<u8>, pos: int)
    requires
        0 <= pos < s.len(),
        token_at(s, pos) is None,
    ensures
        is_rejected(s[pos]),
{
    reveal(token_at);
    if !is_rejected(s[pos]) {
        if s[pos] == 0x0a {
            assert(run(s, pos, Class::Newline) >= 1);
        } else if s[pos] == 0x09 {
            assert(run(s, pos, Class::Blank) >= 1);
        } else {
            assert(other_len(s, pos) > 0);
        }
    }
}

/// A match takes at least one byte, stays within the text, and holds no byte
/// that the grammar does not accept.
pub proof fn lemma_match_is_accepted(s: Seq<u8>, pos: int)
    requires
        0 <= pos < s.len(),
        token_at(s, pos) is Some,
    ensures
        match token_at(s, pos) {
            Some((rule, taken)) => 0 < taken <= s.len() - pos && forall|i: int|
                pos <= i < pos + taken ==> !is_rejected(#[trigger] s[i]),
            None => false,
        },
{
    reveal(token_at);
    let (rule, taken) = token_at(s, pos)->0;
    lemma_run_members(s, pos, Class::Newline);
    lemma_run_members(s, pos, Class::Blank);
    lemma_run_members(s, pos, Class::Alnum);
    if string_len(s, pos) > 0 {
        lemma_run_members(s, pos + 1, Class::Quoted);
    } else if literal_from(s, pos, 0) is Some {
        let k = literal_from(s, pos, 0)->0;
        lemma_literal_found(s, pos, 0);
        lemma_fixed_texts(k);
        lemma_literal_ascii(LITERALS[k].1@);
        lemma_fixed_bytes(k);
        let word = LITERALS[k].1.spec_bytes();
        assert forall|i: int| pos <= i < pos + taken implies !is_rejected(#[trigger] s[i]) by {
            assert(s.subrange(pos, pos + word.len())[i - pos] == s[i]);
        }
    } else if rule is ParagraphBreak || rule is LineBreak || rule is Space {
    } else if rule is Url {
        let scheme = scheme_len(s, pos);
        lemma_scheme_bytes(s, pos);
        lemma_run_members(s, pos + scheme, Class::Link);
    } else if rule is Email {
        let local = run(s, pos, Class::Local);
        lemma_run_members(s, pos, Class::Local);
        lemma_run_members(s, pos + local + 1, Class::Domain);
    } else if rule is Identifier {
    } else {
        lemma_run_members(s, pos + 1, Class::Continuation);
    }
}

proof fn lemma_matches_from_iff(s: Seq<u8>, pos: int)
    requires
        0 <= pos <= s.len(),
    ensures
        matches_from(s, pos) is None <==> exists|i: int|
            pos <= i < s.len() && is_rejected(#[trigger] s[i]),
    decreases s.len() - pos,
{
    if pos < s.len() {
        if token_at(s, pos) is None {
            lemma_unmatched_place(s, pos);
        } else {
            let (rule, taken) = token_at(s, pos)->0;
            lemma_match_is_accepted(s, pos);
            lemma_matches_from_iff(s, pos + taken);
            if matches_from(s, pos + taken) is None {
                let i = choose|i: int| pos + taken <= i < s.len() && is_rejected(#[trigger] s[i]);
                assert(pos <= i < s.len() && is_rejected(s[i]));
            }
        }
    }
}

/// The grammar matches exactly the texts that hold none of the bytes it does
/// not accept. So the texts that come out as one token of the kind `Other` are
/// those that hold a control character other than the line feed and the tab.
pub proof fn lemma_unmatched_iff_rejected(s: Seq<u8>)
    ensures
        document_matches(s) is None <==> has_rejected(s),
{
    lemma_matches_from_iff(s, 0);
}

} // verus!
