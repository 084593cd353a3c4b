//! The grammar of the lexer, on the bytes of a text.
//!
//! A document is a run of tokens up to the end of the input. At each place the
//! rules are tried in a fixed order and the first that matches is taken. A byte
//! that no rule accepts makes the whole document fail.

use crate::parse::rule::Rule;
use vstd::prelude::*;
use vstd::string::StringSliceAdditionalSpecFns;

verus! {

/// The rules that match one fixed text, in the order in which they are tried:
/// where one text starts another, the longer one stands first.
pub const LITERALS: [(Rule, &'static str); 35] = [
    (Rule::LeftLink, "[[["),
    (Rule::RightLink, "]]]"),
    (Rule::OpenRightAlign, "[[>]]"),
    (Rule::CloseRightAlign, "[[/>]]"),
    (Rule::OpenLeftAlign, "[[<]]"),
    (Rule::CloseLeftAlign, "[[/<]]"),
    (Rule::OpenJustifyAlign, "[[==]]"),
    (Rule::CloseJustifyAlign, "[[/==]]"),
    (Rule::OpenCenterAlign, "[[=]]"),
    (Rule::CloseCenterAlign, "[[/=]]"),
    (Rule::LeftTagAnchor, "[[#"),
    (Rule::LeftTagSpecial, "[[*"),
    (Rule::RightTagEnd, "[[/"),
    (Rule::LeftTag, "[["),
    (Rule::RightTag, "]]"),
    (Rule::LeftBracket, "["),
    (Rule::RightBracket, "]"),
    (Rule::TableColumnTitle, "||~"),
    (Rule::TableColumn, "||"),
    (Rule::Pipe, "|"),
    (Rule::TripleDash, "---"),
    (Rule::DoubleDash, "--"),
    (Rule::Bold, "**"),
    (Rule::Italics, "//"),
    (Rule::Underline, "__"),
    (Rule::Superscript, "^^"),
    (Rule::Subscript, ",,"),
    (Rule::LeftMonospace, "{{"),
    (Rule::RightMonospace, "}}"),
    (Rule::Color, "##"),
    (Rule::Raw, "@@"),
    (Rule::LeftRaw, "@<"),
    (Rule::RightRaw, ">@"),
    (Rule::Equals, "="),
    (Rule::Quote, "\""),
];

/// The schemes that a URL may start with.
pub const SCHEMES: [&'static str; 3] = ["https://", "http://", "ftp://"];

/// The kinds of byte that the rules for runs tell apart.
#[derive(Debug, Copy, Clone, PartialEq, Eq, Structural)]
pub enum Class {
    /// A line feed.
    Newline,
    /// A space or a tab.
    Blank,
    /// An ASCII letter or digit.
    Alnum,
    /// What may stand before the `@` of an e-mail address.
    Local,
    /// What may stand after the `@` of an e-mail address.
    Domain,
    /// What may follow the scheme of a URL.
    Link,
    /// What may stand between the quotes of a string.
    Quoted,
    /// A byte that continues a character of more than one byte.
    Continuation,
}

/// An ASCII letter or digit.
pub open spec fn is_alnum(byte: u8) -> bool {
    (0x30 <= byte <= 0x39) || (0x41 <= byte <= 0x5a) || (0x61 <= byte <= 0x7a)
}

/// A control character: below the space, or the delete character.
pub open spec fn is_control(byte: u8) -> bool {
    byte < 0x20 || byte == 0x7f
}

/// Whether a byte is of a class.
pub open spec fn in_class(class: Class, byte: u8) -> bool {
    match class {
        Class::Newline => byte == 0x0a,
        Class::Blank => byte == 0x20 || byte == 0x09,
        Class::Alnum => is_alnum(byte),
        Class::Local => is_alnum(byte) || byte == 0x2e || byte == 0x5f || byte == 0x2b || byte
            == 0x2d,
        Class::Domain => is_alnum(byte) || byte == 0x2e || byte == 0x2d,
        Class::Link => 0x21 <= byte <= 0x7e && byte != 0x22 && byte != 0x3c && byte != 0x3e && byte
            != 0x5b && byte != 0x5d && byte != 0x7b && byte != 0x7c && byte != 0x7d,
        Class::Quoted => !is_control(byte) && byte != 0x22,
        Class::Continuation => 0x80 <= byte <= 0xbf,
    }
}

/// How many bytes of a class follow each other from `pos` on.
pub open spec fn run(s: Seq<u8>, pos: int, class: Class) -> nat
    decreases s.len() - pos,
{
    if 0 <= pos < s.len() && in_class(class, s[pos]) {
        1 + run(s, pos + 1, class)
    } else {
        0
    }
}

/// The bytes `word` stand in `s` from `pos` on.
pub open spec fn has_at(s: Seq<u8>, pos: int, word: Seq<u8>) -> bool {
    0 <= pos && pos + word.len() <= s.len() && s.subrange(pos, pos + word.len()) == word
}

/// The place in `LITERALS`, from `k` on, of the first fixed text found at `pos`.
pub open spec fn literal_from(s: Seq<u8>, pos: int, k: int) -> Option<int>
    decreases LITERALS@.len() - k,
{
    if k < 0 || k >= LITERALS@.len() {
        None
    } else if has_at(s, pos, LITERALS[k].1.spec_bytes()) {
        Some(k)
    } else {
        literal_from(s, pos, k + 1)
    }
}

/// The length of the scheme that a URL at `pos` starts with, or zero.
pub open spec fn scheme_len(s: Seq<u8>, pos: int) -> nat {
    if has_at(s, pos, SCHEMES[0].spec_bytes()) {
        SCHEMES[0].spec_bytes().len()
    } else if has_at(s, pos, SCHEMES[1].spec_bytes()) {
        SCHEMES[1].spec_bytes().len()
    } else if has_at(s, pos, SCHEMES[2].spec_bytes()) {
        SCHEMES[2].spec_bytes().len()
    } else {
        0
    }
}

/// The length of the URL at `pos`, or zero: a scheme and at least one byte
/// after it.
pub open spec fn url_len(s: Seq<u8>, pos: int) -> nat {
    let scheme = scheme_len(s, pos);
    let rest = run(s, pos + scheme, Class::Link);
    if scheme > 0 && rest > 0 {
        scheme + rest
    } else {
        0
    }
}

/// The length of the e-mail address at `pos`, or zero: a name, `@`, a domain.
pub open spec fn email_len(s: Seq<u8>, pos: int) -> nat {
    let local = run(s, pos, Class::Local);
    let domain = run(s, pos + local + 1, Class::Domain);
    if local > 0 && pos + local < s.len() && s[pos + local] == 0x40 && domain > 0 {
        local + 1 + domain
    } else {
        0
    }
}

/// The length of the string at `pos`, or zero: a quote, what is quoted, and
/// a second quote on the same line.
pub open spec fn string_len(s: Seq<u8>, pos: int) -> nat {
    let body = run(s, pos + 1, Class::Quoted);
    if 0 <= pos < s.len() && s[pos] == 0x22 && pos + 1 + body < s.len() && s[pos + 1 + body]
        == 0x22 {
        body + 2
    } else {
        0
    }
}

/// The length of the one character at `pos` that is taken as it is, or zero
/// where a control character stands there.
pub open spec fn other_len(s: Seq<u8>, pos: int) -> nat {
    if 0 <= pos < s.len() && !is_control(s[pos]) {
        1 + run(s, pos + 1, Class::Continuation)
    } else {
        0
    }
}

/// The rule that matches at `pos` and the number of bytes it takes: the first
/// that matches, in the order written here. `None` where no rule matches.
#[verifier::opaque]
pub open spec fn token_at(s: Seq<u8>, pos: int) -> Option<(Rule, nat)> {
    if string_len(s, pos) > 0 {
        Some((Rule::String, string_len(s, pos)))
    } else if literal_from(s, pos, 0) is Some {
        let k = literal_from(s, pos, 0)->0;
        Some((LITERALS[k].0, LITERALS[k].1.spec_bytes().len()))
    } else if run(s, pos, Class::Newline) >= 2 {
        Some((Rule::ParagraphBreak, run(s, pos, Class::Newline)))
    } else if run(s, pos, Class::Newline) == 1 {
        Some((Rule::LineBreak, 1))
    } else if run(s, pos, Class::Blank) > 0 {
        Some((Rule::Space, run(s, pos, Class::Blank)))
    } else if url_len(s, pos) > 0 {
        Some((Rule::Url, url_len(s, pos)))
    } else if email_len(s, pos) > 0 {
        Some((Rule::Email, email_len(s, pos)))
    } else if run(s, pos, Class::Alnum) > 0 {
        Some((Rule::Identifier, run(s, pos, Class::Alnum)))
    } else if other_len(s, pos) > 0 {
        Some((Rule::Other, other_len(s, pos)))
    } else {
        None
    }
}

/// One match of a rule: the rule, and the bytes it took, from `start` up to
/// `end`.
pub struct Match {
    pub rule: Rule,
    pub start: int,
    pub end: int,
}

/// The matches of a document from `pos` on: token after token, then the end of
/// the input. `None` where some place is reached at which no rule matches.
pub open spec fn matches_from(s: Seq<u8>, pos: int) -> Option<Seq<Match>>
    decreases s.len() - pos,
{
    if pos < 0 || pos >= s.len() {
        Some(seq![Match { rule: Rule::Eoi, start: s.len() as int, end: s.len() as int }])
    } else {
        match token_at(s, pos) {
            Some((rule, taken)) => if 0 < taken <= s.len() - pos {
                match matches_from(s, pos + taken) {
                    Some(rest) => Some(seq![Match { rule, start: pos, end: pos + taken }] + rest),
                    None => None,
                }
            } else {
                None
            },
            None => None,
        }
    }
}

/// The matches of a whole document.
pub open spec fn document_matches(s: Seq<u8>) -> Option<Seq<Match>> {
    matches_from(s, 0)
}


/// The executable form of a match.
#[derive(Debug, Copy, Clone, PartialEq, Eq)]
pub struct Pair {
    pub rule: Rule,
    pub start: usize,
    pub end: usize,
}

impl View for Pair {
    type V = Match;

    open spec fn view(&self) -> Match {
        Match { rule: self.rule, start: self.start as int, end: self.end as int }
    }
}

/// Whether a byte is of a class.
pub fn belongs(class: Class, byte: u8) -> (yes: bool)
    ensures
        yes == in_class(class, byte),
{
    let alnum = (0x30 <= byte && byte <= 0x39) || (0x41 <= byte && byte <= 0x5a) || (0x61 <= byte
        && byte <= 0x7a);
    match class {
        Class::Newline => byte == 0x0a,
        Class::Blank => byte == 0x20 || byte == 0x09,
        Class::Alnum => alnum,
        Class::Local => alnum || byte == 0x2e || byte == 0x5f || byte == 0x2b || byte == 0x2d,
        Class::Domain => alnum || byte == 0x2e || byte == 0x2d,
        Class::Link => 0x21 <= byte && byte <= 0x7e && byte != 0x22 && byte != 0x3c && byte != 0x3e
            && byte != 0x5b && byte != 0x5d && byte != 0x7b && byte != 0x7c && byte != 0x7d,
        Class::Quoted => byte >= 0x20 && byte != 0x7f && byte != 0x22,
        Class::Continuation => 0x80 <= byte && byte <= 0xbf,
    }
}

/// A run is made of bytes of its class, lies within the text, and ends where
/// the text ends or another kind of byte stands.
pub proof fn lemma_run_members(s: Seq<u8>, pos: int, class: Class)
    requires
        0 <= pos <= s.len(),
    ensures
        pos + run(s, pos, class) <= s.len(),
        forall|k: int| pos <= k < pos + run(s, pos, class) ==> in_class(class, #[trigger] s[k]),
        pos + run(s, pos, class) < s.len() ==> !in_class(class, s[pos + run(s, pos, class)]),
    decreases s.len() - pos,
{
    if pos < s.len() && in_class(class, s[pos]) {
        lemma_run_members(s, pos + 1, class);
    }
}

proof fn lemma_run_from(s: Seq<u8>, pos: int, upto: int, class: Class)
    requires
        0 <= pos <= upto <= s.len(),
        forall|k: int| pos <= k < upto ==> in_class(class, #[trigger] s[k]),
    ensures
        run(s, pos, class) == (upto - pos) + run(s, upto, class),
    decreases upto - pos,
{
    if pos < upto {
        lemma_run_from(s, pos + 1, upto, class);
    }
}

/// Counts the bytes of a class that follow each other from `pos` on.
pub fn scan_run(bytes: &[u8], pos: usize, class: Class) -> (count: usize)
    requires
        pos <= bytes.len(),
    ensures
        count == run(bytes@, pos as int, class),
        pos + count <= bytes.len(),
{
    let mut upto: usize = pos;
    while upto < bytes.len() && belongs(class, bytes[upto])
        invariant
            pos <= upto <= bytes.len(),
            forall|k: int| pos <= k < upto ==> in_class(class, #[trigger] bytes@[k]),
        decreases bytes.len() - upto,
    {
        upto += 1;
    }
    proof {
        lemma_run_from(bytes@, pos as int, upto as int, class);
    }
    upto - pos
}

/// Whether the bytes `word` stand in `bytes` from `pos` on.
pub fn starts_with_at(bytes: &[u8], pos: usize, word: &[u8]) -> (yes: bool)
    requires
        pos <= bytes.len(),
    ensures
        yes == has_at(bytes@, pos as int, word@),
{
    if word.len() > bytes.len() - pos {
        return false;
    }
    let mut i: usize = 0;
    while i < word.len()
        invariant
            i <= word.len(),
            pos + word.len() <= bytes.len(),
            bytes@.subrange(pos as int, pos + i) == word@.take(i as int),
        decreases word.len() - i,
    {
        if bytes[pos + i] != word[i] {
            assert(bytes@.subrange(pos as int, pos + word.len())[i as int] != word@[i as int]);
            return false;
        }
        assert(bytes@.subrange(pos as int, pos + i + 1) =~= bytes@.subrange(
            pos as int,
            pos + i,
        ).push(bytes@[pos + i]));
        assert(word@.take(i + 1) =~= word@.take(i as int).push(word@[i as int]));
        i += 1;
    }
    assert(word@.take(i as int) =~= word@);
    true
}

/// The fixed text that is found is one of the table and stands at `pos`.
pub proof fn lemma_literal_found(s: Seq<u8>, pos: int, k: int)
    requires
        literal_from(s, pos, k) is Some,
    ensures
        k <= literal_from(s, pos, k)->0 < LITERALS@.len(),
        has_at(s, pos, LITERALS[literal_from(s, pos, k)->0].1.spec_bytes()),
    decreases LITERALS@.len() - k,
{
    if !has_at(s, pos, LITERALS[k].1.spec_bytes()) {
        lemma_literal_found(s, pos, k + 1);
    }
}

/// Finds the first fixed text that stands at `pos`, as its place in `LITERALS`.
pub fn find_literal(bytes: &[u8], pos: usize) -> (found: Option<usize>)
    requires
        pos <= bytes.len(),
    ensures
        match found {
            Some(k) => literal_from(bytes@, pos as int, 0) == Some(k as int) && k < LITERALS@.len(),
            None => literal_from(bytes@, pos as int, 0) is None,
        },
{
    let mut k: usize = 0;
    while k < LITERALS.len()
        invariant
            k <= LITERALS@.len(),
            pos <= bytes.len(),
            literal_from(bytes@, pos as int, 0) == literal_from(bytes@, pos as int, k as int),
        decreases LITERALS@.len() - k,
    {
        if starts_with_at(bytes, pos, LITERALS[k].1.as_bytes()) {
            return Some(k);
        }
        k += 1;
    }
    None
}

/// The length of the scheme that stands at `pos`, or zero.
pub fn scan_scheme(bytes: &[u8], pos: usize) -> (count: usize)
    requires
        pos <= bytes.len(),
    ensures
        count == scheme_len(bytes@, pos as int),
        pos + count <= bytes.len(),
{
    if starts_with_at(bytes, pos, SCHEMES[0].as_bytes()) {
        SCHEMES[0].as_bytes().len()
    } else if starts_with_at(bytes, pos, SCHEMES[1].as_bytes()) {
        SCHEMES[1].as_bytes().len()
    } else if starts_with_at(bytes, pos, SCHEMES[2].as_bytes()) {
        SCHEMES[2].as_bytes().len()
    } else {
        0
    }
}

/// The length of the URL that stands at `pos`, or zero.
pub fn scan_url(bytes: &[u8], pos: usize) -> (count: usize)
    requires
        pos <= bytes.len(),
    ensures
        count == url_len(bytes@, pos as int),
        pos + count <= bytes.len(),
{
    let scheme = scan_scheme(bytes, pos);
    if scheme == 0 {
        return 0;
    }
    let rest = scan_run(bytes, pos + scheme, Class::Link);
    if rest == 0 {
        0
    } else {
        scheme + rest
    }
}

/// The length of the e-mail address that stands at `pos`, or zero.
pub fn scan_email(bytes: &[u8], pos: usize) -> (count: usize)
    requires
        pos <= bytes.len(),
    ensures
        count == email_len(bytes@, pos as int),
        pos + count <= bytes.len(),
{
    let local = scan_run(bytes, pos, Class::Local);
    if local == 0 || pos + local >= bytes.len() || bytes[pos + local] != 0x40 {
        return 0;
    }
    let domain = scan_run(bytes, pos + local + 1, Class::Domain);
    if domain == 0 {
        0
    } else {
        local + 1 + domain
    }
}

/// The length of the string that stands at `pos`, or zero.
pub fn scan_string(bytes: &[u8], pos: usize) -> (count: usize)
    requires
        pos <= bytes.len(),
    ensures
        count == string_len(bytes@, pos as int),
        pos + count <= bytes.len(),
{
    if pos >= bytes.len() || bytes[pos] != 0x22 {
        return 0;
    }
    let body = scan_run(bytes, pos + 1, Class::Quoted);
    if pos + 1 + body < bytes.len() && bytes[pos + 1 + body] == 0x22 {
        body + 2
    } else {
        0
    }
}

/// The length of the character at `pos` that is taken as it is, or zero.
pub fn scan_other(bytes: &[u8], pos: usize) -> (count: usize)
    requires
        pos <= bytes.len(),
    ensures
        count == other_len(bytes@, pos as int),
        pos + count <= bytes.len(),
{
    if pos >= bytes.len() || bytes[pos] < 0x20 || bytes[pos] == 0x7f {
        return 0;
    }
    1 + scan_run(bytes, pos + 1, Class::Continuation)
}

/// Tries the rules at `pos` in their order and gives the first that matches,
/// with the number of bytes it takes.
pub fn scan_token(bytes: &[u8], pos: usize) -> (found: Option<(Rule, usize)>)
    requires
        pos <= bytes.len(),
    ensures
        match found {
            Some((rule, taken)) => token_at(bytes@, pos as int) == Some((rule, taken as nat)) && pos
                + taken <= bytes.len(),
            None => token_at(bytes@, pos as int) is None,
        },
{
    proof {
        reveal(token_at);
    }
    let string = scan_string(bytes, pos);
    if string > 0 {
        return Some((Rule::String, string));
    }
    if let Some(k) = find_literal(bytes, pos) {
        proof {
            lemma_literal_found(bytes@, pos as int, 0);
        }
        return Some((LITERALS[k].0, LITERALS[k].1.as_bytes().len()));
    }
    let newlines = scan_run(bytes, pos, Class::Newline);
    if newlines >= 2 {
        return Some((Rule::ParagraphBreak, newlines));
    }
    if newlines == 1 {
        return Some((Rule::LineBreak, 1));
    }
    let blanks = scan_run(bytes, pos, Class::Blank);
    if blanks > 0 {
        return Some((Rule::Space, blanks));
    }
    let url = scan_url(bytes, pos);
    if url > 0 {
        return Some((Rule::Url, url));
    }
    let email = scan_email(bytes, pos);
    if email > 0 {
        return Some((Rule::Email, email));
    }
    let word = scan_run(bytes, pos, Class::Alnum);
    if word > 0 {
        return Some((Rule::Identifier, word));
    }
    let other = scan_other(bytes, pos);
    if other > 0 {
        return Some((Rule::Other, other));
    }
    None
}

} // verus!
