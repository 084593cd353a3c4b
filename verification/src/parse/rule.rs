use vstd::prelude::*;

verus! {

/// The rules of the lexer's grammar. Each rule but the last three matches one
/// kind of token; `Char`, `Document` and `Token` only serve to build the others
/// and never stand for a match.
#[derive(Debug, Copy, Clone, PartialEq, Eq, Structural)]
pub enum Rule {
    LeftBracket,
    RightBracket,
    LeftTag,
    LeftTagAnchor,
    LeftTagSpecial,
    RightTag,
    RightTagEnd,
    Color,
    Pipe,
    Equals,
    Quote,
    DoubleDash,
    TripleDash,
    LineBreak,
    ParagraphBreak,
    Space,
    Bold,
    Italics,
    Underline,
    Superscript,
    Subscript,
    LeftMonospace,
    RightMonospace,
    Raw,
    LeftRaw,
    RightRaw,
    LeftLink,
    RightLink,
    TableColumn,
    TableColumnTitle,
    OpenRightAlign,
    OpenLeftAlign,
    OpenCenterAlign,
    OpenJustifyAlign,
    CloseRightAlign,
    CloseLeftAlign,
    CloseCenterAlign,
    CloseJustifyAlign,
    Identifier,
    Email,
    Url,
    String,
    Other,
    /// The end of the input.
    Eoi,
    /// A single character, inside other rules.
    Char,
    /// The whole input.
    Document,
    /// The choice between the rules above.
    Token,
}

impl Rule {
    /// The rule matches a token, and is not one of the three that only build
    /// other rules.
    pub open spec fn matches_token(self) -> bool {
        !(self is Char || self is Document || self is Token)
    }

    /// Whether the rule matches a token.
    pub fn is_token_rule(self) -> (yes: bool)
        ensures
            yes == self.matches_token(),
    {
        !matches!(self, Rule::Char | Rule::Document | Rule::Token)
    }
}

} // verus!
