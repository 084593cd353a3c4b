//! The parts of a locale.

use crate::error::ServiceError;
use unic_langid::{LanguageIdentifier, LanguageIdentifierError};
use vstd::prelude::*;
use vstd::string::StringSliceAdditionalSpecFns;

verus! {

/// `unic_langid::LanguageIdentifierError`, why a locale could not be read.
/// Nothing is read of it.
#[verifier::external_type_specification]
#[verifier::external_body]
pub struct ExLanguageIdentifierError(LanguageIdentifierError);

/// The parts that a locale is made of.
#[derive(Debug, PartialEq, Eq)]
pub struct LocaleOutput {
    pub language: String,
    pub script: Option<String>,
    pub region: Option<String>,
    pub variants: Vec<String>,
}

/// The text of a part that may be missing.
pub open spec fn part_text(part: Option<String>) -> Option<Seq<char>> {
    match part {
        Some(text) => Some(text@),
        None => None,
    }
}

impl View for LocaleOutput {
    type V = (Seq<char>, Option<Seq<char>>, Option<Seq<char>>, Seq<Seq<char>>);

    open spec fn view(&self) -> (Seq<char>, Option<Seq<char>>, Option<Seq<char>>, Seq<Seq<char>>) {
        (
            self.language@,
            part_text(self.script),
            part_text(self.region),
            self.variants@.map_values(|variant: String| variant@),
        )
    }
}

/// What `LanguageIdentifier::from_bytes` makes of the bytes of a locale: its
/// language, script, region and variants in this order, or nothing where the
/// bytes are no well-formed locale.
pub uninterp spec fn locale_parts(bytes: Seq<u8>) -> Option<
    (Seq<char>, Option<Seq<char>>, Option<Seq<char>>, Seq<Seq<char>>),
>;

/// The parts of a result of parsing.
pub open spec fn parsed_parts(parsed: Result<LocaleOutput, LanguageIdentifierError>) -> Option<
    (Seq<char>, Option<Seq<char>>, Option<Seq<char>>, Seq<Seq<char>>),
> {
    match parsed {
        Ok(parts) => Some(parts@),
        Err(_) => None,
    }
}

/// Calls `unic_langid::LanguageIdentifier::from_bytes` on the bytes of the text
/// and copies the parts of what it gives. The result depends on the bytes
/// alone; it is an error exactly where that function gives one.
#[verifier::external_body]
fn parse_locale(locale: &str) -> (parsed: Result<LocaleOutput, LanguageIdentifierError>)
    ensures
        parsed_parts(parsed) == locale_parts(locale.spec_bytes()),
{
    let id = LanguageIdentifier::from_bytes(locale.as_bytes())?;
    Ok(
        LocaleOutput {
            language: id.language.as_str().to_owned(),
            script: id.script.map(|script| script.as_str().to_owned()),
            region: id.region.map(|region| region.as_str().to_owned()),
            variants: id.variants().map(|variant| variant.as_str().to_owned()).collect(),
        },
    )
}

/// The parts of a locale, or `BadRequest` where the text is no well-formed
/// locale.
pub fn locale_get(locale: &str) -> (output: Result<LocaleOutput, ServiceError>)
    ensures
        match output {
            Ok(parts) => locale_parts(locale.spec_bytes()) == Some(parts@),
            Err(error) => error == ServiceError::BadRequest && locale_parts(locale.spec_bytes())
                is None,
        },
{
    match parse_locale(locale) {
        Ok(parts) => Ok(parts),
        Err(_) => Err(ServiceError::BadRequest),
    }
}

/// Whether a text is a well-formed locale.
pub fn locale_head(locale: &str) -> (known: bool)
    ensures
        known == locale_parts(locale.spec_bytes()) is Some,
{
    locale_get(locale).is_ok()
}

} // verus!
