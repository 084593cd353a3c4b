use ftml::error::ServiceError;
use ftml::locale::{locale_get, locale_head, LocaleOutput};

fn parts(language: &str, script: Option<&str>, region: Option<&str>, variants: &[&str]) -> LocaleOutput {
    LocaleOutput {
        language: String::from(language),
        script: script.map(String::from),
        region: region.map(String::from),
        variants: variants.iter().map(|variant| String::from(*variant)).collect(),
    }
}

#[test]
fn language_alone() {
    assert_eq!(locale_get("en"), Ok(parts("en", None, None, &[])));
    assert_eq!(locale_get("de"), Ok(parts("de", None, None, &[])));
}

#[test]
fn language_and_region() {
    assert_eq!(locale_get("en-US"), Ok(parts("en", None, Some("US"), &[])));
    assert_eq!(locale_get("fr_ca"), Ok(parts("fr", None, Some("CA"), &[])));
}

#[test]
fn all_parts_in_their_spelling() {
    assert_eq!(
        locale_get("eN_latn_Us-Valencia"),
        Ok(parts("en", Some("Latn"), Some("US"), &["valencia"]))
    );
    assert_eq!(
        locale_get("sr-Cyrl-RS"),
        Ok(parts("sr", Some("Cyrl"), Some("RS"), &[]))
    );
}

#[test]
fn what_is_no_locale() {
    for text in ["-", "en-", "e", "en US", "en-US-\u{e9}", "toolonglanguage"] {
        assert_eq!(locale_get(text), Err(ServiceError::BadRequest), "for {:?}", text);
        assert!(!locale_head(text));
    }
}

#[test]
fn head_follows_get() {
    assert!(locale_head("en"));
    assert!(locale_head("pt-BR"));
}
