use vstd::prelude::*;

use crate::version::{version_matches, SemanticVersion};

verus! {

/// What looking a string field up in a structured key/value document found.
#[derive(Debug)]
pub enum FieldLookup {
    /// The text is not a valid document.
    NotToml,
    /// The document has no table under the section name.
    NoSection,
    /// The section exists but holds no string under the key.
    NoKey,
    /// The string found under `section.key`.
    Found(String),
}

/// A reading of the toolchain's own manifest can fail in these distinct
/// ways; none is ever collapsed into another, so the caller can produce a
/// targeted diagnostic.
#[derive(Debug)]
pub enum ManifestError {
    /// The manifest file is missing or unreadable; holds the path.
    Io(String),
    /// The contents are not valid structured-document syntax.
    Parse,
    /// The document parses but has no `package` table.
    MissingPackageSection,
    /// The `package` table lacks the version key, or its value is no string.
    MissingVersionField,
    /// The version value fails semantic-version parsing; holds the value.
    InvalidVersionFormat(String),
}

/// What the document parser finds at `section`.`key` of a text: a pure
/// function of the three texts.
pub uninterp spec fn toml_string_lookup(text: Seq<char>, section: Seq<char>, key: Seq<char>) -> FieldLookup;

/// Relies on `toml::de::from_str`, `toml::Value::get` and
/// `toml::Value::as_str`: parses the text as a TOML document and reads the
/// string under `section`.`key`. All three are pure functions of their
/// arguments, so the result is a function of the three texts.
#[verifier::external_body]
fn toml_lookup(text: &str, section: &str, key: &str) -> (r: FieldLookup)
    ensures
        r == toml_string_lookup(text@, section@, key@),
{
    match toml::de::from_str::<toml::Value>(text) {
        Err(_) => FieldLookup::NotToml,
        Ok(doc) => match doc.get(section) {
            None => FieldLookup::NoSection,
            Some(sec) => match sec.get(key) {
                None => FieldLookup::NoKey,
                Some(value) => match value.as_str() {
                    None => FieldLookup::NoKey,
                    Some(s) => FieldLookup::Found(s.to_owned()),
                },
            },
        },
    }
}

/// How a reading of the declared minimum follows from what the lookup found:
/// each failure is mapped onto its own error, and a found value is read as a
/// semantic version.
pub open spec fn interprets_lookup(l: FieldLookup, r: Result<SemanticVersion, ManifestError>) -> bool {
    &&& (l is NotToml ==> r == Result::<SemanticVersion, ManifestError>::Err(ManifestError::Parse))
    &&& (l is NoSection ==> r == Result::<SemanticVersion, ManifestError>::Err(
        ManifestError::MissingPackageSection,
    ))
    &&& (l is NoKey ==> r == Result::<SemanticVersion, ManifestError>::Err(
        ManifestError::MissingVersionField,
    ))
    &&& (l matches FieldLookup::Found(s) ==> {
        &&& (r matches Result::Ok(v) ==> version_matches(s@, v) && v.wf())
        &&& ((exists|v: SemanticVersion| version_matches(s@, v)) ==> r is Ok)
        &&& (r matches Result::Err(e) ==> e matches ManifestError::InvalidVersionFormat(bad)
            && bad@ == s@ && (forall|v: SemanticVersion| !version_matches(s@, v)))
    })
}

/// Turns what the lookup found into the declared minimum version, or the
/// matching error.
pub fn interpret_lookup(l: FieldLookup) -> (r: Result<SemanticVersion, ManifestError>)
    ensures
        interprets_lookup(l, r),
{
    match l {
        FieldLookup::NotToml => Result::Err(ManifestError::Parse),
        FieldLookup::NoSection => Result::Err(ManifestError::MissingPackageSection),
        FieldLookup::NoKey => Result::Err(ManifestError::MissingVersionField),
        FieldLookup::Found(s) => match crate::version::parse_version(s.as_str()) {
            Option::Some(v) => Result::Ok(v),
            Option::None => Result::Err(ManifestError::InvalidVersionFormat(s)),
        },
    }
}

/// Reads the declared minimum toolchain version out of the text of the
/// toolchain's own manifest: the string at `package.minimum-toolchain-version`
/// read as a semantic version, with a distinct error for each failure.
pub fn load_declared_minimum_from_text(text: &str) -> (r: Result<SemanticVersion, ManifestError>)
    ensures
        interprets_lookup(toml_string_lookup(text@, "package"@, "minimum-toolchain-version"@), r),
{
    interpret_lookup(toml_lookup(text, "package", "minimum-toolchain-version"))
}

} // verus!
