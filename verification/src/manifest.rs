//! The project manifest: a JSON document that may declare a constraint on the PHP version, as
//! the string under `require`, then `php`.
//!
//! The document is read by `serde_json`. Nothing of that reading is proved here: a JSON
//! value stays closed to the verifier, and the contracts speak of what `serde_json` finds in
//! it by name.

use vstd::prelude::*;

verus! {

/// Declares `serde_json::Value`, a JSON value. Nothing inside it is visible here.
#[verifier::external_type_specification]
#[verifier::external_body]
pub struct ExJsonValue(serde_json::Value);

/// Declares `serde_json::Error`, the parser's error. Nothing inside it is visible here.
#[verifier::external_type_specification]
#[verifier::external_body]
pub struct ExJsonError(serde_json::Error);

/// The JSON value that `bytes` spell, as `serde_json::from_slice` reads them, or the parser's
/// error where they spell none.
pub uninterp spec fn json_parsed(bytes: Seq<u8>) -> Result<serde_json::Value, serde_json::Error>;

/// The member of the JSON value `value` under `key`, as indexing a `serde_json::Value` by a
/// string gives it.
pub uninterp spec fn json_member(value: serde_json::Value, key: Seq<char>) -> serde_json::Value;

/// The text of the JSON value `value`, as `serde_json::Value::as_str` gives it: `None` for a
/// value that is no string.
pub uninterp spec fn json_text(value: serde_json::Value) -> Option<Seq<char>>;

/// The text that the `Debug` implementation of `serde_json::Error` gives for `error`.
pub uninterp spec fn json_error_report(error: serde_json::Error) -> Seq<char>;

/// Calls `serde_json::from_slice` for a `serde_json::Value`. Not proved; the contract claims
/// only that the outcome depends on the bytes alone.
#[verifier::external_body]
fn parse_json(bytes: &[u8]) -> (r: Result<serde_json::Value, serde_json::Error>)
    ensures
        r == json_parsed(bytes@),
{
    serde_json::from_slice(bytes)
}

/// Indexes a `serde_json::Value` by a string, with its `Index::index`. Not proved; the
/// contract claims only that the member depends on the value and the key alone.
#[verifier::external_body]
fn member_of<'a>(value: &'a serde_json::Value, key: &str) -> (r: &'a serde_json::Value)
    ensures
        *r == json_member(*value, key@),
{
    &value[key]
}

/// Calls `serde_json::Value::as_str`. Not proved; the contract claims only that the outcome
/// depends on the value alone.
#[verifier::external_body]
fn text_of<'a>(value: &'a serde_json::Value) -> (r: Option<&'a str>)
    ensures
        match r {
            Some(text) => json_text(*value) == Some(text@),
            None => json_text(*value) is None,
        },
{
    value.as_str()
}

/// Formats a `serde_json::Error` with its `Debug` implementation. Not proved; the contract
/// claims only that the text depends on the error alone.
#[verifier::external_body]
fn report_of(error: &serde_json::Error) -> (r: String)
    ensures
        r@ == json_error_report(*error),
{
    format!("{:?}", error)
}

/// Why a manifest declares nothing that can be read.
#[derive(Debug, PartialEq, Eq)]
pub enum ManifestError {
    /// The manifest is not a JSON document.
    Malformed {
        /// The parser's report of what is wrong, and where.
        report: String,
    },
}

/// The constraint that a manifest declares: the string under `require`, then `php`, if the
/// manifest is a JSON document and holds a string there. The error is the parser's report.
pub open spec fn declared(manifest: Seq<u8>) -> Result<Option<Seq<char>>, Seq<char>> {
    match json_parsed(manifest) {
        Ok(document) => Ok(json_text(json_member(json_member(document, "require"@), "php"@))),
        Err(error) => Err(json_error_report(error)),
    }
}

/// Reads the declared constraint out of a manifest.
///
/// Gives `None` for a document that holds no string under `require`, then `php`, and fails
/// exactly when the manifest is not a JSON document.
pub fn declared_constraint(manifest: &[u8]) -> (r: Result<Option<String>, ManifestError>)
    ensures
        match r {
            Ok(Some(constraint)) => declared(manifest@) == Ok::<Option<Seq<char>>, Seq<char>>(
                Some(constraint@),
            ),
            Ok(None) => declared(manifest@) == Ok::<Option<Seq<char>>, Seq<char>>(None),
            Err(ManifestError::Malformed { report }) => declared(manifest@) == Err::<
                Option<Seq<char>>,
                Seq<char>,
            >(report@),
        },
{
    match parse_json(manifest) {
        Ok(document) => {
            let field = member_of(member_of(&document, "require"), "php");
            match text_of(field) {
                Some(text) => Ok(Some(text.to_owned())),
                None => Ok(None),
            }
        },
        Err(error) => Err(ManifestError::Malformed { report: report_of(&error) }),
    }
}

} // verus!
