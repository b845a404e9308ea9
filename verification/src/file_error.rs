//! Errors of the file operations.

use vstd::prelude::*;

verus! {

/// `std::io::ErrorKind`, carried through as an opaque value.
#[verifier::external_type_specification]
#[verifier::external_body]
pub struct ExErrorKind(std::io::ErrorKind);

/// `<ErrorKind as Clone>::clone`: `ErrorKind` is `Copy`, so the clone is the
/// same value.
pub assume_specification[ <std::io::ErrorKind as Clone>::clone ](kind: &std::io::ErrorKind) -> (r: std::io::ErrorKind)
    ensures
        r == *kind,
;

/// Errors that can occur during file operations.
#[derive(Debug, Clone)]
pub enum FileError {
    /// The user cancelled the file dialog.
    DialogClosed,
    /// An I/O error occurred.
    IoError(std::io::ErrorKind),
}

/// What `<ErrorKind as Display>::fmt` writes for `kind`: its description
/// ("entity not found", "permission denied", ...), which depends on the kind
/// alone.
pub uninterp spec fn error_kind_description(kind: std::io::ErrorKind) -> Seq<char>;

/// The `Display` text of an I/O error kind (`<ErrorKind as Display>::fmt`,
/// through `format!`); claimed to be [`error_kind_description`] of the kind.
#[verifier::external_body]
fn error_kind_text(kind: &std::io::ErrorKind) -> (r: String)
    ensures
        r@ == error_kind_description(*kind),
{
    format!("{kind}")
}

/// The message shown for an I/O error whose kind reads `description`.
pub fn io_error_message(description: &str) -> (r: String)
    ensures
        r@ == "I/O error: "@ + description@,
{
    let mut out = String::from_str("I/O error: ");
    out.append(description);
    proof {
        reveal_strlit("I/O error: ");
    }
    out
}

impl FileError {
    /// The message shown for the error: `Dialog closed`, or `I/O error: `
    /// followed by the error kind's description.
    pub fn message(&self) -> (r: String)
        ensures
            match *self {
                FileError::DialogClosed => r@ == "Dialog closed"@,
                FileError::IoError(kind) => r@ == "I/O error: "@ + error_kind_description(kind),
            },
    {
        match self {
            FileError::DialogClosed => String::from_str("Dialog closed"),
            FileError::IoError(kind) => {
                let text = error_kind_text(kind);
                io_error_message(text.as_str())
            },
        }
    }
}

} // verus!
