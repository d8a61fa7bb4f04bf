//! The error type of the library.

use vstd::prelude::*;

verus! {

/// `figment::Error`, which figment reports when a setting cannot be read.
#[verifier::external_type_specification]
#[verifier::external_body]
pub struct ExFigmentError(figment::Error);

/// `std::io::Error`, which a filesystem operation reports.
#[verifier::external_type_specification]
#[verifier::external_body]
pub struct ExIoError(std::io::Error);

/// What can go wrong in the library.
#[derive(Debug)]
pub enum CoreError {
    /// The configuration could not be loaded.
    Config(Box<figment::Error>),
    /// A runtime directory could not be resolved.
    Dirs(String),
    /// A filesystem operation failed.
    Io(std::io::Error),
    /// The web server could not bind or serve.
    Web(String),
}

impl From<figment::Error> for CoreError {
    fn from(e: figment::Error) -> (error: CoreError) {
        CoreError::Config(Box::new(e))
    }
}

impl vstd::std_specs::convert::FromSpecImpl<figment::Error> for CoreError {
    open spec fn obeys_from_spec() -> bool {
        true
    }

    open spec fn from_spec(e: figment::Error) -> CoreError {
        CoreError::Config(Box::new(e))
    }
}

impl From<std::io::Error> for CoreError {
    fn from(e: std::io::Error) -> (error: CoreError) {
        CoreError::Io(e)
    }
}

impl vstd::std_specs::convert::FromSpecImpl<std::io::Error> for CoreError {
    open spec fn obeys_from_spec() -> bool {
        true
    }

    open spec fn from_spec(e: std::io::Error) -> CoreError {
        CoreError::Io(e)
    }
}

/// The text of a configuration error.
///
/// Calls `figment::Error`'s `to_string`. The text says what is wrong, and names the setting
/// and the source as far as the error holds them. How it names a file depends on the working
/// directory, so the contract claims nothing of the text.
#[verifier::external_body]
fn config_error_text(e: &figment::Error) -> (text: String) {
    e.to_string()
}

/// The text of a filesystem error.
///
/// Calls `std::io::Error`'s `to_string`. The text comes from the operating system; the
/// contract claims nothing of it.
#[verifier::external_body]
fn io_error_text(e: &std::io::Error) -> (text: String) {
    e.to_string()
}

impl CoreError {
    /// What a message about this error begins with.
    pub open spec fn prefix(self) -> Seq<char> {
        match self {
            CoreError::Config(_) => "config error: "@,
            CoreError::Dirs(_) => "directory resolution failed: "@,
            CoreError::Io(_) => "io error: "@,
            CoreError::Web(_) => "web server error: "@,
        }
    }

    /// The message for this error, whose details are `detail`.
    pub fn message_with(&self, detail: &str) -> (text: String)
        ensures
            text@ == self.prefix() + detail@,
    {
        let mut text = match self {
            CoreError::Config(_) => "config error: ".to_string(),
            CoreError::Dirs(_) => "directory resolution failed: ".to_string(),
            CoreError::Io(_) => "io error: ".to_string(),
            CoreError::Web(_) => "web server error: ".to_string(),
        };
        text.append(detail);
        text
    }

    /// The message for this error: what kind it is, then its details.
    pub fn message(&self) -> (text: String)
        ensures
            self.prefix().is_prefix_of(text@),
            self matches CoreError::Dirs(detail) ==> text@ == self.prefix() + detail@,
            self matches CoreError::Web(detail) ==> text@ == self.prefix() + detail@,
    {
        let detail = match self {
            CoreError::Config(e) => config_error_text(e),
            CoreError::Dirs(detail) => detail.clone(),
            CoreError::Io(e) => io_error_text(e),
            CoreError::Web(detail) => detail.clone(),
        };
        let text = self.message_with(detail.as_str());
        assert(text@.take(self.prefix().len() as int) =~= self.prefix());
        text
    }
}

/// A message names the kind of its error, whatever the details are.
pub proof fn law_message_names_the_kind(error: CoreError)
    ensures
        error is Config ==> error.prefix() == "config error: "@,
        error is Dirs ==> error.prefix() == "directory resolution failed: "@,
        error is Io ==> error.prefix() == "io error: "@,
        error is Web ==> error.prefix() == "web server error: "@,
{
}

} // verus!
