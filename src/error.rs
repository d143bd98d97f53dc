//! The library's error kinds.
use vstd::prelude::*;

verus! {

/// Why a request or a step of the library failed. Each variant carries a
/// message for the user.
#[derive(Debug, PartialEq, Eq)]
pub enum Error {
    GeneratorError(String),
    LLMError(String),
    RuleError(String),
    StorageError(String),
    ConfigError(String),
}

impl Error {
    /// The message, prefixed by the kind of failure.
    pub fn message(&self) -> (r: String)
        ensures
            r@ == self.message_spec(),
    {
        let (prefix, detail) = match self {
            Error::GeneratorError(m) => ("Generator error: ", m),
            Error::LLMError(m) => ("LLM error: ", m),
            Error::RuleError(m) => ("Rule engine error: ", m),
            Error::StorageError(m) => ("Storage error: ", m),
            Error::ConfigError(m) => ("Config error: ", m),
        };
        let mut r = prefix.to_string();
        r.append(detail.as_str());
        r
    }

    pub open spec fn message_spec(&self) -> Seq<char> {
        match self {
            Error::GeneratorError(m) => "Generator error: "@ + m@,
            Error::LLMError(m) => "LLM error: "@ + m@,
            Error::RuleError(m) => "Rule engine error: "@ + m@,
            Error::StorageError(m) => "Storage error: "@ + m@,
            Error::ConfigError(m) => "Config error: "@ + m@,
        }
    }
}

} // verus!
