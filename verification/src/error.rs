use vstd::prelude::*;
use vstd::string::*;
use crate::decimal::{decimal_text, push_decimal};

verus! {

/// Everything that can go wrong inside the library.
#[derive(Debug)]
pub enum PasspromptError {
    /// The store holds no entry at all.
    NoPasswordsDefined,
    /// A byte sequence did not have the length its destination demands.
    IllegalByteArrayLength { expected: usize, actual: usize },
    /// A text that is no duration.
    UnparseableWaitFormat(String),
    /// A configuration key that does not exist.
    UnknownConfigOption(String),
    /// A password of zero length.
    EmptyPassword,
    /// A command-line argument whose value cannot be used.
    IllegalArgument { name: String, value: String },
    /// No entry is stored under this name.
    UnknownName(String),
    /// A password longer than the digest function accepts, in bytes.
    PasswordTooLong { limit: usize, actual: usize },
    /// A salt text that does not decode to exactly sixteen bytes.
    InvalidSaltEncoding,
    /// A hash text that does not decode to exactly twenty-four bytes.
    InvalidHashEncoding,
}

impl PasspromptError {
    /// The text that tells the user of the error.
    pub open spec fn message_spec(self) -> Seq<char> {
        match self {
            PasspromptError::NoPasswordsDefined => "no passwords defined"@,
            PasspromptError::IllegalByteArrayLength { expected, actual } => {
                "improper length: expected "@ + decimal_text(expected as nat) + ", got "@
                    + decimal_text(actual as nat)
            },
            PasspromptError::UnparseableWaitFormat(text) => {
                "could not parse wait format '"@ + text@ + "'"@
            },
            PasspromptError::UnknownConfigOption(option) => {
                "unknown configuration option '"@ + option@ + "'"@
            },
            PasspromptError::EmptyPassword => "password is empty"@,
            PasspromptError::IllegalArgument { name, value } => {
                "illegal value for argument '"@ + name@ + "': "@ + value@
            },
            PasspromptError::UnknownName(name) => "no password named "@ + name@,
            PasspromptError::PasswordTooLong { limit, actual } => {
                "password is too long: at most "@ + decimal_text(limit as nat) + " bytes, got "@
                    + decimal_text(actual as nat)
            },
            PasspromptError::InvalidSaltEncoding => "salt is not the base64 text of 16 bytes"@,
            PasspromptError::InvalidHashEncoding => "hash is not the base64 text of 24 bytes"@,
        }
    }

    /// Writes the text that tells the user of the error.
    pub fn message(&self) -> (r: String)
        ensures
            r@ == self.message_spec(),
    {
        match self {
            PasspromptError::NoPasswordsDefined => "no passwords defined".to_owned(),
            PasspromptError::IllegalByteArrayLength { expected, actual } => {
                let mut out = "improper length: expected ".to_owned();
                push_decimal(&mut out, *expected as u64);
                out.append(", got ");
                push_decimal(&mut out, *actual as u64);
                out
            },
            PasspromptError::UnparseableWaitFormat(text) => {
                let mut out = "could not parse wait format '".to_owned();
                out.append(text.as_str());
                out.append("'");
                out
            },
            PasspromptError::UnknownConfigOption(option) => {
                let mut out = "unknown configuration option '".to_owned();
                out.append(option.as_str());
                out.append("'");
                out
            },
            PasspromptError::EmptyPassword => "password is empty".to_owned(),
            PasspromptError::IllegalArgument { name, value } => {
                let mut out = "illegal value for argument '".to_owned();
                out.append(name.as_str());
                out.append("': ");
                out.append(value.as_str());
                out
            },
            PasspromptError::UnknownName(name) => {
                let mut out = "no password named ".to_owned();
                out.append(name.as_str());
                out
            },
            PasspromptError::PasswordTooLong { limit, actual } => {
                let mut out = "password is too long: at most ".to_owned();
                push_decimal(&mut out, *limit as u64);
                out.append(" bytes, got ");
                push_decimal(&mut out, *actual as u64);
                out
            },
            PasspromptError::InvalidSaltEncoding => {
                "salt is not the base64 text of 16 bytes".to_owned()
            },
            PasspromptError::InvalidHashEncoding => {
                "hash is not the base64 text of 24 bytes".to_owned()
            },
        }
    }
}

} // verus!
