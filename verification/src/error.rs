use vstd::prelude::*;
use vstd::std_specs::convert::FromSpecImpl;
use vstd::string::StringExecFns;

verus! {

/// The result of an operation of this library.
pub type Result<T> = core::result::Result<T, Error>;

/// What can go wrong in this library.
#[derive(Debug)]
pub enum Error {
    /// A failure inside the library, with a message that describes it.
    Custom(String),
    /// A selector that the selector engine does not accept, with the engine's reason.
    SelectorParse { selector: String, cause: String },
}

impl Error {
    /// The text that describes the error: the message of a custom error as it is, and of
    /// a selector error the selector and the cause.
    pub open spec fn message(&self) -> Seq<char> {
        match self {
            Error::Custom(message) => message@,
            Error::SelectorParse { selector, cause } => "Selector '"@ + selector@
                + "' is invalid.\nCause: "@ + cause@,
        }
    }

    /// Makes a [`Error::Custom`] whose message is what `err` displays as.
    pub fn custom_from_error<E: std::error::Error>(err: E) -> (error: Error)
        ensures
            error matches Error::Custom(message)
                && vstd::string::to_string_from_display_ensures::<E>(&err, message),
    {
        Error::Custom(err.to_string())
    }

    /// Makes a [`Error::Custom`] whose message is what `val` converts into.
    pub fn custom<T: Into<String>>(val: T) -> (error: Error)
        ensures
            error matches Error::Custom(message) && call_ensures(T::into, (val,), message),
    {
        Error::Custom(val.into())
    }

    /// Writes the text that describes the error.
    pub fn to_string(&self) -> (text: String)
        ensures
            text@ == self.message(),
    {
        match self {
            Error::Custom(message) => message.clone(),
            Error::SelectorParse { selector, cause } => {
                let mut text = String::from_str("Selector '");
                text.append(selector.as_str());
                text.append("' is invalid.\nCause: ");
                text.append(cause.as_str());
                text
            },
        }
    }
}

impl From<String> for Error {
    fn from(message: String) -> (error: Error) {
        Error::Custom(message)
    }
}

impl FromSpecImpl<String> for Error {
    open spec fn obeys_from_spec() -> bool {
        true
    }

    open spec fn from_spec(message: String) -> Error {
        Error::Custom(message)
    }
}

impl<'a> From<&'a str> for Error {
    fn from(message: &'a str) -> (error: Error)
        ensures
            error matches Error::Custom(text) && text@ == message@,
    {
        Error::Custom(String::from_str(message))
    }
}

impl<'a> FromSpecImpl<&'a str> for Error {
    open spec fn obeys_from_spec() -> bool {
        false
    }

    open spec fn from_spec(message: &'a str) -> Error {
        arbitrary()
    }
}

impl<'a> From<&'a String> for Error {
    fn from(message: &'a String) -> (error: Error)
        ensures
            error matches Error::Custom(text) && text@ == message@,
    {
        Error::Custom(message.clone())
    }
}

impl<'a> FromSpecImpl<&'a String> for Error {
    open spec fn obeys_from_spec() -> bool {
        false
    }

    open spec fn from_spec(message: &'a String) -> Error {
        arbitrary()
    }
}

} // verus!
