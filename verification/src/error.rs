//! The error type shared by the whole library.

use vstd::prelude::*;

verus! {

/// What a panicking task left behind.
#[derive(Debug)]
pub enum PanicPayload {
    /// The panic carried a text message.
    Message(String),
    /// The panic carried some other value.
    Opaque,
    /// An error that was turned into a panic.
    Failure(Box<Error>),
}

/// What can go wrong in the library.
#[derive(Debug)]
pub enum Error {
    /// A captured panic: its message, and what it carried.
    Panic(String, PanicPayload),
    /// A captured panic whose message was never looked at.
    PanicAny(PanicPayload),
    /// Bytes that should have been text were not valid UTF-8.
    Utf8,
    /// Stored data is missing or does not have the expected shape.
    Database(String),
    /// The configuration forbids the operation.
    Config(String),
    /// A remote server answered with something unusable.
    BadServerResponse(String),
    /// A remote server answered with an error: the server and the status.
    Federation(String, u16),
    /// Any other failure, by its description.
    Other(String),
}

/// The text of a panic, empty when it carried none.
pub open spec fn payload_message(payload: PanicPayload) -> Seq<char> {
    match payload {
        PanicPayload::Message(text) => text@,
        _ => Seq::empty(),
    }
}

/// The text of a panic, empty when it carried none.
pub fn panic_str(payload: &PanicPayload) -> (text: String)
    ensures
        text@ == payload_message(*payload),
{
    match payload {
        PanicPayload::Message(text) => text.clone(),
        _ => String::new(),
    }
}

impl Error {
    /// Whether this error carries a panic.
    pub open spec fn spec_is_panic(&self) -> bool {
        self is Panic || self is PanicAny
    }

    /// What this error turns into when it is raised as a panic.
    pub open spec fn spec_into_panic(self) -> PanicPayload {
        match self {
            Error::Panic(_, payload) => payload,
            Error::PanicAny(payload) => payload,
            other => PanicPayload::Failure(Box::new(other)),
        }
    }

    /// Wraps a caught panic, reading its message once.
    #[must_use]
    pub fn from_panic(e: PanicPayload) -> (error: Self)
        ensures
            error == Error::Panic(error->Panic_0, e),
            error->Panic_0@ == payload_message(e),
    {
        let text = panic_str(&e);
        Error::Panic(text, e)
    }

    /// Gives back the payload to panic with: the captured one where the
    /// error carries a panic, the error itself otherwise.
    pub fn into_panic(self) -> (payload: PanicPayload)
        ensures
            payload == self.spec_into_panic(),
    {
        match self {
            Error::Panic(_, e) => e,
            Error::PanicAny(e) => e,
            other => PanicPayload::Failure(Box::new(other)),
        }
    }

    /// The panic message, for errors that carry a panic.
    pub fn panic_str(self) -> (text: Option<String>)
        ensures
            text is Some <==> self.spec_is_panic(),
            text is Some ==> text->0@ == payload_message(self.spec_into_panic()),
    {
        if self.is_panic() {
            let payload = self.into_panic();
            Some(panic_str(&payload))
        } else {
            None
        }
    }

    /// Check if the error is carrying a panic.
    #[verifier::when_used_as_spec(spec_is_panic)]
    pub fn is_panic(&self) -> (carries: bool)
        ensures
            carries == self.spec_is_panic(),
    {
        match self {
            Error::Panic(..) => true,
            Error::PanicAny(..) => true,
            _ => false,
        }
    }
}

} // verus!
