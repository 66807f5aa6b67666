use vstd::prelude::*;
use vstd::string::StringExecFns;

verus! {

/// The failures the multiplexer reports; each carries a human readable message.
#[derive(Debug)]
pub enum Error {
    StreamDoesNotExistError(String),
    WriteError(String),
    ReadError(String),
    WaitError(String),
    NotAcceptingError(String),
}

/// The text of an error: the variant's name, a colon and a space, then the message.
pub open spec fn error_text(e: Error) -> Seq<char> {
    match e {
        Error::StreamDoesNotExistError(m) => "StreamDoesNotExistError: "@ + m@,
        Error::WriteError(m) => "WriteError: "@ + m@,
        Error::ReadError(m) => "ReadError: "@ + m@,
        Error::WaitError(m) => "WaitError: "@ + m@,
        Error::NotAcceptingError(m) => "NotAcceptingError: "@ + m@,
    }
}

impl Error {
    /// The error as text, as it is shown to users.
    pub fn to_string(&self) -> (text: String)
        ensures
            text@ == error_text(*self),
    {
        match self {
            Error::StreamDoesNotExistError(m) => {
                let mut s = String::from_str("StreamDoesNotExistError: ");
                s.append(m.as_str());
                s
            },
            Error::WriteError(m) => {
                let mut s = String::from_str("WriteError: ");
                s.append(m.as_str());
                s
            },
            Error::ReadError(m) => {
                let mut s = String::from_str("ReadError: ");
                s.append(m.as_str());
                s
            },
            Error::WaitError(m) => {
                let mut s = String::from_str("WaitError: ");
                s.append(m.as_str());
                s
            },
            Error::NotAcceptingError(m) => {
                let mut s = String::from_str("NotAcceptingError: ");
                s.append(m.as_str());
                s
            },
        }
    }
}

} // verus!
