use vstd::prelude::*;

verus! {

/// The kinds of failure, without their diagnostic text.
#[derive(Clone, Copy, Debug, PartialEq, Eq, Structural)]
pub enum ErrorKind {
    Tcp,
    MalformedFrame,
    MalformedCommand,
    MalformedHeader,
    ConnectionRefused,
    IncorrectResponse,
    MessageNotSent,
    Other,
}

/// A failure as contracts speak of it: its kind and its diagnostic text.
pub struct Fault {
    pub kind: ErrorKind,
    pub detail: Seq<char>,
}

/// What can go wrong between this client and a broker. Every variant carries
/// a text for the person who reads the failure.
#[derive(Debug, PartialEq, Eq)]
pub enum StompError {
    /// The byte stream could not be opened, read or written.
    TcpError(String),
    /// The buffer holds fewer than two lines.
    MalformedFrame(String),
    /// The first line is no command.
    MalformedCommand(String),
    /// A header line does not hold exactly one colon.
    MalformedHeader(String),
    /// The broker answered CONNECT with ERROR.
    ConnectionRefused(String),
    /// A frame came where one with another command was expected.
    IncorrectResponse(String),
    /// The broker answered SEND with ERROR.
    MessageNotSent(String),
    /// Anything else.
    Other(String),
}

impl View for StompError {
    type V = Fault;

    open spec fn view(&self) -> Fault {
        match self {
            StompError::TcpError(m) => Fault { kind: ErrorKind::Tcp, detail: m@ },
            StompError::MalformedFrame(m) => Fault { kind: ErrorKind::MalformedFrame, detail: m@ },
            StompError::MalformedCommand(m) => Fault {
                kind: ErrorKind::MalformedCommand,
                detail: m@,
            },
            StompError::MalformedHeader(m) => Fault {
                kind: ErrorKind::MalformedHeader,
                detail: m@,
            },
            StompError::ConnectionRefused(m) => Fault {
                kind: ErrorKind::ConnectionRefused,
                detail: m@,
            },
            StompError::IncorrectResponse(m) => Fault {
                kind: ErrorKind::IncorrectResponse,
                detail: m@,
            },
            StompError::MessageNotSent(m) => Fault { kind: ErrorKind::MessageNotSent, detail: m@ },
            StompError::Other(m) => Fault { kind: ErrorKind::Other, detail: m@ },
        }
    }
}

impl Clone for StompError {
    fn clone(&self) -> (copy: StompError)
        ensures
            copy@ == self@,
    {
        match self {
            StompError::TcpError(m) => StompError::TcpError(m.clone()),
            StompError::MalformedFrame(m) => StompError::MalformedFrame(m.clone()),
            StompError::MalformedCommand(m) => StompError::MalformedCommand(m.clone()),
            StompError::MalformedHeader(m) => StompError::MalformedHeader(m.clone()),
            StompError::ConnectionRefused(m) => StompError::ConnectionRefused(m.clone()),
            StompError::IncorrectResponse(m) => StompError::IncorrectResponse(m.clone()),
            StompError::MessageNotSent(m) => StompError::MessageNotSent(m.clone()),
            StompError::Other(m) => StompError::Other(m.clone()),
        }
    }
}

impl StompError {
    /// The kind of this failure.
    pub fn kind(&self) -> (kind: ErrorKind)
        ensures
            kind == self@.kind,
    {
        match self {
            StompError::TcpError(_) => ErrorKind::Tcp,
            StompError::MalformedFrame(_) => ErrorKind::MalformedFrame,
            StompError::MalformedCommand(_) => ErrorKind::MalformedCommand,
            StompError::MalformedHeader(_) => ErrorKind::MalformedHeader,
            StompError::ConnectionRefused(_) => ErrorKind::ConnectionRefused,
            StompError::IncorrectResponse(_) => ErrorKind::IncorrectResponse,
            StompError::MessageNotSent(_) => ErrorKind::MessageNotSent,
            StompError::Other(_) => ErrorKind::Other,
        }
    }

    /// The diagnostic text of this failure.
    pub fn detail(&self) -> (text: &String)
        ensures
            text@ == self@.detail,
    {
        match self {
            StompError::TcpError(m) => m,
            StompError::MalformedFrame(m) => m,
            StompError::MalformedCommand(m) => m,
            StompError::MalformedHeader(m) => m,
            StompError::ConnectionRefused(m) => m,
            StompError::IncorrectResponse(m) => m,
            StompError::MessageNotSent(m) => m,
            StompError::Other(m) => m,
        }
    }
}

} // verus!
