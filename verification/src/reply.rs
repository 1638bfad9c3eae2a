//! The replies of the server, as text and as the bytes that go on the wire.

use vstd::prelude::*;
use vstd::string::*;
use vstd::utf8::*;

verus! {

/// The bytes of one reply line: its text, then carriage return and line
/// feed, in UTF-8.
pub open spec fn wire_line(text: Seq<char>) -> Seq<u8> {
    encode_utf8(text + seq!['\r', '\n'])
}

/// The bytes that send `string` as one line.
pub fn message_formatter(string: &'static str) -> (bytes: Vec<u8>)
    ensures
        bytes@ == wire_line(string@),
{
    let mut formatted = String::from_str(string);
    proof {
        reveal_strlit("\r\n");
        assert("\r\n"@ =~= seq!['\r', '\n']);
    }
    formatted.append("\r\n");
    formatted.as_str().as_bytes_vec()
}

/// A single-line reply of the server.
#[derive(Clone, Copy, Debug, PartialEq, Eq, Structural)]
pub enum Reply {
    ServerReady,
    ReadyToStartTls,
    Bye,
    AuthenticationSuccessful,
    Okay,
    MessageAccepted,
    StartMailInput,
    TlsAlreadyActive,
    SyntaxError,
    NotImplemented,
    BadSequence,
    AuthenticationOutOfOrder,
    MechanismNotSupported,
    AuthenticationFailed,
}

impl Reply {
    /// The reply's line: its three-digit code, a space and the wording.
    pub open spec fn text(self) -> Seq<char> {
        match self {
            Reply::ServerReady => "220 Server Ready"@,
            Reply::ReadyToStartTls => "220 Ready to start TLS"@,
            Reply::Bye => "221 Bye"@,
            Reply::AuthenticationSuccessful => "235 Authentication Successfull"@,
            Reply::Okay => "250 OK"@,
            Reply::MessageAccepted => "250 Message accepted"@,
            Reply::StartMailInput => "354 End data with <CR><LF>.<CR><LF>"@,
            Reply::TlsAlreadyActive => "454 TLS Already Active"@,
            Reply::SyntaxError => "501 Syntax error in parameters"@,
            Reply::NotImplemented => "502 Command not implemented"@,
            Reply::BadSequence => "503 Bad Sequence of commands"@,
            Reply::AuthenticationOutOfOrder =>
                "503 Authentication already completed or already in mail"@,
            Reply::MechanismNotSupported => "504 Authentication mechanism not supported"@,
            Reply::AuthenticationFailed => "535 Authentication failed"@,
        }
    }

    /// The reply as it goes on the wire.
    pub open spec fn bytes(self) -> Seq<u8> {
        wire_line(self.text())
    }

    /// The reply's line, without its line ending.
    pub fn message(self) -> (text: &'static str)
        ensures
            text@ == self.text(),
    {
        match self {
            Reply::ServerReady => "220 Server Ready",
            Reply::ReadyToStartTls => "220 Ready to start TLS",
            Reply::Bye => "221 Bye",
            Reply::AuthenticationSuccessful => "235 Authentication Successfull",
            Reply::Okay => "250 OK",
            Reply::MessageAccepted => "250 Message accepted",
            Reply::StartMailInput => "354 End data with <CR><LF>.<CR><LF>",
            Reply::TlsAlreadyActive => "454 TLS Already Active",
            Reply::SyntaxError => "501 Syntax error in parameters",
            Reply::NotImplemented => "502 Command not implemented",
            Reply::BadSequence => "503 Bad Sequence of commands",
            Reply::AuthenticationOutOfOrder =>
                "503 Authentication already completed or already in mail",
            Reply::MechanismNotSupported => "504 Authentication mechanism not supported",
            Reply::AuthenticationFailed => "535 Authentication failed",
        }
    }

    /// Appends the reply to the bytes that are to be sent.
    pub fn send(self, buffer: &mut Vec<u8>)
        ensures
            final(buffer)@ == old(buffer)@ + self.bytes(),
    {
        let mut bytes = message_formatter(self.message());
        buffer.append(&mut bytes);
    }
}

} // verus!
