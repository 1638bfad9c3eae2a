//! The record that a session builds up: the envelope, the body, and the
//! flags that say which commands are in order.

use vstd::prelude::*;
use vstd::string::*;

verus! {

/// One connection's mail and the state of its dialogue. A session starts
/// with a fresh record and is the only one to change it.
#[derive(Clone, Debug)]
pub struct Mail {
    /// The message identifier; empty until the session has ended.
    pub id: String,
    /// The sender, as `MAIL FROM` gave it, without angle brackets.
    pub from: String,
    /// The recipients in the order of their `RCPT TO` commands, repeated
    /// ones included.
    pub to: Vec<String>,
    /// The message body, each line ended by a line feed.
    pub data: String,
    /// Whether the lines that come in are body lines.
    pub sending_data: bool,
    /// Whether `MAIL` has been given.
    pub in_mail: bool,
    /// Whether the client has authenticated.
    pub has_authed: bool,
    /// Whether the connection is protected by TLS.
    pub has_tls: bool,
}

/// A `Mail` as plain text.
pub struct MailView {
    pub id: Seq<char>,
    pub from: Seq<char>,
    pub to: Seq<Seq<char>>,
    pub data: Seq<char>,
    pub sending_data: bool,
    pub in_mail: bool,
    pub has_authed: bool,
    pub has_tls: bool,
}

impl MailView {
    /// The record of a connection on which nothing has happened yet.
    pub open spec fn fresh() -> MailView {
        MailView {
            id: Seq::empty(),
            from: Seq::empty(),
            to: Seq::empty(),
            data: Seq::empty(),
            sending_data: false,
            in_mail: false,
            has_authed: false,
            has_tls: false,
        }
    }
}

impl View for Mail {
    type V = MailView;

    open spec fn view(&self) -> MailView {
        MailView {
            id: self.id@,
            from: self.from@,
            to: self.to.deep_view(),
            data: self.data@,
            sending_data: self.sending_data,
            in_mail: self.in_mail,
            has_authed: self.has_authed,
            has_tls: self.has_tls,
        }
    }
}

impl Mail {
    /// The record for a new connection.
    pub fn new() -> (mail: Mail)
        ensures
            mail@ == MailView::fresh(),
    {
        let mail = Mail {
            id: String::new(),
            from: String::new(),
            to: Vec::new(),
            data: String::new(),
            sending_data: false,
            in_mail: false,
            has_authed: false,
            has_tls: false,
        };
        assert(mail.to.deep_view() =~= Seq::<Seq<char>>::empty());
        mail
    }
}

impl Default for Mail {
    fn default() -> (mail: Mail)
        ensures
            mail@ == MailView::fresh(),
    {
        Mail::new()
    }
}

} // verus!
