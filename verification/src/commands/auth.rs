//! `AUTH PLAIN <base64>`: the client proves who it is.

use crate::config::{Configuration, ConfigurationView};
use crate::credentials::{check_payload, payload_verdict, Verdict};
use crate::mail::{Mail, MailView};
use crate::reply::Reply;
use crate::text::str_equals;
use vstd::prelude::*;
use vstd::string::*;

verus! {

/// What `AUTH` sends. It is refused once a mail transaction has begun or
/// the client has authenticated; it needs a mechanism, which must be
/// `PLAIN`; and every way in which the credentials can fail gives the same
/// reply.
pub open spec fn reply(mail: MailView, config: ConfigurationView, cmd: Seq<Seq<char>>) -> Reply {
    if mail.in_mail || mail.has_authed {
        Reply::AuthenticationOutOfOrder
    } else if cmd.len() < 2 {
        Reply::SyntaxError
    } else if cmd[1] != "PLAIN"@ {
        Reply::MechanismNotSupported
    } else if cmd.len() < 3 {
        Reply::AuthenticationFailed
    } else {
        payload_verdict(config, cmd[2]).reply()
    }
}

/// The record after `AUTH`: authenticated exactly if the reply is `235`.
pub open spec fn after(mail: MailView, config: ConfigurationView, cmd: Seq<Seq<char>>) -> MailView {
    if reply(mail, config, cmd) == Reply::AuthenticationSuccessful {
        MailView { has_authed: true, ..mail }
    } else {
        mail
    }
}

/// Answers `AUTH`, given as the words of its line, and marks the record
/// as authenticated where the credentials hold.
pub fn handle(
    mail: &mut Mail,
    service_config: &Configuration,
    buffer: &mut Vec<u8>,
    cmd: Vec<String>,
)
    ensures
        final(mail)@ == after(old(mail)@, service_config@, cmd.deep_view()),
        final(buffer)@ == old(buffer)@ + reply(
            old(mail)@,
            service_config@,
            cmd.deep_view(),
        ).bytes(),
{
    if mail.in_mail || mail.has_authed {
        Reply::AuthenticationOutOfOrder.send(buffer);
        return ;
    }
    if cmd.len() < 2 {
        Reply::SyntaxError.send(buffer);
        return ;
    }
    if !str_equals(cmd[1].as_str(), "PLAIN") {
        Reply::MechanismNotSupported.send(buffer);
        return ;
    }
    if cmd.len() < 3 {
        Reply::AuthenticationFailed.send(buffer);
        return ;
    }
    let verdict = check_payload(service_config, cmd[2].as_str());
    if verdict == Verdict::Accepted {
        mail.has_authed = true;
    }
    verdict.to_reply().send(buffer);
}

} // verus!
