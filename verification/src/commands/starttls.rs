//! `STARTTLS`: the connection is to be upgraded to TLS, once.

use crate::mail::{Mail, MailView};
use crate::reply::Reply;
use vstd::prelude::*;

verus! {

/// What `STARTTLS` sends.
pub open spec fn reply(mail: MailView) -> Reply {
    if mail.has_tls {
        Reply::TlsAlreadyActive
    } else {
        Reply::ReadyToStartTls
    }
}

/// The record after `STARTTLS`: the connection counts as protected.
pub open spec fn after(mail: MailView) -> MailView {
    MailView { has_tls: true, ..mail }
}

/// Answers `STARTTLS`. Where the result is `true`, the connection is to
/// send the reply, perform the TLS handshake and read on from the
/// protected stream; where it is `false`, TLS was active already.
pub fn handle(mail: &mut Mail, buffer: &mut Vec<u8>) -> (upgrade: bool)
    ensures
        upgrade == !old(mail)@.has_tls,
        final(mail)@ == after(old(mail)@),
        final(buffer)@ == old(buffer)@ + reply(old(mail)@).bytes(),
{
    if mail.has_tls {
        Reply::TlsAlreadyActive.send(buffer);
        return false;
    }
    Reply::ReadyToStartTls.send(buffer);
    mail.has_tls = true;
    true
}

} // verus!
