//! `DATA`: the lines that follow are the message body.

use crate::mail::{Mail, MailView};
use crate::reply::Reply;
use vstd::prelude::*;
use vstd::string::*;

verus! {

/// Whether `DATA` comes before a sender and a recipient were named.
pub open spec fn out_of_sequence(mail: MailView) -> bool {
    mail.from.len() == 0 || mail.to.len() == 0
}

/// What `DATA` sends: `354`, after `503` where the envelope is
/// incomplete.
pub open spec fn response(mail: MailView) -> Seq<u8> {
    if out_of_sequence(mail) {
        Reply::BadSequence.bytes() + Reply::StartMailInput.bytes()
    } else {
        Reply::StartMailInput.bytes()
    }
}

/// The record after `DATA`: body lines are expected, also where the
/// command came out of sequence.
pub open spec fn after(mail: MailView) -> MailView {
    MailView { sending_data: true, ..mail }
}

/// Answers `DATA` and switches the record to data mode.
pub fn handle(mail: &mut Mail, buffer: &mut Vec<u8>)
    ensures
        final(mail)@ == after(old(mail)@),
        final(buffer)@ == old(buffer)@ + response(old(mail)@),
{
    if mail.from.as_str().is_empty() || mail.to.len() == 0 {
        Reply::BadSequence.send(buffer);
    }
    mail.sending_data = true;
    Reply::StartMailInput.send(buffer);
}

} // verus!
