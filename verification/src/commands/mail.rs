//! `MAIL FROM:<address>`: names the sender.

use crate::mail::{Mail, MailView};
use crate::reply::Reply;
use crate::text::{bare_address, strip_address};
use vstd::prelude::*;
use vstd::string::*;

verus! {

/// The record after `MAIL`: a mail transaction has begun, and the second
/// word of the command, without `FROM:` and angle brackets, is the sender.
/// Without a second word the sender stays as it was.
pub open spec fn after(mail: MailView, cmd: Seq<Seq<char>>) -> MailView {
    if cmd.len() > 1 {
        MailView { in_mail: true, from: bare_address(cmd[1], "FROM:"@), ..mail }
    } else {
        MailView { in_mail: true, ..mail }
    }
}

/// What `MAIL` sends: `250 OK` where it names a sender, else nothing.
pub open spec fn response(cmd: Seq<Seq<char>>) -> Seq<u8> {
    if cmd.len() > 1 {
        Reply::Okay.bytes()
    } else {
        Seq::empty()
    }
}

/// Answers `MAIL`, given as the words of its line, and stores the sender.
pub fn handle(mail: &mut Mail, buffer: &mut Vec<u8>, cmd: Vec<String>)
    ensures
        final(mail)@ == after(old(mail)@, cmd.deep_view()),
        final(buffer)@ == old(buffer)@ + response(cmd.deep_view()),
{
    mail.in_mail = true;
    if cmd.len() > 1 {
        let second = strip_address(cmd[1].as_str(), "FROM:");
        Reply::Okay.send(buffer);
        mail.from = second;
    } else {
        assert(buffer@ + Seq::<u8>::empty() =~= buffer@);
    }
}

} // verus!
