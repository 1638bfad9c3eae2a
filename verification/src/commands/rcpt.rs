//! `RCPT TO:<address>`: names one more recipient.

use crate::mail::{Mail, MailView};
use crate::reply::Reply;
use crate::text::{bare_address, strip_address};
use vstd::prelude::*;
use vstd::string::*;

verus! {

/// The record after `RCPT`: the second word of the command, without `TO:`
/// and angle brackets, is one more recipient, also where it was named
/// before. Without a second word nothing changes.
pub open spec fn after(mail: MailView, cmd: Seq<Seq<char>>) -> MailView {
    if cmd.len() > 1 {
        MailView { to: mail.to.push(bare_address(cmd[1], "TO:"@)), ..mail }
    } else {
        mail
    }
}

/// What `RCPT` sends: `250 OK` where it names a recipient, else nothing.
pub open spec fn response(cmd: Seq<Seq<char>>) -> Seq<u8> {
    if cmd.len() > 1 {
        Reply::Okay.bytes()
    } else {
        Seq::empty()
    }
}

/// Answers `RCPT`, given as the words of its line, and stores the
/// recipient.
pub fn handle(mail: &mut Mail, buffer: &mut Vec<u8>, cmd: Vec<String>)
    ensures
        final(mail)@ == after(old(mail)@, cmd.deep_view()),
        final(buffer)@ == old(buffer)@ + response(cmd.deep_view()),
{
    if cmd.len() > 1 {
        let second = strip_address(cmd[1].as_str(), "TO:");
        let ghost before = mail.to.deep_view();
        mail.to.push(second);
        assert(mail.to.deep_view() =~= before.push(second@));
        Reply::Okay.send(buffer);
    } else {
        assert(buffer@ + Seq::<u8>::empty() =~= buffer@);
    }
}

} // verus!
