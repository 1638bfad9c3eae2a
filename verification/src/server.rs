//! The SMTP session: what the server does with each line that a client
//! sends, and what a whole dialogue comes to.
//!
//! The connection itself is not here. Its owner reads a line, hands it to
//! [`handle_line`], sends the bytes that come back and does what
//! [`Next`] says: go on reading, upgrade the stream to TLS, or close.

use crate::commands::{auth, data, ehlo, mail, quit, rcpt, starttls};
use crate::config::{Configuration, ConfigurationView};
use crate::ident::{is_message_id, new_message_id};
use crate::mail::{Mail, MailView};
use crate::reply::Reply;
use crate::shared::SMTPPortConfiguration;
use crate::text::{
    append_normalised, crlf_to_lf, has_crlf, lemma_crlf_free, occurs_in, split_words, str_equals,
    trim_end, trimmed_equals, words,
};
use vstd::prelude::*;
use vstd::string::*;
use vstd::utf8::*;

verus! {

/// What the connection is to do once the replies to a line are sent.
#[derive(Clone, Copy, Debug, PartialEq, Eq, Structural)]
pub enum Next {
    /// Read the next line.
    Continue,
    /// Flush and, where [`may_upgrade`] allows it, perform the TLS
    /// handshake as the server and read the next line from the protected
    /// stream. Where it does not, or where the handshake fails, the
    /// session ends.
    StartTls,
    /// Close the write side and end the session.
    Close,
}

/// The server's answer to one line.
#[derive(Debug)]
pub struct Step {
    /// The bytes to send, possibly none.
    pub output: Vec<u8>,
    pub next: Next,
}

/// A line's effect: the record after it, the bytes sent and what comes
/// next.
pub struct Outcome {
    pub mail: MailView,
    pub output: Seq<u8>,
    pub next: Next,
}

/// The effect of a line in command mode, given as its words. The first
/// word is the verb, compared as it stands; a line without words has no
/// effect.
pub open spec fn command(
    mail: MailView,
    policy: SMTPPortConfiguration,
    config: ConfigurationView,
    cmd: Seq<Seq<char>>,
) -> Outcome {
    if cmd.len() == 0 {
        Outcome { mail, output: Seq::empty(), next: Next::Continue }
    } else if cmd[0] == "EHLO"@ {
        Outcome {
            mail,
            output: ehlo::response(mail.has_tls, policy.auth_enabled),
            next: Next::Continue,
        }
    } else if cmd[0] == "AUTH"@ {
        Outcome {
            mail: auth::after(mail, config, cmd),
            output: auth::reply(mail, config, cmd).bytes(),
            next: Next::Continue,
        }
    } else if cmd[0] == "MAIL"@ {
        Outcome { mail: mail::after(mail, cmd), output: mail::response(cmd), next: Next::Continue }
    } else if cmd[0] == "RCPT"@ {
        Outcome { mail: rcpt::after(mail, cmd), output: rcpt::response(cmd), next: Next::Continue }
    } else if cmd[0] == "DATA"@ {
        Outcome { mail: data::after(mail), output: data::response(mail), next: Next::Continue }
    } else if cmd[0] == "QUIT"@ {
        Outcome { mail, output: Reply::Bye.bytes(), next: Next::Close }
    } else if cmd[0] == "STARTTLS"@ {
        Outcome {
            mail: starttls::after(mail),
            output: starttls::reply(mail).bytes(),
            next: if mail.has_tls {
                Next::Continue
            } else {
                Next::StartTls
            },
        }
    } else {
        Outcome { mail, output: Reply::NotImplemented.bytes(), next: Next::Continue }
    }
}

/// Whether `line` ends the message body: a single dot, whatever
/// whitespace follows it.
pub open spec fn ends_body(line: Seq<char>) -> bool {
    trim_end(line) == "."@
}

/// The effect of a line in data mode: the line that ends the body is
/// answered with `250`; any other line is added to the body, carriage
/// return and line feed as one line feed, and nothing is sent.
pub open spec fn body_line(mail: MailView, line: Seq<char>) -> Outcome {
    if ends_body(line) {
        Outcome {
            mail: MailView { sending_data: false, ..mail },
            output: Reply::MessageAccepted.bytes(),
            next: Next::Continue,
        }
    } else {
        Outcome {
            mail: MailView { data: mail.data + crlf_to_lf(line), ..mail },
            output: Seq::empty(),
            next: Next::Continue,
        }
    }
}

/// The effect of one line on a session.
pub open spec fn step(
    mail: MailView,
    policy: SMTPPortConfiguration,
    config: ConfigurationView,
    line: Seq<char>,
) -> Outcome {
    if mail.sending_data {
        body_line(mail, line)
    } else {
        command(mail, policy, config, words(line))
    }
}

/// Handles one line that the client sent, line ending included.
pub fn handle_line(
    mail: &mut Mail,
    config: &SMTPPortConfiguration,
    service_config: &Configuration,
    line: &str,
) -> (answer: Step)
    ensures
        final(mail)@ == step(old(mail)@, *config, service_config@, line@).mail,
        answer.output@ == step(old(mail)@, *config, service_config@, line@).output,
        answer.next == step(old(mail)@, *config, service_config@, line@).next,
{
    let mut output: Vec<u8> = Vec::new();
    let mut next = Next::Continue;
    if mail.sending_data {
        if trimmed_equals(line, ".") {
            mail.sending_data = false;
            Reply::MessageAccepted.send(&mut output);
        } else {
            append_normalised(&mut mail.data, line);
        }
    } else {
        let cmd = split_words(line);
        if cmd.len() == 0 {
        } else if str_equals(cmd[0].as_str(), "EHLO") {
            ehlo::handle(mail, config, &mut output);
        } else if str_equals(cmd[0].as_str(), "AUTH") {
            auth::handle(mail, service_config, &mut output, cmd);
        } else if str_equals(cmd[0].as_str(), "MAIL") {
            mail::handle(mail, &mut output, cmd);
        } else if str_equals(cmd[0].as_str(), "RCPT") {
            rcpt::handle(mail, &mut output, cmd);
        } else if str_equals(cmd[0].as_str(), "DATA") {
            data::handle(mail, &mut output);
        } else if str_equals(cmd[0].as_str(), "QUIT") {
            quit::handle(&mut output);
            next = Next::Close;
        } else if str_equals(cmd[0].as_str(), "STARTTLS") {
            if starttls::handle(mail, &mut output) {
                next = Next::StartTls;
            }
        } else {
            Reply::NotImplemented.send(&mut output);
        }
    }
    Step { output, next }
}

/// Whether the stream may be upgraded to TLS now: only if nothing that the
/// client sent after `STARTTLS` waits to be read. A client that sends on
/// before the handshake breaks the protocol, and the connection is closed.
pub fn may_upgrade(buffered: usize) -> (allowed: bool)
    ensures
        allowed == (buffered == 0),
{
    buffered == 0
}

/// Ends a session, after the last line or after `QUIT`: the mail gets its
/// identifier, and nothing else changes.
pub fn close(mail: &mut Mail)
    ensures
        final(mail)@ == (MailView { id: final(mail)@.id, ..old(mail)@ }),
        is_message_id(final(mail)@.id),
{
    mail.id = new_message_id();
}

/// What a dialogue comes to: the record, and all that the server sent.
pub struct Dialogue {
    pub mail: MailView,
    pub output: Seq<u8>,
}

/// The dialogue that `lines` make, from the record `mail` on. It ends with
/// the last line or at `QUIT`, whichever comes first; a TLS handshake, where
/// one is called for, is taken to succeed.
pub open spec fn dialogue(
    mail: MailView,
    policy: SMTPPortConfiguration,
    config: ConfigurationView,
    lines: Seq<Seq<char>>,
) -> Dialogue
    decreases lines.len(),
{
    if lines.len() == 0 {
        Dialogue { mail, output: Seq::empty() }
    } else {
        let first = step(mail, policy, config, lines[0]);
        if first.next == Next::Close {
            Dialogue { mail: first.mail, output: first.output }
        } else {
            let rest = dialogue(first.mail, policy, config, lines.skip(1));
            Dialogue { mail: rest.mail, output: first.output + rest.output }
        }
    }
}

/// The seven verbs are seven different words.
pub proof fn lemma_verbs_differ()
    ensures
        "EHLO"@ != "AUTH"@ && "EHLO"@ != "MAIL"@ && "EHLO"@ != "RCPT"@ && "EHLO"@ != "DATA"@
            && "EHLO"@ != "QUIT"@ && "EHLO"@ != "STARTTLS"@,
        "AUTH"@ != "MAIL"@ && "AUTH"@ != "RCPT"@ && "AUTH"@ != "DATA"@ && "AUTH"@ != "QUIT"@
            && "AUTH"@ != "STARTTLS"@,
        "MAIL"@ != "RCPT"@ && "MAIL"@ != "DATA"@ && "MAIL"@ != "QUIT"@ && "MAIL"@ != "STARTTLS"@,
        "RCPT"@ != "DATA"@ && "RCPT"@ != "QUIT"@ && "RCPT"@ != "STARTTLS"@,
        "DATA"@ != "QUIT"@ && "DATA"@ != "STARTTLS"@,
        "QUIT"@ != "STARTTLS"@,
{
    reveal_strlit("EHLO");
    reveal_strlit("AUTH");
    reveal_strlit("MAIL");
    reveal_strlit("RCPT");
    reveal_strlit("DATA");
    reveal_strlit("QUIT");
    reveal_strlit("STARTTLS");
    assert("EHLO"@[0] == 'E');
    assert("AUTH"@[0] == 'A');
    assert("MAIL"@[0] == 'M');
    assert("RCPT"@[0] == 'R');
    assert("DATA"@[0] == 'D');
    assert("QUIT"@[0] == 'Q');
    assert("STARTTLS"@.len() == 8);
}

/// `QUIT` is answered with `221 Bye`, leaves the record as it is and
/// closes the connection; no line after it is looked at.
pub proof fn lemma_quit_closes(
    mail: MailView,
    policy: SMTPPortConfiguration,
    config: ConfigurationView,
    line: Seq<char>,
    later: Seq<Seq<char>>,
)
    requires
        !mail.sending_data,
        words(line).len() > 0,
        words(line)[0] == "QUIT"@,
    ensures
        step(mail, policy, config, line) == (Outcome {
            mail,
            output: Reply::Bye.bytes(),
            next: Next::Close,
        }),
        dialogue(mail, policy, config, seq![line] + later) == (Dialogue {
            mail,
            output: Reply::Bye.bytes(),
        }),
{
    lemma_verbs_differ();
    assert((seq![line] + later)[0] == line);
}

/// `STARTTLS` leaves the connection protected, and calls for the
/// handshake exactly where it was not protected before.
pub proof fn lemma_starttls_protects(
    mail: MailView,
    policy: SMTPPortConfiguration,
    config: ConfigurationView,
    line: Seq<char>,
)
    requires
        !mail.sending_data,
        words(line).len() > 0,
        words(line)[0] == "STARTTLS"@,
    ensures
        step(mail, policy, config, line).mail == (MailView { has_tls: true, ..mail }),
        step(mail, policy, config, line).next == Next::StartTls <==> !mail.has_tls,
{
    lemma_verbs_differ();
}

/// No line takes the protection away again.
pub proof fn lemma_tls_is_kept(
    mail: MailView,
    policy: SMTPPortConfiguration,
    config: ConfigurationView,
    line: Seq<char>,
)
    requires
        mail.has_tls,
    ensures
        step(mail, policy, config, line).mail.has_tls,
{
}

/// A dialogue on a protected connection ends on a protected connection.
pub proof fn lemma_tls_is_kept_throughout(
    mail: MailView,
    policy: SMTPPortConfiguration,
    config: ConfigurationView,
    lines: Seq<Seq<char>>,
)
    requires
        mail.has_tls,
    ensures
        dialogue(mail, policy, config, lines).mail.has_tls,
    decreases lines.len(),
{
    if lines.len() > 0 {
        let first = step(mail, policy, config, lines[0]);
        lemma_tls_is_kept(mail, policy, config, lines[0]);
        if first.next != Next::Close {
            lemma_tls_is_kept_throughout(first.mail, policy, config, lines.skip(1));
        }
    }
}

/// What `EHLO` answers: the record stays as it is, and the text sent holds
/// `STARTTLS` exactly as long as the connection is not protected, and
/// `AUTH PLAIN` exactly once it is, on a port that lets clients
/// authenticate.
pub proof fn lemma_ehlo_offers(
    mail: MailView,
    policy: SMTPPortConfiguration,
    config: ConfigurationView,
    line: Seq<char>,
)
    requires
        !mail.sending_data,
        words(line).len() > 0,
        words(line)[0] == "EHLO"@,
    ensures
        ({
            let text = ehlo::capability_text(
                ehlo::extensions(mail.has_tls, policy.auth_enabled),
            );
            &&& step(mail, policy, config, line).mail == mail
            &&& step(mail, policy, config, line).output == encode_utf8(text)
            &&& occurs_in("STARTTLS"@, text) <==> !mail.has_tls
            &&& occurs_in("AUTH PLAIN"@, text) <==> policy.auth_enabled && mail.has_tls
        }),
{
    ehlo::lemma_starttls_sent(mail.has_tls, policy.auth_enabled);
    ehlo::lemma_auth_sent(mail.has_tls, policy.auth_enabled);
}

/// `EHLO` after `STARTTLS` does not offer `STARTTLS` again, whatever the
/// connection was before and whatever lines came in between.
pub proof fn lemma_ehlo_after_starttls(
    mail: MailView,
    policy: SMTPPortConfiguration,
    config: ConfigurationView,
    upgrade: Seq<char>,
    between: Seq<Seq<char>>,
    hello: Seq<char>,
)
    requires
        !mail.sending_data,
        words(upgrade).len() > 0,
        words(upgrade)[0] == "STARTTLS"@,
        !dialogue(
            step(mail, policy, config, upgrade).mail,
            policy,
            config,
            between,
        ).mail.sending_data,
        words(hello).len() > 0,
        words(hello)[0] == "EHLO"@,
    ensures
        ({
            let protected = dialogue(
                step(mail, policy, config, upgrade).mail,
                policy,
                config,
                between,
            ).mail;
            let text = ehlo::capability_text(ehlo::extensions(true, policy.auth_enabled));
            &&& step(protected, policy, config, hello).output == encode_utf8(text)
            &&& !occurs_in("STARTTLS"@, text)
        }),
{
    let upgraded = step(mail, policy, config, upgrade).mail;
    lemma_starttls_protects(mail, policy, config, upgrade);
    lemma_tls_is_kept_throughout(upgraded, policy, config, between);
    lemma_ehlo_offers(dialogue(upgraded, policy, config, between).mail, policy, config, hello);
}

/// The lines of a body, one after the other, each with carriage return and
/// line feed as one line feed.
pub open spec fn body_of(lines: Seq<Seq<char>>) -> Seq<char>
    decreases lines.len(),
{
    if lines.len() == 0 {
        Seq::empty()
    } else {
        crlf_to_lf(lines[0]) + body_of(lines.skip(1))
    }
}

/// A line as the client meant it: without the dot that a client puts in
/// front of a line that begins with a dot.
pub open spec fn dot_unstuffed(line: Seq<char>) -> Seq<char> {
    if line.len() > 0 && line[0] == '.' {
        line.skip(1)
    } else {
        line
    }
}

/// The lines of a body as the client meant them, one after the other.
pub open spec fn transmitted(lines: Seq<Seq<char>>) -> Seq<char>
    decreases lines.len(),
{
    if lines.len() == 0 {
        Seq::empty()
    } else {
        dot_unstuffed(lines[0]) + transmitted(lines.skip(1))
    }
}

/// In data mode, the lines up to the one that ends the body are added to
/// the body in their order and nothing else changes; the line that ends
/// the body is answered with `250 Message accepted`.
pub proof fn lemma_body_is_kept(
    mail: MailView,
    policy: SMTPPortConfiguration,
    config: ConfigurationView,
    lines: Seq<Seq<char>>,
    end: Seq<char>,
)
    requires
        mail.sending_data,
        forall|i: int| 0 <= i < lines.len() ==> !ends_body(#[trigger] lines[i]),
        ends_body(end),
    ensures
        dialogue(mail, policy, config, lines.push(end)) == (Dialogue {
            mail: MailView { data: mail.data + body_of(lines), sending_data: false, ..mail },
            output: Reply::MessageAccepted.bytes(),
        }),
    decreases lines.len(),
{
    let all = lines.push(end);
    let first = step(mail, policy, config, all[0]);
    let rest = dialogue(first.mail, policy, config, all.skip(1));
    assert(dialogue(mail, policy, config, all) == (Dialogue {
        mail: rest.mail,
        output: first.output + rest.output,
    }));
    if lines.len() == 0 {
        assert(all[0] == end);
        assert(all.skip(1) =~= Seq::<Seq<char>>::empty());
        assert(rest == (Dialogue { mail: first.mail, output: Seq::empty() }));
        assert(mail.data + body_of(lines) =~= mail.data);
        assert(first.output + rest.output =~= Reply::MessageAccepted.bytes());
    } else {
        assert(all[0] == lines[0]);
        assert(!ends_body(lines[0]));
        assert(all.skip(1) =~= lines.skip(1).push(end));
        assert forall|i: int| 0 <= i < lines.skip(1).len() implies !ends_body(
            #[trigger] lines.skip(1)[i],
        ) by {
            assert(lines.skip(1)[i] == lines[i + 1]);
        }
        lemma_body_is_kept(first.mail, policy, config, lines.skip(1), end);
        assert(mail.data + crlf_to_lf(lines[0]) + body_of(lines.skip(1)) =~= mail.data + body_of(
            lines,
        ));
        assert(first.output + rest.output =~= Reply::MessageAccepted.bytes());
    }
}

/// Lines without a carriage return, line feed pair and without a dot in
/// front make a body that is what the client sent, character for
/// character.
pub proof fn lemma_body_round_trip(
    mail: MailView,
    policy: SMTPPortConfiguration,
    config: ConfigurationView,
    lines: Seq<Seq<char>>,
    end: Seq<char>,
)
    requires
        mail.sending_data,
        forall|i: int| 0 <= i < lines.len() ==> !ends_body(#[trigger] lines[i]),
        forall|i: int| 0 <= i < lines.len() ==> !has_crlf(#[trigger] lines[i]),
        forall|i: int| 0 <= i < lines.len() ==> !seq!['.'].is_prefix_of(#[trigger] lines[i]),
        ends_body(end),
    ensures
        dialogue(mail, policy, config, lines.push(end)).mail.data == mail.data + transmitted(
            lines,
        ),
{
    lemma_body_is_kept(mail, policy, config, lines, end);
    lemma_plain_body(lines);
}

/// For lines as in `lemma_body_round_trip`, the body kept is the body
/// sent.
proof fn lemma_plain_body(lines: Seq<Seq<char>>)
    requires
        forall|i: int| 0 <= i < lines.len() ==> !has_crlf(#[trigger] lines[i]),
        forall|i: int| 0 <= i < lines.len() ==> !seq!['.'].is_prefix_of(#[trigger] lines[i]),
    ensures
        body_of(lines) == transmitted(lines),
    decreases lines.len(),
{
    if lines.len() > 0 {
        let line = lines[0];
        lemma_crlf_free(line);
        if line.len() > 0 && line[0] == '.' {
            assert(seq!['.'] =~= line.subrange(0, 1));
            assert(seq!['.'].is_prefix_of(lines[0]));
        }
        assert forall|i: int| 0 <= i < lines.skip(1).len() implies !has_crlf(
            #[trigger] lines.skip(1)[i],
        ) by {
            assert(!has_crlf(lines[i + 1]));
        }
        assert forall|i: int| 0 <= i < lines.skip(1).len() implies !seq!['.'].is_prefix_of(
            #[trigger] lines.skip(1)[i],
        ) by {
            assert(!seq!['.'].is_prefix_of(lines[i + 1]));
        }
        lemma_plain_body(lines.skip(1));
    }
}

/// Runs a whole session on the lines that a client sent: greets, answers
/// line by line until the lines end or the client quits, and gives the
/// mail its identifier. The result is the mail and every byte sent.
pub fn handle_smtp(
    lines: &Vec<String>,
    config: SMTPPortConfiguration,
    service_config: &Configuration,
) -> (session: (Mail, Vec<u8>))
    ensures
        ({
            let whole = dialogue(MailView::fresh(), config, service_config@, lines.deep_view());
            &&& session.0@ == MailView { id: session.0@.id, ..whole.mail }
            &&& is_message_id(session.0@.id)
            &&& session.1@ == Reply::ServerReady.bytes() + whole.output
        }),
{
    let ghost all = lines.deep_view();
    let ghost whole = dialogue(MailView::fresh(), config, service_config@, all);
    let mut output: Vec<u8> = Vec::new();
    Reply::ServerReady.send(&mut output);
    let mut mail = Mail::new();
    let mut i: usize = 0;
    let mut open = true;
    assert(all.skip(0) =~= all);
    assert(output@ + whole.output =~= Reply::ServerReady.bytes() + whole.output);
    while open && i < lines.len()
        invariant
            i <= lines.len(),
            all == lines.deep_view(),
            whole == dialogue(MailView::fresh(), config, service_config@, all),
            open ==> dialogue(mail@, config, service_config@, all.skip(i as int)).mail
                == whole.mail,
            open ==> output@ + dialogue(mail@, config, service_config@, all.skip(i as int)).output
                == Reply::ServerReady.bytes() + whole.output,
            !open ==> mail@ == whole.mail,
            !open ==> output@ == Reply::ServerReady.bytes() + whole.output,
        decreases lines.len() - i,
    {
        let ghost before = output@;
        let ghost rest = all.skip(i as int);
        let ghost first = step(mail@, config, service_config@, rest[0]);
        assert(rest[0] == lines@[i as int]@);
        assert(rest.skip(1) =~= all.skip(i + 1));
        let mut answer = handle_line(&mut mail, &config, service_config, lines[i].as_str());
        output.append(&mut answer.output);
        if answer.next == Next::Close {
            open = false;
        } else {
            assert(before + first.output + dialogue(
                first.mail,
                config,
                service_config@,
                rest.skip(1),
            ).output =~= before + (first.output + dialogue(
                first.mail,
                config,
                service_config@,
                rest.skip(1),
            ).output));
        }
        i += 1;
    }
    proof {
        if open {
            assert(all.skip(i as int) =~= Seq::<Seq<char>>::empty());
            assert(output@ + Seq::<u8>::empty() =~= output@);
        }
    }
    close(&mut mail);
    (mail, output)
}

} // verus!
