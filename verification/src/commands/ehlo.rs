//! `EHLO`: the server says what it can do on this connection.

use crate::mail::Mail;
use crate::shared::SMTPPortConfiguration;
use crate::text::{
    lemma_cannot_occur, lemma_joined_lacks, lemma_occurs_behind, lemma_occurs_between, occurs_in,
};
use vstd::prelude::*;
use vstd::string::*;
use vstd::utf8::*;

verus! {

/// The extensions on offer: `STARTTLS` as long as the connection is not
/// protected, `AUTH PLAIN` once it is, on a port that lets clients
/// authenticate.
pub open spec fn extensions(has_tls: bool, auth_enabled: bool) -> Seq<Seq<char>> {
    let always = seq!["Localhost"@, "PIPELINING"@, "Size 10485760"@];
    let tls = if !has_tls {
        always.push("STARTTLS"@)
    } else {
        always
    };
    if auth_enabled && has_tls {
        tls.push("AUTH PLAIN"@)
    } else {
        tls
    }
}

/// One line for each extension: `250`, a hyphen, or a space on the last
/// line, then the extension, carriage return and line feed.
pub open spec fn capability_text(extensions: Seq<Seq<char>>) -> Seq<char>
    decreases extensions.len(),
{
    if extensions.len() == 0 {
        Seq::empty()
    } else {
        let mark = if extensions.len() == 1 {
            ' '
        } else {
            '-'
        };
        "250"@ + seq![mark] + extensions[0] + seq!['\r', '\n'] + capability_text(
            extensions.skip(1),
        )
    }
}

/// Every extension on offer stands in the text that is sent.
pub proof fn lemma_offer_is_sent(extensions: Seq<Seq<char>>, i: int)
    requires
        0 <= i < extensions.len(),
    ensures
        occurs_in(extensions[i], capability_text(extensions)),
    decreases extensions.len(),
{
    let mark = if extensions.len() == 1 {
        ' '
    } else {
        '-'
    };
    let head = "250"@ + seq![mark];
    let rest = capability_text(extensions.skip(1));
    if i == 0 {
        lemma_occurs_between(extensions[0], head, seq!['\r', '\n'] + rest);
        assert(head + extensions[0] + (seq!['\r', '\n'] + rest) =~= capability_text(extensions));
    } else {
        lemma_offer_is_sent(extensions.skip(1), i - 1);
        lemma_occurs_behind(extensions[i], head + extensions[0] + seq!['\r', '\n'], rest);
    }
}

/// A character that is in no extension, and is none of the characters
/// that frame the lines, is not in the text that is sent.
proof fn lemma_text_lacks(extensions: Seq<Seq<char>>, c: char)
    requires
        forall|i: int| 0 <= i < extensions.len() ==> !(#[trigger] extensions[i]).contains(c),
        c != '2' && c != '5' && c != '0' && c != ' ' && c != '-' && c != '\r' && c != '\n',
    ensures
        !capability_text(extensions).contains(c),
    decreases extensions.len(),
{
    if extensions.len() > 0 {
        let mark = if extensions.len() == 1 {
            ' '
        } else {
            '-'
        };
        reveal_strlit("250");
        assert(!"250"@.contains(c));
        assert(!seq![mark].contains(c));
        assert(!seq!['\r', '\n'].contains(c));
        assert(!extensions[0].contains(c));
        assert forall|i: int| 0 <= i < extensions.skip(1).len() implies !(
        #[trigger] extensions.skip(1)[i]).contains(c) by {
            assert(extensions.skip(1)[i] == extensions[i + 1]);
        }
        lemma_text_lacks(extensions.skip(1), c);
        lemma_joined_lacks("250"@, seq![mark], c);
        lemma_joined_lacks("250"@ + seq![mark], extensions[0], c);
        lemma_joined_lacks("250"@ + seq![mark] + extensions[0], seq!['\r', '\n'], c);
        lemma_joined_lacks(
            "250"@ + seq![mark] + extensions[0] + seq!['\r', '\n'],
            capability_text(extensions.skip(1)),
            c,
        );
    }
}

/// A text of at most thirteen characters, none of which is `c`, lacks `c`.
proof fn lemma_short_text_lacks(s: Seq<char>, c: char)
    requires
        s.len() <= 13,
        s.len() > 0 ==> s[0] != c,
        s.len() > 1 ==> s[1] != c,
        s.len() > 2 ==> s[2] != c,
        s.len() > 3 ==> s[3] != c,
        s.len() > 4 ==> s[4] != c,
        s.len() > 5 ==> s[5] != c,
        s.len() > 6 ==> s[6] != c,
        s.len() > 7 ==> s[7] != c,
        s.len() > 8 ==> s[8] != c,
        s.len() > 9 ==> s[9] != c,
        s.len() > 10 ==> s[10] != c,
        s.len() > 11 ==> s[11] != c,
        s.len() > 12 ==> s[12] != c,
    ensures
        !s.contains(c),
{
}

/// The text that `EHLO` sends holds `STARTTLS` exactly as long as the
/// connection is not protected.
pub proof fn lemma_starttls_sent(has_tls: bool, auth_enabled: bool)
    ensures
        occurs_in("STARTTLS"@, capability_text(extensions(has_tls, auth_enabled))) <==> !has_tls,
{
    let offered = extensions(has_tls, auth_enabled);
    if !has_tls {
        assert(offered[3] == "STARTTLS"@);
        lemma_offer_is_sent(offered, 3);
    } else {
        reveal_strlit("Localhost");
        reveal_strlit("PIPELINING");
        reveal_strlit("Size 10485760");
        reveal_strlit("AUTH PLAIN");
        reveal_strlit("STARTTLS");
        lemma_short_text_lacks("Localhost"@, 'R');
        lemma_short_text_lacks("PIPELINING"@, 'R');
        lemma_short_text_lacks("Size 10485760"@, 'R');
        lemma_short_text_lacks("AUTH PLAIN"@, 'R');
        lemma_text_lacks(offered, 'R');
        assert("STARTTLS"@[3] == 'R');
        lemma_cannot_occur("STARTTLS"@, capability_text(offered), 3);
    }
}

/// The text that `EHLO` sends holds `AUTH PLAIN` exactly on a protected
/// connection of a port that lets clients authenticate.
pub proof fn lemma_auth_sent(has_tls: bool, auth_enabled: bool)
    ensures
        occurs_in("AUTH PLAIN"@, capability_text(extensions(has_tls, auth_enabled)))
            <==> auth_enabled && has_tls,
{
    let offered = extensions(has_tls, auth_enabled);
    if auth_enabled && has_tls {
        assert(offered[3] == "AUTH PLAIN"@);
        lemma_offer_is_sent(offered, 3);
    } else {
        reveal_strlit("Localhost");
        reveal_strlit("PIPELINING");
        reveal_strlit("Size 10485760");
        reveal_strlit("STARTTLS");
        reveal_strlit("AUTH PLAIN");
        lemma_short_text_lacks("Localhost"@, 'U');
        lemma_short_text_lacks("PIPELINING"@, 'U');
        lemma_short_text_lacks("Size 10485760"@, 'U');
        lemma_short_text_lacks("STARTTLS"@, 'U');
        lemma_text_lacks(offered, 'U');
        assert("AUTH PLAIN"@[1] == 'U');
        lemma_cannot_occur("AUTH PLAIN"@, capability_text(offered), 1);
    }
}

/// What `EHLO` sends.
pub open spec fn response(has_tls: bool, auth_enabled: bool) -> Seq<u8> {
    encode_utf8(capability_text(extensions(has_tls, auth_enabled)))
}

/// The views of the strings in `names`.
pub open spec fn texts(names: Seq<&'static str>) -> Seq<Seq<char>> {
    Seq::new(names.len(), |i: int| names[i]@)
}

/// Answers `EHLO` with the extensions on offer on this connection.
pub fn handle(mail: &Mail, config: &SMTPPortConfiguration, buffer: &mut Vec<u8>)
    ensures
        final(buffer)@ == old(buffer)@ + response(mail@.has_tls, config.auth_enabled),
{
    let mut names: Vec<&'static str> = Vec::new();
    names.push("Localhost");
    names.push("PIPELINING");
    names.push("Size 10485760");
    if !mail.has_tls {
        names.push("STARTTLS");
    }
    if config.auth_enabled && mail.has_tls {
        names.push("AUTH PLAIN");
    }
    let ghost all = extensions(mail@.has_tls, config.auth_enabled);
    assert(texts(names@) =~= all);
    proof {
        reveal_strlit(" ");
        reveal_strlit("-");
        reveal_strlit("\r\n");
        assert(" "@ =~= seq![' ']);
        assert("-"@ =~= seq!['-']);
        assert("\r\n"@ =~= seq!['\r', '\n']);
    }
    let mut text = String::new();
    let mut i: usize = 0;
    assert(all.skip(0) =~= all);
    assert(text@ + capability_text(all) =~= capability_text(all));
    while i < names.len()
        invariant
            i <= names.len(),
            texts(names@) == all,
            " "@ == seq![' '],
            "-"@ == seq!['-'],
            "\r\n"@ == seq!['\r', '\n'],
            text@ + capability_text(all.skip(i as int)) == capability_text(all),
        decreases names.len() - i,
    {
        let ghost before = text@;
        let ghost rest = all.skip(i as int);
        assert(rest[0] == names@[i as int]@);
        assert(rest.skip(1) =~= all.skip(i + 1));
        text.append("250");
        if i + 1 == names.len() {
            text.append(" ");
        } else {
            text.append("-");
        }
        text.append(names[i]);
        text.append("\r\n");
        i += 1;
        assert(text@ + capability_text(all.skip(i as int)) =~= before + capability_text(rest));
    }
    assert(capability_text(all.skip(i as int)) =~= Seq::<char>::empty());
    assert(text@ + Seq::<char>::empty() =~= text@);
    let mut bytes = text.as_str().as_bytes_vec();
    buffer.append(&mut bytes);
}

} // verus!
