use eemail::config::{Account, Configuration};
use eemail::delivery::plan_delivery;
use eemail::mail::Mail;
use eemail::server::handle_smtp;
use eemail::shared::SMTPPortConfiguration;

fn config() -> Configuration {
    Configuration {
        enable_smtp: Some(true),
        enable_imap: None,
        enable_pop3: None,
        enable_filtering: None,
        fqdn: "mail.example.com".to_string(),
        sending_fqdn: "example.com".to_string(),
        domains: vec!["example.com".to_string(), "example.net".to_string()],
        accounts: vec![
            Account {
                domain: "example.com".to_string(),
                user: "example".to_string(),
                aliases: Some(vec!["hi@example.com".to_string(), "example@example.net".to_string()]),
                hashed_password: None,
            },
            Account {
                domain: "example.com".to_string(),
                user: "test".to_string(),
                aliases: None,
                hashed_password: None,
            },
        ],
    }
}

fn mail(from: &str, to: &[&str]) -> Mail {
    let mut mail = Mail::new();
    mail.id = "01890a5d-ac96-774b-bcce-b302099a8057".to_string();
    mail.from = from.to_string();
    mail.to = to.iter().map(|recipient| recipient.to_string()).collect();
    mail.data = "Subject: x\n\nHi\n".to_string();
    mail
}

fn files(mail: &Mail, auth_enabled: bool) -> Vec<String> {
    plan_delivery(mail, &config(), auth_enabled, "/mail").into_iter().map(|entry| entry.file).collect()
}

#[test]
fn local_recipient_gets_a_copy_in_the_inbox_of_the_primary_address() {
    let plan = plan_delivery(&mail("a@ext.example", &["hi@example.com"]), &config(), false, "/mail");
    assert_eq!(plan.len(), 1);
    assert_eq!(plan[0].directory, "/mail/example@example.com/Inbox");
    assert_eq!(
        plan[0].file,
        "/mail/example@example.com/Inbox/01890a5d-ac96-774b-bcce-b302099a8057.eml"
    );
    assert_eq!(plan[0].data, "Subject: x\n\nHi\n");
}

#[test]
fn recipients_of_no_account_are_dropped() {
    let message = mail("a@ext.example", &["b@ext.example", "test@example.com", "test@example.net"]);
    assert_eq!(
        files(&message, false),
        ["/mail/test@example.com/Inbox/01890a5d-ac96-774b-bcce-b302099a8057.eml"]
    );
    assert!(files(&mail("a@ext.example", &["b@ext.example"]), true).is_empty());
    assert!(files(&mail("a@ext.example", &[]), true).is_empty());
}

#[test]
fn sender_gets_a_copy_in_sent_on_a_port_with_auth() {
    let message = mail("hi@example.com", &["test@example.com"]);
    let plan = plan_delivery(&message, &config(), true, "/mail");
    assert_eq!(plan.len(), 2);
    assert_eq!(plan[0].directory, "/mail/example@example.com/Sent");
    assert_eq!(
        plan[0].file,
        "/mail/example@example.com/Sent/01890a5d-ac96-774b-bcce-b302099a8057.eml"
    );
    assert_eq!(plan[0].data, "Subject: x\n\nHi\n");
    assert_eq!(plan[1].directory, "/mail/test@example.com/Inbox");
}

#[test]
fn sender_gets_no_copy_on_a_port_without_auth() {
    let message = mail("hi@example.com", &["test@example.com"]);
    assert_eq!(
        files(&message, false),
        ["/mail/test@example.com/Inbox/01890a5d-ac96-774b-bcce-b302099a8057.eml"]
    );
}

#[test]
fn foreign_sender_gets_no_copy() {
    let message = mail("a@ext.example", &["test@example.com"]);
    assert_eq!(files(&message, true).len(), 1);
    assert_eq!(files(&mail("", &["test@example.com"]), true).len(), 1);
}

#[test]
fn copies_follow_the_order_of_the_recipients() {
    let message = mail("a@ext.example", &["test@example.com", "x@y", "example@example.net"]);
    assert_eq!(
        files(&message, false),
        [
            "/mail/test@example.com/Inbox/01890a5d-ac96-774b-bcce-b302099a8057.eml",
            "/mail/example@example.com/Inbox/01890a5d-ac96-774b-bcce-b302099a8057.eml",
        ]
    );
}

#[test]
fn alias_delivery_dedup() {
    let config = config();
    let dialogue: Vec<String> = [
        "MAIL FROM:<a@ext.example>\r\n",
        "RCPT TO:<hi@example.com>\r\n",
        "RCPT TO:<example@example.com>\r\n",
        "DATA\r\n",
        "Hi\r\n",
        ".\r\n",
        "QUIT\r\n",
    ]
    .iter()
    .map(|line| line.to_string())
    .collect();
    let (mail, _) = handle_smtp(&dialogue, SMTPPortConfiguration::transfer(), &config);
    assert_eq!(mail.to, ["hi@example.com", "example@example.com"]);
    let plan = plan_delivery(&mail, &config, false, "/mail");
    let mut written = std::collections::BTreeMap::new();
    for entry in &plan {
        written.insert(entry.file.clone(), entry.data.clone());
    }
    let expected = format!("/mail/example@example.com/Inbox/{}.eml", mail.id);
    assert_eq!(written.len(), 1);
    assert_eq!(written.get(&expected), Some(&"Hi\n".to_string()));
    for entry in &plan {
        assert_eq!(entry.directory, "/mail/example@example.com/Inbox");
    }
}

#[test]
fn two_aliases_of_one_account_share_one_file() {
    let message = mail("a@ext.example", &["hi@example.com", "example@example.net"]);
    let all = files(&message, false);
    assert_eq!(all.len(), 2);
    assert_eq!(all[0], all[1]);
    assert_eq!(all[0], "/mail/example@example.com/Inbox/01890a5d-ac96-774b-bcce-b302099a8057.eml");
}

#[test]
fn root_is_used_as_it_is_given() {
    let message = mail("a@ext.example", &["test@example.com"]);
    let plan = plan_delivery(&message, &config(), false, "");
    assert_eq!(plan[0].directory, "/test@example.com/Inbox");
    let plan = plan_delivery(&message, &config(), false, "relative/dir/");
    assert_eq!(plan[0].directory, "relative/dir//test@example.com/Inbox");
}
