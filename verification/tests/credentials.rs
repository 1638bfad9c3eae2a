use base64::Engine;
use eemail::commands::auth;
use eemail::config::{Account, Configuration};
use eemail::credentials::{
    check_message, check_password, check_payload, is_affordable, sasl_plain, Verdict,
};
use eemail::mail::Mail;
use eemail::reply::Reply;
use yescrypt::{Mode, Params, PasswordHasher, Yescrypt};

fn hash_of(password: &str) -> String {
    let params = Params::new(Mode::default(), 16, 8, 1).unwrap();
    Yescrypt::from(params).hash_password(password.as_bytes()).unwrap().to_string()
}

fn account(user: &str, aliases: &[&str], hashed_password: Option<String>) -> Account {
    Account {
        domain: "example.com".to_string(),
        user: user.to_string(),
        aliases: Some(aliases.iter().map(|alias| alias.to_string()).collect()),
        hashed_password,
    }
}

fn config() -> Configuration {
    Configuration {
        enable_smtp: Some(true),
        enable_imap: None,
        enable_pop3: None,
        enable_filtering: None,
        fqdn: "mail.example.com".to_string(),
        sending_fqdn: "example.com".to_string(),
        domains: vec!["example.com".to_string()],
        accounts: vec![
            account("example", &["hi@example.com"], Some(hash_of("pw"))),
            account("guest", &[], None),
            account("broken", &[], Some("not a hash".to_string())),
            account("other", &[], Some("$6$rounds=5000$salt$digest".to_string())),
        ],
    }
}

fn encode(message: &[u8]) -> String {
    base64::prelude::BASE64_STANDARD.encode(message)
}

fn auth_plain(config: &Configuration, payload: &str) -> (Mail, Vec<u8>) {
    let mut session = Mail::new();
    let mut buffer = Vec::new();
    let cmd = vec!["AUTH".to_string(), "PLAIN".to_string(), payload.to_string()];
    auth::handle(&mut session, config, &mut buffer, cmd);
    (session, buffer)
}

#[test]
fn sasl_plain_takes_three_fields_apart() {
    assert_eq!(
        sasl_plain(b"\0example@example.com\0pw"),
        Some((&b"example@example.com"[..], &b"pw"[..]))
    );
    assert_eq!(sasl_plain(b"admin\0user\0secret"), Some((&b"user"[..], &b"secret"[..])));
    assert_eq!(sasl_plain(b"\0\0"), Some((&b""[..], &b""[..])));
}

#[test]
fn sasl_plain_wants_exactly_three_fields() {
    assert_eq!(sasl_plain(b""), None);
    assert_eq!(sasl_plain(b"user"), None);
    assert_eq!(sasl_plain(b"user\0pw"), None);
    assert_eq!(sasl_plain(b"\0user\0pw\0"), None);
    assert_eq!(sasl_plain(b"\0\0\0\0"), None);
}

#[test]
fn verdicts_give_one_reply_for_every_failure() {
    assert_eq!(Verdict::Accepted.to_reply(), Reply::AuthenticationSuccessful);
    for verdict in [
        Verdict::Malformed,
        Verdict::UnknownUser,
        Verdict::NoPassword,
        Verdict::UnusableHash,
        Verdict::WrongPassword,
    ] {
        assert_eq!(verdict.to_reply(), Reply::AuthenticationFailed);
    }
}

#[test]
fn working_memory_is_held_against_the_largest_vector() {
    // 128 * 4096 * 32 + 128 * 32 + 256 * 32 + 12288 bytes: 16 MiB and a little.
    assert!(is_affordable(4096, 32, 1));
    assert!(is_affordable(2, 1, 1));
    assert!(!is_affordable(1 << 53, 8, 1));
    assert!(!is_affordable(u64::MAX, u32::MAX, u32::MAX));
    let most = (isize::MAX as u128 - 128 - 256 - 12288) / 128;
    assert!(is_affordable(most as u64, 1, 1));
    assert!(!is_affordable(most as u64 + 1, 1, 1));
}

#[test]
fn check_password_accepts_the_password_that_was_hashed() {
    let hash = hash_of("pw");
    assert!(hash.starts_with("$y$"));
    assert_eq!(check_password(&hash, b"pw"), Verdict::Accepted);
}

#[test]
fn check_password_refuses_any_other_password() {
    let hash = hash_of("pw");
    assert_eq!(check_password(&hash, b"pW"), Verdict::WrongPassword);
    assert_eq!(check_password(&hash, b""), Verdict::WrongPassword);
    assert_eq!(check_password(&hash, b"pw "), Verdict::WrongPassword);
}

#[test]
fn check_password_cannot_use_what_is_no_yescrypt_hash() {
    assert_eq!(check_password("", b"pw"), Verdict::UnusableHash);
    assert_eq!(check_password("pw", b"pw"), Verdict::UnusableHash);
    assert_eq!(check_password("not a hash", b"pw"), Verdict::UnusableHash);
    assert_eq!(check_password("$y", b"pw"), Verdict::UnusableHash);
    assert_eq!(check_password("$y$", b"pw"), Verdict::UnusableHash);
}

#[test]
fn check_password_refuses_a_hash_of_another_scheme() {
    let verdict = check_password("$6$rounds=5000$salt$digest", b"pw");
    assert_ne!(verdict, Verdict::Accepted);
}

#[test]
fn check_password_does_not_run_a_hash_that_asks_for_too_much_memory() {
    let hash = hash_of("pw");
    let fields: Vec<&str> = hash.split('$').collect();
    assert_eq!(fields.len(), 5);
    let huge = Params::new(Mode::default(), 1 << 53, 8, 1).unwrap();
    let forged = format!("$y${}${}${}", huge, fields[3], fields[4]);
    assert_eq!(check_password(&forged, b"pw"), Verdict::UnusableHash);
}

#[test]
fn check_message_names_each_way_to_fail() {
    let config = config();
    assert_eq!(check_message(&config, b"\0example@example.com\0pw"), Verdict::Accepted);
    assert_eq!(check_message(&config, b"\0hi@example.com\0pw"), Verdict::Accepted);
    assert_eq!(check_message(&config, b"someone\0example@example.com\0pw"), Verdict::Accepted);
    assert_eq!(check_message(&config, b"example@example.com\0pw"), Verdict::Malformed);
    assert_eq!(check_message(&config, b"\0example@example.com\0pw\0"), Verdict::Malformed);
    assert_eq!(check_message(&config, b"\0nobody@example.com\0pw"), Verdict::UnknownUser);
    assert_eq!(check_message(&config, b"\0example\0pw"), Verdict::UnknownUser);
    assert_eq!(check_message(&config, b"\0guest@example.com\0pw"), Verdict::NoPassword);
    assert_eq!(check_message(&config, b"\0broken@example.com\0pw"), Verdict::UnusableHash);
    assert_eq!(check_message(&config, b"\0example@example.com\0wrong"), Verdict::WrongPassword);
}

#[test]
fn check_message_reads_the_user_name_as_lossy_utf8() {
    let mut config = config();
    config.accounts.push(account("caf\u{FFFD}", &[], Some(hash_of("pw"))));
    config.accounts.push(account("caf\u{E9}", &[], Some(hash_of("pw"))));
    // 0xE9 alone is no UTF-8: it reads as U+FFFD.
    let found = check_message(&config, b"\0caf\xE9@example.com\0pw");
    assert_eq!(found, Verdict::Accepted);
    assert_eq!(check_message(&config, "\0caf\u{E9}@example.com\0pw".as_bytes()), Verdict::Accepted);
    config.accounts.remove(4);
    assert_eq!(check_message(&config, b"\0caf\xE9@example.com\0pw"), Verdict::UnknownUser);
}

#[test]
fn check_payload_decodes_standard_base64() {
    let config = config();
    let payload = encode(b"\0example@example.com\0pw");
    assert_eq!(payload, "AGV4YW1wbGVAZXhhbXBsZS5jb20AcHc=");
    assert_eq!(check_payload(&config, &payload), Verdict::Accepted);
    assert_eq!(check_payload(&config, "AGV4YW1wbGVAZXhhbXBsZS5jb20AcHc"), Verdict::Malformed);
    assert_eq!(check_payload(&config, "\0example@example.com\0pw"), Verdict::Malformed);
    assert_eq!(check_payload(&config, ""), Verdict::Malformed);
}

#[test]
fn sasl_plain_success() {
    let (session, buffer) = auth_plain(&config(), &encode(b"\0example@example.com\0pw"));
    assert_eq!(buffer, b"235 Authentication Successfull\r\n".to_vec());
    assert!(session.has_authed);
}

#[test]
fn sasl_plain_success_by_alias() {
    let (session, buffer) = auth_plain(&config(), &encode(b"\0hi@example.com\0pw"));
    assert_eq!(buffer, b"235 Authentication Successfull\r\n".to_vec());
    assert!(session.has_authed);
}

#[test]
fn sasl_plain_failure_modes_all_return_535() {
    let config = config();
    let failures: [&[u8]; 6] = [
        b"\0nobody@example.com\0pw",
        b"\0guest@example.com\0pw",
        b"\0example@example.com\0wrong",
        b"\0broken@example.com\0pw",
        b"\0other@example.com\0pw",
        b"example@example.com\0pw",
    ];
    for message in failures {
        let (session, buffer) = auth_plain(&config, &encode(message));
        assert_eq!(buffer, b"535 Authentication failed\r\n".to_vec());
        assert!(!session.has_authed);
    }
}

#[test]
fn second_auth_after_success_is_out_of_order() {
    let config = config();
    let (mut session, _) = auth_plain(&config, &encode(b"\0example@example.com\0pw"));
    let mut buffer = Vec::new();
    let cmd = vec!["AUTH".to_string(), "PLAIN".to_string(), encode(b"\0example@example.com\0pw")];
    auth::handle(&mut session, &config, &mut buffer, cmd);
    assert_eq!(buffer, b"503 Authentication already completed or already in mail\r\n".to_vec());
    assert!(session.has_authed);
}

#[test]
fn check_password_accepts_a_hash_of_the_recommended_cost() {
    let hash = Yescrypt::default().hash_password(b"pw").unwrap().to_string();
    assert!(hash.starts_with("$y$j9T$"));
    assert_eq!(check_password(&hash, b"pw"), Verdict::Accepted);
    assert_eq!(check_password(&hash, b"pw2"), Verdict::WrongPassword);
}
