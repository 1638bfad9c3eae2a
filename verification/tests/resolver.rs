use eemail::config::{Account, Configuration};

fn account(user: &str, domain: &str, aliases: Option<Vec<&str>>) -> Account {
    Account {
        domain: domain.to_string(),
        user: user.to_string(),
        aliases: aliases.map(|all| all.into_iter().map(|alias| alias.to_string()).collect()),
        hashed_password: None,
    }
}

fn config_with(accounts: Vec<Account>) -> Configuration {
    Configuration {
        enable_smtp: Some(true),
        enable_imap: None,
        enable_pop3: Some(false),
        enable_filtering: None,
        fqdn: "mail.example.com".to_string(),
        sending_fqdn: "example.com".to_string(),
        domains: vec!["example.com".to_string(), "example.net".to_string()],
        accounts,
    }
}

fn config() -> Configuration {
    config_with(vec![
        account("example", "example.com", Some(vec!["hi@example.com", "example@example.net"])),
        account("test", "example.com", None),
    ])
}

#[test]
fn config_parses_accounts() {
    let config = config();
    assert_eq!(config.get_accounts().len(), 2);
}

#[test]
fn config_parses_all_account_addresses() {
    let config = config();
    assert_eq!(config.clone().get_accounts().len(), 2);

    assert_eq!(
        config.get_accounts()[0].clone().get_all_addresses(),
        ["hi@example.com", "example@example.net", "example@example.com"]
    )
}

#[test]
fn accounts_come_back_in_declaration_order() {
    let accounts = config().get_accounts();
    assert_eq!(accounts[0].user, "example");
    assert_eq!(accounts[1].user, "test");
}

#[test]
fn primary_address_is_user_at_domain() {
    let accounts = config().get_accounts();
    assert_eq!(accounts[0].get_primary_address(), "example@example.com");
    assert_eq!(accounts[1].get_primary_address(), "test@example.com");
}

#[test]
fn account_without_aliases_has_only_its_primary_address() {
    let all = account("test", "example.com", None).get_all_addresses();
    assert_eq!(all, ["test@example.com"]);
    let none = account("test", "example.com", Some(vec![])).get_all_addresses();
    assert_eq!(none, ["test@example.com"]);
}

#[test]
fn account_owns_its_primary_address_and_its_aliases() {
    let owner = account("example", "example.com", Some(vec!["hi@example.com"]));
    assert!(owner.owns("example@example.com"));
    assert!(owner.owns("hi@example.com"));
    assert!(!owner.owns("test@example.com"));
    assert!(!owner.owns("example"));
    assert!(!owner.owns(""));
}

#[test]
fn addresses_are_compared_case_sensitively() {
    let owner = account("example", "example.com", Some(vec!["hi@example.com"]));
    assert!(!owner.owns("Example@example.com"));
    assert!(!owner.owns("HI@example.com"));
    assert!(config().get_user_from_alias("HI@EXAMPLE.COM").is_none());
}

#[test]
fn every_address_resolves_to_its_account() {
    let config = config();
    for address in ["hi@example.com", "example@example.net", "example@example.com"] {
        let found = config.get_user_from_alias(address).unwrap();
        assert_eq!(found.user, "example");
        assert!(found.clone().get_all_addresses().contains(&address.to_string()));
    }
    assert_eq!(config.get_user_from_alias("test@example.com").unwrap().user, "test");
}

#[test]
fn address_of_no_account_resolves_to_none() {
    let config = config();
    assert!(config.get_user_from_alias("nobody@example.com").is_none());
    assert!(config.get_user_from_alias("test@example.net").is_none());
    assert!(config.get_user_from_alias("").is_none());
    assert!(config_with(vec![]).get_user_from_alias("example@example.com").is_none());
}

#[test]
fn resolved_account_is_the_only_owner() {
    let config = config();
    let accounts = config.clone().get_accounts();
    for address in ["hi@example.com", "example@example.net", "example@example.com", "test@example.com"] {
        let owners = accounts.iter().filter(|account| account.owns(address)).count();
        assert_eq!(owners, 1);
        let found = config.get_user_from_alias(address).unwrap();
        assert!(found.owns(address));
    }
}

#[test]
fn first_declared_account_wins_where_an_address_is_shared() {
    let config = config_with(vec![
        account("first", "example.com", Some(vec!["shared@example.com"])),
        account("shared", "example.com", None),
    ]);
    assert_eq!(config.get_user_from_alias("shared@example.com").unwrap().user, "first");
}

#[test]
fn accounts_overlap_where_they_share_an_address() {
    let one = account("example", "example.com", Some(vec!["hi@example.com", "shared@example.com"]));
    let two = account("test", "example.com", Some(vec!["shared@example.com"]));
    let three = account("hi", "example.com", None);
    let four = account("other", "example.com", Some(vec!["else@example.com"]));
    assert!(one.overlaps(&two));
    assert!(two.overlaps(&one));
    assert!(one.overlaps(&three));
    assert!(three.overlaps(&one));
    assert!(one.overlaps(&one));
    assert!(!one.overlaps(&four));
    assert!(!two.overlaps(&three));
    assert!(!three.overlaps(&four));
}

#[test]
fn configuration_is_unambiguous_where_no_address_is_shared() {
    assert!(config().is_unambiguous());
    assert!(config_with(vec![]).is_unambiguous());
    assert!(config_with(vec![account("test", "example.com", None)]).is_unambiguous());
}

#[test]
fn configuration_is_ambiguous_where_an_address_is_shared() {
    let alias_of_both = config_with(vec![
        account("one", "example.com", Some(vec!["shared@example.com"])),
        account("two", "example.com", None),
        account("three", "example.com", Some(vec!["x@example.com", "shared@example.com"])),
    ]);
    assert!(!alias_of_both.is_unambiguous());
    let alias_is_a_primary = config_with(vec![
        account("one", "example.com", None),
        account("two", "example.com", Some(vec!["one@example.com"])),
    ]);
    assert!(!alias_is_a_primary.is_unambiguous());
    let declared_twice = config_with(vec![
        account("one", "example.com", None),
        account("two", "example.com", None),
        account("one", "example.com", None),
    ]);
    assert!(!declared_twice.is_unambiguous());
}
