//! The service configuration and the account resolver: which addresses an
//! account owns, and which account an address belongs to.

use crate::text::str_equals;
use vstd::prelude::*;
use vstd::string::*;

verus! {

/// A mailbox owner. Its primary address is `user@domain`; `aliases` are
/// further fully-qualified addresses that it owns.
#[derive(Clone, Debug)]
pub struct Account {
    pub domain: String,
    pub user: String,
    pub aliases: Option<Vec<String>>,
    /// The password hash in yescrypt's `$y$` format, if the account may log in.
    pub hashed_password: Option<String>,
}

/// What the server serves: its names, its domains and its accounts.
#[derive(Clone, Debug)]
pub struct Configuration {
    pub enable_smtp: Option<bool>,
    pub enable_imap: Option<bool>,
    pub enable_pop3: Option<bool>,
    pub enable_filtering: Option<bool>,
    pub fqdn: String,
    pub sending_fqdn: String,
    pub domains: Vec<String>,
    pub accounts: Vec<Account>,
}

/// An account as plain text.
pub struct AccountView {
    pub domain: Seq<char>,
    pub user: Seq<char>,
    pub aliases: Seq<Seq<char>>,
    pub hashed_password: Option<Seq<char>>,
}

/// A configuration as plain text.
pub struct ConfigurationView {
    pub fqdn: Seq<char>,
    pub sending_fqdn: Seq<char>,
    pub domains: Seq<Seq<char>>,
    pub accounts: Seq<AccountView>,
}

impl AccountView {
    /// `user@domain`.
    pub open spec fn primary(self) -> Seq<char> {
        self.user + seq!['@'] + self.domain
    }

    /// Every address of the account: the aliases, then the primary address.
    pub open spec fn addresses(self) -> Seq<Seq<char>> {
        self.aliases.push(self.primary())
    }

    /// Whether `address` is one of the account's, compared character by
    /// character.
    pub open spec fn owns(self, address: Seq<char>) -> bool {
        self.addresses().contains(address)
    }

    /// Whether some address belongs to this account and to `other`.
    pub open spec fn overlaps(self, other: AccountView) -> bool {
        exists|address: Seq<char>| self.owns(address) && other.owns(address)
    }
}

impl ConfigurationView {
    /// Whether the account at index `i` is the first that owns `address`.
    pub open spec fn first_owner(self, address: Seq<char>, i: int) -> bool {
        &&& 0 <= i < self.accounts.len()
        &&& self.accounts[i].owns(address)
        &&& forall|j: int| 0 <= j < i ==> !(#[trigger] self.accounts[j]).owns(address)
    }

    /// The first account that owns `address`, if any does.
    pub open spec fn resolve(self, address: Seq<char>) -> Option<AccountView> {
        if exists|i: int| self.first_owner(address, i) {
            Some(self.accounts[choose|i: int| self.first_owner(address, i)])
        } else {
            None
        }
    }

    /// Whether `address` belongs to some account.
    pub open spec fn is_local(self, address: Seq<char>) -> bool {
        self.resolve(address) is Some
    }

    /// No address belongs to two accounts.
    pub open spec fn unambiguous(self) -> bool {
        forall|i: int, j: int, address: Seq<char>|
            0 <= i < self.accounts.len() && 0 <= j < self.accounts.len() && i != j && (
            #[trigger] self.accounts[i].owns(address)) ==> !(#[trigger] self.accounts[j].owns(
                address,
            ))
    }
}

impl View for Account {
    type V = AccountView;

    open spec fn view(&self) -> AccountView {
        AccountView {
            domain: self.domain@,
            user: self.user@,
            aliases: match self.aliases {
                Some(aliases) => aliases.deep_view(),
                None => Seq::empty(),
            },
            hashed_password: match self.hashed_password {
                Some(hash) => Some(hash@),
                None => None,
            },
        }
    }
}

impl View for Configuration {
    type V = ConfigurationView;

    open spec fn view(&self) -> ConfigurationView {
        ConfigurationView {
            fqdn: self.fqdn@,
            sending_fqdn: self.sending_fqdn@,
            domains: self.domains.deep_view(),
            accounts: Seq::new(self.accounts@.len(), |i: int| self.accounts@[i]@),
        }
    }
}

/// An account that owns `address` at index `i`, with none before it, is
/// what `address` resolves to.
pub proof fn lemma_resolve_first(config: ConfigurationView, address: Seq<char>, i: int)
    requires
        config.first_owner(address, i),
    ensures
        config.resolve(address) == Some(config.accounts[i]),
{
    let c = choose|c: int| config.first_owner(address, c);
    assert(config.first_owner(address, c));
    if c < i {
        assert(!config.accounts[c].owns(address));
    } else if i < c {
        assert(!config.accounts[i].owns(address));
    }
}

/// An address that resolves to an account is owned by it, and the account
/// is one of the configuration's.
pub proof fn lemma_resolve_owner(config: ConfigurationView, address: Seq<char>)
    requires
        config.resolve(address) is Some,
    ensures
        config.resolve(address)->0.owns(address),
        config.accounts.contains(config.resolve(address)->0),
{
    let c = choose|c: int| config.first_owner(address, c);
    assert(config.first_owner(address, c));
}

/// An address that no account owns resolves to none, and the converse.
pub proof fn lemma_resolve_none(config: ConfigurationView, address: Seq<char>)
    ensures
        config.resolve(address) is None <==> forall|i: int|
            0 <= i < config.accounts.len() ==> !(#[trigger] config.accounts[i]).owns(address),
{
    if exists|i: int| 0 <= i < config.accounts.len() && config.accounts[i].owns(address) {
        let i = lemma_first_owner_exists(config, address);
    } else {
        assert forall|i: int| !config.first_owner(address, i) by {}
    }
}

/// Where some account owns `address`, one of them is the first.
proof fn lemma_first_owner_exists(config: ConfigurationView, address: Seq<char>) -> (first: int)
    requires
        exists|i: int| 0 <= i < config.accounts.len() && config.accounts[i].owns(address),
    ensures
        config.first_owner(address, first),
{
    let some = choose|i: int| 0 <= i < config.accounts.len() && config.accounts[i].owns(address);
    lemma_first_owner_upto(config, address, some)
}

/// Among the accounts up to index `k`, which owns `address`, one is the
/// first to own it.
proof fn lemma_first_owner_upto(config: ConfigurationView, address: Seq<char>, k: int) -> (first:
    int)
    requires
        0 <= k < config.accounts.len(),
        config.accounts[k].owns(address),
    ensures
        config.first_owner(address, first),
        first <= k,
    decreases k,
{
    if exists|j: int| 0 <= j < k && config.accounts[j].owns(address) {
        let j = choose|j: int| 0 <= j < k && config.accounts[j].owns(address);
        lemma_first_owner_upto(config, address, j)
    } else {
        k
    }
}

/// In a configuration where no address belongs to two accounts, an address
/// resolves to an account exactly if that account is one of the
/// configuration's and owns the address; and then no other account does.
pub proof fn lemma_resolver_exact(
    config: ConfigurationView,
    address: Seq<char>,
    account: AccountView,
)
    requires
        config.unambiguous(),
    ensures
        config.resolve(address) == Some(account) <==> config.accounts.contains(account)
            && account.owns(address),
        forall|i: int, j: int|
            0 <= i < config.accounts.len() && 0 <= j < config.accounts.len() && (
            #[trigger] config.accounts[i]).owns(address) && (#[trigger] config.accounts[j]).owns(
                address,
            ) ==> i == j,
{
    if config.resolve(address) == Some(account) {
        lemma_resolve_owner(config, address);
    }
    if config.accounts.contains(account) && account.owns(address) {
        let i = choose|i: int| 0 <= i < config.accounts.len() && config.accounts[i] == account;
        assert forall|j: int| 0 <= j < i implies !(#[trigger] config.accounts[j]).owns(
            address,
        ) by {
            assert(config.accounts[i].owns(address));
        }
        lemma_resolve_first(config, address, i);
    }
    assert forall|i: int, j: int|
        0 <= i < config.accounts.len() && 0 <= j < config.accounts.len() && (
        #[trigger] config.accounts[i]).owns(address) && (#[trigger] config.accounts[j]).owns(
            address,
        ) implies i == j by {
        if i != j {
            assert(config.accounts[i].owns(address));
            assert(!config.accounts[j].owns(address));
        }
    }
}

impl Account {
    /// The account's primary address, `user@domain`.
    pub fn get_primary_address(&self) -> (address: String)
        ensures
            address@ == self@.primary(),
    {
        let mut address = String::from_str(self.user.as_str());
        proof {
            reveal_strlit("@");
            assert("@"@ =~= seq!['@']);
        }
        address.append("@");
        address.append(self.domain.as_str());
        address
    }

    /// Every address of the account: the aliases in their order, then the
    /// primary address.
    pub fn get_all_addresses(self) -> (addresses: Vec<String>)
        ensures
            addresses.deep_view() == self@.addresses(),
    {
        let primary = self.get_primary_address();
        let mut addresses: Vec<String> = match self.aliases {
            Some(aliases) => aliases,
            None => Vec::new(),
        };
        let ghost before = addresses.deep_view();
        assert(before =~= self@.aliases);
        addresses.push(primary);
        assert(addresses.deep_view() =~= before.push(primary@));
        addresses
    }

    /// Whether `address` is the primary address or an alias of the account.
    pub fn owns(&self, address: &str) -> (found: bool)
        ensures
            found == self@.owns(address@),
    {
        let ghost all = self@.addresses();
        if let Some(aliases) = &self.aliases {
            let mut i: usize = 0;
            while i < aliases.len()
                invariant
                    i <= aliases.len(),
                    all == self@.addresses(),
                    aliases.deep_view() == self@.aliases,
                    forall|k: int| 0 <= k < i ==> self@.aliases[k] != address@,
                decreases aliases.len() - i,
            {
                if str_equals(aliases[i].as_str(), address) {
                    assert(aliases.deep_view()[i as int] == aliases@[i as int]@);
                    assert(all[i as int] == address@);
                    return true;
                }
                assert(aliases.deep_view()[i as int] == aliases@[i as int]@);
                i += 1;
            }
        }
        let primary = self.get_primary_address();
        let found = str_equals(primary.as_str(), address);
        proof {
            if found {
                assert(all[all.len() - 1] == address@);
            } else {
                assert forall|k: int| 0 <= k < all.len() implies all[k] != address@ by {}
            }
        }
        found
    }

    /// Whether this account and `other` have an address in common.
    pub fn overlaps(&self, other: &Account) -> (shared: bool)
        ensures
            shared == self@.overlaps(other@),
    {
        let ghost all = self@.addresses();
        if let Some(aliases) = &self.aliases {
            let mut i: usize = 0;
            while i < aliases.len()
                invariant
                    i <= aliases.len(),
                    all == self@.addresses(),
                    aliases.deep_view() == self@.aliases,
                    forall|k: int| 0 <= k < i ==> !other@.owns(#[trigger] all[k]),
                decreases aliases.len() - i,
            {
                assert(aliases.deep_view()[i as int] == aliases@[i as int]@);
                if other.owns(aliases[i].as_str()) {
                    assert(self@.owns(all[i as int]));
                    return true;
                }
                i += 1;
            }
        }
        let primary = self.get_primary_address();
        let shared = other.owns(primary.as_str());
        proof {
            assert(all[all.len() - 1] == primary@);
            if shared {
                assert(self@.owns(primary@));
            } else {
                assert forall|address: Seq<char>| self@.owns(address) implies !other@.owns(
                    address,
                ) by {
                    let k = choose|k: int| 0 <= k < all.len() && all[k] == address;
                    assert(!other@.owns(all[k]));
                }
            }
        }
        shared
    }
}

impl Configuration {
    /// The accounts, in the order in which they were declared.
    pub fn get_accounts(self) -> (accounts: Vec<Account>)
        ensures
            accounts == self.accounts,
    {
        self.accounts
    }

    /// Whether no address belongs to two accounts, as the resolver takes
    /// for granted.
    pub fn is_unambiguous(&self) -> (ok: bool)
        ensures
            ok == self@.unambiguous(),
    {
        let n = self.accounts.len();
        let mut i: usize = 0;
        while i < n
            invariant
                i <= n,
                n == self.accounts.len(),
                forall|a: int, b: int|
                    0 <= a < i && a < b < n ==> !(#[trigger] self@.accounts[a]).overlaps(
                        #[trigger] self@.accounts[b],
                    ),
            decreases n - i,
        {
            let mut j: usize = i + 1;
            while j < n
                invariant
                    i < j <= n,
                    n == self.accounts.len(),
                    forall|b: int|
                        i < b < j ==> !self@.accounts[i as int].overlaps(
                            #[trigger] self@.accounts[b],
                        ),
                decreases n - j,
            {
                assert(self@.accounts[i as int] == self.accounts@[i as int]@);
                assert(self@.accounts[j as int] == self.accounts@[j as int]@);
                if self.accounts[i].overlaps(&self.accounts[j]) {
                    proof {
                        let address = choose|address: Seq<char>|
                            self@.accounts[i as int].owns(address) && self@.accounts[j as int].owns(
                                address,
                            );
                        assert(self@.accounts[i as int].owns(address));
                        assert(self@.accounts[j as int].owns(address));
                    }
                    return false;
                }
                j += 1;
            }
            i += 1;
        }
        proof {
            assert forall|a: int, b: int, address: Seq<char>|
                0 <= a < n && 0 <= b < n && a != b && (#[trigger] self@.accounts[a].owns(
                    address,
                )) implies !(#[trigger] self@.accounts[b].owns(address)) by {
                if self@.accounts[b].owns(address) {
                    if a < b {
                        assert(self@.accounts[a].overlaps(self@.accounts[b]));
                    } else {
                        assert(self@.accounts[b].overlaps(self@.accounts[a]));
                    }
                }
            }
        }
        true
    }

    /// The account that `address` belongs to: the first one in declaration
    /// order that has it as its primary address or as an alias.
    pub fn get_user_from_alias(&self, address: &str) -> (found: Option<&Account>)
        ensures
            match found {
                Some(account) => {
                    &&& self@.resolve(address@) == Some(account@)
                    &&& self.accounts@.contains(*account)
                },
                None => self@.resolve(address@) is None,
            },
    {
        let mut i: usize = 0;
        while i < self.accounts.len()
            invariant
                i <= self.accounts.len(),
                forall|j: int| 0 <= j < i ==> !(#[trigger] self@.accounts[j]).owns(address@),
            decreases self.accounts.len() - i,
        {
            if self.accounts[i].owns(address) {
                proof {
                    assert(self@.accounts[i as int] == self.accounts@[i as int]@);
                    lemma_resolve_first(self@, address@, i as int);
                }
                return Some(&self.accounts[i]);
            }
            assert(self@.accounts[i as int] == self.accounts@[i as int]@);
            i += 1;
        }
        proof {
            lemma_resolve_none(self@, address@);
        }
        None
    }
}

} // verus!
