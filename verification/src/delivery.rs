//! Local delivery: which files an accepted mail is written to.
//!
//! Nothing is written here. [`plan_delivery`] says which directories must
//! exist and which files get the message; whoever owns the file system
//! carries the plan out, entry by entry.

use crate::config::{Configuration, ConfigurationView};
use crate::mail::{Mail, MailView};
use vstd::prelude::*;
use vstd::string::*;

verus! {

/// One file to write: `directory` is created first, with its parents,
/// unless it exists; then `data` becomes the content of `file`.
#[derive(Clone, Debug)]
pub struct Delivery {
    pub directory: String,
    pub file: String,
    pub data: String,
}

/// A `Delivery` as plain text.
pub struct DeliveryView {
    pub directory: Seq<char>,
    pub file: Seq<char>,
    pub data: Seq<char>,
}

impl View for Delivery {
    type V = DeliveryView;

    open spec fn view(&self) -> DeliveryView {
        DeliveryView { directory: self.directory@, file: self.file@, data: self.data@ }
    }
}

/// The views of the entries of a plan.
pub open spec fn views(plan: Seq<Delivery>) -> Seq<DeliveryView> {
    Seq::new(plan.len(), |i: int| plan[i]@)
}

/// The directory of a folder of a mailbox: `root/address/folder`.
pub open spec fn folder_path(root: Seq<char>, address: Seq<char>, folder: Seq<char>) -> Seq<char> {
    root + "/"@ + address + "/"@ + folder
}

/// The file of a message in a folder: `directory/id.eml`.
pub open spec fn file_path(directory: Seq<char>, id: Seq<char>) -> Seq<char> {
    directory + "/"@ + id + ".eml"@
}

/// The copy of `mail` in a folder of the mailbox of `address`.
pub open spec fn copy(
    root: Seq<char>,
    address: Seq<char>,
    folder: Seq<char>,
    mail: MailView,
) -> DeliveryView {
    DeliveryView {
        directory: folder_path(root, address, folder),
        file: file_path(folder_path(root, address, folder), mail.id),
        data: mail.data,
    }
}

/// The recipients that belong to an account, in their order and as often
/// as they were named.
pub open spec fn local_recipients(config: ConfigurationView, to: Seq<Seq<char>>) -> Seq<
    Seq<char>,
> {
    to.filter(|recipient: Seq<char>| config.is_local(recipient))
}

/// The copy in the `Inbox` of the account that owns `recipient`, under the
/// account's primary address.
pub open spec fn inbox_copy(
    config: ConfigurationView,
    root: Seq<char>,
    mail: MailView,
    recipient: Seq<char>,
) -> DeliveryView {
    copy(root, config.resolve(recipient)->0.primary(), "Inbox"@, mail)
}

/// One copy for each local recipient. Recipients of no account get none.
pub open spec fn inbox_copies(config: ConfigurationView, root: Seq<char>, mail: MailView) -> Seq<
    DeliveryView,
> {
    local_recipients(config, mail.to).map_values(
        |recipient: Seq<char>| inbox_copy(config, root, mail, recipient),
    )
}

/// The copy in the sender's `Sent` folder: made where the sender belongs
/// to an account and the mail came in on a port that lets clients
/// authenticate.
pub open spec fn sent_copies(
    config: ConfigurationView,
    auth_enabled: bool,
    root: Seq<char>,
    mail: MailView,
) -> Seq<DeliveryView> {
    if auth_enabled && config.is_local(mail.from) {
        seq![copy(root, config.resolve(mail.from)->0.primary(), "Sent"@, mail)]
    } else {
        Seq::empty()
    }
}

/// Every file that `mail` is written to, in the order of writing: the
/// sender's copy, then the recipients' copies.
pub open spec fn deliveries(
    config: ConfigurationView,
    auth_enabled: bool,
    root: Seq<char>,
    mail: MailView,
) -> Seq<DeliveryView> {
    sent_copies(config, auth_enabled, root, mail) + inbox_copies(config, root, mail)
}

/// The files that exist once a plan is carried out, each with its content:
/// a later entry for the same file overwrites the earlier one.
pub open spec fn written(plan: Seq<DeliveryView>) -> Map<Seq<char>, Seq<char>>
    decreases plan.len(),
{
    if plan.len() == 0 {
        Map::empty()
    } else {
        written(plan.drop_last()).insert(plan.last().file, plan.last().data)
    }
}

/// Two recipients of one account get the same copy.
pub proof fn lemma_same_account_same_copy(
    config: ConfigurationView,
    root: Seq<char>,
    mail: MailView,
    a: Seq<char>,
    b: Seq<char>,
)
    requires
        config.resolve(a) == config.resolve(b),
    ensures
        inbox_copy(config, root, mail, a) == inbox_copy(config, root, mail, b),
{
}

/// A mail to two addresses of one account leaves one file: the one under
/// the account's primary address, with the mail's body.
pub proof fn lemma_two_aliases_one_file(
    config: ConfigurationView,
    root: Seq<char>,
    mail: MailView,
    a: Seq<char>,
    b: Seq<char>,
)
    requires
        mail.to == seq![a, b],
        config.resolve(a) is Some,
        config.resolve(a) == config.resolve(b),
    ensures
        ({
            let primary = config.resolve(a)->0.primary();
            let file = file_path(folder_path(root, primary, "Inbox"@), mail.id);
            &&& written(inbox_copies(config, root, mail)).dom() == set![file]
            &&& written(inbox_copies(config, root, mail))[file] == mail.data
        }),
{
    let local = |recipient: Seq<char>| config.is_local(recipient);
    let to = mail.to;
    reveal_with_fuel(Seq::filter, 3);
    assert(to.drop_last() =~= seq![a]);
    assert(to.drop_last().drop_last() =~= Seq::<Seq<char>>::empty());
    assert(to.filter(local) =~= seq![a, b]);
    let copies = inbox_copies(config, root, mail);
    let one = inbox_copy(config, root, mail, a);
    assert(copies =~= seq![one, one]);
    reveal_with_fuel(written, 3);
    assert(copies.drop_last() =~= seq![one]);
    assert(copies.drop_last().drop_last() =~= Seq::<DeliveryView>::empty());
    assert(written(copies).dom() =~= set![one.file]);
}

/// Every file of a plan gets the mail's body, as the session kept it.
pub proof fn lemma_every_copy_holds_the_body(
    config: ConfigurationView,
    auth_enabled: bool,
    root: Seq<char>,
    mail: MailView,
    i: int,
)
    requires
        0 <= i < deliveries(config, auth_enabled, root, mail).len(),
    ensures
        deliveries(config, auth_enabled, root, mail)[i].data == mail.data,
{
}

/// The files that exist once a plan is carried out are the files that its
/// entries name; where all entries hold the same data, each file holds it.
pub proof fn lemma_written_files(plan: Seq<DeliveryView>, data: Seq<char>)
    requires
        forall|i: int| 0 <= i < plan.len() ==> (#[trigger] plan[i]).data == data,
    ensures
        forall|file: Seq<char>|
            written(plan).dom().contains(file) <==> exists|i: int|
                0 <= i < plan.len() && (#[trigger] plan[i]).file == file,
        forall|file: Seq<char>| #[trigger]
            written(plan).dom().contains(file) ==> written(plan)[file] == data,
    decreases plan.len(),
{
    if plan.len() > 0 {
        let earlier = plan.drop_last();
        let last = plan.last();
        lemma_written_files(earlier, data);
        assert(written(plan) == written(earlier).insert(last.file, last.data));
        assert forall|file: Seq<char>|
            written(plan).dom().contains(file) <==> exists|i: int|
                0 <= i < plan.len() && (#[trigger] plan[i]).file == file by {
            let before = written(earlier).dom().contains(file);
            assert(written(plan).dom().contains(file) <==> file == last.file || before);
            if before {
                let i = choose|i: int|
                    0 <= i < earlier.len() && (#[trigger] earlier[i]).file == file;
                assert(plan[i].file == file);
            }
            if file == last.file {
                assert(plan[plan.len() - 1].file == file);
            }
            if exists|i: int| 0 <= i < plan.len() && (#[trigger] plan[i]).file == file {
                let i = choose|i: int| 0 <= i < plan.len() && (#[trigger] plan[i]).file == file;
                if i < earlier.len() {
                    assert(earlier[i].file == file);
                }
            }
        }
        assert forall|file: Seq<char>| #[trigger]
            written(plan).dom().contains(file) implies written(plan)[file] == data by {
            if file != last.file {
                assert(written(earlier).dom().contains(file));
            }
        }
    }
}

/// Each account that owns a recipient gets one file, under its primary
/// address and with the mail's body, however many of its addresses the
/// mail names and however often; no other file is written to an `Inbox`.
pub proof fn lemma_one_file_per_owner(config: ConfigurationView, root: Seq<char>, mail: MailView)
    ensures
        forall|file: Seq<char>|
            written(inbox_copies(config, root, mail)).dom().contains(file) <==> exists|
                recipient: Seq<char>,
            |
                mail.to.contains(recipient) && config.is_local(recipient) && file == (
                #[trigger] inbox_copy(config, root, mail, recipient)).file,
        forall|file: Seq<char>| #[trigger]
            written(inbox_copies(config, root, mail)).dom().contains(file) ==> written(
                inbox_copies(config, root, mail),
            )[file] == mail.data,
{
    let local = |recipient: Seq<char>| config.is_local(recipient);
    let locals = mail.to.filter(local);
    let copies = inbox_copies(config, root, mail);
    lemma_written_files(copies, mail.data);
    assert forall|file: Seq<char>|
        written(copies).dom().contains(file) <==> exists|recipient: Seq<char>|
            mail.to.contains(recipient) && config.is_local(recipient) && file == (
            #[trigger] inbox_copy(config, root, mail, recipient)).file by {
        if written(copies).dom().contains(file) {
            let i = choose|i: int| 0 <= i < copies.len() && (#[trigger] copies[i]).file == file;
            mail.to.lemma_filter_pred(local, i);
            mail.to.lemma_filter_contains_rev(local, locals[i]);
            assert(copies[i] == inbox_copy(config, root, mail, locals[i]));
        }
        if exists|recipient: Seq<char>|
            mail.to.contains(recipient) && config.is_local(recipient) && file == (
            #[trigger] inbox_copy(config, root, mail, recipient)).file {
            let recipient = choose|recipient: Seq<char>|
                mail.to.contains(recipient) && config.is_local(recipient) && file == (
                #[trigger] inbox_copy(config, root, mail, recipient)).file;
            let k = choose|k: int| 0 <= k < mail.to.len() && mail.to[k] == recipient;
            mail.to.lemma_filter_contains(local, k);
            let i = choose|i: int| 0 <= i < locals.len() && locals[i] == recipient;
            assert(copies[i].file == file);
        }
    }
}

/// `root/address/folder`.
fn folder_of(root: &str, address: &str, folder: &'static str) -> (directory: String)
    ensures
        directory@ == folder_path(root@, address@, folder@),
{
    let mut directory = String::from_str(root);
    directory.append("/");
    directory.append(address);
    directory.append("/");
    directory.append(folder);
    directory
}

/// The copy of `mail` in a folder of the mailbox of `address`.
fn copy_into(root: &str, address: &str, folder: &'static str, mail: &Mail) -> (delivery: Delivery)
    ensures
        delivery@ == copy(root@, address@, folder@, mail@),
{
    let directory = folder_of(root, address, folder);
    let mut file = directory.clone();
    file.append("/");
    file.append(mail.id.as_str());
    file.append(".eml");
    Delivery { directory, file, data: mail.data.clone() }
}

/// Plans the delivery of `mail`, which came in on a port with the given
/// `auth_enabled`, into the mailboxes below `email_path`.
pub fn plan_delivery(
    mail: &Mail,
    service_config: &Configuration,
    auth_enabled: bool,
    email_path: &str,
) -> (plan: Vec<Delivery>)
    ensures
        views(plan@) == deliveries(service_config@, auth_enabled, email_path@, mail@),
{
    let ghost config = service_config@;
    let ghost local = |recipient: Seq<char>| config.is_local(recipient);
    let ghost make = |recipient: Seq<char>| inbox_copy(config, email_path@, mail@, recipient);
    let mut plan: Vec<Delivery> = Vec::new();
    if auth_enabled {
        if let Some(sender) = service_config.get_user_from_alias(mail.from.as_str()) {
            let primary = sender.get_primary_address();
            plan.push(copy_into(email_path, primary.as_str(), "Sent", mail));
        }
    }
    let ghost sent = views(plan@);
    assert(sent =~= sent_copies(config, auth_enabled, email_path@, mail@));
    let mut i: usize = 0;
    assert(mail@.to.take(0) =~= Seq::<Seq<char>>::empty());
    assert(views(plan@) =~= sent + mail@.to.take(0).filter(local).map_values(make)) by {
        reveal(Seq::filter);
    }
    while i < mail.to.len()
        invariant
            i <= mail.to.len(),
            config == service_config@,
            local == |recipient: Seq<char>| config.is_local(recipient),
            make == |recipient: Seq<char>| inbox_copy(config, email_path@, mail@, recipient),
            views(plan@) == sent + mail@.to.take(i as int).filter(local).map_values(make),
        decreases mail.to.len() - i,
    {
        let ghost before = views(plan@);
        let ghost seen = mail@.to.take(i as int);
        let ghost recipient = mail@.to[i as int];
        proof {
            reveal(Seq::filter);
            assert(mail@.to.take(i + 1).drop_last() =~= seen);
            assert(mail@.to.take(i + 1).last() == recipient);
            assert(recipient == mail.to@[i as int]@);
        }
        if let Some(account) = service_config.get_user_from_alias(mail.to[i].as_str()) {
            let primary = account.get_primary_address();
            let delivery = copy_into(email_path, primary.as_str(), "Inbox", mail);
            plan.push(delivery);
            assert(local(recipient));
            assert(delivery@ == make(recipient));
            assert(views(plan@) =~= before.push(delivery@));
            assert(seen.filter(local).push(recipient).map_values(make) =~= seen.filter(
                local,
            ).map_values(make).push(make(recipient)));
            assert(views(plan@) =~= sent + mail@.to.take(i + 1).filter(local).map_values(make));
        } else {
            assert(!local(recipient));
        }
        i += 1;
    }
    assert(mail@.to.take(i as int) =~= mail@.to);
    plan
}

} // verus!
