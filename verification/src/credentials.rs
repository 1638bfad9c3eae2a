//! SASL PLAIN credentials: how the message of a client is taken apart, and
//! how a password is held against the hash that an account stores.
//!
//! Base64, lossy UTF-8 decoding and yescrypt are not verified here. Each is
//! called through one function whose contract names what the call returns;
//! the decisions taken on those results are verified.

use crate::config::{Configuration, ConfigurationView};
use crate::reply::Reply;
use base64::Engine;
use vstd::prelude::*;
use vstd::slice::*;
use vstd::string::*;
use vstd::utf8::*;
use yescrypt::{Params, PasswordHashRef, PasswordVerifier, Yescrypt};

verus! {

// ---------------------------------------------------------------------------
// What the outside functions return
// ---------------------------------------------------------------------------

/// What `text` decodes to in standard, padded Base64; `None` where it is
/// not such an encoding.
pub uninterp spec fn base64_decoded(text: Seq<char>) -> Option<Seq<u8>>;

/// `bytes` read as UTF-8, each malformed part replaced by U+FFFD.
pub uninterp spec fn lossy_utf8(bytes: Seq<u8>) -> Seq<char>;

/// The cost parameters `(N, r, p)` that a stored hash names in its first
/// field; `None` where the text is no hash in Modular Crypt Format or its
/// first field does not hold yescrypt parameters.
pub uninterp spec fn hash_cost(hash: Seq<char>) -> Option<(u64, u32, u32)>;

/// Whether yescrypt, run on `password` with the parameters and the salt
/// that `hash` names, gives the digest that `hash` holds.
pub uninterp spec fn hash_accepts(hash: Seq<char>, password: Seq<u8>) -> bool;

/// `base64::engine::general_purpose::STANDARD.decode`. The contract only
/// names the result: the bytes on success, nothing on any decoding error.
#[verifier::external_body]
fn decode_base64(text: &str) -> (decoded: Option<Vec<u8>>)
    ensures
        base64_decoded(text@) == match decoded {
            Some(bytes) => Some(bytes@),
            None => None,
        },
{
    base64::prelude::BASE64_STANDARD.decode(text).ok()
}

/// `String::from_utf8_lossy`. The contract only names the result.
#[verifier::external_body]
fn lossy_string(bytes: &[u8]) -> (text: String)
    ensures
        text@ == lossy_utf8(bytes@),
{
    String::from_utf8_lossy(bytes).into_owned()
}

/// `yescrypt::Params::from_str` on the first field of the hash, as
/// `mcf::PasswordHashRef` hands it out, read back through `Params::n`,
/// `Params::r` and `Params::p`. The contract only names the result.
#[verifier::external_body]
fn stored_cost(hash: &str) -> (cost: Option<(u64, u32, u32)>)
    ensures
        cost == hash_cost(hash@),
{
    let field = PasswordHashRef::new(hash).ok()?.fields().next()?;
    let params = field.as_str().parse::<Params>().ok()?;
    Some((params.n(), params.r(), params.p()))
}

/// `yescrypt::Yescrypt::verify_password` on a hash given as text. It
/// answers `true` where the call returns `Ok`, and `false` on each of its
/// errors. The call allocates the working memory that the hash's cost
/// parameters ask for, and panics where a vector cannot have that size:
/// such hashes are left out.
#[verifier::external_body]
fn password_verifies(hash: &str, password: &[u8]) -> (ok: bool)
    requires
        hash_cost(hash@) matches Some(cost) && affordable(cost),
    ensures
        ok == hash_accepts(hash@, password@),
{
    Yescrypt::default().verify_password(password, hash).is_ok()
}

// ---------------------------------------------------------------------------
// The PLAIN message
// ---------------------------------------------------------------------------

/// Whether `message` holds NUL at `i` and at `j`, and nowhere else.
pub open spec fn separated_at(message: Seq<u8>, i: int, j: int) -> bool {
    &&& 0 <= i < j < message.len()
    &&& message[i] == 0
    &&& message[j] == 0
    &&& forall|k: int| 0 <= k < message.len() && k != i && k != j ==> message[k] != 0
}

/// The user name and the password of a PLAIN message: the second and the
/// third of its three NUL-separated fields. A message with fewer or more
/// fields has none.
pub open spec fn plain_credentials(message: Seq<u8>) -> Option<(Seq<u8>, Seq<u8>)> {
    if exists|i: int, j: int| separated_at(message, i, j) {
        let (i, j) = choose|i: int, j: int| separated_at(message, i, j);
        Some((message.subrange(i + 1, j), message.subrange(j + 1, message.len() as int)))
    } else {
        None
    }
}

/// The two separators of a message are where they are: no other pair of
/// places will do.
pub proof fn lemma_separators_unique(message: Seq<u8>, i: int, j: int)
    requires
        separated_at(message, i, j),
    ensures
        plain_credentials(message) == Some(
            (message.subrange(i + 1, j), message.subrange(j + 1, message.len() as int)),
        ),
{
    let (a, b) = choose|a: int, b: int| separated_at(message, a, b);
    assert(separated_at(message, a, b));
    assert(a == i && b == j) by {
        if a != i && a != j {
            assert(message[a] != 0);
        }
        if b != i && b != j {
            assert(message[b] != 0);
        }
    }
}

/// Takes a decoded PLAIN message apart.
pub fn sasl_plain<'a>(message: &'a [u8]) -> (fields: Option<(&'a [u8], &'a [u8])>)
    ensures
        plain_credentials(message@) == match fields {
            Some((user, password)) => Some((user@, password@)),
            None => None,
        },
{
    let n = message.len();
    let mut first: usize = n;
    let mut second: usize = n;
    let mut k: usize = 0;
    while k < n
        invariant
            n == message@.len(),
            k <= n,
            first <= second <= n,
            first < n ==> first < k && message@[first as int] == 0,
            second < n ==> first < second < k && message@[second as int] == 0,
            first == n ==> second == n,
            forall|m: int| 0 <= m < k && m != first && m != second ==> message@[m] != 0,
        decreases n - k,
    {
        if message[k] == 0 {
            if first == n {
                first = k;
            } else if second == n {
                second = k;
            } else {
                // A third separator: four fields or more.
                assert forall|i: int, j: int| !separated_at(message@, i, j) by {
                    if separated_at(message@, i, j) {
                        let f = first as int;
                        let s = second as int;
                        let t = k as int;
                        assert(message@[f] == 0 && message@[s] == 0 && message@[t] == 0);
                        assert(f == i || f == j);
                        assert(s == i || s == j);
                        assert(t == i || t == j);
                    }
                }
                return None;
            }
        }
        k += 1;
    }
    if second == n {
        // Fewer than two separators.
        assert forall|i: int, j: int| !separated_at(message@, i, j) by {
            if separated_at(message@, i, j) {
                assert(message@[i] == 0 && message@[j] == 0);
                assert(i == first);
                assert(j == first);
            }
        }
        return None;
    }
    proof {
        lemma_separators_unique(message@, first as int, second as int);
    }
    let user = slice_subrange(message, first + 1, second);
    let password = slice_subrange(message, second + 1, n);
    Some((user, password))
}

// ---------------------------------------------------------------------------
// The verdict
// ---------------------------------------------------------------------------

/// How an authentication attempt ended.
#[derive(Clone, Copy, Debug, PartialEq, Eq, Structural)]
pub enum Verdict {
    /// yescrypt accepts the password for the hash that the account stores.
    Accepted,
    /// The message is no Base64, or does not hold three fields.
    Malformed,
    /// No account owns the user name.
    UnknownUser,
    /// The account stores no password hash.
    NoPassword,
    /// The stored hash names no yescrypt parameters, or asks for more
    /// memory than a vector can hold.
    UnusableHash,
    /// yescrypt does not accept the password for the stored hash.
    WrongPassword,
}

impl Verdict {
    /// The reply that the client gets: the same for every failure, so that
    /// it does not learn which check failed.
    pub open spec fn reply(self) -> Reply {
        if self == Verdict::Accepted {
            Reply::AuthenticationSuccessful
        } else {
            Reply::AuthenticationFailed
        }
    }

    /// The reply that the client gets.
    pub fn to_reply(self) -> (reply: Reply)
        ensures
            reply == self.reply(),
    {
        match self {
            Verdict::Accepted => Reply::AuthenticationSuccessful,
            _ => Reply::AuthenticationFailed,
        }
    }
}

/// The bytes that yescrypt asks for in its large vectors, given the cost
/// parameters `(N, r, p)`: `128·N·r` for its table, `128·r·p` for its
/// blocks, `256·r` of scratch space and `12288·p` for its substitution
/// boxes.
pub open spec fn working_memory(cost: (u64, u32, u32)) -> int {
    128 * cost.0 * cost.1 + 128 * cost.1 * cost.2 + 256 * cost.1 + 12288 * cost.2
}

/// Whether the working memory, and so each vector of it, is within what
/// one vector can hold.
pub open spec fn affordable(cost: (u64, u32, u32)) -> bool {
    working_memory(cost) <= isize::MAX
}

/// Whether yescrypt can allocate what the cost parameters `(n, r, p)` ask
/// for.
pub fn is_affordable(n: u64, r: u32, p: u32) -> (fits: bool)
    ensures
        fits == affordable((n, r, p)),
{
    let n: u128 = n as u128;
    let r: u128 = r as u128;
    let p: u128 = p as u128;
    assert(n * r <= 0xFFFF_FFFF_FFFF_FFFF * 0xFFFF_FFFF) by (nonlinear_arith)
        requires
            n <= 0xFFFF_FFFF_FFFF_FFFF,
            r <= 0xFFFF_FFFF,
    ;
    assert(r * p <= 0xFFFF_FFFF * 0xFFFF_FFFF) by (nonlinear_arith)
        requires
            r <= 0xFFFF_FFFF,
            p <= 0xFFFF_FFFF,
    ;
    let table: u128 = 128 * (n * r);
    let blocks: u128 = 128 * (r * p);
    let total: u128 = table + blocks + 256 * r + 12288 * p;
    assert(total == working_memory((n as u64, r as u32, p as u32))) by (nonlinear_arith)
        requires
            total == 128 * (n * r) + 128 * (r * p) + 256 * r + 12288 * p,
            working_memory((n as u64, r as u32, p as u32)) == 128 * n * r + 128 * r * p + 256 * r
                + 12288 * p,
    ;
    total <= isize::MAX as u128
}

/// What holding `password` against the stored `hash` comes to.
pub open spec fn password_verdict(hash: Seq<char>, password: Seq<u8>) -> Verdict {
    match hash_cost(hash) {
        None => Verdict::UnusableHash,
        Some(cost) => if !affordable(cost) {
            Verdict::UnusableHash
        } else if hash_accepts(hash, password) {
            Verdict::Accepted
        } else {
            Verdict::WrongPassword
        },
    }
}

/// Holds `password` against the stored `hash`. yescrypt runs only on a
/// hash whose cost it can meet.
pub fn check_password(hash: &str, password: &[u8]) -> (verdict: Verdict)
    ensures
        verdict == password_verdict(hash@, password@),
{
    match stored_cost(hash) {
        None => Verdict::UnusableHash,
        Some((n, r, p)) => {
            if !is_affordable(n, r, p) {
                Verdict::UnusableHash
            } else if password_verifies(hash, password) {
                Verdict::Accepted
            } else {
                Verdict::WrongPassword
            }
        },
    }
}

/// What a decoded PLAIN message comes to under `config`: the user name is
/// looked up among all addresses of all accounts, and the password is held
/// against the hash of the account found.
pub open spec fn message_verdict(config: ConfigurationView, message: Seq<u8>) -> Verdict {
    match plain_credentials(message) {
        None => Verdict::Malformed,
        Some((user, password)) => match config.resolve(lossy_utf8(user)) {
            None => Verdict::UnknownUser,
            Some(account) => match account.hashed_password {
                None => Verdict::NoPassword,
                Some(hash) => password_verdict(hash, encode_utf8(lossy_utf8(password))),
            },
        },
    }
}

/// Checks the credentials of a decoded PLAIN message.
pub fn check_message(config: &Configuration, message: &[u8]) -> (verdict: Verdict)
    ensures
        verdict == message_verdict(config@, message@),
{
    match sasl_plain(message) {
        None => Verdict::Malformed,
        Some((user, password)) => {
            let username = lossy_string(user);
            let password = lossy_string(password);
            match config.get_user_from_alias(username.as_str()) {
                None => Verdict::UnknownUser,
                Some(account) => match &account.hashed_password {
                    None => Verdict::NoPassword,
                    Some(hash) => check_password(hash.as_str(), password.as_str().as_bytes()),
                },
            }
        },
    }
}

/// What the third word of `AUTH PLAIN` comes to under `config`.
pub open spec fn payload_verdict(config: ConfigurationView, payload: Seq<char>) -> Verdict {
    match base64_decoded(payload) {
        None => Verdict::Malformed,
        Some(message) => message_verdict(config, message),
    }
}

/// Decodes the third word of `AUTH PLAIN` and checks the credentials in it.
pub fn check_payload(config: &Configuration, payload: &str) -> (verdict: Verdict)
    ensures
        verdict == payload_verdict(config@, payload@),
{
    match decode_base64(payload) {
        None => Verdict::Malformed,
        Some(message) => check_message(config, message.as_slice()),
    }
}

} // verus!
