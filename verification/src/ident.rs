//! Message identifiers: time-ordered, so that a mailbox lists its files in
//! the order of arrival, and unique across the sessions that run at once.

use crate::text::{strip_prefix, without_prefix};
use uuid::Uuid;
use vstd::prelude::*;
use vstd::string::*;

verus! {

/// A digit of lower-case hexadecimal.
pub open spec fn is_hex_digit(c: char) -> bool {
    ('0' <= c && c <= '9') || ('a' <= c && c <= 'f')
}

/// The hyphenated form of a version 7 UUID: 36 characters, hyphens after
/// the 8th, 12th, 16th and 20th digit, the version digit `7` and a variant
/// digit from `8` to `b`.
pub open spec fn is_message_id(id: Seq<char>) -> bool {
    &&& id.len() == 36
    &&& forall|i: int|
        0 <= i < 36 ==> if i == 8 || i == 13 || i == 18 || i == 23 {
            id[i] == '-'
        } else {
            is_hex_digit(#[trigger] id[i])
        }
    &&& id[14] == '7'
    &&& (id[19] == '8' || id[19] == '9' || id[19] == 'a' || id[19] == 'b')
}

/// A message identifier behind the prefix `urn:uuid:`.
pub open spec fn is_uuid_urn(urn: Seq<char>) -> bool {
    &&& urn.len() == 45
    &&& urn.take(9) == "urn:uuid:"@
    &&& is_message_id(urn.skip(9))
}

/// `uuid::Uuid::now_v7`, written as a URN by `Uuid::as_urn`. The UUID
/// depends on the clock and on random bits, so the contract states its
/// shape only. The call panics where the system clock stands before 1970.
#[verifier::external_body]
fn fresh_urn() -> (urn: String)
    ensures
        is_uuid_urn(urn@),
{
    Uuid::now_v7().as_urn().to_string()
}

/// The identifier that a URN names: the URN without `urn:uuid:`.
pub fn id_of_urn(urn: &str) -> (id: String)
    ensures
        id@ == strip_prefix(urn@, "urn:uuid:"@),
        is_uuid_urn(urn@) ==> is_message_id(id@),
{
    proof {
        reveal_strlit("urn:uuid:");
        if is_uuid_urn(urn@) {
            assert("urn:uuid:"@ =~= urn@.subrange(0, 9));
        }
    }
    without_prefix(urn, "urn:uuid:")
}

/// A fresh message identifier.
pub fn new_message_id() -> (id: String)
    ensures
        is_message_id(id@),
{
    let urn = fresh_urn();
    id_of_urn(urn.as_str())
}

} // verus!
