//! `QUIT`: the server takes its leave.

use crate::reply::Reply;
use vstd::prelude::*;

verus! {

/// Sends `221 Bye`. The connection's write side is to be closed once the
/// reply is out.
pub fn handle(buffer: &mut Vec<u8>)
    ensures
        final(buffer)@ == old(buffer)@ + Reply::Bye.bytes(),
{
    Reply::Bye.send(buffer);
}

} // verus!
