//! The one message the game sends: a notice, at startup, that a player has
//! joined. The caller owns the socket.

use vstd::prelude::*;
use vstd::string::{StrSliceExecFns, StringSliceAdditionalSpecFns};

verus! {

/// The bytes that open a connect notice: the word CONNECT and a colon.
pub open spec fn connect_prefix() -> Seq<u8> {
    seq![67u8, 79u8, 78u8, 78u8, 69u8, 67u8, 84u8, 58u8]
}

/// The connect notice of a player: the prefix, then the name as it is.
pub open spec fn connect_notice(name: Seq<u8>) -> Seq<u8> {
    connect_prefix() + name
}

/// The connect notice for the player called `name`.
pub fn connect_message(name: &str) -> (msg: Vec<u8>)
    ensures
        msg@ == connect_notice(name.spec_bytes()),
{
    let mut msg: Vec<u8> = Vec::new();
    msg.push(67u8);
    msg.push(79u8);
    msg.push(78u8);
    msg.push(78u8);
    msg.push(69u8);
    msg.push(67u8);
    msg.push(84u8);
    msg.push(58u8);
    assert(msg@ == connect_prefix());
    let mut bytes: Vec<u8> = name.as_bytes_vec();
    msg.append(&mut bytes);
    msg
}

} // verus!
