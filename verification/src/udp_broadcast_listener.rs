//! The discovery side of the broadcast port: what reply, if any, a
//! datagram deserves. The socket itself lives with the caller.

use vstd::prelude::*;
use crate::msgpack::{decode, encode, spec_decode, spec_encode, Message, MessageModel};

verus! {

/// The reply owed to one broadcast datagram: the encoded `ack` for a
/// `hello`, and nothing for anything else — other kinds, unknown
/// kinds, and datagrams that do not decode.
pub fn broadcast_reply(payload: &[u8]) -> (r: Option<Vec<u8>>)
    ensures
        match spec_decode(payload@) {
            Option::Some(mm) => if mm is Hello {
                r matches Some(b) && b@ == spec_encode(MessageModel::Ack)
            } else {
                r is None
            },
            Option::None => r is None,
        },
{
    match decode(payload) {
        Option::Some(Message::Hello) => {
            match encode(&Message::Ack) {
                Option::Some(b) => Some(b),
                Option::None => {
                    proof {
                        assert(false);
                    }
                    None
                },
            }
        },
        _ => None,
    }
}

} // verus!
