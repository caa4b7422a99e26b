//! Wire framing for gossip: one leading message-type byte, then the
//! payload's canonical encoding.

use vstd::prelude::*;
use crate::block::{Block, block_parts, spec_decode_block, decode_block};
use crate::errors::DecodeError;
use crate::transaction::{Transaction, tx_parts, spec_decode_tx, decode_transaction};

verus! {

/// Leading byte of a transaction message.
pub const MESSAGE_TYPE_TX: u8 = 0x1;

/// Leading byte of a block message.
pub const MESSAGE_TYPE_BLOCK: u8 = 0x2;

/// An outbound message: a type byte prepended to payload bytes.
pub struct Message {
    header: u8,
    data: Vec<u8>,
}

impl Message {
    /// The message-type byte.
    pub closed spec fn spec_header(self) -> u8 {
        self.header
    }

    /// The framed bytes.
    pub closed spec fn spec_data(self) -> Seq<u8> {
        self.data@
    }

    /// Frame a payload under a message-type byte.
    pub fn new(header: u8, data: Vec<u8>) -> (m: Message)
        ensures
            m.spec_header() == header,
            m.spec_data() == seq![header] + data@,
    {
        let mut message = Message { header, data };
        message.format();
        message
    }

    /// Prepend this message's type byte to its data.
    pub fn format(&mut self)
        ensures
            final(self).spec_header() == old(self).spec_header(),
            final(self).spec_data() == seq![old(self).spec_header()] + old(self).spec_data(),
    {
        self.data.insert(0, self.header);
        proof {
            assert(self.data@ =~= seq![self.header] + old(self).data@);
        }
    }

    /// The framed bytes, ready to send.
    pub fn bytes(self) -> (r: Vec<u8>)
        ensures
            r@ == self.spec_data(),
    {
        self.data
    }
}

/// A decoded gossip payload.
pub enum Decoded {
    Transaction(Transaction),
    Block(Block),
}

/// Decode a framed wire message: an empty buffer, an unknown type byte, and a
/// payload that does not parse are each rejected with their own error.
pub fn default_rpc_decode(data: &Vec<u8>) -> (r: Result<Decoded, DecodeError>)
    ensures
        data@.len() == 0 ==> r == Err::<Decoded, DecodeError>(DecodeError::EmptyPayload),
        data@.len() > 0 && data@[0] == MESSAGE_TYPE_TX ==> (match r {
            Ok(Decoded::Transaction(t)) => spec_decode_tx(data@.drop_first())
                == Some(tx_parts(t)) && t.wf(),
            Err(e) => spec_decode_tx(data@.drop_first()) is None && e == DecodeError::ParseError,
            _ => false,
        }),
        data@.len() > 0 && data@[0] == MESSAGE_TYPE_BLOCK ==> (match r {
            Ok(Decoded::Block(b)) => spec_decode_block(data@.drop_first())
                == Some(block_parts(b)) && b.wf(),
            Err(e) => spec_decode_block(data@.drop_first()) is None && e == DecodeError::ParseError,
            _ => false,
        }),
        data@.len() > 0 && data@[0] != MESSAGE_TYPE_TX && data@[0] != MESSAGE_TYPE_BLOCK
            ==> r == Err::<Decoded, DecodeError>(DecodeError::UnknownMessageType(data@[0])),
{
    if data.len() == 0 {
        return Err(DecodeError::EmptyPayload);
    }
    let message_type = data[0];
    let payload = tail_bytes(data);
    if message_type == MESSAGE_TYPE_TX {
        match decode_transaction(&payload) {
            Ok(t) => Ok(Decoded::Transaction(t)),
            Err(_) => Err(DecodeError::ParseError),
        }
    } else if message_type == MESSAGE_TYPE_BLOCK {
        match decode_block(&payload) {
            Ok(b) => Ok(Decoded::Block(b)),
            Err(_) => Err(DecodeError::ParseError),
        }
    } else {
        Err(DecodeError::UnknownMessageType(message_type))
    }
}

/// Everything after the leading byte.
fn tail_bytes(data: &Vec<u8>) -> (r: Vec<u8>)
    requires
        data@.len() > 0,
    ensures
        r@ == data@.drop_first(),
{
    let n = data.len();
    let mut out: Vec<u8> = Vec::new();
    let mut k: usize = 1;
    while k < n
        invariant
            n == data@.len(),
            1 <= k <= n,
            out@ == data@.subrange(1, k as int),
        decreases n - k,
    {
        out.push(data[k]);
        assert(out@ =~= data@.subrange(1, k as int + 1));
        k = k + 1;
    }
    assert(out@ =~= data@.drop_first());
    out
}

} // verus!
