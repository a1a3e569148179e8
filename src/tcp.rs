//! The wire format: one tagged request and one response per connection.

use vstd::prelude::*;
use crate::vector::KEY_SIZE;

verus! {

/// Tag byte of a `PublicKey` request.
pub const TAG_PUBLIC_KEY: u8 = 1;

/// Tag byte of a `CombineKey` request.
pub const TAG_COMBINE_KEY: u8 = 2;

/// Tag byte of a `Message` request.
pub const TAG_MESSAGE: u8 = 3;

/// Last byte of a successful reply to `PublicKey`.
pub const SUCCESS: u8 = 0xFF;

/// The one-byte acknowledgement of every other request.
pub const ACK: u8 = 0;

/// The operation a request asks for, read from its first byte.
#[derive(PartialEq, Eq, Structural, Clone, Copy, Debug)]
pub enum Protocol {
    PublicKey,
    CombineKey,
    Message,
    Unknown,
}

/// The operation that a tag byte names.
pub open spec fn protocol_of(tag: u8) -> Protocol {
    if tag == TAG_PUBLIC_KEY {
        Protocol::PublicKey
    } else if tag == TAG_COMBINE_KEY {
        Protocol::CombineKey
    } else if tag == TAG_MESSAGE {
        Protocol::Message
    } else {
        Protocol::Unknown
    }
}

/// The operation that a tag byte names; any unknown tag gives `Unknown`.
pub fn protocol_from_tag(tag: u8) -> (r: Protocol)
    ensures
        r == protocol_of(tag),
{
    if tag == TAG_PUBLIC_KEY {
        Protocol::PublicKey
    } else if tag == TAG_COMBINE_KEY {
        Protocol::CombineKey
    } else if tag == TAG_MESSAGE {
        Protocol::Message
    } else {
        Protocol::Unknown
    }
}

/// How many payload bytes follow the tag: a key for `PublicKey` and
/// `CombineKey`, none for `Unknown`; `None` for `Message`, whose payload
/// runs to the end of the stream.
pub fn payload_len(p: Protocol) -> (r: Option<usize>)
    ensures
        r == match p {
            Protocol::PublicKey | Protocol::CombineKey => Some(KEY_SIZE),
            Protocol::Message => None,
            Protocol::Unknown => Some(0usize),
        },
{
    match p {
        Protocol::PublicKey | Protocol::CombineKey => Some(KEY_SIZE),
        Protocol::Message => None,
        Protocol::Unknown => Some(0),
    }
}

fn frame(tag: u8, payload: &Vec<u8>) -> (r: Vec<u8>)
    ensures
        r@ == seq![tag] + payload@,
{
    let mut out: Vec<u8> = Vec::new();
    out.push(tag);
    let mut i: usize = 0;
    while i < payload.len()
        invariant
            i <= payload@.len(),
            out@ == seq![tag] + payload@.take(i as int),
        decreases payload@.len() - i,
    {
        out.push(payload[i]);
        i += 1;
        assert(out@ =~= seq![tag] + payload@.take(i as int));
    }
    assert(payload@.take(payload@.len() as int) =~= payload@);
    out
}

/// A `PublicKey` request carrying the initiator's ephemeral public value.
pub fn public_key_request(public_key: &Vec<u8>) -> (r: Vec<u8>)
    ensures
        r@ == seq![TAG_PUBLIC_KEY] + public_key@,
{
    frame(TAG_PUBLIC_KEY, public_key)
}

/// A `CombineKey` request carrying the initiator's combined value.
pub fn combine_key_request(combined: &Vec<u8>) -> (r: Vec<u8>)
    ensures
        r@ == seq![TAG_COMBINE_KEY] + combined@,
{
    frame(TAG_COMBINE_KEY, combined)
}

/// A `Message` request carrying a ciphertext.
pub fn message_request(ciphertext: &Vec<u8>) -> (r: Vec<u8>)
    ensures
        r@ == seq![TAG_MESSAGE] + ciphertext@,
{
    frame(TAG_MESSAGE, ciphertext)
}

/// Splits a request into its operation and its payload; `None` for an empty
/// request.
pub fn parse_request(request: &Vec<u8>) -> (r: Option<(Protocol, Vec<u8>)>)
    ensures
        request@.len() == 0 ==> r is None,
        request@.len() > 0 ==> (r matches Some((p, payload)) && p == protocol_of(request@[0])
            && payload@ == request@.drop_first()),
{
    if request.len() == 0 {
        return None;
    }
    let mut payload: Vec<u8> = Vec::new();
    let mut i: usize = 1;
    while i < request.len()
        invariant
            1 <= i <= request@.len(),
            payload@ == request@.subrange(1, i as int),
        decreases request@.len() - i,
    {
        payload.push(request[i]);
        i += 1;
        assert(payload@ =~= request@.subrange(1, i as int));
    }
    assert(payload@ =~= request@.drop_first());
    Some((protocol_from_tag(request[0]), payload))
}

/// The reply to `PublicKey`: the combined key, then `SUCCESS`.
pub fn key_reply(combined: &Vec<u8>) -> (r: Vec<u8>)
    ensures
        r@ == combined@.push(SUCCESS),
{
    let mut out: Vec<u8> = Vec::new();
    let mut i: usize = 0;
    while i < combined.len()
        invariant
            i <= combined@.len(),
            out@ == combined@.take(i as int),
        decreases combined@.len() - i,
    {
        out.push(combined[i]);
        i += 1;
        assert(out@ =~= combined@.take(i as int));
    }
    assert(out@ =~= combined@);
    out.push(SUCCESS);
    out
}

/// The one-byte acknowledgement.
pub fn ack_reply() -> (r: Vec<u8>)
    ensures
        r@ == seq![ACK],
{
    let mut out: Vec<u8> = Vec::new();
    out.push(ACK);
    assert(out@ =~= seq![ACK]);
    out
}

/// `reply` is a well-formed answer to `PublicKey`: a key, then `SUCCESS`.
pub open spec fn is_key_reply(reply: Seq<u8>) -> bool {
    reply.len() == KEY_SIZE + 1 && reply[KEY_SIZE as int] == SUCCESS
}

/// The key carried by a reply to `PublicKey`; `None` when the reply is not
/// a key followed by `SUCCESS`.
pub fn parse_key_reply(reply: &Vec<u8>) -> (r: Option<Vec<u8>>)
    ensures
        is_key_reply(reply@) ==> (r matches Some(k) && k@ == reply@.take(KEY_SIZE as int)),
        !is_key_reply(reply@) ==> r is None,
{
    if reply.len() != KEY_SIZE + 1 || reply[KEY_SIZE] != SUCCESS {
        return None;
    }
    let mut key: Vec<u8> = Vec::new();
    let mut i: usize = 0;
    while i < KEY_SIZE
        invariant
            i <= KEY_SIZE,
            reply@.len() == KEY_SIZE + 1,
            key@ == reply@.take(i as int),
        decreases KEY_SIZE - i,
    {
        key.push(reply[i]);
        i += 1;
        assert(key@ =~= reply@.take(i as int));
    }
    Some(key)
}

/// Whether `reply` is exactly the one-byte acknowledgement.
pub fn is_ack(reply: &Vec<u8>) -> (r: bool)
    ensures
        r == (reply@ == seq![ACK]),
{
    let r = reply.len() == 1 && reply[0] == ACK;
    assert(r ==> reply@ =~= seq![ACK]);
    r
}

} // verus!
