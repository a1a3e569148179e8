//! The two roles of the key agreement: the responder, which answers one
//! request at a time against its secret base key and its single inbound
//! session slot, and the initiator, a state machine that the caller drives
//! with the replies it receives.

use vstd::prelude::*;
use vstd::string::StringSliceAdditionalSpecFns;
use vstd::utf8::{decode_utf8, encode_utf8, valid_utf8};
use crate::kem::{decrypt, encrypt, keystream_xor};
use crate::msg::{Message, MessageView, Recipient};
use crate::tcp::{
    ACK, SUCCESS, TAG_COMBINE_KEY, TAG_MESSAGE, TAG_PUBLIC_KEY, Protocol, ack_reply,
    combine_key_request, is_ack, is_key_reply, key_reply, message_request, parse_key_reply,
    parse_request, protocol_of, public_key_request,
};
use crate::text::{
    decode_lossy, lossy_text, split_chars, split_on, string_of, strip_nul, text_bytes,
    without_nul,
};
use crate::vector::{KEY_SIZE, and_seq, and_vector, rand_byte_vector};

verus! {

/// The host part of a `host:port` address: the text before the first `:`.
pub open spec fn host_part(addr: Seq<char>) -> Seq<char> {
    split_on(addr, ':')[0]
}

/// Drops the port from a `host:port` address.
pub fn trim_port(ip: &str) -> (r: String)
    ensures
        r@ == host_part(ip@),
{
    let parts = split_chars(ip, ':');
    string_of(&parts[0])
}

/// The single slot that holds the session key accepted by the last
/// completed inbound handshake. It starts empty.
pub struct InboundSlot {
    key: Vec<u8>,
}

impl View for InboundSlot {
    type V = Seq<u8>;

    closed spec fn view(&self) -> Seq<u8> {
        self.key@
    }
}

impl InboundSlot {
    /// An empty slot.
    pub fn new() -> (r: InboundSlot)
        ensures
            r@ == Seq::<u8>::empty(),
    {
        InboundSlot { key: Vec::new() }
    }

    /// The key held now; empty before any handshake.
    pub fn read(&self) -> (r: Vec<u8>)
        ensures
            r@ == self@,
    {
        self.key.clone()
    }

    /// Replaces the key held, whatever it was.
    pub fn write(&mut self, key: Vec<u8>)
        ensures
            final(self)@ == key@,
    {
        self.key = key;
    }
}

/// What the responder does with one request: the response to write back,
/// and the message to hand to the application, if any.
pub struct Reply {
    pub response: Vec<u8>,
    pub event: Option<Message>,
}

/// The text that a `Message` payload decodes to under `key`: decrypted,
/// decoded, and with every NUL removed.
pub open spec fn inbound_text(ciphertext: Seq<u8>, key: Seq<u8>) -> Seq<char> {
    without_nul(lossy_text(keystream_xor(ciphertext, key)))
}

/// Where the decrypted payload is valid UTF-8, the text it decodes to is
/// plain UTF-8 decoding with every NUL removed.
pub open spec fn inbound_text_exact(ciphertext: Seq<u8>, key: Seq<u8>) -> bool {
    let plain = keystream_xor(ciphertext, key);
    valid_utf8(plain) ==> inbound_text(ciphertext, key) == without_nul(decode_utf8(plain))
}

/// The view of an optional message.
pub open spec fn opt_message(o: Option<Message>) -> Option<MessageView> {
    match o {
        Some(m) => Some(m@),
        None => None,
    }
}

/// `r` is a reply with the given response and event.
pub open spec fn reply_is(r: Option<Reply>, response: Seq<u8>, event: Option<MessageView>) -> bool {
    match r {
        Some(rep) => rep.response@ == response && opt_message(rep.event) == event,
        None => false,
    }
}

/// Answers one request. `PublicKey` is answered with the base key AND the
/// payload, then `SUCCESS`; `CombineKey` stores the base key AND the payload
/// in the slot; `Message` is decrypted with the key in the slot and handed
/// on as a message from the host of `peer_addr`; any other tag gets an
/// acknowledgement and nothing else. An empty request, or a key payload of
/// another size than a key, gets no response.
pub fn handle_request(
    base_key: &Vec<u8>,
    slot: &mut InboundSlot,
    peer_addr: &str,
    request: &Vec<u8>,
) -> (r: Option<Reply>)
    requires
        base_key@.len() == KEY_SIZE,
    ensures
        request@.len() == 0 ==> r is None && final(slot)@ == old(slot)@,
        request@.len() > 0 ==> ({
            let payload = request@.drop_first();
            match protocol_of(request@[0]) {
                Protocol::PublicKey => {
                    &&& final(slot)@ == old(slot)@
                    &&& if payload.len() == KEY_SIZE {
                        reply_is(r, and_seq(base_key@, payload).push(SUCCESS), None)
                    } else {
                        r is None
                    }
                },
                Protocol::CombineKey => if payload.len() == KEY_SIZE {
                    reply_is(r, seq![ACK], None) && final(slot)@ == and_seq(base_key@, payload)
                } else {
                    r is None && final(slot)@ == old(slot)@
                },
                Protocol::Message => {
                    &&& final(slot)@ == old(slot)@
                    &&& inbound_text_exact(payload, old(slot)@)
                    &&& reply_is(
                        r,
                        seq![ACK],
                        Some(
                            MessageView {
                                author: host_part(peer_addr@),
                                content: inbound_text(payload, old(slot)@),
                            },
                        ),
                    )
                },
                Protocol::Unknown => final(slot)@ == old(slot)@ && reply_is(r, seq![ACK], None),
            }
        }),
{
    let (protocol, data) = match parse_request(request) {
        None => return None,
        Some(parsed) => parsed,
    };
    match protocol {
        Protocol::PublicKey => {
            if data.len() != KEY_SIZE {
                return None;
            }
            let combined = and_vector(base_key, &data);
            Some(Reply { response: key_reply(&combined), event: None })
        },
        Protocol::CombineKey => {
            if data.len() != KEY_SIZE {
                return None;
            }
            slot.write(and_vector(base_key, &data));
            Some(Reply { response: ack_reply(), event: None })
        },
        Protocol::Message => {
            let key = slot.read();
            let author = trim_port(peer_addr);
            let plain = decrypt(&data, &key);
            let text = decode_lossy(&plain);
            assert(inbound_text_exact(data@, key@));
            let content = strip_nul(text.as_str());
            Some(Reply { response: ack_reply(), event: Some(Message::new(author, content)) })
        },
        Protocol::Unknown => Some(Reply { response: ack_reply(), event: None }),
    }
}

/// Where an initiator stands in a send.
pub enum SendState {
    /// `PublicKey` was sent; the responder's mixed key is awaited.
    AwaitMixed { base_key: Vec<u8>, public_key: Vec<u8>, plaintext: Vec<u8> },
    /// `CombineKey` was sent; its acknowledgement is awaited.
    AwaitCombineAck { session_key: Vec<u8>, plaintext: Vec<u8> },
    /// The encrypted message was sent; its acknowledgement is awaited.
    AwaitMessageAck { session_key: Vec<u8> },
}

/// The abstract value of a `SendState`.
pub enum SendStateView {
    AwaitMixed { base_key: Seq<u8>, public_key: Seq<u8>, plaintext: Seq<u8> },
    AwaitCombineAck { session_key: Seq<u8>, plaintext: Seq<u8> },
    AwaitMessageAck { session_key: Seq<u8> },
}

impl View for SendState {
    type V = SendStateView;

    open spec fn view(&self) -> SendStateView {
        match self {
            SendState::AwaitMixed { base_key, public_key, plaintext } => SendStateView::AwaitMixed {
                base_key: base_key@,
                public_key: public_key@,
                plaintext: plaintext@,
            },
            SendState::AwaitCombineAck { session_key, plaintext } => SendStateView::AwaitCombineAck {
                session_key: session_key@,
                plaintext: plaintext@,
            },
            SendState::AwaitMessageAck { session_key } => SendStateView::AwaitMessageAck {
                session_key: session_key@,
            },
        }
    }
}

impl SendStateView {
    /// The keys that are combined next have the key size.
    pub open spec fn wf(self) -> bool {
        match self {
            SendStateView::AwaitMixed { base_key, public_key, .. } => base_key.len() == KEY_SIZE
                && public_key.len() == KEY_SIZE,
            _ => true,
        }
    }
}

/// What an initiator does next.
pub enum SendStep {
    /// Open a connection, send `request`, and hand the reply to
    /// `advance_send` with `next`.
    Request { request: Vec<u8>, next: SendState },
    /// The message was delivered under `session_key`, which the contact
    /// caches.
    Finished { session_key: Vec<u8> },
    /// The send failed; no key is established.
    Failed,
}

/// The abstract value of a `SendStep`.
pub enum SendStepView {
    Request { request: Seq<u8>, next: SendStateView },
    Finished { session_key: Seq<u8> },
    Failed,
}

impl View for SendStep {
    type V = SendStepView;

    open spec fn view(&self) -> SendStepView {
        match self {
            SendStep::Request { request, next } => SendStepView::Request {
                request: request@,
                next: next@,
            },
            SendStep::Finished { session_key } => SendStepView::Finished {
                session_key: session_key@,
            },
            SendStep::Failed => SendStepView::Failed,
        }
    }
}

/// The request that sends `plaintext` encrypted under `key`, and the state
/// that awaits its acknowledgement.
pub open spec fn send_encrypted(plaintext: Seq<u8>, key: Seq<u8>) -> SendStepView {
    SendStepView::Request {
        request: seq![TAG_MESSAGE] + keystream_xor(plaintext, key),
        next: SendStateView::AwaitMessageAck { session_key: key },
    }
}

/// The first step of a send: with a cached key, straight to the encrypted
/// message; otherwise the handshake starts with the ephemeral public value.
pub open spec fn begin_spec(
    cached: Option<Seq<u8>>,
    plaintext: Seq<u8>,
    base_key: Seq<u8>,
    public_key: Seq<u8>,
) -> SendStepView {
    match cached {
        Some(key) => send_encrypted(plaintext, key),
        None => SendStepView::Request {
            request: seq![TAG_PUBLIC_KEY] + public_key,
            next: SendStateView::AwaitMixed { base_key, public_key, plaintext },
        },
    }
}

/// The step after `state` once `reply` came back.
pub open spec fn advance_spec(state: SendStateView, reply: Seq<u8>) -> SendStepView {
    match state {
        SendStateView::AwaitMixed { base_key, public_key, plaintext } => if is_key_reply(reply) {
            SendStepView::Request {
                request: seq![TAG_COMBINE_KEY] + and_seq(base_key, public_key),
                next: SendStateView::AwaitCombineAck {
                    session_key: and_seq(reply.take(KEY_SIZE as int), base_key),
                    plaintext,
                },
            }
        } else {
            SendStepView::Failed
        },
        SendStateView::AwaitCombineAck { session_key, plaintext } => if reply == seq![ACK] {
            send_encrypted(plaintext, session_key)
        } else {
            SendStepView::Failed
        },
        SendStateView::AwaitMessageAck { session_key } => if reply == seq![ACK] {
            SendStepView::Finished { session_key }
        } else {
            SendStepView::Failed
        },
    }
}

fn encrypted_step(plaintext: &Vec<u8>, key: Vec<u8>) -> (r: SendStep)
    ensures
        r@ == send_encrypted(plaintext@, key@),
{
    let ciphertext = encrypt(plaintext, &key);
    SendStep::Request {
        request: message_request(&ciphertext),
        next: SendState::AwaitMessageAck { session_key: key },
    }
}

/// Starts sending `text` to `peer` with the given fresh base key and
/// ephemeral public value, which are used only when `peer` has no cached key.
pub fn begin_send(peer: &Recipient, text: &str, base_key: Vec<u8>, public_key: Vec<u8>) -> (r:
    SendStep)
    requires
        base_key@.len() == KEY_SIZE,
        public_key@.len() == KEY_SIZE,
    ensures
        r@ == begin_spec(peer@.private_key, text.spec_bytes(), base_key@, public_key@),
        r@ matches SendStepView::Request { next, .. } && next.wf(),
{
    let plaintext = text_bytes(text);
    match peer.private_key() {
        Some(key) => encrypted_step(&plaintext, key),
        None => SendStep::Request {
            request: public_key_request(&public_key),
            next: SendState::AwaitMixed { base_key, public_key, plaintext },
        },
    }
}

/// Starts sending `msg` to `peer`, drawing a fresh base key and ephemeral
/// public value in case a handshake is needed.
pub fn send_message(peer: &Recipient, msg: &str) -> (r: SendStep)
    ensures
        r@ matches SendStepView::Request { next, .. } && next.wf(),
        peer@.private_key is Some ==> r@ == begin_spec(
            peer@.private_key,
            msg.spec_bytes(),
            Seq::empty(),
            Seq::empty(),
        ),
        peer@.private_key is None ==> exists|b: Seq<u8>, p: Seq<u8>|
            b.len() == KEY_SIZE && p.len() == KEY_SIZE && r@ == begin_spec(
                None,
                msg.spec_bytes(),
                b,
                p,
            ),
{
    let base_key = rand_byte_vector(KEY_SIZE);
    let public_key = rand_byte_vector(KEY_SIZE);
    let ghost (b, p) = (base_key@, public_key@);
    let r = begin_send(peer, msg, base_key, public_key);
    assert(peer@.private_key is None ==> r@ == begin_spec(None, msg.spec_bytes(), b, p));
    r
}

/// Moves a send on once `reply` came back for the request of the last step.
pub fn advance_send(state: SendState, reply: &Vec<u8>) -> (r: SendStep)
    requires
        state@.wf(),
    ensures
        r@ == advance_spec(state@, reply@),
        r@ matches SendStepView::Request { next, .. } ==> next.wf(),
{
    match state {
        SendState::AwaitMixed { base_key, public_key, plaintext } => match parse_key_reply(reply) {
            None => SendStep::Failed,
            Some(mixed) => {
                let combined = and_vector(&base_key, &public_key);
                let session_key = and_vector(&mixed, &base_key);
                SendStep::Request {
                    request: combine_key_request(&combined),
                    next: SendState::AwaitCombineAck { session_key, plaintext },
                }
            },
        },
        SendState::AwaitCombineAck { session_key, plaintext } => if is_ack(reply) {
            encrypted_step(&plaintext, session_key)
        } else {
            SendStep::Failed
        },
        SendState::AwaitMessageAck { session_key } => if is_ack(reply) {
            SendStep::Finished { session_key }
        } else {
            SendStep::Failed
        },
    }
}

/// Both roles of a handshake derive the same session key: the key that the
/// initiator takes from the responder's reply to `PublicKey` equals the
/// responder's base key AND the payload of the initiator's `CombineKey`,
/// which is what the responder stores; both are the AND of the two base keys
/// and the ephemeral public value.
pub proof fn lemma_session_keys_agree(
    base_i: Seq<u8>,
    base_r: Seq<u8>,
    ephemeral: Seq<u8>,
    plaintext: Seq<u8>,
)
    requires
        base_i.len() == KEY_SIZE,
        base_r.len() == KEY_SIZE,
        ephemeral.len() == KEY_SIZE,
    ensures
        ({
            let state = SendStateView::AwaitMixed { base_key: base_i, public_key: ephemeral, plaintext };
            let reply = and_seq(base_r, ephemeral).push(SUCCESS);
            advance_spec(state, reply) matches SendStepView::Request {
                request,
                next: SendStateView::AwaitCombineAck { session_key, .. },
            } && request[0] == TAG_COMBINE_KEY && session_key == and_seq(base_r, request.drop_first())
                && session_key == and_seq(and_seq(base_i, base_r), ephemeral)
        }),
{
    let reply = and_seq(base_r, ephemeral).push(SUCCESS);
    assert(reply.take(KEY_SIZE as int) =~= and_seq(base_r, ephemeral));
    let request = seq![TAG_COMBINE_KEY] + and_seq(base_i, ephemeral);
    assert(request.drop_first() =~= and_seq(base_i, ephemeral));
    crate::vector::lemma_and_assoc_comm(base_r, ephemeral, base_i);
    crate::vector::lemma_and_assoc_comm(base_r, base_i, ephemeral);
    crate::vector::lemma_and_assoc_comm(base_i, base_r, ephemeral);
    crate::vector::lemma_and_assoc_comm(base_i, ephemeral, base_r);
}

proof fn lemma_without_nul_identity(s: Seq<char>)
    requires
        !s.contains('\0'),
    ensures
        without_nul(s) == s,
    decreases s.len(),
{
    reveal_with_fuel(Seq::filter, 1);
    if s.len() > 0 {
        let p = s.drop_last();
        assert(!p.contains('\0')) by {
            if p.contains('\0') {
                let i = choose|i: int| 0 <= i < p.len() && p[i] == '\0';
                assert(s[i] == '\0');
            }
        }
        lemma_without_nul_identity(p);
        assert(s.last() != '\0') by {
            if s.last() == '\0' {
                assert(s[s.len() - 1] == '\0');
            }
        }
        assert(p.push(s.last()) =~= s);
    }
}

/// The single slot garbles a stale sender's text: a text `m` that was
/// encrypted under `kx` and is decrypted under a different key `ky` of the
/// same length, as after another peer's handshake, does not read as `m`,
/// once its bytes are at least as long as the key and the garbled bytes are
/// valid UTF-8 without NUL.
pub proof fn lemma_stale_slot_garbles_text(m: Seq<char>, kx: Seq<u8>, ky: Seq<u8>)
    requires
        kx.len() == ky.len(),
        kx != ky,
        encode_utf8(m).len() >= kx.len(),
        valid_utf8(keystream_xor(keystream_xor(encode_utf8(m), kx), ky)),
        !decode_utf8(keystream_xor(keystream_xor(encode_utf8(m), kx), ky)).contains('\0'),
    ensures
        without_nul(decode_utf8(keystream_xor(keystream_xor(encode_utf8(m), kx), ky))) != m,
{
    let g = keystream_xor(keystream_xor(encode_utf8(m), kx), ky);
    crate::kem::lemma_wrong_key_garbles(encode_utf8(m), kx, ky);
    lemma_without_nul_identity(decode_utf8(g));
    vstd::utf8::decode_utf8_encode_utf8(g);
}
} // verus!
