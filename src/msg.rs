//! Contacts, chat messages and per-contact chat histories.

use vstd::prelude::*;
use vstd::string::*;
use crate::text::{
    lowercase, lower_of, split_chars, split_on, pieces_view, strip_nul, without_nul,
};

verus! {

/// The abstract value of a `Recipient`.
pub struct RecipientView {
    pub ip: Seq<char>,
    pub alias: Option<Seq<char>>,
    pub private_key: Option<Seq<u8>>,
}

/// The view of an optional string.
pub open spec fn opt_text(o: Option<String>) -> Option<Seq<char>> {
    match o {
        Some(s) => Some(s@),
        None => None,
    }
}

/// The view of an optional byte vector.
pub open spec fn opt_bytes(o: Option<Vec<u8>>) -> Option<Seq<u8>> {
    match o {
        Some(v) => Some(v@),
        None => None,
    }
}

fn clone_opt_text(o: &Option<String>) -> (r: Option<String>)
    ensures
        opt_text(r) == opt_text(*o),
{
    match o {
        Some(s) => Some(s.clone()),
        None => None,
    }
}

fn clone_opt_bytes(o: &Option<Vec<u8>>) -> (r: Option<Vec<u8>>)
    ensures
        opt_bytes(r) == opt_bytes(*o),
{
    match o {
        Some(v) => Some(v.clone()),
        None => None,
    }
}

fn texts_equal(a: &Option<String>, b: &Option<String>) -> (r: bool)
    ensures
        r == (opt_text(*a) == opt_text(*b)),
{
    match (a, b) {
        (Some(x), Some(y)) => *x == *y,
        (None, None) => true,
        _ => false,
    }
}

fn byte_vectors_equal(a: &Vec<u8>, b: &Vec<u8>) -> (r: bool)
    ensures
        r == (a@ == b@),
{
    if a.len() != b.len() {
        return false;
    }
    let mut i: usize = 0;
    while i < a.len()
        invariant
            i <= a@.len(),
            a@.len() == b@.len(),
            forall|j: int| 0 <= j < i ==> a@[j] == b@[j],
        decreases a@.len() - i,
    {
        if a[i] != b[i] {
            return false;
        }
        i += 1;
    }
    assert(a@ =~= b@);
    true
}

fn keys_equal(a: &Option<Vec<u8>>, b: &Option<Vec<u8>>) -> (r: bool)
    ensures
        r == (opt_bytes(*a) == opt_bytes(*b)),
{
    match (a, b) {
        (Some(x), Some(y)) => byte_vectors_equal(x, y),
        (None, None) => true,
        _ => false,
    }
}

/// A contact: its IP address, an optional alias and an optional cached
/// session key.
pub struct Recipient {
    ip: String,
    alias: Option<String>,
    private_key: Option<Vec<u8>>,
}

impl View for Recipient {
    type V = RecipientView;

    closed spec fn view(&self) -> RecipientView {
        RecipientView {
            ip: self.ip@,
            alias: opt_text(self.alias),
            private_key: opt_bytes(self.private_key),
        }
    }
}

impl Clone for Recipient {
    fn clone(&self) -> (r: Self)
        ensures
            r@ == self@,
    {
        Recipient {
            ip: self.ip.clone(),
            alias: clone_opt_text(&self.alias),
            private_key: clone_opt_bytes(&self.private_key),
        }
    }
}

impl PartialEq for Recipient {
    fn eq(&self, other: &Recipient) -> (r: bool) {
        self.ip == other.ip && texts_equal(&self.alias, &other.alias) && keys_equal(
            &self.private_key,
            &other.private_key,
        )
    }
}

impl vstd::std_specs::cmp::PartialEqSpecImpl for Recipient {
    open spec fn obeys_eq_spec() -> bool {
        true
    }

    open spec fn eq_spec(&self, other: &Recipient) -> bool {
        self@ == other@
    }
}

impl From<String> for Recipient {
    fn from(ip: String) -> (r: Recipient)
        ensures
            r@ == (RecipientView { ip: ip@, alias: None, private_key: None }),
    {
        Recipient { ip, alias: None, private_key: None }
    }
}

impl<'a> From<&'a str> for Recipient {
    fn from(ip: &'a str) -> (r: Recipient)
        ensures
            r@ == (RecipientView { ip: ip@, alias: None, private_key: None }),
    {
        Recipient { ip: String::from_str(ip), alias: None, private_key: None }
    }
}

impl vstd::std_specs::convert::FromSpecImpl<String> for Recipient {
    open spec fn obeys_from_spec() -> bool {
        true
    }

    closed spec fn from_spec(ip: String) -> Recipient {
        Recipient { ip, alias: None, private_key: None }
    }
}

impl<'a> vstd::std_specs::convert::FromSpecImpl<&'a str> for Recipient {
    open spec fn obeys_from_spec() -> bool {
        false
    }

    closed spec fn from_spec(ip: &'a str) -> Recipient {
        arbitrary()
    }
}

impl Recipient {
    /// A contact with the given address, no alias and no cached key.
    pub fn new(ip: String) -> (r: Recipient)
        ensures
            r@ == (RecipientView { ip: ip@, alias: None, private_key: None }),
    {
        Recipient { ip, alias: None, private_key: None }
    }

    /// Replaces the alias.
    pub fn set_alias(&mut self, alias: Option<String>)
        ensures
            final(self)@ == (RecipientView { alias: opt_text(alias), ..old(self)@ }),
    {
        self.alias = alias;
    }

    /// The address alone, or `alias (address)` when an alias is set.
    pub fn full_string(&self) -> (r: String)
        ensures
            r@ == match self@.alias {
                None => self@.ip,
                Some(a) => a + seq![' ', '('] + self@.ip + seq![')'],
            },
    {
        match &self.alias {
            None => self.ip.clone(),
            Some(a) => {
                let mut s = a.clone();
                s.append(" (");
                s.append(self.ip.as_str());
                s.append(")");
                proof {
                    reveal_strlit(" (");
                    reveal_strlit(")");
                }
                assert(s@ =~= a@ + seq![' ', '('] + self@.ip + seq![')']);
                s
            },
        }
    }

    /// The alias, if one is set.
    pub fn alias(&self) -> (r: Option<String>)
        ensures
            opt_text(r) == self@.alias,
    {
        clone_opt_text(&self.alias)
    }

    /// The cached session key, if one is set.
    pub fn private_key(&self) -> (r: Option<Vec<u8>>)
        ensures
            opt_bytes(r) == self@.private_key,
    {
        clone_opt_bytes(&self.private_key)
    }

    /// Caches a session key for this contact, replacing any earlier one.
    pub fn set_private_key(&mut self, key: Vec<u8>)
        ensures
            final(self)@ == (RecipientView { private_key: Some(key@), ..old(self)@ }),
    {
        self.private_key = Some(key);
    }

    /// The contact's address.
    pub fn ip(&self) -> (r: String)
        ensures
            r@ == self@.ip,
    {
        self.ip.clone()
    }
}

/// The abstract value of a `Message`.
pub struct MessageView {
    pub author: Seq<char>,
    pub content: Seq<char>,
}

/// A chat message: who wrote it and what it says.
pub struct Message {
    author: String,
    content: String,
}

impl View for Message {
    type V = MessageView;

    closed spec fn view(&self) -> MessageView {
        MessageView { author: self.author@, content: self.content@ }
    }
}

impl Clone for Message {
    fn clone(&self) -> (r: Self)
        ensures
            r@ == self@,
    {
        Message { author: self.author.clone(), content: self.content.clone() }
    }
}

impl Default for Message {
    fn default() -> (r: Self)
        ensures
            r@ == (MessageView { author: Seq::empty(), content: Seq::empty() }),
    {
        Message { author: String::new(), content: String::new() }
    }
}

impl Message {
    /// A message with the given author and content.
    pub fn new(author: String, content: String) -> (r: Message)
        ensures
            r@ == (MessageView { author: author@, content: content@ }),
    {
        Message { author, content }
    }

    /// Who wrote the message.
    pub fn author(&self) -> (r: String)
        ensures
            r@ == self@.author,
    {
        self.author.clone()
    }

    /// What the message says.
    pub fn content(&self) -> (r: String)
        ensures
            r@ == self@.content,
    {
        self.content.clone()
    }

    /// Removes every NUL character from the content.
    pub fn clean_nulls(&mut self)
        ensures
            final(self)@ == (MessageView { content: without_nul(old(self)@.content), ..old(self)@ }),
    {
        self.content = strip_nul(self.content.as_str());
    }
}

/// The abstract value of a `ChatHistory`.
pub struct ChatHistoryView {
    pub peer: RecipientView,
    pub history: Seq<MessageView>,
}

/// The views of a sequence of messages.
pub open spec fn messages_view(v: Seq<Message>) -> Seq<MessageView> {
    Seq::new(v.len(), |i: int| v[i]@)
}

/// The conversation with one contact, oldest message first.
pub struct ChatHistory {
    peer: Recipient,
    history: Vec<Message>,
}

impl View for ChatHistory {
    type V = ChatHistoryView;

    closed spec fn view(&self) -> ChatHistoryView {
        ChatHistoryView { peer: self.peer@, history: messages_view(self.history@) }
    }
}

impl Clone for ChatHistory {
    fn clone(&self) -> (r: Self)
        ensures
            r@ == self@,
    {
        ChatHistory { peer: self.peer.clone(), history: copy_messages(&self.history) }
    }
}

fn copy_messages(v: &Vec<Message>) -> (r: Vec<Message>)
    ensures
        messages_view(r@) == messages_view(v@),
{
    let mut out: Vec<Message> = Vec::new();
    let mut i: usize = 0;
    while i < v.len()
        invariant
            i <= v@.len(),
            out@.len() == i,
            messages_view(out@) == messages_view(v@).take(i as int),
        decreases v@.len() - i,
    {
        out.push(v[i].clone());
        i += 1;
        assert(messages_view(out@) =~= messages_view(v@).take(i as int));
    }
    assert(messages_view(out@) =~= messages_view(v@));
    out
}

/// A history with no messages for `peer`.
pub open spec fn fresh_history(peer: RecipientView) -> ChatHistoryView {
    ChatHistoryView { peer, history: Seq::empty() }
}

impl ChatHistory {
    /// An empty conversation with `peer`.
    pub fn new(peer: Recipient) -> (r: ChatHistory)
        ensures
            r@ == fresh_history(peer@),
    {
        let r = ChatHistory { peer, history: Vec::new() };
        assert(r@.history =~= Seq::empty());
        r
    }

    /// Appends a message at the end.
    pub fn push_msg(&mut self, msg: Message)
        ensures
            final(self)@ == (ChatHistoryView {
                history: old(self)@.history.push(msg@),
                ..old(self)@
            }),
    {
        self.history.push(msg);
        assert(final(self)@.history =~= old(self)@.history.push(msg@));
    }

    /// Removes and returns the last message; an empty message when there is
    /// none.
    pub fn pop_msg(&mut self) -> (r: Message)
        ensures
            old(self)@.history.len() == 0 ==> final(self)@ == old(self)@ && r@ == (MessageView {
                author: Seq::empty(),
                content: Seq::empty(),
            }),
            old(self)@.history.len() > 0 ==> final(self)@ == (ChatHistoryView {
                history: old(self)@.history.drop_last(),
                ..old(self)@
            }) && r@ == old(self)@.history.last(),
    {
        match self.history.pop() {
            Some(m) => {
                assert(final(self)@.history =~= old(self)@.history.drop_last());
                m
            },
            None => Message::default(),
        }
    }

    /// The contact this conversation is with.
    pub fn peer(&self) -> (r: Recipient)
        ensures
            r@ == self@.peer,
    {
        self.peer.clone()
    }

    /// A copy of the messages, oldest first.
    pub fn history(&self) -> (r: Vec<Message>)
        ensures
            messages_view(r@) == self@.history,
    {
        copy_messages(&self.history)
    }

    /// Replaces the contact.
    pub fn update_peer(&mut self, new: Recipient)
        ensures
            final(self)@ == (ChatHistoryView { peer: new@, ..old(self)@ }),
    {
        self.peer = new;
    }

    /// Removes every message.
    pub fn clear_history(&mut self)
        ensures
            final(self)@ == (ChatHistoryView { history: Seq::empty(), ..old(self)@ }),
    {
        self.history.clear();
        assert(final(self)@.history =~= Seq::empty());
    }
}

/// The views of a sequence of contacts.
pub open spec fn recipients_view(v: Seq<Recipient>) -> Seq<RecipientView> {
    Seq::new(v.len(), |i: int| v[i]@)
}

/// The views of a sequence of chat histories.
pub open spec fn histories_view(v: Seq<ChatHistory>) -> Seq<ChatHistoryView> {
    Seq::new(v.len(), |i: int| v[i]@)
}

/// `i` is the first position in `peers` whose address is `ip`.
pub open spec fn first_with_ip(peers: Seq<RecipientView>, ip: Seq<char>, i: int) -> bool {
    &&& 0 <= i < peers.len()
    &&& peers[i].ip == ip
    &&& forall|k: int| 0 <= k < i ==> peers[k].ip != ip
}

/// The alias of the first contact in `find` whose address is `ip`; `None`
/// when that contact has no alias or no contact has that address.
pub fn find_alias(ip: &str, find: &Vec<Recipient>) -> (r: Option<String>)
    ensures
        (forall|k: int| 0 <= k < find@.len() ==> find@[k]@.ip != ip@) ==> r is None,
        forall|i: int| #[trigger]
            first_with_ip(recipients_view(find@), ip@, i) ==> opt_text(r) == find@[i]@.alias,
{
    let target = String::from_str(ip);
    let ghost v = recipients_view(find@);
    let mut i: usize = 0;
    while i < find.len()
        invariant
            i <= find@.len(),
            target@ == ip@,
            v == recipients_view(find@),
            forall|k: int| 0 <= k < i ==> v[k].ip != ip@,
        decreases find@.len() - i,
    {
        if find[i].ip == target {
            let a = find[i].alias();
            proof {
                assert(v[i as int].ip == ip@);
                assert(first_with_ip(v, ip@, i as int));
                assert forall|j: int| #[trigger] first_with_ip(v, ip@, j) implies j == i by {
                    if j > i {
                        assert(v[i as int].ip == ip@);
                    }
                }
            }
            return a;
        }
        i += 1;
    }
    proof {
        assert forall|j: int| !#[trigger] first_with_ip(v, ip@, j) by {}
        assert forall|k: int| 0 <= k < find@.len() implies find@[k]@.ip != ip@ by {
            assert(v[k].ip != ip@);
        }
    }
    None
}

/// Sets the alias of every contact in `find` whose address is `ip`; the
/// others stay as they were.
pub fn modify_alias(ip: &str, alias: Option<String>, find: &mut Vec<Recipient>)
    ensures
        final(find)@.len() == old(find)@.len(),
        forall|k: int|
            0 <= k < old(find)@.len() ==> #[trigger] final(find)@[k]@ == if old(find)@[k]@.ip
                == ip@ {
                RecipientView { alias: opt_text(alias), ..old(find)@[k]@ }
            } else {
                old(find)@[k]@
            },
{
    let ip = String::from_str(ip);
    let mut i: usize = 0;
    while i < find.len()
        invariant
            i <= find@.len(),
            find@.len() == old(find)@.len(),
            forall|k: int|
                0 <= k < old(find)@.len() ==> #[trigger] find@[k]@ == if k < i && old(find)@[k]@.ip
                    == ip@ {
                    RecipientView { alias: opt_text(alias), ..old(find)@[k]@ }
                } else {
                    old(find)@[k]@
                },
        decreases find@.len() - i,
    {
        if find[i].ip == ip {
            let mut rec = find[i].clone();
            rec.set_alias(clone_opt_text(&alias));
            find.set(i, rec);
        }
        i += 1;
    }
}

/// Some history in `h` is with `peer`.
pub open spec fn has_peer(h: Seq<ChatHistoryView>, peer: RecipientView) -> bool {
    exists|i: int| 0 <= i < h.len() && h[i].peer == peer
}

/// `h` after going through `peers` in order and appending an empty history
/// for each peer that no history is with yet; with `once`, only the first
/// such peer gets one.
pub open spec fn refreshed(
    h: Seq<ChatHistoryView>,
    peers: Seq<RecipientView>,
    once: bool,
) -> Seq<ChatHistoryView>
    decreases peers.len(),
{
    if peers.len() == 0 {
        h
    } else {
        let r = refreshed(h, peers.drop_last(), once);
        if (once && r.len() > h.len()) || has_peer(r, peers.last()) {
            r
        } else {
            r.push(fresh_history(peers.last()))
        }
    }
}

proof fn lemma_refreshed_settled(
    h: Seq<ChatHistoryView>,
    peers: Seq<RecipientView>,
    i: int,
    j: int,
)
    requires
        0 <= i <= j <= peers.len(),
        refreshed(h, peers.take(i), true).len() > h.len(),
    ensures
        refreshed(h, peers.take(j), true) == refreshed(h, peers.take(i), true),
    decreases j - i,
{
    if j > i {
        lemma_refreshed_settled(h, peers, i, j - 1);
        assert(peers.take(j).drop_last() =~= peers.take(j - 1));
    }
}

proof fn lemma_refreshed_grows(h: Seq<ChatHistoryView>, peers: Seq<RecipientView>, once: bool)
    ensures
        refreshed(h, peers, once).len() >= h.len(),
        refreshed(h, peers, once).len() == h.len() ==> refreshed(h, peers, once) == h,
    decreases peers.len(),
{
    if peers.len() > 0 {
        lemma_refreshed_grows(h, peers.drop_last(), once);
    }
}

/// Appends an empty history for each contact of `peer_list` that no history
/// of `history_list` is with yet, in the order of `peer_list`; with `once`,
/// stops after the first one appended.
pub fn try_refresh_history_list(
    history_list: &mut Vec<ChatHistory>,
    peer_list: &Vec<Recipient>,
    once: bool,
)
    ensures
        histories_view(final(history_list)@) == refreshed(
            histories_view(old(history_list)@),
            recipients_view(peer_list@),
            once,
        ),
{
    let ghost h0 = histories_view(history_list@);
    let ghost peers = recipients_view(peer_list@);
    let mut p: usize = 0;
    while p < peer_list.len()
        invariant
            p <= peer_list@.len(),
            peers == recipients_view(peer_list@),
            h0 == histories_view(old(history_list)@),
            histories_view(history_list@) == refreshed(h0, peers.take(p as int), once),
            once ==> history_list@.len() == old(history_list)@.len(),
        decreases peer_list@.len() - p,
    {
        let peer = &peer_list[p];
        let ghost before = history_list@;
        let ghost hv = histories_view(before);
        proof {
            assert(peers.take(p + 1).drop_last() =~= peers.take(p as int));
            assert(peers.take(p + 1).last() == peer@);
            lemma_refreshed_grows(h0, peers.take(p as int), once);
        }
        let mut matched = false;
        let mut k: usize = 0;
        while k < history_list.len() && !matched
            invariant
                k <= history_list@.len(),
                history_list@ == before,
                hv == histories_view(before),
                matched == exists|q: int| 0 <= q < k && hv[q].peer == peer@,
            decreases history_list@.len() - k,
        {
            let same = history_list[k].peer == *peer;
            assert(same == (hv[k as int].peer == peer@));
            if same {
                matched = true;
            }
            k += 1;
        }
        assert(matched == has_peer(hv, peer@));
        if !matched {
            history_list.push(ChatHistory::new(peer.clone()));
            proof {
                assert(histories_view(history_list@) =~= hv.push(fresh_history(peer@)));
            }
            if once {
                proof {
                    lemma_refreshed_settled(h0, peers, p + 1, peers.len() as int);
                    assert(peers.take(peers.len() as int) =~= peers);
                }
                return;
            }
        }
        p += 1;
    }
    proof {
        assert(peers.take(peers.len() as int) =~= peers);
    }
}

/// `c` is one of the ASCII digits `0` to `9`.
pub open spec fn is_digit(c: char) -> bool {
    '0' <= c && c <= '9'
}

/// The number that a sequence of decimal digits writes.
pub open spec fn digits_value(d: Seq<char>) -> int
    decreases d.len(),
{
    if d.len() == 0 {
        0
    } else {
        digits_value(d.drop_last()) * 10 + (d.last() as int - '0' as int)
    }
}

/// `t` is an unsigned 8-bit number as `u8`'s `FromStr` reads one: an optional
/// `+`, then at least one decimal digit, with a value of at most 255.
pub open spec fn is_u8_numeral(t: Seq<char>) -> bool {
    let d = unsigned_digits(t);
    &&& d.len() > 0
    &&& all_digits(d)
    &&& digits_value(d) <= 255
}

/// `t` without a leading `+`, if it has one.
pub open spec fn unsigned_digits(t: Seq<char>) -> Seq<char> {
    if t.len() > 0 && t[0] == '+' {
        t.drop_first()
    } else {
        t
    }
}

/// Every character of `d` is a decimal digit.
pub open spec fn all_digits(d: Seq<char>) -> bool {
    forall|i: int| 0 <= i < d.len() ==> is_digit(#[trigger] d[i])
}

/// `s` is exactly four dot-separated numbers of 0 to 255 each.
pub open spec fn valid_ip(s: Seq<char>) -> bool {
    let t = split_on(s, '.');
    &&& t.len() == 4
    &&& forall|i: int| 0 <= i < 4 ==> is_u8_numeral(#[trigger] t[i])
}

proof fn lemma_digits_value_prefix(d: Seq<char>, i: int)
    requires
        0 <= i <= d.len(),
        forall|k: int| 0 <= k < d.len() ==> is_digit(#[trigger] d[k]),
    ensures
        0 <= digits_value(d.take(i)) <= digits_value(d),
    decreases d.len(),
{
    if d.len() > 0 {
        let p = d.drop_last();
        assert forall|k: int| 0 <= k < p.len() implies is_digit(#[trigger] p[k]) by {
            assert(p[k] == d[k]);
        }
        if i == d.len() {
            assert(d.take(i) =~= d);
            lemma_digits_value_prefix(p, p.len() as int);
            assert(p.take(p.len() as int) =~= p);
        } else {
            assert(d.take(i) =~= p.take(i));
            lemma_digits_value_prefix(p, i);
        }
    }
}

fn is_u8_numeral_chars(t: &Vec<char>) -> (r: bool)
    ensures
        r == is_u8_numeral(t@),
{
    let start: usize = if t.len() > 0 && t[0] == '+' {
        1
    } else {
        0
    };
    let ghost d = unsigned_digits(t@);
    assert(d =~= t@.skip(start as int));
    if start == t.len() {
        return false;
    }
    let mut value: u32 = 0;
    let mut i: usize = start;
    while i < t.len()
        invariant
            start <= i <= t@.len(),
            d == unsigned_digits(t@),
            d =~= t@.skip(start as int),
            forall|k: int| 0 <= k < i - start ==> is_digit(#[trigger] d[k]),
            value as int == digits_value(d.take(i - start)),
            value <= 255,
        decreases t@.len() - i,
    {
        let c = t[i];
        let ghost j = i - start;
        assert(d[j] == c);
        if c < '0' || c > '9' {
            assert(!is_digit(d[j]));
            return false;
        }
        assert(d.take(j + 1).drop_last() =~= d.take(j));
        assert(d.take(j + 1).last() == c);
        let digit = c as u32 - '0' as u32;
        assert(digit as int == c as int - '0' as int);
        value = value * 10 + digit;
        assert(value as int == digits_value(d.take(j + 1)));
        i += 1;
        if value > 255 {
            proof {
                if forall|k: int| 0 <= k < d.len() ==> is_digit(#[trigger] d[k]) {
                    lemma_digits_value_prefix(d, j + 1);
                }
            }
            return false;
        }
    }
    assert(d.take(d.len() as int) =~= d);
    true
}

/// Whether `ip` is an IPv4 address in dotted-quad form: four tokens
/// separated by `.`, each a number from 0 to 255.
pub fn is_valid_ip(ip: &str) -> (r: bool)
    ensures
        r == valid_ip(ip@),
{
    let bytes = split_chars(ip, '.');
    if bytes.len() != 4 {
        return false;
    }
    let mut i: usize = 0;
    while i < 4
        invariant
            i <= 4,
            bytes@.len() == 4,
            pieces_view(bytes@) == split_on(ip@, '.'),
            forall|k: int| 0 <= k < i ==> is_u8_numeral(#[trigger] pieces_view(bytes@)[k]),
        decreases 4 - i,
    {
        if !is_u8_numeral_chars(&bytes[i]) {
            assert(!is_u8_numeral(pieces_view(bytes@)[i as int]));
            return false;
        }
        i += 1;
    }
    true
}

/// The longest alias accepted, in bytes.
pub const MAX_ALIAS_LEN: usize = 28;

/// An alias of `byte_len` bytes whose lowercase form is `lowered` is
/// accepted: from 1 to 28 bytes, and not `you` in any case.
pub open spec fn alias_ok(byte_len: int, lowered: Seq<char>) -> bool {
    &&& 1 <= byte_len <= MAX_ALIAS_LEN
    &&& lowered != seq!['y', 'o', 'u']
}

/// Whether an alias of `byte_len` bytes whose lowercase form is `lowered`
/// is accepted.
pub fn alias_accepted(byte_len: usize, lowered: &str) -> (r: bool)
    ensures
        r == alias_ok(byte_len as int, lowered@),
{
    let you = String::from_str("you");
    let low = String::from_str(lowered);
    proof {
        reveal_strlit("you");
        assert("you"@ =~= seq!['y', 'o', 'u']);
    }
    1 <= byte_len && byte_len <= MAX_ALIAS_LEN && !(low == you)
}

/// Whether `alias` may name a contact: 1 to 28 bytes long, and not `you`
/// compared case-insensitively.
pub fn is_valid_alias(alias: &str) -> (r: bool)
    ensures
        r == alias_ok(alias.len() as int, lower_of(alias@)),
{
    let lowered = lowercase(alias);
    alias_accepted(alias.len(), lowered.as_str())
}

/// Caches `key` on the first contact of `peers` whose address is `ip`; the
/// list is unchanged when no contact has that address.
pub fn store_session_key(peers: &mut Vec<Recipient>, ip: &str, key: Vec<u8>)
    ensures
        final(peers)@.len() == old(peers)@.len(),
        forall|k: int|
            0 <= k < old(peers)@.len() ==> #[trigger] final(peers)@[k]@ == if first_with_ip(
                recipients_view(old(peers)@),
                ip@,
                k,
            ) {
                RecipientView { private_key: Some(key@), ..old(peers)@[k]@ }
            } else {
                old(peers)@[k]@
            },
{
    let target = String::from_str(ip);
    let ghost v = recipients_view(peers@);
    let mut i: usize = 0;
    while i < peers.len()
        invariant
            i <= peers@.len(),
            target@ == ip@,
            peers@ == old(peers)@,
            v == recipients_view(old(peers)@),
            forall|k: int| 0 <= k < i ==> v[k].ip != ip@,
        decreases peers@.len() - i,
    {
        if peers[i].ip == target {
            let mut rec = peers[i].clone();
            rec.set_private_key(key);
            peers.set(i, rec);
            proof {
                assert(v[i as int].ip == ip@);
                assert forall|k: int| 0 <= k < old(peers)@.len() implies #[trigger] first_with_ip(
                    v,
                    ip@,
                    k,
                ) == (k == i) by {
                    if k > i {
                        assert(v[i as int].ip == ip@);
                    }
                }
            }
            return;
        }
        i += 1;
    }
}

} // verus!
