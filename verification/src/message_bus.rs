//! The message bus: one channel per registered message type, which modules
//! subscribe to which types, and the numbering of published messages.
//!
//! Reading the channels and delivering their messages to the subscribers is
//! the caller's: it takes each channel's receiving end from the bus, and asks
//! the bus whom to deliver to.

use vstd::prelude::*;
use std::any::TypeId;
use std::sync::Arc;
use std::time::Instant;
use tokio::sync::mpsc::{Receiver, Sender};
use crate::plugin::texts;
use crate::table::{Table, TableKey};

verus! {

/// `std::time::Instant`, a point in time, carried as an opaque value.
#[verifier::external_type_specification]
#[verifier::external_body]
pub struct ExInstant(Instant);

/// The current time, from `Instant::now`. Nothing is stated of it.
#[verifier::external_body]
fn now() -> Instant {
    Instant::now()
}

/// Another handle to the same shared value, from `Arc::clone`: it is equal to
/// the handle it was made from.
#[verifier::external_body]
fn share<M>(a: &Arc<M>) -> (r: Arc<M>)
    ensures
        r == *a,
{
    Arc::clone(a)
}

/// A published message together with the data that routes it.
pub struct MessageEnvelope<M> {
    pub message_type: TypeId,
    pub payload: Arc<M>,
    /// The number the bus gave the message when it was published.
    pub sequence: u64,
    /// When the message was published.
    pub timestamp: Instant,
}

impl<M> MessageEnvelope<M> {
    /// An envelope for `msg`, of message type `message_type`, numbered
    /// `sequence`, stamped with the current time.
    pub fn new(msg: M, message_type: TypeId, sequence: u64) -> (e: Self)
        ensures
            e.message_type == message_type,
            *e.payload == msg,
            e.sequence == sequence,
    {
        MessageEnvelope { message_type, payload: Arc::new(msg), sequence, timestamp: now() }
    }

    /// Another envelope for the same message: the payload is shared, not
    /// copied.
    pub fn clone_arc(&self) -> (e: Self)
        ensures
            e.message_type == self.message_type,
            e.payload == self.payload,
            e.sequence == self.sequence,
            e.timestamp == self.timestamp,
    {
        MessageEnvelope {
            message_type: self.message_type,
            payload: share(&self.payload),
            sequence: self.sequence,
            timestamp: self.timestamp,
        }
    }
}

/// Why a message could not be published.
#[derive(Debug, Clone, Copy)]
pub enum PublishError {
    /// The message type is not registered with the bus.
    TypeNotRegistered(TypeId),
    /// The channel of the message type is full.
    ChannelFull(TypeId),
    /// The channel of the message type is closed.
    ChannelClosed(TypeId),
}

/// The text that `{:?}` gives for a type identity.
pub uninterp spec fn debug_text_of_type_id(t: TypeId) -> Seq<char>;

/// Renders a type identity as `format!("{:?}", ..)` does; the text depends
/// on the identity alone.
#[verifier::external_body]
fn type_id_text(t: &TypeId) -> (s: String)
    ensures
        s@ == debug_text_of_type_id(*t),
{
    format!("{:?}", t)
}

/// The text of a publishing error.
pub open spec fn publish_error_text(e: PublishError) -> Seq<char> {
    match e {
        PublishError::TypeNotRegistered(t) => "Message type "@ + debug_text_of_type_id(t)
            + " not registered. Call register_message_type first."@,
        PublishError::ChannelFull(t) => "Channel at capacity for message type "@ + debug_text_of_type_id(t),
        PublishError::ChannelClosed(t) => "Channel closed for message type "@ + debug_text_of_type_id(t),
    }
}

impl PublishError {
    /// The error's human-readable text.
    pub fn to_string(&self) -> (s: String)
        ensures
            s@ == publish_error_text(*self),
    {
        match self {
            PublishError::TypeNotRegistered(t) => {
                let mut s = String::from_str("Message type ");
                let id = type_id_text(t);
                s.append(id.as_str());
                s.append(" not registered. Call register_message_type first.");
                s
            },
            PublishError::ChannelFull(t) => {
                let mut s = String::from_str("Channel at capacity for message type ");
                let id = type_id_text(t);
                s.append(id.as_str());
                s
            },
            PublishError::ChannelClosed(t) => {
                let mut s = String::from_str("Channel closed for message type ");
                let id = type_id_text(t);
                s.append(id.as_str());
                s
            },
        }
    }
}

/// How handing a message to its channel ended.
pub enum SendOutcome {
    /// The message is queued.
    Sent,
    /// The channel is at capacity.
    Full,
    /// The channel's receiving end is closed.
    Closed,
}

/// How many messages a channel holds before publishing to it is refused.
pub const CHANNEL_CAPACITY: usize = 1000;

/// `tokio::sync::mpsc::Sender`, the sending end of a bounded channel,
/// carried as an opaque value.
#[verifier::external_type_specification]
#[verifier::external_body]
#[verifier::reject_recursive_types(T)]
pub struct ExSender<T>(Sender<T>);

/// `tokio::sync::mpsc::Receiver`, the receiving end of a bounded channel,
/// carried as an opaque value.
#[verifier::external_type_specification]
#[verifier::external_body]
#[verifier::reject_recursive_types(T)]
pub struct ExReceiver<T>(Receiver<T>);

/// A new channel holding up to `capacity` messages, from
/// `tokio::sync::mpsc::channel` (which panics on a capacity of zero, or of
/// more than its semaphore's maximum, `usize::MAX >> 3`).
/// Nothing is stated of the two ends.
#[verifier::external_body]
fn new_channel<T>(capacity: usize) -> (Sender<T>, Receiver<T>)
    requires
        0 < capacity <= usize::MAX / 8,
{
    tokio::sync::mpsc::channel(capacity)
}

/// Hands `value` to the channel of `sender` without waiting, from
/// `Sender::try_send`, and gives how that ended together with a ghost record
/// of the sending end and the value the call was made with. Whether the
/// value is queued depends on the channel, and is not stated.
#[verifier::external_body]
fn try_send_to<T>(sender: &Sender<T>, value: T) -> (r: (SendOutcome, Ghost<(Sender<T>, T)>))
    ensures
        r.1@ == (*sender, value),
{
    let handed = Ghost((*sender, value));
    let outcome = match sender.try_send(value) {
        Ok(()) => SendOutcome::Sent,
        Err(tokio::sync::mpsc::error::TrySendError::Full(_)) => SendOutcome::Full,
        Err(tokio::sync::mpsc::error::TrySendError::Closed(_)) => SendOutcome::Closed,
    };
    (outcome, handed)
}

/// What publishing a message of type `t` answers, given how handing it to
/// its channel ended.
pub fn send_verdict(t: TypeId, outcome: SendOutcome) -> (r: core::result::Result<(), PublishError>)
    ensures
        outcome is Sent <==> r is Ok,
        outcome is Full ==> (r matches Err(PublishError::ChannelFull(u)) && u == t),
        outcome is Closed ==> (r matches Err(PublishError::ChannelClosed(u)) && u == t),
{
    match outcome {
        SendOutcome::Sent => Ok(()),
        SendOutcome::Full => Err(PublishError::ChannelFull(t)),
        SendOutcome::Closed => Err(PublishError::ChannelClosed(t)),
    }
}

/// The channel of one message type: its sending end, and its receiving end
/// until a dispatcher takes it.
#[verifier::reject_recursive_types(M)]
struct MessageChannel<M> {
    sender: Sender<MessageEnvelope<M>>,
    receiver: Option<Receiver<MessageEnvelope<M>>>,
    /// How many messages the channel was opened to hold.
    capacity: Ghost<nat>,
}

/// The standard control message.
#[derive(Clone, Debug)]
pub struct SystemMessage {
    pub source: String,
    /// The module the message is meant for, or `all`.
    pub target: String,
    pub content: String,
}

/// A message for the GUI module: text to show.
#[derive(Clone, Debug)]
pub struct GuiMessage {
    pub content: String,
}

/// What the bus knows.
#[verifier::ext_equal]
pub struct BusView {
    /// The registered message types.
    pub registered: Set<TypeId>,
    /// The registered message types whose channel's receiving end the bus
    /// still holds.
    pub receivers: Set<TypeId>,
    /// For each message type, the names of the subscribed modules, in the
    /// order in which they subscribed (a name appears once per
    /// subscription).
    pub subscribers: Map<TypeId, Seq<Seq<char>>>,
    /// For each module, the message types it subscribed to.
    pub module_subscriptions: Map<Seq<char>, Seq<TypeId>>,
    /// The number the next published message gets.
    pub next_sequence: u64,
}

impl BusView {
    /// Every subscription is recorded on the module's side too.
    pub open spec fn consistent(self) -> bool {
        forall|t: TypeId, i: int|
            #![trigger self.subscribers[t][i]]
            self.subscribers.contains_key(t) && 0 <= i < self.subscribers[t].len()
                ==> self.module_subscriptions.contains_key(self.subscribers[t][i])
                && self.module_subscriptions[self.subscribers[t][i]].contains(t)
    }

    /// The modules subscribed to `t`.
    pub open spec fn subscribers_of(self, t: TypeId) -> Seq<Seq<char>> {
        if self.subscribers.contains_key(t) {
            self.subscribers[t]
        } else {
            Seq::empty()
        }
    }

    /// The types `name` subscribed to.
    pub open spec fn subscriptions_of(self, name: Seq<char>) -> Seq<TypeId> {
        if self.module_subscriptions.contains_key(name) {
            self.module_subscriptions[name]
        } else {
            Seq::empty()
        }
    }

    /// The bus once the module `name` subscribes to `t` (once more).
    pub open spec fn with_subscription(self, t: TypeId, name: Seq<char>) -> BusView {
        BusView {
            subscribers: self.subscribers.insert(t, self.subscribers_of(t).push(name)),
            module_subscriptions: self.module_subscriptions.insert(name, self.subscriptions_of(name).push(t)),
            ..self
        }
    }

    /// The bus once the module `name` is taken off the subscribers of `t`.
    pub open spec fn without_subscription(self, t: TypeId, name: Seq<char>) -> BusView {
        BusView {
            subscribers: if self.subscribers.contains_key(t) {
                self.subscribers.insert(t, without_name(self.subscribers[t], name))
            } else {
                self.subscribers
            },
            module_subscriptions: if self.module_subscriptions.contains_key(name) {
                self.module_subscriptions.insert(name, without_type(self.module_subscriptions[name], t))
            } else {
                self.module_subscriptions
            },
            ..self
        }
    }

    /// The bus once the module `name` is taken off every type it subscribed
    /// to and its subscriptions are forgotten; subscriber lists left empty
    /// go (when it had subscriptions to clean).
    pub open spec fn without_module(self, name: Seq<char>) -> BusView {
        BusView {
            subscribers: if self.subscriptions_of(name).len() == 0 {
                self.subscribers
            } else {
                cleaned_subscribers(self.subscribers, self.subscriptions_of(name), name)
            },
            module_subscriptions: self.module_subscriptions.remove(name),
            ..self
        }
    }
}

/// Whether a name differs from `name`.
pub open spec fn other_name(name: Seq<char>) -> spec_fn(Seq<char>) -> bool {
    |s: Seq<char>| s != name
}

/// Whether a type differs from `t`.
pub open spec fn other_type(t: TypeId) -> spec_fn(TypeId) -> bool {
    |u: TypeId| u != t
}

/// The names in `names` other than `name`, in order.
pub open spec fn without_name(names: Seq<Seq<char>>, name: Seq<char>) -> Seq<Seq<char>> {
    names.filter(other_name(name))
}

/// The types in `types` other than `t`, in order.
pub open spec fn without_type(types: Seq<TypeId>, t: TypeId) -> Seq<TypeId> {
    types.filter(other_type(t))
}

/// What a filter keeps: exactly the elements that satisfy the predicate; it
/// is shorter exactly when some element fails it, and the same sequence
/// when none does.
pub proof fn lemma_filter_facts<A>(s: Seq<A>, p: spec_fn(A) -> bool)
    ensures
        forall|x: A| #[trigger] s.filter(p).contains(x) <==> (s.contains(x) && p(x)),
        s.filter(p).len() <= s.len(),
        (s.filter(p).len() == s.len()) <==> (forall|i: int| 0 <= i < s.len() ==> p(#[trigger] s[i])),
        (forall|i: int| 0 <= i < s.len() ==> p(#[trigger] s[i])) ==> s.filter(p) == s,
    decreases s.len(),
{
    if s.len() == 0 {
        reveal(Seq::filter);
        assert(s.filter(p) =~= s);
    } else {
        let r = s.drop_last();
        let x0 = s.last();
        lemma_filter_facts(r, p);
        assert(r.push(x0) =~= s);
        r.lemma_filter_push(x0, p);
        assert forall|x: A| #[trigger] s.filter(p).contains(x) <==> (s.contains(x) && p(x)) by {
            if s.filter(p).contains(x) {
                if p(x0) {
                    let k = choose|k: int| 0 <= k < s.filter(p).len() && s.filter(p)[k] == x;
                    if k < r.filter(p).len() {
                        assert(r.filter(p)[k] == x);
                        assert(r.filter(p).contains(x));
                    }
                } else {
                    assert(r.filter(p).contains(x));
                }
                if r.contains(x) {
                    let k = choose|k: int| 0 <= k < r.len() && r[k] == x;
                    assert(s[k] == x);
                }
            }
            if s.contains(x) && p(x) {
                let k = choose|k: int| 0 <= k < s.len() && s[k] == x;
                if k < r.len() {
                    assert(r[k] == x);
                    assert(r.filter(p).contains(x));
                    let m = choose|m: int| 0 <= m < r.filter(p).len() && r.filter(p)[m] == x;
                    assert(s.filter(p)[m] == x);
                } else {
                    assert(s.filter(p)[s.filter(p).len() - 1] == x);
                }
            }
        }
        if forall|i: int| 0 <= i < s.len() ==> p(#[trigger] s[i]) {
            assert forall|i: int| 0 <= i < r.len() implies p(#[trigger] r[i]) by {
                assert(s[i] == r[i]);
            }
            assert(p(s[s.len() - 1]));
        }
        if s.filter(p).len() == s.len() {
            if !p(x0) {
                assert(false);
            }
            assert forall|i: int| 0 <= i < s.len() implies p(#[trigger] s[i]) by {
                if i < r.len() {
                    assert(r[i] == s[i]);
                    assert(p(r[i]));
                }
            }
        }
    }
}

/// What `unsubscribe_all` leaves of the subscriber lists: the module `name`
/// is taken off the lists of the types in `types`, and lists left empty go.
pub open spec fn cleaned_subscribers(
    subs: Map<TypeId, Seq<Seq<char>>>,
    types: Seq<TypeId>,
    name: Seq<char>,
) -> Map<TypeId, Seq<Seq<char>>> {
    Map::new(
        |t: TypeId| subs.contains_key(t) && cleaned_list(subs, types, name, t).len() > 0,
        |t: TypeId| cleaned_list(subs, types, name, t),
    )
}

/// The subscriber list of `t` once `name` is taken off it, where `t` is one
/// of `types`.
pub open spec fn cleaned_list(
    subs: Map<TypeId, Seq<Seq<char>>>,
    types: Seq<TypeId>,
    name: Seq<char>,
    t: TypeId,
) -> Seq<Seq<char>> {
    if types.contains(t) {
        without_name(subs[t], name)
    } else {
        subs[t]
    }
}

/// Consistency depends only on the subscriptions.
proof fn lemma_consistent_same(a: BusView, b: BusView)
    requires
        a.consistent(),
        b.subscribers == a.subscribers,
        b.module_subscriptions == a.module_subscriptions,
    ensures
        b.consistent(),
{
    assert forall|t: TypeId, i: int|
        #![trigger b.subscribers[t][i]]
        b.subscribers.contains_key(t) && 0 <= i < b.subscribers[t].len()
            implies b.module_subscriptions.contains_key(b.subscribers[t][i])
            && b.module_subscriptions[b.subscribers[t][i]].contains(t) by {
        assert(a.subscribers[t][i] == b.subscribers[t][i]);
    }
}

/// Unsubscribing undoes subscribing: for a module not subscribed to `t`,
/// subscribing it and then unsubscribing it leaves every type's
/// subscribers and every module's subscriptions as they were.
pub proof fn lemma_unsubscribe_undoes_subscribe(v: BusView, t: TypeId, name: Seq<char>)
    requires
        !v.subscribers_of(t).contains(name),
        !v.subscriptions_of(name).contains(t),
    ensures
        forall|u: TypeId| #[trigger] v.with_subscription(t, name).without_subscription(t, name).subscribers_of(u)
            == v.subscribers_of(u),
        forall|n: Seq<char>|
            #[trigger] v.with_subscription(t, name).without_subscription(t, name).subscriptions_of(n)
                == v.subscriptions_of(n),
        v.with_subscription(t, name).without_subscription(t, name).registered == v.registered,
        v.with_subscription(t, name).without_subscription(t, name).receivers == v.receivers,
        v.with_subscription(t, name).without_subscription(t, name).next_sequence == v.next_sequence,
{
    let w = v.with_subscription(t, name);
    let x = w.without_subscription(t, name);
    let old_names = v.subscribers_of(t);
    let old_types = v.subscriptions_of(name);
    old_names.lemma_filter_push(name, other_name(name));
    lemma_filter_facts(old_names, other_name(name));
    assert forall|k: int| 0 <= k < old_names.len() implies other_name(name)(#[trigger] old_names[k]) by {
        assert(old_names.contains(old_names[k]));
    }
    assert(x.subscribers_of(t) == old_names);
    old_types.lemma_filter_push(t, other_type(t));
    lemma_filter_facts(old_types, other_type(t));
    assert forall|k: int| 0 <= k < old_types.len() implies other_type(t)(#[trigger] old_types[k]) by {
        assert(old_types.contains(old_types[k]));
    }
    assert(x.subscriptions_of(name) == old_types);
    assert forall|u: TypeId| #[trigger] x.subscribers_of(u) == v.subscribers_of(u) by {
        if u != t {
            assert(x.subscribers_of(u) == v.subscribers_of(u));
        }
    }
    assert forall|n: Seq<char>| #[trigger] x.subscriptions_of(n) == v.subscriptions_of(n) by {
        if n != name {
            assert(x.subscriptions_of(n) == v.subscriptions_of(n));
        }
    }
}

/// Once a module is unsubscribed from everything, no message type lists it
/// among its subscribers, it has no subscriptions left, and every other
/// module keeps its subscriptions.
pub proof fn lemma_without_module_forgets(v: BusView, name: Seq<char>)
    requires
        v.consistent(),
    ensures
        forall|t: TypeId| !(#[trigger] v.without_module(name).subscribers_of(t)).contains(name),
        v.without_module(name).subscriptions_of(name).len() == 0,
        forall|other: Seq<char>|
            other != name ==> #[trigger] v.without_module(name).subscriptions_of(other)
                == v.subscriptions_of(other),
{
    let w = v.without_module(name);
    let types = v.subscriptions_of(name);
    assert forall|t: TypeId| !(#[trigger] w.subscribers_of(t)).contains(name) by {
        if w.subscribers_of(t).contains(name) {
            let k = choose|k: int| 0 <= k < w.subscribers_of(t).len() && w.subscribers_of(t)[k] == name;
            assert(w.subscribers.contains_key(t));
            assert(v.subscribers.contains_key(t));
            if types.len() > 0 && types.contains(t) {
                lemma_filter_facts(v.subscribers[t], other_name(name));
                assert(without_name(v.subscribers[t], name).contains(name));
                assert(!other_name(name)(name));
            } else {
                assert(w.subscribers[t] == v.subscribers[t]);
                assert(v.subscribers[t][k] == name);
                assert(v.module_subscriptions.contains_key(name) && v.module_subscriptions[name].contains(t));
                assert(types.contains(t));
            }
        }
    }
}

/// The names of `s` in order, each kept at its first occurrence only.
pub open spec fn first_occurrences(s: Seq<Seq<char>>) -> Seq<Seq<char>>
    decreases s.len(),
{
    if s.len() == 0 {
        Seq::empty()
    } else if s.drop_last().contains(s.last()) {
        first_occurrences(s.drop_last())
    } else {
        first_occurrences(s.drop_last()).push(s.last())
    }
}

/// Keeping first occurrences keeps every name once, and no other name.
pub proof fn lemma_first_occurrences(s: Seq<Seq<char>>)
    ensures
        first_occurrences(s).no_duplicates(),
        forall|x: Seq<char>| #[trigger] first_occurrences(s).contains(x) <==> s.contains(x),
    decreases s.len(),
{
    if s.len() > 0 {
        let init = s.drop_last();
        lemma_first_occurrences(init);
        assert forall|x: Seq<char>| #[trigger] s.contains(x) <==> (init.contains(x) || x == s.last()) by {
            if s.contains(x) {
                let k = choose|k: int| 0 <= k < s.len() && s[k] == x;
                if k < init.len() {
                    assert(init[k] == x);
                }
            }
            if init.contains(x) {
                let k = choose|k: int| 0 <= k < init.len() && init[k] == x;
                assert(s[k] == x);
            }
            if x == s.last() {
                assert(s[s.len() - 1] == x);
            }
        }
        if !init.contains(s.last()) {
            let f = first_occurrences(init);
            assert forall|x: Seq<char>| #[trigger] f.push(s.last()).contains(x) <==> (f.contains(x) || x == s.last()) by {
                if f.push(s.last()).contains(x) {
                    let k = choose|k: int| 0 <= k < f.push(s.last()).len() && f.push(s.last())[k] == x;
                    if k < f.len() {
                        assert(f[k] == x);
                    }
                }
                if f.contains(x) {
                    let k = choose|k: int| 0 <= k < f.len() && f[k] == x;
                    assert(f.push(s.last())[k] == x);
                }
                if x == s.last() {
                    assert(f.push(s.last())[f.len() as int] == x);
                }
            }
            assert(!f.contains(s.last()));
        }
    }
}

/// A message bus whose messages are `M`.
#[verifier::reject_recursive_types(M)]
pub struct MessageBus<M> {
    channels: Table<TypeId, MessageChannel<M>>,
    subscribers: Table<TypeId, Vec<String>>,
    module_subscriptions: Table<String, Vec<TypeId>>,
    sequence_counter: u64,
    /// Every envelope handed to a channel, with the sending end it was
    /// handed to.
    handed: Ghost<Seq<(Sender<MessageEnvelope<M>>, MessageEnvelope<M>)>>,
}

impl<M> View for MessageBus<M> {
    type V = BusView;

    closed spec fn view(&self) -> BusView {
        BusView {
            registered: self.channels.map().dom(),
            receivers: Set::new(
                |t: TypeId| self.channels.map().contains_key(t) && self.channels.map()[t].receiver is Some,
            ),
            subscribers: self.subscribers.map().map_values(|v: Vec<String>| texts(v@)),
            module_subscriptions: self.module_subscriptions.map().map_values(|v: Vec<TypeId>| v@),
            next_sequence: self.sequence_counter,
        }
    }
}

/// `v` without the strings equal to `name`, in order.
fn retain_other_names(v: &Vec<String>, name: &str) -> (r: Vec<String>)
    ensures
        texts(r@) == without_name(texts(v@), name@),
{
    let target = String::from_str(name);
    let mut r: Vec<String> = Vec::new();
    let mut i: usize = 0;
    while i < v.len()
        invariant
            i <= v.len(),
            target@ == name@,
            texts(r@) == without_name(texts(v@.subrange(0, i as int)), name@),
        decreases v.len() - i,
    {
        let ghost before = r@;
        proof {
            assert(texts(v@.subrange(0, i + 1)) =~= texts(v@.subrange(0, i as int)).push(v@[i as int]@));
            texts(v@.subrange(0, i as int)).lemma_filter_push(v@[i as int]@, other_name(name@));
        }
        if v[i] != target {
            r.push(v[i].clone());
            assert(texts(r@) =~= texts(before).push(v@[i as int]@));
        }
        i = i + 1;
    }
    assert(v@.subrange(0, v.len() as int) == v@);
    r
}

/// `v` without the types equal to `t`, in order.
fn retain_other_types(v: &Vec<TypeId>, t: &TypeId) -> (r: Vec<TypeId>)
    ensures
        r@ == without_type(v@, *t),
{
    let mut r: Vec<TypeId> = Vec::new();
    let mut i: usize = 0;
    while i < v.len()
        invariant
            i <= v.len(),
            r@ == without_type(v@.subrange(0, i as int), *t),
        decreases v.len() - i,
    {
        proof {
            assert(v@.subrange(0, i + 1) =~= v@.subrange(0, i as int).push(v@[i as int]));
            v@.subrange(0, i as int).lemma_filter_push(v@[i as int], other_type(*t));
        }
        if !v[i].same_key(t) {
            r.push(v[i]);
        }
        i = i + 1;
    }
    assert(v@.subrange(0, v.len() as int) == v@);
    r
}

/// A copy of a vector of strings.
fn copy_names(v: &Vec<String>) -> (r: Vec<String>)
    ensures
        texts(r@) == texts(v@),
{
    crate::plugin::clone_strings(v)
}

impl<M> MessageBus<M> {
    /// The sending end of the channel of `t`, when `t` is registered.
    pub closed spec fn stored_sender(&self, t: TypeId) -> Option<Sender<MessageEnvelope<M>>> {
        if self.channels.map().contains_key(t) {
            Some(self.channels.map()[t].sender)
        } else {
            None
        }
    }

    /// How many messages the channel of `t` was opened to hold.
    pub closed spec fn channel_capacity(&self, t: TypeId) -> nat {
        self.channels.map()[t].capacity@
    }

    /// Every envelope handed to a channel so far, in order, with the sending
    /// end it was handed to.
    pub closed spec fn handed(&self) -> Seq<(Sender<MessageEnvelope<M>>, MessageEnvelope<M>)> {
        self.handed@
    }

    /// Every registered type keeps the channel it had (and its capacity).
    pub open spec fn channels_kept(&self, before: &Self) -> bool {
        forall|u: TypeId|
            #[trigger] self.stored_sender(u) == before.stored_sender(u)
                && self.channel_capacity(u) == before.channel_capacity(u)
    }

    /// The receiving end of the channel of `t` that the bus still holds.
    pub closed spec fn stored_receiver(&self, t: TypeId) -> Option<Receiver<MessageEnvelope<M>>> {
        if self.channels.map().contains_key(t) {
            self.channels.map()[t].receiver
        } else {
            None
        }
    }

    pub closed spec fn wf(&self) -> bool {
        &&& self.channels.wf()
        &&& self.subscribers.wf()
        &&& self.module_subscriptions.wf()
        &&& self@.consistent()
    }

    /// A well-formed bus records every subscription on both sides.
    pub proof fn lemma_consistent(&self)
        requires
            self.wf(),
        ensures
            self@.consistent(),
    {
    }

    /// A bus with no types, no subscriptions, numbering from zero.
    pub fn new() -> (b: Self)
        ensures
            b.wf(),
            b@.registered == Set::<TypeId>::empty(),
            b@.receivers == Set::<TypeId>::empty(),
            b@.subscribers == Map::<TypeId, Seq<Seq<char>>>::empty(),
            b@.module_subscriptions == Map::<Seq<char>, Seq<TypeId>>::empty(),
            b@.next_sequence == 0,
            b.handed() == Seq::<(Sender<MessageEnvelope<M>>, MessageEnvelope<M>)>::empty(),
    {
        let b = MessageBus {
            channels: Table::new(),
            subscribers: Table::new(),
            module_subscriptions: Table::new(),
            sequence_counter: 0,
            handed: Ghost(Seq::empty()),
        };
        assert(b@.registered =~= Set::<TypeId>::empty());
        assert(b@.receivers =~= Set::<TypeId>::empty());
        assert(b@.subscribers =~= Map::<TypeId, Seq<Seq<char>>>::empty());
        assert(b@.module_subscriptions =~= Map::<Seq<char>, Seq<TypeId>>::empty());
        b
    }

    /// Registers the message type `t`, opening its channel; registering it
    /// again changes nothing. Says whether `t` is newly registered (its
    /// dispatcher is then to be started with the channel's receiving end).
    pub fn register_message_type(&mut self, t: TypeId) -> (newly: bool)
        requires
            old(self).wf(),
        ensures
            final(self).wf(),
            newly == !old(self)@.registered.contains(t),
            newly ==> final(self)@ == (BusView {
                registered: old(self)@.registered.insert(t),
                receivers: old(self)@.receivers.insert(t),
                ..old(self)@
            }),
            !newly ==> final(self)@ == old(self)@,
            !newly ==> final(self).channels_kept(old(self)),
            newly ==> {
                &&& final(self).stored_sender(t) is Some
                &&& final(self).channel_capacity(t) == CHANNEL_CAPACITY
                &&& forall|u: TypeId| u != t ==> #[trigger] final(self).stored_sender(u) == old(self).stored_sender(u)
                    && final(self).channel_capacity(u) == old(self).channel_capacity(u)
            },
            final(self).handed() == old(self).handed(),
    {
        let ghost v = self@;
        if self.channels.contains(&t) {
            return false;
        }
        let (sender, receiver) = new_channel(CHANNEL_CAPACITY);
        self.channels.insert(t, MessageChannel { sender, receiver: Some(receiver), capacity: Ghost(CHANNEL_CAPACITY as nat) });
        assert(self@.registered =~= v.registered.insert(t));
        assert(self@.receivers =~= v.receivers.insert(t));
        proof {
            lemma_consistent_same(v, self@);
        }
        assert(self@ =~= (BusView { registered: v.registered.insert(t), receivers: v.receivers.insert(t), ..v }));
        true
    }

    /// Whether the message type `t` is registered.
    pub fn is_registered(&self, t: TypeId) -> (b: bool)
        requires
            self.wf(),
        ensures
            b == self@.registered.contains(t),
    {
        self.channels.contains(&t)
    }

    /// Takes the receiving end of the channel of `t`, for its dispatcher;
    /// `None` when `t` is not registered or the end was taken before.
    pub fn take_receiver(&mut self, t: TypeId) -> (r: Option<Receiver<MessageEnvelope<M>>>)
        requires
            old(self).wf(),
        ensures
            final(self).wf(),
            r is Some <==> old(self)@.receivers.contains(t),
            r matches Some(x) ==> old(self).stored_receiver(t) == Some(x),
            final(self).stored_receiver(t) is None,
            final(self)@ == (BusView { receivers: old(self)@.receivers.remove(t), ..old(self)@ }),
            final(self).channels_kept(old(self)),
            final(self).handed() == old(self).handed(),
    {
        let ghost v = self@;
        match self.channels.remove(&t) {
            Some(channel) => {
                let MessageChannel { sender, receiver, capacity } = channel;
                self.channels.insert(t, MessageChannel { sender, receiver: None, capacity });
                assert(self@.registered =~= v.registered);
                assert(self@.receivers =~= v.receivers.remove(t));
                proof {
                    lemma_consistent_same(v, self@);
                }
                assert(self@ =~= (BusView { receivers: v.receivers.remove(t), ..v }));
                receiver
            },
            None => {
                assert(self.channels.map() =~= old(self).channels.map());
                assert(v.receivers.remove(t) =~= v.receivers);
                None
            },
        }
    }

    /// The envelope of the next message, `message` of type `t`: it gets the
    /// current number, and the count moves on (wrapping around).
    fn number_message(&mut self, t: TypeId, message: M) -> (e: MessageEnvelope<M>)
        requires
            old(self).wf(),
        ensures
            final(self).wf(),
            e.message_type == t,
            *e.payload == message,
            e.sequence == old(self)@.next_sequence,
            final(self).channels == old(self).channels,
            final(self).handed() == old(self).handed(),
            final(self)@ == (BusView {
                next_sequence: if old(self)@.next_sequence == u64::MAX {
                    0
                } else {
                    (old(self)@.next_sequence + 1) as u64
                },
                ..old(self)@
            }),
    {
        let ghost v = self@;
        let sequence = self.sequence_counter;
        self.sequence_counter = if sequence == u64::MAX {
            0
        } else {
            sequence + 1
        };
        proof {
            lemma_consistent_same(v, self@);
        }
        MessageEnvelope::new(message, t, sequence)
    }

    /// Publishes `message` of type `t`: it is numbered and handed to the
    /// channel of `t` without waiting (`handed` records the envelope and the
    /// sending end). A type that is not registered is
    /// refused and nothing changes; otherwise the message takes a number
    /// whether or not the channel accepts it, and a full or closed channel
    /// is reported.
    pub fn publish(&mut self, t: TypeId, message: M) -> (r: core::result::Result<(), PublishError>)
        requires
            old(self).wf(),
        ensures
            final(self).wf(),
            final(self).channels_kept(old(self)),
            !old(self)@.registered.contains(t) ==> {
                &&& r matches Err(PublishError::TypeNotRegistered(u)) && u == t
                &&& final(self)@ == old(self)@
                &&& final(self).handed() == old(self).handed()
            },
            old(self)@.registered.contains(t) ==> {
                &&& final(self).handed().len() == old(self).handed().len() + 1
                &&& final(self).handed().drop_last() == old(self).handed()
                &&& old(self).stored_sender(t) == Some(final(self).handed().last().0)
                &&& final(self).handed().last().1.message_type == t
                &&& *final(self).handed().last().1.payload == message
                &&& final(self).handed().last().1.sequence == old(self)@.next_sequence
                &&& (r is Ok || (r matches Err(PublishError::ChannelFull(u)) && u == t)
                    || (r matches Err(PublishError::ChannelClosed(u)) && u == t))
                &&& final(self)@ == (BusView {
                    next_sequence: if old(self)@.next_sequence == u64::MAX {
                        0
                    } else {
                        (old(self)@.next_sequence + 1) as u64
                    },
                    ..old(self)@
                })
            },
    {
        if !self.channels.contains(&t) {
            return Err(PublishError::TypeNotRegistered(t));
        }
        let envelope = self.number_message(t, message);
        let channel = self.channels.get(&t).unwrap();
        let (outcome, handed) = try_send_to(&channel.sender, envelope);
        proof {
            self.handed@ = self.handed@.push(handed@);
        }
        send_verdict(t, outcome)
    }

    /// Subscribes the module `module_name` to the message type `t`. A module
    /// may subscribe more than once; each subscription is listed.
    pub fn subscribe(&mut self, t: TypeId, module_name: String)
        requires
            old(self).wf(),
        ensures
            final(self).wf(),
            final(self)@ == old(self)@.with_subscription(t, module_name@),
            final(self).channels_kept(old(self)),
            final(self).handed() == old(self).handed(),
    {
        let ghost v = self@;
        let mut names = match self.subscribers.remove(&t) {
            Some(list) => list,
            None => Vec::new(),
        };
        assert(texts(names@) == v.subscribers_of(t));
        let ghost before_names = names@;
        names.push(module_name.clone());
        assert(texts(names@) =~= v.subscribers_of(t).push(module_name@)) by {
            assert(texts(names@) =~= texts(before_names).push(module_name@));
        }
        self.subscribers.insert(t, names);
        let mut types = match self.module_subscriptions.remove(&module_name) {
            Some(list) => list,
            None => Vec::new(),
        };
        assert(types@ == v.subscriptions_of(module_name@));
        types.push(t);
        self.module_subscriptions.insert(module_name, types);
        proof {
            let w = BusView {
                subscribers: v.subscribers.insert(t, v.subscribers_of(t).push(module_name@)),
                module_subscriptions: v.module_subscriptions.insert(
                    module_name@,
                    v.subscriptions_of(module_name@).push(t),
                ),
                ..v
            };
            assert(self@.subscribers =~= w.subscribers);
            assert(self@.module_subscriptions =~= w.module_subscriptions);
            assert(self@ =~= w);
            assert forall|u: TypeId, i: int|
                #![trigger w.subscribers[u][i]]
                w.subscribers.contains_key(u) && 0 <= i < w.subscribers[u].len()
                    implies w.module_subscriptions.contains_key(w.subscribers[u][i])
                    && w.module_subscriptions[w.subscribers[u][i]].contains(u) by {
                let nm = w.subscribers[u][i];
                if u == t && i == w.subscribers[u].len() - 1 {
                    assert(nm == module_name@);
                    let l = v.subscriptions_of(module_name@).push(t);
                    assert(l[l.len() - 1] == t);
                } else {
                    assert(v.subscribers.contains_key(u));
                    assert(v.subscribers[u][i] == nm);
                    assert(v.module_subscriptions.contains_key(nm) && v.module_subscriptions[nm].contains(u));
                    if nm == module_name@ {
                        let old_list = v.module_subscriptions[nm];
                        let k = choose|k: int| 0 <= k < old_list.len() && old_list[k] == u;
                        assert(old_list.push(t)[k] == u);
                    }
                }
            }
        }
    }

    /// Takes the module `module_name` off the subscribers of the message
    /// type `t`. Says whether it was subscribed.
    pub fn unsubscribe(&mut self, t: TypeId, module_name: &str) -> (removed: bool)
        requires
            old(self).wf(),
        ensures
            final(self).wf(),
            removed == old(self)@.subscribers_of(t).contains(module_name@),
            final(self)@ == old(self)@.without_subscription(t, module_name@),
            final(self).channels_kept(old(self)),
            final(self).handed() == old(self).handed(),
    {
        let ghost v = self@;
        let ghost nm = module_name@;
        let removed = match self.subscribers.remove(&t) {
            Some(list) => {
                let kept = retain_other_names(&list, module_name);
                let removed = kept.len() != list.len();
                proof {
                    lemma_filter_facts(texts(list@), other_name(nm));
                    if texts(list@).contains(nm) {
                        let k = choose|k: int| 0 <= k < texts(list@).len() && texts(list@)[k] == nm;
                        assert(!other_name(nm)(texts(list@)[k]));
                    } else {
                        assert forall|i: int| 0 <= i < texts(list@).len() implies other_name(nm)(
                            #[trigger] texts(list@)[i],
                        ) by {
                            assert(texts(list@).contains(texts(list@)[i]));
                        }
                    }
                }
                self.subscribers.insert(t, kept);
                removed
            },
            None => {
                assert(self.subscribers.map() =~= old(self).subscribers.map());
                false
            },
        };
        let mname = String::from_str(module_name);
        match self.module_subscriptions.remove(&mname) {
            Some(list) => {
                let kept = retain_other_types(&list, &t);
                self.module_subscriptions.insert(mname, kept);
            },
            None => {
                assert(self.module_subscriptions.map() =~= old(self).module_subscriptions.map());
            },
        }
        proof {
            let w = BusView {
                subscribers: if v.subscribers.contains_key(t) {
                    v.subscribers.insert(t, without_name(v.subscribers[t], nm))
                } else {
                    v.subscribers
                },
                module_subscriptions: if v.module_subscriptions.contains_key(nm) {
                    v.module_subscriptions.insert(nm, without_type(v.module_subscriptions[nm], t))
                } else {
                    v.module_subscriptions
                },
                ..v
            };
            assert(self@.subscribers =~= w.subscribers);
            assert(self@.module_subscriptions =~= w.module_subscriptions);
            assert(self@ =~= w);
            assert forall|u: TypeId, i: int|
                #![trigger w.subscribers[u][i]]
                w.subscribers.contains_key(u) && 0 <= i < w.subscribers[u].len()
                    implies w.module_subscriptions.contains_key(w.subscribers[u][i])
                    && w.module_subscriptions[w.subscribers[u][i]].contains(u) by {
                let x = w.subscribers[u][i];
                assert(v.subscribers.contains_key(u));
                if u == t {
                    lemma_filter_facts(v.subscribers[t], other_name(nm));
                    assert(w.subscribers[u].contains(x));
                    assert(v.subscribers[t].contains(x) && x != nm);
                    let k = choose|k: int| 0 <= k < v.subscribers[t].len() && v.subscribers[t][k] == x;
                    assert(v.subscribers[u][k] == x);
                } else {
                    assert(v.subscribers[u][i] == x);
                    if x == nm {
                        lemma_filter_facts(v.module_subscriptions[nm], other_type(t));
                        assert(v.module_subscriptions[nm].contains(u));
                        assert(w.module_subscriptions[nm].contains(u));
                    }
                }
            }
        }
        removed
    }

    /// Takes the module `module_name` off every message type it subscribed
    /// to, and forgets its subscriptions; subscriber lists left empty go.
    pub fn unsubscribe_all(&mut self, module_name: &str)
        requires
            old(self).wf(),
        ensures
            final(self).wf(),
            final(self)@ == old(self)@.without_module(module_name@),
            final(self).channels_kept(old(self)),
            final(self).handed() == old(self).handed(),
    {
        let ghost v = self@;
        let ghost nm = module_name@;
        let mname = String::from_str(module_name);
        let types = match self.module_subscriptions.remove(&mname) {
            Some(list) => list,
            None => Vec::new(),
        };
        assert(types@ == v.subscriptions_of(nm));
        assert(self@.module_subscriptions =~= v.module_subscriptions.remove(nm));
        if types.len() == 0 {
            proof {
                assert(self@ =~= (BusView {
                    module_subscriptions: v.module_subscriptions.remove(nm),
                    ..v
                }));
                assert forall|t: TypeId, i: int|
                    #![trigger self@.subscribers[t][i]]
                    self@.subscribers.contains_key(t) && 0 <= i < self@.subscribers[t].len()
                        implies self@.module_subscriptions.contains_key(self@.subscribers[t][i])
                        && self@.module_subscriptions[self@.subscribers[t][i]].contains(t) by {
                    let x = v.subscribers[t][i];
                    assert(v.module_subscriptions.contains_key(x) && v.module_subscriptions[x].contains(t));
                    if x == nm {
                        assert(v.subscriptions_of(nm).contains(t));
                    }
                }
            }
            return;
        }
        let mut i: usize = 0;
        while i < types.len()
            invariant
                i <= types.len(),
                types@ == v.subscriptions_of(nm),
                nm == module_name@,
                self.subscribers.wf(),
                self.channels.wf(),
                self.module_subscriptions.wf(),
                self@.registered == v.registered,
                self@.receivers == v.receivers,
                self@.module_subscriptions == v.module_subscriptions.remove(nm),
                self@.next_sequence == v.next_sequence,
                self.channels == old(self).channels,
                self.handed == old(self).handed,
                self@.subscribers == Map::new(
                    |t: TypeId| v.subscribers.contains_key(t),
                    |t: TypeId| cleaned_list(v.subscribers, types@.subrange(0, i as int), nm, t),
                ),
            decreases types.len() - i,
        {
            let t = types[i];
            let ghost before = self@.subscribers;
            let ghost before_tbl = self.subscribers.map();
            let ghost s1 = types@.subrange(0, i + 1);
            let ghost s0 = types@.subrange(0, i as int);
            proof {
                assert forall|u: TypeId| #[trigger] s1.contains(u) <==> (s0.contains(u) || u == t) by {
                    if s1.contains(u) {
                        let k = choose|k: int| 0 <= k < s1.len() && s1[k] == u;
                        if k < i {
                            assert(s0[k] == u);
                        }
                    }
                    if s0.contains(u) {
                        let k = choose|k: int| 0 <= k < s0.len() && s0[k] == u;
                        assert(s1[k] == u);
                    }
                    if u == t {
                        assert(s1[i as int] == u);
                    }
                }
            }
            let ghost next = Map::new(
                |u: TypeId| v.subscribers.contains_key(u),
                |u: TypeId| cleaned_list(v.subscribers, s1, nm, u),
            );
            match self.subscribers.remove(&t) {
                Some(list) => {
                    let kept = retain_other_names(&list, module_name);
                    let ghost kept_texts = texts(kept@);
                    self.subscribers.insert(t, kept);
                    proof {
                        assert(before.contains_key(t));
                        assert(texts(list@) == before[t]);
                        assert(self@.subscribers =~= before.insert(t, kept_texts));
                        assert(v.subscribers.contains_key(t));
                        lemma_filter_facts(v.subscribers[t], other_name(nm));
                        let once = without_name(v.subscribers[t], nm);
                        lemma_filter_facts(once, other_name(nm));
                        assert forall|k: int| 0 <= k < once.len() implies other_name(nm)(#[trigger] once[k]) by {
                            assert(once.contains(once[k]));
                        }
                        assert(without_name(once, nm) == once);
                        assert(before[t] == cleaned_list(v.subscribers, s0, nm, t));
                        assert(kept_texts == without_name(before[t], nm));
                        if s0.contains(t) {
                            assert(before[t] == once);
                        } else {
                            assert(before[t] == v.subscribers[t]);
                        }
                        assert(kept_texts == once);
                        assert forall|u: TypeId| next.contains_key(u) implies #[trigger] self@.subscribers[u] == next[u] by {
                            if u != t {
                                assert(before[u] == cleaned_list(v.subscribers, s0, nm, u));
                            }
                        }
                        assert(self@.subscribers =~= next);
                    }
                },
                None => {
                    proof {
                        assert(self.subscribers.map() =~= before_tbl);
                        assert(self@.subscribers =~= before);
                        assert(!before_tbl.contains_key(t));
                        assert(!before.contains_key(t));
                        assert(!v.subscribers.contains_key(t));
                        assert forall|u: TypeId| next.contains_key(u) implies #[trigger] self@.subscribers[u] == next[u] by {
                            assert(u != t);
                            assert(before[u] == cleaned_list(v.subscribers, s0, nm, u));
                        }
                        assert(self@.subscribers =~= next);
                    }
                },
            }
            i = i + 1;
        }
        let ghost mid = self@.subscribers;
        assert(types@.subrange(0, types.len() as int) == types@);
        let keys = self.subscribers.key_list();
        proof {
            self.subscribers.lemma_keys();
            assert(keys@.map_values(|k: TypeId| k.key_view()) =~= keys@);
        }
        let mut k: usize = 0;
        while k < keys.len()
            invariant
                k <= keys.len(),
                self.subscribers.wf(),
                self.channels.wf(),
                self.module_subscriptions.wf(),
                self@.registered == v.registered,
                self@.receivers == v.receivers,
                self@.module_subscriptions == v.module_subscriptions.remove(nm),
                self@.next_sequence == v.next_sequence,
                self.channels == old(self).channels,
                self.handed == old(self).handed,
                forall|u: TypeId| mid.contains_key(u) <==> keys@.contains(u),
                self@.subscribers == Map::new(
                    |u: TypeId| mid.contains_key(u) && !(keys@.subrange(0, k as int).contains(u) && mid[u].len() == 0),
                    |u: TypeId| mid[u],
                ),
            decreases keys.len() - k,
        {
            let key = keys[k];
            let ghost before = self@.subscribers;
            let ghost before_tbl = self.subscribers.map();
            let ghost s1 = keys@.subrange(0, k + 1);
            let ghost s0 = keys@.subrange(0, k as int);
            proof {
                assert forall|u: TypeId| #[trigger] s1.contains(u) <==> (s0.contains(u) || u == key) by {
                    if s1.contains(u) {
                        let m = choose|m: int| 0 <= m < s1.len() && s1[m] == u;
                        if m < k {
                            assert(s0[m] == u);
                        }
                    }
                    if s0.contains(u) {
                        let m = choose|m: int| 0 <= m < s0.len() && s0[m] == u;
                        assert(s1[m] == u);
                    }
                    if u == key {
                        assert(s1[k as int] == u);
                    }
                }
                assert(keys@.contains(key)) by {
                    assert(keys@[k as int] == key);
                }
            }
            let ghost next = Map::new(
                |u: TypeId| mid.contains_key(u) && !(s1.contains(u) && mid[u].len() == 0),
                |u: TypeId| mid[u],
            );
            let empty = match self.subscribers.get(&key) {
                Some(list) => {
                    proof {
                        assert(before.contains_key(key));
                        assert(texts(list@) == before[key]);
                        assert(before[key] == mid[key]);
                    }
                    list.len() == 0
                },
                None => false,
            };
            if empty {
                let _ = self.subscribers.remove(&key);
                proof {
                    assert(self@.subscribers =~= before.remove(key));
                    assert(mid[key].len() == 0);
                    assert forall|u: TypeId| #[trigger] next.contains_key(u) == self@.subscribers.contains_key(u) by {}
                    assert(self@.subscribers =~= next);
                }
            } else {
                proof {
                    assert(self.subscribers.map() =~= before_tbl);
                    assert(self@.subscribers =~= before);
                    if before_tbl.contains_key(key) {
                        assert(mid[key].len() != 0);
                    } else {
                        assert(!before.contains_key(key));
                        assert(!mid.contains_key(key) || (s0.contains(key) && mid[key].len() == 0));
                    }
                    assert forall|u: TypeId| #[trigger] next.contains_key(u) == self@.subscribers.contains_key(u) by {}
                    assert(self@.subscribers =~= next);
                }
            }
            k = k + 1;
        }
        proof {
            assert(keys@.subrange(0, keys.len() as int) == keys@);
            let c = cleaned_subscribers(v.subscribers, types@, nm);
            assert forall|u: TypeId| #[trigger] self@.subscribers.contains_key(u) == c.contains_key(u) by {
                if mid.contains_key(u) {
                    assert(keys@.contains(u));
                    assert(mid[u] == cleaned_list(v.subscribers, types@, nm, u));
                }
            }
            assert forall|u: TypeId| c.contains_key(u) implies #[trigger] self@.subscribers[u] == c[u] by {
                assert(mid[u] == cleaned_list(v.subscribers, types@, nm, u));
            }
            assert(self@.subscribers =~= c);
            assert(self@ =~= (BusView {
                subscribers: c,
                module_subscriptions: v.module_subscriptions.remove(nm),
                ..v
            }));
            assert forall|t: TypeId, j: int|
                #![trigger self@.subscribers[t][j]]
                self@.subscribers.contains_key(t) && 0 <= j < self@.subscribers[t].len()
                    implies self@.module_subscriptions.contains_key(self@.subscribers[t][j])
                    && self@.module_subscriptions[self@.subscribers[t][j]].contains(t) by {
                let x = self@.subscribers[t][j];
                if types@.contains(t) {
                    lemma_filter_facts(v.subscribers[t], other_name(nm));
                    assert(without_name(v.subscribers[t], nm).contains(x));
                    let m = choose|m: int| 0 <= m < v.subscribers[t].len() && v.subscribers[t][m] == x;
                    assert(v.module_subscriptions.contains_key(v.subscribers[t][m]));
                } else {
                    assert(v.subscribers[t][j] == x);
                    assert(v.module_subscriptions.contains_key(x) && v.module_subscriptions[x].contains(t));
                    if x == nm {
                        assert(v.subscriptions_of(nm).contains(t));
                    }
                }
            }
        }
    }

    /// The modules to deliver a message of type `t` to: its subscribers in
    /// the order of their first subscription, each once however often it
    /// subscribed.
    pub fn delivery_targets(&self, t: TypeId) -> (r: Vec<String>)
        requires
            self.wf(),
        ensures
            texts(r@) == first_occurrences(self@.subscribers_of(t)),
    {
        let all = self.get_subscribers(t);
        let ghost s = texts(all@);
        let mut r: Vec<String> = Vec::new();
        let mut i: usize = 0;
        while i < all.len()
            invariant
                i <= all.len(),
                s == texts(all@),
                texts(r@) == first_occurrences(s.subrange(0, i as int)),
            decreases all.len() - i,
        {
            let ghost prefix = s.subrange(0, i as int);
            proof {
                assert(s.subrange(0, i + 1).drop_last() =~= prefix);
                assert(s.subrange(0, i + 1).last() == all@[i as int]@);
                lemma_first_occurrences(prefix);
            }
            let seen = crate::plugin::contains_text(r.as_slice(), &all[i]);
            proof {
                if seen {
                    let k = choose|k: int| 0 <= k < r@.len() && #[trigger] r@[k]@ == all@[i as int]@;
                    assert(texts(r@)[k] == all@[i as int]@);
                    assert(texts(r@).contains(all@[i as int]@));
                    assert(prefix.contains(all@[i as int]@));
                } else {
                    assert forall|k: int| 0 <= k < texts(r@).len() implies texts(r@)[k] != all@[i as int]@ by {
                        assert(r@[k]@ == texts(r@)[k]);
                    }
                    assert(!texts(r@).contains(all@[i as int]@));
                    assert(!prefix.contains(all@[i as int]@));
                }
            }
            if !seen {
                let ghost before = r@;
                r.push(all[i].clone());
                assert(texts(r@) =~= texts(before).push(all@[i as int]@));
            }
            i = i + 1;
        }
        assert(s.subrange(0, all.len() as int) =~= s);
        r
    }

    /// The modules subscribed to the message type `t`, in the order in which
    /// they subscribed.
    pub fn get_subscribers(&self, t: TypeId) -> (r: Vec<String>)
        requires
            self.wf(),
        ensures
            texts(r@) == self@.subscribers_of(t),
    {
        match self.subscribers.get(&t) {
            Some(list) => copy_names(list),
            None => {
                let r: Vec<String> = Vec::new();
                assert(texts(r@) =~= Seq::<Seq<char>>::empty());
                r
            },
        }
    }

    /// The message types the module `module_name` is subscribed to.
    pub fn subscriptions(&self, module_name: &str) -> (r: Vec<TypeId>)
        requires
            self.wf(),
        ensures
            r@ == self@.subscriptions_of(module_name@),
    {
        let mname = String::from_str(module_name);
        match self.module_subscriptions.get(&mname) {
            Some(list) => {
                let mut r: Vec<TypeId> = Vec::new();
                let mut i: usize = 0;
                while i < list.len()
                    invariant
                        i <= list.len(),
                        r@ == list@.subrange(0, i as int),
                    decreases list.len() - i,
                {
                    r.push(list[i]);
                    assert(r@ =~= list@.subrange(0, i + 1));
                    i = i + 1;
                }
                assert(list@.subrange(0, list.len() as int) == list@);
                r
            },
            None => Vec::new(),
        }
    }
}

} // verus!
