//! The ring channel set and the sending and receiving of values over it.

use vstd::prelude::*;
use ciphercore_base::data_types::Type;
use ciphercore_base::data_values::Value;
use ciphercore_base::typed_value::TypedValue;
use std::sync::mpsc::{Receiver, Sender};
use crate::exchange::{lemma_receive_count_init, lemma_receive_count_sides, receive_count, receive_sides, Step};
use crate::bindings::{
    decode_typed, encode_typed, json_of, linked, new_edge, receive_message, send_message,
    typed_from_json, with_type,
};
use crate::ring::{next_of, prev_of, spec_neighbor_for, valid_party, Neighbor};

verus! {

/// One message as a party's record keeps it: the neighbour on the other end
/// of the channel, and the text.
pub type Message = (Neighbor, Seq<char>);

/// A party's ends of the ring: a sender and a receiver towards the next
/// party, and a sender and a receiver towards the previous one; with a record
/// of every message written and taken through them.
pub struct Channels {
    tx_next: Sender<String>,
    rx_next: Receiver<String>,
    tx_prev: Sender<String>,
    rx_prev: Receiver<String>,
    sent: Ghost<Seq<Message>>,
    received: Ghost<Seq<Message>>,
}

/// Why a channel operation failed.
#[derive(Clone, Copy, Debug, PartialEq, Eq, Structural)]
pub enum TransportError {
    /// The other end of a channel is gone.
    Disconnected,
    /// The value could not be written as text.
    Encode,
    /// The text that arrived is not a value.
    Decode,
}

/// The text that carries value `v` of type `t` over a channel.
pub open spec fn wire_text(t: Type, v: Value) -> Seq<char> {
    json_of(TypedValue { value: v, t: t, name: None })
}

/// The value that a text carries.
pub open spec fn wire_value(s: Seq<char>) -> Value {
    typed_from_json(s).value
}

/// The texts of a run of messages.
pub open spec fn texts_of(ms: Seq<Message>) -> Seq<Seq<char>> {
    ms.map_values(|m: Message| m.1)
}

/// The neighbours of a run of messages.
pub open spec fn sides_of(ms: Seq<Message>) -> Seq<Neighbor> {
    ms.map_values(|m: Message| m.0)
}

/// The value a party holds after the steps of `plan`, starting from `start`,
/// when its receives took the texts `texts` in order: the last text received,
/// decoded, or `start` when the plan receives nothing.
pub open spec fn held_after(plan: Seq<Step>, start: Value, texts: Seq<Seq<char>>) -> Value
    decreases plan.len(),
{
    if plan.len() == 0 {
        start
    } else {
        match plan.last() {
            Step::SendTo(_) => held_after(plan.drop_last(), start, texts),
            Step::ReceiveFrom(_) => wire_value(texts[receive_count(plan.drop_last()) as int]),
        }
    }
}

/// The messages a party writes for the steps of `plan`, starting from
/// `start`, when its receives took the texts `texts` in order: for each send,
/// in order, its neighbour and the text of the value then held.
pub open spec fn sent_by(plan: Seq<Step>, t: Type, start: Value, texts: Seq<Seq<char>>) -> Seq<
    Message,
>
    decreases plan.len(),
{
    if plan.len() == 0 {
        Seq::empty()
    } else {
        match plan.last() {
            Step::SendTo(n) => sent_by(plan.drop_last(), t, start, texts).push(
                (n, wire_text(t, held_after(plan.drop_last(), start, texts))),
            ),
            Step::ReceiveFrom(_) => sent_by(plan.drop_last(), t, start, texts),
        }
    }
}

/// A run of `plan` from `start` took the bundle from `before` to `after` and
/// left the party holding `v`: the messages taken are one per receive of the
/// plan, from the neighbours the plan names, in order; the messages written
/// are those the plan asks for, with the values held at each send; and `v` is
/// the value held at the end.
pub open spec fn ran_plan(
    before: Channels,
    after: Channels,
    plan: Seq<Step>,
    t: Type,
    start: Value,
    v: Value,
) -> bool {
    let taken = after.received().skip(before.received().len() as int);
    &&& after.received() == before.received() + taken
    &&& sides_of(taken) == receive_sides(plan)
    &&& after.sent() == before.sent() + sent_by(plan, t, start, texts_of(taken))
    &&& v == held_after(plan, start, texts_of(taken))
}

/// The bundle holds the same four endpoints as `other`.
pub open spec fn same_ends(c: Channels, other: Channels) -> bool {
    &&& c.spec_tx_next() == other.spec_tx_next()
    &&& c.spec_rx_next() == other.spec_rx_next()
    &&& c.spec_tx_prev() == other.spec_tx_prev()
    &&& c.spec_rx_prev() == other.spec_rx_prev()
}

/// Only messages were added to the record, none removed.
pub open spec fn record_grew(before: Channels, after: Channels) -> bool {
    &&& after.sent().take(before.sent().len() as int) == before.sent()
    &&& after.sent().len() >= before.sent().len()
    &&& after.received().take(before.received().len() as int) == before.received()
    &&& after.received().len() >= before.received().len()
}

/// Every record has grown from itself.
pub proof fn lemma_record_grew_refl(c: Channels)
    ensures
        record_grew(c, c),
{
    assert(c.sent().take(c.sent().len() as int) =~= c.sent());
    assert(c.received().take(c.received().len() as int) =~= c.received());
}

/// Growth of the record adds up.
pub proof fn lemma_record_grew_trans(a: Channels, b: Channels, c: Channels)
    requires
        record_grew(a, b),
        record_grew(b, c),
    ensures
        record_grew(a, c),
{
    assert(c.sent().take(a.sent().len() as int) =~= b.sent().take(a.sent().len() as int));
    assert(c.received().take(a.received().len() as int) =~= b.received().take(
        a.received().len() as int,
    ));
}

/// A plan without receives leaves the value it started from.
pub proof fn lemma_held_without_receive(plan: Seq<Step>, start: Value, texts: Seq<Seq<char>>)
    requires
        receive_count(plan) == 0,
    ensures
        held_after(plan, start, texts) == start,
    decreases plan.len(),
{
    if plan.len() > 0 {
        lemma_held_without_receive(plan.drop_last(), start, texts);
    }
}

/// After a plan with receives, the value held is the last text received, decoded.
pub proof fn lemma_held_is_last_received(plan: Seq<Step>, start: Value, texts: Seq<Seq<char>>)
    requires
        receive_count(plan) > 0,
    ensures
        held_after(plan, start, texts) == wire_value(texts[receive_count(plan) - 1]),
    decreases plan.len(),
{
    if plan.len() > 0 {
        match plan.last() {
            Step::SendTo(_) => {
                lemma_held_is_last_received(plan.drop_last(), start, texts);
            },
            Step::ReceiveFrom(_) => {},
        }
    }
}

proof fn lemma_more_texts(
    plan: Seq<Step>,
    t: Type,
    start: Value,
    texts: Seq<Seq<char>>,
    m: Seq<char>,
)
    requires
        receive_count(plan) <= texts.len(),
    ensures
        held_after(plan, start, texts.push(m)) == held_after(plan, start, texts),
        sent_by(plan, t, start, texts.push(m)) == sent_by(plan, t, start, texts),
    decreases plan.len(),
{
    if plan.len() > 0 {
        lemma_receive_count_init(plan);
        lemma_more_texts(plan.drop_last(), t, start, texts, m);
    }
}

impl Channels {
    pub closed spec fn spec_tx_next(&self) -> Sender<String> {
        self.tx_next
    }

    pub closed spec fn spec_rx_next(&self) -> Receiver<String> {
        self.rx_next
    }

    pub closed spec fn spec_tx_prev(&self) -> Sender<String> {
        self.tx_prev
    }

    pub closed spec fn spec_rx_prev(&self) -> Receiver<String> {
        self.rx_prev
    }

    /// The messages written so far, oldest first.
    pub closed spec fn sent(&self) -> Seq<Message> {
        self.sent@
    }

    /// The messages taken so far, oldest first.
    pub closed spec fn received(&self) -> Seq<Message> {
        self.received@
    }

    /// Bundles the four endpoints of one party, with nothing written or taken yet.
    pub fn new(
        tx_next: Sender<String>,
        rx_next: Receiver<String>,
        tx_prev: Sender<String>,
        rx_prev: Receiver<String>,
    ) -> (r: Self)
        ensures
            r.spec_tx_next() == tx_next,
            r.spec_rx_next() == rx_next,
            r.spec_tx_prev() == tx_prev,
            r.spec_rx_prev() == rx_prev,
            r.sent() == Seq::<Message>::empty(),
            r.received() == Seq::<Message>::empty(),
    {
        Channels {
            tx_next,
            rx_next,
            tx_prev,
            rx_prev,
            sent: Ghost(Seq::empty()),
            received: Ghost(Seq::empty()),
        }
    }

    /// Writes the text of `v`, as a value of type `t`, to the channel towards
    /// `to`, and hands `v` back.
    pub fn send_value(&mut self, to: Neighbor, t: &Type, v: Value) -> (r: Result<Value, TransportError>)
        ensures
            same_ends(*final(self), *old(self)),
            final(self).received() == old(self).received(),
            r is Ok ==> r->Ok_0 == v && final(self).sent() == old(self).sent().push(
                (to, wire_text(*t, v)),
            ),
            r is Err ==> final(self).sent() == old(self).sent(),
    {
        let tv = match with_type(t, v) {
            Ok(tv) => tv,
            Err(_) => {
                return Err(TransportError::Encode);
            },
        };
        let msg = match encode_typed(&tv) {
            Ok(m) => m,
            Err(_) => {
                return Err(TransportError::Encode);
            },
        };
        let ghost text = msg@;
        let sent = match to {
            Neighbor::Next => send_message(&self.tx_next, msg),
            Neighbor::Prev => send_message(&self.tx_prev, msg),
        };
        if sent {
            self.sent = Ghost(self.sent@.push((to, text)));
            Ok(tv.value)
        } else {
            Err(TransportError::Disconnected)
        }
    }

    /// Waits for the oldest text from `from` and reads it as a value.
    pub fn receive_value(&mut self, from: Neighbor) -> (r: Result<Value, TransportError>)
        ensures
            same_ends(*final(self), *old(self)),
            final(self).sent() == old(self).sent(),
            r is Ok ==> {
                &&& final(self).received().len() == old(self).received().len() + 1
                &&& final(self).received().drop_last() == old(self).received()
                &&& final(self).received().last().0 == from
                &&& r->Ok_0 == wire_value(final(self).received().last().1)
            },
            r is Err ==> final(self).received() == old(self).received() || (
            final(self).received().drop_last() == old(self).received()
                && final(self).received().len() == old(self).received().len() + 1
                && final(self).received().last().0 == from),
    {
        let got = match from {
            Neighbor::Next => receive_message(&self.rx_next),
            Neighbor::Prev => receive_message(&self.rx_prev),
        };
        match got {
            Some(msg) => {
                self.received = Ghost(self.received@.push((from, msg@)));
                assert(self.received@.drop_last() =~= old(self).received@);
                match decode_typed(msg.as_str()) {
                    Ok(tv) => Ok(tv.value),
                    Err(_) => Err(TransportError::Decode),
                }
            },
            None => Err(TransportError::Disconnected),
        }
    }

    /// Performs the steps in order, starting from `candidate`: each send writes
    /// the current value, each receive replaces it with what arrives.
    pub fn run_plan(&mut self, plan: &Vec<Step>, t: &Type, candidate: Value) -> (r: Result<
        Value,
        TransportError,
    >)
        ensures
            same_ends(*final(self), *old(self)),
            record_grew(*old(self), *final(self)),
            plan@.len() == 0 ==> r == Ok::<Value, TransportError>(candidate),
            r matches Ok(v) ==> ran_plan(*old(self), *final(self), plan@, *t, candidate, v),
    {
        let ghost before = *self;
        let mut val = candidate;
        let mut i: usize = 0;
        proof {
            lemma_record_grew_refl(before);
            assert(self.received@.skip(before.received@.len() as int) =~= Seq::<Message>::empty());
            assert(before.received@ + Seq::<Message>::empty() =~= before.received@);
            assert(before.sent@ + Seq::<Message>::empty() =~= before.sent@);
            assert(sides_of(Seq::<Message>::empty()) =~= Seq::<Neighbor>::empty());
            assert(plan@.take(0) =~= Seq::<Step>::empty());
        }
        while i < plan.len()
            invariant
                before == *old(self),
                0 <= i <= plan.len(),
                same_ends(*self, before),
                record_grew(before, *self),
                ran_plan(before, *self, plan@.take(i as int), *t, candidate, val),
                plan@.len() == 0 ==> val == candidate,
            decreases plan.len() - i,
        {
            let ghost pre = *self;
            let ghost taken = self.received@.skip(before.received@.len() as int);
            proof {
                assert(plan@.take(i + 1).drop_last() =~= plan@.take(i as int));
                assert(plan@.take(i + 1).last() == plan@[i as int]);
                lemma_receive_count_sides(plan@.take(i as int));
            }
            match plan[i] {
                Step::SendTo(to) => {
                    let sent = self.send_value(to, t, val);
                    proof {
                        assert(self.sent@.take(pre.sent@.len() as int) =~= pre.sent@);
                        assert(self.received@.take(pre.received@.len() as int) =~= pre.received@);
                        lemma_record_grew_trans(before, pre, *self);
                    }
                    val = sent?;
                    assert(self.received@.skip(before.received@.len() as int) =~= taken);
                },
                Step::ReceiveFrom(from) => {
                    let got = self.receive_value(from);
                    proof {
                        assert(self.sent@.take(pre.sent@.len() as int) =~= pre.sent@);
                        assert(self.received@.take(pre.received@.len() as int) =~= pre.received@);
                        lemma_record_grew_trans(before, pre, *self);
                    }
                    val = got?;
                    let ghost m = self.received@.last();
                    let ghost taken2 = self.received@.skip(before.received@.len() as int);
                    assert(taken2 =~= taken.push(m));
                    assert(texts_of(taken2) =~= texts_of(taken).push(m.1));
                    assert(sides_of(taken2) =~= sides_of(taken).push(from));
                    proof {
                        lemma_more_texts(plan@.take(i as int), *t, candidate, texts_of(taken), m.1);
                    }
                    assert(self.received@ =~= before.received@ + taken2);
                },
            }
            i = i + 1;
        }
        assert(plan@.take(plan.len() as int) =~= plan@);
        Ok(val)
    }
}

/// The ring is wired: what `bundles[p]` sends towards its next party arrives
/// at that party's receiver from its previous one, and what it sends towards
/// its previous party arrives at that party's receiver from its next one.
pub open spec fn ring_wired(bundles: Seq<Channels>) -> bool {
    &&& bundles.len() == 3
    &&& forall|p: u64|
        p < 3 ==> #[trigger] linked(bundles[p as int].spec_tx_next(), bundles[next_of(p) as int].spec_rx_prev())
    &&& forall|p: u64|
        p < 3 ==> #[trigger] linked(bundles[p as int].spec_tx_prev(), bundles[prev_of(p) as int].spec_rx_next())
}

/// Builds the six directed channels of the ring and hands each party, at its
/// index, the ends that belong to it.
pub fn ring_channels() -> (r: Vec<Channels>)
    ensures
        ring_wired(r@),
        forall|p: int|
            0 <= p < 3 ==> (#[trigger] r@[p]).sent() == Seq::<Message>::empty()
                && r@[p].received() == Seq::<Message>::empty(),
{
    let (tx01, rx01) = new_edge();
    let (tx12, rx12) = new_edge();
    let (tx20, rx20) = new_edge();
    let (tx02, rx02) = new_edge();
    let (tx10, rx10) = new_edge();
    let (tx21, rx21) = new_edge();
    let mut r: Vec<Channels> = Vec::new();
    r.push(Channels::new(tx01, rx10, tx02, rx20));
    r.push(Channels::new(tx12, rx21, tx10, rx01));
    r.push(Channels::new(tx20, rx02, tx21, rx12));
    assert forall|p: u64| p < 3 implies #[trigger] linked(r@[p as int].spec_tx_next(), r@[next_of(p) as int].spec_rx_prev()) by {
        if p == 0 {} else if p == 1 {} else {}
    }
    assert forall|p: u64| p < 3 implies #[trigger] linked(r@[p as int].spec_tx_prev(), r@[prev_of(p) as int].spec_rx_next()) by {
        if p == 0 {} else if p == 1 {} else {}
    }
    r
}

/// The sender that a bundle writes to when it sends towards `to`.
pub open spec fn tx_towards(c: Channels, to: Neighbor) -> Sender<String> {
    match to {
        Neighbor::Next => c.spec_tx_next(),
        Neighbor::Prev => c.spec_tx_prev(),
    }
}

/// The receiver that a bundle waits on when it receives from `from`.
pub open spec fn rx_from(c: Channels, from: Neighbor) -> Receiver<String> {
    match from {
        Neighbor::Next => c.spec_rx_next(),
        Neighbor::Prev => c.spec_rx_prev(),
    }
}

/// On a wired ring, a send annotation from `s` to another party `r` is
/// carried by one channel: the sender that `s` writes to and the receiver
/// that `r` waits on are its two ends.
pub proof fn lemma_send_reaches_receiver(bundles: Seq<Channels>, s: u64, r: u64)
    requires
        ring_wired(bundles),
        valid_party(s),
        valid_party(r),
        s != r,
    ensures
        linked(
            tx_towards(bundles[s as int], spec_neighbor_for(s, r)),
            rx_from(bundles[r as int], spec_neighbor_for(r, s)),
        ),
{
    if spec_neighbor_for(s, r) == Neighbor::Next {
        assert(linked(bundles[s as int].spec_tx_next(), bundles[next_of(s) as int].spec_rx_prev()));
    } else {
        assert(linked(bundles[s as int].spec_tx_prev(), bundles[prev_of(s) as int].spec_rx_next()));
    }
}

} // verus!
