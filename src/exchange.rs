//! The channel operations a party performs at a synchronization node.

use vstd::prelude::*;
use crate::bindings::Annotation;
use crate::ring::{neighbor_for, next_of, prev_of, spec_neighbor_for, valid_party, Neighbor};

verus! {

/// One channel operation of a party at a synchronization node.
#[derive(Clone, Copy, Debug, PartialEq, Eq, Structural)]
pub enum Step {
    /// Write the current value to the channel towards this neighbour.
    SendTo(Neighbor),
    /// Wait on the channel from this neighbour and take what arrives as the value.
    ReceiveFrom(Neighbor),
}

/// What `party` does for one annotation: send first if it is the sender,
/// then receive if it is the receiver.
pub open spec fn steps_for(party: u64, a: Annotation) -> Seq<Step> {
    match a {
        Annotation::Send(s, r) => (if s == party {
            seq![Step::SendTo(spec_neighbor_for(party, r))]
        } else {
            Seq::empty()
        }) + (if r == party {
            seq![Step::ReceiveFrom(spec_neighbor_for(party, s))]
        } else {
            Seq::empty()
        }),
        Annotation::Other => Seq::empty(),
    }
}

/// The channel operations of `party` for a node's annotations, in listed order.
pub open spec fn plan_of(party: u64, anns: Seq<Annotation>) -> Seq<Step>
    decreases anns.len(),
{
    if anns.len() == 0 {
        Seq::empty()
    } else {
        plan_of(party, anns.drop_last()) + steps_for(party, anns.last())
    }
}

/// The number of receives in a plan.
pub open spec fn receive_count(plan: Seq<Step>) -> nat
    decreases plan.len(),
{
    if plan.len() == 0 {
        0
    } else {
        receive_count(plan.drop_last()) + if plan.last() is ReceiveFrom {
            1nat
        } else {
            0nat
        }
    }
}

/// The neighbours that a plan receives from, in order.
pub open spec fn receive_sides(plan: Seq<Step>) -> Seq<Neighbor>
    decreases plan.len(),
{
    if plan.len() == 0 {
        Seq::empty()
    } else {
        match plan.last() {
            Step::ReceiveFrom(n) => receive_sides(plan.drop_last()).push(n),
            Step::SendTo(_) => receive_sides(plan.drop_last()),
        }
    }
}

pub proof fn lemma_receive_count_init(plan: Seq<Step>)
    requires
        plan.len() > 0,
    ensures
        receive_count(plan.drop_last()) <= receive_count(plan),
{
}

/// A plan receives once per neighbour listed in `receive_sides`.
pub proof fn lemma_receive_count_sides(plan: Seq<Step>)
    ensures
        receive_sides(plan).len() == receive_count(plan),
    decreases plan.len(),
{
    if plan.len() > 0 {
        lemma_receive_count_sides(plan.drop_last());
    }
}

/// `party` is named by one of the annotations.
pub open spec fn involves(party: u64, anns: Seq<Annotation>) -> bool {
    exists|i: int|
        0 <= i < anns.len() && (#[trigger] anns[i] matches Annotation::Send(s, r) && (s == party
            || r == party))
}

/// The channel operations that `party` performs for the annotations `anns`.
pub fn exchange_plan(party: u64, anns: &Vec<Annotation>) -> (r: Vec<Step>)
    requires
        valid_party(party),
    ensures
        r@ == plan_of(party, anns@),
{
    let mut plan: Vec<Step> = Vec::new();
    let mut i: usize = 0;
    while i < anns.len()
        invariant
            valid_party(party),
            0 <= i <= anns.len(),
            plan@ == plan_of(party, anns@.take(i as int)),
        decreases anns.len() - i,
    {
        let ghost before = plan@;
        match anns[i] {
            Annotation::Send(s, r) => {
                if s == party {
                    plan.push(Step::SendTo(neighbor_for(party, r)));
                }
                if r == party {
                    plan.push(Step::ReceiveFrom(neighbor_for(party, s)));
                }
            },
            Annotation::Other => {},
        }
        assert(anns@.take(i + 1).drop_last() =~= anns@.take(i as int));
        assert(plan@ =~= before + steps_for(party, anns@[i as int]));
        i = i + 1;
    }
    assert(anns@.take(anns.len() as int) =~= anns@);
    plan
}

/// Ring routing: for a send from `s` to another party `r`, the channel
/// that `s` writes to leads to `r`, the channel that `r` waits on comes from
/// `s`, and the two are the two ends of one directed edge (one side's
/// "next" is the other side's "previous").
pub proof fn lemma_routes_meet(s: u64, r: u64)
    requires
        valid_party(s),
        valid_party(r),
        s != r,
    ensures
        spec_neighbor_for(s, r) == Neighbor::Next ==> next_of(s) == r && prev_of(r) == s,
        spec_neighbor_for(s, r) == Neighbor::Prev ==> prev_of(s) == r && next_of(r) == s,
        spec_neighbor_for(s, r) == Neighbor::Next <==> spec_neighbor_for(r, s) == Neighbor::Prev,
{
}

/// A plan is made annotation by annotation: the operations for the first
/// `i` annotations all come before those for the rest, so a party performs
/// the sends of earlier annotations before it waits on later receives.
pub proof fn lemma_plan_in_order(party: u64, anns: Seq<Annotation>, i: int)
    requires
        0 <= i <= anns.len(),
    ensures
        plan_of(party, anns) == plan_of(party, anns.take(i)) + plan_of(party, anns.skip(i)),
    decreases anns.len(),
{
    if i == anns.len() {
        assert(anns.take(i) =~= anns);
        assert(anns.skip(i) =~= Seq::<Annotation>::empty());
        assert(plan_of(party, anns) + Seq::<Step>::empty() =~= plan_of(party, anns));
    } else {
        let init = anns.drop_last();
        lemma_plan_in_order(party, init, i);
        assert(init.take(i) =~= anns.take(i));
        assert(anns.skip(i).drop_last() =~= init.skip(i));
        assert(anns.skip(i).last() == anns.last());
        assert((plan_of(party, anns.take(i)) + plan_of(party, init.skip(i))) + steps_for(
            party,
            anns.last(),
        ) =~= plan_of(party, anns.take(i)) + (plan_of(party, init.skip(i)) + steps_for(
            party,
            anns.last(),
        )));
    }
}

/// Each send annotation reaches both of its parties: the sender's plan holds
/// the send towards the receiver, and the receiver's plan holds the receive
/// from the sender.
pub proof fn lemma_annotation_in_plans(anns: Seq<Annotation>, i: int, s: u64, r: u64)
    requires
        0 <= i < anns.len(),
        anns[i] == Annotation::Send(s, r),
        valid_party(s),
        valid_party(r),
        s != r,
    ensures
        plan_of(s, anns).contains(Step::SendTo(spec_neighbor_for(s, r))),
        plan_of(r, anns).contains(Step::ReceiveFrom(spec_neighbor_for(r, s))),
{
    lemma_plan_in_order(s, anns, i);
    lemma_plan_in_order(r, anns, i);
    lemma_plan_in_order(s, anns.skip(i), 1);
    lemma_plan_in_order(r, anns.skip(i), 1);
    let one = anns.skip(i).take(1);
    assert(one.drop_last() =~= Seq::<Annotation>::empty());
    assert(one.last() == anns[i]);
    assert(plan_of(s, one.drop_last()) == Seq::<Step>::empty());
    assert(plan_of(r, one.drop_last()) == Seq::<Step>::empty());
    assert(plan_of(s, one) =~= steps_for(s, anns[i]));
    assert(plan_of(r, one) =~= steps_for(r, anns[i]));
    assert(steps_for(s, anns[i])[0] == Step::SendTo(spec_neighbor_for(s, r)));
    assert(steps_for(r, anns[i])[0] == Step::ReceiveFrom(spec_neighbor_for(r, s)));
    let ps = plan_of(s, anns);
    let pr = plan_of(r, anns);
    let ks = plan_of(s, anns.take(i)).len() as int;
    let kr = plan_of(r, anns.take(i)).len() as int;
    assert(ps[ks] == Step::SendTo(spec_neighbor_for(s, r)));
    assert(pr[kr] == Step::ReceiveFrom(spec_neighbor_for(r, s)));
}

/// A party that no annotation names has nothing to send or receive.
pub proof fn lemma_bystander_plan_empty(party: u64, anns: Seq<Annotation>)
    requires
        !involves(party, anns),
    ensures
        plan_of(party, anns) == Seq::<Step>::empty(),
    decreases anns.len(),
{
    if anns.len() > 0 {
        let init = anns.drop_last();
        assert forall|i: int| 0 <= i < init.len() implies !(#[trigger] init[i] matches Annotation::Send(s, r) && (s == party || r == party)) by {
            assert(init[i] == anns[i]);
        }
        lemma_bystander_plan_empty(party, init);
        assert(anns.last() == anns[anns.len() - 1]);
        assert(steps_for(party, anns.last()) =~= Seq::<Step>::empty());
        assert(plan_of(party, anns) =~= Seq::<Step>::empty());
    }
}

/// Every send annotation names two distinct parties of the ring.
pub open spec fn well_formed(anns: Seq<Annotation>) -> bool {
    forall|i: int|
        0 <= i < anns.len() ==> (#[trigger] anns[i] matches Annotation::Send(s, r) ==> valid_party(s)
            && valid_party(r) && s != r)
}

/// The channel operations of all three parties for one annotation, in an
/// order that runs them: the sender's send, then the receiver's receive.
pub open spec fn events_for(a: Annotation) -> Seq<(u64, Step)> {
    match a {
        Annotation::Send(s, r) => seq![
            (s, Step::SendTo(spec_neighbor_for(s, r))),
            (r, Step::ReceiveFrom(spec_neighbor_for(r, s))),
        ],
        Annotation::Other => Seq::empty(),
    }
}

/// One run of a synchronization node by all parties: the annotations taken
/// in listed order, each as `events_for` gives it.
pub open spec fn schedule(anns: Seq<Annotation>) -> Seq<(u64, Step)>
    decreases anns.len(),
{
    if anns.len() == 0 {
        Seq::empty()
    } else {
        schedule(anns.drop_last()) + events_for(anns.last())
    }
}

/// The operations of `party` in a run, in the order they occur.
pub open spec fn events_of(evs: Seq<(u64, Step)>, party: u64) -> Seq<Step>
    decreases evs.len(),
{
    if evs.len() == 0 {
        Seq::empty()
    } else {
        events_of(evs.drop_last(), party) + (if evs.last().0 == party {
            seq![evs.last().1]
        } else {
            Seq::empty()
        })
    }
}

/// The event at index `j`, if it is a receive, comes right after the send it takes.
pub open spec fn receive_follows_send_at(evs: Seq<(u64, Step)>, j: int) -> bool {
    (0 <= j < evs.len() && evs[j].1 is ReceiveFrom) ==> {
        &&& j > 0
        &&& evs[j - 1].0 != evs[j].0
        &&& evs[j - 1].1 == Step::SendTo(spec_neighbor_for(evs[j - 1].0, evs[j].0))
        &&& evs[j].1 == Step::ReceiveFrom(spec_neighbor_for(evs[j].0, evs[j - 1].0))
    }
}

/// Each receive in the run comes right after the send it takes: a send by
/// another party, on the channel between the two, so the receive finds its
/// message waiting and nothing else in that channel.
pub open spec fn receives_follow_sends(evs: Seq<(u64, Step)>) -> bool {
    forall|j: int| #[trigger] receive_follows_send_at(evs, j)
}

proof fn lemma_events_of_concat(a: Seq<(u64, Step)>, b: Seq<(u64, Step)>, party: u64)
    ensures
        events_of(a + b, party) == events_of(a, party) + events_of(b, party),
    decreases b.len(),
{
    if b.len() == 0 {
        assert(a + b =~= a);
        assert(events_of(a, party) + Seq::<Step>::empty() =~= events_of(a, party));
    } else {
        lemma_events_of_concat(a, b.drop_last(), party);
        assert((a + b).drop_last() =~= a + b.drop_last());
        assert((a + b).last() == b.last());
        let tail = if b.last().0 == party {
            seq![b.last().1]
        } else {
            Seq::<Step>::empty()
        };
        assert((events_of(a, party) + events_of(b.drop_last(), party)) + tail =~= events_of(
            a,
            party,
        ) + (events_of(b.drop_last(), party) + tail));
    }
}

proof fn lemma_well_formed_init(anns: Seq<Annotation>)
    requires
        well_formed(anns),
        anns.len() > 0,
    ensures
        well_formed(anns.drop_last()),
{
    let init = anns.drop_last();
    assert forall|i: int| 0 <= i < init.len() implies (#[trigger] init[i] matches Annotation::Send(
        s,
        r,
    ) ==> valid_party(s) && valid_party(r) && s != r) by {
        assert(init[i] == anns[i]);
    }
}

proof fn lemma_schedule_projects(anns: Seq<Annotation>, p: u64)
    requires
        well_formed(anns),
    ensures
        events_of(schedule(anns), p) == plan_of(p, anns),
        schedule(anns).len() <= 2 * anns.len(),
    decreases anns.len(),
{
    if anns.len() > 0 {
        let init = anns.drop_last();
        let a = anns.last();
        assert(a == anns[anns.len() - 1]);
        lemma_well_formed_init(anns);
        lemma_schedule_projects(init, p);
        let prev = schedule(init);
        let evs = events_for(a);
        lemma_events_of_concat(prev, evs, p);
        match a {
            Annotation::Send(s, r) => {
                let e0 = evs.drop_last();
                assert(e0 =~= seq![evs[0]]);
                assert(e0.drop_last() =~= Seq::<(u64, Step)>::empty());
                assert(events_of(e0.drop_last(), p) == Seq::<Step>::empty());
                assert(e0.last() == evs[0]);
                assert(evs.last() == evs[1]);
                assert(events_of(e0, p) =~= (if s == p {
                    seq![evs[0].1]
                } else {
                    Seq::<Step>::empty()
                }));
                assert(events_of(evs, p) == events_of(e0, p) + (if r == p {
                    seq![evs[1].1]
                } else {
                    Seq::<Step>::empty()
                }));
                assert(events_of(evs, p) =~= steps_for(p, a));
            },
            Annotation::Other => {
                assert(events_of(evs, p) =~= Seq::<Step>::empty());
                assert(steps_for(p, a) =~= Seq::<Step>::empty());
            },
        }
    }
}

proof fn lemma_schedule_receive_at(anns: Seq<Annotation>, j: int)
    requires
        well_formed(anns),
        anns.len() > 0,
        forall|k: int| receive_follows_send_at(schedule(anns.drop_last()), k),
    ensures
        receive_follows_send_at(schedule(anns), j),
{
    let init = anns.drop_last();
    let a = anns.last();
    assert(a == anns[anns.len() - 1]);
    let prev = schedule(init);
    let evs = events_for(a);
    let all = schedule(anns);
    assert(all == prev + evs);
    if 0 <= j < all.len() && all[j].1 is ReceiveFrom {
        if j < prev.len() {
            assert(receive_follows_send_at(prev, j));
            assert(all[j] == prev[j]);
            assert(all[j - 1] == prev[j - 1]);
        } else {
            match a {
                Annotation::Send(s, r) => {
                    assert(s != r);
                    if j == prev.len() {
                        assert(all[j] == evs[0]);
                    } else {
                        assert(all[j] == evs[1]);
                        assert(all[j - 1] == evs[0]);
                    }
                },
                Annotation::Other => {},
            }
        }
    }
}

proof fn lemma_schedule_receives(anns: Seq<Annotation>)
    requires
        well_formed(anns),
    ensures
        forall|k: int| receive_follows_send_at(schedule(anns), k),
    decreases anns.len(),
{
    if anns.len() > 0 {
        lemma_well_formed_init(anns);
        lemma_schedule_receives(anns.drop_last());
        assert forall|k: int| receive_follows_send_at(schedule(anns), k) by {
            lemma_schedule_receive_at(anns, k);
        }
    }
}

/// Deadlock freedom at one node: if every send annotation names two distinct
/// parties, the parties' plans fit together into one run of bounded length
/// (two operations per annotation) in which each party performs exactly its
/// plan, in its order, and every receive takes a message already sent to it.
pub proof fn lemma_node_run_completes(anns: Seq<Annotation>)
    requires
        well_formed(anns),
    ensures
        forall|p: u64| valid_party(p) ==> #[trigger] events_of(schedule(anns), p) == plan_of(p, anns),
        receives_follow_sends(schedule(anns)),
        schedule(anns).len() <= 2 * anns.len(),
{
    assert forall|p: u64| valid_party(p) implies #[trigger] events_of(schedule(anns), p) == plan_of(p, anns) by {
        lemma_schedule_projects(anns, p);
    }
    lemma_schedule_projects(anns, 0);
    lemma_schedule_receives(anns);
}

} // verus!
