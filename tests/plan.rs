use multi_parti_evaluator::exchange::{exchange_plan, Step};
use multi_parti_evaluator::bindings::Annotation;
use multi_parti_evaluator::ring::{neighbor_for, Neighbor};

#[test]
fn neighbours_follow_ring_position() {
    assert_eq!(neighbor_for(0, 1), Neighbor::Next);
    assert_eq!(neighbor_for(0, 2), Neighbor::Prev);
    assert_eq!(neighbor_for(1, 2), Neighbor::Next);
    assert_eq!(neighbor_for(1, 0), Neighbor::Prev);
    assert_eq!(neighbor_for(2, 0), Neighbor::Next);
    assert_eq!(neighbor_for(2, 1), Neighbor::Prev);
}

#[test]
fn sender_sends_and_receiver_receives() {
    let anns = vec![Annotation::Send(0, 1)];
    assert_eq!(exchange_plan(0, &anns), vec![Step::SendTo(Neighbor::Next)]);
    assert_eq!(exchange_plan(1, &anns), vec![Step::ReceiveFrom(Neighbor::Prev)]);
    assert_eq!(exchange_plan(2, &anns), vec![]);
}

#[test]
fn sends_come_before_later_receives() {
    let anns = vec![Annotation::Send(2, 0), Annotation::Other, Annotation::Send(0, 2)];
    assert_eq!(
        exchange_plan(0, &anns),
        vec![Step::ReceiveFrom(Neighbor::Prev), Step::SendTo(Neighbor::Prev)]
    );
    assert_eq!(
        exchange_plan(2, &anns),
        vec![Step::SendTo(Neighbor::Next), Step::ReceiveFrom(Neighbor::Next)]
    );
    let anns = vec![Annotation::Send(1, 2), Annotation::Send(0, 1)];
    assert_eq!(
        exchange_plan(1, &anns),
        vec![Step::SendTo(Neighbor::Next), Step::ReceiveFrom(Neighbor::Prev)]
    );
}

#[test]
fn fan_out_sends_to_both_neighbours() {
    let anns = vec![Annotation::Send(1, 2), Annotation::Send(1, 0)];
    assert_eq!(
        exchange_plan(1, &anns),
        vec![Step::SendTo(Neighbor::Next), Step::SendTo(Neighbor::Prev)]
    );
    assert_eq!(exchange_plan(2, &anns), vec![Step::ReceiveFrom(Neighbor::Prev)]);
    assert_eq!(exchange_plan(0, &anns), vec![Step::ReceiveFrom(Neighbor::Next)]);
}

#[test]
fn other_annotations_ask_nothing() {
    let anns = vec![Annotation::Other, Annotation::Other];
    assert_eq!(exchange_plan(0, &anns), vec![]);
    assert_eq!(exchange_plan(1, &vec![]), vec![]);
}
