use ciphercore_base::data_types::{array_type, scalar_type, INT32, INT64};
use ciphercore_base::data_values::Value;
use ciphercore_base::graphs::{create_context, Context, Node, NodeAnnotation};
use multi_parti_evaluator::channels::{ring_channels, TransportError};
use multi_parti_evaluator::evaluator::EvalError;
use multi_parti_evaluator::ring::Neighbor;
use multi_parti_evaluator::{Channels, Evaluator};

fn int32(x: i32) -> Value {
    Value::from_scalar(x, INT32).unwrap()
}

/// A graph that hands its input through one synchronization node carrying `anns`.
fn nop_context(anns: &[(u64, u64)]) -> (Context, Node) {
    let c = create_context().unwrap();
    let g = c.create_graph().unwrap();
    let i = g.input(scalar_type(INT32)).unwrap();
    let n = i.nop().unwrap();
    for (s, r) in anns {
        n.add_annotation(NodeAnnotation::Send(*s, *r)).unwrap();
    }
    let o = n.nop().unwrap();
    o.set_as_output().unwrap();
    g.finalize().unwrap();
    g.set_as_main().unwrap();
    (c.finalize().unwrap(), n)
}

/// Each party evaluates the annotated node on its own value, one after the
/// other in `order` (senders before their receivers, since the channels
/// buffer); returns what each party then holds.
fn exchange_once(anns: Vec<(u64, u64)>, values: [i32; 3], order: [usize; 3]) -> Vec<i32> {
    let mut evaluators: Vec<Evaluator> = ring_channels()
        .into_iter()
        .enumerate()
        .map(|(id, ch)| Evaluator::new(id as u64, ch, None).unwrap())
        .collect();
    let (c, node) = nop_context(&anns);
    for e in evaluators.iter_mut() {
        e.attach_context(c.clone());
    }
    let mut held = values.to_vec();
    for p in order {
        let v = evaluators[p].evaluate_node(node.clone(), vec![int32(values[p])]).unwrap();
        held[p] = v.to_i32(INT32).unwrap();
    }
    held
}

#[test]
fn channels_bundle_endpoints() {
    let (tx_a, rx_a) = std::sync::mpsc::channel::<String>();
    let (tx_b, rx_b) = std::sync::mpsc::channel::<String>();
    let mut ch = Channels::new(tx_a, rx_b, tx_b, rx_a);
    ch.send_value(Neighbor::Next, &scalar_type(INT32), int32(5)).unwrap();
    let got = ch.receive_value(Neighbor::Prev).unwrap();
    assert_eq!(got, int32(5));
    ch.send_value(Neighbor::Prev, &scalar_type(INT32), int32(6)).unwrap();
    assert_eq!(ch.receive_value(Neighbor::Next).unwrap(), int32(6));
}

#[test]
fn ring_next_reaches_the_following_party() {
    let mut bundles = ring_channels();
    for p in 0..3usize {
        let v = int32(100 + p as i32);
        bundles[p].send_value(Neighbor::Next, &scalar_type(INT32), v.clone()).unwrap();
        let q = (p + 1) % 3;
        assert_eq!(bundles[q].receive_value(Neighbor::Prev).unwrap(), v);
        bundles[p].send_value(Neighbor::Prev, &scalar_type(INT32), v.clone()).unwrap();
        let q = (p + 2) % 3;
        assert_eq!(bundles[q].receive_value(Neighbor::Next).unwrap(), v);
    }
}

#[test]
fn channel_delivers_in_order() {
    let mut bundles = ring_channels();
    for x in 0..5 {
        bundles[2].send_value(Neighbor::Next, &scalar_type(INT32), int32(x)).unwrap();
    }
    for x in 0..5 {
        assert_eq!(bundles[0].receive_value(Neighbor::Prev).unwrap(), int32(x));
    }
}

#[test]
fn closed_channel_is_a_transport_error() {
    let mut bundles = ring_channels();
    let mut p0 = bundles.remove(0);
    drop(bundles);
    assert_eq!(p0.send_value(Neighbor::Next, &scalar_type(INT32), int32(1)), Err(TransportError::Disconnected));
    assert!(matches!(p0.receive_value(Neighbor::Prev), Err(TransportError::Disconnected)));
}

#[test]
fn receiver_takes_the_senders_value() {
    assert_eq!(exchange_once(vec![(0, 1)], [10, 20, 30], [0, 1, 2]), vec![10, 10, 30]);
    assert_eq!(exchange_once(vec![(2, 1)], [10, 20, 30], [2, 0, 1]), vec![10, 30, 30]);
    assert_eq!(exchange_once(vec![(1, 0)], [-7, 8, 9], [1, 2, 0]), vec![8, 8, 9]);
}

#[test]
fn chain_and_fan_out_in_one_node() {
    assert_eq!(exchange_once(vec![(0, 1), (1, 2)], [1, 2, 3], [0, 1, 2]), vec![1, 1, 1]);
    assert_eq!(exchange_once(vec![(1, 2), (1, 0)], [1, 2, 3], [1, 0, 2]), vec![2, 2, 2]);
    assert_eq!(exchange_once(vec![], [1, 2, 3], [2, 1, 0]), vec![1, 2, 3]);
}

#[test]
fn input_nodes_are_left_to_the_driver() {
    let c = create_context().unwrap();
    let g = c.create_graph().unwrap();
    let i = g.input(scalar_type(INT32)).unwrap();
    let mut e = Evaluator::new(0, ring_channels().remove(0), None).unwrap();
    assert!(matches!(e.evaluate_node(i, vec![]), Err(EvalError::DriverNode)));
}

#[test]
fn local_nodes_need_no_channel() {
    let c = create_context().unwrap();
    let g = c.create_graph().unwrap();
    let a = g.input(scalar_type(INT32)).unwrap();
    let b = g.input(scalar_type(INT32)).unwrap();
    let s = a.add(b).unwrap();
    let mut e = Evaluator::new(1, ring_channels().remove(1), None).unwrap();
    assert!(matches!(e.evaluate_node(s.clone(), vec![int32(4), int32(5)]), Err(EvalError::NoContext)));
    e.attach_context(c.clone());
    let v = e.evaluate_node(s, vec![int32(4), int32(5)]).unwrap();
    assert_eq!(v.to_i32(INT32).unwrap(), 9);
}

#[test]
fn same_seed_gives_same_random_output() {
    let run = || {
        let c = create_context().unwrap();
        let g = c.create_graph().unwrap();
        let r = g.random(array_type(vec![4], INT64)).unwrap();
        let mut e = Evaluator::new(2, ring_channels().remove(2), Some([7u8; 16])).unwrap();
        e.attach_context(c.clone());
        let v = e.evaluate_node(r, vec![]).unwrap();
        v.to_flattened_array_i64(array_type(vec![4], INT64)).unwrap()
    };
    assert_eq!(run(), run());
}

#[test]
fn wrong_dependency_values_are_refused() {
    let c = create_context().unwrap();
    let g = c.create_graph().unwrap();
    let a = g.input(scalar_type(INT32)).unwrap();
    let b = g.input(scalar_type(INT32)).unwrap();
    let s = a.add(b).unwrap();
    let mut e = Evaluator::new(0, ring_channels().remove(0), Some([1u8; 16])).unwrap();
    e.attach_context(c.clone());
    assert!(matches!(e.evaluate_node(s.clone(), vec![int32(4)]), Err(EvalError::BadInputs)));
    let wide = Value::from_scalar(4i64, INT64).unwrap();
    assert!(matches!(e.evaluate_node(s.clone(), vec![wide, int32(1)]), Err(EvalError::BadInputs)));
    assert_eq!(e.evaluate_node(s, vec![int32(4), int32(1)]).unwrap(), int32(5));
}

#[test]
fn undecodable_text_is_a_transport_error() {
    let (tx_a, rx_a) = std::sync::mpsc::channel::<String>();
    let (tx_b, rx_b) = std::sync::mpsc::channel::<String>();
    let mut ch = Channels::new(tx_a, rx_b, tx_b.clone(), rx_a);
    tx_b.send("not json".to_string()).unwrap();
    assert!(matches!(ch.receive_value(Neighbor::Next), Err(TransportError::Decode)));
}

#[test]
fn nodes_of_another_context_are_refused() {
    let (c, _n) = nop_context(&[]);
    let (_other, node) = nop_context(&[(0, 1)]);
    let mut e = Evaluator::new(0, ring_channels().remove(0), Some([2u8; 16])).unwrap();
    e.attach_context(c);
    assert!(matches!(e.evaluate_node(node, vec![int32(1)]), Err(EvalError::UnknownNode)));
}

#[test]
fn sent_value_comes_back_to_the_sender() {
    let mut bundles = ring_channels();
    let back = bundles[0].send_value(Neighbor::Next, &scalar_type(INT32), int32(9)).unwrap();
    assert_eq!(back, int32(9));
    let wrong = bundles[0].send_value(Neighbor::Next, &scalar_type(INT64), int32(9));
    assert_eq!(wrong, Err(TransportError::Encode));
    assert_eq!(bundles[1].receive_value(Neighbor::Prev).unwrap(), int32(9));
}
