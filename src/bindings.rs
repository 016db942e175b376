//! Bindings to ciphercore and to std's channels: the types the library
//! carries, and the calls it makes into them, each with what it relies on.

use vstd::prelude::*;
use ciphercore_base::data_types::Type;
use ciphercore_base::data_values::Value;
use ciphercore_base::errors::Error;
use ciphercore_base::evaluators::simple_evaluator::SimpleEvaluator;
use ciphercore_base::graphs::{Context, Node, NodeAnnotation, Operation};
use ciphercore_base::typed_value::TypedValue;
use std::sync::mpsc::{Receiver, Sender};

verus! {

#[verifier::external_type_specification]
#[verifier::external_body]
pub struct ExValue(Value);

#[verifier::external_type_specification]
#[verifier::external_body]
pub struct ExType(Type);

#[verifier::external_type_specification]
pub struct ExTypedValue(TypedValue);

#[verifier::external_type_specification]
#[verifier::external_body]
pub struct ExNode(Node);

#[verifier::external_type_specification]
#[verifier::external_body]
pub struct ExContext(Context);

#[verifier::external_type_specification]
#[verifier::external_body]
pub struct ExSimpleEvaluator(SimpleEvaluator);

#[verifier::external_type_specification]
#[verifier::external_body]
pub struct ExError(Error);

#[verifier::external_type_specification]
#[verifier::external_body]
pub struct ExJsonError(serde_json::Error);

#[verifier::external_type_specification]
#[verifier::external_body]
#[verifier::reject_recursive_types(T)]
pub struct ExSender<T>(Sender<T>);

#[verifier::external_type_specification]
#[verifier::external_body]
#[verifier::reject_recursive_types(T)]
pub struct ExReceiver<T>(Receiver<T>);

/// How the local kernel treats a node's operation.
#[derive(Clone, Copy, Debug, PartialEq, Eq, Structural)]
pub enum OpKind {
    /// The synchronization marker: computes nothing, may carry sends.
    Nop,
    /// An input, a call or an iteration: the graph-walking driver evaluates
    /// these itself, and the kernel refuses them.
    DriverOnly,
    /// Any other operation, computed by the kernel.
    Compute,
}

/// A node annotation, as far as the exchange of values is concerned.
#[derive(Clone, Copy, Debug, PartialEq, Eq, Structural)]
pub enum Annotation {
    /// `Send(sender, receiver)`: at this node `sender` hands its value to `receiver`.
    Send(u64, u64),
    /// Any annotation that asks for no exchange.
    Other,
}

/// The kind of operation that a node performs.
pub uninterp spec fn op_kind_of(n: Node) -> OpKind;

/// Whether ciphercore's `get_size_in_bits` succeeds on a type.
pub uninterp spec fn has_bit_size(t: Type) -> bool;

/// The zero value of a type.
pub uninterp spec fn zero_of(t: Type) -> Value;

/// The JSON text of a typed value.
pub uninterp spec fn json_of(v: TypedValue) -> Seq<char>;

/// The typed value that a JSON text decodes to.
pub uninterp spec fn typed_from_json(s: Seq<char>) -> TypedValue;

/// The node is one of the nodes of the context's graphs.
pub uninterp spec fn in_context(c: Context, n: Node) -> bool;

/// Relies on `Context`'s `Clone`, which copies the pointer to the same context.
#[verifier::external_body]
pub(crate) fn share_context(c: &Context) -> (r: Context)
    ensures
        r == *c,
{
    c.clone()
}

/// Relies on `Context::get_graphs`, `Graph::get_nodes` and `Node`'s `==`
/// (pointer equality); none of them reaches through a weak pointer.
#[verifier::external_body]
pub(crate) fn context_holds(c: &Context, n: &Node) -> (r: bool)
    ensures
        r == in_context(*c, *n),
{
    c.get_graphs().iter().any(|g| g.get_nodes().contains(n))
}

/// Relies on `Node::get_operation`, which returns the operation fixed when
/// the node was created; only its kind is kept.
#[verifier::external_body]
pub(crate) fn operation_kind(node: &Node) -> (r: OpKind)
    ensures
        r == op_kind_of(*node),
{
    match node.get_operation() {
        Operation::NOP => OpKind::Nop,
        Operation::Input(_) => OpKind::DriverOnly,
        Operation::Call => OpKind::DriverOnly,
        Operation::Iterate => OpKind::DriverOnly,
        _ => OpKind::Compute,
    }
}

/// Relies on `Node::get_annotations`; each `NodeAnnotation::Send` keeps its
/// pair of parties, the other kinds become `Other`, in the same order. Like
/// every ciphercore call that reaches a node's graph, it panics once the
/// node's context has been dropped: `requires` asks for a node of a context
/// that the caller holds, borrowed for the call.
#[verifier::external_body]
pub(crate) fn node_annotations(ctx: &Context, node: &Node) -> (r: Result<Vec<Annotation>, Error>)
    requires
        in_context(*ctx, *node),
{
    node.get_annotations().map(
        |a| a.into_iter().map(|x| match x {
            NodeAnnotation::Send(s, r) => Annotation::Send(s, r),
            _ => Annotation::Other,
        }).collect(),
    )
}

/// Relies on `get_size_in_bits`, which fails on an invalid type or when the
/// size overflows `u64`.
#[verifier::external_body]
pub(crate) fn type_has_bit_size(t: &Type) -> (r: bool)
    ensures
        r == has_bit_size(*t),
{
    ciphercore_base::data_types::get_size_in_bits(t.clone()).is_ok()
}

/// Relies on `Value::zero_of_type`, a function of the type alone. It unwraps
/// `get_size_in_bits` of the type (and of its parts, whose sizes are known
/// whenever the whole's is), so it is only called where that succeeds.
#[verifier::external_body]
pub(crate) fn zero_value(t: &Type) -> (r: Value)
    requires
        has_bit_size(*t),
    ensures
        r == zero_of(*t),
{
    Value::zero_of_type(t.clone())
}

/// Relies on `SimpleEvaluator::new`, which seeds the kernel's randomness
/// from `seed`, or from the system when there is none; with a seed given
/// nothing in it can fail (`PRNG::new` only reads the system on `None`).
#[verifier::external_body]
pub(crate) fn new_kernel(seed: Option<[u8; 16]>) -> (r: Result<SimpleEvaluator, Error>)
    ensures
        seed is Some ==> r is Ok,
{
    SimpleEvaluator::new(seed)
}

/// The nodes a node depends on, in order.
pub uninterp spec fn deps_of(n: Node) -> Seq<Node>;

/// The type inferred for a node.
pub uninterp spec fn node_type_of(n: Node) -> Type;

/// Whether a value has a type.
pub uninterp spec fn fits(v: Value, t: Type) -> bool;

/// The kernel gets one value per dependency of the node, each of the
/// dependency's type.
pub open spec fn inputs_fit(node: Node, deps: Seq<Value>) -> bool {
    &&& deps.len() == deps_of(node).len()
    &&& forall|i: int| 0 <= i < deps.len() ==> fits(#[trigger] deps[i], node_type_of(deps_of(node)[i]))
}

/// Relies on `Node::get_node_dependencies`, fixed when the node was created;
/// ciphercore refuses a dependency from another graph, so they lie in the
/// same context. It panics, as `node_annotations` says, once that is gone.
#[verifier::external_body]
pub(crate) fn node_dependencies(ctx: &Context, node: &Node) -> (r: Vec<Node>)
    requires
        in_context(*ctx, *node),
    ensures
        r@ == deps_of(*node),
        forall|i: int| 0 <= i < r@.len() ==> in_context(*ctx, #[trigger] r@[i]),
{
    node.get_node_dependencies()
}

/// Relies on `Node::get_type`, which infers the node's type (and caches it);
/// it needs the node's context alive, as `node_annotations` says.
#[verifier::external_body]
pub(crate) fn node_type(ctx: &Context, node: &Node) -> (r: Result<Type, Error>)
    requires
        in_context(*ctx, *node),
    ensures
        r matches Ok(t) ==> t == node_type_of(*node),
{
    node.get_type()
}

/// Relies on `Value::check_type`, which tells whether the value has the type.
#[verifier::external_body]
pub(crate) fn value_fits(v: &Value, t: &Type) -> (r: Result<bool, Error>)
    ensures
        r matches Ok(b) ==> b == fits(*v, *t),
{
    v.check_type(t.clone())
}

/// Relies on `SimpleEvaluator::evaluate_node`, the local kernel. It panics on
/// the operations that the driver evaluates itself, and it indexes the
/// dependency values by the node's dependencies, reading each by its type,
/// and reaches the node's graph, which must still be alive; `requires` leaves
/// all three out. On the synchronization marker it hands back the first
/// dependency value.
#[verifier::external_body]
pub(crate) fn kernel_evaluate(
    ctx: &Context,
    kernel: &mut SimpleEvaluator,
    node: Node,
    deps: Vec<Value>,
) -> (r: Result<Value, Error>)
    requires
        in_context(*ctx, node),
        op_kind_of(node) != OpKind::DriverOnly,
        inputs_fit(node, deps@),
    ensures
        op_kind_of(node) == OpKind::Nop && r is Ok ==> r->Ok_0 == deps@[0],
{
    ciphercore_base::evaluators::Evaluator::evaluate_node(kernel, node, deps)
}

/// Relies on `TypedValue::new`, which pairs a value with a type it has (no
/// name), and fails when the value does not have that type.
#[verifier::external_body]
pub(crate) fn with_type(t: &Type, v: Value) -> (r: Result<TypedValue, Error>)
    ensures
        r matches Ok(tv) ==> tv == (TypedValue { value: v, t: *t, name: None }),
{
    TypedValue::new(t.clone(), v)
}

/// Relies on `serde_json::to_string`, on ciphercore's `Serialize` for
/// `TypedValue`.
#[verifier::external_body]
pub(crate) fn encode_typed(v: &TypedValue) -> (r: Result<String, serde_json::Error>)
    ensures
        r matches Ok(s) ==> s@ == json_of(*v),
{
    serde_json::to_string(v)
}

/// Relies on `serde_json::from_str::<TypedValue>`, on ciphercore's
/// `Deserialize` for `TypedValue`, which reports every malformed text as an
/// error.
#[verifier::external_body]
pub(crate) fn decode_typed(s: &str) -> (r: Result<TypedValue, serde_json::Error>)
    ensures
        r matches Ok(v) ==> v == typed_from_json(s@),
{
    serde_json::from_str::<TypedValue>(s)
}

/// The sender and the receiver are the two ends of one channel.
pub uninterp spec fn linked(tx: Sender<String>, rx: Receiver<String>) -> bool;

/// Relies on `std::sync::mpsc::channel`, which returns the two ends of a new
/// unbounded FIFO channel.
#[verifier::external_body]
pub(crate) fn new_edge() -> (r: (Sender<String>, Receiver<String>))
    ensures
        linked(r.0, r.1),
{
    std::sync::mpsc::channel()
}

/// Relies on `Sender::send`, which fails only when the receiving end is gone.
#[verifier::external_body]
pub(crate) fn send_message(tx: &Sender<String>, msg: String) -> (r: bool) {
    tx.send(msg).is_ok()
}

/// Relies on `Receiver::recv`, which blocks until a message arrives and fails
/// only when every sending end is gone.
#[verifier::external_body]
pub(crate) fn receive_message(rx: &Receiver<String>) -> (r: Option<String>) {
    rx.recv().ok()
}

} // verus!
