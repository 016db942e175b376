//! The party evaluator: the local kernel with the exchanges at synchronization nodes.

use vstd::prelude::*;
use ciphercore_base::data_values::Value;
use ciphercore_base::errors::Error;
use ciphercore_base::evaluators::simple_evaluator::SimpleEvaluator;
use ciphercore_base::data_types::Type;
use ciphercore_base::graphs::{Context, Node};
use crate::channels::{
    lemma_record_grew_refl, ran_plan, record_grew, same_ends, Channels, TransportError,
};
use crate::exchange::{exchange_plan, plan_of};
use crate::bindings::{
    context_holds, deps_of, fits, in_context, inputs_fit, kernel_evaluate, new_kernel,
    node_annotations, node_dependencies, node_type, node_type_of, op_kind_of, operation_kind,
    share_context, value_fits, Annotation, OpKind,
};
use crate::ring::valid_party;

verus! {

/// Why a party could not evaluate a node.
#[derive(Debug)]
pub enum EvalError {
    /// The kernel could not be set up.
    Setup(Error),
    /// The node is an input, a call or an iteration, which the driver evaluates.
    DriverNode,
    /// No context has been attached to the evaluator yet.
    NoContext,
    /// The node is not a node of the attached context.
    UnknownNode,
    /// The dependency values do not match the node's dependencies in number or type.
    BadInputs,
    /// The type of the node or of one of its dependencies could not be found.
    Types(Error),
    /// The node's annotations could not be read.
    Annotations(Error),
    /// The local kernel failed on the node.
    Kernel(Error),
    /// A channel operation failed.
    Transport(TransportError),
}

/// The bundle went from `before` to `after` by carrying out, for some
/// annotations and some type of value, exactly the plan of `party`, starting
/// from `start` and leaving it holding `v`.
pub open spec fn exchanged(before: Channels, after: Channels, party: u64, start: Value, v: Value) -> bool {
    exists|anns: Seq<Annotation>, t: Type| ran_plan(before, after, plan_of(party, anns), t, start, v)
}

/// One party's evaluator: the local kernel, with the exchanges that the
/// synchronization nodes call for carried out over the party's ring channels.
/// It holds the context whose nodes it evaluates, which keeps them alive.
pub struct Evaluator {
    party: u64,
    channels: Channels,
    simple: SimpleEvaluator,
    context: Option<Context>,
}

impl Evaluator {
    /// The party this evaluator runs for.
    pub closed spec fn party_id(&self) -> u64 {
        self.party
    }

    /// The ring channels the evaluator owns.
    pub closed spec fn spec_channels(&self) -> Channels {
        self.channels
    }

    /// The context whose nodes the evaluator accepts, once attached.
    pub closed spec fn held_context(&self) -> Option<Context> {
        self.context
    }

    /// Sets up the evaluator of `party`, with its kernel's randomness seeded
    /// from `prng_seed` where one is given, and no context attached yet.
    pub fn new(party: u64, channels: Channels, prng_seed: Option<[u8; 16]>) -> (r: Result<
        Self,
        EvalError,
    >)
        requires
            valid_party(party),
        ensures
            prng_seed is Some ==> r is Ok,
            r matches Ok(e) ==> e.party_id() == party && e.spec_channels() == channels
                && e.held_context() is None,
            r is Err ==> r matches Err(EvalError::Setup(_)),
    {
        match new_kernel(prng_seed) {
            Ok(simple) => Ok(Evaluator { party, channels, simple, context: None }),
            Err(e) => Err(EvalError::Setup(e)),
        }
    }

    /// Attaches the context that the driver walks.
    pub fn attach_context(&mut self, context: Context)
        ensures
            final(self).held_context() == Some(context),
            final(self).party_id() == old(self).party_id(),
            final(self).spec_channels() == old(self).spec_channels(),
    {
        self.context = Some(context);
    }

    /// Carries out the exchanges that `anns` ask of this party for a value of
    /// type `t`, starting from `candidate`, and returns the value the party
    /// then holds: `candidate` when the party receives nothing, else the last
    /// value received.
    pub fn exchange(&mut self, anns: &Vec<Annotation>, t: &Type, candidate: Value) -> (r: Result<
        Value,
        TransportError,
    >)
        requires
            valid_party(old(self).party_id()),
        ensures
            final(self).party_id() == old(self).party_id(),
            final(self).held_context() == old(self).held_context(),
            same_ends(final(self).spec_channels(), old(self).spec_channels()),
            record_grew(old(self).spec_channels(), final(self).spec_channels()),
            plan_of(old(self).party_id(), anns@).len() == 0 ==> r == Ok::<Value, TransportError>(
                candidate,
            ),
            r matches Ok(v) ==> ran_plan(
                old(self).spec_channels(),
                final(self).spec_channels(),
                plan_of(old(self).party_id(), anns@),
                *t,
                candidate,
                v,
            ),
    {
        let plan = exchange_plan(self.party, anns);
        self.channels.run_plan(&plan, t, candidate)
    }

    /// Whether `deps` are what the kernel needs for `node`: one value per
    /// dependency, each of that dependency's type.
    pub fn check_inputs(ctx: &Context, node: &Node, deps: &Vec<Value>) -> (r: Result<bool, Error>)
        requires
            in_context(*ctx, *node),
        ensures
            r matches Ok(b) ==> b == inputs_fit(*node, deps@),
            deps@.len() != deps_of(*node).len() ==> r matches Ok(false),
    {
        let ds = node_dependencies(ctx, node);
        if ds.len() != deps.len() {
            return Ok(false);
        }
        let mut i: usize = 0;
        while i < ds.len()
            invariant
                ds@ == deps_of(*node),
                forall|k: int| 0 <= k < ds@.len() ==> in_context(*ctx, #[trigger] ds@[k]),
                ds.len() == deps.len(),
                0 <= i <= ds.len(),
                forall|j: int| 0 <= j < i ==> fits(#[trigger] deps@[j], node_type_of(deps_of(*node)[j])),
            decreases ds.len() - i,
        {
            let t = node_type(ctx, &ds[i])?;
            if !value_fits(&deps[i], &t)? {
                return Ok(false);
            }
            i = i + 1;
        }
        Ok(true)
    }

    /// Evaluates `node`, a node of the attached context, on the values of its
    /// dependencies with the local kernel; at a synchronization node the
    /// result then goes through the exchanges of its send annotations. Other
    /// nodes touch no channel.
    pub fn evaluate_node(&mut self, node: Node, dependencies_values: Vec<Value>) -> (r: Result<
        Value,
        EvalError,
    >)
        requires
            valid_party(old(self).party_id()),
        ensures
            final(self).party_id() == old(self).party_id(),
            final(self).held_context() == old(self).held_context(),
            same_ends(final(self).spec_channels(), old(self).spec_channels()),
            record_grew(old(self).spec_channels(), final(self).spec_channels()),
            r matches Err(EvalError::DriverNode) <==> op_kind_of(node) == OpKind::DriverOnly,
            r matches Err(EvalError::NoContext) <==> (op_kind_of(node) != OpKind::DriverOnly
                && old(self).held_context() is None),
            r matches Err(EvalError::UnknownNode) <==> (op_kind_of(node) != OpKind::DriverOnly
                && old(self).held_context() is Some && !in_context(
                old(self).held_context()->Some_0,
                node,
            )),
            r matches Err(EvalError::BadInputs) ==> !inputs_fit(node, dependencies_values@),
            r is Ok ==> inputs_fit(node, dependencies_values@),
            op_kind_of(node) != OpKind::Nop ==> {
                &&& final(self).spec_channels().sent() == old(self).spec_channels().sent()
                &&& final(self).spec_channels().received() == old(self).spec_channels().received()
            },
            op_kind_of(node) == OpKind::Nop && r is Ok ==> exchanged(
                old(self).spec_channels(),
                final(self).spec_channels(),
                old(self).party_id(),
                dependencies_values@[0],
                r->Ok_0,
            ),
    {
        proof {
            lemma_record_grew_refl(self.channels);
        }
        let kind = operation_kind(&node);
        if kind == OpKind::DriverOnly {
            return Err(EvalError::DriverNode);
        }
        let ctx = match &self.context {
            Some(c) => share_context(c),
            None => {
                return Err(EvalError::NoContext);
            },
        };
        if !context_holds(&ctx, &node) {
            return Err(EvalError::UnknownNode);
        }
        match Self::check_inputs(&ctx, &node, &dependencies_values) {
            Ok(true) => {},
            Ok(false) => {
                return Err(EvalError::BadInputs);
            },
            Err(e) => {
                return Err(EvalError::Types(e));
            },
        }
        let ghost deps = dependencies_values@;
        if kind != OpKind::Nop {
            return match kernel_evaluate(&ctx, &mut self.simple, node, dependencies_values) {
                Ok(v) => Ok(v),
                Err(e) => Err(EvalError::Kernel(e)),
            };
        }
        let anns = match node_annotations(&ctx, &node) {
            Ok(a) => a,
            Err(e) => {
                return Err(EvalError::Annotations(e));
            },
        };
        let t = match node_type(&ctx, &node) {
            Ok(t) => t,
            Err(e) => {
                return Err(EvalError::Types(e));
            },
        };
        let candidate = match kernel_evaluate(&ctx, &mut self.simple, node, dependencies_values) {
            Ok(v) => v,
            Err(e) => {
                return Err(EvalError::Kernel(e));
            },
        };
        let ghost mid = self.channels;
        match self.exchange(&anns, &t, candidate) {
            Ok(v) => {
                assert(ran_plan(mid, self.channels, plan_of(self.party, anns@), t, deps[0], v));
                assert(exchanged(old(self).spec_channels(), self.spec_channels(), self.party, deps[0], v));
                Ok(v)
            },
            Err(e) => Err(EvalError::Transport(e)),
        }
    }
}

} // verus!
