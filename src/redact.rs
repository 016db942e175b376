//! Input redaction: each party zeroes the input slots that other parties own.

use vstd::prelude::*;
use ciphercore_base::typed_value::TypedValue;
use crate::bindings::{has_bit_size, type_has_bit_size, zero_of, zero_value};
use crate::tags::InputTag;

verus! {

/// Why inputs could not be redacted.
#[derive(Clone, Copy, Debug, PartialEq, Eq, Structural)]
pub enum RedactError {
    /// The slot at this index must be zeroed, but its type has no known size.
    UnsizedType(usize),
}

/// A party sees an input slot as it is when the slot is public, already
/// shared, or its own.
pub open spec fn keeps_input(tag: InputTag, party: u64) -> bool {
    match tag {
        InputTag::Party(owner) => owner == party,
        _ => true,
    }
}

/// The slot with its value replaced by the zero of its type.
pub open spec fn zeroed(v: TypedValue) -> TypedValue {
    TypedValue { value: zero_of(v.t), ..v }
}

/// What `party` holds in a slot tagged `tag`.
pub open spec fn redacted_slot(v: TypedValue, tag: InputTag, party: u64) -> TypedValue {
    if keeps_input(tag, party) {
        v
    } else {
        zeroed(v)
    }
}

/// Every slot that `party` must not see has a type whose zero can be built.
pub open spec fn can_redact(inputs: Seq<TypedValue>, tags: Seq<InputTag>, party: u64) -> bool {
    forall|i: int|
        0 <= i < inputs.len() && !keeps_input(tags[i], party) ==> has_bit_size(
            #[trigger] inputs[i].t,
        )
}

/// Whether `party` keeps a slot tagged `tag`.
pub fn keeps_slot(tag: InputTag, party: u64) -> (r: bool)
    ensures
        r == keeps_input(tag, party),
{
    match tag {
        InputTag::Party(owner) => owner == party,
        _ => true,
    }
}

/// The inputs as `party` may hold them: each slot owned by another party is
/// replaced by the zero value of its type; every other slot is kept.
pub fn redact_inputs(inputs: Vec<TypedValue>, tags: &Vec<InputTag>, party: u64) -> (r: Result<
    Vec<TypedValue>,
    RedactError,
>)
    requires
        inputs.len() == tags.len(),
    ensures
        r is Ok <==> can_redact(inputs@, tags@, party),
        r matches Ok(out) ==> {
            &&& out.len() == inputs.len()
            &&& forall|i: int|
                0 <= i < inputs.len() ==> #[trigger] out@[i] == redacted_slot(
                    inputs@[i],
                    tags@[i],
                    party,
                )
        },
        r matches Err(RedactError::UnsizedType(k)) ==> {
            &&& k < inputs.len()
            &&& !keeps_input(tags@[k as int], party)
            &&& !has_bit_size(inputs@[k as int].t)
        },
{
    let ghost orig = inputs@;
    let n = inputs.len();
    let mut rest = inputs;
    let mut out: Vec<TypedValue> = Vec::new();
    let mut i: usize = 0;
    while i < n
        invariant
            orig == inputs@,
            n == orig.len(),
            n == tags.len(),
            0 <= i <= n,
            out.len() == i,
            rest@ == orig.skip(i as int),
            forall|j: int| 0 <= j < i ==> #[trigger] out@[j] == redacted_slot(orig[j], tags@[j], party),
            forall|j: int|
                0 <= j < i && !keeps_input(tags@[j], party) ==> has_bit_size(#[trigger] orig[j].t),
        decreases n - i,
    {
        let mut item = rest.remove(0);
        assert(item == orig[i as int]);
        if !keeps_slot(tags[i], party) {
            if !type_has_bit_size(&item.t) {
                assert(!has_bit_size(orig[i as int].t));
                assert(!can_redact(orig, tags@, party));
                return Err(RedactError::UnsizedType(i));
            }
            item.value = zero_value(&item.t);
        }
        out.push(item);
        i = i + 1;
        assert(rest@ =~= orig.skip(i as int));
    }
    Ok(out)
}

/// Redaction isolates owned inputs: in a slot owned by party `owner`, the
/// owner holds the original value, while every other party holds the zero of
/// the slot's type, with the type and the name kept; public and shared slots
/// are held unchanged by all.
pub proof fn lemma_redaction_isolates(v: TypedValue, tag: InputTag, party: u64)
    ensures
        tag matches InputTag::Party(owner) ==> (owner == party ==> redacted_slot(v, tag, party)
            == v),
        tag matches InputTag::Party(owner) ==> (owner != party ==> {
            &&& redacted_slot(v, tag, party).value == zero_of(v.t)
            &&& redacted_slot(v, tag, party).t == v.t
            &&& redacted_slot(v, tag, party).name == v.name
        }),
        !(tag is Party) ==> redacted_slot(v, tag, party) == v,
{
}

} // verus!
