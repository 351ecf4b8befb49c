use vstd::prelude::*;
use crate::captured::Captured;
use crate::data::Data;
use crate::data::DataModel;
use crate::data::data_models;

verus! {

/// A fatal internal invariant violation: evidence of a resolver or code
/// generation bug, never a user-facing language error.
#[derive(Clone, Copy, Debug, PartialEq, Eq, Structural)]
pub enum InternalError {
    FrameStackUnderflow,
    CaptureIndexOutOfRange,
}

/// A closure value at runtime: the address of its code and the values it
/// captured at construction. The capture vector is owned: each entry is an
/// independent copy, never a live alias into the value stack.
#[derive(Debug, PartialEq)]
pub struct Closure {
    pub code_address: usize,
    pub captured: Vec<Data>,
}

/// Every capture descriptor addresses inside the structure it reads:
/// a local capture inside the enclosing frame's window of the value stack,
/// a forwarded capture inside the enclosing closure's capture vector.
pub open spec fn captures_in_range(
    descriptors: Seq<Captured>,
    stack_len: nat,
    base: nat,
    enclosing_len: nat,
) -> bool {
    forall|i: int|
        0 <= i < descriptors.len() ==> {
            let d = #[trigger] descriptors[i];
            if d.is_local {
                base + d.index < stack_len
            } else {
                d.index < enclosing_len
            }
        }
}

/// The value one capture descriptor reads at closure-construction time.
pub open spec fn captured_value(
    d: Captured,
    stack: Seq<DataModel>,
    base: nat,
    enclosing: Seq<DataModel>,
) -> DataModel {
    if d.is_local {
        stack[base + d.index]
    } else {
        enclosing[d.index as int]
    }
}

/// The capture vector a descriptor list produces: one copied value per
/// descriptor, in capture-list order.
pub open spec fn captured_values(
    descriptors: Seq<Captured>,
    stack: Seq<DataModel>,
    base: nat,
    enclosing: Seq<DataModel>,
) -> Seq<DataModel> {
    descriptors.map_values(|d: Captured| captured_value(d, stack, base, enclosing))
}

/// Resolve a function literal's capture descriptors against the execution
/// context at its point of evaluation: the value stack, the current frame's
/// base, and the currently executing closure's own capture vector. Each
/// descriptor yields a copy; an out-of-range index is a fatal internal
/// error, reported as such for every descriptor list that holds one.
pub fn capture_values(
    descriptors: &Vec<Captured>,
    stack: &Vec<Data>,
    base: usize,
    enclosing: &Vec<Data>,
) -> (r: Result<Vec<Data>, InternalError>)
    ensures
        captures_in_range(descriptors@, stack@.len(), base as nat, enclosing@.len()) ==> (r
            matches Ok(v) && data_models(v@) =~= captured_values(
            descriptors@,
            data_models(stack@),
            base as nat,
            data_models(enclosing@),
        )),
        !captures_in_range(descriptors@, stack@.len(), base as nat, enclosing@.len()) ==> (r
            matches Err(e) && e == InternalError::CaptureIndexOutOfRange),
{
    let mut values: Vec<Data> = Vec::new();
    let mut i: usize = 0;
    while i < descriptors.len()
        invariant
            i <= descriptors@.len(),
            captures_in_range(
                descriptors@.subrange(0, i as int),
                stack@.len(),
                base as nat,
                enclosing@.len(),
            ),
            data_models(values@) =~= captured_values(
                descriptors@.subrange(0, i as int),
                data_models(stack@),
                base as nat,
                data_models(enclosing@),
            ),
        decreases descriptors@.len() - i,
    {
        let ghost values0 = values@;
        let d = descriptors[i];
        if d.is_local {
            if d.index < stack.len() && base < stack.len() - d.index {
                values.push(stack[base + d.index].duplicate());
            } else {
                proof {
                    assert(!captures_in_range(
                        descriptors@,
                        stack@.len(),
                        base as nat,
                        enclosing@.len(),
                    ));
                }
                return Err(InternalError::CaptureIndexOutOfRange);
            }
        } else {
            if d.index < enclosing.len() {
                values.push(enclosing[d.index].duplicate());
            } else {
                proof {
                    assert(!captures_in_range(
                        descriptors@,
                        stack@.len(),
                        base as nat,
                        enclosing@.len(),
                    ));
                }
                return Err(InternalError::CaptureIndexOutOfRange);
            }
        }
        proof {
            assert(data_models(values@) =~= data_models(values0).push(values@.last()@));
            assert(forall|l: int|
                0 <= l < i + 1 ==> #[trigger] descriptors@.subrange(0, i + 1)[l]
                    == descriptors@[l]);
        }
        i += 1;
    }
    proof {
        assert(descriptors@.subrange(0, descriptors@.len() as int) =~= descriptors@);
    }
    Ok(values)
}

/// Construct the closure a function literal evaluates to: its code address
/// paired with the capture vector its descriptors resolve to right now.
pub fn make_closure(
    code_address: usize,
    descriptors: &Vec<Captured>,
    stack: &Vec<Data>,
    base: usize,
    enclosing: &Vec<Data>,
) -> (r: Result<Closure, InternalError>)
    ensures
        captures_in_range(descriptors@, stack@.len(), base as nat, enclosing@.len()) ==> (r
            matches Ok(c) && c.code_address == code_address && data_models(c.captured@)
            =~= captured_values(
            descriptors@,
            data_models(stack@),
            base as nat,
            data_models(enclosing@),
        )),
        !captures_in_range(descriptors@, stack@.len(), base as nat, enclosing@.len()) ==> (r
            matches Err(e) && e == InternalError::CaptureIndexOutOfRange),
{
    match capture_values(descriptors, stack, base, enclosing) {
        Ok(values) => Ok(Closure { code_address, captured: values }),
        Err(e) => Err(e),
    }
}

/// Capture value-semantics: a capture vector is fixed when the closure is
/// constructed. Overwriting the stack slot a local capture was copied from
/// afterwards does not reach back into it: the vector constructed before the
/// write still holds the old value, and only a closure constructed anew from
/// the mutated stack would see the new one.
pub proof fn lemma_capture_value_semantics(
    descriptors: Seq<Captured>,
    stack: Seq<DataModel>,
    base: nat,
    enclosing: Seq<DataModel>,
    i: int,
    d: DataModel,
)
    requires
        0 <= i < descriptors.len(),
        descriptors[i].is_local,
        base + descriptors[i].index < stack.len(),
    ensures
        captured_values(descriptors, stack, base, enclosing)[i] == stack[base
            + descriptors[i].index],
        captured_values(descriptors, stack.update(base + descriptors[i].index, d), base, enclosing)[i]
            == d,
{
}

} // verus!
