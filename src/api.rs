//! The call tree as it is handed to clients.

use vstd::prelude::*;
use crate::call_trace::InternalCallTrace;

verus! {

/// A call of the trace, with its calls nested in order.
#[derive(Debug, PartialEq, Eq)]
pub struct CallTrace {
    pub pc: u16,
    pub module_id: String,
    pub func_name: String,
    pub inputs: Vec<String>,
    pub outputs: Vec<String>,
    pub type_args: Vec<String>,
    pub sub_traces: Vec<CallTrace>,
}

/// `r` carries the program counter, callee, function, values and type
/// arguments of every call of `ct`, and its calls in the same order.
pub open spec fn carried(ct: InternalCallTrace, r: CallTrace) -> bool
    decreases ct,
{
    &&& r.pc == ct.pc
    &&& r.module_id == ct.module_id
    &&& r.func_name == ct.func_name
    &&& r.inputs == ct.inputs
    &&& r.outputs == ct.outputs
    &&& r.type_args == ct.type_args
    &&& r.sub_traces@.len() == ct.sub_traces.0@.len()
    &&& forall|i: int|
        0 <= i < ct.sub_traces.0@.len() ==> carried(
            #[trigger] ct.sub_traces.0@[i],
            r.sub_traces@[i],
        )
}

impl CallTrace {
    /// The client form of a recorded call tree.
    pub fn from(value: InternalCallTrace) -> (r: CallTrace)
        ensures
            carried(value, r),
        decreases value,
    {
        let ghost orig = value;
        let InternalCallTrace { pc, module_id, func_name, inputs, outputs, type_args, sub_traces, .. } =
            value;
        let mut rest = sub_traces.0;
        let n = rest.len();
        let mut out: Vec<CallTrace> = Vec::new();
        let mut k: usize = 0;
        while k < n
            invariant
                n == orig.sub_traces.0@.len(),
                orig == value,
                k <= n,
                rest@ == orig.sub_traces.0@.subrange(k as int, n as int),
                out@.len() == k,
                forall|j: int| 0 <= j < k ==> carried(#[trigger] orig.sub_traces.0@[j], out@[j]),
            decreases n - k,
        {
            let child = rest.remove(0);
            proof {
                assert(child == orig.sub_traces.0@[k as int]);
                assert(decreases_to!(orig => orig.sub_traces));
                assert(decreases_to!(orig.sub_traces => orig.sub_traces.0));
                assert(decreases_to!(orig.sub_traces.0 => orig.sub_traces.0@));
                assert(decreases_to!(orig.sub_traces.0@ => orig.sub_traces.0@[k as int]));
                assert(rest@ =~= orig.sub_traces.0@.subrange(k + 1, n as int));
                assert(decreases_to!(orig => child));
            }
            let c = CallTrace::from(child);
            out.push(c);
            k = k + 1;
        }
        CallTrace { pc, module_id, func_name, inputs, outputs, type_args, sub_traces: out }
    }
}

} // verus!
