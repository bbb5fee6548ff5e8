//! Recording of nested invocation frames during one replay.

use vstd::prelude::*;
use crate::gas::GasInfo;
use crate::module_id::{account_part, split_module_id};

verus! {

/// Bound on the number of open frames of a stack and on the number of
/// children of one frame.
pub const CALL_STACK_SIZE_LIMIT: usize = 1024;

/// The error with which the VM stopped a frame.
#[derive(Clone, Debug, PartialEq, Eq)]
pub struct FrameError {
    pub status_code: u64,
    pub message: String,
}

/// One recorded invocation.
#[derive(Debug, PartialEq, Eq)]
pub struct InternalCallTrace {
    pub pc: u16,
    pub from_module_id: String,
    pub module_id: String,
    pub func_name: String,
    pub inputs: Vec<String>,
    pub outputs: Vec<String>,
    pub type_args: Vec<String>,
    pub sub_traces: CallTraces,
    pub fdef_idx: u16,
    pub gas_info: GasInfo,
    pub error: Option<FrameError>,
}

/// A bounded stack of open frames (innermost last), together with the
/// accounts of the modules that were called.
#[derive(Debug, PartialEq, Eq)]
pub struct CallTraces(pub Vec<InternalCallTrace>, pub Vec<String>);

/// A stack or a child list would grow past `CALL_STACK_SIZE_LIMIT`.
#[derive(Clone, Copy, Debug, PartialEq, Eq)]
pub struct CapacityError;

/// A VM error together with the frames recorded up to it.
#[derive(Debug)]
pub struct CallTraceError {
    pub call_traces: CallTraces,
    pub vm_error: FrameError,
}

/// The accounts in `accounts`, as a set of texts.
pub open spec fn account_set(accounts: Seq<String>) -> Set<Seq<char>> {
    Set::new(|a: Seq<char>| exists|i: int| 0 <= i < accounts.len() && accounts[i]@ == a)
}

/// No account is listed twice.
pub open spec fn distinct_accounts(accounts: Seq<String>) -> bool {
    forall|i: int, j: int|
        0 <= i < accounts.len() && 0 <= j < accounts.len() && i != j ==> accounts[i]@
            != accounts[j]@
}

/// The frames after pushing `t` on `frames`, and whether the push was taken.
pub open spec fn push_frames(frames: Seq<InternalCallTrace>, t: InternalCallTrace) -> (Seq<
    InternalCallTrace,
>, bool) {
    if frames.len() < CALL_STACK_SIZE_LIMIT {
        (frames.push(t), true)
    } else {
        (frames, false)
    }
}

/// The frames after pushing each of `ts` in order.
pub open spec fn push_all(frames: Seq<InternalCallTrace>, ts: Seq<InternalCallTrace>) -> Seq<
    InternalCallTrace,
>
    decreases ts.len(),
{
    if ts.len() == 0 {
        frames
    } else {
        push_frames(push_all(frames, ts.drop_last()), ts.last()).0
    }
}

/// The innermost frame and the frames left after removing it.
pub open spec fn pop_frames(frames: Seq<InternalCallTrace>) -> (Seq<InternalCallTrace>, Option<
    InternalCallTrace,
>) {
    if frames.len() == 0 {
        (frames, None)
    } else {
        (frames.drop_last(), Some(frames.last()))
    }
}

impl InternalCallTrace {
    /// A frame with no names, values, children, gas or error.
    pub open spec fn spec_empty(self) -> bool {
        &&& self.pc == 0
        &&& self.from_module_id@.len() == 0
        &&& self.module_id@.len() == 0
        &&& self.func_name@.len() == 0
        &&& self.inputs@.len() == 0
        &&& self.outputs@.len() == 0
        &&& self.type_args@.len() == 0
        &&& self.sub_traces.0@.len() == 0
        &&& self.sub_traces.1@.len() == 0
        &&& self.fdef_idx == 0
        &&& self.gas_info == GasInfo::spec_make(0)
        &&& self.error.is_none()
    }
}

impl Default for InternalCallTrace {
    fn default() -> (r: Self)
        ensures
            r.spec_empty(),
    {
        InternalCallTrace {
            pc: 0,
            from_module_id: String::new(),
            module_id: String::new(),
            func_name: String::new(),
            inputs: Vec::new(),
            outputs: Vec::new(),
            type_args: Vec::new(),
            sub_traces: CallTraces::new(),
            fdef_idx: 0,
            gas_info: GasInfo::make_frame(0),
            error: None,
        }
    }
}

impl CallTraces {
    /// The open frames, innermost last.
    pub open spec fn frames(&self) -> Seq<InternalCallTrace> {
        self.0@
    }

    /// The accounts touched so far.
    pub open spec fn touched(&self) -> Set<Seq<char>> {
        account_set(self.1@)
    }

    /// Within the bound, and no account listed twice.
    pub open spec fn wf(&self) -> bool {
        &&& self.0@.len() <= CALL_STACK_SIZE_LIMIT
        &&& distinct_accounts(self.1@)
    }

    /// An empty stack.
    pub fn new() -> (r: Self)
        ensures
            r.frames().len() == 0,
            r.touched() == Set::<Seq<char>>::empty(),
            r.1@.len() == 0,
            r.wf(),
    {
        let r = CallTraces(Vec::new(), Vec::new());
        assert(r.touched() =~= Set::<Seq<char>>::empty());
        r
    }

    /// Adds `account` to the touched accounts unless it is there already.
    fn insert_account(&mut self, account: String)
        ensures
            final(self).0 == old(self).0,
            final(self).touched() == old(self).touched().insert(account@),
            distinct_accounts(old(self).1@) ==> distinct_accounts(final(self).1@),
    {
        let n = self.1.len();
        let mut i: usize = 0;
        while i < n
            invariant
                n == self.1@.len(),
                i <= n,
                *self == *old(self),
                forall|j: int| 0 <= j < i ==> self.1@[j]@ != account@,
            decreases n - i,
        {
            if self.1[i] == account {
                assert(self.touched() =~= self.touched().insert(account@));
                return;
            }
            i = i + 1;
        }
        let ghost before = self.1@;
        self.1.push(account);
        assert(self.touched() =~= account_set(before).insert(account@)) by {
            assert forall|a: Seq<char>| #[trigger] self.touched().contains(a) <==> account_set(
                before,
            ).insert(account@).contains(a) by {
                if account_set(before).contains(a) {
                    let k = choose|k: int| 0 <= k < before.len() && before[k]@ == a;
                    assert(self.1@[k] == before[k]);
                }
                if self.touched().contains(a) {
                    let k = choose|k: int| 0 <= k < self.1@.len() && self.1@[k]@ == a;
                    if k < before.len() {
                        assert(before[k] == self.1@[k]);
                    }
                }
                if a == account@ {
                    assert(self.1@[before.len() as int]@ == a);
                }
            }
        }
    }

    /// Opens `trace` as the innermost frame and records the account of its
    /// callee module; when the stack is full, hands `trace` back unchanged.
    pub fn push(&mut self, trace: InternalCallTrace) -> (r: Result<(), InternalCallTrace>)
        ensures
            old(self).wf() ==> final(self).wf(),
            final(self).frames() == push_frames(old(self).frames(), trace).0,
            r is Ok <==> push_frames(old(self).frames(), trace).1,
            r is Ok ==> final(self).touched() == old(self).touched().insert(
                account_part(trace.module_id@),
            ),
            r is Err ==> r == Err::<(), InternalCallTrace>(trace) && *final(self) == *old(self),
            distinct_accounts(old(self).1@) ==> distinct_accounts(final(self).1@),
    {
        if self.0.len() < CALL_STACK_SIZE_LIMIT {
            let (account, _module) = split_module_id(trace.module_id.as_str());
            self.0.push(trace);
            self.insert_account(account);
            Ok(())
        } else {
            Err(trace)
        }
    }

    /// Inserts `trace` as the outermost frame; when the stack is full, hands
    /// `trace` back unchanged.
    pub fn prepend(&mut self, trace: InternalCallTrace) -> (r: Result<(), InternalCallTrace>)
        ensures
            old(self).wf() ==> final(self).wf(),
            old(self).frames().len() < CALL_STACK_SIZE_LIMIT ==> r is Ok && final(self).frames()
                == seq![trace] + old(self).frames() && final(self).1 == old(self).1,
            old(self).frames().len() >= CALL_STACK_SIZE_LIMIT ==> r == Err::<(), InternalCallTrace>(
                trace,
            ) && *final(self) == *old(self),
    {
        if self.0.len() < CALL_STACK_SIZE_LIMIT {
            self.0.insert(0, trace);
            assert(self.0@ =~= seq![trace] + old(self).0@);
            Ok(())
        } else {
            Err(trace)
        }
    }

    /// Removes and returns the innermost frame.
    pub fn pop(&mut self) -> (r: Option<InternalCallTrace>)
        ensures
            old(self).wf() ==> final(self).wf(),
            (final(self).frames(), r) == pop_frames(old(self).frames()),
            final(self).1 == old(self).1,
    {
        self.0.pop()
    }

    /// Sets the outputs of the innermost frame.
    pub fn set_outputs(&mut self, outputs: Vec<String>)
        requires
            old(self).frames().len() > 0,
        ensures
            final(self).frames() == old(self).frames().update(
                old(self).frames().len() - 1,
                (InternalCallTrace { outputs, ..old(self).frames().last() }),
            ),
            final(self).1 == old(self).1,
    {
        let mut last = self.0.pop().unwrap();
        last.outputs = outputs;
        self.0.push(last);
        assert(self.0@ =~= old(self).0@.update(
            old(self).0@.len() - 1,
            (InternalCallTrace { outputs, ..old(self).0@.last() }),
        ));
    }

    /// Sets the error of the innermost frame.
    pub fn set_error(&mut self, error: FrameError)
        requires
            old(self).frames().len() > 0,
        ensures
            final(self).frames() == old(self).frames().update(
                old(self).frames().len() - 1,
                (InternalCallTrace { error: Some(error), ..old(self).frames().last() }),
            ),
            final(self).1 == old(self).1,
    {
        let mut last = self.0.pop().unwrap();
        last.error = Some(error);
        self.0.push(last);
        assert(self.0@ =~= old(self).0@.update(
            old(self).0@.len() - 1,
            (InternalCallTrace { error: Some(error), ..old(self).0@.last() }),
        ));
    }

    /// Closes the gas record of the innermost frame at `balance`.
    pub fn set_gas_end(&mut self, balance: u64)
        requires
            old(self).frames().len() > 0,
        ensures
            final(self).frames() == old(self).frames().update(
                old(self).frames().len() - 1,
                (InternalCallTrace {
                    gas_info: old(self).frames().last().gas_info.spec_closed(balance),
                    ..old(self).frames().last()
                }),
            ),
            final(self).1 == old(self).1,
    {
        let mut last = self.0.pop().unwrap();
        last.gas_info.close_frame(balance);
        self.0.push(last);
        assert(self.0@ =~= old(self).0@.update(
            old(self).0@.len() - 1,
            (InternalCallTrace {
                gas_info: old(self).0@.last().gas_info.spec_closed(balance),
                ..old(self).0@.last()
            }),
        ));
    }

    /// Gives the innermost frame the gas record opened at `start_balance`
    /// and closed at `end_balance`.
    pub fn set_root_gas(&mut self, start_balance: u64, end_balance: u64)
        requires
            old(self).frames().len() > 0,
        ensures
            final(self).frames() == old(self).frames().update(
                old(self).frames().len() - 1,
                (InternalCallTrace {
                    gas_info: GasInfo::spec_make(start_balance).spec_closed(end_balance),
                    ..old(self).frames().last()
                }),
            ),
            final(self).1 == old(self).1,
    {
        let mut last = self.0.pop().unwrap();
        let mut gas = GasInfo::make_frame(start_balance);
        gas.close_frame(end_balance);
        last.gas_info = gas;
        self.0.push(last);
        assert(self.0@ =~= old(self).0@.update(
            old(self).0@.len() - 1,
            (InternalCallTrace {
                gas_info: GasInfo::spec_make(start_balance).spec_closed(end_balance),
                ..old(self).0@.last()
            }),
        ));
    }

    /// Appends `call_trace` as the last child of the innermost frame.
    pub fn push_call_trace(&mut self, call_trace: InternalCallTrace)
        requires
            old(self).frames().len() > 0,
            old(self).frames().last().sub_traces.frames().len() < CALL_STACK_SIZE_LIMIT,
        ensures
            final(self).frames().len() == old(self).frames().len(),
            forall|i: int|
                0 <= i < old(self).frames().len() - 1 ==> final(self).frames()[i] == old(
                    self,
                ).frames()[i],
            final(self).frames().last().sub_traces.frames() == old(
                self,
            ).frames().last().sub_traces.frames().push(call_trace),
            final(self).frames().last().sub_traces.touched() == old(
                self,
            ).frames().last().sub_traces.touched().insert(account_part(call_trace.module_id@)),
            final(self).frames().last() == (InternalCallTrace {
                sub_traces: final(self).frames().last().sub_traces,
                ..old(self).frames().last()
            }),
            final(self).1 == old(self).1,
    {
        let mut last = self.0.pop().unwrap();
        let pushed = last.sub_traces.push(call_trace);
        assert(pushed is Ok);
        self.0.push(last);
    }

    /// Inserts `call_trace` as the first child of the outermost frame.
    pub fn prepend_call_trace(&mut self, call_trace: InternalCallTrace)
        requires
            old(self).frames().len() > 0,
            old(self).frames()[0].sub_traces.frames().len() < CALL_STACK_SIZE_LIMIT,
        ensures
            final(self).frames().len() == old(self).frames().len(),
            forall|i: int|
                1 <= i < old(self).frames().len() ==> final(self).frames()[i] == old(
                    self,
                ).frames()[i],
            final(self).frames()[0].sub_traces.frames() == seq![call_trace] + old(
                self,
            ).frames()[0].sub_traces.frames(),
            final(self).frames()[0] == (InternalCallTrace {
                sub_traces: final(self).frames()[0].sub_traces,
                ..old(self).frames()[0]
            }),
            final(self).frames()[0].sub_traces.1 == old(self).frames()[0].sub_traces.1,
            final(self).1 == old(self).1,
    {
        let mut first = self.0.remove(0);
        let prepended = first.sub_traces.prepend(call_trace);
        assert(prepended is Ok);
        self.0.insert(0, first);
        assert forall|i: int| 1 <= i < old(self).frames().len() implies self.0@[i] == old(
            self,
        ).0@[i] by {}
    }

    /// Appends the open frames of `call_traces` after those of `self`; when
    /// the result would exceed the bound, fails and leaves `self` as it was.
    pub fn merge(&mut self, call_traces: CallTraces) -> (r: Result<(), CapacityError>)
        ensures
            old(self).wf() ==> final(self).wf(),
            r is Ok <==> old(self).frames().len() + call_traces.frames().len()
                <= CALL_STACK_SIZE_LIMIT,
            r is Ok ==> final(self).frames() == old(self).frames() + call_traces.frames(),
            r is Err ==> *final(self) == *old(self),
            final(self).1 == old(self).1,
    {
        if call_traces.0.len() > CALL_STACK_SIZE_LIMIT || self.0.len() > CALL_STACK_SIZE_LIMIT
            - call_traces.0.len() {
            return Err(CapacityError);
        }
        let mut other = call_traces.0;
        self.0.append(&mut other);
        Ok(())
    }

    /// The frames of `self` followed by those recorded in `call_trace_error`,
    /// with its VM error.
    pub fn merge_error(self, call_trace_error: CallTraceError) -> (r: CallTraceError)
        requires
            self.frames().len() + call_trace_error.call_traces.frames().len()
                <= CALL_STACK_SIZE_LIMIT,
        ensures
            r.call_traces.frames() == self.frames() + call_trace_error.call_traces.frames(),
            r.call_traces.1 == self.1,
            r.vm_error == call_trace_error.vm_error,
    {
        let mut ret = self;
        let merged = ret.merge(call_trace_error.call_traces);
        assert(merged is Ok);
        CallTraceError { call_traces: ret, vm_error: call_trace_error.vm_error }
    }

    /// The frames of `self` with one more innermost frame that holds only
    /// `vm_error`.
    pub fn push_error_frame(self, vm_error: FrameError) -> (r: CallTraceError)
        requires
            self.frames().len() < CALL_STACK_SIZE_LIMIT,
        ensures
            r.call_traces.frames().len() == self.frames().len() + 1,
            r.call_traces.frames().drop_last() == self.frames(),
            r.call_traces.frames().last().error matches Some(e) && e.status_code
                == vm_error.status_code && e.message@ == vm_error.message@,
            (InternalCallTrace { error: None, ..r.call_traces.frames().last() }).spec_empty(),
            r.vm_error == vm_error,
    {
        let mut call_traces = self;
        let mut frame = InternalCallTrace::default();
        frame.error = Some(
            FrameError { status_code: vm_error.status_code, message: vm_error.message.clone() },
        );
        let pushed = call_traces.push(frame);
        assert(pushed is Ok);
        assert(call_traces.0@.drop_last() =~= self.0@);
        CallTraceError { call_traces, vm_error }
    }

    /// `push_error_frame` with an error that carries only a status code.
    pub fn push_error_frame_from_vm_status(self, status_code: u64) -> (r: CallTraceError)
        requires
            self.frames().len() < CALL_STACK_SIZE_LIMIT,
        ensures
            r.call_traces.frames().len() == self.frames().len() + 1,
            r.call_traces.frames().drop_last() == self.frames(),
            r.call_traces.frames().last().error matches Some(e) && e.status_code == status_code
                && e.message@.len() == 0,
            r.vm_error.status_code == status_code,
            r.vm_error.message@.len() == 0,
    {
        self.push_error_frame(FrameError { status_code, message: String::new() })
    }

    /// Number of open frames.
    pub fn len(&self) -> (r: usize)
        ensures
            r == self.frames().len(),
    {
        self.0.len()
    }

    /// Removes and returns the finished outermost frame once all of its
    /// children have been folded into it; the same as `pop`.
    pub fn root(&mut self) -> (r: Option<InternalCallTrace>)
        ensures
            old(self).wf() ==> final(self).wf(),
            (final(self).frames(), r) == pop_frames(old(self).frames()),
            final(self).1 == old(self).1,
    {
        self.pop()
    }
}

} // verus!

verus! {

/// Pushing up to the bound succeeds each time: the stack holds exactly the
/// pushed frames in order. One push more is refused and changes nothing.
pub proof fn lemma_push_up_to_limit(ts: Seq<InternalCallTrace>, extra: InternalCallTrace)
    requires
        ts.len() <= CALL_STACK_SIZE_LIMIT,
    ensures
        push_all(Seq::empty(), ts) == ts,
        push_all(Seq::empty(), ts).len() == ts.len(),
        ts.len() == CALL_STACK_SIZE_LIMIT ==> push_frames(push_all(Seq::empty(), ts), extra) == (
        ts, false),
    decreases ts.len(),
{
    if ts.len() > 0 {
        lemma_push_up_to_limit(ts.drop_last(), extra);
        assert(ts.drop_last().push(ts.last()) =~= ts);
    }
}

/// Popping right after pushing `t` on an empty stack gives back `t` and an
/// empty stack; popping an empty stack gives nothing.
pub proof fn lemma_pop_after_push(t: InternalCallTrace)
    ensures
        pop_frames(push_frames(Seq::empty(), t).0) == (Seq::<InternalCallTrace>::empty(), Some(t)),
        pop_frames(Seq::<InternalCallTrace>::empty()) == (Seq::<InternalCallTrace>::empty(), None::<
            InternalCallTrace,
        >),
{
    assert(seq![t].drop_last() =~= Seq::<InternalCallTrace>::empty());
}

} // verus!
