//! The register-based virtual machine.
//!
//! The machine runs one instruction per `step`. Where an instruction needs
//! work that the library cannot do (floating-point arithmetic, input and
//! output), the step stops with a request; the host performs it and hands
//! the outcome back with `answer`.
use vstd::prelude::*;
use crate::arith::{div_i64, in_i64, tdiv};
use crate::builtins::{NativeKind, call_native, native_spec};
use crate::natives::{NativeOut, NativeOutV};
use crate::show::{Chunk, value_text, value_to_string};
use crate::bytecode::{Function, HandlerV, Instruction, MAX_REGISTERS, MAX_STACK_SIZE, Program, falls_through, refs_ok, regs_below};
use crate::fmt::{int_text, nat_digits, push_all, push_i64, push_str, push_u64};
use crate::heap::{Bounds, Heap, MAX_ARRAY_SIZE, Obj, ObjV, Value, arr_of, arr_store, collected, tab_of, table_lookup, table_store, heap_wf, kinds_kept, lemma_push_keeps_wf, lemma_replace_keeps_wf, lemma_value_ok_kept, lemma_values_ok_kept, reclaimed_count, str_of, truthy, type_label_of, value_ok, values_ok};

verus! {

/// A suspended caller: where to resume and where the result goes.
#[derive(Clone, Copy, PartialEq, Eq, Structural, Debug)]
pub struct CallFrame {
    pub func_id: usize,
    pub pc: usize,
    pub bp: usize,
    pub dst_reg: usize,
}

/// An error that no handler caught.
pub struct RuntimeError {
    pub fault: Vec<char>,
    pub description: Vec<char>,
    pub func_id: usize,
    pub pc: usize,
}

pub struct RuntimeErrorV {
    pub fault: Seq<char>,
    pub description: Seq<char>,
    pub func_id: usize,
    pub pc: usize,
}

impl View for RuntimeError {
    type V = RuntimeErrorV;

    open spec fn view(&self) -> RuntimeErrorV {
        RuntimeErrorV { fault: self.fault@, description: self.description@, func_id: self.func_id, pc: self.pc }
    }
}

/// The floating-point operations the host performs.
#[derive(Clone, Copy, PartialEq, Eq, Structural, Debug)]
pub enum FloatOp {
    Add,
    Sub,
    Mul,
    Div,
    Less,
    LessEq,
    Greater,
    GreaterEq,
    Equal,
    NotEq,
    Neg,
    /// The text of a float, as an error message shows it.
    Show,
    /// The float nearest an integer (`i as f64`).
    FromInt,
    /// A float cut to an integer (`f as i64`, saturating).
    ToInt,
    /// A generator draw `d` scaled to `[0, 1]`: `d as f64 / u32::MAX as f64`.
    Unit,
}

/// An operand of a float operation.
pub enum Operand {
    Absent,
    Int(i64),
    /// IEEE-754 bits.
    Float(u64),
    Text(Vec<char>),
}

pub enum OperandV {
    Absent,
    Int(i64),
    Float(u64),
    Text(Seq<char>),
}

impl View for Operand {
    type V = OperandV;

    open spec fn view(&self) -> OperandV {
        match self {
            Operand::Absent => OperandV::Absent,
            Operand::Int(i) => OperandV::Int(*i),
            Operand::Float(f) => OperandV::Float(*f),
            Operand::Text(t) => OperandV::Text(t@),
        }
    }
}

/// A floating-point operation for the host: `lhs op rhs` as arithmetic on
/// `f64` defines it.
pub struct FloatJob {
    pub op: FloatOp,
    pub lhs: Operand,
    pub rhs: Operand,
}

pub struct FloatJobV {
    pub op: FloatOp,
    pub lhs: OperandV,
    pub rhs: OperandV,
}

impl View for FloatJob {
    type V = FloatJobV;

    open spec fn view(&self) -> FloatJobV {
        FloatJobV { op: self.op, lhs: self.lhs@, rhs: self.rhs@ }
    }
}

/// Work the machine hands to the host.
pub enum HostRequest {
    Float(FloatJob),
    Native { api_id: usize, kind: NativeKind, args: Vec<Value> },
    /// Join these pieces into one string, formatting each float, and answer
    /// with the text.
    Render(Vec<Chunk>),
    /// Answer with an integer to start the random generator from (the
    /// clock, in nanoseconds).
    Seed,
}

pub enum HostRequestV {
    Float(FloatJobV),
    Native { api_id: usize, kind: NativeKind, args: Seq<Value> },
    Render(Seq<Chunk>),
    Seed,
}

impl View for HostRequest {
    type V = HostRequestV;

    open spec fn view(&self) -> HostRequestV {
        match self {
            HostRequest::Float(j) => HostRequestV::Float(j@),
            HostRequest::Native { api_id, kind, args } => HostRequestV::Native { api_id: *api_id, kind: *kind, args: args@ },
            HostRequest::Render(c) => HostRequestV::Render(c@),
            HostRequest::Seed => HostRequestV::Seed,
        }
    }
}

/// The host's answer to a request.
pub enum HostReply {
    /// A result value.
    Value(Value),
    /// A result string, to be stored as a new string object.
    Text(Vec<char>),
    /// The operation failed with this error message.
    Error(Vec<char>),
}

pub enum HostReplyV {
    Value(Value),
    Text(Seq<char>),
    Error(Seq<char>),
}

impl View for HostReply {
    type V = HostReplyV;

    open spec fn view(&self) -> HostReplyV {
        match self {
            HostReply::Value(v) => HostReplyV::Value(*v),
            HostReply::Text(t) => HostReplyV::Text(t@),
            HostReply::Error(m) => HostReplyV::Error(m@),
        }
    }
}

/// What one step comes to.
pub enum StepOut {
    /// Execution goes on.
    Continue,
    /// The entry function returned this value.
    Done(Value),
    /// An error reached the bottom of the call stack.
    Fault(RuntimeError),
    /// The host must do some work and answer.
    Request(HostRequest),
    /// The run stops with this panic message.
    Abort(Vec<char>),
}

pub enum StepOutV {
    Continue,
    Done(Value),
    Fault(RuntimeErrorV),
    Request(HostRequestV),
    Abort(Seq<char>),
}

impl View for StepOut {
    type V = StepOutV;

    open spec fn view(&self) -> StepOutV {
        match self {
            StepOut::Continue => StepOutV::Continue,
            StepOut::Done(v) => StepOutV::Done(*v),
            StepOut::Fault(e) => StepOutV::Fault(e@),
            StepOut::Request(r) => StepOutV::Request(r@),
            StepOut::Abort(m) => StepOutV::Abort(m@),
        }
    }
}

/// Where the host's answer goes: into register `dst`, or (when `raise`)
/// it is the message of an error to throw.
#[derive(Clone, Copy, PartialEq, Eq, Structural, Debug)]
pub struct Pending {
    pub dst: usize,
    pub raise: bool,
    /// The host is to give the generator its first state, after which the
    /// call at `pc` runs again.
    pub seed: bool,
}

/// The machine.
pub struct Vm {
    stack: Vec<Value>,
    frames: Vec<CallFrame>,
    heap: Heap,
    alloc_counter: usize,
    func_id: usize,
    pc: usize,
    bp: usize,
    pending: Option<Pending>,
    rng: Option<u64>,
}

/// The machine's state as data.
pub struct VmV {
    pub stack: Seq<Value>,
    pub frames: Seq<CallFrame>,
    pub heap: Seq<ObjV>,
    pub alloc_counter: usize,
    pub func_id: usize,
    pub pc: usize,
    pub bp: usize,
    pub pending: Option<Pending>,
    pub rng: Option<u64>,
}

impl View for Vm {
    type V = VmV;

    closed spec fn view(&self) -> VmV {
        VmV {
            stack: self.stack@,
            frames: self.frames@,
            heap: self.heap@,
            alloc_counter: self.alloc_counter,
            func_id: self.func_id,
            pc: self.pc,
            bp: self.bp,
            pending: self.pending,
            rng: self.rng,
        }
    }
}

/// The machine with nothing loaded: empty stack, no frames, an empty heap,
/// no allocations counted, at the start of function 0, nothing pending and
/// no random generator seeded.
pub open spec fn idle_vm() -> VmV {
    VmV {
        stack: Seq::empty(),
        frames: Seq::empty(),
        heap: Seq::empty(),
        alloc_counter: 0,
        func_id: 0,
        pc: 0,
        bp: 0,
        pending: None,
        rng: None,
    }
}

/// A bound on the registers that the frames on the stack span: the calls
/// stay within `MAX_STACK_SIZE`, and the function a run starts with may use
/// up to `MAX_REGISTERS` on its own.
pub const STACK_BOUND: usize = MAX_STACK_SIZE + MAX_REGISTERS;

/// Allocations between automatic collections.
pub const GC_THRESHOLD: usize = 1024;

pub open spec fn bounds_of(p: &Program) -> Bounds {
    Bounds { nsym: p.strings@.len(), nfun: p.functions@.len() }
}

pub open spec fn nregs(p: &Program, f: usize) -> nat {
    p.functions@[f as int].num_registers as nat
}

pub open spec fn code_of(p: &Program, f: usize) -> Seq<Instruction> {
    p.functions@[f as int].code@
}

pub open spec fn frame_ok(p: &Program, fr: CallFrame) -> bool {
    &&& fr.func_id < p.functions@.len()
    &&& fr.pc < code_of(p, fr.func_id).len()
    &&& fr.dst_reg < nregs(p, fr.func_id)
    &&& fr.bp + nregs(p, fr.func_id) <= STACK_BOUND
}

/// The machine state is consistent with the program.
pub open spec fn inv(p: &Program, s: VmV) -> bool {
    &&& inv_core(p, s)
    &&& match s.pending {
        None => s.pc < code_of(p, s.func_id).len(),
        Some(pd) => if pd.raise {
            !pd.seed && s.pc <= code_of(p, s.func_id).len()
        } else {
            s.pc < code_of(p, s.func_id).len() && pd.dst < nregs(p, s.func_id)
        },
    }
}

/// The parts of the invariant that hold between instructions and while an
/// error is being thrown.
pub open spec fn inv_core(p: &Program, s: VmV) -> bool {
    &&& s.func_id < p.functions@.len()
    &&& s.bp + nregs(p, s.func_id) <= STACK_BOUND
    &&& s.bp + nregs(p, s.func_id) <= s.stack.len()
    &&& s.stack.len() <= 2 * STACK_BOUND
    &&& forall|k: int| 0 <= k < s.frames.len() ==> frame_ok(p, #[trigger] s.frames[k])
    &&& heap_wf(s.heap, bounds_of(p))
    &&& values_ok(s.heap, bounds_of(p), s.stack)
}

/// The stack grown with `null`s to at least `n` entries.
pub open spec fn ensure_len(st: Seq<Value>, n: int) -> Seq<Value> {
    if st.len() < n {
        st + Seq::new((n - st.len()) as nat, |i: int| Value::Null)
    } else {
        st
    }
}

/// The text before the first ':'.
pub open spec fn before_colon(m: Seq<char>) -> Seq<char>
    decreases m.len(),
{
    if m.len() == 0 || m[0] == ':' {
        Seq::empty()
    } else {
        seq![m[0]] + before_colon(m.drop_first())
    }
}

/// The type of an error, by its message: the text before the first ':',
/// else "RuntimeError" when the message holds a space, else the message.
pub open spec fn error_type(m: Seq<char>) -> Seq<char> {
    if m.contains(':') {
        before_colon(m)
    } else if m.contains(' ') {
        "RuntimeError"@
    } else {
        m
    }
}

/// Handler `h` covers `pc` and catches errors of type `ty`.
pub open spec fn handler_matches(h: HandlerV, pc: int, ty: Seq<char>) -> bool {
    &&& h.start_pc <= pc < h.end_pc
    &&& (h.error_types.len() == 0 || h.error_types.contains(ty))
}

/// The first handler from index `k` on that matches.
pub open spec fn find_handler(hs: Seq<HandlerV>, pc: int, ty: Seq<char>, k: int) -> Option<int>
    decreases hs.len() - k,
{
    if k < 0 || k >= hs.len() {
        None
    } else if handler_matches(hs[k], pc, ty) {
        Some(k)
    } else {
        find_handler(hs, pc, ty, k + 1)
    }
}

pub open spec fn handlers_of(p: &Program, f: usize) -> Seq<HandlerV> {
    p.functions@[f as int].handlers()
}

/// Throwing `errv` (whose message is `msg`, of type `ty`): the first
/// matching handler of the current function, else of each caller in turn,
/// gets control; with none, the error is a fault.
pub open spec fn unwind(p: &Program, s: VmV, ty: Seq<char>, errv: Value, msg: Seq<char>) -> (VmV, StepOutV)
    decreases s.frames.len(),
{
    let cur = if s.pc > 0 { s.pc - 1 } else { 0 };
    let hs = handlers_of(p, s.func_id);
    match find_handler(hs, cur as int, ty, 0) {
        Some(k) => {
            let h = hs[k];
            let st = ensure_len(s.stack, s.bp + h.err_reg + 1).update(s.bp + h.err_reg, errv);
            (VmV { stack: st, pc: h.catch_pc, ..s }, StepOutV::Continue)
        },
        None => if s.frames.len() == 0 {
            (s, StepOutV::Fault(RuntimeErrorV { fault: "Unhandled Exception"@, description: msg, func_id: s.func_id, pc: cur as usize }))
        } else {
            let fr = s.frames.last();
            let s2 = VmV {
                frames: s.frames.drop_last(),
                bp: fr.bp,
                pc: fr.pc,
                func_id: fr.func_id,
                stack: ensure_len(s.stack, fr.bp + nregs(p, fr.func_id)),
                ..s
            };
            unwind(p, s2, ty, errv, msg)
        },
    }
}

/// Throwing an error with message `msg`: the message becomes a new string
/// object, which is the thrown value.
pub open spec fn raise(p: &Program, s: VmV, msg: Seq<char>) -> (VmV, StepOutV) {
    let errv = Value::String(s.heap.len() as usize);
    unwind(p, VmV { heap: s.heap.push(ObjV::Str(msg)), ..s }, error_type(msg), errv, msg)
}

/// The outcome of an instruction that computes a value for register `dst`.
pub enum EffectV {
    Write(Value),
    WriteText(Seq<char>),
    Raise(Seq<char>),
    Host(FloatJobV),
    Abort(Seq<char>),
}

pub enum Effect {
    Write(Value),
    WriteText(Vec<char>),
    Raise(Vec<char>),
    Host(FloatJob),
    Abort(Vec<char>),
}

impl View for Effect {
    type V = EffectV;

    open spec fn view(&self) -> EffectV {
        match self {
            Effect::Write(v) => EffectV::Write(*v),
            Effect::WriteText(t) => EffectV::WriteText(t@),
            Effect::Raise(m) => EffectV::Raise(m@),
            Effect::Host(j) => EffectV::Host(j@),
            Effect::Abort(m) => EffectV::Abort(m@),
        }
    }
}

pub open spec fn set_reg(s: VmV, r: usize, v: Value) -> VmV {
    VmV { stack: s.stack.update(s.bp + r, v), ..s }
}

pub open spec fn reg(s: VmV, r: usize) -> Value {
    s.stack[s.bp + r]
}

/// Carrying out an effect on register `dst`.
pub open spec fn apply(p: &Program, s: VmV, dst: usize, e: EffectV) -> (VmV, StepOutV) {
    match e {
        EffectV::Write(v) => (set_reg(s, dst, v), StepOutV::Continue),
        EffectV::WriteText(t) => (set_reg(VmV { heap: s.heap.push(ObjV::Str(t)), ..s }, dst, Value::String(s.heap.len() as usize)), StepOutV::Continue),
        EffectV::Raise(m) => raise(p, s, m),
        EffectV::Host(j) => (VmV { pending: Some(Pending { dst, raise: false, seed: false }), ..s }, StepOutV::Request(HostRequestV::Float(j))),
        EffectV::Abort(m) => (s, StepOutV::Abort(m)),
    }
}

/// The first ':' in `m`, if any.
fn colon_index(m: &Vec<char>) -> (r: Option<usize>)
    ensures
        r matches Some(i) ==> i < m@.len() && m@[i as int] == ':' && forall|j: int| 0 <= j < i ==> m@[j] != ':',
        r is None ==> !m@.contains(':'),
{
    let mut i: usize = 0;
    while i < m.len()
        invariant
            i <= m@.len(),
            forall|j: int| 0 <= j < i ==> m@[j] != ':',
        decreases m@.len() - i,
    {
        if m[i] == ':' {
            return Some(i);
        }
        i = i + 1;
    }
    None
}

proof fn lemma_before_colon(m: Seq<char>, i: int)
    requires
        0 <= i < m.len(),
        m[i] == ':',
        forall|j: int| 0 <= j < i ==> m[j] != ':',
    ensures
        before_colon(m) == m.take(i),
    decreases i,
{
    if i > 0 {
        lemma_before_colon(m.drop_first(), i - 1);
        assert(m.take(i) =~= seq![m[0]] + m.drop_first().take(i - 1));
    } else {
        assert(m.take(0) =~= Seq::<char>::empty());
    }
}

/// The error type of a message (see `error_type`).
pub fn error_type_of(m: &Vec<char>) -> (r: Vec<char>)
    ensures
        r@ == error_type(m@),
{
    match colon_index(m) {
        Some(i) => {
            proof {
                lemma_before_colon(m@, i as int);
                assert(m@.contains(':'));
            }
            let mut r: Vec<char> = Vec::new();
            let mut k: usize = 0;
            while k < i
                invariant
                    k <= i,
                    i < m@.len(),
                    r@ == m@.take(k as int),
                decreases i - k,
            {
                r.push(m[k]);
                k = k + 1;
                assert(r@ =~= m@.take(k as int));
            }
            r
        },
        None => {
            let mut k: usize = 0;
            while k < m.len()
                invariant
                    k <= m@.len(),
                    !m@.contains(':'),
                    forall|j: int| 0 <= j < k ==> m@[j] != ' ',
                decreases m@.len() - k,
            {
                if m[k] == ' ' {
                    assert(m@.contains(' '));
                    let r = crate::text::chars_of("RuntimeError");
                    assert(r@ == error_type(m@));
                    return r;
                }
                k = k + 1;
            }
            m.clone()
        },
    }
}

fn contains_text(ts: &Vec<Vec<char>>, t: &Vec<char>) -> (r: bool)
    ensures
        r == ts@.map_values(|x: Vec<char>| x@).contains(t@),
{
    let ghost tv = ts@.map_values(|x: Vec<char>| x@);
    let mut k: usize = 0;
    while k < ts.len()
        invariant
            k <= ts@.len(),
            tv == ts@.map_values(|x: Vec<char>| x@),
            forall|j: int| 0 <= j < k ==> tv[j] != t@,
        decreases ts@.len() - k,
    {
        if crate::text::chars_eq(&ts[k], t) {
            assert(tv[k as int] == t@);
            return true;
        }
        k = k + 1;
    }
    false
}

/// The first handler of `f` that covers `pc` and catches `ty`.
fn find_handler_in(f: &Function, pc: usize, ty: &Vec<char>) -> (r: Option<usize>)
    ensures
        r matches Some(k) ==> k < f.handlers().len() && find_handler(f.handlers(), pc as int, ty@, 0) == Some(k as int),
        r is None ==> find_handler(f.handlers(), pc as int, ty@, 0) is None,
{
    let ghost hs = f.handlers();
    let mut k: usize = 0;
    while k < f.exception_handlers.len()
        invariant
            hs == f.handlers(),
            k <= hs.len(),
            find_handler(hs, pc as int, ty@, 0) == find_handler(hs, pc as int, ty@, k as int),
        decreases hs.len() - k,
    {
        let h = &f.exception_handlers[k];
        assert(h@ == hs[k as int]);
        if h.start_pc <= pc && pc < h.end_pc && (h.error_types.len() == 0 || contains_text(&h.error_types, ty)) {
            return Some(k);
        }
        k = k + 1;
    }
    None
}

proof fn lemma_ensure_len_ok(h: Seq<ObjV>, b: Bounds, st: Seq<Value>, n: int)
    requires
        values_ok(h, b, st),
    ensures
        values_ok(h, b, ensure_len(st, n)),
        ensure_len(st, n).len() >= n,
        ensure_len(st, n).len() >= st.len(),
        n >= st.len() ==> ensure_len(st, n).len() == n,
        n < st.len() ==> ensure_len(st, n).len() == st.len(),
        forall|i: int| 0 <= i < st.len() ==> #[trigger] ensure_len(st, n)[i] == st[i],
{
    let e = ensure_len(st, n);
    assert forall|k: int| 0 <= k < e.len() implies value_ok(h, b, #[trigger] e[k]) by {
        if k >= st.len() {
            assert(e[k] == Value::Null);
        }
    }
}

impl Vm {
    pub closed spec fn state(&self) -> VmV {
        self@
    }

    fn ensure_stack_len(&mut self, n: usize)
        ensures
            final(self)@ == (VmV { stack: ensure_len(old(self)@.stack, n as int), ..old(self)@ }),
    {
        if self.stack.len() < n {
            let ghost st0 = self.stack@;
            let extra = n - self.stack.len();
            let mut k: usize = 0;
            while k < extra
                invariant
                    k <= extra,
                    extra == n - st0.len(),
                    self.stack@ == st0 + Seq::new(k as nat, |i: int| Value::Null),
                    self.frames == old(self).frames,
                    self.heap == old(self).heap,
                    self.alloc_counter == old(self).alloc_counter,
                    self.func_id == old(self).func_id,
                    self.pc == old(self).pc,
                    self.bp == old(self).bp,
                    self.pending == old(self).pending,
                    self.rng == old(self).rng,
                    st0 == old(self).stack@,
                decreases extra - k,
            {
                self.stack.push(Value::Null);
                k = k + 1;
                assert(self.stack@ =~= st0 + Seq::new(k as nat, |i: int| Value::Null));
            }
        }
    }

    /// Passes control to the handler of a thrown error, unwinding callers,
    /// or reports it as a fault.
    fn unwind_exec(&mut self, p: &Program, ty: &Vec<char>, errv: Value, msg: Vec<char>) -> (out: StepOut)
        requires
            p.wf(),
            inv_core(p, old(self)@),
            old(self)@.pc <= code_of(p, old(self)@.func_id).len(),
            old(self)@.pending is None,
            value_ok(old(self)@.heap, bounds_of(p), errv),
        ensures
            out is Continue ==> final(self)@.pending is None,
            out is Request ==> final(self)@.pending is Some,
            final(self)@.alloc_counter == old(self)@.alloc_counter,
            (final(self)@, out@) == unwind(p, old(self)@, ty@, errv, msg@),
            out is Continue ==> inv(p, final(self)@),
            out is Continue || out is Fault,
    {
        loop
            invariant
                p.wf(),
                inv_core(p, self@),
                self@.pc <= code_of(p, self@.func_id).len(),
                self@.pending is None,
                value_ok(self@.heap, bounds_of(p), errv),
                unwind(p, self@, ty@, errv, msg@) == unwind(p, old(self)@, ty@, errv, msg@),
                self@.alloc_counter == old(self)@.alloc_counter,
            decreases self@.frames.len(),
        {
            let cur = if self.pc > 0 { self.pc - 1 } else { 0 };
            let f = &p.functions[self.func_id];
            assert(p.function_ok(self.func_id as int));
            match find_handler_in(f, cur, ty) {
                Some(k) => {
                    let h = &f.exception_handlers[k];
                    assert(h@ == f.handlers()[k as int]);
                    let needed = self.bp + h.err_reg + 1;
                    proof {
                        lemma_ensure_len_ok(self@.heap, bounds_of(p), self@.stack, needed as int);
                    }
                    self.ensure_stack_len(needed);
                    self.pc = h.catch_pc;
                    let at = self.bp + h.err_reg;
                    self.stack.set(at, errv);
                    assert(values_ok(self@.heap, bounds_of(p), self@.stack));
                    return StepOut::Continue;
                },
                None => {
                    if self.frames.len() == 0 {
                        let e = RuntimeError {
                            fault: crate::text::chars_of("Unhandled Exception"),
                            description: msg,
                            func_id: self.func_id,
                            pc: cur,
                        };
                        return StepOut::Fault(e);
                    }
                    let fr = self.frames.pop().unwrap();
                    assert(frame_ok(p, fr));
                    self.bp = fr.bp;
                    self.pc = fr.pc;
                    self.func_id = fr.func_id;
                    let needed = fr.bp + p.functions[fr.func_id].num_registers;
                    proof {
                        lemma_ensure_len_ok(self@.heap, bounds_of(p), self@.stack, needed as int);
                    }
                    self.ensure_stack_len(needed);
                },
            }
        }
    }
}

/// The binary operators with an arithmetic or ordering meaning.
#[derive(Clone, Copy, PartialEq, Eq, Structural, Debug)]
pub enum BinOp {
    Add,
    Sub,
    Mul,
    Div,
    Less,
    LessEq,
    Greater,
    GreaterEq,
}

pub open spec fn float_op_of(op: BinOp) -> FloatOp {
    match op {
        BinOp::Add => FloatOp::Add,
        BinOp::Sub => FloatOp::Sub,
        BinOp::Mul => FloatOp::Mul,
        BinOp::Div => FloatOp::Div,
        BinOp::Less => FloatOp::Less,
        BinOp::LessEq => FloatOp::LessEq,
        BinOp::Greater => FloatOp::Greater,
        BinOp::GreaterEq => FloatOp::GreaterEq,
    }
}

/// The comparison symbol of an ordering operator.
pub open spec fn cmp_symbol(op: BinOp) -> Seq<char> {
    match op {
        BinOp::Less => "<"@,
        BinOp::LessEq => "<="@,
        BinOp::Greater => ">"@,
        _ => ">="@,
    }
}

pub open spec fn is_cmp(op: BinOp) -> bool {
    op is Less || op is LessEq || op is Greater || op is GreaterEq
}

/// The verb of an arithmetic operator in type-error messages, and the
/// word joining the operand types.
pub open spec fn op_verb(op: BinOp) -> Seq<char> {
    match op {
        BinOp::Add => "add"@,
        BinOp::Sub => "subtract"@,
        BinOp::Mul => "multiply"@,
        _ => "divide"@,
    }
}

pub open spec fn op_join(op: BinOp) -> Seq<char> {
    match op {
        BinOp::Div => " by "@,
        _ => " and "@,
    }
}

/// The panic message of an overflowing integer operation.
pub open spec fn overflow_msg(op: BinOp) -> Seq<char> {
    match op {
        BinOp::Add => "attempt to add with overflow"@,
        BinOp::Sub => "attempt to subtract with overflow"@,
        BinOp::Mul => "attempt to multiply with overflow"@,
        _ => "attempt to divide with overflow"@,
    }
}

pub open spec fn div_zero_msg() -> Seq<char> {
    "ArithmeticError: Division by zero"@
}

/// The message of a type error between operand types `ta` and `tb`.
pub open spec fn type_error_msg(op: BinOp, ta: Seq<char>, tb: Seq<char>) -> Seq<char> {
    if is_cmp(op) {
        "TypeError: Cannot compare "@ + ta + " "@ + cmp_symbol(op) + " "@ + tb
    } else {
        "TypeError: Cannot "@ + op_verb(op) + " "@ + ta + op_join(op) + tb
    }
}

/// Integer arithmetic and ordering, with Rust's overflow panics.
pub open spec fn int_effect(op: BinOp, x: int, y: int) -> EffectV {
    match op {
        BinOp::Add => if in_i64(x + y) { EffectV::Write(Value::Int((x + y) as i64)) } else { EffectV::Abort(overflow_msg(op)) },
        BinOp::Sub => if in_i64(x - y) { EffectV::Write(Value::Int((x - y) as i64)) } else { EffectV::Abort(overflow_msg(op)) },
        BinOp::Mul => if in_i64(x * y) { EffectV::Write(Value::Int((x * y) as i64)) } else { EffectV::Abort(overflow_msg(op)) },
        BinOp::Div => if y == 0 {
            EffectV::Raise(div_zero_msg())
        } else if in_i64(tdiv(x, y)) {
            EffectV::Write(Value::Int(tdiv(x, y) as i64))
        } else {
            EffectV::Abort(overflow_msg(op))
        },
        BinOp::Less => EffectV::Write(Value::Bool(x < y)),
        BinOp::LessEq => EffectV::Write(Value::Bool(x <= y)),
        BinOp::Greater => EffectV::Write(Value::Bool(x > y)),
        BinOp::GreaterEq => EffectV::Write(Value::Bool(x >= y)),
    }
}

pub open spec fn num_operand(v: Value) -> OperandV {
    match v {
        Value::Int(i) => OperandV::Int(i),
        Value::Float(f) => OperandV::Float(f),
        _ => OperandV::Absent,
    }
}

pub open spec fn is_num(v: Value) -> bool {
    v is Int || v is Float
}

pub open spec fn host_job(op: FloatOp, a: OperandV, b: OperandV) -> EffectV {
    EffectV::Host(FloatJobV { op, lhs: a, rhs: b })
}

/// `a op b` for register operands.
pub open spec fn binary_effect(op: BinOp, a: Value, b: Value, h: Seq<ObjV>) -> EffectV {
    match (a, b) {
        (Value::Int(x), Value::Int(y)) => int_effect(op, x as int, y as int),
        _ => if is_num(a) && is_num(b) {
            host_job(float_op_of(op), num_operand(a), num_operand(b))
        } else if op is Add {
            match (a, b) {
                (Value::String(s), Value::String(t)) => EffectV::WriteText(str_of(h, s) + str_of(h, t)),
                (Value::String(s), Value::Int(y)) => EffectV::WriteText(str_of(h, s) + int_text(y as int)),
                (Value::Int(x), Value::String(t)) => EffectV::WriteText(int_text(x as int) + str_of(h, t)),
                (Value::String(s), Value::Float(f)) => host_job(FloatOp::Add, OperandV::Text(str_of(h, s)), OperandV::Float(f)),
                (Value::Float(f), Value::String(t)) => host_job(FloatOp::Add, OperandV::Float(f), OperandV::Text(str_of(h, t))),
                _ => EffectV::Raise(type_error_msg(op, type_label_of(a), type_label_of(b))),
            }
        } else {
            EffectV::Raise(type_error_msg(op, type_label_of(a), type_label_of(b)))
        },
    }
}

/// `a op imm` for an immediate integer right operand.
pub open spec fn imm_effect(op: BinOp, a: Value, imm: i64) -> EffectV {
    match a {
        Value::Int(x) => int_effect(op, x as int, imm as int),
        Value::Float(f) => if op is Div && imm == 0 {
            EffectV::Raise(div_zero_msg())
        } else {
            host_job(float_op_of(op), OperandV::Float(f), OperandV::Int(imm))
        },
        _ => EffectV::Raise(type_error_msg(op, type_label_of(a), "Int"@)),
    }
}

/// `a == b` (or `a != b` when `ne`).
pub open spec fn eq_effect(ne: bool, a: Value, b: Value, h: Seq<ObjV>) -> EffectV {
    match (a, b) {
        (Value::Int(x), Value::Int(y)) => EffectV::Write(Value::Bool((x == y) != ne)),
        (Value::String(s), Value::String(t)) => EffectV::Write(Value::Bool((str_of(h, s) == str_of(h, t)) != ne)),
        (Value::Bool(x), Value::Bool(y)) => EffectV::Write(Value::Bool((x == y) != ne)),
        (Value::Null, Value::Null) => EffectV::Write(Value::Bool(!ne)),
        _ => if is_num(a) && is_num(b) {
            host_job(if ne { FloatOp::NotEq } else { FloatOp::Equal }, num_operand(a), num_operand(b))
        } else {
            EffectV::Write(Value::Bool(ne))
        },
    }
}

/// `a == imm` (or `a != imm` when `ne`).
pub open spec fn eq_imm_effect(ne: bool, a: Value, imm: i64) -> EffectV {
    match a {
        Value::Int(x) => EffectV::Write(Value::Bool((x == imm) != ne)),
        Value::Float(f) => host_job(if ne { FloatOp::NotEq } else { FloatOp::Equal }, OperandV::Float(f), OperandV::Int(imm)),
        _ => EffectV::Write(Value::Bool(ne)),
    }
}

/// `-a`.
pub open spec fn neg_effect(a: Value) -> EffectV {
    match a {
        Value::Int(x) => if x == i64::MIN { EffectV::Abort("attempt to negate with overflow"@) } else { EffectV::Write(Value::Int((-x) as i64)) },
        Value::Float(f) => host_job(FloatOp::Neg, OperandV::Float(f), OperandV::Absent),
        _ => EffectV::Raise("TypeError: Cannot negate "@ + type_label_of(a)),
    }
}

fn push_label(out: &mut Vec<char>, v: Value)
    ensures
        final(out)@ == old(out)@ + type_label_of(v),
{
    push_str(out, v.type_label());
}

fn type_error_exec(op: BinOp, a: Value, b_label: &str) -> (r: Vec<char>)
    ensures
        r@ == type_error_msg(op, type_label_of(a), b_label@),
{
    let mut m = Vec::new();
    match op {
        BinOp::Less | BinOp::LessEq | BinOp::Greater | BinOp::GreaterEq => {
            push_str(&mut m, "TypeError: Cannot compare ");
            push_label(&mut m, a);
            push_str(&mut m, " ");
            let sym = match op {
                BinOp::Less => "<",
                BinOp::LessEq => "<=",
                BinOp::Greater => ">",
                _ => ">=",
            };
            push_str(&mut m, sym);
            push_str(&mut m, " ");
            push_str(&mut m, b_label);
        },
        _ => {
            push_str(&mut m, "TypeError: Cannot ");
            let verb = match op {
                BinOp::Add => "add",
                BinOp::Sub => "subtract",
                BinOp::Mul => "multiply",
                _ => "divide",
            };
            push_str(&mut m, verb);
            push_str(&mut m, " ");
            push_label(&mut m, a);
            let join = match op {
                BinOp::Div => " by ",
                _ => " and ",
            };
            push_str(&mut m, join);
            push_str(&mut m, b_label);
        },
    }
    assert(m@ =~= type_error_msg(op, type_label_of(a), b_label@));
    m
}

fn overflow_exec(op: BinOp) -> (r: Vec<char>)
    ensures
        r@ == overflow_msg(op),
{
    crate::text::chars_of(match op {
        BinOp::Add => "attempt to add with overflow",
        BinOp::Sub => "attempt to subtract with overflow",
        BinOp::Mul => "attempt to multiply with overflow",
        _ => "attempt to divide with overflow",
    })
}

fn int_exec(op: BinOp, x: i64, y: i64) -> (e: Effect)
    ensures
        e@ == int_effect(op, x as int, y as int),
{
    match op {
        BinOp::Add => match x.checked_add(y) {
            Some(z) => Effect::Write(Value::Int(z)),
            None => Effect::Abort(overflow_exec(op)),
        },
        BinOp::Sub => match x.checked_sub(y) {
            Some(z) => Effect::Write(Value::Int(z)),
            None => Effect::Abort(overflow_exec(op)),
        },
        BinOp::Mul => match x.checked_mul(y) {
            Some(z) => Effect::Write(Value::Int(z)),
            None => Effect::Abort(overflow_exec(op)),
        },
        BinOp::Div => if y == 0 {
            Effect::Raise(crate::text::chars_of("ArithmeticError: Division by zero"))
        } else {
            match div_i64(x, y) {
                Some(z) => Effect::Write(Value::Int(z)),
                None => Effect::Abort(overflow_exec(op)),
            }
        },
        BinOp::Less => Effect::Write(Value::Bool(x < y)),
        BinOp::LessEq => Effect::Write(Value::Bool(x <= y)),
        BinOp::Greater => Effect::Write(Value::Bool(x > y)),
        BinOp::GreaterEq => Effect::Write(Value::Bool(x >= y)),
    }
}

fn float_op_exec(op: BinOp) -> (r: FloatOp)
    ensures
        r == float_op_of(op),
{
    match op {
        BinOp::Add => FloatOp::Add,
        BinOp::Sub => FloatOp::Sub,
        BinOp::Mul => FloatOp::Mul,
        BinOp::Div => FloatOp::Div,
        BinOp::Less => FloatOp::Less,
        BinOp::LessEq => FloatOp::LessEq,
        BinOp::Greater => FloatOp::Greater,
        BinOp::GreaterEq => FloatOp::GreaterEq,
    }
}

fn num_operand_exec(v: Value) -> (r: Operand)
    ensures
        r@ == num_operand(v),
{
    match v {
        Value::Int(i) => Operand::Int(i),
        Value::Float(f) => Operand::Float(f),
        _ => Operand::Absent,
    }
}

fn str_exec(h: &Heap, i: usize, Ghost(b): Ghost<Bounds>) -> (r: Vec<char>)
    requires
        value_ok(h@, b, Value::String(i)),
    ensures
        r@ == str_of(h@, i),
{
    h.str_chars(i).clone()
}

fn binary_exec(op: BinOp, a: Value, b: Value, h: &Heap, Ghost(bd): Ghost<Bounds>) -> (e: Effect)
    requires
        value_ok(h@, bd, a),
        value_ok(h@, bd, b),
    ensures
        e@ == binary_effect(op, a, b, h@),
{
    match (a, b) {
        (Value::Int(x), Value::Int(y)) => int_exec(op, x, y),
        _ => {
            let an = match a { Value::Int(_) | Value::Float(_) => true, _ => false };
            let bn = match b { Value::Int(_) | Value::Float(_) => true, _ => false };
            if an && bn {
                Effect::Host(FloatJob { op: float_op_exec(op), lhs: num_operand_exec(a), rhs: num_operand_exec(b) })
            } else if op == BinOp::Add {
                match (a, b) {
                    (Value::String(s), Value::String(t)) => {
                        let mut r = str_exec(h, s, Ghost(bd));
                        let tt = str_exec(h, t, Ghost(bd));
                        push_all(&mut r, &tt);
                        Effect::WriteText(r)
                    },
                    (Value::String(s), Value::Int(y)) => {
                        let mut r = str_exec(h, s, Ghost(bd));
                        push_i64(&mut r, y);
                        Effect::WriteText(r)
                    },
                    (Value::Int(x), Value::String(t)) => {
                        let mut r = Vec::new();
                        push_i64(&mut r, x);
                        let tt = str_exec(h, t, Ghost(bd));
                        push_all(&mut r, &tt);
                        assert(r@ =~= int_text(x as int) + str_of(h@, t));
                        Effect::WriteText(r)
                    },
                    (Value::String(s), Value::Float(f)) => Effect::Host(FloatJob { op: FloatOp::Add, lhs: Operand::Text(str_exec(h, s, Ghost(bd))), rhs: Operand::Float(f) }),
                    (Value::Float(f), Value::String(t)) => Effect::Host(FloatJob { op: FloatOp::Add, lhs: Operand::Float(f), rhs: Operand::Text(str_exec(h, t, Ghost(bd))) }),
                    _ => Effect::Raise(type_error_exec(op, a, b.type_label())),
                }
            } else {
                Effect::Raise(type_error_exec(op, a, b.type_label()))
            }
        },
    }
}

fn imm_exec(op: BinOp, a: Value, imm: i64) -> (e: Effect)
    ensures
        e@ == imm_effect(op, a, imm),
{
    match a {
        Value::Int(x) => int_exec(op, x, imm),
        Value::Float(f) => if op == BinOp::Div && imm == 0 {
            Effect::Raise(crate::text::chars_of("ArithmeticError: Division by zero"))
        } else {
            Effect::Host(FloatJob { op: float_op_exec(op), lhs: Operand::Float(f), rhs: Operand::Int(imm) })
        },
        _ => Effect::Raise(type_error_exec(op, a, "Int")),
    }
}

fn eq_exec(ne: bool, a: Value, b: Value, h: &Heap, Ghost(bd): Ghost<Bounds>) -> (e: Effect)
    requires
        value_ok(h@, bd, a),
        value_ok(h@, bd, b),
    ensures
        e@ == eq_effect(ne, a, b, h@),
{
    match (a, b) {
        (Value::Int(x), Value::Int(y)) => Effect::Write(Value::Bool((x == y) != ne)),
        (Value::String(s), Value::String(t)) => {
            let same = crate::text::chars_eq(h.str_chars(s), h.str_chars(t));
            Effect::Write(Value::Bool(same != ne))
        },
        (Value::Bool(x), Value::Bool(y)) => Effect::Write(Value::Bool((x == y) != ne)),
        (Value::Null, Value::Null) => Effect::Write(Value::Bool(!ne)),
        _ => {
            let an = match a { Value::Int(_) | Value::Float(_) => true, _ => false };
            let bn = match b { Value::Int(_) | Value::Float(_) => true, _ => false };
            if an && bn {
                Effect::Host(FloatJob { op: if ne { FloatOp::NotEq } else { FloatOp::Equal }, lhs: num_operand_exec(a), rhs: num_operand_exec(b) })
            } else {
                Effect::Write(Value::Bool(ne))
            }
        },
    }
}

fn eq_imm_exec(ne: bool, a: Value, imm: i64) -> (e: Effect)
    ensures
        e@ == eq_imm_effect(ne, a, imm),
{
    match a {
        Value::Int(x) => Effect::Write(Value::Bool((x == imm) != ne)),
        Value::Float(f) => Effect::Host(FloatJob { op: if ne { FloatOp::NotEq } else { FloatOp::Equal }, lhs: Operand::Float(f), rhs: Operand::Int(imm) }),
        _ => Effect::Write(Value::Bool(ne)),
    }
}

fn neg_exec(a: Value) -> (e: Effect)
    ensures
        e@ == neg_effect(a),
{
    match a {
        Value::Int(x) => if x == i64::MIN {
            Effect::Abort(crate::text::chars_of("attempt to negate with overflow"))
        } else {
            Effect::Write(Value::Int(-x))
        },
        Value::Float(f) => Effect::Host(FloatJob { op: FloatOp::Neg, lhs: Operand::Float(f), rhs: Operand::Absent }),
        _ => {
            let mut m = crate::text::chars_of("TypeError: Cannot negate ");
            push_label(&mut m, a);
            Effect::Raise(m)
        },
    }
}

/// The values an effect writes are valid.
pub open spec fn effect_ok(h: Seq<ObjV>, b: Bounds, e: EffectV) -> bool {
    e matches EffectV::Write(v) ==> value_ok(h, b, v)
}

/// Reading property `k` of `o`.
pub open spec fn get_prop_effect(o: Value, k: Value, h: Seq<ObjV>) -> EffectV {
    match (o, k) {
        (Value::Array(a), Value::Int(i)) => if i < 0 {
            EffectV::Raise("IndexError: Array index cannot be negative"@)
        } else if i < arr_of(h, a).len() {
            EffectV::Write(arr_of(h, a)[i as int])
        } else {
            EffectV::Write(Value::Null)
        },
        (Value::Table(t), Value::Symbol(sy)) => EffectV::Write(
            match table_lookup(tab_of(h, t), sy) {
                Some(v) => v,
                None => Value::Null,
            },
        ),
        (Value::Array(_), _) => EffectV::Raise("TypeError: Array index must be Integer, got "@ + type_label_of(k)),
        (Value::Table(_), _) => EffectV::Raise("TypeError: Table key must be Symbol, got "@ + type_label_of(k)),
        _ => EffectV::Raise("TypeError: Cannot read property of "@ + type_label_of(o)),
    }
}

/// Writing `v` to property `k` of `o`.
pub open spec fn set_prop_spec(p: &Program, s: VmV, o: Value, k: Value, v: Value) -> (VmV, StepOutV) {
    match o {
        Value::Array(a) => match k {
            Value::Int(i) => if i < 0 {
                raise(p, s, "IndexError: Array index cannot be negative"@)
            } else if i > MAX_ARRAY_SIZE {
                raise(p, s, "MemoryError: OOM Array Limit Exceeded (limit: "@ + nat_digits(i as nat) + ")"@)
            } else {
                (VmV { heap: s.heap.update(a as int, ObjV::Array(arr_store(arr_of(s.heap, a), i as int, v))), ..s }, StepOutV::Continue)
            },
            _ => raise(p, s, "TypeError: Array index must be Integer, got "@ + type_label_of(k)),
        },
        Value::Table(t) => match k {
            Value::Symbol(sy) => (VmV { heap: s.heap.update(t as int, ObjV::Table(table_store(tab_of(s.heap, t), sy, v))), ..s }, StepOutV::Continue),
            _ => raise(p, s, "TypeError: Table key must be Symbol, got "@ + type_label_of(k)),
        },
        _ => raise(p, s, "TypeError: Cannot assign property to "@ + type_label_of(o)),
    }
}

fn label_msg(prefix: &str, v: Value) -> (r: Vec<char>)
    ensures
        r@ == prefix@ + type_label_of(v),
{
    let mut m = crate::text::chars_of(prefix);
    push_label(&mut m, v);
    m
}

fn get_prop_exec(o: Value, k: Value, h: &Heap, Ghost(b): Ghost<Bounds>) -> (e: Effect)
    requires
        heap_wf(h@, b),
        value_ok(h@, b, o),
        value_ok(h@, b, k),
    ensures
        e@ == get_prop_effect(o, k, h@),
        effect_ok(h@, b, e@),
{
    match (o, k) {
        (Value::Array(a), Value::Int(i)) => if i < 0 {
            Effect::Raise(crate::text::chars_of("IndexError: Array index cannot be negative"))
        } else if (i as u64) < (h.arr_len(a) as u64) {
            proof {
                assert(crate::heap::obj_ok(h@, b, h@[a as int]));
                assert(value_ok(h@, b, arr_of(h@, a)[i as int]));
            }
            Effect::Write(h.arr_get(a, i as usize))
        } else {
            Effect::Write(Value::Null)
        },
        (Value::Table(t), Value::Symbol(sy)) => {
            let r = h.tab_get(t, sy, Ghost(b));
            proof {
                assert(crate::heap::obj_ok(h@, b, h@[t as int]));
                if let Some(v) = r {
                    lemma_lookup_ok(h@, b, tab_of(h@, t), sy);
                }
            }
            Effect::Write(match r {
                Some(v) => v,
                None => Value::Null,
            })
        },
        (Value::Array(_), _) => Effect::Raise(label_msg("TypeError: Array index must be Integer, got ", k)),
        (Value::Table(_), _) => Effect::Raise(label_msg("TypeError: Table key must be Symbol, got ", k)),
        _ => Effect::Raise(label_msg("TypeError: Cannot read property of ", o)),
    }
}

pub proof fn lemma_update_ok(h: Seq<ObjV>, b: Bounds, st: Seq<Value>, i: int, v: Value)
    requires
        values_ok(h, b, st),
        value_ok(h, b, v),
        0 <= i < st.len(),
    ensures
        values_ok(h, b, st.update(i, v)),
{
    let u = st.update(i, v);
    assert forall|k: int| 0 <= k < u.len() implies value_ok(h, b, #[trigger] u[k]) by {
        if k != i {
            assert(u[k] == st[k]);
        }
    }
}

proof fn lemma_lookup_ok(h: Seq<ObjV>, b: Bounds, t: Seq<(crate::value::Symbol, Value)>, key: crate::value::Symbol)
    requires
        forall|k: int| 0 <= k < t.len() ==> value_ok(h, b, #[trigger] t[k].1),
    ensures
        table_lookup(t, key) matches Some(v) ==> value_ok(h, b, v),
    decreases t.len(),
{
    if t.len() > 0 {
        assert(value_ok(h, b, t[0].1));
        let r = t.drop_first();
        assert forall|k: int| 0 <= k < r.len() implies value_ok(h, b, #[trigger] r[k].1) by {
            assert(r[k] == t[k + 1]);
        }
        lemma_lookup_ok(h, b, r, key);
    }
}

impl Vm {
    /// Throws an error with message `msg` (see `raise`).
    fn raise_exec(&mut self, p: &Program, msg: Vec<char>) -> (out: StepOut)
        requires
            p.wf(),
            inv_core(p, old(self)@),
            old(self)@.pc <= code_of(p, old(self)@.func_id).len(),
            old(self)@.pending is None,
        ensures
            out is Continue ==> final(self)@.pending is None,
            out is Request ==> final(self)@.pending is Some,
            final(self)@.alloc_counter == old(self)@.alloc_counter,
            (final(self)@, out@) == raise(p, old(self)@, msg@),
            out is Continue ==> inv(p, final(self)@),
            out is Continue || out is Fault,
    {
        let ghost s0 = self@;
        let ghost b = bounds_of(p);
        let ty = error_type_of(&msg);
        let errv = Value::String(self.heap.len());
        proof {
            lemma_push_keeps_wf(s0.heap, b, ObjV::Str(msg@));
            lemma_values_ok_kept(s0.heap, s0.heap.push(ObjV::Str(msg@)), b, s0.stack);
        }
        let _ = self.heap.allocate(Obj::Str(msg.clone()));
        assert(self@ == (VmV { heap: s0.heap.push(ObjV::Str(msg@)), ..s0 }));
        self.unwind_exec(p, &ty, errv, msg)
    }

    /// Carries out an effect on register `dst` (see `apply`).
    fn apply_exec(&mut self, p: &Program, dst: usize, e: Effect) -> (out: StepOut)
        requires
            p.wf(),
            inv_core(p, old(self)@),
            old(self)@.pc < code_of(p, old(self)@.func_id).len(),
            old(self)@.pending is None,
            dst < nregs(p, old(self)@.func_id),
            effect_ok(old(self)@.heap, bounds_of(p), e@),
        ensures
            out is Continue ==> final(self)@.pending is None,
            out is Request ==> final(self)@.pending is Some,
            final(self)@.alloc_counter == old(self)@.alloc_counter,
            (final(self)@, out@) == apply(p, old(self)@, dst, e@),
            (out is Continue || out is Request) ==> inv(p, final(self)@),
    {
        let ghost s0 = self@;
        let ghost b = bounds_of(p);
        match e {
            Effect::Write(v) => {
                proof {
                    lemma_update_ok(s0.heap, b, s0.stack, s0.bp + dst, v);
                }
                self.stack.set(self.bp + dst, v);
                assert(inv_core(p, self@));
                StepOut::Continue
            },
            Effect::WriteText(t) => {
                proof {
                    lemma_push_keeps_wf(s0.heap, b, ObjV::Str(t@));
                    lemma_values_ok_kept(s0.heap, s0.heap.push(ObjV::Str(t@)), b, s0.stack);
                }
                let h = self.heap.allocate(Obj::Str(t));
                proof {
                    lemma_update_ok(self@.heap, b, self@.stack, s0.bp + dst, Value::String(h));
                }
                self.stack.set(self.bp + dst, Value::String(h));
                assert(self@.frames == s0.frames);
                assert(inv_core(p, self@));
                StepOut::Continue
            },
            Effect::Raise(m) => self.raise_exec(p, m),
            Effect::Host(j) => {
                self.pending = Some(Pending { dst, raise: false, seed: false });
                assert(self@.frames == s0.frames);
                assert(inv_core(p, self@));
                StepOut::Request(HostRequest::Float(j))
            },
            Effect::Abort(m) => StepOut::Abort(m),
        }
    }

    fn set_prop_exec(&mut self, p: &Program, o: Value, k: Value, v: Value) -> (out: StepOut)
        requires
            p.wf(),
            inv(p, old(self)@),
            old(self)@.pending is None,
            value_ok(old(self)@.heap, bounds_of(p), o),
            value_ok(old(self)@.heap, bounds_of(p), k),
            value_ok(old(self)@.heap, bounds_of(p), v),
        ensures
            out is Continue ==> final(self)@.pending is None,
            out is Request ==> final(self)@.pending is Some,
            final(self)@.alloc_counter == old(self)@.alloc_counter,
            (final(self)@, out@) == set_prop_spec(p, old(self)@, o, k, v),
            out is Continue ==> inv(p, final(self)@),
            out is Continue || out is Fault,
    {
        let ghost s0 = self@;
        let ghost b = bounds_of(p);
        match o {
            Value::Array(a) => match k {
                Value::Int(i) => if i < 0 {
                    self.raise_exec(p, crate::text::chars_of("IndexError: Array index cannot be negative"))
                } else if (i as u64) > (MAX_ARRAY_SIZE as u64) {
                    let mut m = crate::text::chars_of("MemoryError: OOM Array Limit Exceeded (limit: ");
                    push_u64(&mut m, i as u64);
                    push_str(&mut m, ")");
                    self.raise_exec(p, m)
                } else {
                    self.heap.arr_store(a, i as usize, v, Ghost(b));
                    proof {
                        lemma_values_ok_kept(s0.heap, self@.heap, b, s0.stack);
                    }
                    StepOut::Continue
                },
                _ => self.raise_exec(p, label_msg("TypeError: Array index must be Integer, got ", k)),
            },
            Value::Table(t) => match k {
                Value::Symbol(sy) => {
                    self.heap.tab_store(t, sy, v, Ghost(b));
                    proof {
                        lemma_values_ok_kept(s0.heap, self@.heap, b, s0.stack);
                    }
                    StepOut::Continue
                },
                _ => self.raise_exec(p, label_msg("TypeError: Table key must be Symbol, got ", k)),
            },
            _ => self.raise_exec(p, label_msg("TypeError: Cannot assign property to ", o)),
        }
    }
}

/// Allocating `o` into register `dst`, with an automatic collection once
/// more than `GC_THRESHOLD` objects were allocated since the last one.
pub open spec fn alloc_spec(t: VmV, dst: usize, o: ObjV) -> VmV {
    let h = t.heap.push(o);
    let u = VmV { heap: h, alloc_counter: (t.alloc_counter + 1) as usize, ..t };
    let w = set_reg(u, dst, if o is Array { Value::Array(t.heap.len() as usize) } else { Value::Table(t.heap.len() as usize) });
    if w.alloc_counter > GC_THRESHOLD {
        VmV { heap: collected(w.heap, w.stack), alloc_counter: 0, ..w }
    } else {
        w
    }
}

/// The message of a call with the wrong number of arguments.
pub open spec fn arg_count_msg(name: Seq<char>, want: usize, got: usize) -> Seq<char> {
    "ArgumentError: Function '"@ + name + if want == 0 {
        "' expects no arguments, got "@
    } else if want == 1 {
        "' expects 1 argument, got "@
    } else {
        "' expects "@ + nat_digits(want as nat) + " arguments, got "@
    } + nat_digits(got as nat)
}

/// Calling function `fid` with `count` arguments starting at register
/// `base`; the result will go to register `dst`.
pub open spec fn call_spec(p: &Program, t: VmV, fid: usize, base: usize, count: usize, dst: usize) -> (VmV, StepOutV) {
    let callee = p.functions@[fid as int];
    if count != callee.arg_count {
        raise(p, t, arg_count_msg(callee.name@, callee.arg_count, count))
    } else if t.bp + base + callee.num_registers > MAX_STACK_SIZE {
        raise(p, t, "StackOverflowError: Maximum call stack size exceeded"@)
    } else {
        (VmV {
            frames: t.frames.push(CallFrame { func_id: t.func_id, pc: t.pc, bp: t.bp, dst_reg: dst }),
            bp: (t.bp + base) as usize,
            stack: ensure_len(t.stack, t.bp + base + callee.num_registers),
            func_id: fid,
            pc: 0,
            ..t
        }, StepOutV::Continue)
    }
}

/// Returning `rv`: to the caller's destination register, or out of the run.
pub open spec fn return_spec(p: &Program, t: VmV, rv: Value) -> (VmV, StepOutV) {
    if t.frames.len() == 0 {
        (t, StepOutV::Done(rv))
    } else {
        let fr = t.frames.last();
        let needed = if fr.bp + nregs(p, fr.func_id) >= fr.bp + fr.dst_reg + 1 { fr.bp + nregs(p, fr.func_id) } else { fr.bp + fr.dst_reg + 1 };
        (VmV {
            frames: t.frames.drop_last(),
            bp: fr.bp,
            pc: fr.pc,
            func_id: fr.func_id,
            stack: ensure_len(t.stack, needed).update(fr.bp + fr.dst_reg, rv),
            ..t
        }, StepOutV::Continue)
    }
}

/// The text of a value in an error message thrown with `throw` (strings
/// and floats aside).
pub open spec fn debug_text(v: Value, h: Seq<ObjV>) -> Seq<char> {
    match v {
        Value::Null => "null"@,
        Value::Int(i) => int_text(i as int),
        Value::Bool(b) => if b { "true"@ } else { "false"@ },
        Value::Symbol(s) => "symbol("@ + nat_digits(s as nat) + ")"@,
        Value::Array(a) => "Array(len="@ + nat_digits(arr_of(h, a).len()) + ")"@,
        Value::Table(_) => "Table"@,
        Value::Function(f) => "Function(id="@ + nat_digits(f as nat) + ")"@,
        Value::String(s) => str_of(h, s),
        Value::Float(_) => Seq::empty(),
    }
}

/// Throwing value `v`.
pub open spec fn throw_spec(p: &Program, t: VmV, v: Value) -> (VmV, StepOutV) {
    match v {
        Value::Float(f) => (
            VmV { pending: Some(Pending { dst: 0, raise: true, seed: false }), ..t },
            StepOutV::Request(HostRequestV::Float(FloatJobV { op: FloatOp::Show, lhs: OperandV::Float(f), rhs: OperandV::Absent })),
        ),
        _ => raise(p, t, debug_text(v, t.heap)),
    }
}

/// Calling native `api_id` with `args`; the result goes to register `dst`.
/// A draw before the generator has a state asks the host for one and
/// leaves `pc` at the call (`at`), which then runs again.
pub open spec fn native_call_spec(p: &Program, t: VmV, api_id: usize, args: Seq<Value>, dst: usize, at: usize) -> (VmV, StepOutV) {
    let kind = p.natives@[api_id as int].kind;
    let (h2, rng2, out) = native_spec(kind, t.heap, t.rng, args);
    let t2 = VmV { heap: h2, rng: rng2, ..t };
    match out {
        NativeOutV::Value(v) => (set_reg(t2, dst, v), StepOutV::Continue),
        NativeOutV::Raise(m) => raise(p, t2, m),
        NativeOutV::Float(j) => (
            VmV { pending: Some(Pending { dst, raise: false, seed: false }), ..t2 },
            StepOutV::Request(HostRequestV::Float(j)),
        ),
        NativeOutV::Host => if kind is Rand || kind is RandInt || kind is RandChoice {
            (
                VmV { pending: Some(Pending { dst, raise: false, seed: true }), pc: at, ..t2 },
                StepOutV::Request(HostRequestV::Seed),
            )
        } else { (
            VmV { pending: Some(Pending { dst, raise: false, seed: false }), ..t2 },
            StepOutV::Request(if kind is ToString {
                HostRequestV::Render(value_text(t2.heap, p.strings@, args[0]))
            } else {
                HostRequestV::Native { api_id, kind, args }
            }),
        ) },
        NativeOutV::Abort(m) => (t2, StepOutV::Abort(m)),
    }
}

pub open spec fn cond_jump(s: VmV, t: VmV, target: usize, taken: bool) -> (VmV, StepOutV) {
    if taken {
        (VmV { pc: target, ..s }, StepOutV::Continue)
    } else {
        (t, StepOutV::Continue)
    }
}

/// One instruction: the state after it and what it comes to.
#[verifier::opaque]
pub open spec fn step_spec(p: &Program, s: VmV) -> (VmV, StepOutV) {
    instr_spec(p, s, code_of(p, s.func_id)[s.pc as int])
}

/// Running instruction `ins` in state `s` (whose `pc` points at it).
pub open spec fn instr_spec(p: &Program, s: VmV, ins: Instruction) -> (VmV, StepOutV) {
    let t = VmV { pc: (s.pc + 1) as usize, ..s };
    let h = t.heap;
    match ins {
        Instruction::LoadNull { dst } => (set_reg(t, dst, Value::Null), StepOutV::Continue),
        Instruction::LoadBool { dst, value } => (set_reg(t, dst, Value::Bool(value)), StepOutV::Continue),
        Instruction::LoadInt { dst, value } => (set_reg(t, dst, Value::Int(value)), StepOutV::Continue),
        Instruction::LoadFloat { dst, index } => (set_reg(t, dst, Value::Float(p.floats@[index as int])), StepOutV::Continue),
        Instruction::LoadString { dst, symbol } => apply(p, t, dst, EffectV::WriteText(p.strings@[symbol as int])),
        Instruction::LoadSymbol { dst, symbol } => (set_reg(t, dst, Value::Symbol(symbol)), StepOutV::Continue),
        Instruction::LoadFunction { dst, func_id } => (set_reg(t, dst, Value::Function(func_id)), StepOutV::Continue),
        Instruction::NewArray { dst } => (alloc_spec(t, dst, ObjV::Array(Seq::empty())), StepOutV::Continue),
        Instruction::NewTable { dst } => (alloc_spec(t, dst, ObjV::Table(Seq::empty())), StepOutV::Continue),
        Instruction::GetProp { dst, obj, key } => apply(p, t, dst, get_prop_effect(reg(t, obj), reg(t, key), h)),
        Instruction::SetProp { obj, key, value } => set_prop_spec(p, t, reg(t, obj), reg(t, key), reg(t, value)),
        Instruction::Copy { dst, src } => (set_reg(t, dst, reg(t, src)), StepOutV::Continue),
        Instruction::Add { dst, src1, src2 } => apply(p, t, dst, binary_effect(BinOp::Add, reg(t, src1), reg(t, src2), h)),
        Instruction::Sub { dst, src1, src2 } => apply(p, t, dst, binary_effect(BinOp::Sub, reg(t, src1), reg(t, src2), h)),
        Instruction::Mul { dst, src1, src2 } => apply(p, t, dst, binary_effect(BinOp::Mul, reg(t, src1), reg(t, src2), h)),
        Instruction::Div { dst, src1, src2 } => apply(p, t, dst, binary_effect(BinOp::Div, reg(t, src1), reg(t, src2), h)),
        Instruction::Less { dst, src1, src2 } => apply(p, t, dst, binary_effect(BinOp::Less, reg(t, src1), reg(t, src2), h)),
        Instruction::LessEq { dst, src1, src2 } => apply(p, t, dst, binary_effect(BinOp::LessEq, reg(t, src1), reg(t, src2), h)),
        Instruction::Greater { dst, src1, src2 } => apply(p, t, dst, binary_effect(BinOp::Greater, reg(t, src1), reg(t, src2), h)),
        Instruction::GreaterEq { dst, src1, src2 } => apply(p, t, dst, binary_effect(BinOp::GreaterEq, reg(t, src1), reg(t, src2), h)),
        Instruction::Equal { dst, src1, src2 } => apply(p, t, dst, eq_effect(false, reg(t, src1), reg(t, src2), h)),
        Instruction::NotEq { dst, src1, src2 } => apply(p, t, dst, eq_effect(true, reg(t, src1), reg(t, src2), h)),
        Instruction::AddImm { dst, src, imm } => apply(p, t, dst, imm_effect(BinOp::Add, reg(t, src), imm)),
        Instruction::SubImm { dst, src, imm } => apply(p, t, dst, imm_effect(BinOp::Sub, reg(t, src), imm)),
        Instruction::MulImm { dst, src, imm } => apply(p, t, dst, imm_effect(BinOp::Mul, reg(t, src), imm)),
        Instruction::DivImm { dst, src, imm } => apply(p, t, dst, imm_effect(BinOp::Div, reg(t, src), imm)),
        Instruction::LessImm { dst, src, imm } => apply(p, t, dst, imm_effect(BinOp::Less, reg(t, src), imm)),
        Instruction::LessEqImm { dst, src, imm } => apply(p, t, dst, imm_effect(BinOp::LessEq, reg(t, src), imm)),
        Instruction::GreaterImm { dst, src, imm } => apply(p, t, dst, imm_effect(BinOp::Greater, reg(t, src), imm)),
        Instruction::GreaterEqImm { dst, src, imm } => apply(p, t, dst, imm_effect(BinOp::GreaterEq, reg(t, src), imm)),
        Instruction::EqualImm { dst, src, imm } => apply(p, t, dst, eq_imm_effect(false, reg(t, src), imm)),
        Instruction::NotEqImm { dst, src, imm } => apply(p, t, dst, eq_imm_effect(true, reg(t, src), imm)),
        Instruction::Not { dst, src } => (set_reg(t, dst, Value::Bool(!truthy(reg(t, src)))), StepOutV::Continue),
        Instruction::Neg { dst, src } => apply(p, t, dst, neg_effect(reg(t, src))),
        Instruction::Jump { target } => (VmV { pc: target, ..s }, StepOutV::Continue),
        Instruction::JumpIfFalse { target, src } => cond_jump(s, t, target, !truthy(reg(s, src))),
        Instruction::JumpIfTrue { target, src } => cond_jump(s, t, target, truthy(reg(s, src))),
        Instruction::Call { func_id, base, count, dst } => call_spec(p, t, func_id, base, count, dst),
        Instruction::CallValue { func_reg, base, count, dst } => match reg(t, func_reg) {
            Value::Function(fid) => call_spec(p, t, fid, base, count, dst),
            v => raise(p, t, "TypeError: Cannot call non-function value of type '"@ + type_label_of(v) + "'"@),
        },
        Instruction::NativeCall { api_id, base, count, dst } => native_call_spec(p, t, api_id, t.stack.subrange(t.bp + base, t.bp + base + count), dst, s.pc),
        Instruction::FastNativeCall { api_id, dst, arg } => native_call_spec(p, t, api_id, seq![reg(t, arg)], dst, s.pc),
        Instruction::Return { src } => return_spec(p, t, reg(t, src)),
        Instruction::Throw { src } => throw_spec(p, t, reg(t, src)),
        Instruction::ForceGC { dst } => (set_reg(VmV { heap: collected(h, t.stack), ..t }, dst, Value::Null), StepOutV::Continue),
    }
}

fn digits_msg(prefix: &str, n: usize, suffix: &str) -> (r: Vec<char>)
    ensures
        r@ == prefix@ + nat_digits(n as nat) + suffix@,
{
    let mut m = crate::text::chars_of(prefix);
    push_u64(&mut m, n as u64);
    push_str(&mut m, suffix);
    m
}

fn arg_count_exec(name: &Vec<char>, want: usize, got: usize) -> (r: Vec<char>)
    ensures
        r@ == arg_count_msg(name@, want, got),
{
    let mut m = crate::text::chars_of("ArgumentError: Function '");
    push_all(&mut m, name);
    if want == 0 {
        push_str(&mut m, "' expects no arguments, got ");
    } else if want == 1 {
        push_str(&mut m, "' expects 1 argument, got ");
    } else {
        push_str(&mut m, "' expects ");
        push_u64(&mut m, want as u64);
        push_str(&mut m, " arguments, got ");
    }
    push_u64(&mut m, got as u64);
    assert(m@ =~= arg_count_msg(name@, want, got));
    m
}

/// The instruction at `pc` of function `f` respects the program's bounds.
proof fn lemma_instr_ok(p: &Program, f: usize, pc: usize)
    requires
        p.wf(),
        f < p.functions@.len(),
        pc < code_of(p, f).len(),
    ensures
        regs_below(code_of(p, f)[pc as int], nregs(p, f)),
        refs_ok(code_of(p, f)[pc as int], p.strings@.len(), p.functions@.len(), p.natives@.len(), p.floats@.len(), code_of(p, f).len()),
        falls_through(code_of(p, f)[pc as int]) ==> pc + 1 < code_of(p, f).len(),
        p.function_ok(f as int),
{
    assert(p.function_ok(f as int));
}

impl Vm {
    fn reg_get(&self, r: usize) -> (v: Value)
        requires
            self@.bp + r < self@.stack.len(),
        ensures
            v == reg(self@, r),
    {
        assert(self@.stack.len() == self.stack.len());
        self.stack[self.bp + r]
    }

    fn write_reg(&mut self, p: &Program, r: usize, v: Value)
        requires
            inv_core(p, old(self)@),
            r < nregs(p, old(self)@.func_id),
            value_ok(old(self)@.heap, bounds_of(p), v),
        ensures
            final(self)@ == set_reg(old(self)@, r, v),
            inv_core(p, final(self)@),
    {
        proof {
            lemma_update_ok(self@.heap, bounds_of(p), self@.stack, self@.bp + r, v);
        }
        self.stack.set(self.bp + r, v);
    }

    /// Reclaims every object that the stack cannot reach; returns how many
    /// arrays and tables were reclaimed.
    pub fn collect_garbage(&mut self, p: &Program) -> (count: usize)
        requires
            inv_core(p, old(self)@),
        ensures
            final(self)@ == (VmV { heap: collected(old(self)@.heap, old(self)@.stack), ..old(self)@ }),
            count == reclaimed_count(old(self)@.heap, old(self)@.stack, old(self)@.heap.len() as int),
            inv_core(p, final(self)@),
    {
        self.heap.collect(&self.stack, Ghost(bounds_of(p)))
    }

    fn alloc_exec(&mut self, p: &Program, dst: usize, o: Obj)
        requires
            inv_core(p, old(self)@),
            dst < nregs(p, old(self)@.func_id),
            o@ == ObjV::Array(Seq::empty()) || o@ == ObjV::Table(Seq::empty()),
            old(self)@.alloc_counter <= GC_THRESHOLD,
        ensures
            final(self)@ == alloc_spec(old(self)@, dst, o@),
            inv_core(p, final(self)@),
            final(self)@.alloc_counter <= GC_THRESHOLD,
    {
        let ghost s0 = self@;
        let ghost b = bounds_of(p);
        let is_arr = match &o {
            Obj::Array(_) => true,
            _ => false,
        };
        proof {
            lemma_push_keeps_wf(s0.heap, b, o@);
            lemma_values_ok_kept(s0.heap, s0.heap.push(o@), b, s0.stack);
        }
        let h = self.heap.allocate(o);
        self.alloc_counter = self.alloc_counter + 1;
        let v = if is_arr { Value::Array(h) } else { Value::Table(h) };
        self.write_reg(p, dst, v);
        if self.alloc_counter > GC_THRESHOLD {
            let _ = self.collect_garbage(p);
            self.alloc_counter = 0;
        }
    }

    fn call_exec(&mut self, p: &Program, fid: usize, base: usize, count: usize, dst: usize) -> (out: StepOut)
        requires
            p.wf(),
            inv_core(p, old(self)@),
            old(self)@.pending is None,
            old(self)@.pc < code_of(p, old(self)@.func_id).len(),
            fid < p.functions@.len(),
            dst < nregs(p, old(self)@.func_id),
            base + count <= nregs(p, old(self)@.func_id),
        ensures
            out is Continue ==> final(self)@.pending is None,
            out is Request ==> final(self)@.pending is Some,
            final(self)@.alloc_counter == old(self)@.alloc_counter,
            (final(self)@, out@) == call_spec(p, old(self)@, fid, base, count, dst),
            out is Continue ==> inv(p, final(self)@),
            out is Continue || out is Fault,
    {
        let ghost s0 = self@;
        let callee = &p.functions[fid];
        assert(p.function_ok(fid as int));
        if count != callee.arg_count {
            let m = arg_count_exec(&callee.name, callee.arg_count, count);
            return self.raise_exec(p, m);
        }
        let new_bp = self.bp + base;
        let needed = new_bp + callee.num_registers;
        if needed > MAX_STACK_SIZE {
            return self.raise_exec(p, crate::text::chars_of("StackOverflowError: Maximum call stack size exceeded"));
        }
        let fr = CallFrame { func_id: self.func_id, pc: self.pc, bp: self.bp, dst_reg: dst };
        assert(frame_ok(p, fr));
        self.frames.push(fr);
        self.bp = new_bp;
        proof {
            lemma_ensure_len_ok(self@.heap, bounds_of(p), self@.stack, needed as int);
        }
        self.ensure_stack_len(needed);
        self.func_id = fid;
        self.pc = 0;
        assert forall|k: int| 0 <= k < self@.frames.len() implies frame_ok(p, #[trigger] self@.frames[k]) by {
            if k < s0.frames.len() {
                assert(self@.frames[k] == s0.frames[k]);
            }
        }
        StepOut::Continue
    }

    fn return_exec(&mut self, p: &Program, rv: Value) -> (out: StepOut)
        requires
            p.wf(),
            inv_core(p, old(self)@),
            old(self)@.pending is None,
            value_ok(old(self)@.heap, bounds_of(p), rv),
        ensures
            out is Continue ==> final(self)@.pending is None,
            out is Request ==> final(self)@.pending is Some,
            final(self)@.alloc_counter == old(self)@.alloc_counter,
            (final(self)@, out@) == return_spec(p, old(self)@, rv),
            out is Continue ==> inv(p, final(self)@),
            out is Continue || out is Done,
    {
        if self.frames.len() == 0 {
            return StepOut::Done(rv);
        }
        let ghost s0 = self@;
        let fr = self.frames.pop().unwrap();
        assert(fr == s0.frames.last());
        assert(frame_ok(p, fr));
        self.bp = fr.bp;
        self.pc = fr.pc;
        self.func_id = fr.func_id;
        let n = p.functions[fr.func_id].num_registers;
        let needed = if fr.bp + n >= fr.bp + fr.dst_reg + 1 { fr.bp + n } else { fr.bp + fr.dst_reg + 1 };
        proof {
            lemma_ensure_len_ok(self@.heap, bounds_of(p), self@.stack, needed as int);
        }
        self.ensure_stack_len(needed);
        proof {
            lemma_update_ok(self@.heap, bounds_of(p), self@.stack, fr.bp + fr.dst_reg, rv);
        }
        self.stack.set(fr.bp + fr.dst_reg, rv);
        assert forall|k: int| 0 <= k < self@.frames.len() implies frame_ok(p, #[trigger] self@.frames[k]) by {
            assert(self@.frames[k] == s0.frames[k]);
        }
        StepOut::Continue
    }

    fn debug_text_exec(&self, v: Value, Ghost(b): Ghost<Bounds>) -> (r: Vec<char>)
        requires
            value_ok(self@.heap, b, v),
            !(v is Float),
        ensures
            r@ == debug_text(v, self@.heap),
    {
        match v {
            Value::Null => crate::text::chars_of("null"),
            Value::Int(i) => crate::fmt::i64_text(i),
            Value::Bool(x) => crate::text::chars_of(if x { "true" } else { "false" }),
            Value::Symbol(sy) => digits_msg("symbol(", sy, ")"),
            Value::Array(a) => digits_msg("Array(len=", self.heap.arr_len(a), ")"),
            Value::Table(_) => crate::text::chars_of("Table"),
            Value::Function(f) => digits_msg("Function(id=", f, ")"),
            Value::String(h) => str_exec(&self.heap, h, Ghost(b)),
            Value::Float(_) => vstd::pervasive::unreached(),
        }
    }

    fn throw_exec(&mut self, p: &Program, v: Value) -> (out: StepOut)
        requires
            p.wf(),
            inv_core(p, old(self)@),
            old(self)@.pending is None,
            old(self)@.pc <= code_of(p, old(self)@.func_id).len(),
            value_ok(old(self)@.heap, bounds_of(p), v),
        ensures
            out is Continue ==> final(self)@.pending is None,
            out is Request ==> final(self)@.pending is Some,
            final(self)@.alloc_counter == old(self)@.alloc_counter,
            (final(self)@, out@) == throw_spec(p, old(self)@, v),
            (out is Continue || out is Request) ==> inv(p, final(self)@),
    {
        match v {
            Value::Float(f) => {
                self.pending = Some(Pending { dst: 0, raise: true, seed: false });
                StepOut::Request(HostRequest::Float(FloatJob { op: FloatOp::Show, lhs: Operand::Float(f), rhs: Operand::Absent }))
            },
            _ => {
                let m = self.debug_text_exec(v, Ghost(bounds_of(p)));
                self.raise_exec(p, m)
            },
        }
    }

    fn native_exec(&mut self, p: &Program, api_id: usize, args: Vec<Value>, dst: usize, at: usize) -> (out: StepOut)
        requires
            at < code_of(p, old(self)@.func_id).len(),
            p.wf(),
            inv_core(p, old(self)@),
            old(self)@.pending is None,
            old(self)@.pc < code_of(p, old(self)@.func_id).len(),
            api_id < p.natives@.len(),
            dst < nregs(p, old(self)@.func_id),
            values_ok(old(self)@.heap, bounds_of(p), args@),
        ensures
            out is Continue ==> final(self)@.pending is None,
            out is Request ==> final(self)@.pending is Some,
            final(self)@.alloc_counter == old(self)@.alloc_counter,
            (final(self)@, out@) == native_call_spec(p, old(self)@, api_id, args@, dst, at),
            (out is Continue || out is Request) ==> inv(p, final(self)@),
    {
        let ghost s0 = self@;
        let ghost b = bounds_of(p);
        let kind = p.natives[api_id].kind;
        let r = call_native(&mut self.heap, &mut self.rng, kind, &args, Ghost(b));
        proof {
            lemma_values_ok_kept(s0.heap, self@.heap, b, s0.stack);
        }
        match r {
            NativeOut::Value(v) => {
                self.write_reg(p, dst, v);
                StepOut::Continue
            },
            NativeOut::Raise(m) => self.raise_exec(p, m),
            NativeOut::Float(j) => {
                self.pending = Some(Pending { dst, raise: false, seed: false });
                StepOut::Request(HostRequest::Float(j))
            },
            NativeOut::Host => match kind {
                NativeKind::Rand | NativeKind::RandInt | NativeKind::RandChoice => {
                    self.pending = Some(Pending { dst, raise: false, seed: true });
                    self.pc = at;
                    StepOut::Request(HostRequest::Seed)
                },
                _ => {
                self.pending = Some(Pending { dst, raise: false, seed: false });
                match kind {
                    NativeKind::ToString => {
                        let text = value_to_string(&self.heap, &p.strings, args[0]);
                        StepOut::Request(HostRequest::Render(text))
                    },
                    _ => StepOut::Request(HostRequest::Native { api_id, kind, args }),
                }
                },
            },
            NativeOut::Abort(m) => StepOut::Abort(m),
        }
    }
}

impl Vm {
    /// Runs one instruction.
    pub fn step(&mut self, p: &Program) -> (out: StepOut)
        requires
            p.wf(),
            inv(p, old(self)@),
            old(self)@.pending is None,
            old(self)@.alloc_counter <= GC_THRESHOLD,
        ensures
            out is Continue ==> final(self)@.pending is None,
            out is Request ==> final(self)@.pending is Some,
            (final(self)@, out@) == step_spec(p, old(self)@),
            (out is Continue || out is Request) ==> inv(p, final(self)@),
            final(self)@.alloc_counter <= GC_THRESHOLD,
    {
        let ghost s0 = self@;
        proof {
            lemma_instr_ok(p, self.func_id, self.pc);
            reveal(step_spec);
        }
        let n = p.functions[self.func_id].code.len();
        let ins = p.functions[self.func_id].code[self.pc];
        let at = self.pc;
        self.pc = self.pc + 1;
        match ins {
            Instruction::LoadNull { .. } | Instruction::LoadBool { .. } | Instruction::LoadInt { .. } | Instruction::LoadFloat { .. }
            | Instruction::LoadString { .. } | Instruction::LoadSymbol { .. } | Instruction::LoadFunction { .. } | Instruction::NewArray { .. }
            | Instruction::NewTable { .. } | Instruction::Copy { .. } | Instruction::Not { .. } | Instruction::Jump { .. }
            | Instruction::JumpIfFalse { .. } | Instruction::JumpIfTrue { .. } | Instruction::ForceGC { .. } => self.step_simple(p, ins, Ghost(s0)),
            Instruction::SetProp { .. } | Instruction::Call { .. } | Instruction::CallValue { .. } | Instruction::NativeCall { .. }
            | Instruction::FastNativeCall { .. } | Instruction::Return { .. } | Instruction::Throw { .. } => self.step_control(p, ins, at, Ghost(s0)),
            _ => self.step_compute(p, ins, Ghost(s0)),
        }
    }

    #[verifier::rlimit(50)]
    fn step_simple(&mut self, p: &Program, ins: Instruction, Ghost(s0): Ghost<VmV>) -> (out: StepOut)
        requires
            p.wf(),
            inv(p, s0),
            s0.pending is None,
            s0.alloc_counter <= GC_THRESHOLD,
            ins == code_of(p, s0.func_id)[s0.pc as int],
            old(self)@ == (VmV { pc: (s0.pc + 1) as usize, ..s0 }),
            ins is LoadNull || ins is LoadBool || ins is LoadInt || ins is LoadFloat || ins is LoadString || ins is LoadSymbol || ins is LoadFunction || ins is NewArray || ins is NewTable || ins is Copy || ins is Not || ins is Jump || ins is JumpIfFalse || ins is JumpIfTrue || ins is ForceGC,
        ensures
            out is Continue ==> final(self)@.pending is None,
            out is Request ==> final(self)@.pending is Some,
            (final(self)@, out@) == instr_spec(p, s0, ins),
            (out is Continue || out is Request) ==> inv(p, final(self)@),
            final(self)@.alloc_counter <= GC_THRESHOLD,
    {
        let ghost b = bounds_of(p);
        let ghost t = self@;
        proof {
            lemma_instr_ok(p, s0.func_id, s0.pc);
        }
        match ins {
            Instruction::LoadNull { dst } => {
                self.write_reg(p, dst, Value::Null);
                StepOut::Continue
            },
            Instruction::LoadBool { dst, value } => {
                self.write_reg(p, dst, Value::Bool(value));
                StepOut::Continue
            },
            Instruction::LoadInt { dst, value } => {
                self.write_reg(p, dst, Value::Int(value));
                StepOut::Continue
            },
            Instruction::LoadFloat { dst, index } => {
                self.write_reg(p, dst, Value::Float(p.floats[index]));
                StepOut::Continue
            },
            Instruction::LoadString { dst, symbol } => {
                let txt = p.strings.get_chars(symbol).clone();
                self.apply_exec(p, dst, Effect::WriteText(txt))
            },
            Instruction::LoadSymbol { dst, symbol } => {
                self.write_reg(p, dst, Value::Symbol(symbol));
                StepOut::Continue
            },
            Instruction::LoadFunction { dst, func_id } => {
                self.write_reg(p, dst, Value::Function(func_id));
                StepOut::Continue
            },
            Instruction::NewArray { dst } => {
                self.alloc_exec(p, dst, Obj::Array(Vec::new()));
                StepOut::Continue
            },
            Instruction::NewTable { dst } => {
                self.alloc_exec(p, dst, Obj::Table(Vec::new()));
                StepOut::Continue
            },
            Instruction::Copy { dst, src } => {
                let v = self.reg_get(src);
                self.write_reg(p, dst, v);
                StepOut::Continue
            },
            Instruction::Not { dst, src } => {
                let v = self.reg_get(src);
                self.write_reg(p, dst, Value::Bool(!v.is_truthy()));
                StepOut::Continue
            },
            Instruction::Jump { target } => {
                self.pc = target;
                StepOut::Continue
            },
            Instruction::JumpIfFalse { target, src } => {
                let v = self.reg_get(src);
                if !v.is_truthy() {
                    self.pc = target;
                }
                StepOut::Continue
            },
            Instruction::JumpIfTrue { target, src } => {
                let v = self.reg_get(src);
                if v.is_truthy() {
                    self.pc = target;
                }
                StepOut::Continue
            },
            Instruction::ForceGC { dst } => {
                let _ = self.collect_garbage(p);
                self.write_reg(p, dst, Value::Null);
                StepOut::Continue
            },

            _ => vstd::pervasive::unreached(),
        }
    }

    #[verifier::rlimit(50)]
    fn step_compute(&mut self, p: &Program, ins: Instruction, Ghost(s0): Ghost<VmV>) -> (out: StepOut)
        requires
            p.wf(),
            inv(p, s0),
            s0.pending is None,
            s0.alloc_counter <= GC_THRESHOLD,
            ins == code_of(p, s0.func_id)[s0.pc as int],
            old(self)@ == (VmV { pc: (s0.pc + 1) as usize, ..s0 }),
            ins is GetProp || ins is Add || ins is Sub || ins is Mul || ins is Div || ins is Less || ins is LessEq || ins is Greater || ins is GreaterEq || ins is Equal || ins is NotEq || ins is AddImm || ins is SubImm || ins is MulImm || ins is DivImm || ins is LessImm || ins is LessEqImm || ins is GreaterImm || ins is GreaterEqImm || ins is EqualImm || ins is NotEqImm || ins is Neg,
        ensures
            out is Continue ==> final(self)@.pending is None,
            out is Request ==> final(self)@.pending is Some,
            (final(self)@, out@) == instr_spec(p, s0, ins),
            (out is Continue || out is Request) ==> inv(p, final(self)@),
            final(self)@.alloc_counter <= GC_THRESHOLD,
    {
        let ghost b = bounds_of(p);
        let ghost t = self@;
        proof {
            lemma_instr_ok(p, s0.func_id, s0.pc);
        }
        match ins {
            Instruction::GetProp { dst, obj, key } => {
                let o = self.reg_get(obj);
                let k = self.reg_get(key);
                let e = get_prop_exec(o, k, &self.heap, Ghost(b));
                self.apply_exec(p, dst, e)
            },
            Instruction::Add { dst, src1, src2 } => self.binary_step(p, BinOp::Add, dst, src1, src2),
            Instruction::Sub { dst, src1, src2 } => self.binary_step(p, BinOp::Sub, dst, src1, src2),
            Instruction::Mul { dst, src1, src2 } => self.binary_step(p, BinOp::Mul, dst, src1, src2),
            Instruction::Div { dst, src1, src2 } => self.binary_step(p, BinOp::Div, dst, src1, src2),
            Instruction::Less { dst, src1, src2 } => self.binary_step(p, BinOp::Less, dst, src1, src2),
            Instruction::LessEq { dst, src1, src2 } => self.binary_step(p, BinOp::LessEq, dst, src1, src2),
            Instruction::Greater { dst, src1, src2 } => self.binary_step(p, BinOp::Greater, dst, src1, src2),
            Instruction::GreaterEq { dst, src1, src2 } => self.binary_step(p, BinOp::GreaterEq, dst, src1, src2),
            Instruction::Equal { dst, src1, src2 } => {
                let a = self.reg_get(src1);
                let c = self.reg_get(src2);
                let e = eq_exec(false, a, c, &self.heap, Ghost(b));
                self.apply_exec(p, dst, e)
            },
            Instruction::NotEq { dst, src1, src2 } => {
                let a = self.reg_get(src1);
                let c = self.reg_get(src2);
                let e = eq_exec(true, a, c, &self.heap, Ghost(b));
                self.apply_exec(p, dst, e)
            },
            Instruction::AddImm { dst, src, imm } => self.imm_step(p, BinOp::Add, dst, src, imm),
            Instruction::SubImm { dst, src, imm } => self.imm_step(p, BinOp::Sub, dst, src, imm),
            Instruction::MulImm { dst, src, imm } => self.imm_step(p, BinOp::Mul, dst, src, imm),
            Instruction::DivImm { dst, src, imm } => self.imm_step(p, BinOp::Div, dst, src, imm),
            Instruction::LessImm { dst, src, imm } => self.imm_step(p, BinOp::Less, dst, src, imm),
            Instruction::LessEqImm { dst, src, imm } => self.imm_step(p, BinOp::LessEq, dst, src, imm),
            Instruction::GreaterImm { dst, src, imm } => self.imm_step(p, BinOp::Greater, dst, src, imm),
            Instruction::GreaterEqImm { dst, src, imm } => self.imm_step(p, BinOp::GreaterEq, dst, src, imm),
            Instruction::EqualImm { dst, src, imm } => {
                let a = self.reg_get(src);
                let e = eq_imm_exec(false, a, imm);
                self.apply_exec(p, dst, e)
            },
            Instruction::NotEqImm { dst, src, imm } => {
                let a = self.reg_get(src);
                let e = eq_imm_exec(true, a, imm);
                self.apply_exec(p, dst, e)
            },
            Instruction::Neg { dst, src } => {
                let a = self.reg_get(src);
                let e = neg_exec(a);
                self.apply_exec(p, dst, e)
            },
            _ => vstd::pervasive::unreached(),
        }
    }

    #[verifier::rlimit(50)]
    fn step_control(&mut self, p: &Program, ins: Instruction, at: usize, Ghost(s0): Ghost<VmV>) -> (out: StepOut)
        requires
            at == s0.pc,
            p.wf(),
            inv(p, s0),
            s0.pending is None,
            s0.alloc_counter <= GC_THRESHOLD,
            ins == code_of(p, s0.func_id)[s0.pc as int],
            old(self)@ == (VmV { pc: (s0.pc + 1) as usize, ..s0 }),
            ins is SetProp || ins is Call || ins is CallValue || ins is NativeCall || ins is FastNativeCall || ins is Return || ins is Throw,
        ensures
            out is Continue ==> final(self)@.pending is None,
            out is Request ==> final(self)@.pending is Some,
            (final(self)@, out@) == instr_spec(p, s0, ins),
            (out is Continue || out is Request) ==> inv(p, final(self)@),
            final(self)@.alloc_counter <= GC_THRESHOLD,
    {
        let ghost b = bounds_of(p);
        let ghost t = self@;
        proof {
            lemma_instr_ok(p, s0.func_id, s0.pc);
        }
        match ins {
            Instruction::SetProp { obj, key, value } => {
                let o = self.reg_get(obj);
                let k = self.reg_get(key);
                let v = self.reg_get(value);
                self.set_prop_exec(p, o, k, v)
            },
            Instruction::Call { func_id, base, count, dst } => self.call_exec(p, func_id, base, count, dst),
            Instruction::CallValue { func_reg, base, count, dst } => {
                let fv = self.reg_get(func_reg);
                match fv {
                    Value::Function(fid) => self.call_exec(p, fid, base, count, dst),
                    _ => {
                        let mut m = crate::text::chars_of("TypeError: Cannot call non-function value of type '");
                        push_label(&mut m, fv);
                        push_str(&mut m, "'");
                        self.raise_exec(p, m)
                    },
                }
            },
            Instruction::NativeCall { api_id, base, count, dst } => {
                let mut args: Vec<Value> = Vec::new();
                let mut k: usize = 0;
                while k < count
                    invariant
                        k <= count,
                        base + count <= STACK_BOUND,
                        self@ == t,
                        t.bp + base + count <= t.stack.len(),
                        args@ == t.stack.subrange(t.bp + base, t.bp + base + k),
                    decreases count - k,
                {
                    args.push(self.reg_get(base + k));
                    k = k + 1;
                    assert(args@ =~= t.stack.subrange(t.bp + base, t.bp + base + k));
                }
                proof {
                    assert forall|j: int| 0 <= j < args@.len() implies value_ok(t.heap, b, #[trigger] args@[j]) by {
                        assert(args@[j] == t.stack[t.bp + base + j]);
                    }
                }
                self.native_exec(p, api_id, args, dst, at)
            },
            Instruction::FastNativeCall { api_id, dst, arg } => {
                let mut args: Vec<Value> = Vec::new();
                args.push(self.reg_get(arg));
                assert(args@ =~= seq![reg(t, arg)]);
                self.native_exec(p, api_id, args, dst, at)
            },
            Instruction::Return { src } => {
                let v = self.reg_get(src);
                self.return_exec(p, v)
            },
            Instruction::Throw { src } => {
                let v = self.reg_get(src);
                self.throw_exec(p, v)
            },
            _ => vstd::pervasive::unreached(),
        }
    }

    fn binary_step(&mut self, p: &Program, op: BinOp, dst: usize, src1: usize, src2: usize) -> (out: StepOut)
        requires
            p.wf(),
            inv_core(p, old(self)@),
            old(self)@.pending is None,
            old(self)@.pc < code_of(p, old(self)@.func_id).len(),
            dst < nregs(p, old(self)@.func_id),
            src1 < nregs(p, old(self)@.func_id),
            src2 < nregs(p, old(self)@.func_id),
        ensures
            out is Continue ==> final(self)@.pending is None,
            out is Request ==> final(self)@.pending is Some,
            final(self)@.alloc_counter == old(self)@.alloc_counter,
            (final(self)@, out@) == apply(p, old(self)@, dst, binary_effect(op, reg(old(self)@, src1), reg(old(self)@, src2), old(self)@.heap)),
            (out is Continue || out is Request) ==> inv(p, final(self)@),
    {
        let a = self.reg_get(src1);
        let c = self.reg_get(src2);
        let e = binary_exec(op, a, c, &self.heap, Ghost(bounds_of(p)));
        self.apply_exec(p, dst, e)
    }

    fn imm_step(&mut self, p: &Program, op: BinOp, dst: usize, src: usize, imm: i64) -> (out: StepOut)
        requires
            p.wf(),
            inv_core(p, old(self)@),
            old(self)@.pending is None,
            old(self)@.pc < code_of(p, old(self)@.func_id).len(),
            dst < nregs(p, old(self)@.func_id),
            src < nregs(p, old(self)@.func_id),
        ensures
            out is Continue ==> final(self)@.pending is None,
            out is Request ==> final(self)@.pending is Some,
            final(self)@.alloc_counter == old(self)@.alloc_counter,
            (final(self)@, out@) == apply(p, old(self)@, dst, imm_effect(op, reg(old(self)@, src), imm)),
            (out is Continue || out is Request) ==> inv(p, final(self)@),
    {
        let a = self.reg_get(src);
        let e = imm_exec(op, a, imm);
        self.apply_exec(p, dst, e)
    }
}

/// Running up to `fuel` instructions: stops at the first step that does
/// not simply continue.
pub open spec fn run_spec(p: &Program, s: VmV, fuel: nat) -> (VmV, StepOutV)
    decreases fuel,
{
    if fuel == 0 {
        (s, StepOutV::Continue)
    } else {
        let (s2, o) = step_spec(p, s);
        if o is Continue {
            run_spec(p, s2, (fuel - 1) as nat)
        } else {
            (s2, o)
        }
    }
}

/// The state in which a run of function `fid` begins.
pub open spec fn initial(p: &Program, fid: usize, rng: Option<u64>) -> VmV {
    VmV {
        stack: Seq::new(nregs(p, fid), |i: int| Value::Null),
        frames: Seq::empty(),
        heap: Seq::empty(),
        alloc_counter: 0,
        func_id: fid,
        pc: 0,
        bp: 0,
        pending: None,
        rng,
    }
}

/// The host's answer is usable: a value it hands back is valid.
pub open spec fn reply_ok(p: &Program, s: VmV, r: HostReplyV) -> bool {
    &&& r matches HostReplyV::Value(v) ==> value_ok(s.heap, bounds_of(p), v)
    &&& (s.pending matches Some(pd) && pd.seed) ==> r matches HostReplyV::Value(Value::Int(_))
}

/// Taking the host's answer to the pending request.
pub open spec fn answer_spec(p: &Program, s: VmV, r: HostReplyV) -> (VmV, StepOutV) {
    let pd = s.pending->0;
    let t = VmV { pending: None, ..s };
    if pd.seed {
        match r {
            HostReplyV::Value(Value::Int(n)) => (VmV { rng: Some(n as u64), ..t }, StepOutV::Continue),
            _ => (t, StepOutV::Continue),
        }
    } else if pd.raise {
        raise(p, t, match r {
            HostReplyV::Value(v) => debug_text(v, t.heap),
            HostReplyV::Text(m) => m,
            HostReplyV::Error(m) => m,
        })
    } else {
        match r {
            HostReplyV::Value(v) => (set_reg(t, pd.dst, v), StepOutV::Continue),
            HostReplyV::Text(x) => apply(p, t, pd.dst, EffectV::WriteText(x)),
            HostReplyV::Error(m) => raise(p, t, m),
        }
    }
}

impl Vm {
    /// A machine with nothing loaded.
    pub fn new() -> (r: Vm)
        ensures
            r@ == idle_vm(),
    {
        Vm {
            stack: Vec::new(),
            frames: Vec::new(),
            heap: Heap::new(),
            alloc_counter: 0,
            func_id: 0,
            pc: 0,
            bp: 0,
            pending: None,
            rng: None,
        }
    }

    /// The heap, for reading results.
    pub fn heap(&self) -> (r: &Heap)
        ensures
            r@ == self@.heap,
    {
        &self.heap
    }

    /// The machine is ready to run instructions of `p`.
    pub open spec fn ready(&self, p: &Program) -> bool {
        &&& p.wf()
        &&& inv(p, self@)
        &&& self@.pending is None
        &&& self@.alloc_counter <= GC_THRESHOLD
    }

    /// The machine waits for the host's answer.
    pub open spec fn waiting(&self, p: &Program) -> bool {
        &&& p.wf()
        &&& inv(p, self@)
        &&& self@.pending is Some
        &&& self@.alloc_counter <= GC_THRESHOLD
    }

    /// Prepares a run of function `fid` with empty registers, call stack
    /// and heap.
    pub fn start(&mut self, p: &Program, fid: usize)
        requires
            p.wf(),
            fid < p.functions@.len(),
        ensures
            final(self)@ == initial(p, fid, old(self)@.rng),
            final(self).ready(p),
    {
        assert(p.function_ok(fid as int));
        self.stack = Vec::new();
        let n = p.functions[fid].num_registers;
        let mut k: usize = 0;
        while k < n
            invariant
                k <= n,
                self.rng == old(self).rng,
                self.stack@ == Seq::new(k as nat, |i: int| Value::Null),
            decreases n - k,
        {
            self.stack.push(Value::Null);
            k = k + 1;
            assert(self.stack@ =~= Seq::new(k as nat, |i: int| Value::Null));
        }
        self.frames = Vec::new();
        self.heap = Heap::new();
        self.alloc_counter = 0;
        self.func_id = fid;
        self.pc = 0;
        self.bp = 0;
        self.pending = None;
        assert(self@.stack =~= initial(p, fid, old(self)@.rng).stack);
        assert(self@.frames =~= Seq::<CallFrame>::empty());
        assert(self@.heap =~= Seq::<ObjV>::empty());
        assert(self@ == initial(p, fid, old(self)@.rng));
    }

    /// Runs at most `fuel` instructions (see `run_spec`).
    pub fn run(&mut self, p: &Program, fuel: usize) -> (out: StepOut)
        requires
            old(self).ready(p),
        ensures
            (final(self)@, out@) == run_spec(p, old(self)@, fuel as nat),
            out is Continue ==> final(self).ready(p),
            out is Request ==> final(self).waiting(p),
    {
        let mut k: usize = fuel;
        loop
            invariant
                self.ready(p),
                run_spec(p, self@, k as nat) == run_spec(p, old(self)@, fuel as nat),
            decreases k,
        {
            if k == 0 {
                return StepOut::Continue;
            }
            let ghost s = self@;
            let out = self.step(p);
            k = k - 1;
            match out {
                StepOut::Continue => {},
                _ => {
                    proof {
                        if out is Request {
                            assert(self@.pending is Some);
                        }
                    }
                    return out;
                },
            }
        }
    }

    /// Starts a run of function `fid` and runs at most `fuel` instructions.
    pub fn execute(&mut self, p: &Program, fid: usize, fuel: usize) -> (out: StepOut)
        requires
            p.wf(),
            fid < p.functions@.len(),
        ensures
            (final(self)@, out@) == run_spec(p, initial(p, fid, old(self)@.rng), fuel as nat),
            out is Continue ==> final(self).ready(p),
            out is Request ==> final(self).waiting(p),
    {
        self.start(p, fid);
        self.run(p, fuel)
    }

    /// Whether the host's answer can be taken (see `reply_ok`).
    pub fn check_reply(&self, p: &Program, r: &HostReply) -> (ok: bool)
        ensures
            ok == reply_ok(p, self@, r@),
    {
        let wants_seed = match self.pending {
            Some(pd) => pd.seed,
            None => false,
        };
        if wants_seed {
            match r {
                HostReply::Value(Value::Int(_)) => {},
                _ => { return false; },
            }
        }
        match r {
            HostReply::Value(v) => match v {
                Value::String(i) => *i < self.heap.len() && match &self.heap.objs[*i] { Obj::Str(_) => true, _ => false },
                Value::Array(i) => *i < self.heap.len() && match &self.heap.objs[*i] { Obj::Array(_) => true, _ => false },
                Value::Table(i) => *i < self.heap.len() && match &self.heap.objs[*i] { Obj::Table(_) => true, _ => false },
                Value::Symbol(sy) => *sy < p.strings.len(),
                Value::Function(f) => *f < p.functions.len(),
                _ => true,
            },
            _ => true,
        }
    }

    /// Takes the host's answer to the pending request (see `answer_spec`).
    pub fn answer(&mut self, p: &Program, r: HostReply) -> (out: StepOut)
        requires
            old(self).waiting(p),
            reply_ok(p, old(self)@, r@),
        ensures
            (final(self)@, out@) == answer_spec(p, old(self)@, r@),
            out is Continue ==> final(self).ready(p),
            out is Continue || out is Fault || out is Abort,
    {
        let pd = self.pending.unwrap();
        self.pending = None;
        let ghost t = self@;
        assert(t == (VmV { pending: None, ..old(self)@ }));
        assert(inv_core(p, t));
        if pd.seed {
            match r {
                HostReply::Value(Value::Int(n)) => { self.rng = Some(n as u64); },
                _ => {},
            }
            StepOut::Continue
        } else if pd.raise {
            let m = match r {
                HostReply::Value(v) => match v {
                    Value::Float(_) => Vec::new(),
                    _ => self.debug_text_exec(v, Ghost(bounds_of(p))),
                },
                HostReply::Text(m) => m,
                HostReply::Error(m) => m,
            };
            proof {
                if let HostReplyV::Value(v) = r@ {
                    if v is Float {
                        assert(m@ =~= debug_text(v, t.heap));
                    }
                }
            }
            self.raise_exec(p, m)
        } else {
            match r {
                HostReply::Value(v) => {
                    self.write_reg(p, pd.dst, v);
                    StepOut::Continue
                },
                HostReply::Text(x) => self.apply_exec(p, pd.dst, Effect::WriteText(x)),
                HostReply::Error(m) => self.raise_exec(p, m),
            }
        }
    }
}

impl Default for Vm {
    /// A machine with nothing loaded (see `Vm::new`).
    fn default() -> (r: Vm)
        ensures
            r@ == idle_vm(),
    {
        Vm::new()
    }
}

} // verus!
