//! Bytecode: instructions, functions, programs, and the pass that removes
//! unreachable instructions.
use vstd::prelude::*;
use crate::graph::{count_true, graph_wf, reachable, reachable_set};
use crate::value::{StringPool, Symbol};
use crate::builtins::NativeKind;
use crate::namemap::NameMap;
use crate::text::chars_of;

verus! {

/// One instruction of the register machine. Registers are numbered from
/// the frame's base.
#[derive(Clone, Copy, PartialEq, Eq, Structural, Debug)]
#[allow(inconsistent_fields)]
pub enum Instruction {
    LoadNull { dst: usize },
    LoadBool { dst: usize, value: bool },
    LoadInt { dst: usize, value: i64 },
    /// Loads the float constant with the given index in the program's
    /// float table.
    LoadFloat { dst: usize, index: usize },
    LoadString { dst: usize, symbol: Symbol },
    LoadSymbol { dst: usize, symbol: Symbol },
    LoadFunction { dst: usize, func_id: usize },
    NewArray { dst: usize },
    NewTable { dst: usize },
    GetProp { dst: usize, obj: usize, key: usize },
    SetProp { obj: usize, key: usize, value: usize },
    Copy { dst: usize, src: usize },
    Add { dst: usize, src1: usize, src2: usize },
    Sub { dst: usize, src1: usize, src2: usize },
    Mul { dst: usize, src1: usize, src2: usize },
    Div { dst: usize, src1: usize, src2: usize },
    Less { dst: usize, src1: usize, src2: usize },
    LessEq { dst: usize, src1: usize, src2: usize },
    Greater { dst: usize, src1: usize, src2: usize },
    GreaterEq { dst: usize, src1: usize, src2: usize },
    Equal { dst: usize, src1: usize, src2: usize },
    NotEq { dst: usize, src1: usize, src2: usize },
    AddImm { dst: usize, src: usize, imm: i64 },
    SubImm { dst: usize, src: usize, imm: i64 },
    MulImm { dst: usize, src: usize, imm: i64 },
    DivImm { dst: usize, src: usize, imm: i64 },
    LessImm { dst: usize, src: usize, imm: i64 },
    LessEqImm { dst: usize, src: usize, imm: i64 },
    GreaterImm { dst: usize, src: usize, imm: i64 },
    GreaterEqImm { dst: usize, src: usize, imm: i64 },
    EqualImm { dst: usize, src: usize, imm: i64 },
    NotEqImm { dst: usize, src: usize, imm: i64 },
    Not { dst: usize, src: usize },
    Neg { dst: usize, src: usize },
    Jump { target: usize },
    JumpIfFalse { target: usize, src: usize },
    JumpIfTrue { target: usize, src: usize },
    Call { func_id: usize, base: usize, count: usize, dst: usize },
    CallValue { func_reg: usize, base: usize, count: usize, dst: usize },
    NativeCall { api_id: usize, base: usize, count: usize, dst: usize },
    FastNativeCall { api_id: usize, dst: usize, arg: usize },
    Return { src: usize },
    Throw { src: usize },
    ForceGC { dst: usize },
}

/// A protected range of code and where control goes when an error is
/// thrown inside it.
pub struct ExceptionHandler {
    pub start_pc: usize,
    pub end_pc: usize,
    pub catch_pc: usize,
    pub err_reg: usize,
    /// The error types caught; empty means every type.
    pub error_types: Vec<Vec<char>>,
}

/// The plain-data part of a handler.
pub struct HandlerV {
    pub start_pc: usize,
    pub end_pc: usize,
    pub catch_pc: usize,
    pub err_reg: usize,
    pub error_types: Seq<Seq<char>>,
}

impl View for ExceptionHandler {
    type V = HandlerV;

    open spec fn view(&self) -> HandlerV {
        HandlerV {
            start_pc: self.start_pc,
            end_pc: self.end_pc,
            catch_pc: self.catch_pc,
            err_reg: self.err_reg,
            error_types: self.error_types@.map_values(|t: Vec<char>| t@),
        }
    }
}

/// A compiled function.
pub struct Function {
    pub id: usize,
    pub name: Vec<char>,
    pub arg_count: usize,
    pub code: Vec<Instruction>,
    pub num_registers: usize,
    pub exception_handlers: Vec<ExceptionHandler>,
}

/// The instruction can pass control to the next one.
pub open spec fn falls_through(i: Instruction) -> bool {
    match i {
        Instruction::Jump { .. } | Instruction::Return { .. } | Instruction::Throw { .. } => false,
        _ => true,
    }
}

/// The jump target of a branch instruction.
pub open spec fn jump_target(i: Instruction) -> Option<usize> {
    match i {
        Instruction::Jump { target } => Some(target),
        Instruction::JumpIfFalse { target, .. } => Some(target),
        Instruction::JumpIfTrue { target, .. } => Some(target),
        _ => None,
    }
}

/// The successors of instruction `pc` in the control-flow graph, as the
/// unreachable-code pass explores them.
pub open spec fn successors(code: Seq<Instruction>, pc: int) -> Seq<usize> {
    let i = code[pc];
    let t = match jump_target(i) {
        Some(t) => if t < code.len() { seq![t] } else { Seq::empty() },
        None => Seq::empty(),
    };
    let f = if falls_through(i) && pc + 1 < code.len() { seq![(pc + 1) as usize] } else { Seq::empty() };
    t + f
}

pub open spec fn cfg(code: Seq<Instruction>) -> Seq<Seq<usize>> {
    Seq::new(code.len(), |pc: int| successors(code, pc))
}

/// Where exploration starts: the entry and each handler's catch point
/// that lies inside the code.
pub open spec fn cfg_roots(code: Seq<Instruction>, hs: Seq<HandlerV>) -> Seq<usize> {
    seq![0usize] + catch_roots(code, hs)
}

pub open spec fn catch_roots(code: Seq<Instruction>, hs: Seq<HandlerV>) -> Seq<usize>
    decreases hs.len(),
{
    if hs.len() == 0 {
        Seq::empty()
    } else {
        catch_roots(code, hs.drop_last()) + if hs.last().catch_pc < code.len() {
            seq![hs.last().catch_pc]
        } else {
            Seq::empty()
        }
    }
}

/// Instruction `pc` can be executed.
pub open spec fn live_pc(code: Seq<Instruction>, hs: Seq<HandlerV>, pc: int) -> bool {
    reachable(cfg(code), cfg_roots(code, hs), pc)
}

pub open spec fn live_marks(code: Seq<Instruction>, hs: Seq<HandlerV>) -> Seq<bool> {
    Seq::new(code.len(), |pc: int| live_pc(code, hs, pc))
}

/// The new index of old index `pc`: the number of live instructions before it.
pub open spec fn new_index(m: Seq<bool>, pc: int) -> usize {
    count_true(m.take(pc)) as usize
}

/// The instruction with its jump target renumbered.
pub open spec fn renumber(i: Instruction, m: Seq<bool>) -> Instruction {
    match i {
        Instruction::Jump { target } => Instruction::Jump { target: new_index(m, target as int) },
        Instruction::JumpIfFalse { target, src } => Instruction::JumpIfFalse { target: new_index(m, target as int), src },
        Instruction::JumpIfTrue { target, src } => Instruction::JumpIfTrue { target: new_index(m, target as int), src },
        _ => i,
    }
}

/// The live instructions of `code[..n]`, in order, renumbered.
pub open spec fn compact(code: Seq<Instruction>, m: Seq<bool>, n: int) -> Seq<Instruction>
    decreases n,
{
    if n <= 0 {
        Seq::empty()
    } else {
        compact(code, m, n - 1) + if m[n - 1] {
            seq![renumber(code[n - 1], m)]
        } else {
            Seq::empty()
        }
    }
}

/// Every jump target and every handler bound lies within the code or one
/// past its end.
pub open spec fn indices_in_bounds(code: Seq<Instruction>, hs: Seq<HandlerV>) -> bool {
    &&& forall|pc: int| 0 <= pc < code.len() ==> match jump_target(#[trigger] code[pc]) {
        Some(t) => t <= code.len(),
        None => true,
    }
    &&& forall|k: int| #![trigger hs[k]] 0 <= k < hs.len() ==> hs[k].start_pc <= code.len() && hs[k].end_pc <= code.len() && hs[k].catch_pc <= code.len()
}

impl Function {
    pub open spec fn handlers(&self) -> Seq<HandlerV> {
        self.exception_handlers@.map_values(|h: ExceptionHandler| h@)
    }

    /// Removes the instructions that cannot be reached from the entry or
    /// from a catch point, renumbering jump targets and handler bounds.
    pub fn optimize(&mut self)
        requires
            indices_in_bounds(old(self).code@, old(self).handlers()),
        ensures
            old(self).code@.len() == 0 ==> final(self).code@ == old(self).code@ && final(self).handlers() == old(self).handlers(),
            old(self).code@.len() > 0 ==> {
                let m = live_marks(old(self).code@, old(self).handlers());
                &&& final(self).code@ == compact(old(self).code@, m, m.len() as int)
                &&& final(self).handlers().len() == old(self).handlers().len()
                &&& forall|k: int| 0 <= k < old(self).handlers().len() ==> {
                    let h0 = #[trigger] old(self).handlers()[k];
                    let h1 = final(self).handlers()[k];
                    &&& h1.start_pc == new_index(m, h0.start_pc as int)
                    &&& h1.end_pc == new_index(m, h0.end_pc as int)
                    &&& h1.catch_pc == new_index(m, h0.catch_pc as int)
                    &&& h1.err_reg == h0.err_reg
                    &&& h1.error_types == h0.error_types
                }
            },
            final(self).id == old(self).id,
            final(self).name@ == old(self).name@,
            final(self).arg_count == old(self).arg_count,
            final(self).num_registers == old(self).num_registers,
    {
        if self.code.len() == 0 {
            return;
        }
        let ghost code0 = self.code@;
        let ghost hs0 = self.handlers();
        let n = self.code.len();
        // successor lists
        let mut adj: Vec<Vec<usize>> = Vec::new();
        let mut pc: usize = 0;
        while pc < n
            invariant
                n == code0.len(),
                self.code@ == code0,
                pc <= n,
                adj@.len() == pc,
                forall|j: int| 0 <= j < pc ==> (#[trigger] adj@[j])@ == successors(code0, j),
            decreases n - pc,
        {
            let ins = self.code[pc];
            let mut s: Vec<usize> = Vec::new();
            match ins {
                Instruction::Jump { target } | Instruction::JumpIfFalse { target, .. } | Instruction::JumpIfTrue { target, .. } => {
                    if target < n {
                        s.push(target);
                    }
                },
                _ => {},
            }
            let ft = match ins {
                Instruction::Jump { .. } | Instruction::Return { .. } | Instruction::Throw { .. } => false,
                _ => true,
            };
            if ft && pc + 1 < n {
                s.push(pc + 1);
            }
            assert(s@ =~= successors(code0, pc as int));
            adj.push(s);
            pc = pc + 1;
        }
        assert forall|j: int| 0 <= j < adj@.len() implies #[trigger] adj.deep_view()[j] =~= cfg(code0)[j] by {
            assert(adj@[j].deep_view() =~= adj@[j]@);
        }
        assert(adj.deep_view() =~= cfg(code0));
        // roots
        let mut roots: Vec<usize> = Vec::new();
        roots.push(0);
        let mut k: usize = 0;
        while k < self.exception_handlers.len()
            invariant
                n == code0.len(),
                hs0 == self.handlers(),
                k <= hs0.len(),
                roots@ == seq![0usize] + catch_roots(code0, hs0.take(k as int)),
            decreases hs0.len() - k,
        {
            assert(hs0.take(k + 1).drop_last() =~= hs0.take(k as int));
            let c = self.exception_handlers[k].catch_pc;
            if c < n {
                roots.push(c);
            }
            k = k + 1;
            assert(roots@ =~= seq![0usize] + catch_roots(code0, hs0.take(k as int)));
        }
        assert(hs0.take(hs0.len() as int) =~= hs0);
        proof {
            let g = cfg(code0);
            let r = cfg_roots(code0, hs0);
            assert(roots@ == r);
            assert forall|i: int, j: int| 0 <= i < g.len() && 0 <= j < g[i].len() implies g[i][j] < g.len() by {}
            lemma_catch_roots_in(code0, hs0);
            assert forall|j: int| 0 <= j < r.len() implies r[j] < g.len() by {
                if j > 0 {
                    assert(r[j] == catch_roots(code0, hs0)[j - 1]);
                }
            }
            assert(graph_wf(g, r));
        }
        let marked = reachable_set(&adj, &roots);
        let ghost m = live_marks(code0, hs0);
        assert(marked@ =~= m);
        // mapping from old to new indices
        let mut mapping: Vec<usize> = Vec::new();
        let mut new_pc: usize = 0;
        let mut old_pc: usize = 0;
        while old_pc < n
            invariant
                n == m.len(),
                marked@ == m,
                old_pc <= n,
                mapping@.len() == old_pc,
                new_pc == count_true(m.take(old_pc as int)),
                new_pc <= old_pc,
                forall|j: int| 0 <= j < old_pc ==> #[trigger] mapping@[j] == new_index(m, j),
            decreases n - old_pc,
        {
            mapping.push(new_pc);
            assert(m.take(old_pc + 1).drop_last() =~= m.take(old_pc as int));
            if marked[old_pc] {
                new_pc = new_pc + 1;
            }
            old_pc = old_pc + 1;
        }
        mapping.push(new_pc);
        assert(m.take(n as int) =~= m);
        // new code
        let mut new_code: Vec<Instruction> = Vec::new();
        let mut p: usize = 0;
        while p < n
            invariant
                n == m.len(),
                n == code0.len(),
                self.code@ == code0,
                marked@ == m,
                mapping@.len() == n + 1,
                forall|j: int| 0 <= j <= n ==> #[trigger] mapping@[j] == new_index(m, j),
                indices_in_bounds(code0, hs0),
                p <= n,
                new_code@ == compact(code0, m, p as int),
            decreases n - p,
        {
            if marked[p] {
                let ins = self.code[p];
                let ni = match ins {
                    Instruction::Jump { target } => Instruction::Jump { target: mapping[target] },
                    Instruction::JumpIfFalse { target, src } => Instruction::JumpIfFalse { target: mapping[target], src },
                    Instruction::JumpIfTrue { target, src } => Instruction::JumpIfTrue { target: mapping[target], src },
                    _ => ins,
                };
                assert(ni == renumber(code0[p as int], m));
                new_code.push(ni);
            }
            p = p + 1;
            assert(new_code@ =~= compact(code0, m, p as int));
        }
        // handlers
        let mut q: usize = 0;
        while q < self.exception_handlers.len()
            invariant
                hs0.len() == self.exception_handlers@.len(),
                self.code@ == code0,
                n == code0.len(),
                mapping@.len() == n + 1,
                n == m.len(),
                forall|j: int| 0 <= j <= n ==> #[trigger] mapping@[j] == new_index(m, j),
                indices_in_bounds(code0, hs0),
                q <= hs0.len(),
                forall|k: int| q <= k < hs0.len() ==> #[trigger] self.handlers()[k] == hs0[k],
                forall|k: int| 0 <= k < q ==> {
                    let h0 = #[trigger] hs0[k];
                    let h1 = self.handlers()[k];
                    &&& h1.start_pc == new_index(m, h0.start_pc as int)
                    &&& h1.end_pc == new_index(m, h0.end_pc as int)
                    &&& h1.catch_pc == new_index(m, h0.catch_pc as int)
                    &&& h1.err_reg == h0.err_reg
                    &&& h1.error_types == h0.error_types
                },
                self.id == old(self).id,
                self.name@ == old(self).name@,
                self.arg_count == old(self).arg_count,
                self.num_registers == old(self).num_registers,
            decreases hs0.len() - q,
        {
            let ghost before = self.handlers();
            assert(before[q as int] == hs0[q as int]);
            assert(hs0[q as int].start_pc <= code0.len() && hs0[q as int].end_pc <= code0.len());
            assert(self.exception_handlers@[q as int]@ == hs0[q as int]);
            let s = mapping[self.exception_handlers[q].start_pc];
            let e = mapping[self.exception_handlers[q].end_pc];
            let c = mapping[self.exception_handlers[q].catch_pc];
            self.exception_handlers[q].start_pc = s;
            self.exception_handlers[q].end_pc = e;
            self.exception_handlers[q].catch_pc = c;
            assert forall|k: int| 0 <= k < hs0.len() && k != q implies #[trigger] self.handlers()[k] == before[k] by {}
            q = q + 1;
        }
        self.code = new_code;
    }
}

proof fn lemma_catch_roots_in(code: Seq<Instruction>, hs: Seq<HandlerV>)
    ensures
        forall|j: int| 0 <= j < catch_roots(code, hs).len() ==> #[trigger] catch_roots(code, hs)[j] < code.len(),
    decreases hs.len(),
{
    if hs.len() > 0 {
        lemma_catch_roots_in(code, hs.drop_last());
        let p = catch_roots(code, hs.drop_last());
        let c = catch_roots(code, hs);
        assert forall|j: int| 0 <= j < c.len() implies #[trigger] c[j] < code.len() by {
            if j < p.len() {
                assert(c[j] == p[j]);
            }
        }
    }
}

/// The most registers all active frames may span; a call that would exceed
/// it raises a stack-overflow error.
pub const MAX_STACK_SIZE: usize = 65_536;

/// The most registers one function may use: a quarter of the address
/// space, so that register arithmetic cannot overflow. No real function
/// comes near it; a register file that large could not be allocated.
pub const MAX_REGISTERS: usize = usize::MAX / 4;

/// A native function as the program knows it: its name and what it does.
pub struct Native {
    pub name: Vec<char>,
    pub kind: NativeKind,
}

/// A compiled program.
pub struct Program {
    pub strings: StringPool,
    pub functions: Vec<Function>,
    /// Native functions by id.
    pub natives: Vec<Native>,
    pub func_map: NameMap,
    pub native_map: NameMap,
    /// Bit patterns of the float constants, by index; the host fills it
    /// from `float_literals`.
    pub floats: Vec<u64>,
    /// The source text of each float constant, by index.
    pub float_literals: Vec<Vec<char>>,
}

/// The registers an instruction names all lie below `n`.
pub open spec fn regs_below(i: Instruction, n: nat) -> bool {
    match i {
        Instruction::LoadNull { dst } => dst < n,
        Instruction::LoadBool { dst, .. } => dst < n,
        Instruction::LoadInt { dst, .. } => dst < n,
        Instruction::LoadFloat { dst, .. } => dst < n,
        Instruction::LoadString { dst, .. } => dst < n,
        Instruction::LoadSymbol { dst, .. } => dst < n,
        Instruction::LoadFunction { dst, .. } => dst < n,
        Instruction::NewArray { dst } => dst < n,
        Instruction::NewTable { dst } => dst < n,
        Instruction::GetProp { dst, obj, key } => dst < n && obj < n && key < n,
        Instruction::SetProp { obj, key, value } => obj < n && key < n && value < n,
        Instruction::Copy { dst, src } => dst < n && src < n,
        Instruction::Add { dst, src1, src2 } => dst < n && src1 < n && src2 < n,
        Instruction::Sub { dst, src1, src2 } => dst < n && src1 < n && src2 < n,
        Instruction::Mul { dst, src1, src2 } => dst < n && src1 < n && src2 < n,
        Instruction::Div { dst, src1, src2 } => dst < n && src1 < n && src2 < n,
        Instruction::Less { dst, src1, src2 } => dst < n && src1 < n && src2 < n,
        Instruction::LessEq { dst, src1, src2 } => dst < n && src1 < n && src2 < n,
        Instruction::Greater { dst, src1, src2 } => dst < n && src1 < n && src2 < n,
        Instruction::GreaterEq { dst, src1, src2 } => dst < n && src1 < n && src2 < n,
        Instruction::Equal { dst, src1, src2 } => dst < n && src1 < n && src2 < n,
        Instruction::NotEq { dst, src1, src2 } => dst < n && src1 < n && src2 < n,
        Instruction::AddImm { dst, src, .. } => dst < n && src < n,
        Instruction::SubImm { dst, src, .. } => dst < n && src < n,
        Instruction::MulImm { dst, src, .. } => dst < n && src < n,
        Instruction::DivImm { dst, src, .. } => dst < n && src < n,
        Instruction::LessImm { dst, src, .. } => dst < n && src < n,
        Instruction::LessEqImm { dst, src, .. } => dst < n && src < n,
        Instruction::GreaterImm { dst, src, .. } => dst < n && src < n,
        Instruction::GreaterEqImm { dst, src, .. } => dst < n && src < n,
        Instruction::EqualImm { dst, src, .. } => dst < n && src < n,
        Instruction::NotEqImm { dst, src, .. } => dst < n && src < n,
        Instruction::Not { dst, src } => dst < n && src < n,
        Instruction::Neg { dst, src } => dst < n && src < n,
        Instruction::Jump { .. } => true,
        Instruction::JumpIfFalse { src, .. } => src < n,
        Instruction::JumpIfTrue { src, .. } => src < n,
        Instruction::Call { base, count, dst, .. } => base + count <= n && dst < n,
        Instruction::CallValue { func_reg, base, count, dst } => func_reg < n && base + count <= n && dst < n,
        Instruction::NativeCall { base, count, dst, .. } => base + count <= n && dst < n,
        Instruction::FastNativeCall { dst, arg, .. } => dst < n && arg < n,
        Instruction::Return { src } => src < n,
        Instruction::Throw { src } => src < n,
        Instruction::ForceGC { dst } => dst < n,
    }
}

/// The constants, functions, natives and jump targets an instruction names
/// all exist.
pub open spec fn refs_ok(i: Instruction, nsym: nat, nfun: nat, nnat: nat, nflt: nat, ncode: nat) -> bool {
    match i {
        Instruction::LoadFloat { index, .. } => index < nflt,
        Instruction::LoadString { symbol, .. } => symbol < nsym,
        Instruction::LoadSymbol { symbol, .. } => symbol < nsym,
        Instruction::LoadFunction { func_id, .. } => func_id < nfun,
        Instruction::Call { func_id, .. } => func_id < nfun,
        Instruction::NativeCall { api_id, .. } => api_id < nnat,
        Instruction::FastNativeCall { api_id, .. } => api_id < nnat,
        Instruction::Jump { target } => target < ncode,
        Instruction::JumpIfFalse { target, .. } => target < ncode,
        Instruction::JumpIfTrue { target, .. } => target < ncode,
        _ => true,
    }
}

/// Whether the registers and references of `i` are in range (see
/// `regs_below` and `refs_ok`).
fn instr_ok(i: Instruction, n: usize, nsym: usize, nfun: usize, nnat: usize, nflt: usize, ncode: usize) -> (r: bool)
    ensures
        r == (regs_below(i, n as nat) && refs_ok(i, nsym as nat, nfun as nat, nnat as nat, nflt as nat, ncode as nat)),
{
    match i {
        Instruction::LoadNull { dst } => dst < n,
        Instruction::LoadBool { dst, .. } => dst < n,
        Instruction::LoadInt { dst, .. } => dst < n,
        Instruction::LoadFloat { dst, index } => dst < n && index < nflt,
        Instruction::LoadString { dst, symbol } => dst < n && symbol < nsym,
        Instruction::LoadSymbol { dst, symbol } => dst < n && symbol < nsym,
        Instruction::LoadFunction { dst, func_id } => dst < n && func_id < nfun,
        Instruction::NewArray { dst } => dst < n,
        Instruction::NewTable { dst } => dst < n,
        Instruction::GetProp { dst, obj, key } => dst < n && obj < n && key < n,
        Instruction::SetProp { obj, key, value } => obj < n && key < n && value < n,
        Instruction::Copy { dst, src } => dst < n && src < n,
        Instruction::Add { dst, src1, src2 } => dst < n && src1 < n && src2 < n,
        Instruction::Sub { dst, src1, src2 } => dst < n && src1 < n && src2 < n,
        Instruction::Mul { dst, src1, src2 } => dst < n && src1 < n && src2 < n,
        Instruction::Div { dst, src1, src2 } => dst < n && src1 < n && src2 < n,
        Instruction::Less { dst, src1, src2 } => dst < n && src1 < n && src2 < n,
        Instruction::LessEq { dst, src1, src2 } => dst < n && src1 < n && src2 < n,
        Instruction::Greater { dst, src1, src2 } => dst < n && src1 < n && src2 < n,
        Instruction::GreaterEq { dst, src1, src2 } => dst < n && src1 < n && src2 < n,
        Instruction::Equal { dst, src1, src2 } => dst < n && src1 < n && src2 < n,
        Instruction::NotEq { dst, src1, src2 } => dst < n && src1 < n && src2 < n,
        Instruction::AddImm { dst, src, .. } => dst < n && src < n,
        Instruction::SubImm { dst, src, .. } => dst < n && src < n,
        Instruction::MulImm { dst, src, .. } => dst < n && src < n,
        Instruction::DivImm { dst, src, .. } => dst < n && src < n,
        Instruction::LessImm { dst, src, .. } => dst < n && src < n,
        Instruction::LessEqImm { dst, src, .. } => dst < n && src < n,
        Instruction::GreaterImm { dst, src, .. } => dst < n && src < n,
        Instruction::GreaterEqImm { dst, src, .. } => dst < n && src < n,
        Instruction::EqualImm { dst, src, .. } => dst < n && src < n,
        Instruction::NotEqImm { dst, src, .. } => dst < n && src < n,
        Instruction::Not { dst, src } => dst < n && src < n,
        Instruction::Neg { dst, src } => dst < n && src < n,
        Instruction::Jump { target } => target < ncode,
        Instruction::JumpIfFalse { target, src } => src < n && target < ncode,
        Instruction::JumpIfTrue { target, src } => src < n && target < ncode,
        Instruction::Call { func_id, base, count, dst } => count <= n && base <= n - count && dst < n && func_id < nfun,
        Instruction::CallValue { func_reg, base, count, dst } => func_reg < n && count <= n && base <= n - count && dst < n,
        Instruction::NativeCall { api_id, base, count, dst } => count <= n && base <= n - count && dst < n && api_id < nnat,
        Instruction::FastNativeCall { api_id, dst, arg } => dst < n && arg < n && api_id < nnat,
        Instruction::Return { src } => src < n,
        Instruction::Throw { src } => src < n,
        Instruction::ForceGC { dst } => dst < n,
    }
}

/// Whether control can pass from `i` to the next instruction.
fn falls(i: Instruction) -> (r: bool)
    ensures
        r == falls_through(i),
{
    match i {
        Instruction::Jump { .. } | Instruction::Return { .. } | Instruction::Throw { .. } => false,
        _ => true,
    }
}

impl Program {
    /// The lookup tables are consistent.
    pub open spec fn wf_tables(&self) -> bool {
        &&& self.strings.wf()
        &&& self.func_map.wf()
        &&& self.native_map.wf()
        &&& forall|k: Seq<char>| #[trigger] self.native_map@.contains_key(k) ==> self.native_map@[k] < self.natives@.len()
        &&& forall|k: Seq<char>| #[trigger] self.func_map@.contains_key(k) ==> self.func_map@[k] < self.functions@.len()
    }

    /// Function `f` is well formed within this program.
    pub open spec fn function_ok(&self, k: int) -> bool {
        let f = self.functions@[k];
        let code = f.code@;
        &&& f.id == k
        &&& code.len() > 0
        &&& f.num_registers <= MAX_REGISTERS
        &&& forall|pc: int| 0 <= pc < code.len() ==> {
            &&& regs_below(#[trigger] code[pc], f.num_registers as nat)
            &&& refs_ok(code[pc], self.strings@.len(), self.functions@.len(), self.natives@.len(), self.floats@.len(), code.len())
            &&& (falls_through(code[pc]) ==> pc + 1 < code.len())
        }
        &&& forall|h: int| #![trigger f.exception_handlers@[h]] 0 <= h < f.exception_handlers@.len() ==> {
            &&& f.exception_handlers@[h].catch_pc < code.len()
            &&& f.exception_handlers@[h].err_reg < MAX_REGISTERS
        }
    }

    /// The program can be run: every function is well formed.
    pub open spec fn wf(&self) -> bool {
        &&& self.wf_tables()
        &&& forall|k: int| 0 <= k < self.functions@.len() ==> #[trigger] self.function_ok(k)
    }

    /// Whether function `k` is well formed (see `function_ok`).
    pub fn check_function(&self, k: usize) -> (r: bool)
        requires
            k < self.functions@.len(),
        ensures
            r == self.function_ok(k as int),
    {
        let f = &self.functions[k];
        if f.id != k || f.code.len() == 0 || f.num_registers > MAX_REGISTERS {
            return false;
        }
        let ncode = f.code.len();
        let mut pc: usize = 0;
        while pc < ncode
            invariant
                f == &self.functions@[k as int],
                ncode == f.code@.len(),
                pc <= ncode,
                forall|q: int| 0 <= q < pc ==> {
                    &&& regs_below(#[trigger] f.code@[q], f.num_registers as nat)
                    &&& refs_ok(f.code@[q], self.strings@.len(), self.functions@.len(), self.natives@.len(), self.floats@.len(), ncode as nat)
                    &&& (falls_through(f.code@[q]) ==> q + 1 < ncode)
                },
            decreases ncode - pc,
        {
            let i = f.code[pc];
            if !instr_ok(i, f.num_registers, self.strings.len(), self.functions.len(), self.natives.len(), self.floats.len(), ncode) {
                return false;
            }
            if falls(i) && pc + 1 >= ncode {
                return false;
            }
            pc = pc + 1;
        }
        let mut h: usize = 0;
        while h < f.exception_handlers.len()
            invariant
                f == &self.functions@[k as int],
                ncode == f.code@.len(),
                h <= f.exception_handlers@.len(),
                forall|j: int| #![trigger f.exception_handlers@[j]] 0 <= j < h ==> {
                    &&& f.exception_handlers@[j].catch_pc < ncode
                    &&& f.exception_handlers@[j].err_reg < MAX_REGISTERS
                },
            decreases f.exception_handlers@.len() - h,
        {
            if f.exception_handlers[h].catch_pc >= ncode || f.exception_handlers[h].err_reg >= MAX_REGISTERS {
                return false;
            }
            h = h + 1;
        }
        true
    }

    /// Whether the program can be run: every function is well formed.
    pub fn check(&self) -> (r: bool)
        requires
            self.wf_tables(),
        ensures
            r == self.wf(),
    {
        let mut k: usize = 0;
        while k < self.functions.len()
            invariant
                k <= self.functions@.len(),
                forall|j: int| 0 <= j < k ==> #[trigger] self.function_ok(j),
            decreases self.functions@.len() - k,
        {
            if !self.check_function(k) {
                return false;
            }
            k = k + 1;
        }
        true
    }

    /// Sets the bit pattern of float constant `index`.
    pub fn set_float(&mut self, index: usize, bits: u64)
        requires
            index < old(self).floats@.len(),
        ensures
            final(self).floats@ == old(self).floats@.update(index as int, bits),
            final(self).strings == old(self).strings,
            final(self).functions == old(self).functions,
            final(self).natives == old(self).natives,
            final(self).func_map == old(self).func_map,
            final(self).native_map == old(self).native_map,
            final(self).float_literals == old(self).float_literals,
    {
        self.floats.set(index, bits);
    }

    /// An empty program.
    pub fn new() -> (r: Program)
        ensures
            r.wf_tables(),
            r.functions@.len() == 0,
            r.natives@.len() == 0,
            r.strings@.len() == 0,
            r.floats@.len() == 0,
            r.float_literals@.len() == 0,
            r.func_map@ == Map::<Seq<char>, usize>::empty(),
            r.native_map@ == Map::<Seq<char>, usize>::empty(),
    {
        Program {
            strings: StringPool::new(),
            functions: Vec::new(),
            natives: Vec::new(),
            func_map: NameMap::new(),
            native_map: NameMap::new(),
            floats: Vec::new(),
            float_literals: Vec::new(),
        }
    }

    /// Adds a native function under `name`; its id is the number of natives
    /// registered before it.
    pub fn register_native(&mut self, name: &str, kind: NativeKind)
        requires
            old(self).wf_tables(),
        ensures
            final(self).wf_tables(),
            final(self).natives@.len() == old(self).natives@.len() + 1,
            final(self).natives@.last().name@ == name@,
            final(self).natives@.last().kind == kind,
            forall|k: int| 0 <= k < old(self).natives@.len() ==> #[trigger] final(self).natives@[k] == old(self).natives@[k],
            final(self).native_map@ == old(self).native_map@.insert(name@, old(self).natives@.len() as usize),
            final(self).functions@ == old(self).functions@,
            final(self).func_map@ == old(self).func_map@,
            final(self).strings@ == old(self).strings@,
            final(self).floats@ == old(self).floats@,
            final(self).float_literals@ == old(self).float_literals@,
    {
        let id = self.natives.len();
        let n = chars_of(name);
        self.native_map.insert(&n, id);
        self.natives.push(Native { name: n, kind });
    }
}

impl Default for Program {
    /// An empty program (see `Program::new`).
    fn default() -> (r: Program)
        ensures
            r.wf_tables(),
            r.functions@.len() == 0,
            r.natives@.len() == 0,
            r.strings@.len() == 0,
            r.floats@.len() == 0,
            r.float_literals@.len() == 0,
    {
        Program::new()
    }
}

} // verus!
