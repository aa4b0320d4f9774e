//! Code generation keeps registers and references in range: every
//! instruction the compiler emits names registers below the function's
//! register count and constants, functions and natives that exist.
use vstd::prelude::*;
use crate::ast::{BinaryOp, ExprV, StmtV};
use crate::bytecode::{HandlerV, Instruction, MAX_REGISTERS, falls_through, indices_in_bounds, jump_target, refs_ok, regs_below};
use crate::laws::{code_ok, handlers_ok};
use crate::bytecode::Function;
use crate::codegen::{CEnv, CS, ConstV, after, bump, cargs, cbinary, cexpr, citems, cpairs, cget, cassign, carray,
    ctable, ccall, cpost, declare, emit, get_var, imm_instr, intern_spec, load_const, move_to, op_instr, eval_const,
    fold_spec, cstmt, cstmts, cblock, cif, cwhile, cfor, ctry, close_loop, patch_jumps, unscope, cfunc, declare_all, fresh};

verus! {

/// A bound no jump target reaches.
pub open spec fn no_bound() -> nat {
    usize::MAX as nat + 1
}

/// An instruction names registers below `nregs` and constants, functions
/// and natives below the given counts.
pub open spec fn instr_ok(i: Instruction, nregs: nat, nsym: nat, nfun: nat, nnat: nat, nflt: nat) -> bool {
    regs_below(i, nregs) && refs_ok(i, nsym, nfun, nnat, nflt, no_bound())
}

/// The functions and natives the compiler resolves names to exist.
pub open spec fn env_ok(env: CEnv, nfun: nat, nnat: nat) -> bool {
    &&& forall|k: Seq<char>| #[trigger] env.funcs.contains_key(k) ==> env.funcs[k] < nfun
    &&& forall|k: Seq<char>| #[trigger] env.natives.contains_key(k) ==> env.natives[k] < nnat
}

/// The compiler's state is consistent: its code is in range, variables
/// lie below the variable count, and handlers store errors in the stack.
pub open spec fn cs_ok(cs: CS, nfun: nat, nnat: nat) -> bool {
    &&& 0 <= cs.max_regs <= MAX_REGISTERS
    &&& 0 <= cs.local_count <= MAX_REGISTERS
    &&& forall|pc: int| 0 <= pc < cs.code.len()
        ==> instr_ok(#[trigger] cs.code[pc], cs.max_regs as nat, cs.strings.len(), nfun, nnat, cs.floats.len())
    &&& forall|k: Seq<char>| #[trigger] cs.regs.contains_key(k) ==> cs.regs[k] < cs.local_count
    &&& forall|h: int| 0 <= h < cs.handlers.len() ==> #[trigger] cs.handlers[h].err_reg < MAX_REGISTERS
    &&& loops_in(cs.loops, cs.code.len())
}

/// The pending jumps of the enclosing loops lie inside the code.
pub open spec fn loops_in(loops: Seq<(Seq<usize>, Seq<usize>)>, n: nat) -> bool {
    &&& forall|i: int, j: int| 0 <= i < loops.len() && 0 <= j < loops[i].0.len() ==> #[trigger] loops[i].0[j] < n
    &&& forall|i: int, j: int| 0 <= i < loops.len() && 0 <= j < loops[i].1.len() ==> #[trigger] loops[i].1[j] < n
}

proof fn lemma_loops_grow(loops: Seq<(Seq<usize>, Seq<usize>)>, n: nat, n2: nat)
    requires
        loops_in(loops, n),
        n <= n2,
    ensures
        loops_in(loops, n2),
{
    assert forall|i: int, j: int| 0 <= i < loops.len() && 0 <= j < loops[i].0.len() implies #[trigger] loops[i].0[j] < n2 by {}
    assert forall|i: int, j: int| 0 <= i < loops.len() && 0 <= j < loops[i].1.len() implies #[trigger] loops[i].1[j] < n2 by {}
}

/// What an expression leaves as it was, and what only grows.
pub open spec fn kept(cs: CS, cs2: CS) -> bool {
    &&& cs2.loops == cs.loops
    &&& cs2.local_count == cs.local_count
    &&& cs2.regs == cs.regs
    &&& cs2.handlers == cs.handlers
    &&& cs.code.len() <= cs2.code.len()
    &&& cs.max_regs <= cs2.max_regs
    &&& cs.strings.len() <= cs2.strings.len()
    &&& cs.floats.len() <= cs2.floats.len()
}

/// What only grows across statements.
pub open spec fn grows(cs: CS, cs2: CS) -> bool {
    &&& cs2.loops.len() == cs.loops.len()
    &&& cs.code.len() <= cs2.code.len()
    &&& cs.max_regs <= cs2.max_regs
    &&& cs.strings.len() <= cs2.strings.len()
    &&& cs.floats.len() <= cs2.floats.len()
}

proof fn lemma_instr_mono(i: Instruction, r1: nat, s1: nat, f1: nat, n1: nat, l1: nat, r2: nat, s2: nat, f2: nat, n2: nat, l2: nat)
    requires
        instr_ok(i, r1, s1, f1, n1, l1),
        r1 <= r2,
        s1 <= s2,
        f1 <= f2,
        n1 <= n2,
        l1 <= l2,
    ensures
        instr_ok(i, r2, s2, f2, n2, l2),
{
}

/// The code stays in range when the bounds grow.
proof fn lemma_code_mono(code: Seq<Instruction>, r1: nat, s1: nat, l1: nat, r2: nat, s2: nat, l2: nat, nfun: nat, nnat: nat)
    requires
        forall|pc: int| 0 <= pc < code.len() ==> instr_ok(#[trigger] code[pc], r1, s1, nfun, nnat, l1),
        r1 <= r2,
        s1 <= s2,
        l1 <= l2,
    ensures
        forall|pc: int| 0 <= pc < code.len() ==> instr_ok(#[trigger] code[pc], r2, s2, nfun, nnat, l2),
{
    assert forall|pc: int| 0 <= pc < code.len() implies instr_ok(#[trigger] code[pc], r2, s2, nfun, nnat, l2) by {
        lemma_instr_mono(code[pc], r1, s1, nfun, nnat, l1, r2, s2, nfun, nnat, l2);
    }
}

/// Appending an instruction that is in range keeps the state consistent.
proof fn lemma_emit(cs: CS, i: Instruction, nfun: nat, nnat: nat)
    requires
        cs_ok(cs, nfun, nnat),
        instr_ok(i, cs.max_regs as nat, cs.strings.len(), nfun, nnat, cs.floats.len()),
    ensures
        cs_ok(emit(cs, i), nfun, nnat),
        kept(cs, emit(cs, i)),
{
    let c2 = emit(cs, i);
    assert forall|pc: int| 0 <= pc < c2.code.len()
        implies instr_ok(#[trigger] c2.code[pc], c2.max_regs as nat, c2.strings.len(), nfun, nnat, c2.floats.len()) by {
        if pc < cs.code.len() {
            assert(c2.code[pc] == cs.code[pc]);
        }
    }
    lemma_loops_grow(cs.loops, cs.code.len(), c2.code.len());
}

proof fn lemma_bump(cs: CS, n: int, nfun: nat, nnat: nat)
    requires
        cs_ok(cs, nfun, nnat),
    ensures
        bump(cs, n) matches Ok(c2) ==> cs_ok(c2, nfun, nnat) && kept(cs, c2) && c2.max_regs >= n && c2.code == cs.code,
{
    if let Ok(c2) = bump(cs, n) {
        lemma_code_mono(cs.code, cs.max_regs as nat, cs.strings.len(), cs.floats.len(), c2.max_regs as nat, c2.strings.len(), c2.floats.len(), nfun, nnat);
    }
}

/// Interning gives a symbol of the pool, which only grows.
proof fn lemma_intern(p: Seq<Seq<char>>, s: Seq<char>)
    ensures
        intern_spec(p, s).0.len() >= p.len(),
        intern_spec(p, s).1 < intern_spec(p, s).0.len(),
{
    if p.contains(s) {
        let k = choose|k: int| 0 <= k < p.len() && p[k] == s;
        assert(0 <= k < p.len());
        if k <= usize::MAX {
            assert(k as usize == k);
        }
    } else {
        if p.len() <= usize::MAX {
            assert(p.len() as usize == p.len());
        }
    }
}

/// A state whose strings grew is still consistent.
proof fn lemma_strings(cs: CS, p: Seq<Seq<char>>, nfun: nat, nnat: nat)
    requires
        cs_ok(cs, nfun, nnat),
        p.len() >= cs.strings.len(),
    ensures
        cs_ok(CS { strings: p, ..cs }, nfun, nnat),
        kept(cs, CS { strings: p, ..cs }),
{
    lemma_code_mono(cs.code, cs.max_regs as nat, cs.strings.len(), cs.floats.len(), cs.max_regs as nat, p.len(), cs.floats.len(), nfun, nnat);
}

proof fn lemma_move_to(cs: CS, dst: usize, src: usize, nfun: nat, nnat: nat)
    requires
        cs_ok(cs, nfun, nnat),
        dst < cs.max_regs,
        src < cs.max_regs,
    ensures
        cs_ok(move_to(cs, dst, src), nfun, nnat),
        kept(cs, move_to(cs, dst, src)),
{
    if src != dst {
        lemma_emit(cs, Instruction::Copy { dst, src }, nfun, nnat);
    }
}

proof fn lemma_load_const(cs: CS, c: ConstV, dst: usize, nfun: nat, nnat: nat)
    requires
        cs_ok(cs, nfun, nnat),
        dst < cs.max_regs,
    ensures
        cs_ok(load_const(cs, c, dst), nfun, nnat),
        kept(cs, load_const(cs, c, dst)),
{
    match c {
        ConstV::Int(i) => lemma_emit(cs, Instruction::LoadInt { dst, value: i }, nfun, nnat),
        ConstV::Bool(b) => lemma_emit(cs, Instruction::LoadBool { dst, value: b }, nfun, nnat),
        ConstV::Str(s) => {
            let (p, sym) = intern_spec(cs.strings, s);
            lemma_intern(cs.strings, s);
            lemma_strings(cs, p, nfun, nnat);
            lemma_emit(CS { strings: p, ..cs }, Instruction::LoadString { dst, symbol: sym }, nfun, nnat);
        },
    }
}

/// An expression's code is in range, and its value's register lies below
/// the register count.
pub proof fn lemma_cexpr(env: CEnv, cs: CS, e: ExprV, dst: usize, nfun: nat, nnat: nat)
    requires
        cs_ok(cs, nfun, nnat),
        env_ok(env, nfun, nnat),
        cs.local_count <= dst + 1,
    ensures
        cexpr(env, cs, e, dst) matches Ok((c2, r)) ==> cs_ok(c2, nfun, nnat) && kept(cs, c2) && r < c2.max_regs
            && dst < c2.max_regs && c2.loops == cs.loops,
    decreases e, 1nat,
{
    lemma_bump(cs, dst + 1, nfun, nnat);
    if let Ok(c1) = bump(cs, dst + 1) {
        match e {
            ExprV::Null => lemma_emit(c1, Instruction::LoadNull { dst }, nfun, nnat),
            ExprV::Bool(b) => lemma_emit(c1, Instruction::LoadBool { dst, value: b }, nfun, nnat),
            ExprV::Int(i) => lemma_emit(c1, Instruction::LoadInt { dst, value: i }, nfun, nnat),
            ExprV::Float(t) => {
                let c2 = CS { floats: c1.floats.push(t), ..c1 };
                lemma_code_mono(c1.code, c1.max_regs as nat, c1.strings.len(), c1.floats.len(), c2.max_regs as nat, c2.strings.len(), c2.floats.len(), nfun, nnat);
                if c1.floats.len() <= usize::MAX {
                    assert(c1.floats.len() as usize == c1.floats.len());
                }
                lemma_emit(c2, Instruction::LoadFloat { dst, index: c1.floats.len() as usize }, nfun, nnat);
            },
            ExprV::String(s) => {
                let (p, sym) = intern_spec(c1.strings, s);
                lemma_intern(c1.strings, s);
                lemma_strings(c1, p, nfun, nnat);
                lemma_emit(CS { strings: p, ..c1 }, Instruction::LoadString { dst, symbol: sym }, nfun, nnat);
            },
            ExprV::Symbol(s) => {
                let (p, sym) = intern_spec(c1.strings, s);
                lemma_intern(c1.strings, s);
                lemma_strings(c1, p, nfun, nnat);
                lemma_emit(CS { strings: p, ..c1 }, Instruction::LoadSymbol { dst, symbol: sym }, nfun, nnat);
            },
            ExprV::Ident(n) => {
                if env.funcs.contains_key(n) {
                    lemma_emit(c1, Instruction::LoadFunction { dst, func_id: env.funcs[n] }, nfun, nnat);
                }
            },
            ExprV::Unary(op, x) => {
                lemma_cexpr(env, c1, *x, dst, nfun, nnat);
                if let Ok((c2, r)) = cexpr(env, c1, *x, dst) {
                    match op {
                        crate::ast::UnaryOp::Not => lemma_emit(c2, Instruction::Not { dst, src: r }, nfun, nnat),
                        crate::ast::UnaryOp::Minus => lemma_emit(c2, Instruction::Neg { dst, src: r }, nfun, nnat),
                    }
                }
            },
            ExprV::Binary(_, _, _) => lemma_cbinary(env, c1, e, dst, nfun, nnat),
            ExprV::Get(_, _) => lemma_cget(env, c1, e, dst, nfun, nnat),
            ExprV::Assign(_, _) => lemma_cassign(env, c1, e, dst, nfun, nnat),
            ExprV::Array(_) => lemma_carray(env, c1, e, dst, nfun, nnat),
            ExprV::Table(_) => lemma_ctable(env, c1, e, dst, nfun, nnat),
            ExprV::Call(_, _) => lemma_ccall(env, c1, e, dst, nfun, nnat),
            ExprV::PostInc(_) => lemma_cpost(env, c1, e, dst, nfun, nnat),
            ExprV::PostDec(_) => lemma_cpost(env, c1, e, dst, nfun, nnat),
        }
    }
}

proof fn lemma_cget(env: CEnv, cs: CS, e: ExprV, dst: usize, nfun: nat, nnat: nat)
    requires
        cs_ok(cs, nfun, nnat),
        env_ok(env, nfun, nnat),
        cs.local_count <= dst + 1,
        dst < cs.max_regs,
    ensures
        cget(env, cs, e, dst) matches Ok((c2, r)) ==> cs_ok(c2, nfun, nnat) && kept(cs, c2) && r < c2.max_regs,
    decreases e, 0nat,
{
    if let ExprV::Get(o, k) = e {
        lemma_cexpr(env, cs, *o, dst, nfun, nnat);
        if let Ok((c1, o_reg)) = cexpr(env, cs, *o, dst) {
            lemma_cexpr(env, c1, *k, after(o_reg, dst) as usize, nfun, nnat);
            if let Ok((c2, k_reg)) = cexpr(env, c1, *k, after(o_reg, dst) as usize) {
                lemma_emit(c2, Instruction::GetProp { dst, obj: o_reg, key: k_reg }, nfun, nnat);
            }
        }
    }
}

proof fn lemma_cassign(env: CEnv, cs: CS, e: ExprV, dst: usize, nfun: nat, nnat: nat)
    requires
        cs_ok(cs, nfun, nnat),
        env_ok(env, nfun, nnat),
        cs.local_count <= dst + 1,
        dst < cs.max_regs,
    ensures
        cassign(env, cs, e, dst) matches Ok((c2, r)) ==> cs_ok(c2, nfun, nnat) && kept(cs, c2) && r < c2.max_regs,
    decreases e, 0nat,
{
    if let ExprV::Assign(left, right) = e {
        lemma_cexpr(env, cs, *right, dst, nfun, nnat);
        if let Ok((c1, r_reg)) = cexpr(env, cs, *right, dst) {
            match *left {
                ExprV::Ident(n) => {
                    if let Ok(v) = get_var(c1, n) {
                        lemma_move_to(c1, v, r_reg, nfun, nnat);
                    }
                },
                ExprV::Get(o, k) => {
                    let o_temp = after(r_reg, dst) as usize;
                    lemma_cexpr(env, c1, *o, o_temp, nfun, nnat);
                    if let Ok((c2, o_reg)) = cexpr(env, c1, *o, o_temp) {
                        lemma_cexpr(env, c2, *k, after(o_reg, o_temp) as usize, nfun, nnat);
                        if let Ok((c3, k_reg)) = cexpr(env, c2, *k, after(o_reg, o_temp) as usize) {
                            lemma_emit(c3, Instruction::SetProp { obj: o_reg, key: k_reg, value: r_reg }, nfun, nnat);
                        }
                    }
                },
                _ => {},
            }
        }
    }
}

proof fn lemma_carray(env: CEnv, cs: CS, e: ExprV, dst: usize, nfun: nat, nnat: nat)
    requires
        cs_ok(cs, nfun, nnat),
        env_ok(env, nfun, nnat),
        cs.local_count <= dst + 1,
        dst < cs.max_regs,
    ensures
        carray(env, cs, e, dst) matches Ok((c2, r)) ==> cs_ok(c2, nfun, nnat) && kept(cs, c2) && r < c2.max_regs,
    decreases e, 0nat,
{
    if let ExprV::Array(items) = e {
        lemma_emit(cs, Instruction::NewArray { dst }, nfun, nnat);
        let c0 = emit(cs, Instruction::NewArray { dst });
        lemma_bump(c0, dst + 3, nfun, nnat);
        if let Ok(c1) = bump(c0, dst + 3) {
            lemma_citems(env, c1, items, dst, 0, nfun, nnat);
        }
    }
}

proof fn lemma_ctable(env: CEnv, cs: CS, e: ExprV, dst: usize, nfun: nat, nnat: nat)
    requires
        cs_ok(cs, nfun, nnat),
        env_ok(env, nfun, nnat),
        cs.local_count <= dst + 1,
        dst < cs.max_regs,
    ensures
        ctable(env, cs, e, dst) matches Ok((c2, r)) ==> cs_ok(c2, nfun, nnat) && kept(cs, c2) && r < c2.max_regs,
    decreases e, 0nat,
{
    if let ExprV::Table(pairs) = e {
        lemma_emit(cs, Instruction::NewTable { dst }, nfun, nnat);
        let c0 = emit(cs, Instruction::NewTable { dst });
        lemma_bump(c0, dst + 3, nfun, nnat);
        if let Ok(c1) = bump(c0, dst + 3) {
            lemma_cpairs(env, c1, pairs, dst, nfun, nnat);
        }
    }
}

proof fn lemma_citems(env: CEnv, cs: CS, items: Seq<ExprV>, dst: usize, i: int, nfun: nat, nnat: nat)
    requires
        cs_ok(cs, nfun, nnat),
        env_ok(env, nfun, nnat),
        cs.local_count <= dst + 1,
        dst + 3 <= cs.max_regs,
    ensures
        citems(env, cs, items, dst, i) matches Ok((c2, _)) ==> cs_ok(c2, nfun, nnat) && kept(cs, c2),
    decreases items, 0nat,
{
    if items.len() > 0 {
        lemma_cexpr(env, cs, items[0], (dst + 1) as usize, nfun, nnat);
        if let Ok((c1, v_reg)) = cexpr(env, cs, items[0], (dst + 1) as usize) {
            let a = emit(c1, Instruction::LoadInt { dst: (dst + 2) as usize, value: i as i64 });
            lemma_emit(c1, Instruction::LoadInt { dst: (dst + 2) as usize, value: i as i64 }, nfun, nnat);
            lemma_emit(a, Instruction::SetProp { obj: dst, key: (dst + 2) as usize, value: v_reg }, nfun, nnat);
            let c2 = emit(a, Instruction::SetProp { obj: dst, key: (dst + 2) as usize, value: v_reg });
            lemma_citems(env, c2, items.drop_first(), dst, i + 1, nfun, nnat);
        }
    }
}

proof fn lemma_cpairs(env: CEnv, cs: CS, pairs: Seq<(Seq<char>, ExprV)>, dst: usize, nfun: nat, nnat: nat)
    requires
        cs_ok(cs, nfun, nnat),
        env_ok(env, nfun, nnat),
        cs.local_count <= dst + 1,
        dst + 3 <= cs.max_regs,
    ensures
        cpairs(env, cs, pairs, dst) matches Ok((c2, _)) ==> cs_ok(c2, nfun, nnat) && kept(cs, c2),
    decreases pairs, 0nat,
{
    if pairs.len() > 0 {
        lemma_cexpr(env, cs, pairs[0].1, (dst + 1) as usize, nfun, nnat);
        if let Ok((c1, v_reg)) = cexpr(env, cs, pairs[0].1, (dst + 1) as usize) {
            let (p, sym) = intern_spec(c1.strings, pairs[0].0);
            lemma_intern(c1.strings, pairs[0].0);
            lemma_strings(c1, p, nfun, nnat);
            let b = CS { strings: p, ..c1 };
            lemma_emit(b, Instruction::LoadSymbol { dst: (dst + 2) as usize, symbol: sym }, nfun, nnat);
            let a = emit(b, Instruction::LoadSymbol { dst: (dst + 2) as usize, symbol: sym });
            lemma_emit(a, Instruction::SetProp { obj: dst, key: (dst + 2) as usize, value: v_reg }, nfun, nnat);
            let c2 = emit(a, Instruction::SetProp { obj: dst, key: (dst + 2) as usize, value: v_reg });
            lemma_cpairs(env, c2, pairs.drop_first(), dst, nfun, nnat);
        }
    }
}

proof fn lemma_cargs(env: CEnv, cs: CS, args: Seq<ExprV>, base: usize, nfun: nat, nnat: nat)
    requires
        cs_ok(cs, nfun, nnat),
        env_ok(env, nfun, nnat),
        cs.local_count <= base + 1,
        base + args.len() <= cs.max_regs,
    ensures
        cargs(env, cs, args, base) matches Ok((c2, _)) ==> cs_ok(c2, nfun, nnat) && kept(cs, c2),
    decreases args, 0nat,
{
    if args.len() > 0 {
        lemma_cexpr(env, cs, args[0], base, nfun, nnat);
        if let Ok((c1, r)) = cexpr(env, cs, args[0], base) {
            lemma_move_to(c1, base, r, nfun, nnat);
            lemma_cargs(env, move_to(c1, base, r), args.drop_first(), (base + 1) as usize, nfun, nnat);
        }
    }
}

proof fn lemma_ccall(env: CEnv, cs: CS, e: ExprV, dst: usize, nfun: nat, nnat: nat)
    requires
        cs_ok(cs, nfun, nnat),
        env_ok(env, nfun, nnat),
        cs.local_count <= dst + 1,
        dst < cs.max_regs,
    ensures
        ccall(env, cs, e, dst) matches Ok((c2, r)) ==> cs_ok(c2, nfun, nnat) && kept(cs, c2) && r < c2.max_regs,
    decreases e, 0nat,
{
    if let ExprV::Call(name, args) = e {
        if name == "gc_collect"@ {
            lemma_emit(cs, Instruction::ForceGC { dst }, nfun, nnat);
        } else {
            lemma_bump(cs, dst + 1 + args.len(), nfun, nnat);
            if let Ok(c1) = bump(cs, dst + 1 + args.len()) {
                lemma_cargs(env, c1, args, (dst + 1) as usize, nfun, nnat);
                if let Ok((c2, _)) = cargs(env, c1, args, (dst + 1) as usize) {
                    let base = (dst + 1) as usize;
                    let count = args.len() as usize;
                    if env.natives.contains_key(name) {
                        let api_id = env.natives[name];
                        if count == 1 {
                            lemma_emit(c2, Instruction::FastNativeCall { api_id, dst, arg: base }, nfun, nnat);
                        } else {
                            lemma_emit(c2, Instruction::NativeCall { api_id, base, count, dst }, nfun, nnat);
                        }
                    } else if env.funcs.contains_key(name) {
                        lemma_emit(c2, Instruction::Call { func_id: env.funcs[name], base, count, dst }, nfun, nnat);
                    } else if let Ok(func_reg) = get_var(c2, name) {
                        lemma_emit(c2, Instruction::CallValue { func_reg, base, count, dst }, nfun, nnat);
                    }
                }
            }
        }
    }
}

proof fn lemma_cpost(env: CEnv, cs: CS, e: ExprV, dst: usize, nfun: nat, nnat: nat)
    requires
        cs_ok(cs, nfun, nnat),
        env_ok(env, nfun, nnat),
        cs.local_count <= dst + 1,
        dst < cs.max_regs,
    ensures
        cpost(env, cs, e, dst) matches Ok((c2, r)) ==> cs_ok(c2, nfun, nnat) && kept(cs, c2) && r < c2.max_regs,
    decreases e, 0nat,
{
    match e {
        ExprV::PostInc(x) => {
            if let ExprV::Ident(n) = *x {
                if let Ok(v) = get_var(cs, n) {
                    lemma_move_to(cs, dst, v, nfun, nnat);
                    lemma_emit(move_to(cs, dst, v), Instruction::AddImm { dst: v, src: v, imm: 1 }, nfun, nnat);
                }
            }
        },
        ExprV::PostDec(x) => {
            if let ExprV::Ident(n) = *x {
                if let Ok(v) = get_var(cs, n) {
                    lemma_move_to(cs, dst, v, nfun, nnat);
                    lemma_emit(move_to(cs, dst, v), Instruction::SubImm { dst: v, src: v, imm: 1 }, nfun, nnat);
                }
            }
        },
        _ => {},
    }
}

proof fn lemma_cbinary(env: CEnv, cs: CS, e: ExprV, dst: usize, nfun: nat, nnat: nat)
    requires
        cs_ok(cs, nfun, nnat),
        env_ok(env, nfun, nnat),
        cs.local_count <= dst + 1,
        dst < cs.max_regs,
    ensures
        cbinary(env, cs, e, dst) matches Ok((c2, r)) ==> cs_ok(c2, nfun, nnat) && kept(cs, c2) && r < c2.max_regs,
    decreases e, 0nat,
{
    if let ExprV::Binary(lb, op, rb) = e {
        let l = *lb;
        let r = *rb;
        let folded = match (eval_const(l), eval_const(r)) {
            (Err(m), _) => Err(m),
            (_, Err(m)) => Err(m),
            (Ok(Some(a)), Ok(Some(b))) => fold_spec(a, op, b),
            _ => Ok(None),
        };
        match folded {
            Err(_) => {},
            Ok(Some(c)) => lemma_load_const(cs, c, dst, nfun, nnat),
            Ok(None) => {
                lemma_cexpr(env, cs, l, dst, nfun, nnat);
                if let Ok((c1, l_reg)) = cexpr(env, cs, l, dst) {
                    if op == BinaryOp::And || op == BinaryOp::Or {
                        lemma_move_to(c1, dst, l_reg, nfun, nnat);
                        let c2 = move_to(c1, dst, l_reg);
                        let jmp = if op == BinaryOp::And {
                            Instruction::JumpIfFalse { target: 0, src: dst }
                        } else {
                            Instruction::JumpIfTrue { target: 0, src: dst }
                        };
                        lemma_emit(c2, jmp, nfun, nnat);
                        let c3 = emit(c2, jmp);
                        lemma_cexpr(env, c3, r, (dst + 1) as usize, nfun, nnat);
                        if let Ok((c4, r_reg)) = cexpr(env, c3, r, (dst + 1) as usize) {
                            lemma_move_to(c4, dst, r_reg, nfun, nnat);
                            let c5 = move_to(c4, dst, r_reg);
                            let end = c5.code.len() as usize;
                            let j1 = c2.code.len() as int;
                            let fin = if op == BinaryOp::And {
                                Instruction::JumpIfFalse { target: end, src: dst }
                            } else {
                                Instruction::JumpIfTrue { target: end, src: dst }
                            };
                            let c6 = CS { code: c5.code.update(j1, fin), ..c5 };
                            assert forall|pc: int| 0 <= pc < c6.code.len()
                                implies instr_ok(#[trigger] c6.code[pc], c6.max_regs as nat, c6.strings.len(), nfun, nnat, c6.floats.len()) by {
                                if pc != j1 {
                                    assert(c6.code[pc] == c5.code[pc]);
                                }
                            }
                        }
                    } else {
                        match r {
                            ExprV::Int(imm) => {
                                lemma_emit(c1, imm_instr(op, dst, l_reg, imm), nfun, nnat);
                            },
                            _ => {
                                lemma_bump(c1, dst + 2, nfun, nnat);
                                if let Ok(c1r) = bump(c1, dst + 2) {
                                    lemma_cexpr(env, c1r, r, after(l_reg, dst) as usize, nfun, nnat);
                                    if let Ok((c2, r_reg)) = cexpr(env, c1r, r, after(l_reg, dst) as usize) {
                                        lemma_emit(c2, op_instr(op, dst, l_reg, r_reg), nfun, nnat);
                                    }
                                }
                            },
                        }
                    }
                }
            },
        }
    }
}

proof fn lemma_update(cs: CS, j: int, i: Instruction, nfun: nat, nnat: nat)
    requires
        cs_ok(cs, nfun, nnat),
        0 <= j < cs.code.len(),
        instr_ok(i, cs.max_regs as nat, cs.strings.len(), nfun, nnat, cs.floats.len()),
    ensures
        cs_ok(CS { code: cs.code.update(j, i), ..cs }, nfun, nnat),
{
    let c2 = CS { code: cs.code.update(j, i), ..cs };
    assert forall|pc: int| 0 <= pc < c2.code.len()
        implies instr_ok(#[trigger] c2.code[pc], c2.max_regs as nat, c2.strings.len(), nfun, nnat, c2.floats.len()) by {
        if pc != j {
            assert(c2.code[pc] == cs.code[pc]);
        }
    }
}

proof fn lemma_patch(code: Seq<Instruction>, js: Seq<usize>, target: usize, nregs: nat, nsym: nat, nfun: nat, nnat: nat, nflt: nat)
    requires
        forall|pc: int| 0 <= pc < code.len() ==> instr_ok(#[trigger] code[pc], nregs, nsym, nfun, nnat, nflt),
        forall|j: int| 0 <= j < js.len() ==> #[trigger] js[j] < code.len(),
    ensures
        patch_jumps(code, js, target).len() == code.len(),
        forall|pc: int| 0 <= pc < patch_jumps(code, js, target).len()
            ==> instr_ok(#[trigger] patch_jumps(code, js, target)[pc], nregs, nsym, nfun, nnat, nflt),
    decreases js.len(),
{
    if js.len() > 0 {
        let c2 = code.update(js[0] as int, Instruction::Jump { target });
        assert forall|j: int| 0 <= j < js.drop_first().len() implies #[trigger] js.drop_first()[j] < c2.len() by {
            assert(js.drop_first()[j] == js[j + 1]);
        }
        assert forall|pc: int| 0 <= pc < c2.len() implies instr_ok(#[trigger] c2[pc], nregs, nsym, nfun, nnat, nflt) by {
            if pc != js[0] {
                assert(c2[pc] == code[pc]);
            }
        }
        lemma_patch(c2, js.drop_first(), target, nregs, nsym, nfun, nnat, nflt);
    }
}

proof fn lemma_close_loop(cs: CS, j1: int, cond: usize, cont: usize, nfun: nat, nnat: nat)
    requires
        cs_ok(cs, nfun, nnat),
        0 <= j1 < cs.code.len(),
        cond < cs.max_regs,
        cs.loops.len() > 0,
    ensures
        cs_ok(close_loop(cs, j1, cond, cont), nfun, nnat),
        close_loop(cs, j1, cond, cont).loops == cs.loops.drop_last(),
        close_loop(cs, j1, cond, cont).code.len() == cs.code.len(),
        close_loop(cs, j1, cond, cont).max_regs == cs.max_regs,
        close_loop(cs, j1, cond, cont).strings == cs.strings,
        close_loop(cs, j1, cond, cont).floats == cs.floats,
        close_loop(cs, j1, cond, cont).handlers == cs.handlers,
{
    let end = cs.code.len() as usize;
    lemma_update(cs, j1, Instruction::JumpIfFalse { target: end, src: cond }, nfun, nnat);
    let code = cs.code.update(j1, Instruction::JumpIfFalse { target: end, src: cond });
    let ctx = cs.loops.last();
    let n = cs.max_regs as nat;
    lemma_patch(code, ctx.0, end, n, cs.strings.len(), nfun, nnat, cs.floats.len());
    let li = cs.loops.len() - 1;
    assert forall|j: int| 0 <= j < ctx.0.len() implies #[trigger] ctx.0[j] < code.len() by {
        assert(cs.loops[li].0[j] < cs.code.len());
    }
    assert forall|j: int| 0 <= j < ctx.1.len() implies #[trigger] ctx.1[j] < code.len() by {
        assert(cs.loops[li].1[j] < cs.code.len());
    }
    let code1 = patch_jumps(code, ctx.0, end);
    lemma_patch(code1, ctx.1, cont, n, cs.strings.len(), nfun, nnat, cs.floats.len());
    let c2 = close_loop(cs, j1, cond, cont);
    assert forall|i: int, j: int| 0 <= i < c2.loops.len() && 0 <= j < c2.loops[i].0.len() implies #[trigger] c2.loops[i].0[j] < c2.code.len() by {
        assert(c2.loops[i] == cs.loops[i]);
    }
    assert forall|i: int, j: int| 0 <= i < c2.loops.len() && 0 <= j < c2.loops[i].1.len() implies #[trigger] c2.loops[i].1[j] < c2.code.len() by {
        assert(c2.loops[i] == cs.loops[i]);
    }
}

proof fn lemma_unscope(outer: CS, inner: CS, nfun: nat, nnat: nat)
    requires
        cs_ok(outer, nfun, nnat),
        cs_ok(inner, nfun, nnat),
    ensures
        cs_ok(unscope(outer, inner), nfun, nnat),
{
}

proof fn lemma_declare(cs: CS, n: Seq<char>, nfun: nat, nnat: nat)
    requires
        cs_ok(cs, nfun, nnat),
    ensures
        declare(cs, n) matches Ok((c2, v)) ==> cs_ok(c2, nfun, nnat) && grows(cs, c2) && c2.local_count == v + 1
            && c2.handlers == cs.handlers && v < MAX_REGISTERS,
{
    if let Ok((c2, v)) = declare(cs, n) {
        assert forall|k: Seq<char>| #[trigger] c2.regs.contains_key(k) implies c2.regs[k] < c2.local_count by {
            if k != n {
                assert(cs.regs.contains_key(k));
            }
        }
    }
}

/// A statement's code is in range.
pub proof fn lemma_cstmt(env: CEnv, cs: CS, s: StmtV, nfun: nat, nnat: nat)
    requires
        cs_ok(cs, nfun, nnat),
        env_ok(env, nfun, nnat),
    ensures
        cstmt(env, cs, s) matches Ok(c2) ==> cs_ok(c2, nfun, nnat) && grows(cs, c2),
    decreases s, 1nat,
{
    match s {
        StmtV::Let(n, e) => {
            lemma_declare(cs, n, nfun, nnat);
            if let Ok((c1, v)) = declare(cs, n) {
                lemma_cexpr(env, c1, e, v, nfun, nnat);
                if let Ok((c2, r)) = cexpr(env, c1, e, v) {
                    lemma_move_to(c2, v, r, nfun, nnat);
                }
            }
        },
        StmtV::If(_, _, _) => lemma_cif(env, cs, s, nfun, nnat),
        StmtV::While(_, _) => lemma_cwhile(env, cs, s, nfun, nnat),
        StmtV::For(_, _, _, _) => lemma_cfor(env, cs, s, nfun, nnat),
        StmtV::Break => {
            if cs.loops.len() > 0 {
                lemma_emit(cs, Instruction::Jump { target: 0 }, nfun, nnat);
            }
        },
        StmtV::Continue => {
            if cs.loops.len() > 0 {
                lemma_emit(cs, Instruction::Jump { target: 0 }, nfun, nnat);
            }
        },
        StmtV::Try(_, _, _, _) => lemma_ctry(env, cs, s, nfun, nnat),
        StmtV::Return(e) => {
            lemma_cexpr(env, cs, e, cs.local_count as usize, nfun, nnat);
            if let Ok((c1, r)) = cexpr(env, cs, e, cs.local_count as usize) {
                lemma_emit(c1, Instruction::Return { src: r }, nfun, nnat);
            }
        },
        StmtV::Expr(e) => {
            lemma_cexpr(env, cs, e, cs.local_count as usize, nfun, nnat);
        },
        StmtV::Throw(e) => {
            lemma_cexpr(env, cs, e, cs.local_count as usize, nfun, nnat);
            if let Ok((c1, r)) = cexpr(env, cs, e, cs.local_count as usize) {
                lemma_emit(c1, Instruction::Throw { src: r }, nfun, nnat);
            }
        },
        StmtV::Include(_) => {},
    }
}

pub proof fn lemma_cstmts(env: CEnv, cs: CS, ss: Seq<StmtV>, nfun: nat, nnat: nat)
    requires
        cs_ok(cs, nfun, nnat),
        env_ok(env, nfun, nnat),
    ensures
        cstmts(env, cs, ss) matches Ok(c2) ==> cs_ok(c2, nfun, nnat) && grows(cs, c2),
    decreases ss, 0nat,
{
    if ss.len() > 0 {
        lemma_cstmt(env, cs, ss[0], nfun, nnat);
        if let Ok(c1) = cstmt(env, cs, ss[0]) {
            lemma_cstmts(env, c1, ss.drop_first(), nfun, nnat);
        }
    }
}

proof fn lemma_cblock(env: CEnv, cs: CS, ss: Seq<StmtV>, nfun: nat, nnat: nat)
    requires
        cs_ok(cs, nfun, nnat),
        env_ok(env, nfun, nnat),
    ensures
        cblock(env, cs, ss) matches Ok(c2) ==> cs_ok(c2, nfun, nnat) && grows(cs, c2),
    decreases ss, 1nat,
{
    lemma_cstmts(env, cs, ss, nfun, nnat);
}

proof fn lemma_cif(env: CEnv, cs: CS, s: StmtV, nfun: nat, nnat: nat)
    requires
        cs_ok(cs, nfun, nnat),
        env_ok(env, nfun, nnat),
    ensures
        cif(env, cs, s) matches Ok(c2) ==> cs_ok(c2, nfun, nnat) && grows(cs, c2),
    decreases s, 0nat,
{
    if let StmtV::If(c, tb, eb) = s {
        lemma_cexpr(env, cs, c, cs.local_count as usize, nfun, nnat);
        if let Ok((c1, cond)) = cexpr(env, cs, c, cs.local_count as usize) {
            let j1 = c1.code.len() as int;
            lemma_emit(c1, Instruction::JumpIfFalse { target: 0, src: cond }, nfun, nnat);
            let a = emit(c1, Instruction::JumpIfFalse { target: 0, src: cond });
            lemma_cblock(env, a, tb, nfun, nnat);
            if let Ok(c2) = cblock(env, a, tb) {
                match eb {
                    Some(b) => {
                        let j2 = c2.code.len() as int;
                        lemma_emit(c2, Instruction::Jump { target: 0 }, nfun, nnat);
                        let c3 = emit(c2, Instruction::Jump { target: 0 });
                        lemma_update(c3, j1, Instruction::JumpIfFalse { target: c3.code.len() as usize, src: cond }, nfun, nnat);
                        let c4 = CS { code: c3.code.update(j1, Instruction::JumpIfFalse { target: c3.code.len() as usize, src: cond }), ..c3 };
                        lemma_cblock(env, c4, b, nfun, nnat);
                        if let Ok(c5) = cblock(env, c4, b) {
                            lemma_update(c5, j2, Instruction::Jump { target: c5.code.len() as usize }, nfun, nnat);
                        }
                    },
                    None => {
                        lemma_update(c2, j1, Instruction::JumpIfFalse { target: c2.code.len() as usize, src: cond }, nfun, nnat);
                    },
                }
            }
        }
    }
}

proof fn lemma_cwhile(env: CEnv, cs: CS, s: StmtV, nfun: nat, nnat: nat)
    requires
        cs_ok(cs, nfun, nnat),
        env_ok(env, nfun, nnat),
    ensures
        cwhile(env, cs, s) matches Ok(c2) ==> cs_ok(c2, nfun, nnat) && grows(cs, c2),
    decreases s, 0nat,
{
    if let StmtV::While(c, body) = s {
        let start = cs.code.len() as usize;
        let c0 = CS { loops: cs.loops.push((Seq::empty(), Seq::empty())), ..cs };
        lemma_cexpr(env, c0, c, cs.local_count as usize, nfun, nnat);
        if let Ok((c1, cond)) = cexpr(env, c0, c, cs.local_count as usize) {
            let j1 = c1.code.len() as int;
            lemma_emit(c1, Instruction::JumpIfFalse { target: 0, src: cond }, nfun, nnat);
            let a = emit(c1, Instruction::JumpIfFalse { target: 0, src: cond });
            lemma_cblock(env, a, body, nfun, nnat);
            if let Ok(c2) = cblock(env, a, body) {
                lemma_emit(c2, Instruction::Jump { target: start }, nfun, nnat);
                lemma_close_loop(emit(c2, Instruction::Jump { target: start }), j1, cond, start, nfun, nnat);
            }
        }
    }
}

proof fn lemma_cfor(env: CEnv, cs: CS, s: StmtV, nfun: nat, nnat: nat)
    requires
        cs_ok(cs, nfun, nnat),
        env_ok(env, nfun, nnat),
    ensures
        cfor(env, cs, s) matches Ok(c2) ==> cs_ok(c2, nfun, nnat) && grows(cs, c2),
    decreases s, 0nat,
{
    if let StmtV::For(init, c, step, body) = s {
        lemma_cstmt(env, cs, *init, nfun, nnat);
        if let Ok(csi) = cstmt(env, cs, *init) {
            let cond_pc = csi.code.len() as usize;
            let c0 = CS { loops: csi.loops.push((Seq::empty(), Seq::empty())), ..csi };
            lemma_cexpr(env, c0, c, csi.local_count as usize, nfun, nnat);
            if let Ok((c1, cond)) = cexpr(env, c0, c, csi.local_count as usize) {
                let j1 = c1.code.len() as int;
                lemma_emit(c1, Instruction::JumpIfFalse { target: 0, src: cond }, nfun, nnat);
                let a = emit(c1, Instruction::JumpIfFalse { target: 0, src: cond });
                lemma_cblock(env, a, body, nfun, nnat);
                if let Ok(c2) = cblock(env, a, body) {
                    let step_pc = c2.code.len() as usize;
                    lemma_cexpr(env, c2, step, c2.local_count as usize, nfun, nnat);
                    if let Ok((c3, _)) = cexpr(env, c2, step, c2.local_count as usize) {
                        lemma_emit(c3, Instruction::Jump { target: cond_pc }, nfun, nnat);
                        let c4 = emit(c3, Instruction::Jump { target: cond_pc });
                        lemma_close_loop(c4, j1, cond, step_pc, nfun, nnat);
                        lemma_unscope(cs, close_loop(c4, j1, cond, step_pc), nfun, nnat);
                    }
                }
            }
        }
    }
}

proof fn lemma_ctry(env: CEnv, cs: CS, s: StmtV, nfun: nat, nnat: nat)
    requires
        cs_ok(cs, nfun, nnat),
        env_ok(env, nfun, nnat),
    ensures
        ctry(env, cs, s) matches Ok(c2) ==> cs_ok(c2, nfun, nnat) && grows(cs, c2),
    decreases s, 0nat,
{
    if let StmtV::Try(tb, types, v, cb) = s {
        let start_pc = cs.code.len() as usize;
        lemma_cblock(env, cs, tb, nfun, nnat);
        if let Ok(c1) = cblock(env, cs, tb) {
            let end_pc = c1.code.len() as usize;
            let j_skip = c1.code.len() as int;
            lemma_emit(c1, Instruction::Jump { target: 0 }, nfun, nnat);
            let e1 = emit(c1, Instruction::Jump { target: 0 });
            lemma_unscope(cs, e1, nfun, nnat);
            let c2 = unscope(cs, e1);
            let catch_pc = c2.code.len() as usize;
            lemma_declare(c2, v, nfun, nnat);
            if let Ok((c3, err_reg)) = declare(c2, v) {
                lemma_cblock(env, c3, cb, nfun, nnat);
                if let Ok(c4) = cblock(env, c3, cb) {
                    let h = HandlerV { start_pc, end_pc, catch_pc, err_reg, error_types: types };
                    lemma_update(c4, j_skip, Instruction::Jump { target: c4.code.len() as usize }, nfun, nnat);
                    let c5 = CS {
                        code: c4.code.update(j_skip, Instruction::Jump { target: c4.code.len() as usize }),
                        handlers: c4.handlers.push(h),
                        ..c4
                    };
                    assert forall|k: int| 0 <= k < c5.handlers.len() implies #[trigger] c5.handlers[k].err_reg < MAX_REGISTERS by {
                        if k < c4.handlers.len() {
                            assert(c5.handlers[k] == c4.handlers[k]);
                        }
                    }
                    lemma_unscope(cs, c5, nfun, nnat);
                }
            }
        }
    }
}

proof fn lemma_declare_all(cs: CS, names: Seq<Seq<char>>, nfun: nat, nnat: nat)
    requires
        cs_ok(cs, nfun, nnat),
    ensures
        declare_all(cs, names) matches Ok(c2) ==> cs_ok(c2, nfun, nnat) && grows(cs, c2),
    decreases names.len(),
{
    if names.len() > 0 {
        lemma_declare_all(cs, names.drop_last(), nfun, nnat);
        if let Ok(c1) = declare_all(cs, names.drop_last()) {
            lemma_declare(c1, names.last(), nfun, nnat);
        }
    }
}

/// A compiled function's code names registers below its register count
/// and constants, functions and natives that exist; it ends with a
/// `return`; its handlers store errors in the stack.
pub proof fn lemma_cfunc(env: CEnv, strings: Seq<Seq<char>>, floats: Seq<Seq<char>>, args: Seq<Seq<char>>, body: Seq<StmtV>,
    nfun: nat, nnat: nat)
    requires
        env_ok(env, nfun, nnat),
    ensures
        cfunc(env, strings, floats, args, body) matches Ok((g, st, fl)) ==> {
            &&& forall|pc: int| 0 <= pc < g.code.len() ==> instr_ok(#[trigger] g.code[pc], g.num_registers as nat, st.len(), nfun, nnat, fl.len())
            &&& forall|h: int| 0 <= h < g.handlers.len() ==> #[trigger] g.handlers[h].err_reg < MAX_REGISTERS
            &&& g.code.len() >= 2
            &&& g.code.last() is Return
            &&& strings.len() <= st.len()
            &&& floats.len() <= fl.len()
        },
{
    let c0 = fresh(strings, floats);
    lemma_declare_all(c0, args, nfun, nnat);
    if let Ok(c1) = declare_all(c0, args) {
        lemma_cstmts(env, c1, body, nfun, nnat);
        if let Ok(c2) = cstmts(env, c1, body) {
            let ret = c2.local_count as usize;
            let code = c2.code.push(Instruction::LoadNull { dst: ret }).push(Instruction::Return { src: ret });
            let n = if c2.max_regs > c2.local_count + 1 { c2.max_regs } else { c2.local_count + 1 };
            if n <= MAX_REGISTERS {
                lemma_code_mono(c2.code, c2.max_regs as nat, c2.strings.len(), c2.floats.len(), n as nat, c2.strings.len(), c2.floats.len(), nfun, nnat);
                assert forall|pc: int| 0 <= pc < code.len() implies instr_ok(#[trigger] code[pc], (n as usize) as nat, c2.strings.len(), nfun, nnat, c2.floats.len()) by {
                    if pc < c2.code.len() {
                        assert(code[pc] == c2.code[pc]);
                    }
                }
            }
        }
    }
}

/// Generated code, closed by a `return` and with its jumps inside the code
/// it was generated from, is well formed.
pub proof fn lemma_generated_code_ok(body: Seq<Instruction>, code: Seq<Instruction>, hs: Seq<HandlerV>,
    nregs: nat, nsym: nat, nfun: nat, nnat: nat, nflt: nat)
    requires
        indices_in_bounds(body, hs),
        code.len() >= body.len() + 1,
        forall|pc: int| 0 <= pc < body.len() ==> #[trigger] code[pc] == body[pc],
        forall|pc: int| body.len() <= pc < code.len() ==> jump_target(#[trigger] code[pc]) is None,
        code.last() is Return,
        forall|pc: int| 0 <= pc < code.len() ==> instr_ok(#[trigger] code[pc], nregs, nsym, nfun, nnat, nflt),
        forall|h: int| 0 <= h < hs.len() ==> #[trigger] hs[h].err_reg < MAX_REGISTERS,
    ensures
        code_ok(code, nregs, nsym, nfun, nnat, nflt),
        handlers_ok(hs, code.len()),
{
    assert forall|pc: int| 0 <= pc < code.len() implies {
        &&& regs_below(#[trigger] code[pc], nregs)
        &&& refs_ok(code[pc], nsym, nfun, nnat, nflt, code.len())
        &&& (falls_through(code[pc]) ==> pc + 1 < code.len())
    } by {
        assert(instr_ok(code[pc], nregs, nsym, nfun, nnat, nflt));
        if pc < body.len() {
            assert(code[pc] == body[pc]);
        }
    }
    assert forall|k: int| #![trigger hs[k]] 0 <= k < hs.len() implies hs[k].catch_pc < code.len() && hs[k].err_reg < MAX_REGISTERS by {
    }
}

/// Well-formed code stays well formed when the counts of constants grow.
pub proof fn lemma_code_ok_mono(code: Seq<Instruction>, nregs: nat, nsym: nat, nfun: nat, nnat: nat, nflt: nat, nsym2: nat, nflt2: nat)
    requires
        code_ok(code, nregs, nsym, nfun, nnat, nflt),
        nsym <= nsym2,
        nflt <= nflt2,
    ensures
        code_ok(code, nregs, nsym2, nfun, nnat, nflt2),
{
    assert forall|pc: int| 0 <= pc < code.len() implies {
        &&& regs_below(#[trigger] code[pc], nregs)
        &&& refs_ok(code[pc], nsym2, nfun, nnat, nflt2, code.len())
        &&& (falls_through(code[pc]) ==> pc + 1 < code.len())
    } by {
        assert(refs_ok(code[pc], nsym, nfun, nnat, nflt, code.len()));
    }
}

/// A function is well formed with the given numbers of strings, functions,
/// natives and float constants (see `Program::function_ok`).
pub open spec fn fn_wf(f: Function, nsym: nat, nfun: nat, nnat: nat, nflt: nat) -> bool {
    &&& f.code@.len() > 0
    &&& f.num_registers <= MAX_REGISTERS
    &&& code_ok(f.code@, f.num_registers as nat, nsym, nfun, nnat, nflt)
    &&& handlers_ok(f.handlers(), f.code@.len())
}

/// Appending a well-formed function with the next id keeps every function
/// well formed, also when the counts of constants grew.
pub proof fn lemma_functions_step(on: bool, before: Seq<Function>, after: Seq<Function>, func: Function, k: int,
    s1: nat, s2: nat, l1: nat, l2: nat, nfun: nat, nnat: nat)
    requires
        after == before.push(func),
        on ==> before.len() == k,
        s1 <= s2,
        l1 <= l2,
        on ==> forall|j: int| 0 <= j < k ==> #[trigger] before[j].id == j && fn_wf(before[j], s1, nfun, nnat, l1),
        on ==> func.id == k,
        on ==> fn_wf(func, s2, nfun, nnat, l2),
    ensures
        on ==> forall|j: int| 0 <= j < k + 1 ==> #[trigger] after[j].id == j && fn_wf(after[j], s2, nfun, nnat, l2),
{
    if on {
        assert forall|j: int| 0 <= j < k + 1 implies #[trigger] after[j].id == j && fn_wf(after[j], s2, nfun, nnat, l2) by {
            if j < k {
                assert(after[j] == before[j]);
                assert(before[j].id == j);
                lemma_code_ok_mono(before[j].code@, before[j].num_registers as nat, s1, nfun, nnat, l1, s2, l2);
            } else {
                assert(after[j] == func);
            }
        }
    }
}

} // verus!
