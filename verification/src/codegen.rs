//! What the compiler emits: code generation as a function of the syntax
//! tree and the compiler's state, with constant folding and the errors
//! that stop compilation.
use vstd::prelude::*;
use crate::arith::{in_i64, tdiv};
use crate::ast::{BinaryOp, ExprV, FuncDefV, StmtV, UnaryOp};
use crate::bytecode::{HandlerV, Instruction, MAX_REGISTERS, compact, live_marks, new_index};

verus! {

/// The names the compiler resolves against: functions and natives.
pub struct CEnv {
    pub funcs: Map<Seq<char>, usize>,
    pub natives: Map<Seq<char>, usize>,
}

/// The state of the compiler inside one function.
pub struct CS {
    pub code: Seq<Instruction>,
    pub handlers: Seq<HandlerV>,
    /// Registers of the variables in scope.
    pub regs: Map<Seq<char>, usize>,
    /// Registers taken by variables.
    pub local_count: int,
    /// One past the highest register an expression has targeted.
    pub max_regs: int,
    /// For each enclosing loop, the indices of its `break` and `continue`
    /// jumps, to be filled in when the loop ends.
    pub loops: Seq<(Seq<usize>, Seq<usize>)>,
    /// The program's string pool.
    pub strings: Seq<Seq<char>>,
    /// The program's float literals.
    pub floats: Seq<Seq<char>>,
}

/// What compiling gives: the new state and a result, or an error message.
pub type CR<T> = Result<(CS, T), Seq<char>>;

/// A constant that folding computes.
pub enum ConstV {
    Int(i64),
    Str(Seq<char>),
    Bool(bool),
}

pub open spec fn regs_msg() -> Seq<char> {
    "CompilationError: Too many registers."@
}

pub open spec fn undefined_msg(n: Seq<char>) -> Seq<char> {
    "CompilationError: Reference to undefined variable '"@ + n + "'."@
}

/// Folds `a op b` over integer, string and boolean constants: `None`
/// where it does not fold, an error where the integer operation
/// overflows.
pub open spec fn fold_spec(a: ConstV, op: BinaryOp, b: ConstV) -> Result<Option<ConstV>, Seq<char>> {
    match (a, b) {
        (ConstV::Int(x), ConstV::Int(y)) => match op {
            BinaryOp::Plus => if in_i64(x + y) { Ok(Some(ConstV::Int((x + y) as i64))) } else { Err("attempt to add with overflow"@) },
            BinaryOp::Minus => if in_i64(x - y) { Ok(Some(ConstV::Int((x - y) as i64))) } else { Err("attempt to subtract with overflow"@) },
            BinaryOp::Star => if in_i64(x * y) { Ok(Some(ConstV::Int((x * y) as i64))) } else { Err("attempt to multiply with overflow"@) },
            BinaryOp::Slash => if y == 0 {
                Ok(None)
            } else if in_i64(tdiv(x as int, y as int)) {
                Ok(Some(ConstV::Int(tdiv(x as int, y as int) as i64)))
            } else {
                Err("attempt to divide with overflow"@)
            },
            BinaryOp::Eq => Ok(Some(ConstV::Bool(x == y))),
            BinaryOp::NotEq => Ok(Some(ConstV::Bool(x != y))),
            BinaryOp::Less => Ok(Some(ConstV::Bool(x < y))),
            BinaryOp::Greater => Ok(Some(ConstV::Bool(x > y))),
            _ => Ok(None),
        },
        (ConstV::Str(x), ConstV::Str(y)) => match op {
            BinaryOp::Plus => Ok(Some(ConstV::Str(x + y))),
            BinaryOp::Eq => Ok(Some(ConstV::Bool(x == y))),
            BinaryOp::NotEq => Ok(Some(ConstV::Bool(x != y))),
            _ => Ok(None),
        },
        (ConstV::Bool(x), ConstV::Bool(y)) => match op {
            BinaryOp::And => Ok(Some(ConstV::Bool(x && y))),
            BinaryOp::Or => Ok(Some(ConstV::Bool(x || y))),
            BinaryOp::Eq => Ok(Some(ConstV::Bool(x == y))),
            BinaryOp::NotEq => Ok(Some(ConstV::Bool(x != y))),
            _ => Ok(None),
        },
        _ => Ok(None),
    }
}

/// The constant value of an expression, if folding finds one. The right
/// operand of a binary expression is looked at only when the left one is
/// constant.
pub open spec fn eval_const(e: ExprV) -> Result<Option<ConstV>, Seq<char>>
    decreases e,
{
    match e {
        ExprV::Int(i) => Ok(Some(ConstV::Int(i))),
        ExprV::String(s) => Ok(Some(ConstV::Str(s))),
        ExprV::Bool(b) => Ok(Some(ConstV::Bool(b))),
        ExprV::Binary(l, op, r) => match eval_const(*l) {
            Err(m) => Err(m),
            Ok(None) => Ok(None),
            Ok(Some(a)) => match eval_const(*r) {
                Err(m) => Err(m),
                Ok(None) => Ok(None),
                Ok(Some(b)) => fold_spec(a, op, b),
            },
        },
        _ => Ok(None),
    }
}

pub open spec fn emit(cs: CS, i: Instruction) -> CS {
    CS { code: cs.code.push(i), ..cs }
}

/// Notes that registers below `n` are in use.
pub open spec fn bump(cs: CS, n: int) -> Result<CS, Seq<char>> {
    if n > MAX_REGISTERS {
        Err(regs_msg())
    } else {
        Ok(CS { max_regs: if n > cs.max_regs { n } else { cs.max_regs }, ..cs })
    }
}

/// Gives variable `n` the next free register.
pub open spec fn declare(cs: CS, n: Seq<char>) -> Result<(CS, usize), Seq<char>> {
    if cs.local_count >= MAX_REGISTERS {
        Err(regs_msg())
    } else {
        Ok((CS { local_count: cs.local_count + 1, regs: cs.regs.insert(n, cs.local_count as usize), ..cs }, cs.local_count as usize))
    }
}

pub open spec fn get_var(cs: CS, n: Seq<char>) -> Result<usize, Seq<char>> {
    if cs.regs.contains_key(n) { Ok(cs.regs[n]) } else { Err(undefined_msg(n)) }
}

/// The index of a string in the pool after interning it.
pub open spec fn intern_spec(p: Seq<Seq<char>>, s: Seq<char>) -> (Seq<Seq<char>>, usize) {
    if p.contains(s) {
        (p, (choose|k: int| 0 <= k < p.len() && p[k] == s) as usize)
    } else {
        (p.push(s), p.len() as usize)
    }
}

/// Loading a folded constant.
pub open spec fn load_const(cs: CS, c: ConstV, dst: usize) -> CS {
    match c {
        ConstV::Int(i) => emit(cs, Instruction::LoadInt { dst, value: i }),
        ConstV::Bool(b) => emit(cs, Instruction::LoadBool { dst, value: b }),
        ConstV::Str(s) => {
            let (p, sym) = intern_spec(cs.strings, s);
            emit(CS { strings: p, ..cs }, Instruction::LoadString { dst, symbol: sym })
        },
    }
}

/// The three-register instruction of an operator (not `and`/`or`).
pub open spec fn op_instr(op: BinaryOp, dst: usize, a: usize, b: usize) -> Instruction {
    match op {
        BinaryOp::Plus => Instruction::Add { dst, src1: a, src2: b },
        BinaryOp::Minus => Instruction::Sub { dst, src1: a, src2: b },
        BinaryOp::Star => Instruction::Mul { dst, src1: a, src2: b },
        BinaryOp::Slash => Instruction::Div { dst, src1: a, src2: b },
        BinaryOp::Less => Instruction::Less { dst, src1: a, src2: b },
        BinaryOp::LessEq => Instruction::LessEq { dst, src1: a, src2: b },
        BinaryOp::Greater => Instruction::Greater { dst, src1: a, src2: b },
        BinaryOp::GreaterEq => Instruction::GreaterEq { dst, src1: a, src2: b },
        BinaryOp::Eq => Instruction::Equal { dst, src1: a, src2: b },
        _ => Instruction::NotEq { dst, src1: a, src2: b },
    }
}

/// The immediate-operand instruction of an operator (not `and`/`or`).
pub open spec fn imm_instr(op: BinaryOp, dst: usize, a: usize, imm: i64) -> Instruction {
    match op {
        BinaryOp::Plus => Instruction::AddImm { dst, src: a, imm },
        BinaryOp::Minus => Instruction::SubImm { dst, src: a, imm },
        BinaryOp::Star => Instruction::MulImm { dst, src: a, imm },
        BinaryOp::Slash => Instruction::DivImm { dst, src: a, imm },
        BinaryOp::Less => Instruction::LessImm { dst, src: a, imm },
        BinaryOp::LessEq => Instruction::LessEqImm { dst, src: a, imm },
        BinaryOp::Greater => Instruction::GreaterImm { dst, src: a, imm },
        BinaryOp::GreaterEq => Instruction::GreaterEqImm { dst, src: a, imm },
        BinaryOp::Eq => Instruction::EqualImm { dst, src: a, imm },
        _ => Instruction::NotEqImm { dst, src: a, imm },
    }
}

/// A copy into `dst` unless the value is already there.
pub open spec fn move_to(cs: CS, dst: usize, src: usize) -> CS {
    if src != dst { emit(cs, Instruction::Copy { dst, src }) } else { cs }
}

/// The register after `r` and `dst`, where the next operand goes.
pub open spec fn after(r: usize, dst: usize) -> int {
    if r >= dst { r + 1 } else { dst as int }
}

/// Compiles an expression so that its value ends up in the returned
/// register: `dst`, or the register of a variable it names.
pub open spec fn cexpr(env: CEnv, cs: CS, e: ExprV, dst: usize) -> CR<usize>
    decreases e, 1nat,
{
    match bump(cs, dst + 1) {
        Err(m) => Err(m),
        Ok(cs) => match e {
            ExprV::Null => Ok((emit(cs, Instruction::LoadNull { dst }), dst)),
            ExprV::Bool(b) => Ok((emit(cs, Instruction::LoadBool { dst, value: b }), dst)),
            ExprV::Int(i) => Ok((emit(cs, Instruction::LoadInt { dst, value: i }), dst)),
            ExprV::Float(t) => Ok((emit(CS { floats: cs.floats.push(t), ..cs }, Instruction::LoadFloat { dst, index: cs.floats.len() as usize }), dst)),
            ExprV::String(s) => {
                let (p, sym) = intern_spec(cs.strings, s);
                Ok((emit(CS { strings: p, ..cs }, Instruction::LoadString { dst, symbol: sym }), dst))
            },
            ExprV::Symbol(s) => {
                let (p, sym) = intern_spec(cs.strings, s);
                Ok((emit(CS { strings: p, ..cs }, Instruction::LoadSymbol { dst, symbol: sym }), dst))
            },
            ExprV::Ident(n) => if env.funcs.contains_key(n) {
                Ok((emit(cs, Instruction::LoadFunction { dst, func_id: env.funcs[n] }), dst))
            } else {
                match get_var(cs, n) {
                    Ok(r) => Ok((cs, r)),
                    Err(m) => Err(m),
                }
            },
            ExprV::Unary(op, x) => match cexpr(env, cs, *x, dst) {
                Err(m) => Err(m),
                Ok((cs1, r)) => Ok((emit(cs1, match op {
                    UnaryOp::Not => Instruction::Not { dst, src: r },
                    UnaryOp::Minus => Instruction::Neg { dst, src: r },
                }), dst)),
            },
            ExprV::Binary(_, _, _) => cbinary(env, cs, e, dst),
            ExprV::Get(_, _) => cget(env, cs, e, dst),
            ExprV::Assign(_, _) => cassign(env, cs, e, dst),
            ExprV::Array(_) => carray(env, cs, e, dst),
            ExprV::Table(_) => ctable(env, cs, e, dst),
            ExprV::Call(_, _) => ccall(env, cs, e, dst),
            ExprV::PostInc(_) => cpost(env, cs, e, dst),
            ExprV::PostDec(_) => cpost(env, cs, e, dst),
        },
    }
}

/// `obj[key]` and `obj.name`.
pub open spec fn cget(env: CEnv, cs: CS, e: ExprV, dst: usize) -> CR<usize>
    decreases e, 0nat,
{
    match e {
        ExprV::Get(o, k) => match cexpr(env, cs, *o, dst) {
            Err(m) => Err(m),
            Ok((cs1, o_reg)) => match cexpr(env, cs1, *k, after(o_reg, dst) as usize) {
                Err(m) => Err(m),
                Ok((cs2, k_reg)) => Ok((emit(cs2, Instruction::GetProp { dst, obj: o_reg, key: k_reg }), dst)),
            },
        },
        _ => Err(Seq::empty()),
    }
}

/// An assignment: its value is that of the right-hand side.
pub open spec fn cassign(env: CEnv, cs: CS, e: ExprV, dst: usize) -> CR<usize>
    decreases e, 0nat,
{
    match e {
        ExprV::Assign(left, right) => match cexpr(env, cs, *right, dst) {
            Err(m) => Err(m),
            Ok((cs1, r_reg)) => match *left {
                ExprV::Ident(n) => match get_var(cs1, n) {
                    Err(m) => Err(m),
                    Ok(var_reg) => Ok((move_to(cs1, var_reg, r_reg), r_reg)),
                },
                ExprV::Get(o, k) => {
                    let o_temp = after(r_reg, dst) as usize;
                    match cexpr(env, cs1, *o, o_temp) {
                        Err(m) => Err(m),
                        Ok((cs2, o_reg)) => match cexpr(env, cs2, *k, after(o_reg, o_temp) as usize) {
                            Err(m) => Err(m),
                            Ok((cs3, k_reg)) => Ok((emit(cs3, Instruction::SetProp { obj: o_reg, key: k_reg, value: r_reg }), r_reg)),
                        },
                    }
                },
                _ => Ok((cs1, r_reg)),
            },
        },
        _ => Err(Seq::empty()),
    }
}

/// An array literal: a new array, then each item stored at its index.
pub open spec fn carray(env: CEnv, cs: CS, e: ExprV, dst: usize) -> CR<usize>
    decreases e, 0nat,
{
    match e {
        ExprV::Array(items) => match bump(emit(cs, Instruction::NewArray { dst }), dst + 3) {
            Err(m) => Err(m),
            Ok(cs1) => match citems(env, cs1, items, dst, 0) {
                Err(m) => Err(m),
                Ok((cs2, _)) => Ok((cs2, dst)),
            },
        },
        _ => Err(Seq::empty()),
    }
}

/// A table literal: a new table, then each entry stored under its key.
pub open spec fn ctable(env: CEnv, cs: CS, e: ExprV, dst: usize) -> CR<usize>
    decreases e, 0nat,
{
    match e {
        ExprV::Table(pairs) => match bump(emit(cs, Instruction::NewTable { dst }), dst + 3) {
            Err(m) => Err(m),
            Ok(cs1) => match cpairs(env, cs1, pairs, dst) {
                Err(m) => Err(m),
                Ok((cs2, _)) => Ok((cs2, dst)),
            },
        },
        _ => Err(Seq::empty()),
    }
}

/// A call: `gc_collect()` is an instruction of its own; otherwise the
/// arguments go to the registers after `dst`, and the call goes to a
/// native, a function, or the function value of a variable.
pub open spec fn ccall(env: CEnv, cs: CS, e: ExprV, dst: usize) -> CR<usize>
    decreases e, 0nat,
{
    match e {
        ExprV::Call(name, args) => if name == "gc_collect"@ {
            Ok((emit(cs, Instruction::ForceGC { dst }), dst))
        } else {
            match bump(cs, dst + 1 + args.len()) {
                Err(m) => Err(m),
                Ok(cs1) => match cargs(env, cs1, args, (dst + 1) as usize) {
                    Err(m) => Err(m),
                    Ok((cs2, _)) => {
                        let base = (dst + 1) as usize;
                        let count = args.len() as usize;
                        if env.natives.contains_key(name) {
                            let api_id = env.natives[name];
                            Ok((emit(cs2, if count == 1 {
                                Instruction::FastNativeCall { api_id, dst, arg: base }
                            } else {
                                Instruction::NativeCall { api_id, base, count, dst }
                            }), dst))
                        } else if env.funcs.contains_key(name) {
                            Ok((emit(cs2, Instruction::Call { func_id: env.funcs[name], base, count, dst }), dst))
                        } else {
                            match get_var(cs2, name) {
                                Err(m) => Err(m),
                                Ok(func_reg) => Ok((emit(cs2, Instruction::CallValue { func_reg, base, count, dst }), dst)),
                            }
                        }
                    },
                },
            }
        },
        _ => Err(Seq::empty()),
    }
}

/// `x++` and `x--` on a variable: the old value to `dst`, then the
/// variable steps by one.
pub open spec fn cpost(env: CEnv, cs: CS, e: ExprV, dst: usize) -> CR<usize>
    decreases e, 0nat,
{
    match e {
        ExprV::PostInc(x) => match *x {
            ExprV::Ident(n) => match get_var(cs, n) {
                Err(m) => Err(m),
                Ok(v) => Ok((emit(move_to(cs, dst, v), Instruction::AddImm { dst: v, src: v, imm: 1 }), dst)),
            },
            _ => Err("CompilationError: i++ can only be applied to variables."@),
        },
        ExprV::PostDec(x) => match *x {
            ExprV::Ident(n) => match get_var(cs, n) {
                Err(m) => Err(m),
                Ok(v) => Ok((emit(move_to(cs, dst, v), Instruction::SubImm { dst: v, src: v, imm: 1 }), dst)),
            },
            _ => Err("CompilationError: i-- can only be applied to variables."@),
        },
        _ => Err(Seq::empty()),
    }
}

/// A binary expression: folded when both sides are constant; `and` and
/// `or` short-circuit; an integer literal on the right uses the
/// immediate form. Otherwise the register just above the result is kept
/// for the right operand, so a function that adds two of its arguments
/// allocates four registers.
pub open spec fn cbinary(env: CEnv, cs: CS, e: ExprV, dst: usize) -> CR<usize>
    decreases e, 0nat,
{
    match e {
        ExprV::Binary(lb, op, rb) => {
            let l = *lb;
            let r = *rb;
            let folded = match (eval_const(l), eval_const(r)) {
                (Err(m), _) => Err(m),
                (_, Err(m)) => Err(m),
                (Ok(Some(a)), Ok(Some(b))) => fold_spec(a, op, b),
                _ => Ok(None),
            };
            match folded {
                Err(m) => Err(m),
                Ok(Some(c)) => Ok((load_const(cs, c, dst), dst)),
                Ok(None) => if op == BinaryOp::And || op == BinaryOp::Or {
                    match cexpr(env, cs, l, dst) {
                        Err(m) => Err(m),
                        Ok((cs1, l_reg)) => {
                            let cs2 = move_to(cs1, dst, l_reg);
                            let j1 = cs2.code.len();
                            let cs3 = emit(cs2, if op == BinaryOp::And {
                                Instruction::JumpIfFalse { target: 0, src: dst }
                            } else {
                                Instruction::JumpIfTrue { target: 0, src: dst }
                            });
                            match cexpr(env, cs3, r, (dst + 1) as usize) {
                                Err(m) => Err(m),
                                Ok((cs4, r_reg)) => {
                                    let cs5 = move_to(cs4, dst, r_reg);
                                    let end = cs5.code.len() as usize;
                                    Ok((CS { code: cs5.code.update(j1 as int, if op == BinaryOp::And {
                                        Instruction::JumpIfFalse { target: end, src: dst }
                                    } else {
                                        Instruction::JumpIfTrue { target: end, src: dst }
                                    }), ..cs5 }, dst))
                                },
                            }
                        },
                    }
                } else {
                    match cexpr(env, cs, l, dst) {
                        Err(m) => Err(m),
                        Ok((cs1, l_reg)) => match r {
                            ExprV::Int(imm) => if op == BinaryOp::Slash && imm == 0 {
                                Err("CompilationError: Division by zero."@)
                            } else {
                                Ok((emit(cs1, imm_instr(op, dst, l_reg, imm)), dst))
                            },
                            _ => match bump(cs1, dst + 2) {
                                Err(m) => Err(m),
                                Ok(cs1r) => match cexpr(env, cs1r, r, after(l_reg, dst) as usize) {
                                    Err(m) => Err(m),
                                    Ok((cs2, r_reg)) => Ok((emit(cs2, op_instr(op, dst, l_reg, r_reg)), dst)),
                                },
                            },
                        },
                    }
                },
            }
        },
        _ => Err(Seq::empty()),
    }
}

/// Array items from index `i` on: each value, its index, and a store.
pub open spec fn citems(env: CEnv, cs: CS, items: Seq<ExprV>, dst: usize, i: int) -> CR<()>
    decreases items, 0nat,
{
    if items.len() == 0 {
        Ok((cs, ()))
    } else {
        match cexpr(env, cs, items[0], (dst + 1) as usize) {
            Err(m) => Err(m),
            Ok((cs1, v_reg)) => {
                let cs2 = emit(emit(cs1, Instruction::LoadInt { dst: (dst + 2) as usize, value: i as i64 }),
                    Instruction::SetProp { obj: dst, key: (dst + 2) as usize, value: v_reg });
                citems(env, cs2, items.drop_first(), dst, i + 1)
            },
        }
    }
}

/// Table entries: each value, its key as a symbol, and a store.
pub open spec fn cpairs(env: CEnv, cs: CS, pairs: Seq<(Seq<char>, ExprV)>, dst: usize) -> CR<()>
    decreases pairs, 0nat,
{
    if pairs.len() == 0 {
        Ok((cs, ()))
    } else {
        match cexpr(env, cs, pairs[0].1, (dst + 1) as usize) {
            Err(m) => Err(m),
            Ok((cs1, v_reg)) => {
                let (p, sym) = intern_spec(cs1.strings, pairs[0].0);
                let cs2 = emit(emit(CS { strings: p, ..cs1 }, Instruction::LoadSymbol { dst: (dst + 2) as usize, symbol: sym }),
                    Instruction::SetProp { obj: dst, key: (dst + 2) as usize, value: v_reg });
                cpairs(env, cs2, pairs.drop_first(), dst)
            },
        }
    }
}

/// Call arguments into consecutive registers from `base` on.
pub open spec fn cargs(env: CEnv, cs: CS, args: Seq<ExprV>, base: usize) -> CR<()>
    decreases args, 0nat,
{
    if args.len() == 0 {
        Ok((cs, ()))
    } else {
        match cexpr(env, cs, args[0], base) {
            Err(m) => Err(m),
            Ok((cs1, r)) => cargs(env, move_to(cs1, base, r), args.drop_first(), (base + 1) as usize),
        }
    }
}

/// Sets every listed jump to `target`.
pub open spec fn patch_jumps(code: Seq<Instruction>, js: Seq<usize>, target: usize) -> Seq<Instruction>
    decreases js.len(),
{
    if js.len() == 0 {
        code
    } else {
        patch_jumps(code.update(js[0] as int, Instruction::Jump { target }), js.drop_first(), target)
    }
}

/// Runs `inner`'s state back to the variables of `outer`.
pub open spec fn unscope(outer: CS, inner: CS) -> CS {
    CS { regs: outer.regs, local_count: outer.local_count, ..inner }
}

/// Compiles statements in order.
pub open spec fn cstmts(env: CEnv, cs: CS, ss: Seq<StmtV>) -> Result<CS, Seq<char>>
    decreases ss, 0nat,
{
    if ss.len() == 0 {
        Ok(cs)
    } else {
        match cstmt(env, cs, ss[0]) {
            Err(m) => Err(m),
            Ok(cs1) => cstmts(env, cs1, ss.drop_first()),
        }
    }
}

/// Compiles statements in a scope of their own.
pub open spec fn cblock(env: CEnv, cs: CS, ss: Seq<StmtV>) -> Result<CS, Seq<char>>
    decreases ss, 1nat,
{
    match cstmts(env, cs, ss) {
        Err(m) => Err(m),
        Ok(cs1) => Ok(unscope(cs, cs1)),
    }
}

/// The end of a loop: the exit jump and the pending `break`s go to `end`,
/// the `continue`s to `cont`.
pub open spec fn close_loop(cs: CS, j1: int, cond: usize, cont: usize) -> CS {
    let end = cs.code.len() as usize;
    let code = cs.code.update(j1, Instruction::JumpIfFalse { target: end, src: cond });
    let ctx = cs.loops.last();
    let code2 = patch_jumps(patch_jumps(code, ctx.0, end), ctx.1, cont);
    CS { code: code2, loops: cs.loops.drop_last(), ..cs }
}

/// Compiles a statement.
pub open spec fn cstmt(env: CEnv, cs: CS, s: StmtV) -> Result<CS, Seq<char>>
    decreases s, 1nat,
{
    match s {
        StmtV::Let(n, e) => match declare(cs, n) {
            Err(m) => Err(m),
            Ok((cs1, v)) => match cexpr(env, cs1, e, v) {
                Err(m) => Err(m),
                Ok((cs2, r)) => Ok(move_to(cs2, v, r)),
            },
        },
        StmtV::If(_, _, _) => cif(env, cs, s),
        StmtV::While(_, _) => cwhile(env, cs, s),
        StmtV::For(_, _, _, _) => cfor(env, cs, s),
        StmtV::Break => if cs.loops.len() == 0 {
            Err("CompilationError: 'break' statement is strictly prohibited outside of an active loop context."@)
        } else {
            let ctx = cs.loops.last();
            let j = cs.code.len() as usize;
            Ok(CS { loops: cs.loops.update(cs.loops.len() - 1, (ctx.0.push(j), ctx.1)), ..emit(cs, Instruction::Jump { target: 0 }) })
        },
        StmtV::Continue => if cs.loops.len() == 0 {
            Err("CompilationError: 'continue' statement is strictly prohibited outside of an active loop context."@)
        } else {
            let ctx = cs.loops.last();
            let j = cs.code.len() as usize;
            Ok(CS { loops: cs.loops.update(cs.loops.len() - 1, (ctx.0, ctx.1.push(j))), ..emit(cs, Instruction::Jump { target: 0 }) })
        },
        StmtV::Try(_, _, _, _) => ctry(env, cs, s),
        StmtV::Return(e) => match cexpr(env, cs, e, cs.local_count as usize) {
            Err(m) => Err(m),
            Ok((cs1, r)) => Ok(emit(cs1, Instruction::Return { src: r })),
        },
        StmtV::Expr(e) => match cexpr(env, cs, e, cs.local_count as usize) {
            Err(m) => Err(m),
            Ok((cs1, _)) => Ok(cs1),
        },
        StmtV::Throw(e) => match cexpr(env, cs, e, cs.local_count as usize) {
            Err(m) => Err(m),
            Ok((cs1, r)) => Ok(emit(cs1, Instruction::Throw { src: r })),
        },
        StmtV::Include(_) => Ok(cs),
    }
}

/// `if`: the condition, a jump over the first block, and with an `else`
/// a jump over the second.
pub open spec fn cif(env: CEnv, cs: CS, s: StmtV) -> Result<CS, Seq<char>>
    decreases s, 0nat,
{
    match s {
        StmtV::If(c, tb, eb) => match cexpr(env, cs, c, cs.local_count as usize) {
            Err(m) => Err(m),
            Ok((cs1, cond)) => {
                let j1 = cs1.code.len() as int;
                match cblock(env, emit(cs1, Instruction::JumpIfFalse { target: 0, src: cond }), tb) {
                    Err(m) => Err(m),
                    Ok(cs2) => match eb {
                        Some(b) => {
                            let j2 = cs2.code.len() as int;
                            let cs3 = emit(cs2, Instruction::Jump { target: 0 });
                            let cs4 = CS { code: cs3.code.update(j1, Instruction::JumpIfFalse { target: cs3.code.len() as usize, src: cond }), ..cs3 };
                            match cblock(env, cs4, b) {
                                Err(m) => Err(m),
                                Ok(cs5) => Ok(CS { code: cs5.code.update(j2, Instruction::Jump { target: cs5.code.len() as usize }), ..cs5 }),
                            }
                        },
                        None => Ok(CS { code: cs2.code.update(j1, Instruction::JumpIfFalse { target: cs2.code.len() as usize, src: cond }), ..cs2 }),
                    },
                }
            },
        },
        _ => Err(Seq::empty()),
    }
}

/// `while`: the condition at the top, the body, a jump back.
pub open spec fn cwhile(env: CEnv, cs: CS, s: StmtV) -> Result<CS, Seq<char>>
    decreases s, 0nat,
{
    match s {
        StmtV::While(c, body) => {
            let start = cs.code.len() as usize;
            let cs0 = CS { loops: cs.loops.push((Seq::empty(), Seq::empty())), ..cs };
            match cexpr(env, cs0, c, cs.local_count as usize) {
                Err(m) => Err(m),
                Ok((cs1, cond)) => {
                    let j1 = cs1.code.len() as int;
                    match cblock(env, emit(cs1, Instruction::JumpIfFalse { target: 0, src: cond }), body) {
                        Err(m) => Err(m),
                        Ok(cs2) => Ok(close_loop(emit(cs2, Instruction::Jump { target: start }), j1, cond, start)),
                    }
                },
            }
        },
        _ => Err(Seq::empty()),
    }
}

/// `for`, in a scope of its own: the initial statement, the condition, the
/// body, the step, a jump back to the condition.
pub open spec fn cfor(env: CEnv, cs: CS, s: StmtV) -> Result<CS, Seq<char>>
    decreases s, 0nat,
{
    match s {
        StmtV::For(init, c, step, body) => match cstmt(env, cs, *init) {
            Err(m) => Err(m),
            Ok(csi) => {
                let cond_pc = csi.code.len() as usize;
                let cs0 = CS { loops: csi.loops.push((Seq::empty(), Seq::empty())), ..csi };
                match cexpr(env, cs0, c, csi.local_count as usize) {
                    Err(m) => Err(m),
                    Ok((cs1, cond)) => {
                        let j1 = cs1.code.len() as int;
                        match cblock(env, emit(cs1, Instruction::JumpIfFalse { target: 0, src: cond }), body) {
                            Err(m) => Err(m),
                            Ok(cs2) => {
                                let step_pc = cs2.code.len() as usize;
                                match cexpr(env, cs2, step, cs2.local_count as usize) {
                                    Err(m) => Err(m),
                                    Ok((cs3, _)) => Ok(unscope(cs, close_loop(emit(cs3, Instruction::Jump { target: cond_pc }), j1, cond, step_pc))),
                                }
                            },
                        }
                    },
                }
            },
        },
        _ => Err(Seq::empty()),
    }
}

/// `try`/`catch`: the protected block, a jump over the handler, the handler
/// with its error variable, and a handler entry.
pub open spec fn ctry(env: CEnv, cs: CS, s: StmtV) -> Result<CS, Seq<char>>
    decreases s, 0nat,
{
    match s {
        StmtV::Try(tb, types, v, cb) => {
            let start_pc = cs.code.len() as usize;
            match cblock(env, cs, tb) {
                Err(m) => Err(m),
                Ok(cs1) => {
                    let end_pc = cs1.code.len() as usize;
                    let j_skip = cs1.code.len() as int;
                    let cs2 = unscope(cs, emit(cs1, Instruction::Jump { target: 0 }));
                    let catch_pc = cs2.code.len() as usize;
                    match declare(cs2, v) {
                        Err(m) => Err(m),
                        Ok((cs3, err_reg)) => match cblock(env, cs3, cb) {
                            Err(m) => Err(m),
                            Ok(cs4) => {
                                let h = HandlerV { start_pc, end_pc, catch_pc, err_reg, error_types: types };
                                Ok(unscope(cs, CS {
                                    code: cs4.code.update(j_skip, Instruction::Jump { target: cs4.code.len() as usize }),
                                    handlers: cs4.handlers.push(h),
                                    ..cs4
                                }))
                            },
                        },
                    }
                },
            }
        },
        _ => Err(Seq::empty()),
    }
}

/// Gives each parameter a register, in order.
pub open spec fn declare_all(cs: CS, names: Seq<Seq<char>>) -> Result<CS, Seq<char>>
    decreases names.len(),
{
    if names.len() == 0 {
        Ok(cs)
    } else {
        match declare_all(cs, names.drop_last()) {
            Err(m) => Err(m),
            Ok(cs1) => match declare(cs1, names.last()) {
                Err(m) => Err(m),
                Ok((cs2, _)) => Ok(cs2),
            },
        }
    }
}

/// A function as code generation leaves it, before unreachable code is
/// removed.
pub struct GenFn {
    pub code: Seq<Instruction>,
    pub handlers: Seq<HandlerV>,
    pub num_registers: usize,
}

/// The state at the start of a function.
pub open spec fn fresh(strings: Seq<Seq<char>>, floats: Seq<Seq<char>>) -> CS {
    CS {
        code: Seq::empty(),
        handlers: Seq::empty(),
        regs: Map::empty(),
        local_count: 0,
        max_regs: 0,
        loops: Seq::empty(),
        strings,
        floats,
    }
}

/// Compiles one function: parameters, body, and a closing `return null`;
/// its registers are those any expression used, and one past the
/// variables.
pub open spec fn cfunc(env: CEnv, strings: Seq<Seq<char>>, floats: Seq<Seq<char>>, args: Seq<Seq<char>>, body: Seq<StmtV>)
    -> Result<(GenFn, Seq<Seq<char>>, Seq<Seq<char>>), Seq<char>>
{
    match declare_all(fresh(strings, floats), args) {
        Err(m) => Err(m),
        Ok(cs1) => match cstmts(env, cs1, body) {
            Err(m) => Err(m),
            Ok(cs2) => {
                let ret = cs2.local_count as usize;
                let code = cs2.code.push(Instruction::LoadNull { dst: ret }).push(Instruction::Return { src: ret });
                let n = if cs2.max_regs > cs2.local_count + 1 { cs2.max_regs } else { cs2.local_count + 1 };
                if n > MAX_REGISTERS {
                    Err(regs_msg())
                } else {
                    Ok((GenFn { code, handlers: cs2.handlers, num_registers: n as usize }, cs2.strings, cs2.floats))
                }
            },
        },
    }
}

/// The function table after registering each function under its name, by
/// its position in the list; a later function of the same name wins.
pub open spec fn with_names(m: Map<Seq<char>, usize>, fs: Seq<FuncDefV>) -> Map<Seq<char>, usize>
    decreases fs.len(),
{
    if fs.len() == 0 { m } else { with_names(m, fs.drop_last()).insert(fs.last().name, (fs.len() - 1) as usize) }
}

/// Compiles functions in order, threading the string pool and the float
/// literals through.
pub open spec fn cfuncs(env: CEnv, strings: Seq<Seq<char>>, floats: Seq<Seq<char>>, fs: Seq<FuncDefV>)
    -> Result<(Seq<GenFn>, Seq<Seq<char>>, Seq<Seq<char>>), Seq<char>>
    decreases fs.len(),
{
    if fs.len() == 0 {
        Ok((Seq::empty(), strings, floats))
    } else {
        match cfunc(env, strings, floats, fs[0].args, fs[0].body) {
            Err(m) => Err(m),
            Ok((g, st, fl)) => match cfuncs(env, st, fl, fs.drop_first()) {
                Err(m) => Err(m),
                Ok((gs, st2, fl2)) => Ok((seq![g] + gs, st2, fl2)),
            },
        }
    }
}

/// Code and handlers once unreachable code is removed, as
/// `Function::optimize` leaves them.
pub open spec fn optimized(code: Seq<Instruction>, hs: Seq<HandlerV>) -> (Seq<Instruction>, Seq<HandlerV>) {
    if code.len() == 0 {
        (code, hs)
    } else {
        let m = live_marks(code, hs);
        (compact(code, m, m.len() as int), hs.map_values(|h: HandlerV| HandlerV {
            start_pc: new_index(m, h.start_pc as int),
            end_pc: new_index(m, h.end_pc as int),
            catch_pc: new_index(m, h.catch_pc as int),
            ..h
        }))
    }
}

} // verus!
