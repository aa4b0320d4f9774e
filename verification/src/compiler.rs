//! The compiler: function definitions to register bytecode, as `codegen`
//! states it.
use vstd::prelude::*;
use crate::arith::{div_i64, in_i64, tdiv};
use crate::ast::{BinaryOp, Expr, ExprV, FuncDef, FuncDefV, Stmt, StmtV, UnaryOp, copy_chars, ev, evs, pvs, sv, svs,
    lemma_evs_len, lemma_pvs_len, lemma_svs_len};
use crate::bytecode::{ExceptionHandler, Function, HandlerV, Instruction, MAX_REGISTERS, Program, indices_in_bounds, jump_target};
use crate::codegen::{CEnv, CS, ConstV, after, bump, cargs, cbinary, cexpr, citems, cpairs, cget, cassign, carray, ctable, ccall, cpost,
    cstmt, cstmts, cblock, cif, cwhile, cfor, ctry, close_loop, patch_jumps, unscope,
    declare, eval_const, emit,
    fold_spec, get_var, imm_instr, intern_spec, load_const, move_to, op_instr, regs_msg, undefined_msg};
use crate::fmt::{push_all, push_str};
use crate::namemap::NameMap;
use crate::text::chars_eq;

verus! {

/// A constant that folding computes.
pub enum Folded {
    Int(i64),
    Str(Vec<char>),
    Bool(bool),
}

impl View for Folded {
    type V = ConstV;

    open spec fn view(&self) -> ConstV {
        match self {
            Folded::Int(i) => ConstV::Int(*i),
            Folded::Str(s) => ConstV::Str(s@),
            Folded::Bool(b) => ConstV::Bool(*b),
        }
    }
}

pub open spec fn fold_view(r: Result<Option<Folded>, Vec<char>>) -> Result<Option<ConstV>, Seq<char>> {
    match r {
        Ok(Some(c)) => Ok(Some(c@)),
        Ok(None) => Ok(None),
        Err(m) => Err(m@),
    }
}

fn overflow(what: &str) -> (r: Result<Option<Folded>, Vec<char>>)
    ensures
        fold_view(r) == Err::<Option<ConstV>, Seq<char>>("attempt to "@ + what@ + " with overflow"@),
{
    let mut m = Vec::new();
    push_str(&mut m, "attempt to ");
    push_str(&mut m, what);
    push_str(&mut m, " with overflow");
    Err(m)
}

proof fn lemma_mul_i64_fits(x: i64, y: i64)
    ensures
        -0x4000_0000_0000_0000_0000_0000_0000_0000 <= (x as int) * (y as int) <= 0x4000_0000_0000_0000_0000_0000_0000_0000,
{
    let a = x as int;
    let b = y as int;
    assert(-0x4000_0000_0000_0000_0000_0000_0000_0000 <= a * b <= 0x4000_0000_0000_0000_0000_0000_0000_0000) by (nonlinear_arith)
        requires
            -0x8000_0000_0000_0000 <= a <= 0x7fff_ffff_ffff_ffff,
            -0x8000_0000_0000_0000 <= b <= 0x7fff_ffff_ffff_ffff,
    ;
}

/// The environment that compiling `fs` into `prog` works in: every name of
/// `fs` registered, and the program's natives.
pub open spec fn compile_env(prog: &Program, fs: Seq<FuncDefV>) -> CEnv {
    CEnv { funcs: crate::codegen::with_names(prog.func_map@, fs), natives: prog.native_map@ }
}

/// The definitions `fs` compile into `prog` without a compile error.
pub open spec fn compiles(prog: &Program, fs: Seq<FuncDefV>) -> bool {
    crate::codegen::cfuncs(compile_env(prog, fs), prog.strings@, prog.float_literals.deep_view(), fs) is Ok
}

/// Folds a binary operation on constants (see `fold_spec`).
pub fn fold_binary(a: &Folded, op: BinaryOp, b: &Folded) -> (r: Result<Option<Folded>, Vec<char>>)
    ensures
        fold_view(r) == fold_spec(a@, op, b@),
{
    match (a, b) {
        (Folded::Int(x), Folded::Int(y)) => {
            let x = *x;
            let y = *y;
            match op {
                BinaryOp::Plus => {
                    let t: i128 = x as i128 + y as i128;
                    if t < i64::MIN as i128 || t > i64::MAX as i128 {
                        let r = overflow("add");
                        assert("attempt to "@ + "add"@ + " with overflow"@ =~= "attempt to add with overflow"@) by {
                            reveal_strlit("attempt to ");
                            reveal_strlit("add");
                            reveal_strlit(" with overflow");
                            reveal_strlit("attempt to add with overflow");
                        }
                        r
                    } else {
                        Ok(Some(Folded::Int(t as i64)))
                    }
                },
                BinaryOp::Minus => {
                    let t: i128 = x as i128 - y as i128;
                    if t < i64::MIN as i128 || t > i64::MAX as i128 {
                        let r = overflow("subtract");
                        assert("attempt to "@ + "subtract"@ + " with overflow"@ =~= "attempt to subtract with overflow"@) by {
                            reveal_strlit("attempt to ");
                            reveal_strlit("subtract");
                            reveal_strlit(" with overflow");
                            reveal_strlit("attempt to subtract with overflow");
                        }
                        r
                    } else {
                        Ok(Some(Folded::Int(t as i64)))
                    }
                },
                BinaryOp::Star => {
                    proof {
                        lemma_mul_i64_fits(x, y);
                    }
                    let t: i128 = x as i128 * y as i128;
                    if t < i64::MIN as i128 || t > i64::MAX as i128 {
                        let r = overflow("multiply");
                        assert("attempt to "@ + "multiply"@ + " with overflow"@ =~= "attempt to multiply with overflow"@) by {
                            reveal_strlit("attempt to ");
                            reveal_strlit("multiply");
                            reveal_strlit(" with overflow");
                            reveal_strlit("attempt to multiply with overflow");
                        }
                        r
                    } else {
                        Ok(Some(Folded::Int(t as i64)))
                    }
                },
                BinaryOp::Slash => {
                    if y == 0 {
                        Ok(None)
                    } else {
                        match div_i64(x, y) {
                            Some(q) => Ok(Some(Folded::Int(q))),
                            None => {
                                let r = overflow("divide");
                                assert("attempt to "@ + "divide"@ + " with overflow"@ =~= "attempt to divide with overflow"@) by {
                                    reveal_strlit("attempt to ");
                                    reveal_strlit("divide");
                                    reveal_strlit(" with overflow");
                                    reveal_strlit("attempt to divide with overflow");
                                }
                                r
                            },
                        }
                    }
                },
                BinaryOp::Eq => Ok(Some(Folded::Bool(x == y))),
                BinaryOp::NotEq => Ok(Some(Folded::Bool(x != y))),
                BinaryOp::Less => Ok(Some(Folded::Bool(x < y))),
                BinaryOp::Greater => Ok(Some(Folded::Bool(x > y))),
                _ => Ok(None),
            }
        },
        (Folded::Str(x), Folded::Str(y)) => match op {
            BinaryOp::Plus => {
                let mut s = copy_chars(x);
                push_all(&mut s, y);
                Ok(Some(Folded::Str(s)))
            },
            BinaryOp::Eq => Ok(Some(Folded::Bool(chars_eq(x, y)))),
            BinaryOp::NotEq => Ok(Some(Folded::Bool(!chars_eq(x, y)))),
            _ => Ok(None),
        },
        (Folded::Bool(x), Folded::Bool(y)) => match op {
            BinaryOp::And => Ok(Some(Folded::Bool(*x && *y))),
            BinaryOp::Or => Ok(Some(Folded::Bool(*x || *y))),
            BinaryOp::Eq => Ok(Some(Folded::Bool(*x == *y))),
            BinaryOp::NotEq => Ok(Some(Folded::Bool(*x != *y))),
            _ => Ok(None),
        },
        _ => Ok(None),
    }
}

/// The constant value of an expression, if folding finds one (see
/// `eval_const`).
pub fn try_eval_const(e: &Expr) -> (r: Result<Option<Folded>, Vec<char>>)
    ensures
        fold_view(r) == eval_const(e@),
    decreases e,
{
    match e {
        Expr::Int(i) => Ok(Some(Folded::Int(*i))),
        Expr::String(s) => Ok(Some(Folded::Str(copy_chars(s)))),
        Expr::Bool(b) => Ok(Some(Folded::Bool(*b))),
        Expr::Binary(l, op, r) => {
            let a = match try_eval_const(l) {
                Ok(Some(a)) => a,
                Ok(None) => { return Ok(None); },
                Err(m) => { return Err(m); },
            };
            let b = match try_eval_const(r) {
                Ok(Some(b)) => b,
                Ok(None) => { return Ok(None); },
                Err(m) => { return Err(m); },
            };
            fold_binary(&a, *op, &b)
        },
        _ => Ok(None),
    }
}

/// The names the compiler resolves against.
pub open spec fn env_of(p: &Program) -> CEnv {
    CEnv { funcs: p.func_map@, natives: p.native_map@ }
}

/// The program's pools and name tables are consistent, and each float
/// literal has its slot.
pub open spec fn pools_ok(p: &Program) -> bool {
    &&& p.strings.wf()
    &&& p.func_map.wf()
    &&& p.native_map.wf()
    &&& p.floats@.len() == p.float_literals@.len()
}

/// What compiling changes of the program: the string pool and the float
/// tables grow; the rest stays.
pub open spec fn prog_kept(p0: &Program, p1: &Program) -> bool {
    &&& p1.functions@ == p0.functions@
    &&& p1.natives@ == p0.natives@
    &&& p1.func_map@ == p0.func_map@
    &&& p1.native_map@ == p0.native_map@
    &&& pools_ok(p1)
    &&& p0.strings@.len() <= p1.strings@.len()
    &&& forall|i: int| 0 <= i < p0.strings@.len() ==> #[trigger] p1.strings@[i] == p0.strings@[i]
}

/// The state of code generation inside one function.
pub struct Compiler {
    code: Vec<Instruction>,
    exception_handlers: Vec<ExceptionHandler>,
    regs: NameMap,
    local_count: usize,
    max_registers: usize,
    loop_ctx: Vec<(Vec<usize>, Vec<usize>)>,
}

impl Compiler {
    /// The compiler's state together with the program's pools.
    pub closed spec fn state(&self, p: &Program) -> CS {
        CS {
            code: self.code@,
            handlers: self.exception_handlers@.map_values(|h: ExceptionHandler| h@),
            regs: self.regs@,
            local_count: self.local_count as int,
            max_regs: self.max_registers as int,
            loops: self.loop_ctx@.map_values(|c: (Vec<usize>, Vec<usize>)| (c.0@, c.1@)),
            strings: p.strings@,
            floats: p.float_literals.deep_view(),
        }
    }

    /// Registers stay within the stack, variables below the count, and
    /// pending loop jumps inside the code.
    pub closed spec fn inv(&self) -> bool {
        &&& indices_in_bounds(self.code@, self.exception_handlers@.map_values(|h: ExceptionHandler| h@))
        &&& self.max_registers <= MAX_REGISTERS
        &&& self.local_count <= MAX_REGISTERS
        &&& self.regs.wf()
        &&& forall|k: Seq<char>| #[trigger] self.regs@.contains_key(k) ==> self.regs@[k] < self.local_count
        &&& forall|i: int, j: int| 0 <= i < self.loop_ctx@.len() && 0 <= j < self.loop_ctx@[i].0@.len()
            ==> #[trigger] self.loop_ctx@[i].0@[j] < self.code@.len()
        &&& forall|i: int, j: int| 0 <= i < self.loop_ctx@.len() && 0 <= j < self.loop_ctx@[i].1@.len()
            ==> #[trigger] self.loop_ctx@[i].1@[j] < self.code@.len()
    }

    /// A compiler with no code and no variables.
    pub fn new() -> (r: Compiler)
        ensures
            r.inv(),
            forall|p: &Program| #[trigger] r.state(p) == crate::codegen::fresh(p.strings@, p.float_literals.deep_view()),
    {
        let r = Compiler {
            code: Vec::new(),
            exception_handlers: Vec::new(),
            regs: NameMap::new(),
            local_count: 0,
            max_registers: 0,
            loop_ctx: Vec::new(),
        };
        assert forall|p: &Program| #[trigger] r.state(p) == crate::codegen::fresh(p.strings@, p.float_literals.deep_view()) by {
            assert(r.state(p).handlers =~= Seq::<HandlerV>::empty());
            assert(r.state(p).loops =~= Seq::<(Seq<usize>, Seq<usize>)>::empty());
        }
        r
    }

    fn emit(&mut self, i: Instruction)
        ensures
            final(self).code@ == old(self).code@.push(i),
            old(self).inv() && (jump_target(i) matches Some(t) ==> t <= old(self).code@.len() + 1) ==> final(self).inv(),
            final(self).exception_handlers == old(self).exception_handlers,
            final(self).regs == old(self).regs,
            final(self).local_count == old(self).local_count,
            final(self).max_registers == old(self).max_registers,
            final(self).loop_ctx == old(self).loop_ctx,
    {
        self.code.push(i);
        proof {
            let hs = self.exception_handlers@.map_values(|h: ExceptionHandler| h@);
            if old(self).inv() && (jump_target(i) matches Some(t) ==> t <= old(self).code@.len() + 1) {
                assert forall|pc: int| 0 <= pc < self.code@.len() implies match jump_target(#[trigger] self.code@[pc]) {
                    Some(t) => t <= self.code@.len(),
                    None => true,
                } by {
                    if pc < old(self).code@.len() {
                        assert(self.code@[pc] == old(self).code@[pc]);
                    }
                }
                assert forall|i: int, j: int| 0 <= i < self.loop_ctx@.len() && 0 <= j < self.loop_ctx@[i].0@.len()
                    implies #[trigger] self.loop_ctx@[i].0@[j] < self.code@.len() by {
                    assert(old(self).loop_ctx@[i].0@[j] < old(self).code@.len());
                }
                assert forall|i: int, j: int| 0 <= i < self.loop_ctx@.len() && 0 <= j < self.loop_ctx@[i].1@.len()
                    implies #[trigger] self.loop_ctx@[i].1@[j] < self.code@.len() by {
                    assert(old(self).loop_ctx@[i].1@[j] < old(self).code@.len());
                }
            }
        }
    }

    fn bump(&mut self, n: usize) -> (r: Result<(), Vec<char>>)
        ensures
            match r {
                Ok(()) => n <= MAX_REGISTERS && final(self).max_registers == (if n > old(self).max_registers { n } else { old(self).max_registers }),
                Err(m) => n > MAX_REGISTERS && m@ == regs_msg(),
            },
            final(self).max_registers >= old(self).max_registers,
            final(self).code == old(self).code,
            final(self).exception_handlers == old(self).exception_handlers,
            final(self).regs == old(self).regs,
            final(self).local_count == old(self).local_count,
            final(self).loop_ctx == old(self).loop_ctx,
    {
        if n > MAX_REGISTERS {
            return Err(crate::text::chars_of("CompilationError: Too many registers."));
        }
        if n > self.max_registers {
            self.max_registers = n;
        }
        Ok(())
    }

    /// Interns a string in the program's pool.
    fn intern(&mut self, prog: &mut Program, s: &Vec<char>) -> (sym: usize)
        requires
            pools_ok(old(prog)),
        ensures
            prog_kept(old(prog), final(prog)),
            *final(self) == *old(self),
            (final(prog).strings@, sym) == intern_spec(old(prog).strings@, s@),
            final(prog).float_literals == old(prog).float_literals,
    {
        let ghost p0 = prog.strings@;
        let sym = prog.strings.intern_chars(s);
        proof {
            if p0.contains(s@) {
                crate::value::lemma_intern_idempotent(p0, s@, sym as int);
                let c = choose|k: int| 0 <= k < p0.len() && p0[k] == s@;
                assert(c == sym);
            }
        }
        sym
    }

    /// Compiles an expression (see `cexpr`).
    #[verifier::rlimit(60)]
    fn compile_expr(&mut self, prog: &mut Program, e: &Expr, dst: usize) -> (r: Result<usize, Vec<char>>)
        requires
            old(self).inv(),
            pools_ok(old(prog)),
            dst <= MAX_REGISTERS,
        ensures
            prog_kept(old(prog), final(prog)),
            match r {
                Ok(reg) => cexpr(env_of(old(prog)), old(self).state(old(prog)), e@, dst) == Ok::<(CS, usize), Seq<char>>((final(self).state(final(prog)), reg))
                    && reg < MAX_REGISTERS && final(self).inv(),
                Err(m) => cexpr(env_of(old(prog)), old(self).state(old(prog)), e@, dst) == Err::<(CS, usize), Seq<char>>(m@),
            },
            final(self).regs == old(self).regs,
            final(self).local_count == old(self).local_count,
            final(self).loop_ctx == old(self).loop_ctx,
            final(self).exception_handlers == old(self).exception_handlers,
            old(self).code@.len() <= final(self).code@.len(),
            old(self).max_registers <= final(self).max_registers,
        decreases e, 1nat,
    {
        match self.bump(dst + 1) {
            Ok(()) => {},
            Err(m) => { return Err(m); },
        }
        match e {
            Expr::Null => {
                self.emit(Instruction::LoadNull { dst });
                Ok(dst)
            },
            Expr::Bool(b) => {
                self.emit(Instruction::LoadBool { dst, value: *b });
                Ok(dst)
            },
            Expr::Int(i) => {
                self.emit(Instruction::LoadInt { dst, value: *i });
                Ok(dst)
            },
            Expr::Float(t) => {
                let index = prog.float_literals.len();
                let ghost f0 = prog.float_literals.deep_view();
                prog.float_literals.push(copy_chars(t));
                prog.floats.push(0);
                assert(prog.float_literals.deep_view() =~~= f0.push(t@));
                self.emit(Instruction::LoadFloat { dst, index });
                Ok(dst)
            },
            Expr::String(s) => {
                let sym = self.intern(prog, s);
                self.emit(Instruction::LoadString { dst, symbol: sym });
                Ok(dst)
            },
            Expr::Symbol(s) => {
                let sym = self.intern(prog, s);
                self.emit(Instruction::LoadSymbol { dst, symbol: sym });
                Ok(dst)
            },
            Expr::Ident(n) => match prog.func_map.get(n) {
                Some(func_id) => {
                    self.emit(Instruction::LoadFunction { dst, func_id });
                    Ok(dst)
                },
                None => match self.regs.get(n) {
                    Some(reg) => Ok(reg),
                    None => Err(undefined_error(n)),
                },
            },
            Expr::Unary(op, x) => {
                let r = match self.compile_expr(prog, x, dst) {
                    Ok(r) => r,
                    Err(m) => { return Err(m); },
                };
                match op {
                    UnaryOp::Not => self.emit(Instruction::Not { dst, src: r }),
                    UnaryOp::Minus => self.emit(Instruction::Neg { dst, src: r }),
                }
                Ok(dst)
            },
            Expr::Binary(_, _, _) => self.compile_binary(prog, e, dst),
            Expr::Get(_, _) => self.compile_get(prog, e, dst),
            Expr::Assign(_, _) => self.compile_assign(prog, e, dst),
            Expr::Array(_) => self.compile_array(prog, e, dst),
            Expr::Table(_) => self.compile_table(prog, e, dst),
            Expr::Call(_, _) => self.compile_call(prog, e, dst),
            Expr::PostInc(_) | Expr::PostDec(_) => self.compile_post(prog, e, dst),
        }
    }

    fn compile_get(&mut self, prog: &mut Program, e: &Expr, dst: usize) -> (r: Result<usize, Vec<char>>)
        requires
            old(self).inv(),
            pools_ok(old(prog)),
            dst < MAX_REGISTERS,
            dst + 1 <= old(self).max_registers,
        ensures
            prog_kept(old(prog), final(prog)),
            match r {
                Ok(reg) => cget(env_of(old(prog)), old(self).state(old(prog)), e@, dst) == Ok::<(CS, usize), Seq<char>>((final(self).state(final(prog)), reg))
                    && reg < MAX_REGISTERS && final(self).inv(),
                Err(m) => cget(env_of(old(prog)), old(self).state(old(prog)), e@, dst) == Err::<(CS, usize), Seq<char>>(m@),
            },
            final(self).regs == old(self).regs,
            final(self).local_count == old(self).local_count,
            final(self).loop_ctx == old(self).loop_ctx,
            final(self).exception_handlers == old(self).exception_handlers,
            old(self).code@.len() <= final(self).code@.len(),
            old(self).max_registers <= final(self).max_registers,
        decreases e, 0nat,
    {
        match e {
            Expr::Get(o, k) => {
                let o_reg = match self.compile_expr(prog, o, dst) {
                    Ok(r) => r,
                    Err(m) => { return Err(m); },
                };
                let k_dst = if o_reg >= dst { o_reg + 1 } else { dst };
                let k_reg = match self.compile_expr(prog, k, k_dst) {
                    Ok(r) => r,
                    Err(m) => { return Err(m); },
                };
                self.emit(Instruction::GetProp { dst, obj: o_reg, key: k_reg });
                Ok(dst)
            },
            _ => Err(Vec::new()),
        }
    }

    fn compile_assign(&mut self, prog: &mut Program, e: &Expr, dst: usize) -> (r: Result<usize, Vec<char>>)
        requires
            old(self).inv(),
            pools_ok(old(prog)),
            dst < MAX_REGISTERS,
            dst + 1 <= old(self).max_registers,
        ensures
            prog_kept(old(prog), final(prog)),
            match r {
                Ok(reg) => cassign(env_of(old(prog)), old(self).state(old(prog)), e@, dst) == Ok::<(CS, usize), Seq<char>>((final(self).state(final(prog)), reg))
                    && reg < MAX_REGISTERS && final(self).inv(),
                Err(m) => cassign(env_of(old(prog)), old(self).state(old(prog)), e@, dst) == Err::<(CS, usize), Seq<char>>(m@),
            },
            final(self).regs == old(self).regs,
            final(self).local_count == old(self).local_count,
            final(self).loop_ctx == old(self).loop_ctx,
            final(self).exception_handlers == old(self).exception_handlers,
            old(self).code@.len() <= final(self).code@.len(),
            old(self).max_registers <= final(self).max_registers,
        decreases e, 0nat,
    {
        match e {
            Expr::Assign(left, right) => {
                let r_reg = match self.compile_expr(prog, right, dst) {
                    Ok(r) => r,
                    Err(m) => { return Err(m); },
                };
                match &**left {
                    Expr::Ident(n) => match self.regs.get(n) {
                        Some(var_reg) => {
                            assert((**left)@ == ExprV::Ident(n@));
                            if var_reg != r_reg {
                                self.emit(Instruction::Copy { dst: var_reg, src: r_reg });
                            }
                            Ok(r_reg)
                        },
                        None => {
                            assert((**left)@ == ExprV::Ident(n@));
                            Err(undefined_error(n))
                        },
                    },
                    Expr::Get(o, k) => {
                        assert((**left)@ == ExprV::Get(Box::new(o@), Box::new(k@)));
                        let o_temp = if r_reg >= dst { r_reg + 1 } else { dst };
                        let o_reg = match self.compile_expr(prog, o, o_temp) {
                            Ok(r) => r,
                            Err(m) => { return Err(m); },
                        };
                        let k_temp = if o_reg >= o_temp { o_reg + 1 } else { o_temp };
                        let k_reg = match self.compile_expr(prog, k, k_temp) {
                            Ok(r) => r,
                            Err(m) => { return Err(m); },
                        };
                        self.emit(Instruction::SetProp { obj: o_reg, key: k_reg, value: r_reg });
                        Ok(r_reg)
                    },
                    _ => {
                        assert(!((**left)@ is Ident) && !((**left)@ is Get));
                        Ok(r_reg)
                    },
                }
            },
            _ => Err(Vec::new()),
        }
    }

    fn compile_array(&mut self, prog: &mut Program, e: &Expr, dst: usize) -> (r: Result<usize, Vec<char>>)
        requires
            old(self).inv(),
            pools_ok(old(prog)),
            dst < MAX_REGISTERS,
            dst + 1 <= old(self).max_registers,
        ensures
            prog_kept(old(prog), final(prog)),
            match r {
                Ok(reg) => carray(env_of(old(prog)), old(self).state(old(prog)), e@, dst) == Ok::<(CS, usize), Seq<char>>((final(self).state(final(prog)), reg))
                    && reg < MAX_REGISTERS && final(self).inv(),
                Err(m) => carray(env_of(old(prog)), old(self).state(old(prog)), e@, dst) == Err::<(CS, usize), Seq<char>>(m@),
            },
            final(self).regs == old(self).regs,
            final(self).local_count == old(self).local_count,
            final(self).loop_ctx == old(self).loop_ctx,
            final(self).exception_handlers == old(self).exception_handlers,
            old(self).code@.len() <= final(self).code@.len(),
            old(self).max_registers <= final(self).max_registers,
        decreases e, 0nat,
    {
        match e {
            Expr::Array(items) => {
                self.emit(Instruction::NewArray { dst });
                match self.bump(dst + 3) {
                    Ok(()) => {},
                    Err(m) => { return Err(m); },
                }
                match self.compile_items(prog, items, dst) {
                    Ok(()) => Ok(dst),
                    Err(m) => Err(m),
                }
            },
            _ => Err(Vec::new()),
        }
    }

    fn compile_table(&mut self, prog: &mut Program, e: &Expr, dst: usize) -> (r: Result<usize, Vec<char>>)
        requires
            old(self).inv(),
            pools_ok(old(prog)),
            dst < MAX_REGISTERS,
            dst + 1 <= old(self).max_registers,
        ensures
            prog_kept(old(prog), final(prog)),
            match r {
                Ok(reg) => ctable(env_of(old(prog)), old(self).state(old(prog)), e@, dst) == Ok::<(CS, usize), Seq<char>>((final(self).state(final(prog)), reg))
                    && reg < MAX_REGISTERS && final(self).inv(),
                Err(m) => ctable(env_of(old(prog)), old(self).state(old(prog)), e@, dst) == Err::<(CS, usize), Seq<char>>(m@),
            },
            final(self).regs == old(self).regs,
            final(self).local_count == old(self).local_count,
            final(self).loop_ctx == old(self).loop_ctx,
            final(self).exception_handlers == old(self).exception_handlers,
            old(self).code@.len() <= final(self).code@.len(),
            old(self).max_registers <= final(self).max_registers,
        decreases e, 0nat,
    {
        match e {
            Expr::Table(pairs) => {
                self.emit(Instruction::NewTable { dst });
                match self.bump(dst + 3) {
                    Ok(()) => {},
                    Err(m) => { return Err(m); },
                }
                match self.compile_pairs(prog, pairs, dst) {
                    Ok(()) => Ok(dst),
                    Err(m) => Err(m),
                }
            },
            _ => Err(Vec::new()),
        }
    }

    fn compile_call(&mut self, prog: &mut Program, e: &Expr, dst: usize) -> (r: Result<usize, Vec<char>>)
        requires
            old(self).inv(),
            pools_ok(old(prog)),
            dst < MAX_REGISTERS,
            dst + 1 <= old(self).max_registers,
        ensures
            prog_kept(old(prog), final(prog)),
            match r {
                Ok(reg) => ccall(env_of(old(prog)), old(self).state(old(prog)), e@, dst) == Ok::<(CS, usize), Seq<char>>((final(self).state(final(prog)), reg))
                    && reg < MAX_REGISTERS && final(self).inv(),
                Err(m) => ccall(env_of(old(prog)), old(self).state(old(prog)), e@, dst) == Err::<(CS, usize), Seq<char>>(m@),
            },
            final(self).regs == old(self).regs,
            final(self).local_count == old(self).local_count,
            final(self).loop_ctx == old(self).loop_ctx,
            final(self).exception_handlers == old(self).exception_handlers,
            old(self).code@.len() <= final(self).code@.len(),
            old(self).max_registers <= final(self).max_registers,
        decreases e, 0nat,
    {
        match e {
            Expr::Call(name, args) => {
                proof {
                    lemma_evs_len(args@);
                }
                let gc = crate::text::chars_of("gc_collect");
                if chars_eq(name, &gc) {
                    self.emit(Instruction::ForceGC { dst });
                    return Ok(dst);
                }
                if args.len() > MAX_REGISTERS {
                    return Err(crate::text::chars_of("CompilationError: Too many registers."));
                }
                match self.bump(dst + 1 + args.len()) {
                    Ok(()) => {},
                    Err(m) => { return Err(m); },
                }
                match self.compile_args(prog, args, dst + 1) {
                    Ok(()) => {},
                    Err(m) => { return Err(m); },
                }
                let base = dst + 1;
                let count = args.len();
                match prog.native_map.get(name) {
                    Some(api_id) => {
                        if count == 1 {
                            self.emit(Instruction::FastNativeCall { api_id, dst, arg: base });
                        } else {
                            self.emit(Instruction::NativeCall { api_id, base, count, dst });
                        }
                        Ok(dst)
                    },
                    None => match prog.func_map.get(name) {
                        Some(func_id) => {
                            self.emit(Instruction::Call { func_id, base, count, dst });
                            Ok(dst)
                        },
                        None => match self.regs.get(name) {
                            Some(func_reg) => {
                                self.emit(Instruction::CallValue { func_reg, base, count, dst });
                                Ok(dst)
                            },
                            None => Err(undefined_error(name)),
                        },
                    },
                }
            },
            _ => Err(Vec::new()),
        }
    }

    fn compile_post(&mut self, prog: &mut Program, e: &Expr, dst: usize) -> (r: Result<usize, Vec<char>>)
        requires
            old(self).inv(),
            pools_ok(old(prog)),
            dst < MAX_REGISTERS,
            dst + 1 <= old(self).max_registers,
        ensures
            prog_kept(old(prog), final(prog)),
            match r {
                Ok(reg) => cpost(env_of(old(prog)), old(self).state(old(prog)), e@, dst) == Ok::<(CS, usize), Seq<char>>((final(self).state(final(prog)), reg))
                    && reg < MAX_REGISTERS && final(self).inv(),
                Err(m) => cpost(env_of(old(prog)), old(self).state(old(prog)), e@, dst) == Err::<(CS, usize), Seq<char>>(m@),
            },
            final(self).regs == old(self).regs,
            final(self).local_count == old(self).local_count,
            final(self).loop_ctx == old(self).loop_ctx,
            final(self).exception_handlers == old(self).exception_handlers,
            old(self).code@.len() <= final(self).code@.len(),
            old(self).max_registers <= final(self).max_registers,
        decreases e, 0nat,
    {
        let inc = match e {
            Expr::PostInc(_) => true,
            _ => false,
        };
        let x = match e {
            Expr::PostInc(x) => x,
            Expr::PostDec(x) => x,
            _ => { return Err(Vec::new()); },
        };
        match &**x {
            Expr::Ident(n) => match self.regs.get(n) {
                Some(v) => {
                    assert((**x)@ == ExprV::Ident(n@));
                    if v != dst {
                        self.emit(Instruction::Copy { dst, src: v });
                    }
                    if inc {
                        self.emit(Instruction::AddImm { dst: v, src: v, imm: 1 });
                    } else {
                        self.emit(Instruction::SubImm { dst: v, src: v, imm: 1 });
                    }
                    Ok(dst)
                },
                None => {
                    assert((**x)@ == ExprV::Ident(n@));
                    Err(undefined_error(n))
                },
            },
            _ => if inc {
                assert(!((**x)@ is Ident));
                Err(crate::text::chars_of("CompilationError: i++ can only be applied to variables."))
            } else {
                assert(!((**x)@ is Ident));
                Err(crate::text::chars_of("CompilationError: i-- can only be applied to variables."))
            },
        }
    }

    fn compile_items(&mut self, prog: &mut Program, items: &Vec<Expr>, dst: usize) -> (r: Result<(), Vec<char>>)
        requires
            old(self).inv(),
            pools_ok(old(prog)),
            dst + 3 <= MAX_REGISTERS,
            dst + 3 <= old(self).max_registers,
        ensures
            prog_kept(old(prog), final(prog)),
            match r {
                Ok(()) => citems(env_of(old(prog)), old(self).state(old(prog)), evs(items@), dst, 0) == Ok::<(CS, ()), Seq<char>>((final(self).state(final(prog)), ()))
                    && final(self).inv(),
                Err(m) => citems(env_of(old(prog)), old(self).state(old(prog)), evs(items@), dst, 0) == Err::<(CS, ()), Seq<char>>(m@),
            },
            final(self).regs == old(self).regs,
            final(self).local_count == old(self).local_count,
            final(self).loop_ctx == old(self).loop_ctx,
            final(self).exception_handlers == old(self).exception_handlers,
            old(self).code@.len() <= final(self).code@.len(),
            old(self).max_registers <= final(self).max_registers,
        decreases items, 0nat,
    {
        let ghost env = env_of(prog);
        let ghost xs = evs(items@);
        let ghost s0 = self.state(prog);
        proof {
            lemma_evs_len(items@);
            lemma_prog_kept_refl(prog);
            assert(xs.skip(0) =~= xs);
        }
        let mut k: usize = 0;
        while k < items.len()
            invariant
                k <= items@.len(),
                xs == evs(items@),
                xs.len() == items@.len(),
                forall|j: int| 0 <= j < items@.len() ==> #[trigger] xs[j] == items@[j]@,
                dst + 3 <= MAX_REGISTERS,
                dst + 3 <= self.max_registers,
                self.regs == old(self).regs,
                self.local_count == old(self).local_count,
                self.loop_ctx == old(self).loop_ctx,
                self.exception_handlers == old(self).exception_handlers,
                old(self).code@.len() <= self.code@.len(),
                old(self).max_registers <= self.max_registers,
                self.inv(),
                pools_ok(prog),
                prog_kept(old(prog), prog),
                env == env_of(prog),
                env == env_of(old(prog)),
                s0 == old(self).state(old(prog)),
                citems(env, s0, xs, dst, 0) == citems(env, self.state(prog), xs.skip(k as int), dst, k as int),
            decreases items@.len() - k,
        {
            let ghost p1 = *prog;
            let v_reg = match self.compile_expr(prog, &items[k], dst + 1) {
                Ok(r) => r,
                Err(m) => { return Err(m); },
            };
            proof {
                lemma_prog_kept_trans(old(prog), &p1, prog);
            }
            self.emit(Instruction::LoadInt { dst: dst + 2, value: k as i64 });
            self.emit(Instruction::SetProp { obj: dst, key: dst + 2, value: v_reg });
            proof {
                assert(xs.skip(k as int).drop_first() =~= xs.skip(k + 1));
            }
            k = k + 1;
        }
        Ok(())
    }

    fn compile_pairs(&mut self, prog: &mut Program, pairs: &Vec<(Vec<char>, Expr)>, dst: usize) -> (r: Result<(), Vec<char>>)
        requires
            old(self).inv(),
            pools_ok(old(prog)),
            dst + 3 <= MAX_REGISTERS,
            dst + 3 <= old(self).max_registers,
        ensures
            prog_kept(old(prog), final(prog)),
            match r {
                Ok(()) => cpairs(env_of(old(prog)), old(self).state(old(prog)), pvs(pairs@), dst) == Ok::<(CS, ()), Seq<char>>((final(self).state(final(prog)), ()))
                    && final(self).inv(),
                Err(m) => cpairs(env_of(old(prog)), old(self).state(old(prog)), pvs(pairs@), dst) == Err::<(CS, ()), Seq<char>>(m@),
            },
            final(self).regs == old(self).regs,
            final(self).local_count == old(self).local_count,
            final(self).loop_ctx == old(self).loop_ctx,
            final(self).exception_handlers == old(self).exception_handlers,
            old(self).code@.len() <= final(self).code@.len(),
            old(self).max_registers <= final(self).max_registers,
        decreases pairs, 0nat,
    {
        let ghost env = env_of(prog);
        let ghost xs = pvs(pairs@);
        let ghost s0 = self.state(prog);
        proof {
            lemma_pvs_len(pairs@);
            lemma_prog_kept_refl(prog);
            assert(xs.skip(0) =~= xs);
        }
        let mut k: usize = 0;
        while k < pairs.len()
            invariant
                k <= pairs@.len(),
                xs == pvs(pairs@),
                xs.len() == pairs@.len(),
                forall|j: int| 0 <= j < pairs@.len() ==> #[trigger] xs[j] == (pairs@[j].0@, pairs@[j].1@),
                dst + 3 <= MAX_REGISTERS,
                dst + 3 <= self.max_registers,
                self.regs == old(self).regs,
                self.local_count == old(self).local_count,
                self.loop_ctx == old(self).loop_ctx,
                self.exception_handlers == old(self).exception_handlers,
                old(self).code@.len() <= self.code@.len(),
                old(self).max_registers <= self.max_registers,
                self.inv(),
                pools_ok(prog),
                prog_kept(old(prog), prog),
                env == env_of(prog),
                env == env_of(old(prog)),
                s0 == old(self).state(old(prog)),
                cpairs(env, s0, xs, dst) == cpairs(env, self.state(prog), xs.skip(k as int), dst),
            decreases pairs@.len() - k,
        {
            let ghost p1 = *prog;
            proof {
                assert(decreases_to!(pairs => pairs@[k as int].1));
            }
            let v_reg = match self.compile_expr(prog, &pairs[k].1, dst + 1) {
                Ok(r) => r,
                Err(m) => { return Err(m); },
            };
            let ghost p2 = *prog;
            let sym = self.intern(prog, &pairs[k].0);
            proof {
                lemma_prog_kept_trans(old(prog), &p1, &p2);
                lemma_prog_kept_trans(old(prog), &p2, prog);
            }
            self.emit(Instruction::LoadSymbol { dst: dst + 2, symbol: sym });
            self.emit(Instruction::SetProp { obj: dst, key: dst + 2, value: v_reg });
            proof {
                assert(xs.skip(k as int).drop_first() =~= xs.skip(k + 1));
            }
            k = k + 1;
        }
        Ok(())
    }

    fn compile_args(&mut self, prog: &mut Program, args: &Vec<Expr>, base: usize) -> (r: Result<(), Vec<char>>)
        requires
            old(self).inv(),
            pools_ok(old(prog)),
            base + args@.len() <= MAX_REGISTERS,
            base + args@.len() <= old(self).max_registers,
        ensures
            prog_kept(old(prog), final(prog)),
            match r {
                Ok(()) => cargs(env_of(old(prog)), old(self).state(old(prog)), evs(args@), base) == Ok::<(CS, ()), Seq<char>>((final(self).state(final(prog)), ()))
                    && final(self).inv(),
                Err(m) => cargs(env_of(old(prog)), old(self).state(old(prog)), evs(args@), base) == Err::<(CS, ()), Seq<char>>(m@),
            },
            final(self).regs == old(self).regs,
            final(self).local_count == old(self).local_count,
            final(self).loop_ctx == old(self).loop_ctx,
            final(self).exception_handlers == old(self).exception_handlers,
            old(self).code@.len() <= final(self).code@.len(),
            old(self).max_registers <= final(self).max_registers,
        decreases args, 0nat,
    {
        let ghost env = env_of(prog);
        let ghost xs = evs(args@);
        let ghost s0 = self.state(prog);
        proof {
            lemma_evs_len(args@);
            lemma_prog_kept_refl(prog);
            assert(xs.skip(0) =~= xs);
        }
        let mut k: usize = 0;
        while k < args.len()
            invariant
                k <= args@.len(),
                xs == evs(args@),
                xs.len() == args@.len(),
                forall|j: int| 0 <= j < args@.len() ==> #[trigger] xs[j] == args@[j]@,
                base + args@.len() <= MAX_REGISTERS,
                base + args@.len() <= self.max_registers,
                self.regs == old(self).regs,
                self.local_count == old(self).local_count,
                self.loop_ctx == old(self).loop_ctx,
                self.exception_handlers == old(self).exception_handlers,
                old(self).code@.len() <= self.code@.len(),
                old(self).max_registers <= self.max_registers,
                self.inv(),
                pools_ok(prog),
                prog_kept(old(prog), prog),
                env == env_of(prog),
                env == env_of(old(prog)),
                s0 == old(self).state(old(prog)),
                cargs(env, s0, xs, base) == cargs(env, self.state(prog), xs.skip(k as int), (base + k) as usize),
            decreases args@.len() - k,
        {
            let ghost p1 = *prog;
            let r = match self.compile_expr(prog, &args[k], base + k) {
                Ok(r) => r,
                Err(m) => { return Err(m); },
            };
            proof {
                lemma_prog_kept_trans(old(prog), &p1, prog);
            }
            if r != base + k {
                self.emit(Instruction::Copy { dst: base + k, src: r });
            }
            proof {
                assert(xs.skip(k as int).drop_first() =~= xs.skip(k + 1));
            }
            k = k + 1;
        }
        Ok(())
    }

    fn compile_binary(&mut self, prog: &mut Program, e: &Expr, dst: usize) -> (r: Result<usize, Vec<char>>)
        requires
            old(self).inv(),
            pools_ok(old(prog)),
            dst < MAX_REGISTERS,
            dst + 1 <= old(self).max_registers,
        ensures
            prog_kept(old(prog), final(prog)),
            match r {
                Ok(reg) => cbinary(env_of(old(prog)), old(self).state(old(prog)), e@, dst) == Ok::<(CS, usize), Seq<char>>((final(self).state(final(prog)), reg))
                    && reg < MAX_REGISTERS && final(self).inv(),
                Err(m) => cbinary(env_of(old(prog)), old(self).state(old(prog)), e@, dst) == Err::<(CS, usize), Seq<char>>(m@),
            },
            final(self).regs == old(self).regs,
            final(self).local_count == old(self).local_count,
            final(self).loop_ctx == old(self).loop_ctx,
            final(self).exception_handlers == old(self).exception_handlers,
            old(self).code@.len() <= final(self).code@.len(),
            old(self).max_registers <= final(self).max_registers,
        decreases e, 0nat,
    {
        match e {
            Expr::Binary(l, op, r) => {
                let op = *op;
                let lv = try_eval_const(l);
                let rv = try_eval_const(r);
                let folded = match (lv, rv) {
                    (Err(m), _) => Err(m),
                    (_, Err(m)) => Err(m),
                    (Ok(Some(a)), Ok(Some(b))) => fold_binary(&a, op, &b),
                    _ => Ok(None),
                };
                match folded {
                    Err(m) => Err(m),
                    Ok(Some(c)) => {
                        self.load_const(prog, c, dst);
                        Ok(dst)
                    },
                    Ok(None) => if op == BinaryOp::And || op == BinaryOp::Or {
                        let ghost p0 = *prog;
                        let l_reg = match self.compile_expr(prog, l, dst) {
                            Ok(x) => x,
                            Err(m) => { return Err(m); },
                        };
                        if l_reg != dst {
                            self.emit(Instruction::Copy { dst, src: l_reg });
                        }
                        let j1 = self.code.len();
                        if op == BinaryOp::And {
                            self.emit(Instruction::JumpIfFalse { target: 0, src: dst });
                        } else {
                            self.emit(Instruction::JumpIfTrue { target: 0, src: dst });
                        }
                        let ghost p1 = *prog;
                        let r_reg = match self.compile_expr(prog, r, dst + 1) {
                            Ok(x) => x,
                            Err(m) => { return Err(m); },
                        };
                        proof {
                            lemma_prog_kept_trans(&p0, &p1, prog);
                        }
                        if r_reg != dst {
                            self.emit(Instruction::Copy { dst, src: r_reg });
                        }
                        let end = self.code.len();
                        if op == BinaryOp::And {
                            self.code.set(j1, Instruction::JumpIfFalse { target: end, src: dst });
                        } else {
                            self.code.set(j1, Instruction::JumpIfTrue { target: end, src: dst });
                        }
                        Ok(dst)
                    } else {
                        let ghost p0 = *prog;
                        let l_reg = match self.compile_expr(prog, l, dst) {
                            Ok(x) => x,
                            Err(m) => { return Err(m); },
                        };
                        match &**r {
                            Expr::Int(imm) => {
                                assert((**r)@ == ExprV::Int(*imm));
                                if op == BinaryOp::Slash && *imm == 0 {
                                    Err(crate::text::chars_of("CompilationError: Division by zero."))
                                } else {
                                    self.emit(imm_instr_ex(op, dst, l_reg, *imm));
                                    Ok(dst)
                                }
                            },
                            _ => {
                                assert(!((**r)@ is Int));
                                match self.bump(dst + 2) {
                                    Ok(()) => {},
                                    Err(m) => { return Err(m); },
                                }
                                let r_dst = if l_reg >= dst { l_reg + 1 } else { dst };
                                let ghost p1 = *prog;
                                let r_reg = match self.compile_expr(prog, r, r_dst) {
                                    Ok(x) => x,
                                    Err(m) => { return Err(m); },
                                };
                                proof {
                                    lemma_prog_kept_trans(&p0, &p1, prog);
                                }
                                self.emit(op_instr_ex(op, dst, l_reg, r_reg));
                                Ok(dst)
                            },
                        }
                    },
                }
            },
            _ => Err(Vec::new()),
        }
    }

    fn compile_stmts(&mut self, prog: &mut Program, ss: &Vec<Stmt>) -> (r: Result<(), Vec<char>>)
        requires
            old(self).inv(),
            pools_ok(old(prog)),
        ensures
            prog_kept(old(prog), final(prog)),
            match r {
                Ok(()) => cstmts(env_of(old(prog)), old(self).state(old(prog)), svs(ss@)) == Ok::<CS, Seq<char>>(final(self).state(final(prog))) && final(self).inv(),
                Err(m) => cstmts(env_of(old(prog)), old(self).state(old(prog)), svs(ss@)) == Err::<CS, Seq<char>>(m@),
            },
            old(self).code@.len() <= final(self).code@.len(),
            old(self).max_registers <= final(self).max_registers,
            r is Ok ==> final(self).loop_ctx@.len() == old(self).loop_ctx@.len(),
        decreases ss, 0nat,
    {
        let ghost env = env_of(prog);
        let ghost xs = svs(ss@);
        let ghost s0 = self.state(prog);
        proof {
            lemma_svs_len(ss@);
            lemma_prog_kept_refl(prog);
            assert(xs.skip(0) =~= xs);
        }
        let mut k: usize = 0;
        while k < ss.len()
            invariant
                k <= ss@.len(),
                xs == svs(ss@),
                xs.len() == ss@.len(),
                forall|j: int| 0 <= j < ss@.len() ==> #[trigger] xs[j] == ss@[j]@,
                old(self).code@.len() <= self.code@.len(),
                old(self).max_registers <= self.max_registers,
                self.loop_ctx@.len() == old(self).loop_ctx@.len(),
                self.inv(),
                pools_ok(prog),
                prog_kept(old(prog), prog),
                env == env_of(prog),
                env == env_of(old(prog)),
                s0 == old(self).state(old(prog)),
                cstmts(env, s0, xs) == cstmts(env, self.state(prog), xs.skip(k as int)),
            decreases ss@.len() - k,
        {
            let ghost p1 = *prog;
            match self.compile_stmt(prog, &ss[k]) {
                Ok(()) => {},
                Err(m) => { return Err(m); },
            }
            proof {
                lemma_prog_kept_trans(old(prog), &p1, prog);
                assert(xs.skip(k as int).drop_first() =~= xs.skip(k + 1));
            }
            k = k + 1;
        }
        Ok(())
    }

    fn compile_block(&mut self, prog: &mut Program, ss: &Vec<Stmt>) -> (r: Result<(), Vec<char>>)
        requires
            old(self).inv(),
            pools_ok(old(prog)),
        ensures
            prog_kept(old(prog), final(prog)),
            match r {
                Ok(()) => cblock(env_of(old(prog)), old(self).state(old(prog)), svs(ss@)) == Ok::<CS, Seq<char>>(final(self).state(final(prog))) && final(self).inv(),
                Err(m) => cblock(env_of(old(prog)), old(self).state(old(prog)), svs(ss@)) == Err::<CS, Seq<char>>(m@),
            },
            old(self).code@.len() <= final(self).code@.len(),
            old(self).max_registers <= final(self).max_registers,
            r is Ok ==> final(self).loop_ctx@.len() == old(self).loop_ctx@.len(),
        decreases ss, 1nat,
    {
        let saved_regs = self.regs.duplicate();
        let saved_count = self.local_count;
        match self.compile_stmts(prog, ss) {
            Ok(()) => {},
            Err(m) => { return Err(m); },
        }
        self.regs = saved_regs;
        self.local_count = saved_count;
        Ok(())
    }

    /// Gives variable `n` the next free register.
    fn declare(&mut self, n: &Vec<char>) -> (r: Result<usize, Vec<char>>)
        requires
            old(self).inv(),
        ensures
            match r {
                Ok(v) => forall|p: &Program| declare(#[trigger] old(self).state(p), n@) == Ok::<(CS, usize), Seq<char>>((final(self).state(p), v)),
                Err(m) => forall|p: &Program| declare(#[trigger] old(self).state(p), n@) == Err::<(CS, usize), Seq<char>>(m@),
            },
            r is Ok ==> final(self).inv(),
            final(self).code == old(self).code,
            final(self).max_registers == old(self).max_registers,
            final(self).loop_ctx == old(self).loop_ctx,
            final(self).exception_handlers == old(self).exception_handlers,
    {
        if self.local_count >= MAX_REGISTERS {
            return Err(crate::text::chars_of("CompilationError: Too many registers."));
        }
        let v = self.local_count;
        self.regs.insert(n, v);
        self.local_count = v + 1;
        Ok(v)
    }

    /// Sets the jumps at `js` to go to `target`.
    fn patch(&mut self, js: &Vec<usize>, target: usize)
        requires
            forall|j: int| 0 <= j < js@.len() ==> #[trigger] js@[j] < old(self).code@.len(),
            target <= old(self).code@.len(),
        ensures
            indices_in_bounds(old(self).code@, old(self).exception_handlers@.map_values(|h: ExceptionHandler| h@))
                ==> indices_in_bounds(final(self).code@, final(self).exception_handlers@.map_values(|h: ExceptionHandler| h@)),
            final(self).code@ == patch_jumps(old(self).code@, js@, target),
            final(self).code@.len() == old(self).code@.len(),
            final(self).exception_handlers == old(self).exception_handlers,
            final(self).regs == old(self).regs,
            final(self).local_count == old(self).local_count,
            final(self).max_registers == old(self).max_registers,
            final(self).loop_ctx == old(self).loop_ctx,
    {
        let ghost c0 = self.code@;
        let mut k: usize = 0;
        assert(js@.skip(0) =~= js@);
        while k < js.len()
            invariant
                k <= js@.len(),
                self.code@.len() == c0.len(),
                forall|j: int| 0 <= j < js@.len() ==> #[trigger] js@[j] < c0.len(),
                patch_jumps(c0, js@, target) == patch_jumps(self.code@, js@.skip(k as int), target),
                self.exception_handlers == old(self).exception_handlers,
                self.regs == old(self).regs,
                self.local_count == old(self).local_count,
                self.max_registers == old(self).max_registers,
                self.loop_ctx == old(self).loop_ctx,
                c0 == old(self).code@,
                target <= c0.len(),
                indices_in_bounds(c0, self.exception_handlers@.map_values(|h: ExceptionHandler| h@))
                    ==> indices_in_bounds(self.code@, self.exception_handlers@.map_values(|h: ExceptionHandler| h@)),
            decreases js@.len() - k,
        {
            let ghost before = self.code@;
            self.code.set(js[k], Instruction::Jump { target });
            proof {
                let hs = self.exception_handlers@.map_values(|h: ExceptionHandler| h@);
                if indices_in_bounds(c0, hs) {
                    assert forall|pc: int| 0 <= pc < self.code@.len() implies match jump_target(#[trigger] self.code@[pc]) {
                        Some(t) => t <= self.code@.len(),
                        None => true,
                    } by {
                        if pc != js@[k as int] {
                            assert(self.code@[pc] == before[pc]);
                        }
                    }
                }
                assert(js@.skip(k as int).drop_first() =~= js@.skip(k + 1));
            }
            k = k + 1;
        }
    }

    /// Ends the innermost loop (see `close_loop`).
    fn close_loop(&mut self, j1: usize, cond: usize, cont: usize)
        requires
            old(self).inv(),
            old(self).loop_ctx@.len() > 0,
            j1 < old(self).code@.len(),
            cont <= old(self).code@.len(),
        ensures
            forall|p: &Program| #[trigger] final(self).state(p) == close_loop(old(self).state(p), j1 as int, cond, cont),
            final(self).inv(),
            final(self).code@.len() == old(self).code@.len(),
            final(self).max_registers == old(self).max_registers,
            final(self).loop_ctx@.len() == old(self).loop_ctx@.len() - 1,
    {
        let ghost s0 = *self;
        let end = self.code.len();
        self.code.set(j1, Instruction::JumpIfFalse { target: end, src: cond });
        let ctx = self.loop_ctx.pop().unwrap();
        proof {
            assert forall|pc: int| 0 <= pc < self.code@.len() implies match jump_target(#[trigger] self.code@[pc]) {
                Some(t) => t <= self.code@.len(),
                None => true,
            } by {
                if pc != j1 {
                    assert(self.code@[pc] == s0.code@[pc]);
                }
            }
            let i = s0.loop_ctx@.len() - 1;
            assert(s0.loop_ctx@[i] == ctx);
            assert forall|j: int| 0 <= j < ctx.0@.len() implies #[trigger] ctx.0@[j] < self.code@.len() by {
                assert(s0.loop_ctx@[i].0@[j] < s0.code@.len());
            }
            assert forall|j: int| 0 <= j < ctx.1@.len() implies #[trigger] ctx.1@[j] < self.code@.len() by {
                assert(s0.loop_ctx@[i].1@[j] < s0.code@.len());
            }
        }
        self.patch(&ctx.0, end);
        self.patch(&ctx.1, cont);
        proof {
            assert forall|p: &Program| #[trigger] self.state(p) == close_loop(s0.state(p), j1 as int, cond, cont) by {
                assert(self.state(p).loops =~= s0.state(p).loops.drop_last());
            }
            assert(self.loop_ctx@ =~= s0.loop_ctx@.drop_last());
            assert forall|i: int, j: int| 0 <= i < self.loop_ctx@.len() && 0 <= j < self.loop_ctx@[i].0@.len()
                implies #[trigger] self.loop_ctx@[i].0@[j] < self.code@.len() by {
                assert(self.loop_ctx@[i] == s0.loop_ctx@[i]);
            }
            assert forall|i: int, j: int| 0 <= i < self.loop_ctx@.len() && 0 <= j < self.loop_ctx@[i].1@.len()
                implies #[trigger] self.loop_ctx@[i].1@[j] < self.code@.len() by {
                assert(self.loop_ctx@[i] == s0.loop_ctx@[i]);
            }
        }
    }

    #[verifier::rlimit(60)]
    fn compile_stmt(&mut self, prog: &mut Program, s: &Stmt) -> (r: Result<(), Vec<char>>)
        requires
            old(self).inv(),
            pools_ok(old(prog)),
        ensures
            prog_kept(old(prog), final(prog)),
            match r {
                Ok(()) => cstmt(env_of(old(prog)), old(self).state(old(prog)), s@) == Ok::<CS, Seq<char>>(final(self).state(final(prog))) && final(self).inv(),
                Err(m) => cstmt(env_of(old(prog)), old(self).state(old(prog)), s@) == Err::<CS, Seq<char>>(m@),
            },
            old(self).code@.len() <= final(self).code@.len(),
            old(self).max_registers <= final(self).max_registers,
            r is Ok ==> final(self).loop_ctx@.len() == old(self).loop_ctx@.len(),
        decreases s, 1nat,
    {
        match s {
            Stmt::Let(n, e) => {
                let v = match self.declare(n) {
                    Ok(v) => v,
                    Err(m) => { return Err(m); },
                };
                let r = match self.compile_expr(prog, e, v) {
                    Ok(r) => r,
                    Err(m) => { return Err(m); },
                };
                if r != v {
                    self.emit(Instruction::Copy { dst: v, src: r });
                }
                Ok(())
            },
            Stmt::If(_, _, _) => self.compile_if(prog, s),
            Stmt::While(_, _) => self.compile_while(prog, s),
            Stmt::For(_, _, _, _) => self.compile_for(prog, s),
            Stmt::Break => {
                if self.loop_ctx.len() == 0 {
                    return Err(crate::text::chars_of("CompilationError: 'break' statement is strictly prohibited outside of an active loop context."));
                }
                let ghost l0 = self.state(prog).loops;
                let j = self.code.len();
                self.emit(Instruction::Jump { target: 0 });
                let mut ctx = self.loop_ctx.pop().unwrap();
                ctx.0.push(j);
                self.loop_ctx.push(ctx);
                proof {
                    assert(self.state(prog).loops =~= l0.update(l0.len() - 1, (l0.last().0.push(j), l0.last().1)));
                }
                Ok(())
            },
            Stmt::Continue => {
                if self.loop_ctx.len() == 0 {
                    return Err(crate::text::chars_of("CompilationError: 'continue' statement is strictly prohibited outside of an active loop context."));
                }
                let ghost l0 = self.state(prog).loops;
                let j = self.code.len();
                self.emit(Instruction::Jump { target: 0 });
                let mut ctx = self.loop_ctx.pop().unwrap();
                ctx.1.push(j);
                self.loop_ctx.push(ctx);
                proof {
                    assert(self.state(prog).loops =~= l0.update(l0.len() - 1, (l0.last().0, l0.last().1.push(j))));
                }
                Ok(())
            },
            Stmt::Try(_, _, _, _) => self.compile_try(prog, s),
            Stmt::Return(e) => {
                let r = match self.compile_expr(prog, e, self.local_count) {
                    Ok(r) => r,
                    Err(m) => { return Err(m); },
                };
                self.emit(Instruction::Return { src: r });
                Ok(())
            },
            Stmt::Expr(e) => match self.compile_expr(prog, e, self.local_count) {
                Ok(_) => Ok(()),
                Err(m) => Err(m),
            },
            Stmt::Throw(e) => {
                let r = match self.compile_expr(prog, e, self.local_count) {
                    Ok(r) => r,
                    Err(m) => { return Err(m); },
                };
                self.emit(Instruction::Throw { src: r });
                Ok(())
            },
            Stmt::Include(_) => {
                proof {
                    lemma_prog_kept_refl(prog);
                }
                Ok(())
            },
        }
    }

    fn compile_if(&mut self, prog: &mut Program, s: &Stmt) -> (r: Result<(), Vec<char>>)
        requires
            old(self).inv(),
            pools_ok(old(prog)),
        ensures
            prog_kept(old(prog), final(prog)),
            match r {
                Ok(()) => cif(env_of(old(prog)), old(self).state(old(prog)), s@) == Ok::<CS, Seq<char>>(final(self).state(final(prog))) && final(self).inv(),
                Err(m) => cif(env_of(old(prog)), old(self).state(old(prog)), s@) == Err::<CS, Seq<char>>(m@),
            },
            old(self).code@.len() <= final(self).code@.len(),
            old(self).max_registers <= final(self).max_registers,
            r is Ok ==> final(self).loop_ctx@.len() == old(self).loop_ctx@.len(),
        decreases s, 0nat,
    {
        match s {
            Stmt::If(c, tb, eb) => {
                let ghost p0 = *prog;
                let cond = match self.compile_expr(prog, c, self.local_count) {
                    Ok(r) => r,
                    Err(m) => { return Err(m); },
                };
                let j1 = self.code.len();
                self.emit(Instruction::JumpIfFalse { target: 0, src: cond });
                let ghost p1 = *prog;
                match self.compile_block(prog, tb) {
                    Ok(()) => {},
                    Err(m) => { return Err(m); },
                }
                proof {
                    lemma_prog_kept_trans(&p0, &p1, prog);
                }
                match eb {
                    Some(b) => {
                        let j2 = self.code.len();
                        self.emit(Instruction::Jump { target: 0 });
                        let l = self.code.len();
                        self.code.set(j1, Instruction::JumpIfFalse { target: l, src: cond });
                        let ghost p2 = *prog;
                        match self.compile_block(prog, b) {
                            Ok(()) => {},
                            Err(m) => { return Err(m); },
                        }
                        proof {
                            lemma_prog_kept_trans(&p0, &p2, prog);
                        }
                        let l2 = self.code.len();
                        self.code.set(j2, Instruction::Jump { target: l2 });
                    },
                    None => {
                        let l = self.code.len();
                        self.code.set(j1, Instruction::JumpIfFalse { target: l, src: cond });
                    },
                }
                Ok(())
            },
            _ => Err(Vec::new()),
        }
    }

    fn compile_while(&mut self, prog: &mut Program, s: &Stmt) -> (r: Result<(), Vec<char>>)
        requires
            old(self).inv(),
            pools_ok(old(prog)),
        ensures
            prog_kept(old(prog), final(prog)),
            match r {
                Ok(()) => cwhile(env_of(old(prog)), old(self).state(old(prog)), s@) == Ok::<CS, Seq<char>>(final(self).state(final(prog))) && final(self).inv(),
                Err(m) => cwhile(env_of(old(prog)), old(self).state(old(prog)), s@) == Err::<CS, Seq<char>>(m@),
            },
            old(self).code@.len() <= final(self).code@.len(),
            old(self).max_registers <= final(self).max_registers,
            r is Ok ==> final(self).loop_ctx@.len() == old(self).loop_ctx@.len(),
        decreases s, 0nat,
    {
        match s {
            Stmt::While(c, body) => {
                let ghost p0 = *prog;
                let ghost l0 = self.state(prog).loops;
                let start = self.code.len();
                self.loop_ctx.push((Vec::new(), Vec::new()));
                assert(self.state(prog).loops =~= l0.push((Seq::<usize>::empty(), Seq::<usize>::empty())));
                let cond = match self.compile_expr(prog, c, self.local_count) {
                    Ok(r) => r,
                    Err(m) => { return Err(m); },
                };
                let j1 = self.code.len();
                self.emit(Instruction::JumpIfFalse { target: 0, src: cond });
                let ghost p1 = *prog;
                match self.compile_block(prog, body) {
                    Ok(()) => {},
                    Err(m) => { return Err(m); },
                }
                proof {
                    lemma_prog_kept_trans(&p0, &p1, prog);
                }
                self.emit(Instruction::Jump { target: start });
                self.close_loop(j1, cond, start);
                Ok(())
            },
            _ => Err(Vec::new()),
        }
    }

    #[verifier::rlimit(100)]
    fn compile_for(&mut self, prog: &mut Program, s: &Stmt) -> (r: Result<(), Vec<char>>)
        requires
            old(self).inv(),
            pools_ok(old(prog)),
        ensures
            prog_kept(old(prog), final(prog)),
            match r {
                Ok(()) => cfor(env_of(old(prog)), old(self).state(old(prog)), s@) == Ok::<CS, Seq<char>>(final(self).state(final(prog))) && final(self).inv(),
                Err(m) => cfor(env_of(old(prog)), old(self).state(old(prog)), s@) == Err::<CS, Seq<char>>(m@),
            },
            old(self).code@.len() <= final(self).code@.len(),
            old(self).max_registers <= final(self).max_registers,
            r is Ok ==> final(self).loop_ctx@.len() == old(self).loop_ctx@.len(),
        decreases s, 0nat,
    {
        match s {
            Stmt::For(init, c, step, body) => {
                let ghost p0 = *prog;
                let ghost env = env_of(prog);
                let ghost cs = self.state(prog);
                let saved_regs = self.regs.duplicate();
                let saved_count = self.local_count;
                match self.compile_stmt(prog, init) {
                    Ok(()) => {},
                    Err(m) => { return Err(m); },
                }
                let ghost csi = self.state(prog);
                let ghost l0 = self.state(prog).loops;
                let cond_pc = self.code.len();
                self.loop_ctx.push((Vec::new(), Vec::new()));
                assert(self.state(prog).loops =~= l0.push((Seq::<usize>::empty(), Seq::<usize>::empty())));
                let ghost cs0 = self.state(prog);
                assert(cs0 == CS { loops: csi.loops.push((Seq::empty(), Seq::empty())), ..csi });
                let ghost p1 = *prog;
                let cond = match self.compile_expr(prog, c, self.local_count) {
                    Ok(r) => r,
                    Err(m) => { return Err(m); },
                };
                let ghost cs1 = self.state(prog);
                let j1 = self.code.len();
                self.emit(Instruction::JumpIfFalse { target: 0, src: cond });
                assert(self.state(prog) == emit(cs1, Instruction::JumpIfFalse { target: 0, src: cond }));
                let ghost p2 = *prog;
                match self.compile_block(prog, body) {
                    Ok(()) => {},
                    Err(m) => { return Err(m); },
                }
                let ghost cs2 = self.state(prog);
                let step_pc = self.code.len();
                let ghost p3 = *prog;
                match self.compile_expr(prog, step, self.local_count) {
                    Ok(_) => {},
                    Err(m) => { return Err(m); },
                }
                let ghost cs3 = self.state(prog);
                proof {
                    lemma_prog_kept_trans(&p0, &p1, &p2);
                    lemma_prog_kept_trans(&p0, &p2, &p3);
                    lemma_prog_kept_trans(&p0, &p3, prog);
                }
                self.emit(Instruction::Jump { target: cond_pc });
                assert(self.state(prog) == emit(cs3, Instruction::Jump { target: cond_pc }));
                self.close_loop(j1, cond, step_pc);
                let ghost cs4 = self.state(prog);
                assert(cs4 == close_loop(emit(cs3, Instruction::Jump { target: cond_pc }), j1 as int, cond, step_pc));
                self.regs = saved_regs;
                self.local_count = saved_count;
                assert(self.state(prog) == unscope(cs, cs4));
                Ok(())
            },
            _ => Err(Vec::new()),
        }
    }

    #[verifier::rlimit(100)]
    fn compile_try(&mut self, prog: &mut Program, s: &Stmt) -> (r: Result<(), Vec<char>>)
        requires
            old(self).inv(),
            pools_ok(old(prog)),
        ensures
            prog_kept(old(prog), final(prog)),
            match r {
                Ok(()) => ctry(env_of(old(prog)), old(self).state(old(prog)), s@) == Ok::<CS, Seq<char>>(final(self).state(final(prog))) && final(self).inv(),
                Err(m) => ctry(env_of(old(prog)), old(self).state(old(prog)), s@) == Err::<CS, Seq<char>>(m@),
            },
            old(self).code@.len() <= final(self).code@.len(),
            old(self).max_registers <= final(self).max_registers,
            r is Ok ==> final(self).loop_ctx@.len() == old(self).loop_ctx@.len(),
        decreases s, 0nat,
    {
        match s {
            Stmt::Try(tb, types, v, cb) => {
                let ghost p0 = *prog;
                let ghost cs = self.state(prog);
                let saved_regs = self.regs.duplicate();
                let saved_count = self.local_count;
                let start_pc = self.code.len();
                match self.compile_block(prog, tb) {
                    Ok(()) => {},
                    Err(m) => { return Err(m); },
                }
                let ghost cs1 = self.state(prog);
                let end_pc = self.code.len();
                let j_skip = self.code.len();
                self.emit(Instruction::Jump { target: 0 });
                let catch_pc = self.code.len();
                self.regs = saved_regs.duplicate();
                self.local_count = saved_count;
                assert(self.state(prog) == unscope(cs, emit(cs1, Instruction::Jump { target: 0 })));
                let err_reg = match self.declare(v) {
                    Ok(r) => r,
                    Err(m) => { return Err(m); },
                };
                let ghost p1 = *prog;
                match self.compile_block(prog, cb) {
                    Ok(()) => {},
                    Err(m) => { return Err(m); },
                }
                proof {
                    lemma_prog_kept_trans(&p0, &p1, prog);
                }
                let l = self.code.len();
                self.code.set(j_skip, Instruction::Jump { target: l });
                let names = copy_names(types);
                let ghost hs0 = self.state(prog).handlers;
                self.exception_handlers.push(ExceptionHandler { start_pc, end_pc, catch_pc, err_reg, error_types: names });
                assert(self.state(prog).handlers =~= hs0.push(HandlerV { start_pc, end_pc, catch_pc, err_reg, error_types: types.deep_view() }));
                self.regs = saved_regs;
                self.local_count = saved_count;
                Ok(())
            },
            _ => Err(Vec::new()),
        }
    }

    fn load_const(&mut self, prog: &mut Program, c: Folded, dst: usize)
        requires
            old(self).inv(),
            pools_ok(old(prog)),
        ensures
            prog_kept(old(prog), final(prog)),
            final(self).state(final(prog)) == load_const(old(self).state(old(prog)), c@, dst),
            final(self).inv(),
            final(self).regs == old(self).regs,
            final(self).local_count == old(self).local_count,
            final(self).loop_ctx == old(self).loop_ctx,
            final(self).exception_handlers == old(self).exception_handlers,
            old(self).code@.len() <= final(self).code@.len(),
            old(self).max_registers == final(self).max_registers,
    {
        match c {
            Folded::Int(i) => self.emit(Instruction::LoadInt { dst, value: i }),
            Folded::Bool(b) => self.emit(Instruction::LoadBool { dst, value: b }),
            Folded::Str(s) => {
                let sym = self.intern(prog, &s);
                self.emit(Instruction::LoadString { dst, symbol: sym });
            },
        }
        proof {
            lemma_prog_kept_refl(prog);
        }
    }
}

/// A copy of a list of names.
impl Compiler {
    /// The code, the register count (at least the number of variables),
    /// and the exception handlers.
    pub fn finish(self) -> (r: (Vec<Instruction>, usize, Vec<ExceptionHandler>))
        ensures
            forall|p: &Program| {
                let cs = #[trigger] self.state(p);
                &&& r.0@ == cs.code
                &&& r.1 == (if cs.local_count > cs.max_regs { cs.local_count } else { cs.max_regs })
                &&& r.2@.map_values(|h: ExceptionHandler| h@) == cs.handlers
            },
    {
        let n = if self.local_count > self.max_registers { self.local_count } else { self.max_registers };
        (self.code, n, self.exception_handlers)
    }

    /// Compiles one function definition into a function with the given id:
    /// parameters first, then the body, a closing `return null`, and the
    /// removal of unreachable code.
    fn compile_function(prog: &mut Program, f: &FuncDef, id: usize, Ghost(nfun): Ghost<nat>, Ghost(nnat): Ghost<nat>)
        -> (r: Result<Function, Vec<char>>)
        requires
            pools_ok(old(prog)),
        ensures
            prog_kept(old(prog), final(prog)),
            r is Ok ==> old(prog).float_literals@.len() <= final(prog).float_literals@.len(),
            crate::wf::env_ok(env_of(old(prog)), nfun, nnat) ==> (r matches Ok(func)
                ==> crate::wf::fn_wf(func, final(prog).strings@.len(), nfun, nnat, final(prog).float_literals@.len())),
            match crate::codegen::cfunc(env_of(old(prog)), old(prog).strings@, old(prog).float_literals.deep_view(), f@.args, f@.body) {
                Ok((g, st, fl)) => match r {
                    Ok(func) => {
                        &&& func.id == id
                        &&& func.name@ == f.name@
                        &&& func.arg_count == f.args@.len()
                        &&& func.num_registers == g.num_registers
                        &&& (func.code@, func.handlers()) == crate::codegen::optimized(g.code, g.handlers)
                        &&& final(prog).strings@ == st
                        &&& final(prog).float_literals.deep_view() == fl
                    },
                    Err(_) => false,
                },
                Err(m) => r matches Err(e) && e@ == m,
            },
    {
        let ghost env = env_of(prog);
        let ghost cs0 = crate::codegen::fresh(prog.strings@, prog.float_literals.deep_view());
        let ghost names = f@.args;
        let mut c = Compiler::new();
        let mut k: usize = 0;
        proof {
            lemma_prog_kept_refl(prog);
            assert(names.take(0) =~= Seq::<Seq<char>>::empty());
            assert(c.state(prog) == cs0);
        }
        while k < f.args.len()
            invariant
                k <= f.args@.len(),
                names == f@.args,
                names.len() == f.args@.len(),
                forall|j: int| 0 <= j < f.args@.len() ==> #[trigger] names[j] == f.args@[j]@,
                c.inv(),
                pools_ok(prog),
                prog_kept(old(prog), prog),
                prog.strings@ == old(prog).strings@,
                prog.float_literals == old(prog).float_literals,
                env == env_of(prog),
                crate::codegen::declare_all(cs0, names.take(k as int)) == Ok::<CS, Seq<char>>(c.state(prog)),
                cs0 == crate::codegen::fresh(prog.strings@, prog.float_literals.deep_view()),
            decreases f.args@.len() - k,
        {
            proof {
                assert(names.take(k + 1).drop_last() =~= names.take(k as int));
                assert(names.take(k + 1).last() == f.args@[k as int]@);
            }
            match c.declare(&f.args[k]) {
                Ok(_) => {},
                Err(m) => {
                    proof {
                        lemma_declare_all_err(cs0, names, k as int, m@);
                    }
                    return Err(m);
                },
            }
            k = k + 1;
        }
        proof {
            assert(names.take(k as int) =~= names);
        }
        let ghost cs1 = c.state(prog);
        match c.compile_stmts(prog, &f.body) {
            Ok(()) => {},
            Err(m) => { return Err(m); },
        }
        let ghost body_code = c.code@;
        proof {
            assert(indices_in_bounds(body_code, c.state(prog).handlers));
        }
        let ret = c.local_count;
        c.emit(Instruction::LoadNull { dst: ret });
        c.emit(Instruction::Return { src: ret });
        let local_count = c.local_count;
        let max_seen = c.max_registers;
        let ghost cs2 = c.state(prog);
        let ghost code2 = c.code@;
        let (code, _n, handlers) = c.finish();
        let allocated = if max_seen > local_count + 1 { max_seen } else { local_count + 1 };
        if allocated > MAX_REGISTERS {
            return Err(crate::text::chars_of("CompilationError: Too many registers."));
        }
        let mut func = Function {
            id,
            name: copy_chars(&f.name),
            arg_count: f.args.len(),
            code,
            num_registers: allocated,
            exception_handlers: handlers,
        };
        proof {
            assert(func.handlers() == cs2.handlers);
            assert(indices_in_bounds(func.code@, func.handlers()));
        }
        let ghost hs0 = func.handlers();
        proof {
            assert(func.code@ == code2);
            assert(code2.len() == func.code.len());
        }
        func.optimize();
        proof {
            let o = crate::codegen::optimized(code2, hs0);
            if code2.len() > 0 {
                assert(func.handlers() =~= o.1);
            }
            crate::wf::lemma_cfunc(env, old(prog).strings@, old(prog).float_literals.deep_view(), f@.args, f@.body,
                crate::wf::no_bound(), crate::wf::no_bound());
            assert(crate::codegen::cfunc(env, old(prog).strings@, old(prog).float_literals.deep_view(), f@.args, f@.body)
                == Ok::<(crate::codegen::GenFn, Seq<Seq<char>>, Seq<Seq<char>>), Seq<char>>((crate::codegen::GenFn { code: code2, handlers: hs0, num_registers: allocated }, prog.strings@, prog.float_literals.deep_view())));
            if crate::wf::env_ok(env, nfun, nnat) {
                crate::wf::lemma_cfunc(env, old(prog).strings@, old(prog).float_literals.deep_view(), f@.args, f@.body, nfun, nnat);
                let nsym = prog.strings@.len();
                let nflt = prog.float_literals.deep_view().len();
                assert(crate::codegen::cfunc(env, old(prog).strings@, old(prog).float_literals.deep_view(), f@.args, f@.body)
                    == Ok::<(crate::codegen::GenFn, Seq<Seq<char>>, Seq<Seq<char>>), Seq<char>>((crate::codegen::GenFn { code: code2, handlers: hs0, num_registers: allocated }, prog.strings@, prog.float_literals.deep_view())));
                let g = crate::codegen::GenFn { code: code2, handlers: hs0, num_registers: allocated };
                assert forall|h: int| 0 <= h < hs0.len() implies #[trigger] hs0[h].err_reg < MAX_REGISTERS by {
                    assert(g.handlers[h].err_reg < MAX_REGISTERS);
                }
                crate::wf::lemma_generated_code_ok(body_code, code2, hs0, allocated as nat, nsym, nfun, nnat, nflt);
                crate::laws::law_optimize_keeps_function_wf(code2, hs0, allocated as nat, nsym, nfun, nnat, nflt);
            }
        }
        Ok(func)
    }

    /// Compiles the function definitions into `prog`: each name is first
    /// registered under its position in the list, then each function is
    /// compiled in order and appended to the program's functions. The
    /// definitions must compile (`compiles`); see `try_compile` for the
    /// check that reports the compile error.
    pub fn compile(prog: &mut Program, ast: Vec<FuncDef>)
        requires
            pools_ok(old(prog)),
            compiles(old(prog), crate::ast::fvs(ast@)),
        ensures
            final(prog).func_map@ == crate::codegen::with_names(old(prog).func_map@, crate::ast::fvs(ast@)),
            final(prog).natives@ == old(prog).natives@,
            final(prog).native_map@ == old(prog).native_map@,
            pools_ok(final(prog)),
            old(prog).wf_tables() ==> final(prog).wf_tables(),
            old(prog).wf_tables() && old(prog).functions@.len() == 0 ==> final(prog).wf(),
            ({
                match crate::codegen::cfuncs(compile_env(old(prog), crate::ast::fvs(ast@)), old(prog).strings@, old(prog).float_literals.deep_view(), crate::ast::fvs(ast@)) {
                    Ok((gs, st, fl)) => {
                        &&& final(prog).functions@.len() == old(prog).functions@.len() + gs.len()
                        &&& forall|k: int| 0 <= k < old(prog).functions@.len() ==> #[trigger] final(prog).functions@[k] == old(prog).functions@[k]
                        &&& forall|k: int| 0 <= k < gs.len() ==> {
                            let func = #[trigger] final(prog).functions@[old(prog).functions@.len() + k];
                            &&& func.id == k
                            &&& func.name@ == ast@[k].name@
                            &&& func.arg_count == ast@[k].args@.len()
                            &&& func.num_registers == gs[k].num_registers
                            &&& (func.code@, func.handlers()) == crate::codegen::optimized(gs[k].code, gs[k].handlers)
                        }
                        &&& final(prog).strings@ == st
                        &&& final(prog).float_literals.deep_view() == fl
                    },
                    Err(_) => false,
                }
            }),
    {
        match Compiler::try_compile(prog, ast) {
            Ok(()) => {},
            Err(_) => { assert(false); },
        }
    }

    /// Compiles the function definitions into `prog` as `compile` does, or
    /// reports the compile error that stops it.
    #[verifier::spinoff_prover]
    #[verifier::rlimit(50)]
    pub fn try_compile(prog: &mut Program, ast: Vec<FuncDef>) -> (r: Result<(), Vec<char>>)
        requires
            pools_ok(old(prog)),
        ensures
            final(prog).func_map@ == crate::codegen::with_names(old(prog).func_map@, crate::ast::fvs(ast@)),
            final(prog).natives@ == old(prog).natives@,
            final(prog).native_map@ == old(prog).native_map@,
            pools_ok(final(prog)),
            old(prog).wf_tables() && r is Ok ==> final(prog).wf_tables(),
            old(prog).wf_tables() && old(prog).functions@.len() == 0 && r is Ok ==> final(prog).wf(),
            ({
                let env = CEnv { funcs: crate::codegen::with_names(old(prog).func_map@, crate::ast::fvs(ast@)), natives: old(prog).native_map@ };
                match crate::codegen::cfuncs(env, old(prog).strings@, old(prog).float_literals.deep_view(), crate::ast::fvs(ast@)) {
                    Ok((gs, st, fl)) => {
                        &&& r is Ok
                        &&& final(prog).functions@.len() == old(prog).functions@.len() + gs.len()
                        &&& forall|k: int| 0 <= k < old(prog).functions@.len() ==> #[trigger] final(prog).functions@[k] == old(prog).functions@[k]
                        &&& forall|k: int| 0 <= k < gs.len() ==> {
                            let func = #[trigger] final(prog).functions@[old(prog).functions@.len() + k];
                            &&& func.id == k
                            &&& func.name@ == ast@[k].name@
                            &&& func.arg_count == ast@[k].args@.len()
                            &&& func.num_registers == gs[k].num_registers
                            &&& (func.code@, func.handlers()) == crate::codegen::optimized(gs[k].code, gs[k].handlers)
                        }
                        &&& final(prog).strings@ == st
                        &&& final(prog).float_literals.deep_view() == fl
                    },
                    Err(m) => r matches Err(e) && e@ == m,
                }
            }),
    {
        let ghost fs = crate::ast::fvs(ast@);
        let mut i: usize = 0;
        proof {
            assert(ast@.take(0).map_values(|f: FuncDef| f@) =~= Seq::<crate::ast::FuncDefV>::empty());
        }
        while i < ast.len()
            invariant
                i <= ast@.len(),
                fs == crate::ast::fvs(ast@),
                pools_ok(prog),
                prog.func_map@ == crate::codegen::with_names(old(prog).func_map@, fs.take(i as int)),
                prog.strings@ == old(prog).strings@,
                prog.float_literals == old(prog).float_literals,
                prog.floats == old(prog).floats,
                prog.functions == old(prog).functions,
                prog.natives == old(prog).natives,
                prog.native_map == old(prog).native_map,
            decreases ast@.len() - i,
        {
            prog.func_map.insert(&ast[i].name, i);
            proof {
                assert(fs.take(i + 1).drop_last() =~= fs.take(i as int));
            }
            i = i + 1;
        }
        proof {
            assert(fs.take(i as int) =~= fs);
        }
        let ghost env = env_of(prog);
        let ghost p0 = *prog;
        let n0 = prog.functions.len();
        let ghost nfun = fs.len();
        let ghost nnat = prog.natives@.len();
        let ghost fresh_prog = old(prog).wf_tables() && n0 == 0;
        let mut k: usize = 0;
        proof {
            if fresh_prog {
                lemma_with_names_below(old(prog).func_map@, fs, fs.len() as int);
            }
            assert(fs.skip(0) =~= fs);
            lemma_cfuncs_len(env, p0.strings@, p0.float_literals.deep_view(), fs);
            let whole = crate::codegen::cfuncs(env, p0.strings@, p0.float_literals.deep_view(), fs);
            if whole is Ok {
                assert(whole->Ok_0.0.skip(0) =~= whole->Ok_0.0);
            }
        }
        while k < ast.len()
            invariant
                k <= ast@.len(),
                fs == crate::ast::fvs(ast@),
                fs.len() == ast@.len(),
                pools_ok(prog),
                env == env_of(prog),
                env.funcs == crate::codegen::with_names(old(prog).func_map@, fs),
                env.natives == old(prog).native_map@,
                prog.natives@ == old(prog).natives@,
                n0 == old(prog).functions@.len(),
                prog.functions@.len() == n0 + k,
                forall|j: int| 0 <= j < n0 ==> #[trigger] prog.functions@[j] == old(prog).functions@[j],
                ({
                    let whole = crate::codegen::cfuncs(env, p0.strings@, p0.float_literals.deep_view(), fs);
                    let rest = crate::codegen::cfuncs(env, prog.strings@, prog.float_literals.deep_view(), fs.skip(k as int));
                    match whole {
                        Ok((gs, st, fl)) => rest matches Ok((gs2, st2, fl2)) && st2 == st && fl2 == fl
                            && gs2 == gs.skip(k as int) && gs.len() == fs.len()
                            && forall|j: int| 0 <= j < k ==> {
                                let func = #[trigger] prog.functions@[n0 + j];
                                &&& func.id == j
                                &&& func.name@ == ast@[j].name@
                                &&& func.arg_count == ast@[j].args@.len()
                                &&& func.num_registers == gs[j].num_registers
                                &&& (func.code@, func.handlers()) == crate::codegen::optimized(gs[j].code, gs[j].handlers)
                            },
                        Err(m) => rest == Err::<(Seq<crate::codegen::GenFn>, Seq<Seq<char>>, Seq<Seq<char>>), Seq<char>>(m),
                    }
                }),
                p0.strings@ == old(prog).strings@,
                p0.float_literals == old(prog).float_literals,
                fresh_prog == (old(prog).wf_tables() && n0 == 0),
                nfun == fs.len(),
                nnat == prog.natives@.len(),
                fresh_prog ==> crate::wf::env_ok(env, nfun, nnat),
                fresh_prog ==> forall|j: int| 0 <= j < k ==> #[trigger] prog.functions@[j].id == j
                    && crate::wf::fn_wf(prog.functions@[j], prog.strings@.len(), nfun, nnat, prog.float_literals@.len()),
            decreases ast@.len() - k,
        {
            let ghost pk = *prog;
            proof {
                lemma_cfuncs_step(env, pk.strings@, pk.float_literals.deep_view(), fs, k as int);
                assert(fs[k as int] == ast@[k as int]@);
            }
            let func = match Compiler::compile_function(prog, &ast[k], k, Ghost(nfun), Ghost(nnat)) {
                Ok(func) => func,
                Err(m) => { return Err(m); },
            };
            let ghost pf = *prog;
            prog.functions.push(func);
            proof {
                let whole = crate::codegen::cfuncs(env, p0.strings@, p0.float_literals.deep_view(), fs);
                let c = crate::codegen::cfunc(env, pk.strings@, pk.float_literals.deep_view(), fs[k as int].args, fs[k as int].body);
                let g = c->Ok_0.0;
                if whole is Ok {
                    let gs = whole->Ok_0.0;
                    let tail = crate::codegen::cfuncs(env, pf.strings@, pf.float_literals.deep_view(), fs.skip(k + 1));
                    let gs1 = tail->Ok_0.0;
                    assert(gs.skip(k as int) == seq![g] + gs1);
                    assert(gs.skip(k as int)[0] == gs[k as int]);
                    assert((seq![g] + gs1).len() == 1 + gs1.len());
                    assert forall|i: int| 0 <= i < gs1.len() implies #[trigger] gs1[i] == gs.skip(k + 1)[i] by {
                        assert((seq![g] + gs1)[i + 1] == gs1[i]);
                        assert(gs.skip(k as int)[i + 1] == gs[k + 1 + i]);
                    }
                    assert(gs1 =~= gs.skip(k + 1));
                    assert(prog.functions@[n0 + k] == func);
                    assert forall|j: int| 0 <= j < k + 1 implies {
                        let func = #[trigger] prog.functions@[n0 + j];
                        &&& func.id == j
                        &&& func.name@ == ast@[j].name@
                        &&& func.arg_count == ast@[j].args@.len()
                        &&& func.num_registers == gs[j].num_registers
                        &&& (func.code@, func.handlers()) == crate::codegen::optimized(gs[j].code, gs[j].handlers)
                    } by {
                        if j < k {
                            assert(prog.functions@[n0 + j] == pf.functions@[n0 + j]);
                        }
                    }
                }
                assert forall|j: int| 0 <= j < n0 implies #[trigger] prog.functions@[j] == old(prog).functions@[j] by {
                    assert(prog.functions@[j] == pf.functions@[j]);
                }
            }
            proof {
                crate::wf::lemma_functions_step(fresh_prog, pk.functions@, prog.functions@, func, k as int, pk.strings@.len(),
                    prog.strings@.len(), pk.float_literals@.len(), prog.float_literals@.len(), nfun, nnat);
            }
            k = k + 1;
        }
        proof {
            assert(fs.skip(k as int) =~= Seq::<crate::ast::FuncDefV>::empty());
            if old(prog).wf_tables() {
                lemma_with_names_below(old(prog).func_map@, fs, (n0 + fs.len()) as int);
            }
            if fresh_prog {
                assert forall|j: int| 0 <= j < prog.functions@.len() implies #[trigger] prog.function_ok(j) by {
                    assert(prog.functions@[j].id == j);
                    let f = prog.functions@[j];
                    assert(f.id == j && crate::wf::fn_wf(f, prog.strings@.len(), nfun, nnat, prog.float_literals@.len()));
                    assert forall|h: int| #![trigger f.exception_handlers@[h]] 0 <= h < f.exception_handlers@.len() implies
                        f.exception_handlers@[h].catch_pc < f.code@.len() && f.exception_handlers@[h].err_reg < MAX_REGISTERS by {
                        assert(f.handlers()[h] == f.exception_handlers@[h]@);
                    }
                }
            }
        }
        Ok(())
    }
}

proof fn lemma_with_names_below(m: Map<Seq<char>, usize>, fs: Seq<crate::ast::FuncDefV>, bound: int)
    requires
        fs.len() <= bound,
        forall|k: Seq<char>| #[trigger] m.contains_key(k) ==> m[k] < bound,
    ensures
        forall|k: Seq<char>| #[trigger] crate::codegen::with_names(m, fs).contains_key(k) ==> crate::codegen::with_names(m, fs)[k] < bound,
    decreases fs.len(),
{
    if fs.len() > 0 {
        lemma_with_names_below(m, fs.drop_last(), bound);
        let w = crate::codegen::with_names(m, fs.drop_last());
        assert(crate::codegen::with_names(m, fs) == w.insert(fs.last().name, (fs.len() - 1) as usize));
        assert forall|k: Seq<char>| #[trigger] crate::codegen::with_names(m, fs).contains_key(k) implies crate::codegen::with_names(m, fs)[k] < bound by {
            if k != fs.last().name {
                assert(w.contains_key(k));
            }
        }
    }
}

proof fn lemma_cfuncs_len(env: CEnv, st: Seq<Seq<char>>, fl: Seq<Seq<char>>, fs: Seq<crate::ast::FuncDefV>)
    ensures
        crate::codegen::cfuncs(env, st, fl, fs) matches Ok((gs, _, _)) ==> gs.len() == fs.len(),
    decreases fs.len(),
{
    if fs.len() > 0 {
        let c = crate::codegen::cfunc(env, st, fl, fs[0].args, fs[0].body);
        if c is Ok {
            lemma_cfuncs_len(env, c->Ok_0.1, c->Ok_0.2, fs.drop_first());
        }
    }
}

proof fn lemma_cfuncs_step(env: CEnv, st: Seq<Seq<char>>, fl: Seq<Seq<char>>, fs: Seq<crate::ast::FuncDefV>, k: int)
    requires
        0 <= k < fs.len(),
    ensures
        ({
            let rest = crate::codegen::cfuncs(env, st, fl, fs.skip(k));
            match crate::codegen::cfunc(env, st, fl, fs[k].args, fs[k].body) {
                Err(m) => rest == Err::<(Seq<crate::codegen::GenFn>, Seq<Seq<char>>, Seq<Seq<char>>), Seq<char>>(m),
                Ok((g, st1, fl1)) => match crate::codegen::cfuncs(env, st1, fl1, fs.skip(k + 1)) {
                    Err(m) => rest == Err::<(Seq<crate::codegen::GenFn>, Seq<Seq<char>>, Seq<Seq<char>>), Seq<char>>(m),
                    Ok((gs1, st2, fl2)) => rest == Ok::<(Seq<crate::codegen::GenFn>, Seq<Seq<char>>, Seq<Seq<char>>), Seq<char>>((seq![g] + gs1, st2, fl2)),
                },
            }
        }),
{
    assert(fs.skip(k).drop_first() =~= fs.skip(k + 1));
    assert(fs.skip(k)[0] == fs[k]);
}

proof fn lemma_declare_all_err(cs: CS, names: Seq<Seq<char>>, k: int, m: Seq<char>)
    requires
        0 <= k < names.len(),
        crate::codegen::declare_all(cs, names.take(k)) matches Ok(c1) && declare(c1, names[k]) == Err::<(CS, usize), Seq<char>>(m),
    ensures
        crate::codegen::declare_all(cs, names) == Err::<CS, Seq<char>>(m),
    decreases names.len() - k,
{
    assert(names.take(k + 1).drop_last() =~= names.take(k));
    lemma_declare_all_err_prefix(cs, names, k + 1, m);
}

proof fn lemma_declare_all_err_prefix(cs: CS, names: Seq<Seq<char>>, k: int, m: Seq<char>)
    requires
        0 < k <= names.len(),
        crate::codegen::declare_all(cs, names.take(k)) == Err::<CS, Seq<char>>(m),
    ensures
        crate::codegen::declare_all(cs, names) == Err::<CS, Seq<char>>(m),
    decreases names.len() - k,
{
    if k < names.len() {
        assert(names.take(k + 1).drop_last() =~= names.take(k));
        lemma_declare_all_err_prefix(cs, names, k + 1, m);
    } else {
        assert(names.take(k) =~= names);
    }
}

fn copy_names(v: &Vec<Vec<char>>) -> (r: Vec<Vec<char>>)
    ensures
        r@.map_values(|t: Vec<char>| t@) == v.deep_view(),
{
    let mut r: Vec<Vec<char>> = Vec::new();
    let mut k: usize = 0;
    while k < v.len()
        invariant
            k <= v@.len(),
            r@.len() == k,
            forall|j: int| 0 <= j < k ==> #[trigger] r@[j]@ == v@[j]@,
        decreases v@.len() - k,
    {
        r.push(copy_chars(&v[k]));
        k = k + 1;
    }
    let ghost m = r@.map_values(|t: Vec<char>| t@);
    assert forall|j: int| 0 <= j < v@.len() implies #[trigger] m[j] == v.deep_view()[j] by {
        assert(v.deep_view()[j] =~= v@[j]@);
    }
    assert(m =~= v.deep_view());
    r
}

fn imm_instr_ex(op: BinaryOp, dst: usize, a: usize, imm: i64) -> (r: Instruction)
    ensures
        r == imm_instr(op, dst, a, imm),
{
    match op {
        BinaryOp::Plus => Instruction::AddImm { dst, src: a, imm },
        BinaryOp::Minus => Instruction::SubImm { dst, src: a, imm },
        BinaryOp::Star => Instruction::MulImm { dst, src: a, imm },
        BinaryOp::Slash => Instruction::DivImm { dst, src: a, imm },
        BinaryOp::Less => Instruction::LessImm { dst, src: a, imm },
        BinaryOp::LessEq => Instruction::LessEqImm { dst, src: a, imm },
        BinaryOp::Greater => Instruction::GreaterImm { dst, src: a, imm },
        BinaryOp::GreaterEq => Instruction::GreaterEqImm { dst, src: a, imm },
        BinaryOp::Eq => Instruction::EqualImm { dst, src: a, imm },
        _ => Instruction::NotEqImm { dst, src: a, imm },
    }
}

fn op_instr_ex(op: BinaryOp, dst: usize, a: usize, b: usize) -> (r: Instruction)
    ensures
        r == op_instr(op, dst, a, b),
{
    match op {
        BinaryOp::Plus => Instruction::Add { dst, src1: a, src2: b },
        BinaryOp::Minus => Instruction::Sub { dst, src1: a, src2: b },
        BinaryOp::Star => Instruction::Mul { dst, src1: a, src2: b },
        BinaryOp::Slash => Instruction::Div { dst, src1: a, src2: b },
        BinaryOp::Less => Instruction::Less { dst, src1: a, src2: b },
        BinaryOp::LessEq => Instruction::LessEq { dst, src1: a, src2: b },
        BinaryOp::Greater => Instruction::Greater { dst, src1: a, src2: b },
        BinaryOp::GreaterEq => Instruction::GreaterEq { dst, src1: a, src2: b },
        BinaryOp::Eq => Instruction::Equal { dst, src1: a, src2: b },
        _ => Instruction::NotEq { dst, src1: a, src2: b },
    }
}

proof fn lemma_prog_kept_refl(p: &Program)
    requires
        pools_ok(p),
    ensures
        prog_kept(p, p),
{
}

proof fn lemma_prog_kept_trans(a: &Program, b: &Program, c: &Program)
    requires
        prog_kept(a, b),
        prog_kept(b, c),
    ensures
        prog_kept(a, c),
{
    assert forall|i: int| 0 <= i < a.strings@.len() implies #[trigger] c.strings@[i] == a.strings@[i] by {
        assert(c.strings@[i] == b.strings@[i]);
    }
}

fn undefined_error(n: &Vec<char>) -> (m: Vec<char>)
    ensures
        m@ == undefined_msg(n@),
{
    let mut m = Vec::new();
    push_str(&mut m, "CompilationError: Reference to undefined variable '");
    push_all(&mut m, n);
    push_str(&mut m, "'.");
    m
}

} // verus!
