//! What the language's operators mean, stated in terms of their operands:
//! integer arithmetic and comparison on the machine and in compiled code,
//! compound assignment in the parser, and the string builtins `replace`
//! and integer parsing.
use vstd::prelude::*;
use crate::ast::{BinaryOp, ExprV};
use crate::bytecode::{Instruction, MAX_REGISTERS, Program};
use crate::codegen::{CEnv, CS, cexpr};
use crate::grammar::p_expr;
use crate::heap::{MAX_ARRAY_SIZE, ObjV, Value, arr_of};
use crate::natives::{NativeOutV, slice_spec};
use crate::strtext::utf8_len;
use crate::lexer::{LexerV, TokenInfoV, TokenV, char_at, scan};
use crate::strtext::{parse_i64_spec, replace_spec};
use crate::vm::{StepOutV, VmV, instr_spec, reg, set_reg};

verus! {

/// The machine state after an instruction that writes no register and does
/// not jump: the same, one instruction on.
pub open spec fn moved_on(s: VmV) -> VmV {
    VmV { pc: (s.pc + 1) as usize, ..s }
}

/// The machine's integer operations on two registers: with `x` in register
/// `a` and `y` in register `b`, each writes into `dst` what the operator
/// means on `x` and `y`, the left operand first, and execution goes on.
pub proof fn law_machine_int_operations(p: &Program, s: VmV, dst: usize, a: usize, b: usize, x: i64, y: i64)
    requires
        reg(s, a) == Value::Int(x),
        reg(s, b) == Value::Int(y),
    ensures
        instr_spec(p, s, Instruction::Less { dst, src1: a, src2: b }) == (set_reg(moved_on(s), dst, Value::Bool(x < y)), StepOutV::Continue),
        instr_spec(p, s, Instruction::LessEq { dst, src1: a, src2: b }) == (set_reg(moved_on(s), dst, Value::Bool(x <= y)), StepOutV::Continue),
        instr_spec(p, s, Instruction::Greater { dst, src1: a, src2: b }) == (set_reg(moved_on(s), dst, Value::Bool(x > y)), StepOutV::Continue),
        instr_spec(p, s, Instruction::GreaterEq { dst, src1: a, src2: b }) == (set_reg(moved_on(s), dst, Value::Bool(x >= y)), StepOutV::Continue),
        instr_spec(p, s, Instruction::Equal { dst, src1: a, src2: b }) == (set_reg(moved_on(s), dst, Value::Bool(x == y)), StepOutV::Continue),
        instr_spec(p, s, Instruction::NotEq { dst, src1: a, src2: b }) == (set_reg(moved_on(s), dst, Value::Bool(x != y)), StepOutV::Continue),
        i64::MIN <= x + y <= i64::MAX ==> instr_spec(p, s, Instruction::Add { dst, src1: a, src2: b })
            == (set_reg(moved_on(s), dst, Value::Int((x + y) as i64)), StepOutV::Continue),
        i64::MIN <= x - y <= i64::MAX ==> instr_spec(p, s, Instruction::Sub { dst, src1: a, src2: b })
            == (set_reg(moved_on(s), dst, Value::Int((x - y) as i64)), StepOutV::Continue),
        i64::MIN <= x * y <= i64::MAX ==> instr_spec(p, s, Instruction::Mul { dst, src1: a, src2: b })
            == (set_reg(moved_on(s), dst, Value::Int((x * y) as i64)), StepOutV::Continue),
{
    assert(reg(moved_on(s), a) == reg(s, a));
    assert(reg(moved_on(s), b) == reg(s, b));
}

/// The machine's integer operations with an immediate right operand: with
/// `x` in register `a`, each writes `x op imm` into `dst`; in particular
/// `x >= x` and `x <= x` are true.
pub proof fn law_machine_int_immediates(p: &Program, s: VmV, dst: usize, a: usize, x: i64, imm: i64)
    requires
        reg(s, a) == Value::Int(x),
    ensures
        instr_spec(p, s, Instruction::LessImm { dst, src: a, imm }) == (set_reg(moved_on(s), dst, Value::Bool(x < imm)), StepOutV::Continue),
        instr_spec(p, s, Instruction::LessEqImm { dst, src: a, imm }) == (set_reg(moved_on(s), dst, Value::Bool(x <= imm)), StepOutV::Continue),
        instr_spec(p, s, Instruction::GreaterImm { dst, src: a, imm }) == (set_reg(moved_on(s), dst, Value::Bool(x > imm)), StepOutV::Continue),
        instr_spec(p, s, Instruction::GreaterEqImm { dst, src: a, imm }) == (set_reg(moved_on(s), dst, Value::Bool(x >= imm)), StepOutV::Continue),
        instr_spec(p, s, Instruction::EqualImm { dst, src: a, imm }) == (set_reg(moved_on(s), dst, Value::Bool(x == imm)), StepOutV::Continue),
        instr_spec(p, s, Instruction::NotEqImm { dst, src: a, imm }) == (set_reg(moved_on(s), dst, Value::Bool(x != imm)), StepOutV::Continue),
        i64::MIN <= x + imm <= i64::MAX ==> instr_spec(p, s, Instruction::AddImm { dst, src: a, imm })
            == (set_reg(moved_on(s), dst, Value::Int((x + imm) as i64)), StepOutV::Continue),
        i64::MIN <= x - imm <= i64::MAX ==> instr_spec(p, s, Instruction::SubImm { dst, src: a, imm })
            == (set_reg(moved_on(s), dst, Value::Int((x - imm) as i64)), StepOutV::Continue),
        i64::MIN <= x * imm <= i64::MAX ==> instr_spec(p, s, Instruction::MulImm { dst, src: a, imm })
            == (set_reg(moved_on(s), dst, Value::Int((x * imm) as i64)), StepOutV::Continue),
{
    assert(reg(moved_on(s), a) == reg(s, a));
}

/// Truncating division: for `b != 0`, `a = q * b + r` with the quotient
/// `q = tdiv(a, b)`, a remainder smaller than `b` in size, and a remainder
/// that is zero or has the sign of `a` (the quotient rounds toward zero).
pub proof fn law_truncating_division(a: int, b: int)
    requires
        b != 0,
    ensures
        ({
            let r = a - crate::arith::tdiv(a, b) * b;
            &&& (if r < 0 { -r } else { r }) < (if b < 0 { -b } else { b })
            &&& (r == 0 || (r < 0) == (a < 0))
        }),
{
    let aa: int = if a < 0 { -a } else { a };
    let bb: int = if b < 0 { -b } else { b };
    let q0: int = aa / bb;
    let r0: int = aa % bb;
    vstd::arithmetic::div_mod::lemma_fundamental_div_mod(aa, bb);
    vstd::arithmetic::div_mod::lemma_mod_pos_bound(aa, bb);
    assert(aa == bb * q0 + r0);
    let q = crate::arith::tdiv(a, b);
    assert(q == if (a < 0) == (b < 0) { q0 } else { -q0 });
    if a >= 0 && b > 0 {
        assert(q * b == bb * q0) by (nonlinear_arith) requires q == q0, bb == b;
    } else if a >= 0 && b < 0 {
        assert(q * b == bb * q0) by (nonlinear_arith) requires q == -q0, bb == -b;
    } else if a < 0 && b > 0 {
        assert(q * b == -(bb * q0)) by (nonlinear_arith) requires q == -q0, bb == b;
    } else {
        assert(q * b == -(bb * q0)) by (nonlinear_arith) requires q == q0, bb == -b;
    }
}

/// The machine's integer division rounds toward zero: for a nonzero
/// divisor and a quotient in range, it writes the `q` with `x = q * y + r`,
/// `r` smaller than `y` in size and zero or of the sign of `x`.
pub proof fn law_machine_int_division(p: &Program, s: VmV, dst: usize, a: usize, b: usize, x: i64, y: i64)
    requires
        reg(s, a) == Value::Int(x),
        reg(s, b) == Value::Int(y),
        y != 0,
        !(x == i64::MIN && y == -1),
    ensures
        exists|q: i64| {
            &&& #[trigger] instr_spec(p, s, Instruction::Div { dst, src1: a, src2: b }) == (set_reg(moved_on(s), dst, Value::Int(q)), StepOutV::Continue)
            &&& instr_spec(p, s, Instruction::DivImm { dst, src: a, imm: y }) == (set_reg(moved_on(s), dst, Value::Int(q)), StepOutV::Continue)
            &&& (if x - q * y < 0 { -(x - q * y) } else { x - q * y }) < (if y < 0 { -(y as int) } else { y as int })
            &&& (x - q * y == 0 || (x - q * y < 0) == (x < 0))
        },
{
    law_truncating_division(x as int, y as int);
    let qi = crate::arith::tdiv(x as int, y as int);
    let aa: int = if x < 0 { -(x as int) } else { x as int };
    let bb: int = if y < 0 { -(y as int) } else { y as int };
    assert(aa / bb <= aa) by {
        vstd::arithmetic::div_mod::lemma_div_is_ordered_by_denominator(aa, 1, bb);
    }
    assert(aa / bb >= 0) by {
        vstd::arithmetic::div_mod::lemma_div_pos_is_pos(aa, bb);
    }
    if x == i64::MIN && y < 0 {
        assert(bb >= 2);
        vstd::arithmetic::div_mod::lemma_div_is_ordered_by_denominator(aa, 2, bb);
        assert(aa / 2 == 0x4000_0000_0000_0000);
    }
    assert(crate::arith::in_i64(qi));
    assert(reg(moved_on(s), a) == reg(s, a));
    assert(reg(moved_on(s), b) == reg(s, b));
    let q = qi as i64;
    assert(instr_spec(p, s, Instruction::Div { dst, src1: a, src2: b }) == (set_reg(moved_on(s), dst, Value::Int(q)), StepOutV::Continue));
}

/// Compiling `m op n` for two variables `m`, `n` emits, as its last
/// instruction, one that reads `m`'s register as the left operand and
/// `n`'s as the right: run where they hold `x` and `y`, it writes `x op y`
/// into the target register. The same holds of `m op k` for an integer
/// literal `k`.
pub proof fn law_compiled_int_operations(env: CEnv, cs: CS, m: Seq<char>, n: Seq<char>, k: i64, op: BinaryOp,
    dst: usize, p: &Program, s: VmV, x: i64, y: i64)
    requires
        !env.funcs.contains_key(m),
        !env.funcs.contains_key(n),
        cs.regs.contains_key(m),
        cs.regs.contains_key(n),
        dst + 2 <= MAX_REGISTERS,
        cs.regs[m] + 2 <= MAX_REGISTERS,
        reg(s, cs.regs[m]) == Value::Int(x),
        reg(s, cs.regs[n]) == Value::Int(y),
        op is Less || op is LessEq || op is Greater || op is GreaterEq || op is Eq || op is NotEq
            || op is Plus || op is Minus || op is Star,
    ensures
        ({
            let e = ExprV::Binary(Box::new(ExprV::Ident(m)), op, Box::new(ExprV::Ident(n)));
            &&& cexpr(env, cs, e, dst) is Ok
            &&& cexpr(env, cs, e, dst)->Ok_0.1 == dst
            &&& cexpr(env, cs, e, dst)->Ok_0.0.code.len() > 0
            &&& writes_op(p, s, cexpr(env, cs, e, dst)->Ok_0.0.code.last(), dst, op, x, y)
        }),
        ({
            let e = ExprV::Binary(Box::new(ExprV::Ident(m)), op, Box::new(ExprV::Int(k)));
            &&& cexpr(env, cs, e, dst) is Ok
            &&& cexpr(env, cs, e, dst)->Ok_0.1 == dst
            &&& cexpr(env, cs, e, dst)->Ok_0.0.code.len() > 0
            &&& writes_op(p, s, cexpr(env, cs, e, dst)->Ok_0.0.code.last(), dst, op, x, k)
        }),
{
    let xm = cs.regs[m];
    let xn = cs.regs[n];
    lemma_compile_var_var(env, cs, m, n, op, dst);
    lemma_compile_var_imm(env, cs, m, k, op, dst);
    law_machine_int_operations(p, s, dst, xm, xn, x, y);
    law_machine_int_immediates(p, s, dst, xm, x, k);
}

/// A variable read compiles to nothing: its register is the result.
proof fn lemma_compile_var(env: CEnv, cs: CS, m: Seq<char>, dst: usize)
    requires
        !env.funcs.contains_key(m),
        cs.regs.contains_key(m),
        dst + 1 <= MAX_REGISTERS,
    ensures
        cexpr(env, cs, ExprV::Ident(m), dst) is Ok,
        cexpr(env, cs, ExprV::Ident(m), dst)->Ok_0.1 == cs.regs[m],
        cexpr(env, cs, ExprV::Ident(m), dst)->Ok_0.0 == crate::codegen::bump(cs, dst + 1)->Ok_0,
{
}

#[verifier::rlimit(40)]
proof fn lemma_compile_var_var(env: CEnv, cs: CS, m: Seq<char>, n: Seq<char>, op: BinaryOp, dst: usize)
    requires
        !env.funcs.contains_key(m),
        !env.funcs.contains_key(n),
        cs.regs.contains_key(m),
        cs.regs.contains_key(n),
        dst + 2 <= MAX_REGISTERS,
        cs.regs[m] + 2 <= MAX_REGISTERS,
        !(op is And || op is Or),
    ensures
        ({
            let e = ExprV::Binary(Box::new(ExprV::Ident(m)), op, Box::new(ExprV::Ident(n)));
            &&& cexpr(env, cs, e, dst) is Ok
            &&& cexpr(env, cs, e, dst)->Ok_0.1 == dst
            &&& cexpr(env, cs, e, dst)->Ok_0.0.code.len() > 0
            &&& cexpr(env, cs, e, dst)->Ok_0.0.code.last() == crate::codegen::op_instr(op, dst, cs.regs[m], cs.regs[n])
        }),
{
    let e = ExprV::Binary(Box::new(ExprV::Ident(m)), op, Box::new(ExprV::Ident(n)));
    let cs0 = crate::codegen::bump(cs, dst + 1)->Ok_0;
    assert(crate::codegen::eval_const(ExprV::Ident(m)) == Ok::<Option<crate::codegen::ConstV>, Seq<char>>(None));
    lemma_compile_var(env, cs0, m, dst);
    let cs1 = crate::codegen::bump(cs0, dst + 1)->Ok_0;
    assert(cs1.regs == cs.regs);
    let cs1r = crate::codegen::bump(cs1, dst + 2)->Ok_0;
    let t = crate::codegen::after(cs.regs[m], dst) as usize;
    lemma_compile_var(env, cs1r, n, t);
    assert(crate::codegen::cbinary(env, cs0, e, dst) is Ok);
}

#[verifier::rlimit(40)]
proof fn lemma_compile_var_imm(env: CEnv, cs: CS, m: Seq<char>, k: i64, op: BinaryOp, dst: usize)
    requires
        !env.funcs.contains_key(m),
        cs.regs.contains_key(m),
        dst + 2 <= MAX_REGISTERS,
        !(op is And || op is Or || op is Slash),
    ensures
        ({
            let e = ExprV::Binary(Box::new(ExprV::Ident(m)), op, Box::new(ExprV::Int(k)));
            &&& cexpr(env, cs, e, dst) is Ok
            &&& cexpr(env, cs, e, dst)->Ok_0.1 == dst
            &&& cexpr(env, cs, e, dst)->Ok_0.0.code.len() > 0
            &&& cexpr(env, cs, e, dst)->Ok_0.0.code.last() == crate::codegen::imm_instr(op, dst, cs.regs[m], k)
        }),
{
    let e = ExprV::Binary(Box::new(ExprV::Ident(m)), op, Box::new(ExprV::Int(k)));
    let cs0 = crate::codegen::bump(cs, dst + 1)->Ok_0;
    assert(crate::codegen::eval_const(ExprV::Ident(m)) == Ok::<Option<crate::codegen::ConstV>, Seq<char>>(None));
    lemma_compile_var(env, cs0, m, dst);
    assert(crate::codegen::cbinary(env, cs0, e, dst) is Ok);
}

/// Instruction `i`, run in `s`, writes `x op y` into `dst` and goes on (for
/// `+`, `-` and `*` where the result is a 64-bit integer).
pub open spec fn writes_op(p: &Program, s: VmV, i: Instruction, dst: usize, op: BinaryOp, x: i64, y: i64) -> bool {
    match op {
        BinaryOp::Less => instr_spec(p, s, i) == (set_reg(moved_on(s), dst, Value::Bool(x < y)), StepOutV::Continue),
        BinaryOp::LessEq => instr_spec(p, s, i) == (set_reg(moved_on(s), dst, Value::Bool(x <= y)), StepOutV::Continue),
        BinaryOp::Greater => instr_spec(p, s, i) == (set_reg(moved_on(s), dst, Value::Bool(x > y)), StepOutV::Continue),
        BinaryOp::GreaterEq => instr_spec(p, s, i) == (set_reg(moved_on(s), dst, Value::Bool(x >= y)), StepOutV::Continue),
        BinaryOp::Eq => instr_spec(p, s, i) == (set_reg(moved_on(s), dst, Value::Bool(x == y)), StepOutV::Continue),
        BinaryOp::NotEq => instr_spec(p, s, i) == (set_reg(moved_on(s), dst, Value::Bool(x != y)), StepOutV::Continue),
        BinaryOp::Plus => i64::MIN <= x + y <= i64::MAX
            ==> instr_spec(p, s, i) == (set_reg(moved_on(s), dst, Value::Int((x + y) as i64)), StepOutV::Continue),
        BinaryOp::Minus => i64::MIN <= x - y <= i64::MAX
            ==> instr_spec(p, s, i) == (set_reg(moved_on(s), dst, Value::Int((x - y) as i64)), StepOutV::Continue),
        BinaryOp::Star => i64::MIN <= x * y <= i64::MAX
            ==> instr_spec(p, s, i) == (set_reg(moved_on(s), dst, Value::Int((x * y) as i64)), StepOutV::Continue),
        _ => true,
    }
}

/// A compound assignment to a variable, `n op= e`, parses as `n = n op e`,
/// with the operator that the token names: `+=` plus, `-=` minus, `*=`
/// times, `/=` divide.
pub proof fn law_compound_assignment_parses(ts: Seq<TokenInfoV>, f: Option<Seq<char>>, i: int, n: Seq<char>,
    rhs: ExprV, k: int)
    requires
        0 <= i,
        i + 2 < ts.len(),
        ts[i].token == TokenV::Ident(n),
        ts[i + 1].token is PlusEq || ts[i + 1].token is MinusEq || ts[i + 1].token is StarEq || ts[i + 1].token is SlashEq,
        p_expr(ts, f, i + 2) == Ok::<(ExprV, int), Seq<char>>((rhs, k)),
    ensures
        p_expr(ts, f, i) == Ok::<(ExprV, int), Seq<char>>((ExprV::Assign(
            Box::new(ExprV::Ident(n)),
            Box::new(ExprV::Binary(
                Box::new(ExprV::Ident(n)),
                if ts[i + 1].token is PlusEq { BinaryOp::Plus }
                else if ts[i + 1].token is MinusEq { BinaryOp::Minus }
                else if ts[i + 1].token is StarEq { BinaryOp::Star }
                else { BinaryOp::Slash },
                Box::new(rhs)))), k)),
{
    lemma_ident_operand(ts, f, 0, i, n);
}

/// A name followed by an assignment token is, at every precedence level,
/// just the name.
proof fn lemma_ident_operand(ts: Seq<TokenInfoV>, f: Option<Seq<char>>, l: nat, i: int, n: Seq<char>)
    requires
        0 <= i,
        i + 1 < ts.len(),
        l <= 4,
        ts[i].token == TokenV::Ident(n),
        ts[i + 1].token is PlusEq || ts[i + 1].token is MinusEq || ts[i + 1].token is StarEq || ts[i + 1].token is SlashEq,
    ensures
        crate::grammar::p_bin(ts, f, l, i) == Ok::<(ExprV, int), Seq<char>>((ExprV::Ident(n), i + 1)),
    decreases 4 - l,
{
    if l < 4 {
        lemma_ident_operand(ts, f, l + 1, i, n);
    }
    assert(crate::grammar::next(ts, f, i) == Ok::<int, Seq<char>>(i + 1));
    assert(crate::grammar::p_primary(ts, f, i) == Ok::<(ExprV, int), Seq<char>>((ExprV::Ident(n), i + 1)));
    assert(crate::grammar::p_postfix(ts, f, i + 1, ExprV::Ident(n)) == Ok::<(ExprV, int), Seq<char>>((ExprV::Ident(n), i + 1)));
    assert(crate::grammar::p_factor(ts, f, i) == Ok::<(ExprV, int), Seq<char>>((ExprV::Ident(n), i + 1)));
    assert(crate::grammar::bin_op(l, ts[i + 1].token) is None);
}

/// The number of times `c` occurs in `s`.
pub open spec fn occurrences(s: Seq<char>, c: char) -> nat
    decreases s.len(),
{
    if s.len() == 0 { 0 } else { (if s[0] == c { 1nat } else { 0nat }) + occurrences(s.drop_first(), c) }
}

/// Replacing a character `c` by a text `to` that does not hold `c` leaves
/// no `c`, and every `c` of `s` has turned into `to`: the result is as long
/// as `s` with each `c` counted as `to`'s length.
pub proof fn law_replace_character(s: Seq<char>, c: char, to: Seq<char>)
    requires
        !to.contains(c),
    ensures
        !replace_spec(s, seq![c], to).contains(c),
        replace_spec(s, seq![c], to).len() == s.len() - occurrences(s, c) + occurrences(s, c) * to.len(),
    decreases s.len(),
{
    let r = replace_spec(s, seq![c], to);
    if s.len() > 0 {
        law_replace_character(s.drop_first(), c, to);
        let rest = replace_spec(s.drop_first(), seq![c], to);
        assert(s.skip(1) =~= s.drop_first());
        if s[0] == c {
            assert(s.subrange(0, 1) =~= seq![c]);
            assert(r == to + rest);
            assert forall|j: int| 0 <= j < r.len() implies r[j] != c by {
                if j < to.len() {
                    assert(r[j] == to[j]);
                } else {
                    assert(r[j] == rest[j - to.len()]);
                }
            }
        } else {
            assert(s.subrange(0, 1) != seq![c]) by {
                assert(s.subrange(0, 1)[0] == s[0]);
            }
            assert(r == seq![s[0]] + rest);
            assert forall|j: int| 0 <= j < r.len() implies r[j] != c by {
                if j > 0 {
                    assert(r[j] == rest[j - 1]);
                }
            }
        }
        let o: int = occurrences(s.drop_first(), c) as int;
        let e: int = if s[0] == c { 1 } else { 0 };
        let tl: int = to.len() as int;
        assert(occurrences(s, c) == e + o);
        assert(rest.len() == s.len() - 1 - o + o * tl);
        if s[0] == c {
            assert(r.len() == tl + rest.len());
            assert((1 + o) * tl == tl + o * tl) by (nonlinear_arith);
            assert(r.len() == s.len() - (1 + o) + (1 + o) * tl);
        } else {
            assert(r.len() == 1 + rest.len());
            assert(r.len() == s.len() - o + o * tl);
        }
    } else {
        assert(r == s);
        assert(occurrences(s, c) == 0);
        assert(0 * to.len() == 0);
    }
}

/// Replacing a pattern that does not occur in `s` gives `s` back.
pub proof fn law_replace_absent(s: Seq<char>, from: Seq<char>, to: Seq<char>)
    requires
        from.len() > 0,
        forall|i: int| 0 <= i && i + from.len() <= s.len() ==> #[trigger] s.subrange(i, i + from.len()) != from,
    ensures
        replace_spec(s, from, to) == s,
    decreases s.len(),
{
    if s.len() > 0 {
        let t = s.drop_first();
        assert forall|i: int| 0 <= i && i + from.len() <= t.len() implies #[trigger] t.subrange(i, i + from.len()) != from by {
            assert(t.subrange(i, i + from.len()) =~= s.subrange(i + 1, i + 1 + from.len()));
        }
        law_replace_absent(t, from, to);
        assert(seq![s[0]] + t =~= s);
    }
}

/// Integer parsing reads the sign: a leading `-` negates the value of the
/// digits and a leading `+` keeps it; appending a digit `d` to a digit
/// string multiplies its value by ten and adds `d`.
pub proof fn law_parse_int_sign_and_digits(ds: Seq<char>, d: char)
    requires
        ds.len() > 0,
        forall|i: int| 0 <= i < ds.len() ==> '0' <= #[trigger] ds[i] <= '9',
        '0' <= d <= '9',
    ensures
        parse_i64_spec(ds) is Some ==> parse_i64_spec(seq!['-'] + ds) == Some((-parse_i64_spec(ds)->0) as i64)
            && parse_i64_spec(seq!['+'] + ds) == parse_i64_spec(ds),
        parse_i64_spec(seq![d]) == Some((d as int - '0' as int) as i64),
        parse_i64_spec(ds) is Some && 0 <= parse_i64_spec(ds)->0 * 10 + (d as int - '0' as int) <= i64::MAX
            ==> parse_i64_spec(ds.push(d)) == Some((parse_i64_spec(ds)->0 * 10 + (d as int - '0' as int)) as i64),
{
    let ghost sm = seq!['-'] + ds;
    let ghost sp = seq!['+'] + ds;
    let ghost sd = ds.push(d);
    assert(sm.drop_first() =~= ds);
    assert(sp.drop_first() =~= ds);
    assert(sm[0] == '-');
    assert(sp[0] == '+');
    assert('0' <= ds[0] <= '9');
    assert(ds[0] != '-' && ds[0] != '+');
    assert(sd[0] == ds[0]);
    assert(sd.drop_last() =~= ds);
    assert(sd.last() == d);
    assert(seq![d].drop_last() =~= Seq::<char>::empty());
    assert(seq![d].last() == d);
    assert(seq![d][0] == d);
    assert(crate::strtext::all_digits(ds));
    assert(crate::strtext::all_digits(sd)) by {
        assert forall|i: int| 0 <= i < sd.len() implies '0' <= #[trigger] sd[i] <= '9' by {
            if i < ds.len() {
                assert(sd[i] == ds[i]);
            }
        }
    }
    assert(crate::strtext::all_digits(seq![d]));
    crate::strtext::lemma_digits_nonneg(ds);
    let dv = crate::strtext::digits_value(ds);
    assert(crate::strtext::digits_value(seq![d].drop_last()) == 0);
    assert(crate::strtext::digits_value(seq![d]) == d as int - '0' as int);
    assert(crate::strtext::digits_value(sd) == dv * 10 + (d as int - '0' as int));
    if parse_i64_spec(ds) is Some {
        assert(crate::arith::in_i64(dv));
        assert(parse_i64_spec(ds) == Some(dv as i64));
        assert(crate::arith::in_i64(-dv));
        assert(parse_i64_spec(sm) == Some((-dv) as i64));
        assert(parse_i64_spec(sp) == Some(dv as i64));
        if 0 <= dv * 10 + (d as int - '0' as int) <= i64::MAX {
            assert(parse_i64_spec(sd) == Some((dv * 10 + (d as int - '0' as int)) as i64));
        }
    }
}

/// The parts joined back together, with `d` between each two.
pub open spec fn joined(parts: Seq<Seq<char>>, d: Seq<char>) -> Seq<char>
    decreases parts.len(),
{
    if parts.len() == 0 {
        Seq::empty()
    } else if parts.len() == 1 {
        parts[0]
    } else {
        parts[0] + d + joined(parts.drop_first(), d)
    }
}

proof fn lemma_split_scan(s: Seq<char>, d: Seq<char>, start: int, i: int)
    requires
        d.len() > 0,
        0 <= start <= i <= s.len(),
        forall|j: int| start <= j < i ==> !#[trigger] crate::strtext::match_at(s, d, j),
    ensures
        crate::strtext::split_scan(s, d, start, i).len() > 0,
        joined(crate::strtext::split_scan(s, d, start, i), d) == s.subrange(start, s.len() as int),
        forall|k: int, j: int| 0 <= k < crate::strtext::split_scan(s, d, start, i).len()
            && 0 <= j && j + d.len() <= crate::strtext::split_scan(s, d, start, i)[k].len()
            ==> #[trigger] crate::strtext::split_scan(s, d, start, i)[k].subrange(j, j + d.len()) != d,
    decreases s.len() - i,
{
    let ps = crate::strtext::split_scan(s, d, start, i);
    if i >= s.len() {
        assert(ps == seq![s.subrange(start, s.len() as int)]);
        assert forall|k: int, j: int| 0 <= k < ps.len() && 0 <= j && j + d.len() <= ps[k].len()
            implies #[trigger] ps[k].subrange(j, j + d.len()) != d by {
            assert(ps[k].subrange(j, j + d.len()) =~= s.subrange(start + j, start + j + d.len()));
            assert(!crate::strtext::match_at(s, d, start + j));
        }
    } else if crate::strtext::match_at(s, d, i) {
        let rest = crate::strtext::split_scan(s, d, i + d.len(), i + d.len());
        lemma_split_scan(s, d, i + d.len(), i + d.len());
        let first = s.subrange(start, i);
        assert(ps == seq![first] + rest);
        assert(ps.drop_first() =~= rest);
        assert(ps.len() >= 2);
        assert(joined(ps, d) == first + d + joined(rest, d));
        assert(s.subrange(i, i + d.len()) == d);
        assert(first + d + s.subrange(i + d.len(), s.len() as int) =~= s.subrange(start, s.len() as int));
        assert forall|k: int, j: int| 0 <= k < ps.len() && 0 <= j && j + d.len() <= ps[k].len()
            implies #[trigger] ps[k].subrange(j, j + d.len()) != d by {
            if k == 0 {
                assert(ps[0] == first);
                assert(first.subrange(j, j + d.len()) =~= s.subrange(start + j, start + j + d.len()));
                assert(!crate::strtext::match_at(s, d, start + j));
            } else {
                assert(ps[k] == rest[k - 1]);
                assert(rest[k - 1].subrange(j, j + d.len()) != d);
            }
        }
    } else {
        lemma_split_scan(s, d, start, i + 1);
    }
}

/// Splitting at a nonempty separator and joining the parts with it gives
/// the text back, and no part holds the separator.
pub proof fn law_split_then_join(s: Seq<char>, d: Seq<char>)
    requires
        d.len() > 0,
    ensures
        joined(crate::strtext::split_spec(s, d), d) == s,
        forall|k: int, j: int| 0 <= k < crate::strtext::split_spec(s, d).len()
            && 0 <= j && j + d.len() <= crate::strtext::split_spec(s, d)[k].len()
            ==> #[trigger] crate::strtext::split_spec(s, d)[k].subrange(j, j + d.len()) != d,
{
    lemma_split_scan(s, d, 0, 0);
    assert(s.subrange(0, s.len() as int) =~= s);
}

proof fn lemma_lead_ws_bound(s: Seq<char>)
    ensures
        lead_ws_le(s),
    decreases s.len(),
{
    if s.len() > 0 && crate::strtext::is_ws(s[0]) {
        lemma_lead_ws_bound(s.drop_first());
        assert forall|j: int| 0 <= j < crate::strtext::lead_ws(s) implies crate::strtext::is_ws(#[trigger] s[j]) by {
            if j > 0 {
                assert(s[j] == s.drop_first()[j - 1]);
            }
        }
    }
}

/// `lead_ws(s)` counts a run of white space at the front of `s`, followed
/// by the end or by a character that is not white space.
pub open spec fn lead_ws_le(s: Seq<char>) -> bool {
    &&& crate::strtext::lead_ws(s) <= s.len()
    &&& forall|j: int| 0 <= j < crate::strtext::lead_ws(s) ==> crate::strtext::is_ws(#[trigger] s[j])
    &&& (crate::strtext::lead_ws(s) < s.len() ==> !crate::strtext::is_ws(s[crate::strtext::lead_ws(s) as int]))
}

proof fn lemma_trail_ws_bound(s: Seq<char>)
    ensures
        crate::strtext::trail_ws(s) <= s.len(),
        forall|j: int| s.len() - crate::strtext::trail_ws(s) <= j < s.len() ==> crate::strtext::is_ws(#[trigger] s[j]),
        crate::strtext::trail_ws(s) < s.len() ==> !crate::strtext::is_ws(s[s.len() - crate::strtext::trail_ws(s) - 1]),
    decreases s.len(),
{
    if s.len() > 0 && crate::strtext::is_ws(s.last()) {
        lemma_trail_ws_bound(s.drop_last());
        assert forall|j: int| s.len() - crate::strtext::trail_ws(s) <= j < s.len() implies crate::strtext::is_ws(#[trigger] s[j]) by {
            if j < s.len() - 1 {
                assert(s[j] == s.drop_last()[j]);
            }
        }
        if crate::strtext::trail_ws(s) < s.len() {
            assert(s[s.len() - crate::strtext::trail_ws(s) - 1] == s.drop_last()[s.drop_last().len() - crate::strtext::trail_ws(s.drop_last()) - 1]);
        }
    }
}

/// Trimming removes exactly the white space at both ends: the text is
/// white space, then the trimmed text, then white space, and the trimmed
/// text is empty or starts and ends with a character that is not white
/// space.
pub proof fn law_trim(s: Seq<char>)
    ensures
        ({
            let t = crate::strtext::trim(s);
            &&& exists|a: int, b: int| 0 <= a <= b <= s.len() && t == s.subrange(a, b)
                && (forall|j: int| 0 <= j < a ==> crate::strtext::is_ws(#[trigger] s[j]))
                && (forall|j: int| b <= j < s.len() ==> crate::strtext::is_ws(#[trigger] s[j]))
            &&& t.len() > 0 ==> !crate::strtext::is_ws(t[0]) && !crate::strtext::is_ws(t.last())
        }),
{
    lemma_lead_ws_bound(s);
    lemma_trail_ws_bound(s);
    let a = crate::strtext::lead_ws(s) as int;
    let b = s.len() - crate::strtext::trail_ws(s);
    let t = crate::strtext::trim(s);
    if a == s.len() {
        assert(t == s.subrange(a, a));
        assert(t =~= s.subrange(a, a));
    } else {
        assert(!crate::strtext::is_ws(s[a]));
        assert(a < b) by {
            if b <= a {
                assert(crate::strtext::is_ws(s[a]));
            }
        }
        assert(t == s.subrange(a, b));
        assert(t[0] == s[a]);
        assert(t.last() == s[b - 1]);
    }
}

/// The token read at a lexer position that holds an operator character:
/// `c` alone, or `c` followed by `=` as one two-character operator.
pub open spec fn op_token(c: char, eq: bool) -> Option<TokenV> {
    if c == '<' { Some(if eq { TokenV::LessEq } else { TokenV::Less }) }
    else if c == '>' { Some(if eq { TokenV::GreaterEq } else { TokenV::Greater }) }
    else if c == '=' { Some(if eq { TokenV::Eq } else { TokenV::Assign }) }
    else if c == '*' { Some(if eq { TokenV::StarEq } else { TokenV::Star }) }
    else if c == '+' && eq { Some(TokenV::PlusEq) }
    else if c == '-' && eq { Some(TokenV::MinusEq) }
    else if c == '/' && eq { Some(TokenV::SlashEq) }
    else if c == '!' && eq { Some(TokenV::NotEq) }
    else { None }
}

/// The comparison, assignment and arithmetic-assignment operators lex as
/// the tokens they spell, at the position and line and column where they
/// start: `<`, `<=`, `>`, `>=`, `=`, `==`, `!=`, `*`, `*=`, `+=`, `-=`, `/=`.
pub proof fn law_operator_tokens(s: LexerV)
    requires
        0 <= s.pos,
        s.pos + 1 < s.text.len(),
        op_token(s.text[s.pos], s.text[s.pos + 1] == '=') is Some,
    ensures
        scan(s).1 == Ok::<TokenInfoV, Seq<char>>(TokenInfoV {
            token: op_token(s.text[s.pos], s.text[s.pos + 1] == '=')->0,
            line: s.line,
            col: s.col,
        }),
{
    let c = s.text[s.pos];
    assert(!crate::strtext::is_ws(c));
    assert(char_at(s.text, s.pos + 1) == Some(s.text[s.pos + 1]));
    assert(!crate::lexer::ascii_digit(c));
    assert(!crate::lexer::word_start(c));
}

/// The machine's control and data moves: `null` and `false` are the only
/// false values; a conditional jump goes to its target exactly when its
/// condition says so, and otherwise on to the next instruction; `not`
/// writes the negated truth of its operand, `-` the negated integer, a copy
/// the value of its source, and the loads their constants.
pub proof fn law_machine_control(p: &Program, s: VmV, dst: usize, src: usize, target: usize, v: Value, x: i64)
    requires
        reg(s, src) == v,
    ensures
        instr_spec(p, s, Instruction::Jump { target }).0.pc == target,
        instr_spec(p, s, Instruction::JumpIfFalse { target, src }).0.pc
            == (if v is Null || v == Value::Bool(false) { target } else { (s.pc + 1) as usize }),
        instr_spec(p, s, Instruction::JumpIfTrue { target, src }).0.pc
            == (if v is Null || v == Value::Bool(false) { (s.pc + 1) as usize } else { target }),
        instr_spec(p, s, Instruction::JumpIfFalse { target, src }).0.stack == s.stack,
        instr_spec(p, s, Instruction::JumpIfTrue { target, src }).0.stack == s.stack,
        instr_spec(p, s, Instruction::Not { dst, src })
            == (set_reg(moved_on(s), dst, Value::Bool(v is Null || v == Value::Bool(false))), StepOutV::Continue),
        instr_spec(p, s, Instruction::Copy { dst, src }) == (set_reg(moved_on(s), dst, v), StepOutV::Continue),
        instr_spec(p, s, Instruction::LoadInt { dst, value: x }) == (set_reg(moved_on(s), dst, Value::Int(x)), StepOutV::Continue),
        instr_spec(p, s, Instruction::LoadBool { dst, value: true }) == (set_reg(moved_on(s), dst, Value::Bool(true)), StepOutV::Continue),
        instr_spec(p, s, Instruction::LoadNull { dst }) == (set_reg(moved_on(s), dst, Value::Null), StepOutV::Continue),
        v == Value::Int(x) && x != i64::MIN
            ==> instr_spec(p, s, Instruction::Neg { dst, src }) == (set_reg(moved_on(s), dst, Value::Int((-x) as i64)), StepOutV::Continue),
{
    assert(reg(moved_on(s), src) == reg(s, src));
}

/// The binary operator a token spells.
pub open spec fn spelled_op(t: TokenV) -> Option<BinaryOp> {
    match t {
        TokenV::Or => Some(BinaryOp::Or),
        TokenV::And => Some(BinaryOp::And),
        TokenV::Less => Some(BinaryOp::Less),
        TokenV::LessEq => Some(BinaryOp::LessEq),
        TokenV::Greater => Some(BinaryOp::Greater),
        TokenV::GreaterEq => Some(BinaryOp::GreaterEq),
        TokenV::Eq => Some(BinaryOp::Eq),
        TokenV::NotEq => Some(BinaryOp::NotEq),
        TokenV::Plus => Some(BinaryOp::Plus),
        TokenV::Minus => Some(BinaryOp::Minus),
        TokenV::Star => Some(BinaryOp::Star),
        TokenV::Slash => Some(BinaryOp::Slash),
        _ => None,
    }
}

/// The precedence level of an operator token: `or` binds loosest, then
/// `and`, comparisons, `+ -`, and `* /` tightest.
pub open spec fn op_level(t: TokenV) -> nat {
    match t {
        TokenV::Or => 0,
        TokenV::And => 1,
        TokenV::Plus | TokenV::Minus => 3,
        TokenV::Star | TokenV::Slash => 4,
        _ => 2,
    }
}

/// A token that no expression continues with.
pub open spec fn ends_expr(t: TokenV) -> bool {
    t is Semicolon || t is RParen || t is Comma || t is RBracket || t is RBrace
}

proof fn lemma_name_factor(ts: Seq<TokenInfoV>, f: Option<Seq<char>>, i: int, n: Seq<char>)
    requires
        0 <= i,
        i + 1 < ts.len(),
        ts[i].token == TokenV::Ident(n),
        ends_expr(ts[i + 1].token) || spelled_op(ts[i + 1].token) is Some,
    ensures
        crate::grammar::p_factor(ts, f, i) == Ok::<(ExprV, int), Seq<char>>((ExprV::Ident(n), i + 1)),
{
    assert(crate::grammar::next(ts, f, i) == Ok::<int, Seq<char>>(i + 1));
    assert(crate::grammar::p_primary(ts, f, i) == Ok::<(ExprV, int), Seq<char>>((ExprV::Ident(n), i + 1)));
    assert(crate::grammar::p_postfix(ts, f, i + 1, ExprV::Ident(n)) == Ok::<(ExprV, int), Seq<char>>((ExprV::Ident(n), i + 1)));
}

proof fn lemma_name_at(ts: Seq<TokenInfoV>, f: Option<Seq<char>>, l: nat, i: int, n: Seq<char>)
    requires
        0 <= i,
        i + 1 < ts.len(),
        l <= 4,
        ts[i].token == TokenV::Ident(n),
        ends_expr(ts[i + 1].token) || (spelled_op(ts[i + 1].token) is Some && op_level(ts[i + 1].token) < l),
    ensures
        crate::grammar::p_bin(ts, f, l, i) == Ok::<(ExprV, int), Seq<char>>((ExprV::Ident(n), i + 1)),
    decreases 4 - l,
{
    if l < 4 {
        lemma_name_at(ts, f, l + 1, i, n);
    }
    assert(crate::grammar::next(ts, f, i) == Ok::<int, Seq<char>>(i + 1));
    assert(crate::grammar::p_primary(ts, f, i) == Ok::<(ExprV, int), Seq<char>>((ExprV::Ident(n), i + 1)));
    assert(crate::grammar::p_postfix(ts, f, i + 1, ExprV::Ident(n)) == Ok::<(ExprV, int), Seq<char>>((ExprV::Ident(n), i + 1)));
    assert(crate::grammar::p_factor(ts, f, i) == Ok::<(ExprV, int), Seq<char>>((ExprV::Ident(n), i + 1)));
    assert(crate::grammar::bin_op(l, ts[i + 1].token) is None);
}

proof fn lemma_names_op_at(ts: Seq<TokenInfoV>, f: Option<Seq<char>>, l: nat, i: int, a: Seq<char>, b: Seq<char>)
    requires
        0 <= i,
        i + 3 < ts.len(),
        ts[i].token == TokenV::Ident(a),
        spelled_op(ts[i + 1].token) is Some,
        l <= op_level(ts[i + 1].token),
        ts[i + 2].token == TokenV::Ident(b),
        ends_expr(ts[i + 3].token),
    ensures
        crate::grammar::p_bin(ts, f, l, i) == Ok::<(ExprV, int), Seq<char>>((ExprV::Binary(
            Box::new(ExprV::Ident(a)), spelled_op(ts[i + 1].token)->0, Box::new(ExprV::Ident(b))), i + 3)),
    decreases op_level(ts[i + 1].token) - l,
{
    let lv = op_level(ts[i + 1].token);
    let e = ExprV::Binary(Box::new(ExprV::Ident(a)), spelled_op(ts[i + 1].token)->0, Box::new(ExprV::Ident(b)));
    assert(crate::grammar::bin_op(l, ts[i + 3].token) is None);
    if l < lv {
        lemma_names_op_at(ts, f, l + 1, i, a, b);
        assert(crate::grammar::p_operand(ts, f, l, i) == Ok::<(ExprV, int), Seq<char>>((e, i + 3)));
    } else {
        assert(crate::grammar::bin_op(l, ts[i + 1].token) == spelled_op(ts[i + 1].token));
        assert(crate::grammar::next(ts, f, i + 1) == Ok::<int, Seq<char>>(i + 2));
        if l < 4 {
            lemma_name_at(ts, f, l + 1, i, a);
            lemma_name_at(ts, f, l + 1, i + 2, b);
        } else {
            lemma_name_factor(ts, f, i, a);
            lemma_name_factor(ts, f, i + 2, b);
            assert(crate::grammar::p_operand(ts, f, l, i) == crate::grammar::p_factor(ts, f, i));
            assert(crate::grammar::p_operand(ts, f, l, i + 2) == crate::grammar::p_factor(ts, f, i + 2));
        }
        assert(crate::grammar::p_operand(ts, f, l, i) == Ok::<(ExprV, int), Seq<char>>((ExprV::Ident(a), i + 1)));
        assert(crate::grammar::p_operand(ts, f, l, i + 2) == Ok::<(ExprV, int), Seq<char>>((ExprV::Ident(b), i + 3)));
        assert(crate::grammar::p_tail(ts, f, l, i + 3, e) == Ok::<(ExprV, int), Seq<char>>((e, i + 3)));
        assert(crate::grammar::p_tail(ts, f, l, i + 1, ExprV::Ident(a)) == Ok::<(ExprV, int), Seq<char>>((e, i + 3)));
    }
}

/// A binary operation between two names, `a op b`, parses as that
/// operation with `a` on the left, `b` on the right, and the operator the
/// token spells.
pub proof fn law_binary_operation_parses(ts: Seq<TokenInfoV>, f: Option<Seq<char>>, i: int, a: Seq<char>, b: Seq<char>)
    requires
        0 <= i,
        i + 3 < ts.len(),
        ts[i].token == TokenV::Ident(a),
        spelled_op(ts[i + 1].token) is Some,
        ts[i + 2].token == TokenV::Ident(b),
        ends_expr(ts[i + 3].token),
    ensures
        p_expr(ts, f, i) == Ok::<(ExprV, int), Seq<char>>((ExprV::Binary(
            Box::new(ExprV::Ident(a)), spelled_op(ts[i + 1].token)->0, Box::new(ExprV::Ident(b))), i + 3)),
{
    lemma_names_op_at(ts, f, 0, i, a, b);
    assert(crate::grammar::assign_op(ts[i + 3].token) is None);
}

/// `slice` on an array copies the entries from the start index up to, not
/// including, the end index (the end of the array when none is given); a
/// negative start counts from the end of the array.
pub proof fn law_array_slice(h: Seq<ObjV>, x: usize, st: i64, en: i64)
    requires
        x < h.len() && h[x as int] is Array,
        arr_of(h, x).len() <= MAX_ARRAY_SIZE,
    ensures
        ({
            let v = arr_of(h, x);
            &&& 0 <= st <= en <= v.len() ==> slice_spec(h, seq![Value::Array(x), Value::Int(st), Value::Int(en)])
                == (h.push(ObjV::Array(v.subrange(st as int, en as int))), NativeOutV::Value(Value::Array(h.len() as usize)))
            &&& 0 <= st <= v.len() ==> slice_spec(h, seq![Value::Array(x), Value::Int(st)])
                == (h.push(ObjV::Array(v.subrange(st as int, v.len() as int))), NativeOutV::Value(Value::Array(h.len() as usize)))
            &&& -(v.len() as int) <= st < 0 ==> slice_spec(h, seq![Value::Array(x), Value::Int(st)])
                == (h.push(ObjV::Array(v.subrange(v.len() + st, v.len() as int))), NativeOutV::Value(Value::Array(h.len() as usize)))
        }),
{
    let v = arr_of(h, x);
    assert(v.len() as usize as i64 == v.len());
}

/// The byte length of text adds up over concatenation, and a character
/// takes one byte below U+0080, two below U+0800, three below U+10000 and
/// four above: `len` on a string counts its UTF-8 bytes.
pub proof fn law_utf8_length(s: Seq<char>, t: Seq<char>, c: char)
    ensures
        utf8_len(s + t) == utf8_len(s) + utf8_len(t),
        utf8_len(seq![c]) == (if (c as u32) < 0x80 { 1int } else if (c as u32) < 0x800 { 2int }
            else if (c as u32) < 0x10000 { 3int } else { 4int }),
    decreases t.len(),
{
    assert(seq![c].drop_last() =~= Seq::<char>::empty());
    assert(utf8_len(seq![c].drop_last()) == 0);
    assert(seq![c].last() == c);
    assert(utf8_len(seq![c]) == crate::strtext::utf8_width(c));
    if t.len() > 0 {
        law_utf8_length(s, t.drop_last(), c);
        assert((s + t).drop_last() =~= s + t.drop_last());
        assert((s + t).last() == t.last());
    } else {
        assert(s + t =~= s);
    }
}

/// An error's type is the text of its message before the first `:`.
pub proof fn law_error_type_before_colon(t: Seq<char>, rest: Seq<char>)
    requires
        !t.contains(':'),
    ensures
        crate::vm::error_type(t + seq![':'] + rest) == t,
    decreases t.len(),
{
    let m = t + seq![':'] + rest;
    assert(m[t.len() as int] == ':');
    assert(m.contains(':'));
    lemma_before_colon(t, rest);
}

proof fn lemma_before_colon(t: Seq<char>, rest: Seq<char>)
    requires
        !t.contains(':'),
    ensures
        crate::vm::before_colon(t + seq![':'] + rest) == t,
    decreases t.len(),
{
    let m = t + seq![':'] + rest;
    if t.len() == 0 {
        assert(m[0] == ':');
    } else {
        assert(m[0] == t[0]);
        assert(t[0] != ':');
        assert(!t.drop_first().contains(':')) by {
            if t.drop_first().contains(':') {
                let j = choose|j: int| 0 <= j < t.drop_first().len() && t.drop_first()[j] == ':';
                assert(t[j + 1] == ':');
            }
        }
        lemma_before_colon(t.drop_first(), rest);
        assert(m.drop_first() =~= t.drop_first() + seq![':'] + rest);
        assert(seq![t[0]] + t.drop_first() =~= t);
    }
}

/// Handler `h` of the failing function catches an error of type `ty`
/// raised at instruction `pc`: `pc` lies in its range, and it catches
/// every type or names `ty`.
pub open spec fn catches(h: crate::bytecode::HandlerV, pc: int, ty: Seq<char>) -> bool {
    h.start_pc <= pc && pc < h.end_pc && (h.error_types.len() == 0 || h.error_types.contains(ty))
}

proof fn lemma_first_handler(hs: Seq<crate::bytecode::HandlerV>, pc: int, ty: Seq<char>, j: int, k: int)
    requires
        0 <= j <= k < hs.len(),
        catches(hs[k], pc, ty),
        forall|i: int| j <= i < k ==> !#[trigger] catches(hs[i], pc, ty),
    ensures
        crate::vm::find_handler(hs, pc, ty, j) == Some(k),
    decreases k - j,
{
    if j < k {
        assert(!catches(hs[j], pc, ty));
        assert(!crate::vm::handler_matches(hs[j], pc, ty));
        lemma_first_handler(hs, pc, ty, j + 1, k);
    } else {
        assert(crate::vm::handler_matches(hs[k], pc, ty));
    }
}

/// An error raised at an instruction inside a `try` block is caught by the
/// first handler of the function that covers the instruction and catches
/// the error's type: control goes to the handler's catch code, in the same
/// call, with the error's message, as a new string, in the handler's error
/// register.
pub proof fn law_raised_error_is_caught(p: &Program, s: VmV, msg: Seq<char>, k: int)
    requires
        s.pc > 0,
        0 <= k < crate::vm::handlers_of(p, s.func_id).len(),
        catches(crate::vm::handlers_of(p, s.func_id)[k], s.pc - 1, crate::vm::error_type(msg)),
        forall|i: int| 0 <= i < k ==> !#[trigger] catches(crate::vm::handlers_of(p, s.func_id)[i], s.pc - 1, crate::vm::error_type(msg)),
        s.bp + crate::vm::handlers_of(p, s.func_id)[k].err_reg < s.stack.len(),
    ensures
        ({
            let h = crate::vm::handlers_of(p, s.func_id)[k];
            let (t, out) = crate::vm::raise(p, s, msg);
            &&& out == StepOutV::Continue
            &&& t.pc == h.catch_pc
            &&& t.func_id == s.func_id
            &&& t.frames == s.frames
            &&& t.bp == s.bp
            &&& t.heap == s.heap.push(ObjV::Str(msg))
            &&& t.stack == s.stack.update(s.bp + h.err_reg, Value::String(s.heap.len() as usize))
        }),
{
    let hs = crate::vm::handlers_of(p, s.func_id);
    let ty = crate::vm::error_type(msg);
    lemma_first_handler(hs, s.pc - 1, ty, 0, k);
    let s1 = VmV { heap: s.heap.push(ObjV::Str(msg)), ..s };
    assert(crate::vm::handlers_of(p, s1.func_id) == hs);
    assert(crate::vm::ensure_len(s.stack, s.bp + hs[k].err_reg + 1) == s.stack);
}

/// An error that no handler of the running function catches, with no
/// caller to pass it to, ends the run as a fault that carries the error's
/// message and the place where it was raised.
pub proof fn law_uncaught_error_is_a_fault(p: &Program, s: VmV, msg: Seq<char>)
    requires
        s.pc > 0,
        s.frames.len() == 0,
        forall|i: int| 0 <= i < crate::vm::handlers_of(p, s.func_id).len()
            ==> !#[trigger] catches(crate::vm::handlers_of(p, s.func_id)[i], s.pc - 1, crate::vm::error_type(msg)),
    ensures
        crate::vm::raise(p, s, msg).1 == StepOutV::Fault(crate::vm::RuntimeErrorV {
            fault: "Unhandled Exception"@,
            description: msg,
            func_id: s.func_id,
            pc: (s.pc - 1) as usize,
        }),
{
    let hs = crate::vm::handlers_of(p, s.func_id);
    let ty = crate::vm::error_type(msg);
    lemma_no_handler(hs, s.pc - 1, ty, 0);
}

proof fn lemma_no_handler(hs: Seq<crate::bytecode::HandlerV>, pc: int, ty: Seq<char>, j: int)
    requires
        0 <= j <= hs.len(),
        forall|i: int| 0 <= i < hs.len() ==> !#[trigger] catches(hs[i], pc, ty),
    ensures
        crate::vm::find_handler(hs, pc, ty, j) is None,
    decreases hs.len() - j,
{
    if j < hs.len() {
        assert(!catches(hs[j], pc, ty));
        assert(!crate::vm::handler_matches(hs[j], pc, ty));
        lemma_no_handler(hs, pc, ty, j + 1);
    }
}

/// Compiling the assignment `m = n` of one variable to another emits, as
/// its last instruction, one that, run where `n` holds `v`, writes `v` into
/// `m`'s register; the assignment's value is `n`'s.
#[verifier::rlimit(40)]
pub proof fn law_compiled_assignment(env: CEnv, cs: CS, m: Seq<char>, n: Seq<char>, dst: usize, p: &Program, s: VmV, v: Value)
    requires
        !env.funcs.contains_key(n),
        cs.regs.contains_key(m),
        cs.regs.contains_key(n),
        cs.regs[m] != cs.regs[n],
        dst + 1 <= MAX_REGISTERS,
        reg(s, cs.regs[n]) == v,
    ensures
        ({
            let e = ExprV::Assign(Box::new(ExprV::Ident(m)), Box::new(ExprV::Ident(n)));
            &&& cexpr(env, cs, e, dst) is Ok
            &&& cexpr(env, cs, e, dst)->Ok_0.1 == cs.regs[n]
            &&& cexpr(env, cs, e, dst)->Ok_0.0.code.len() > 0
            &&& instr_spec(p, s, cexpr(env, cs, e, dst)->Ok_0.0.code.last())
                == (set_reg(moved_on(s), cs.regs[m], v), StepOutV::Continue)
        }),
{
    let e = ExprV::Assign(Box::new(ExprV::Ident(m)), Box::new(ExprV::Ident(n)));
    let cs0 = crate::codegen::bump(cs, dst + 1)->Ok_0;
    assert(cexpr(env, cs, e, dst) == crate::codegen::cassign(env, cs0, e, dst));
    lemma_compile_var(env, cs0, n, dst);
    let cs1 = cexpr(env, cs0, ExprV::Ident(n), dst)->Ok_0.0;
    assert(cs1.regs == cs.regs);
    assert(crate::codegen::get_var(cs1, m) == Ok::<usize, Seq<char>>(cs.regs[m]));
    let cs2 = crate::codegen::move_to(cs1, cs.regs[m], cs.regs[n]);
    assert(cs2.code.last() == Instruction::Copy { dst: cs.regs[m], src: cs.regs[n] });
    assert(crate::codegen::cassign(env, cs0, e, dst) == Ok::<(CS, usize), Seq<char>>((cs2, cs.regs[n])));
    law_machine_control(p, s, cs.regs[m], cs.regs[n], 0, v, 0);
}

} // verus!
