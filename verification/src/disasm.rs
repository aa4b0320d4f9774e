//! The text form of bytecode: one line per instruction, and the listing of
//! a whole program.
use vstd::prelude::*;
use crate::bytecode::{ExceptionHandler, Function, Instruction, Program};
use crate::fmt::{int_text, nat_digits, push_all, push_i64, push_str, push_u64};
use crate::grammar::debug_str;
use crate::show::{Chunk, Unit, txt, push_chars, push_lit, lemma_lit_concat};
use crate::bytecode::HandlerV;
use crate::vm::{RuntimeError, RuntimeErrorV};

verus! {

/// A mnemonic padded with spaces to ten characters.
pub open spec fn pad(m: Seq<char>) -> Seq<char> {
    if m.len() < 10 { m + Seq::new((10 - m.len()) as nat, |i: int| ' ') } else { m }
}

/// A register operand.
pub open spec fn reg(n: usize) -> Seq<char> {
    "r"@ + nat_digits(n as nat)
}

pub open spec fn hex_up_char(d: nat) -> char {
    if d < 10 { crate::fmt::digit_char(d) }
    else if d == 10 { 'A' } else if d == 11 { 'B' } else if d == 12 { 'C' }
    else if d == 13 { 'D' } else if d == 14 { 'E' } else { 'F' }
}

/// Upper-case hexadecimal digits, without leading zeros.
pub open spec fn hex_up(n: nat) -> Seq<char>
    decreases n,
{
    if n < 16 { seq![hex_up_char(n)] } else { hex_up(n / 16).push(hex_up_char(n % 16)) }
}

/// Upper-case hexadecimal digits, with zeros in front up to four digits.
pub open spec fn hex4(n: nat) -> Seq<char> {
    let d = hex_up(n);
    if d.len() < 4 { Seq::new((4 - d.len()) as nat, |i: int| '0') + d } else { d }
}

pub open spec fn three(m: Seq<char>, d: usize, a: usize, b: usize) -> Seq<char> {
    pad(m) + " "@ + reg(d) + ", "@ + reg(a) + ", "@ + reg(b)
}

pub open spec fn imm_op(m: Seq<char>, d: usize, a: usize, imm: i64) -> Seq<char> {
    pad(m) + " "@ + reg(d) + ", "@ + reg(a) + ", #"@ + int_text(imm as int)
}

pub open spec fn two(m: Seq<char>, d: usize, a: usize) -> Seq<char> {
    pad(m) + " "@ + reg(d) + ", "@ + reg(a)
}

pub open spec fn one(m: Seq<char>, d: usize) -> Seq<char> {
    pad(m) + " "@ + reg(d)
}

/// The name of native `id`, or `?` when there is none.
pub open spec fn native_name(p: &Program, id: usize) -> Seq<char> {
    if id < p.natives@.len() { p.natives@[id as int].name@ } else { "?"@ }
}

/// The constants, functions and strings an instruction's text names exist.
pub open spec fn printable(p: &Program, i: Instruction) -> bool {
    match i {
        Instruction::LoadFloat { index, .. } => index < p.floats@.len(),
        Instruction::LoadString { symbol, .. } => symbol < p.strings@.len(),
        Instruction::LoadSymbol { symbol, .. } => symbol < p.strings@.len(),
        Instruction::Call { func_id, .. } => func_id < p.functions@.len(),
        _ => true,
    }
}

/// The text of an instruction; a float constant's value follows it (see
/// `instr_chunks`).
pub open spec fn instr_text(p: &Program, i: Instruction) -> Seq<char> {
    match i {
        Instruction::LoadNull { dst } => pad("mov"@) + " "@ + reg(dst) + ", null"@,
        Instruction::LoadBool { dst, value } => pad("mov"@) + " "@ + reg(dst) + ", "@ + (if value { "true"@ } else { "false"@ }),
        Instruction::LoadInt { dst, value } => pad("mov"@) + " "@ + reg(dst) + ", #"@ + int_text(value as int),
        Instruction::LoadFloat { dst, .. } => pad("mov"@) + " "@ + reg(dst) + ", #"@,
        Instruction::LoadString { dst, symbol } => pad("mov"@) + " "@ + reg(dst) + ", "@ + debug_str(p.strings@[symbol as int]),
        Instruction::LoadSymbol { dst, symbol } => pad("mov"@) + " "@ + reg(dst) + ", :"@ + p.strings@[symbol as int],
        Instruction::LoadFunction { dst, func_id } => pad("mov"@) + " "@ + reg(dst) + ", func#"@ + nat_digits(func_id as nat),
        Instruction::NewArray { dst } => one("alloc_arr"@, dst),
        Instruction::NewTable { dst } => one("alloc_tab"@, dst),
        Instruction::GetProp { dst, obj, key } => pad("mov"@) + " "@ + reg(dst) + ", ["@ + reg(obj) + " + "@ + reg(key) + "]"@,
        Instruction::SetProp { obj, key, value } => pad("mov"@) + "["@ + reg(obj) + " + "@ + reg(key) + "], "@ + reg(value),
        Instruction::Copy { dst, src } => two("mov"@, dst, src),
        Instruction::Add { dst, src1, src2 } => three("add"@, dst, src1, src2),
        Instruction::Sub { dst, src1, src2 } => three("sub"@, dst, src1, src2),
        Instruction::Mul { dst, src1, src2 } => three("mul"@, dst, src1, src2),
        Instruction::Div { dst, src1, src2 } => three("div"@, dst, src1, src2),
        Instruction::Less { dst, src1, src2 } => three("cmp_lt"@, dst, src1, src2),
        Instruction::LessEq { dst, src1, src2 } => three("cmp_le"@, dst, src1, src2),
        Instruction::Greater { dst, src1, src2 } => three("cmp_gt"@, dst, src1, src2),
        Instruction::GreaterEq { dst, src1, src2 } => three("cmp_ge"@, dst, src1, src2),
        Instruction::Equal { dst, src1, src2 } => three("cmp_eq"@, dst, src1, src2),
        Instruction::NotEq { dst, src1, src2 } => three("cmp_ne"@, dst, src1, src2),
        Instruction::AddImm { dst, src, imm } => imm_op("add_imm"@, dst, src, imm),
        Instruction::SubImm { dst, src, imm } => imm_op("sub_imm"@, dst, src, imm),
        Instruction::MulImm { dst, src, imm } => imm_op("mul_imm"@, dst, src, imm),
        Instruction::DivImm { dst, src, imm } => imm_op("div_imm"@, dst, src, imm),
        Instruction::LessImm { dst, src, imm } => imm_op("cmp_lt_imm"@, dst, src, imm),
        Instruction::LessEqImm { dst, src, imm } => imm_op("cmp_le_imm"@, dst, src, imm),
        Instruction::GreaterImm { dst, src, imm } => imm_op("cmp_gt_imm"@, dst, src, imm),
        Instruction::GreaterEqImm { dst, src, imm } => imm_op("cmp_ge_imm"@, dst, src, imm),
        Instruction::EqualImm { dst, src, imm } => imm_op("cmp_eq_imm"@, dst, src, imm),
        Instruction::NotEqImm { dst, src, imm } => imm_op("cmp_ne_imm"@, dst, src, imm),
        Instruction::Not { dst, src } => two("not"@, dst, src),
        Instruction::Neg { dst, src } => two("neg"@, dst, src),
        Instruction::Jump { target } => pad("jmp"@) + " 0x"@ + hex4(target as nat),
        Instruction::JumpIfFalse { target, src } => pad("jz"@) + " "@ + reg(src) + ", 0x"@ + hex4(target as nat),
        Instruction::JumpIfTrue { target, src } => pad("jnz"@) + " "@ + reg(src) + ", 0x"@ + hex4(target as nat),
        Instruction::Call { func_id, base, count, dst } => pad("call"@) + " "@ + p.functions@[func_id as int].name@ + ", "@
            + reg(base) + ", #"@ + nat_digits(count as nat) + "  ; ret -> "@ + reg(dst),
        Instruction::CallValue { func_reg, base, count, dst } => pad("callv"@) + " "@ + reg(func_reg) + ", "@
            + reg(base) + ", #"@ + nat_digits(count as nat) + "  ; ret -> "@ + reg(dst),
        Instruction::NativeCall { api_id, base, count, dst } => pad("ncall"@) + " native_"@ + native_name(p, api_id) + ", "@
            + reg(base) + ", #"@ + nat_digits(count as nat) + "  ; ret -> "@ + reg(dst),
        Instruction::FastNativeCall { api_id, dst, arg } => pad("fncall"@) + " sys_"@ + native_name(p, api_id) + ", "@
            + reg(dst) + "  ; arg: "@ + reg(arg) + " ret -> "@ + reg(dst),
        Instruction::Return { src } => one("ret"@, src),
        Instruction::Throw { src } => one("throw"@, src),
        Instruction::ForceGC { dst } => one("gc"@, dst),
    }
}

/// The text of an instruction as chunks: a float constant's bits follow
/// the text of a `LoadFloat`.
pub open spec fn instr_chunks(p: &Program, i: Instruction) -> Seq<Chunk> {
    match i {
        Instruction::LoadFloat { index, .. } => txt(instr_text(p, i)).push(Unit::Fl(p.floats@[index as int])),
        _ => txt(instr_text(p, i)),
    }
}


/// The float constant that follows the text of a `LoadFloat`.
pub open spec fn float_part(p: &Program, i: Instruction) -> Seq<Chunk> {
    match i {
        Instruction::LoadFloat { index, .. } => seq![Unit::Fl(p.floats@[index as int])],
        _ => Seq::empty(),
    }
}

/// One line of a listing: the address, the instruction, a newline.
pub open spec fn code_line(p: &Program, pc: nat, i: Instruction) -> Seq<Chunk> {
    txt("  0x"@ + hex4(pc) + "    "@ + instr_text(p, i)) + float_part(p, i) + txt("\n"@)
}

pub open spec fn code_lines(p: &Program, code: Seq<Instruction>) -> Seq<Chunk>
    decreases code.len(),
{
    if code.len() == 0 {
        Seq::empty()
    } else {
        code_lines(p, code.drop_last()) + code_line(p, (code.len() - 1) as nat, code.last())
    }
}

/// One line of the exception table.
pub open spec fn handler_line(h: HandlerV) -> Seq<char> {
    "  ;[0x"@ + hex4(h.start_pc as nat) + " - 0x"@ + hex4(h.end_pc as nat) + "] -> catch at 0x"@ + hex4(h.catch_pc as nat)
        + " (store err in r"@ + nat_digits(h.err_reg as nat) + ")\n"@
}

pub open spec fn handler_lines(hs: Seq<HandlerV>) -> Seq<char>
    decreases hs.len(),
{
    if hs.len() == 0 { Seq::empty() } else { handler_lines(hs.drop_last()) + handler_line(hs.last()) }
}

/// A function's listing: its name and register count, its code, its
/// exception table if it has one, and a blank line.
pub open spec fn func_listing(p: &Program, f: Function) -> Seq<Chunk> {
    txt(f.name@ + ":\n"@ + "  ; registers allocated: "@ + nat_digits(f.num_registers as nat) + "\n"@)
        + code_lines(p, f.code@)
        + (if f.handlers().len() > 0 { txt("  ; exception tables:\n"@ + handler_lines(f.handlers())) } else { Seq::empty() })
        + txt("\n"@)
}

pub open spec fn listing(p: &Program, fs: Seq<Function>) -> Seq<Chunk>
    decreases fs.len(),
{
    if fs.len() == 0 { Seq::empty() } else { listing(p, fs.drop_last()) + func_listing(p, fs.last()) }
}

/// Every instruction of the program can be shown.
pub open spec fn all_printable(p: &Program) -> bool {
    forall|k: int, pc: int| 0 <= k < p.functions@.len() && 0 <= pc < p.functions@[k].code@.len()
        ==> printable(p, #[trigger] p.functions@[k].code@[pc])
}

fn push_handler_line(out: &mut Vec<char>, h: &ExceptionHandler)
    ensures
        final(out)@ == old(out)@ + handler_line(h@),
{
    let ghost o = out@;
    push_str(out, "  ;[0x");
    push_hex4(out, h.start_pc);
    push_str(out, " - 0x");
    push_hex4(out, h.end_pc);
    push_str(out, "] -> catch at 0x");
    push_hex4(out, h.catch_pc);
    push_str(out, " (store err in r");
    push_u64(out, h.err_reg as u64);
    push_str(out, ")\n");
    assert(out@ =~= o + handler_line(h@));
}


/// An instruction's text with a float constant's text (from `ft`, the
/// texts of the program's float constants) in place.
pub open spec fn line_text(p: &Program, ft: Seq<Seq<char>>, i: Instruction) -> Seq<char> {
    match i {
        Instruction::LoadFloat { index, .. } => instr_text(p, i) + ft[index as int],
        _ => instr_text(p, i),
    }
}

/// Text padded with spaces on the right to `w` characters.
pub open spec fn pad_right(t: Seq<char>, w: nat) -> Seq<char> {
    if t.len() < w { t + Seq::new((w - t.len()) as nat, |i: int| ' ') } else { t }
}

/// One line of the instruction dump around the failing instruction.
pub open spec fn dump_line(p: &Program, ft: Seq<Seq<char>>, code: Seq<Instruction>, pc: nat, at: nat) -> Seq<char> {
    if at == pc {
        ">> 0x"@ + hex4(at) + "    "@ + pad_right(line_text(p, ft, code[at as int]), 35) + " <--- CRASH HERE\n"@
    } else {
        "   0x"@ + hex4(at) + "    "@ + line_text(p, ft, code[at as int]) + "\n"@
    }
}

/// The dump lines from `start` up to (not including) `end`.
pub open spec fn dump_lines(p: &Program, ft: Seq<Seq<char>>, code: Seq<Instruction>, pc: nat, start: nat, end: nat) -> Seq<char>
    decreases end - start,
{
    if start >= end { Seq::empty() } else { dump_lines(p, ft, code, pc, start, (end - 1) as nat) + dump_line(p, ft, code, pc, (end - 1) as nat) }
}

pub open spec fn rule() -> Seq<char> {
    "----------------------------------------------------------------"@
}

fn push_dump_line(out: &mut Vec<char>, p: &Program, ft: &Vec<Vec<char>>, fid: usize, pc: usize, i: usize)
    requires
        fid < p.functions@.len(),
        i < p.functions@[fid as int].code@.len(),
        all_printable(p),
        ft@.len() == p.floats@.len(),
    ensures
        final(out)@ == old(out)@ + dump_line(p, ft.deep_view(), p.functions@[fid as int].code@, pc as nat, i as nat),
{
    let f = &p.functions[fid];
    let e_pc = pc;
    let ins = f.code[i];
    assert(printable(p, p.functions@[fid as int].code@[i as int]));
    let mut shown: Vec<char> = Vec::new();
    p.push_instr_text(&mut shown, ins);
    match ins {
        Instruction::LoadFloat { index, .. } => {
            push_all(&mut shown, &ft[index]);
        },
        _ => {},
    }
    assert(shown@ =~= line_text(p, ft.deep_view(), ins));
    if i == e_pc {
        push_str(out, ">> 0x");
        push_hex4(out, i);
        push_str(out, "    ");
        push_all(out, &shown);
        if shown.len() < 35 {
            let ghost o3 = out@;
            let w = 35 - shown.len();
            let mut k: usize = 0;
            while k < w
                invariant
                    k <= w,
                    out@ == o3 + Seq::new(k as nat, |j: int| ' '),
                decreases w - k,
            {
                out.push(' ');
                k = k + 1;
                assert(out@ =~= o3 + Seq::new(k as nat, |j: int| ' '));
            }
        }
        push_str(out, " <--- CRASH HERE\n");
    } else {
        push_str(out, "   0x");
        push_hex4(out, i);
        push_str(out, "    ");
        push_all(out, &shown);
        push_str(out, "\n");
    }
    assert(out@ =~= old(out)@ + dump_line(p, ft.deep_view(), f.code@, pc as nat, i as nat));
}

/// The report of an uncaught runtime error: fault, description, where it
/// happened, and the instructions around it (two before it, one after it).
pub open spec fn error_text(p: &Program, ft: Seq<Seq<char>>, e: RuntimeErrorV) -> Seq<char> {
    let f = p.functions@[e.func_id as int];
    let n = f.code@.len();
    let start: nat = if e.pc >= 2 { (e.pc - 2) as nat } else { 0 };
    let end: nat = if e.pc + 2 <= n { (e.pc + 2) as nat } else { n };
    "\n"@ + rule() + "\n"@ + "FATAL RUNTIME EXCEPTION\n"@ + rule() + "\n"@
        + "Fault       : "@ + e.fault + "\n"@
        + "Description : "@ + e.description + "\n\n"@
        + "Call Stack Trace:\n  -> [0x"@ + hex4(e.pc as nat) + "] in '"@ + f.name@ + "'\n\n"@
        + "Instruction Dump:\n"@
        + dump_lines(p, ft, f.code@, e.pc as nat, start, end)
        + rule() + "\nProcess terminated with exit code 1.\n"@
}

fn push_pad(out: &mut Vec<char>, m: &str)
    ensures
        final(out)@ == old(out)@ + pad(m@),
{
    let c = crate::text::chars_of(m);
    push_all(out, &c);
    if c.len() < 10 {
        let ghost o1 = out@;
        let n = 10 - c.len();
        let mut k: usize = 0;
        while k < n
            invariant
                k <= n,
                n == 10 - m@.len(),
                out@ == o1 + Seq::new(k as nat, |i: int| ' '),
            decreases n - k,
        {
            out.push(' ');
            k = k + 1;
            assert(out@ =~= o1 + Seq::new(k as nat, |i: int| ' '));
        }
        assert(out@ =~= old(out)@ + pad(m@));
    }
}

fn push_reg(out: &mut Vec<char>, n: usize)
    ensures
        final(out)@ == old(out)@ + reg(n),
{
    out.push('r');
    push_u64(out, n as u64);
    proof {
        reveal_strlit("r");
    }
    assert(final(out)@ =~= old(out)@ + reg(n));
}

fn hex_up_char_ex(d: usize) -> (c: char)
    requires
        d < 16,
    ensures
        c == hex_up_char(d as nat),
{
    if d == 0 { '0' } else if d == 1 { '1' } else if d == 2 { '2' } else if d == 3 { '3' }
    else if d == 4 { '4' } else if d == 5 { '5' } else if d == 6 { '6' } else if d == 7 { '7' }
    else if d == 8 { '8' } else if d == 9 { '9' } else if d == 10 { 'A' } else if d == 11 { 'B' }
    else if d == 12 { 'C' } else if d == 13 { 'D' } else if d == 14 { 'E' } else { 'F' }
}

fn push_hex_up(out: &mut Vec<char>, n: usize)
    ensures
        final(out)@ == old(out)@ + hex_up(n as nat),
    decreases n,
{
    if n < 16 {
        out.push(hex_up_char_ex(n));
    } else {
        push_hex_up(out, n / 16);
        out.push(hex_up_char_ex(n % 16));
    }
}

fn push_hex4(out: &mut Vec<char>, n: usize)
    ensures
        final(out)@ == old(out)@ + hex4(n as nat),
{
    let mut d: Vec<char> = Vec::new();
    push_hex_up(&mut d, n);
    assert(d@ =~= hex_up(n as nat));
    if d.len() < 4 {
        let ghost o1 = out@;
        let z = 4 - d.len();
        let mut k: usize = 0;
        while k < z
            invariant
                k <= z,
                out@ == o1 + Seq::new(k as nat, |i: int| '0'),
            decreases z - k,
        {
            out.push('0');
            k = k + 1;
            assert(out@ =~= o1 + Seq::new(k as nat, |i: int| '0'));
        }
    }
    push_all(out, &d);
    assert(final(out)@ =~= old(out)@ + hex4(n as nat));
}

fn push_three(out: &mut Vec<char>, m: &str, d: usize, a: usize, b: usize)
    ensures
        final(out)@ == old(out)@ + three(m@, d, a, b),
{
    push_pad(out, m);
    push_str(out, " ");
    push_reg(out, d);
    push_str(out, ", ");
    push_reg(out, a);
    push_str(out, ", ");
    push_reg(out, b);
    assert(final(out)@ =~= old(out)@ + three(m@, d, a, b));
}

fn push_imm(out: &mut Vec<char>, m: &str, d: usize, a: usize, imm: i64)
    ensures
        final(out)@ == old(out)@ + imm_op(m@, d, a, imm),
{
    push_pad(out, m);
    push_str(out, " ");
    push_reg(out, d);
    push_str(out, ", ");
    push_reg(out, a);
    push_str(out, ", #");
    push_i64(out, imm);
    assert(final(out)@ =~= old(out)@ + imm_op(m@, d, a, imm));
}

fn push_two(out: &mut Vec<char>, m: &str, d: usize, a: usize)
    ensures
        final(out)@ == old(out)@ + two(m@, d, a),
{
    push_pad(out, m);
    push_str(out, " ");
    push_reg(out, d);
    push_str(out, ", ");
    push_reg(out, a);
    assert(final(out)@ =~= old(out)@ + two(m@, d, a));
}

fn push_one(out: &mut Vec<char>, m: &str, d: usize)
    ensures
        final(out)@ == old(out)@ + one(m@, d),
{
    push_pad(out, m);
    push_str(out, " ");
    push_reg(out, d);
    assert(final(out)@ =~= old(out)@ + one(m@, d));
}

impl Program {
    #[verifier::rlimit(60)]
    #[verifier::spinoff_prover]
    fn push_instr_text(&self, out: &mut Vec<char>, i: Instruction)
        requires
            printable(self, i),
        ensures
            final(out)@ == old(out)@ + instr_text(self, i),
    {
        let ghost o = out@;
        match i {
            Instruction::LoadNull { dst } => {
                push_pad(out, "mov"); push_str(out, " "); push_reg(out, dst); push_str(out, ", null");
            },
            Instruction::LoadBool { dst, value } => {
                push_pad(out, "mov"); push_str(out, " "); push_reg(out, dst); push_str(out, ", ");
                if value { push_str(out, "true") } else { push_str(out, "false") }
            },
            Instruction::LoadInt { dst, value } => {
                push_pad(out, "mov"); push_str(out, " "); push_reg(out, dst); push_str(out, ", #"); push_i64(out, value);
            },
            Instruction::LoadFloat { dst, .. } => {
                push_pad(out, "mov"); push_str(out, " "); push_reg(out, dst); push_str(out, ", #");
            },
            Instruction::LoadString { dst, symbol } => {
                push_pad(out, "mov"); push_str(out, " "); push_reg(out, dst); push_str(out, ", ");
                crate::parser::push_debug_str(out, self.strings.get_chars(symbol));
            },
            Instruction::LoadSymbol { dst, symbol } => {
                push_pad(out, "mov"); push_str(out, " "); push_reg(out, dst); push_str(out, ", :");
                push_all(out, self.strings.get_chars(symbol));
            },
            Instruction::LoadFunction { dst, func_id } => {
                push_pad(out, "mov"); push_str(out, " "); push_reg(out, dst); push_str(out, ", func#"); push_u64(out, func_id as u64);
            },
            Instruction::NewArray { dst } => push_one(out, "alloc_arr", dst),
            Instruction::NewTable { dst } => push_one(out, "alloc_tab", dst),
            Instruction::GetProp { dst, obj, key } => {
                push_pad(out, "mov"); push_str(out, " "); push_reg(out, dst); push_str(out, ", [");
                push_reg(out, obj); push_str(out, " + "); push_reg(out, key); push_str(out, "]");
            },
            Instruction::SetProp { obj, key, value } => {
                push_pad(out, "mov"); push_str(out, "["); push_reg(out, obj); push_str(out, " + ");
                push_reg(out, key); push_str(out, "], "); push_reg(out, value);
            },
            Instruction::Copy { dst, src } => push_two(out, "mov", dst, src),
            Instruction::Add { dst, src1, src2 } => push_three(out, "add", dst, src1, src2),
            Instruction::Sub { dst, src1, src2 } => push_three(out, "sub", dst, src1, src2),
            Instruction::Mul { dst, src1, src2 } => push_three(out, "mul", dst, src1, src2),
            Instruction::Div { dst, src1, src2 } => push_three(out, "div", dst, src1, src2),
            Instruction::Less { dst, src1, src2 } => push_three(out, "cmp_lt", dst, src1, src2),
            Instruction::LessEq { dst, src1, src2 } => push_three(out, "cmp_le", dst, src1, src2),
            Instruction::Greater { dst, src1, src2 } => push_three(out, "cmp_gt", dst, src1, src2),
            Instruction::GreaterEq { dst, src1, src2 } => push_three(out, "cmp_ge", dst, src1, src2),
            Instruction::Equal { dst, src1, src2 } => push_three(out, "cmp_eq", dst, src1, src2),
            Instruction::NotEq { dst, src1, src2 } => push_three(out, "cmp_ne", dst, src1, src2),
            Instruction::AddImm { dst, src, imm } => push_imm(out, "add_imm", dst, src, imm),
            Instruction::SubImm { dst, src, imm } => push_imm(out, "sub_imm", dst, src, imm),
            Instruction::MulImm { dst, src, imm } => push_imm(out, "mul_imm", dst, src, imm),
            Instruction::DivImm { dst, src, imm } => push_imm(out, "div_imm", dst, src, imm),
            Instruction::LessImm { dst, src, imm } => push_imm(out, "cmp_lt_imm", dst, src, imm),
            Instruction::LessEqImm { dst, src, imm } => push_imm(out, "cmp_le_imm", dst, src, imm),
            Instruction::GreaterImm { dst, src, imm } => push_imm(out, "cmp_gt_imm", dst, src, imm),
            Instruction::GreaterEqImm { dst, src, imm } => push_imm(out, "cmp_ge_imm", dst, src, imm),
            Instruction::EqualImm { dst, src, imm } => push_imm(out, "cmp_eq_imm", dst, src, imm),
            Instruction::NotEqImm { dst, src, imm } => push_imm(out, "cmp_ne_imm", dst, src, imm),
            Instruction::Not { dst, src } => push_two(out, "not", dst, src),
            Instruction::Neg { dst, src } => push_two(out, "neg", dst, src),
            Instruction::Jump { target } => {
                push_pad(out, "jmp"); push_str(out, " 0x"); push_hex4(out, target);
            },
            Instruction::JumpIfFalse { target, src } => {
                push_pad(out, "jz"); push_str(out, " "); push_reg(out, src); push_str(out, ", 0x"); push_hex4(out, target);
            },
            Instruction::JumpIfTrue { target, src } => {
                push_pad(out, "jnz"); push_str(out, " "); push_reg(out, src); push_str(out, ", 0x"); push_hex4(out, target);
            },
            Instruction::Call { func_id, base, count, dst } => {
                push_pad(out, "call"); push_str(out, " "); push_all(out, &self.functions[func_id].name); push_str(out, ", ");
                push_reg(out, base); push_str(out, ", #"); push_u64(out, count as u64); push_str(out, "  ; ret -> "); push_reg(out, dst);
            },
            Instruction::CallValue { func_reg, base, count, dst } => {
                push_pad(out, "callv"); push_str(out, " "); push_reg(out, func_reg); push_str(out, ", ");
                push_reg(out, base); push_str(out, ", #"); push_u64(out, count as u64); push_str(out, "  ; ret -> "); push_reg(out, dst);
            },
            Instruction::NativeCall { api_id, base, count, dst } => {
                push_pad(out, "ncall"); push_str(out, " native_"); self.push_native_name(out, api_id); push_str(out, ", ");
                push_reg(out, base); push_str(out, ", #"); push_u64(out, count as u64); push_str(out, "  ; ret -> "); push_reg(out, dst);
            },
            Instruction::FastNativeCall { api_id, dst, arg } => {
                push_pad(out, "fncall"); push_str(out, " sys_"); self.push_native_name(out, api_id); push_str(out, ", ");
                push_reg(out, dst); push_str(out, "  ; arg: "); push_reg(out, arg); push_str(out, " ret -> "); push_reg(out, dst);
            },
            Instruction::Return { src } => push_one(out, "ret", src),
            Instruction::Throw { src } => push_one(out, "throw", src),
            Instruction::ForceGC { dst } => push_one(out, "gc", dst),
        }
        assert(out@ =~= o + instr_text(self, i));
    }

    fn push_native_name(&self, out: &mut Vec<char>, id: usize)
        ensures
            final(out)@ == old(out)@ + native_name(self, id),
    {
        if id < self.natives.len() {
            push_all(out, &self.natives[id].name);
        } else {
            push_str(out, "?");
        }
    }

    /// The text of one instruction, with a float constant's bits after the
    /// text of a `LoadFloat` (see `instr_chunks`).
    pub fn format_instruction(&self, instr: &Instruction) -> (r: Vec<Chunk>)
        requires
            printable(self, *instr),
        ensures
            r@ == instr_chunks(self, *instr),
    {
        let mut t: Vec<char> = Vec::new();
        self.push_instr_text(&mut t, *instr);
        let mut r: Vec<Chunk> = Vec::new();
        push_chars(&mut r, &t);
        assert(r@ =~= txt(instr_text(self, *instr)));
        match *instr {
            Instruction::LoadFloat { index, .. } => {
                r.push(Unit::Fl(self.floats[index]));
            },
            _ => {},
        }
        r
    }

    /// The listing of every function, in order (see `listing`).
    pub fn disassemble(&self) -> (r: Vec<Chunk>)
        requires
            all_printable(self),
        ensures
            r@ == listing(self, self.functions@),
    {
        let mut out: Vec<Chunk> = Vec::new();
        let mut k: usize = 0;
        proof {
            assert(self.functions@.take(0) =~= Seq::<Function>::empty());
        }
        while k < self.functions.len()
            invariant
                k <= self.functions@.len(),
                all_printable(self),
                out@ == listing(self, self.functions@.take(k as int)),
            decreases self.functions@.len() - k,
        {
            let ghost o = out@;
            let f = &self.functions[k];
            let mut head: Vec<char> = Vec::new();
            push_all(&mut head, &f.name);
            push_str(&mut head, ":\n");
            push_str(&mut head, "  ; registers allocated: ");
            push_u64(&mut head, f.num_registers as u64);
            push_str(&mut head, "\n");
            push_chars(&mut out, &head);
            let ghost o1 = out@;
            let mut pc: usize = 0;
            proof {
                assert(f.code@.take(0) =~= Seq::<Instruction>::empty());
                assert(out@ =~= o1 + code_lines(self, f.code@.take(0)));
            }
            while pc < f.code.len()
                invariant
                    pc <= f.code@.len(),
                    f == &self.functions@[k as int],
                    k < self.functions@.len(),
                    all_printable(self),
                    out@ == o1 + code_lines(self, f.code@.take(pc as int)),
                decreases f.code@.len() - pc,
            {
                let i = f.code[pc];
                assert(printable(self, self.functions@[k as int].code@[pc as int]));
                let mut line: Vec<char> = Vec::new();
                push_str(&mut line, "  0x");
                push_hex4(&mut line, pc);
                push_str(&mut line, "    ");
                self.push_instr_text(&mut line, i);
                let ghost o2 = out@;
                push_chars(&mut out, &line);
                match i {
                    Instruction::LoadFloat { index, .. } => {
                        out.push(Unit::Fl(self.floats[index]));
                    },
                    _ => {},
                }
                push_lit(&mut out, "\n");
                proof {
                    let c = f.code@.take(pc + 1);
                    assert(c.drop_last() =~= f.code@.take(pc as int));
                    assert(c.last() == i);
                    assert(out@ =~= o2 + code_line(self, pc as nat, i));
                }
                pc = pc + 1;
                assert(out@ =~= o1 + code_lines(self, f.code@.take(pc as int)));
            }
            proof {
                assert(f.code@.take(pc as int) =~= f.code@);
            }
            let ghost o3 = out@;
            if f.exception_handlers.len() > 0 {
                let mut ht: Vec<char> = Vec::new();
                push_str(&mut ht, "  ; exception tables:\n");
                let ghost h0 = ht@;
                let mut h: usize = 0;
                proof {
                    assert(f.handlers().take(0) =~= Seq::<HandlerV>::empty());
                }
                while h < f.exception_handlers.len()
                    invariant
                        h <= f.exception_handlers@.len(),
                        ht@ == h0 + handler_lines(f.handlers().take(h as int)),
                    decreases f.exception_handlers@.len() - h,
                {
                    push_handler_line(&mut ht, &f.exception_handlers[h]);
                    proof {
                        let q = f.handlers().take(h + 1);
                        assert(q.drop_last() =~= f.handlers().take(h as int));
                        assert(q.last() == f.exception_handlers@[h as int]@);
                    }
                    h = h + 1;
                    assert(ht@ =~= h0 + handler_lines(f.handlers().take(h as int)));
                }
                proof {
                    assert(f.handlers().take(h as int) =~= f.handlers());
                }
                push_chars(&mut out, &ht);
            } else {
                assert(out@ =~= o3 + Seq::<Chunk>::empty());
            }
            push_lit(&mut out, "\n");
            proof {
                let fs = self.functions@.take(k + 1);
                assert(fs.drop_last() =~= self.functions@.take(k as int));
                assert(fs.last() == *f);
                assert(out@ =~= o + func_listing(self, *f));
            }
            k = k + 1;
        }
        proof {
            assert(self.functions@.take(k as int) =~= self.functions@);
        }
        out
    }
}

/// The report of an uncaught runtime error (see `error_text`); `ft` holds
/// the text of each float constant of the program.
pub fn error_report(e: &RuntimeError, p: &Program, ft: &Vec<Vec<char>>) -> (r: Vec<char>)
    requires
        e.func_id < p.functions@.len(),
        all_printable(p),
        ft@.len() == p.floats@.len(),
    ensures
        r@ == error_text(p, ft.deep_view(), e@),
{
    let f = &p.functions[e.func_id];
    let n = f.code.len();
    let start: usize = if e.pc >= 2 { e.pc - 2 } else { 0 };
    let end: usize = if e.pc <= n && n - e.pc >= 2 { e.pc + 2 } else { n };
    let mut out: Vec<char> = Vec::new();
    push_str(&mut out, "\n");
    push_str(&mut out, "----------------------------------------------------------------");
    push_str(&mut out, "\n");
    push_str(&mut out, "FATAL RUNTIME EXCEPTION\n");
    push_str(&mut out, "----------------------------------------------------------------");
    push_str(&mut out, "\n");
    push_str(&mut out, "Fault       : ");
    push_all(&mut out, &e.fault);
    push_str(&mut out, "\n");
    push_str(&mut out, "Description : ");
    push_all(&mut out, &e.description);
    push_str(&mut out, "\n\n");
    push_str(&mut out, "Call Stack Trace:\n  -> [0x");
    push_hex4(&mut out, e.pc);
    push_str(&mut out, "] in '");
    push_all(&mut out, &f.name);
    push_str(&mut out, "'\n\n");
    push_str(&mut out, "Instruction Dump:\n");
    let ghost o1 = out@;
    let mut i: usize = start;
    while i < end
        invariant
            start <= end ==> start <= i <= end,
            start > end ==> i == start,
            end <= n,
            n == f.code@.len(),
            f == &p.functions@[e.func_id as int],
            e.func_id < p.functions@.len(),
            all_printable(p),
            ft@.len() == p.floats@.len(),
            out@ == o1 + dump_lines(p, ft.deep_view(), f.code@, e.pc as nat, start as nat, i as nat),
        decreases end - i,
    {
        push_dump_line(&mut out, p, ft, e.func_id, e.pc, i);
        i = i + 1;
    }
    push_str(&mut out, "----------------------------------------------------------------");
    push_str(&mut out, "\nProcess terminated with exit code 1.\n");
    assert(out@ =~= error_text(p, ft.deep_view(), e@));
    out
}

} // verus!