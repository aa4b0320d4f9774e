//! Properties that relate several parts of the library: the compiler and
//! the machine, the string pool, tables, arrays, and the pass that removes
//! unreachable code.
use vstd::prelude::*;
use crate::arith::{in_i64, tdiv};
use crate::ast::{BinaryOp, StmtV, include_paths, without_includes};
use crate::codegen::{CEnv, CS, ConstV, cexpr, fold_spec, intern_spec};
use crate::ast::{ExprV, FuncDefV};
use crate::grammar::{Expect, p_items_top, expect_msg};
use crate::lexer::TokenInfoV;
use crate::heap::{MAX_ARRAY_SIZE, ObjV, Value, tab_of, truthy, arr_of, keys_distinct, str_of, table_lookup, table_store, lemma_table_lookup_at};
use crate::natives::{NativeOutV, get_spec, keys_spec, oom_msg, pop_spec, push_spec, set_spec, values_spec};
use crate::fmt::int_text;
use crate::value::distinct_strings;
use crate::bytecode::{HandlerV, Instruction, compact, indices_in_bounds, jump_target, live_marks, new_index, renumber};
use crate::codegen::optimized;
use crate::graph::{count_true, edge, is_path, reachable, lemma_count_true_bound};
use crate::bytecode::{MAX_REGISTERS, MAX_STACK_SIZE, cfg, cfg_roots, catch_roots, falls_through, live_pc, refs_ok, regs_below, successors};
use crate::heap::{collected, handles_of, heap_graph, live, obj_refs, reclaimed_count};
use crate::vm::{BinOp, EffectV, StepOutV, VmV, binary_effect, call_spec, eq_effect, int_effect, raise, run_spec};
use crate::bytecode::Program;
use crate::disasm::{code_line, hex4, instr_chunks};
use crate::show::{lemma_lit_concat, txt};

verus! {

/// The machine operation that an arithmetic or ordering operator of the
/// language compiles to.
pub open spec fn machine_op(op: BinaryOp) -> Option<BinOp> {
    match op {
        BinaryOp::Plus => Some(BinOp::Add),
        BinaryOp::Minus => Some(BinOp::Sub),
        BinaryOp::Star => Some(BinOp::Mul),
        BinaryOp::Slash => Some(BinOp::Div),
        BinaryOp::Less => Some(BinOp::Less),
        BinaryOp::LessEq => Some(BinOp::LessEq),
        BinaryOp::Greater => Some(BinOp::Greater),
        BinaryOp::GreaterEq => Some(BinOp::GreaterEq),
        _ => None,
    }
}

/// The value a folded constant stands for, with string `s` for a string.
pub open spec fn const_value(c: ConstV) -> Option<Value> {
    match c {
        ConstV::Int(i) => Some(Value::Int(i)),
        ConstV::Bool(b) => Some(Value::Bool(b)),
        ConstV::Str(_) => None,
    }
}

/// Folding an integer operation at compile time gives what the machine
/// computes at run time: the same value; the same overflow panic where
/// folding stops with one. `<=` and `>=` are not folded, and a division by
/// zero is left to the machine, which raises its error.
pub proof fn law_fold_int_matches_machine(x: i64, y: i64, op: BinaryOp)
    ensures
        machine_op(op) matches Some(bop) ==> match fold_spec(ConstV::Int(x), op, ConstV::Int(y)) {
            Ok(Some(c)) => int_effect(bop, x as int, y as int) == EffectV::Write(const_value(c)->0),
            Ok(None) => op is LessEq || op is GreaterEq || (op is Slash && y == 0 && int_effect(bop, x as int, y as int) is Raise),
            Err(m) => int_effect(bop, x as int, y as int) == EffectV::Abort(m),
        },
        (op is Eq || op is NotEq) ==> match fold_spec(ConstV::Int(x), op, ConstV::Int(y)) {
            Ok(Some(c)) => eq_effect(op is NotEq, Value::Int(x), Value::Int(y), Seq::empty()) == EffectV::Write(const_value(c)->0),
            _ => false,
        },
{
    reveal_strlit("attempt to add with overflow");
    reveal_strlit("attempt to subtract with overflow");
    reveal_strlit("attempt to multiply with overflow");
    reveal_strlit("attempt to divide with overflow");
}

/// Folding `+`, `==` and `!=` on two string constants gives what the
/// machine computes on the two strings at run time.
pub proof fn law_fold_str_matches_machine(h: Seq<ObjV>, s: usize, t: usize, op: BinaryOp)
    requires
        s < h.len() && h[s as int] is Str,
        t < h.len() && h[t as int] is Str,
    ensures
        ({
            let a = ConstV::Str(str_of(h, s));
            let b = ConstV::Str(str_of(h, t));
            match op {
                BinaryOp::Plus => fold_spec(a, op, b) == Ok::<Option<ConstV>, Seq<char>>(Some(ConstV::Str(str_of(h, s) + str_of(h, t))))
                    && binary_effect(BinOp::Add, Value::String(s), Value::String(t), h) == EffectV::WriteText(str_of(h, s) + str_of(h, t)),
                BinaryOp::Eq | BinaryOp::NotEq => fold_spec(a, op, b) matches Ok(Some(c))
                    && eq_effect(op is NotEq, Value::String(s), Value::String(t), h) == EffectV::Write(const_value(c)->0),
                _ => true,
            }
        }),
{
}

/// Folding `==` and `!=` on two boolean constants gives what the machine
/// computes on the two booleans at run time.
pub proof fn law_fold_bool_eq_matches_machine(x: bool, y: bool, op: BinaryOp, h: Seq<ObjV>)
    requires
        op is Eq || op is NotEq,
    ensures
        fold_spec(ConstV::Bool(x), op, ConstV::Bool(y)) matches Ok(Some(c))
            && eq_effect(op is NotEq, Value::Bool(x), Value::Bool(y), h) == EffectV::Write(const_value(c)->0),
{
}

/// Constants of different kinds are not folded: the machine compares them
/// at run time, where an integer, a boolean and a string are never equal.
pub proof fn law_fold_mixed_left_to_machine(a: ConstV, b: ConstV, op: BinaryOp, h: Seq<ObjV>)
    requires
        !(a is Int && b is Int),
        !(a is Bool && b is Bool),
        !(a is Str && b is Str),
    ensures
        fold_spec(a, op, b) == Ok::<Option<ConstV>, Seq<char>>(None),
        (const_value(a) is Some && const_value(b) is Some)
            ==> eq_effect(op is NotEq, const_value(a)->0, const_value(b)->0, h) == EffectV::Write(Value::Bool(op is NotEq)),
{
}

/// Folding `and` and `or` on two boolean constants gives the value that
/// the short-circuit code leaves in its register: `a and b` is `b` where `a`
/// is truthy and `a` otherwise; `a or b` is `a` where `a` is truthy and `b`
/// otherwise.
pub proof fn law_fold_logic_matches_short_circuit(x: bool, y: bool, op: BinaryOp)
    requires
        op is And || op is Or,
    ensures
        fold_spec(ConstV::Bool(x), op, ConstV::Bool(y)) matches Ok(Some(c))
            && const_value(c) == Some(if op is And {
                if truthy(Value::Bool(x)) { Value::Bool(y) } else { Value::Bool(x) }
            } else {
                if truthy(Value::Bool(x)) { Value::Bool(x) } else { Value::Bool(y) }
            }),
{
}

/// Interning a string that is already in the pool changes nothing and
/// gives its symbol again; the symbol names the string.
pub proof fn law_intern_idempotent(p: Seq<Seq<char>>, s: Seq<char>)
    requires
        distinct_strings(p),
        p.len() < usize::MAX,
    ensures
        intern_spec(intern_spec(p, s).0, s) == intern_spec(p, s),
        intern_spec(p, s).1 < intern_spec(p, s).0.len(),
        intern_spec(p, s).0[intern_spec(p, s).1 as int] == s,
        distinct_strings(intern_spec(p, s).0),
{
    let (q, id) = intern_spec(p, s);
    if p.contains(s) {
        assert(exists|k: int| 0 <= k < p.len() && p[k] == s);
        let k = choose|k: int| 0 <= k < p.len() && p[k] == s;
        assert(0 <= k < p.len() && p[k] == s);
        assert(q == p);
        assert(id as int == k);
    } else {
        assert(q.last() == s);
        assert(q.contains(s));
        let k = choose|k: int| 0 <= k < q.len() && q[k] == s;
        if k < p.len() {
            assert(p[k] == s);
        }
        assert(k == p.len());
        assert forall|i: int, j: int| 0 <= i < q.len() && 0 <= j < q.len() && i != j implies q[i] != q[j] by {
            if i < p.len() && j < p.len() {
            } else if i < p.len() {
                assert(q[i] == p[i]);
                assert(!p.contains(s));
            } else if j < p.len() {
                assert(q[j] == p[j]);
                assert(!p.contains(s));
            }
        }
    }
}

/// After a table binds `key` to `v`, looking `key` up gives `v`; every
/// other key keeps its binding, and no key occurs twice.
pub proof fn law_table_store_lookup(t: Seq<(usize, Value)>, key: usize, v: Value, other: usize)
    requires
        keys_distinct(t),
        other != key,
    ensures
        keys_distinct(table_store(t, key, v)),
        table_lookup(table_store(t, key, v), key) == Some(v),
        table_lookup(table_store(t, key, v), other) == table_lookup(t, other),
{
    let u = table_store(t, key, v);
    if exists|k: int| 0 <= k < t.len() && t[k].0 == key {
        let k = choose|k: int| 0 <= k < t.len() && t[k].0 == key;
        assert(u == t.update(k, (key, v)));
        assert(keys_distinct(u));
        lemma_table_lookup_at(u, key, k);
        if exists|j: int| 0 <= j < t.len() && t[j].0 == other {
            let j = choose|j: int| 0 <= j < t.len() && t[j].0 == other;
            lemma_table_lookup_at(t, other, j);
            lemma_table_lookup_at(u, other, j);
        } else {
            lemma_table_lookup_absent(t, other);
            assert forall|j: int| 0 <= j < u.len() implies u[j].0 != other by {
                if j != k {
                    assert(u[j] == t[j]);
                }
            }
            lemma_table_lookup_absent(u, other);
        }
    } else {
        assert(u == t.push((key, v)));
        assert(keys_distinct(u));
        lemma_table_lookup_at(u, key, t.len() as int);
        if exists|j: int| 0 <= j < t.len() && t[j].0 == other {
            let j = choose|j: int| 0 <= j < t.len() && t[j].0 == other;
            lemma_table_lookup_at(t, other, j);
            lemma_table_lookup_at(u, other, j);
        } else {
            lemma_table_lookup_absent(t, other);
            assert forall|j: int| 0 <= j < u.len() implies u[j].0 != other by {
                if j < t.len() {
                    assert(u[j] == t[j]);
                }
            }
            lemma_table_lookup_absent(u, other);
        }
    }
}

proof fn lemma_table_lookup_absent(t: Seq<(usize, Value)>, key: usize)
    requires
        forall|j: int| 0 <= j < t.len() ==> t[j].0 != key,
    ensures
        table_lookup(t, key) is None,
    decreases t.len(),
{
    if t.len() > 0 {
        assert(t[0].0 != key);
        assert forall|j: int| 0 <= j < t.drop_first().len() implies t.drop_first()[j].0 != key by {
            assert(t.drop_first()[j] == t[j + 1]);
        }
        lemma_table_lookup_absent(t.drop_first(), key);
    }
}

/// `pop` right after `push` on the same array gives the pushed value back
/// and leaves the heap as it was.
pub proof fn law_push_then_pop(h: Seq<ObjV>, a: usize, v: Value)
    requires
        a < h.len(),
        h[a as int] is Array,
        arr_of(h, a).len() < crate::heap::MAX_ARRAY_SIZE,
    ensures
        ({
            let (h1, r1) = push_spec(h, seq![Value::Array(a), v]);
            let (h2, r2) = pop_spec(h1, seq![Value::Array(a)]);
            &&& r1 == NativeOutV::Value(Value::Null)
            &&& r2 == NativeOutV::Value(v)
            &&& h2 == h
        }),
{
    let args = seq![Value::Array(a), v];
    let (h1, r1) = push_spec(h, args);
    assert(h1 == h.update(a as int, ObjV::Array(arr_of(h, a).push(v))));
    assert(arr_of(h1, a) == arr_of(h, a).push(v));
    let (h2, r2) = pop_spec(h1, seq![Value::Array(a)]);
    assert(arr_of(h1, a).drop_last() =~= arr_of(h, a));
    assert(h2 =~= h);
}

proof fn lemma_count_take_mono(m: Seq<bool>, a: int, b: int)
    requires
        0 <= a <= b <= m.len(),
    ensures
        count_true(m.take(a)) <= count_true(m.take(b)),
    decreases b - a,
{
    if a < b {
        lemma_count_take_mono(m, a, b - 1);
        assert(m.take(b).drop_last() =~= m.take(b - 1));
    }
}

proof fn lemma_compact_bounds(code: Seq<Instruction>, m: Seq<bool>, n: int)
    requires
        0 <= n <= code.len(),
        m.len() == code.len(),
        forall|pc: int| 0 <= pc < code.len() ==> match jump_target(#[trigger] code[pc]) {
            Some(t) => t <= code.len(),
            None => true,
        },
    ensures
        compact(code, m, n).len() == count_true(m.take(n)),
        forall|j: int| 0 <= j < compact(code, m, n).len() ==> match jump_target(#[trigger] compact(code, m, n)[j]) {
            Some(t) => t <= count_true(m),
            None => true,
        },
    decreases n,
{
    if n <= 0 {
        assert(m.take(0) =~= Seq::<bool>::empty());
    } else {
        lemma_compact_bounds(code, m, n - 1);
        assert(m.take(n).drop_last() =~= m.take(n - 1));
        let c0 = compact(code, m, n - 1);
        let c = compact(code, m, n);
        if m[n - 1] {
            let i = renumber(code[n - 1], m);
            assert(c == c0 + seq![i]);
            if let Some(t0) = jump_target(code[n - 1]) {
                lemma_count_take_mono(m, t0 as int, m.len() as int);
                assert(m.take(m.len() as int) =~= m);
            }
            assert forall|j: int| 0 <= j < c.len() implies match jump_target(#[trigger] c[j]) {
                Some(t) => t <= count_true(m),
                None => true,
            } by {
                if j < c0.len() {
                    assert(c[j] == c0[j]);
                } else {
                    assert(c[j] == i);
                }
            }
        } else {
            assert(c =~= c0);
        }
    }
}

/// Removing unreachable code keeps every jump target and every handler
/// bound within the code or one past its end.
pub proof fn law_optimize_keeps_bounds(code: Seq<Instruction>, hs: Seq<HandlerV>)
    requires
        indices_in_bounds(code, hs),
    ensures
        indices_in_bounds(optimized(code, hs).0, optimized(code, hs).1),
{
    if code.len() > 0 {
        let m = live_marks(code, hs);
        lemma_compact_bounds(code, m, m.len() as int);
        assert(m.take(m.len() as int) =~= m);
        let hs1 = optimized(code, hs).1;
        assert forall|k: int| #![trigger hs1[k]] 0 <= k < hs1.len() implies
            hs1[k].start_pc <= optimized(code, hs).0.len() && hs1[k].end_pc <= optimized(code, hs).0.len()
                && hs1[k].catch_pc <= optimized(code, hs).0.len() by {
            let h = hs[k];
            lemma_count_take_mono(m, h.start_pc as int, m.len() as int);
            lemma_count_take_mono(m, h.end_pc as int, m.len() as int);
            lemma_count_take_mono(m, h.catch_pc as int, m.len() as int);
        }
    }
}

/// Running `a` instructions and then `b` more from where the first run
/// stopped is running `a + b` instructions at once: the host may hand the
/// machine its fuel in any slices.
pub proof fn law_run_in_slices(p: &Program, s: VmV, a: nat, b: nat)
    ensures
        run_spec(p, s, a + b) == (if run_spec(p, s, a).1 is Continue {
            run_spec(p, run_spec(p, s, a).0, b)
        } else {
            run_spec(p, s, a)
        }),
    decreases a,
{
    if a > 0 {
        let (s2, o) = crate::vm::step_spec(p, s);
        if o is Continue {
            law_run_in_slices(p, s2, (a - 1) as nat, b);
            assert((a + b - 1) as nat == (a - 1) as nat + b);
        }
    }
}

proof fn lemma_path_prefix(adj: Seq<Seq<usize>>, roots: Seq<usize>, path: Seq<int>, k: int)
    requires
        is_path(adj, roots, path),
        0 <= k < path.len(),
    ensures
        is_path(adj, roots, path.take(k + 1)),
        reachable(adj, roots, path[k]),
{
    let q = path.take(k + 1);
    assert forall|j: int| 0 <= j < q.len() - 1 implies #[trigger] edge(adj, q[j], q[j + 1]) by {
        assert(edge(adj, path[j], path[j + 1]));
    }
    assert(q[0] == path[0]);
    assert(q.last() == path[k]);
}

/// A path of the collected heap is a path of the heap.
proof fn lemma_collected_path_back(h: Seq<ObjV>, roots: Seq<Value>, path: Seq<int>)
    requires
        is_path(heap_graph(collected(h, roots)), handles_of(roots), path),
    ensures
        is_path(heap_graph(h), handles_of(roots), path),
{
    let g = heap_graph(h);
    let g2 = heap_graph(collected(h, roots));
    assert forall|k: int| 0 <= k < path.len() - 1 implies #[trigger] edge(g, path[k], path[k + 1]) by {
        assert(edge(g2, path[k], path[k + 1]));
        let a = path[k];
        let j = choose|j: int| 0 <= j < g2[a].len() && g2[a][j] == path[k + 1];
        if live(h, roots, a) {
            assert(collected(h, roots)[a] == h[a]);
            assert(g2[a] == g[a]);
        } else {
            assert(collected(h, roots)[a] == ObjV::Free);
            assert(g2[a] == obj_refs(ObjV::Free));
        }
    }
}

/// A path of the heap runs through live objects only, so it is a path of
/// the collected heap.
proof fn lemma_collected_path_forward(h: Seq<ObjV>, roots: Seq<Value>, path: Seq<int>)
    requires
        is_path(heap_graph(h), handles_of(roots), path),
    ensures
        is_path(heap_graph(collected(h, roots)), handles_of(roots), path),
{
    let g = heap_graph(h);
    let g2 = heap_graph(collected(h, roots));
    assert forall|k: int| 0 <= k < path.len() - 1 implies #[trigger] edge(g2, path[k], path[k + 1]) by {
        assert(edge(g, path[k], path[k + 1]));
        lemma_path_prefix(g, handles_of(roots), path, k);
        let a = path[k];
        assert(live(h, roots, a));
        assert(collected(h, roots)[a] == h[a]);
        assert(g2[a] == g[a]);
        let j = choose|j: int| 0 <= j < g[a].len() && g[a][j] == path[k + 1];
        assert(g2[a][j] == path[k + 1]);
    }
}

proof fn lemma_nothing_to_reclaim(h: Seq<ObjV>, roots: Seq<Value>, n: int)
    requires
        0 <= n <= h.len(),
        forall|i: int| 0 <= i < h.len() ==> (live(collected(h, roots), roots, i) <==> live(h, roots, i)),
    ensures
        reclaimed_count(collected(h, roots), roots, n) == 0,
    decreases n,
{
    if n > 0 {
        lemma_nothing_to_reclaim(h, roots, n - 1);
    }
}

/// Collecting garbage a second time, from the same roots, reclaims nothing
/// more: the objects live after the first collection are exactly those
/// live before it, the heap stays as it is, and the count of reclaimed
/// arrays and tables is 0.
pub proof fn law_collect_idempotent(h: Seq<ObjV>, roots: Seq<Value>)
    ensures
        forall|i: int| 0 <= i < h.len() ==> (live(collected(h, roots), roots, i) <==> live(h, roots, i)),
        collected(collected(h, roots), roots) == collected(h, roots),
        reclaimed_count(collected(h, roots), roots, collected(h, roots).len() as int) == 0,
{
    let h2 = collected(h, roots);
    let g = heap_graph(h);
    let g2 = heap_graph(h2);
    let rs = handles_of(roots);
    assert forall|i: int| 0 <= i < h.len() implies (live(h2, roots, i) <==> live(h, roots, i)) by {
        if live(h2, roots, i) {
            let path = choose|path: Seq<int>| #[trigger] is_path(g2, rs, path) && path.last() == i;
            lemma_collected_path_back(h, roots, path);
        }
        if live(h, roots, i) {
            let path = choose|path: Seq<int>| #[trigger] is_path(g, rs, path) && path.last() == i;
            lemma_collected_path_forward(h, roots, path);
        }
    }
    assert(collected(h2, roots) =~= h2);
    lemma_nothing_to_reclaim(h, roots, h.len() as int);
}

/// Each line of a listing shows its instruction exactly as
/// `format_instruction` does, after the address and before the newline.
pub proof fn law_listing_line_is_formatted_instruction(p: &Program, pc: nat, i: Instruction)
    ensures
        code_line(p, pc, i) == txt("  0x"@ + hex4(pc) + "    "@) + instr_chunks(p, i) + txt("\n"@),
{
    lemma_lit_concat("  0x"@ + hex4(pc) + "    "@, crate::disasm::instr_text(p, i));
    match i {
        Instruction::LoadFloat { .. } => {
            assert(instr_chunks(p, i) == txt(crate::disasm::instr_text(p, i)) + crate::disasm::float_part(p, i));
        },
        _ => {
            assert(crate::disasm::float_part(p, i) =~= Seq::<crate::show::Chunk>::empty());
            assert(txt(crate::disasm::instr_text(p, i)) + crate::disasm::float_part(p, i) =~= txt(crate::disasm::instr_text(p, i)));
        },
    }
}

/// An instruction's registers and references are in range, and control
/// does not fall off the end of the code (see `Program::function_ok`).
pub open spec fn code_ok(code: Seq<Instruction>, nregs: nat, nsym: nat, nfun: nat, nnat: nat, nflt: nat) -> bool {
    forall|pc: int| 0 <= pc < code.len() ==> {
        &&& regs_below(#[trigger] code[pc], nregs)
        &&& refs_ok(code[pc], nsym, nfun, nnat, nflt, code.len())
        &&& (falls_through(code[pc]) ==> pc + 1 < code.len())
    }
}

/// Every handler catches inside the code and stores its error in a
/// register of the stack.
pub open spec fn handlers_ok(hs: Seq<HandlerV>, ncode: nat) -> bool {
    forall|k: int| #![trigger hs[k]] 0 <= k < hs.len() ==> hs[k].catch_pc < ncode && hs[k].err_reg < MAX_REGISTERS
}

pub(crate) proof fn lemma_path_extend(adj: Seq<Seq<usize>>, roots: Seq<usize>, i: int, j: int)
    requires
        reachable(adj, roots, i),
        edge(adj, i, j),
    ensures
        reachable(adj, roots, j),
{
    let path = choose|path: Seq<int>| #[trigger] is_path(adj, roots, path) && path.last() == i;
    let q = path.push(j);
    assert forall|k: int| 0 <= k < q.len() - 1 implies #[trigger] edge(adj, q[k], q[k + 1]) by {
        if k < path.len() - 1 {
            assert(edge(adj, path[k], path[k + 1]));
        }
    }
    assert(q[0] == path[0]);
    assert(is_path(adj, roots, q));
}

/// The successors of a live instruction are live.
pub(crate) proof fn lemma_successor_live(code: Seq<Instruction>, hs: Seq<HandlerV>, pc: int, j: int)
    requires
        0 <= pc < code.len(),
        code.len() <= usize::MAX,
        live_pc(code, hs, pc),
        (jump_target(code[pc]) matches Some(t) && t == j && t < code.len())
            || (falls_through(code[pc]) && j == pc + 1 && pc + 1 < code.len()),
    ensures
        live_pc(code, hs, j),
{
    let succ = successors(code, pc);
    assert(cfg(code)[pc] == succ);
    if jump_target(code[pc]) matches Some(t) && t == j && t < code.len() {
        assert(succ[0] == j);
    } else {
        let tl = match jump_target(code[pc]) {
            Some(t) => if t < code.len() { seq![t] } else { Seq::<usize>::empty() },
            None => Seq::<usize>::empty(),
        };
        assert(succ == tl + seq![(pc + 1) as usize]);
        assert(succ[tl.len() as int] == j);
    }
    lemma_path_extend(cfg(code), cfg_roots(code, hs), pc, j);
}

pub(crate) proof fn lemma_count_take_step(m: Seq<bool>, i: int)
    requires
        0 <= i < m.len(),
    ensures
        count_true(m.take(i + 1)) == count_true(m.take(i)) + if m[i] { 1nat } else { 0nat },
{
    assert(m.take(i + 1).drop_last() =~= m.take(i));
}

/// A live index's new index lies below the number of live instructions.
pub(crate) proof fn lemma_new_index_below(m: Seq<bool>, t: int)
    requires
        0 <= t < m.len(),
        m[t],
    ensures
        count_true(m.take(t)) < count_true(m),
{
    lemma_count_take_step(m, t);
    lemma_count_take_mono(m, t + 1, m.len() as int);
    assert(m.take(m.len() as int) =~= m);
}

proof fn lemma_roots_live(code: Seq<Instruction>, hs: Seq<HandlerV>, k: int)
    requires
        0 <= k < hs.len(),
        hs[k].catch_pc < code.len(),
    ensures
        live_pc(code, hs, hs[k].catch_pc as int),
    decreases hs.len(),
{
    let roots = cfg_roots(code, hs);
    if k == hs.len() - 1 {
        let cr = catch_roots(code, hs);
        assert(cr.last() == hs[k].catch_pc);
        assert(roots[roots.len() - 1] == hs[k].catch_pc);
        let path = seq![hs[k].catch_pc as int];
        assert(is_path(cfg(code), roots, path));
    } else {
        lemma_roots_live(code, hs.drop_last(), k);
        let r0 = cfg_roots(code, hs.drop_last());
        let path = choose|path: Seq<int>| #[trigger] is_path(cfg(code), r0, path) && path.last() == hs[k].catch_pc;
        let j = choose|j: int| 0 <= j < r0.len() && r0[j] == path[0];
        assert(roots[j] == r0[j]);
        assert forall|q: int| 0 <= q < path.len() - 1 implies #[trigger] edge(cfg(code), path[q], path[q + 1]) by {}
        assert(is_path(cfg(code), roots, path));
    }
}

proof fn lemma_compact_ok(code: Seq<Instruction>, hs: Seq<HandlerV>, m: Seq<bool>, n: int,
    nregs: nat, nsym: nat, nfun: nat, nnat: nat, nflt: nat)
    requires
        0 <= n <= code.len(),
        code.len() <= usize::MAX,
        m == live_marks(code, hs),
        code_ok(code, nregs, nsym, nfun, nnat, nflt),
    ensures
        compact(code, m, n).len() == count_true(m.take(n)),
        forall|j: int| 0 <= j < compact(code, m, n).len() ==> {
            &&& regs_below(#[trigger] compact(code, m, n)[j], nregs)
            &&& refs_ok(compact(code, m, n)[j], nsym, nfun, nnat, nflt, count_true(m))
            &&& (falls_through(compact(code, m, n)[j]) ==> j + 1 < count_true(m))
        },
    decreases n,
{
    if n <= 0 {
        assert(m.take(0) =~= Seq::<bool>::empty());
    } else {
        lemma_compact_ok(code, hs, m, n - 1, nregs, nsym, nfun, nnat, nflt);
        lemma_count_take_step(m, n - 1);
        let c0 = compact(code, m, n - 1);
        let c = compact(code, m, n);
        if m[n - 1] {
            let pc = n - 1;
            let ins = code[pc];
            let r = renumber(ins, m);
            assert(c == c0 + seq![r]);
            assert(regs_below(ins, nregs));
            assert(refs_ok(ins, nsym, nfun, nnat, nflt, code.len()));
            assert(live_pc(code, hs, pc));
            if let Some(t) = jump_target(ins) {
                lemma_successor_live(code, hs, pc, t as int);
                lemma_new_index_below(m, t as int);
                lemma_count_true_bound(m.take(t as int));
            }
            if falls_through(ins) {
                lemma_successor_live(code, hs, pc, pc + 1);
                lemma_new_index_below(m, pc + 1);
                lemma_count_take_step(m, pc + 1);
            }
            assert forall|j: int| 0 <= j < c.len() implies {
                &&& regs_below(#[trigger] c[j], nregs)
                &&& refs_ok(c[j], nsym, nfun, nnat, nflt, count_true(m))
                &&& (falls_through(c[j]) ==> j + 1 < count_true(m))
            } by {
                if j < c0.len() {
                    assert(c[j] == c0[j]);
                } else {
                    assert(c[j] == r);
                }
            }
        } else {
            assert(c =~= c0);
        }
    }
}

/// Removing unreachable code keeps a function well formed: registers and
/// references stay in range, jumps land inside the code, control does not
/// fall off its end, and every handler catches inside it.
pub proof fn law_optimize_keeps_function_wf(code: Seq<Instruction>, hs: Seq<HandlerV>,
    nregs: nat, nsym: nat, nfun: nat, nnat: nat, nflt: nat)
    requires
        code.len() > 0,
        code.len() <= usize::MAX,
        code_ok(code, nregs, nsym, nfun, nnat, nflt),
        handlers_ok(hs, code.len()),
    ensures
        optimized(code, hs).0.len() > 0,
        code_ok(optimized(code, hs).0, nregs, nsym, nfun, nnat, nflt),
        handlers_ok(optimized(code, hs).1, optimized(code, hs).0.len()),
        optimized(code, hs).1.len() == hs.len(),
{
    let m = live_marks(code, hs);
    lemma_compact_ok(code, hs, m, m.len() as int, nregs, nsym, nfun, nnat, nflt);
    assert(m.take(m.len() as int) =~= m);
    let c = optimized(code, hs).0;
    // The entry is live.
    let roots = cfg_roots(code, hs);
    assert(roots[0] == 0);
    assert(is_path(cfg(code), roots, seq![0int]));
    assert(live_pc(code, hs, 0));
    lemma_new_index_below(m, 0);
    let hs1 = optimized(code, hs).1;
    assert forall|k: int| #![trigger hs1[k]] 0 <= k < hs1.len() implies hs1[k].catch_pc < c.len() && hs1[k].err_reg < MAX_REGISTERS by {
        assert(hs[k].catch_pc < code.len());
        lemma_roots_live(code, hs, k);
        lemma_new_index_below(m, hs[k].catch_pc as int);
        lemma_count_true_bound(m.take(hs[k].catch_pc as int));
    }
}

/// Taking the `include`s out of a body loses no statement: the other
/// statements and the included paths together are as many as the body's
/// statements.
pub proof fn law_split_includes_partition(ss: Seq<StmtV>)
    ensures
        without_includes(ss).len() + include_paths(ss).len() == ss.len(),
    decreases ss.len(),
{
    if ss.len() > 0 {
        law_split_includes_partition(ss.drop_last());
    }
}


/// `++` and `--` apply to variables only: on anything else the compiler
/// stops with an error.
pub proof fn law_increment_needs_variable(env: CEnv, cs: CS, x: ExprV, dst: usize)
    requires
        !(x is Ident),
        dst + 1 <= MAX_REGISTERS,
    ensures
        cexpr(env, cs, ExprV::PostInc(Box::new(x)), dst)
            == Err::<(CS, usize), Seq<char>>("CompilationError: i++ can only be applied to variables."@),
        cexpr(env, cs, ExprV::PostDec(Box::new(x)), dst)
            == Err::<(CS, usize), Seq<char>>("CompilationError: i-- can only be applied to variables."@),
{
}

/// Only `func` definitions and `include`s stand at the top level of a
/// program: any other token there is a syntax error.
pub proof fn law_top_level_is_func_or_include(ts: Seq<TokenInfoV>, f: Option<Seq<char>>, i: int,
    funcs: Seq<FuncDefV>, incs: Seq<StmtV>)
    requires
        0 <= i < ts.len(),
        !(ts[i].token is EOF || ts[i].token is Include || ts[i].token is Func),
    ensures
        p_items_top(ts, f, i, funcs, incs) == Err::<(Seq<FuncDefV>, Seq<StmtV>), Seq<char>>(expect_msg(ts[i], Expect::Func)),
{
}

/// An array holds at most `MAX_ARRAY_SIZE` entries: pushing onto a full
/// array raises the out-of-memory error and changes nothing.
pub proof fn law_push_respects_array_limit(h: Seq<ObjV>, a: usize, v: Value)
    requires
        a < h.len() && h[a as int] is Array,
        arr_of(h, a).len() >= MAX_ARRAY_SIZE,
    ensures
        push_spec(h, seq![Value::Array(a), v]) == (h, NativeOutV::Raise(oom_msg())),
{
}

/// A call whose registers would reach past the stack limit raises the
/// stack overflow error instead of entering the function.
pub proof fn law_call_respects_stack_limit(p: &Program, t: VmV, fid: usize, base: usize, count: usize, dst: usize)
    requires
        fid < p.functions@.len(),
        count == p.functions@[fid as int].arg_count,
        t.bp + base + p.functions@[fid as int].num_registers > MAX_STACK_SIZE,
    ensures
        call_spec(p, t, fid, base, count, dst) == raise(p, t, "StackOverflowError: Maximum call stack size exceeded"@),
{
}


/// `get` after `set` on a table: the key gives the stored value, every
/// other key what it gave before, and `set` returns `null`. On an empty
/// table, `keys` and `values` then list just the key and the value.
pub proof fn law_table_set_then_get(h: Seq<ObjV>, t: usize, k: usize, v: Value, other: usize)
    requires
        t < h.len() && h[t as int] is Table,
        keys_distinct(tab_of(h, t)),
        other != k,
    ensures
        ({
            let (h2, o) = set_spec(h, seq![Value::Table(t), Value::Symbol(k), v]);
            &&& o == NativeOutV::Value(Value::Null)
            &&& get_spec(h2, seq![Value::Table(t), Value::Symbol(k)]) == NativeOutV::Value(v)
            &&& get_spec(h2, seq![Value::Table(t), Value::Symbol(other)]) == get_spec(h, seq![Value::Table(t), Value::Symbol(other)])
            &&& tab_of(h, t).len() == 0 ==> keys_spec(h2, seq![Value::Table(t)]).0.last() == ObjV::Array(seq![Value::Symbol(k)])
            &&& tab_of(h, t).len() == 0 ==> values_spec(h2, seq![Value::Table(t)]).0.last() == ObjV::Array(seq![v])
        }),
{
    law_table_store_lookup(tab_of(h, t), k, v, other);
    let h2 = set_spec(h, seq![Value::Table(t), Value::Symbol(k), v]).0;
    assert(tab_of(h2, t) == table_store(tab_of(h, t), k, v));
    if tab_of(h, t).len() == 0 {
        assert(table_store(tab_of(h, t), k, v) == seq![(k, v)]);
        assert(tab_of(h2, t).map_values(|e: (usize, Value)| Value::Symbol(e.0)) =~= seq![Value::Symbol(k)]);
        assert(tab_of(h2, t).map_values(|e: (usize, Value)| e.1) =~= seq![v]);
    }
}

/// `get` and `set` on an array, at an index that is not negative: an index
/// inside gives its entry; one outside gives the default (or `null`), and
/// `set` there raises an index error and leaves the heap as it was.
pub proof fn law_array_get_set_bounds(h: Seq<ObjV>, a: usize, i: i64, v: Value, d: Value)
    requires
        a < h.len() && h[a as int] is Array,
        arr_of(h, a).len() <= MAX_ARRAY_SIZE,
        0 <= i <= usize::MAX,
    ensures
        0 <= i < arr_of(h, a).len() ==> get_spec(h, seq![Value::Array(a), Value::Int(i)]) == NativeOutV::Value(arr_of(h, a)[i as int]),
        0 <= i < arr_of(h, a).len() ==> ({
            let (h2, o) = set_spec(h, seq![Value::Array(a), Value::Int(i), v]);
            o == NativeOutV::Value(Value::Null) && get_spec(h2, seq![Value::Array(a), Value::Int(i)]) == NativeOutV::Value(v)
        }),
        arr_of(h, a).len() <= i ==> get_spec(h, seq![Value::Array(a), Value::Int(i), d]) == NativeOutV::Value(d),
        arr_of(h, a).len() <= i ==> get_spec(h, seq![Value::Array(a), Value::Int(i)]) == NativeOutV::Value(Value::Null),
        arr_of(h, a).len() <= i ==> set_spec(h, seq![Value::Array(a), Value::Int(i), v])
            == (h, NativeOutV::Raise("IndexError: Array index out of bounds: "@ + int_text(i as int))),
{
}

/// Interning never moves a string: a symbol given out earlier still names
/// its string after any later interning.
pub proof fn law_interning_keeps_symbols(p: Seq<Seq<char>>, s: Seq<char>, id: int)
    requires
        0 <= id < p.len(),
    ensures
        intern_spec(p, s).0.len() >= p.len(),
        intern_spec(p, s).0[id] == p[id],
{
}

} // verus!
