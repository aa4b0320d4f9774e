//! Removing unreachable code leaves nothing more to remove: every
//! instruction of the compacted code is reachable, so a second pass keeps
//! the code and the handlers as they are.
use vstd::prelude::*;
use crate::bytecode::{HandlerV, Instruction, cfg, cfg_roots, catch_roots, compact, falls_through,
    indices_in_bounds, jump_target, live_marks, live_pc, new_index, renumber, successors};
use crate::codegen::optimized;
use crate::graph::{count_true, edge, is_path, reachable, lemma_count_true_bound};
use crate::laws::{lemma_count_take_step, lemma_new_index_below, lemma_path_extend, lemma_successor_live,
    law_optimize_keeps_bounds};

verus! {

proof fn lemma_compact_len(code: Seq<Instruction>, m: Seq<bool>, n: int)
    requires
        0 <= n <= code.len(),
        m.len() == code.len(),
    ensures
        compact(code, m, n).len() == count_true(m.take(n)),
    decreases n,
{
    if n <= 0 {
        assert(m.take(0) =~= Seq::<bool>::empty());
    } else {
        lemma_compact_len(code, m, n - 1);
        lemma_count_take_step(m, n - 1);
    }
}

/// A kept instruction sits at its new index, renumbered.
proof fn lemma_compact_at(code: Seq<Instruction>, m: Seq<bool>, n: int, pc: int)
    requires
        0 <= pc < n <= code.len(),
        m.len() == code.len(),
        m[pc],
    ensures
        count_true(m.take(pc)) < compact(code, m, n).len(),
        compact(code, m, n)[count_true(m.take(pc)) as int] == renumber(code[pc], m),
    decreases n,
{
    lemma_compact_len(code, m, n - 1);
    lemma_count_take_step(m, n - 1);
    if pc < n - 1 {
        lemma_compact_at(code, m, n - 1, pc);
    }
}

/// Every index of the compacted code is the new index of a kept one.
proof fn lemma_compact_source(m: Seq<bool>, n: int, j: int)
    requires
        0 <= n <= m.len(),
        0 <= j < count_true(m.take(n)),
    ensures
        exists|pc: int| 0 <= pc < n && m[pc] && count_true(m.take(pc)) == j,
    decreases n,
{
    if n <= 0 {
        assert(m.take(0) =~= Seq::<bool>::empty());
    } else {
        lemma_count_take_step(m, n - 1);
        if j < count_true(m.take(n - 1)) {
            lemma_compact_source(m, n - 1, j);
            let pc: int = choose|pc: int| 0 <= pc < n - 1 && m[pc] && count_true(m.take(pc)) == j;
            assert(0 <= pc < n && m[pc] && count_true(m.take(pc)) == j);
        } else {
            assert(m[n - 1] && count_true(m.take(n - 1)) == j);
        }
    }
}

/// The catch point of a handler that lies inside the code is a root.
proof fn lemma_catch_root_in(code: Seq<Instruction>, hs: Seq<HandlerV>, k: int)
    requires
        0 <= k < hs.len(),
        hs[k].catch_pc < code.len(),
    ensures
        catch_roots(code, hs).contains(hs[k].catch_pc),
    decreases hs.len(),
{
    let cr = catch_roots(code, hs);
    if k == hs.len() - 1 {
        assert(cr[cr.len() - 1] == hs[k].catch_pc);
    } else {
        lemma_catch_root_in(code, hs.drop_last(), k);
        let c0 = catch_roots(code, hs.drop_last());
        let i: int = choose|i: int| 0 <= i < c0.len() && c0[i] == hs[k].catch_pc;
        assert(cr[i] == c0[i]);
    }
}

/// Each catch root is the catch point of some handler, inside the code.
proof fn lemma_catch_root_from(code: Seq<Instruction>, hs: Seq<HandlerV>, i: int)
    requires
        0 <= i < catch_roots(code, hs).len(),
    ensures
        exists|k: int| 0 <= k < hs.len() && hs[k].catch_pc == catch_roots(code, hs)[i]
            && hs[k].catch_pc < code.len(),
    decreases hs.len(),
{
    let c0 = catch_roots(code, hs.drop_last());
    if i < c0.len() {
        assert(catch_roots(code, hs)[i] == c0[i]);
        lemma_catch_root_from(code, hs.drop_last(), i);
        let k: int = choose|k: int| 0 <= k < hs.drop_last().len() && hs.drop_last()[k].catch_pc == c0[i]
            && hs.drop_last()[k].catch_pc < code.len();
        assert(hs[k] == hs.drop_last()[k]);
    } else {
        let k: int = hs.len() - 1;
        assert(hs[k].catch_pc == catch_roots(code, hs)[i] && hs[k].catch_pc < code.len());
    }
}

/// Renumbering changes only a jump's target.
proof fn lemma_renumber(i: Instruction, m: Seq<bool>)
    ensures
        falls_through(renumber(i, m)) == falls_through(i),
        jump_target(renumber(i, m)) == match jump_target(i) {
            Some(t) => Some(new_index(m, t as int)),
            None => None::<usize>,
        },
{
}

/// An edge between live instructions is an edge between their new indices.
proof fn lemma_edge_maps(code: Seq<Instruction>, hs: Seq<HandlerV>, pc: int, q: int)
    requires
        code.len() <= usize::MAX,
        live_pc(code, hs, pc),
        edge(cfg(code), pc, q),
    ensures
        live_pc(code, hs, q),
        edge(cfg(compact(code, live_marks(code, hs), code.len() as int)),
            count_true(live_marks(code, hs).take(pc)) as int,
            count_true(live_marks(code, hs).take(q)) as int),
{
    let m = live_marks(code, hs);
    let n: int = code.len() as int;
    let c = compact(code, m, n);
    let ins = code[pc];
    let succ = successors(code, pc);
    assert(cfg(code)[pc] == succ);
    let k: int = choose|k: int| 0 <= k < succ.len() && succ[k] == q;
    let tl = match jump_target(ins) {
        Some(t) => if t < code.len() { seq![t] } else { Seq::<usize>::empty() },
        None => Seq::<usize>::empty(),
    };
    let fl = if falls_through(ins) && pc + 1 < code.len() { seq![(pc + 1) as usize] } else { Seq::<usize>::empty() };
    assert(succ == tl + fl);
    assert(m[pc]);
    lemma_compact_at(code, m, n, pc);
    lemma_compact_len(code, m, n);
    assert(m.take(n) =~= m);
    let np: int = count_true(m.take(pc)) as int;
    let r = renumber(ins, m);
    assert(c[np] == r);
    lemma_renumber(ins, m);
    let nsucc = successors(c, np);
    assert(cfg(c)[np] == nsucc);
    assert(c.len() == count_true(m));
    lemma_count_true_bound(m);
    let ntl = match jump_target(r) {
        Some(t) => if t < c.len() { seq![t] } else { Seq::<usize>::empty() },
        None => Seq::<usize>::empty(),
    };
    let nfl = if falls_through(r) && np + 1 < c.len() { seq![(np + 1) as usize] } else { Seq::<usize>::empty() };
    assert(nsucc == ntl + nfl);
    if k < tl.len() {
        let t: usize = jump_target(ins)->0;
        assert(q == t && t < code.len());
        lemma_successor_live(code, hs, pc, q);
        lemma_new_index_below(m, q);
        assert(jump_target(r) == Some(new_index(m, q)));
        assert(ntl == seq![new_index(m, q)]);
        assert(nsucc[0] == ntl[0]);
        assert(nsucc[0] == count_true(m.take(q)));
    } else {
        assert(q == pc + 1 && falls_through(ins) && pc + 1 < code.len());
        lemma_successor_live(code, hs, pc, q);
        lemma_new_index_below(m, q);
        lemma_count_take_step(m, pc);
        assert(falls_through(r));
        assert(count_true(m.take(q)) == np + 1);
        assert(np + 1 < c.len());
        assert(nfl == seq![(np + 1) as usize]);
        assert(nsucc[ntl.len() as int] == nfl[0]);
        assert(nsucc[ntl.len() as int] == count_true(m.take(q)));
    }
}

/// A root's new index is a root of the compacted code.
#[verifier::rlimit(30)]
proof fn lemma_root_maps(code: Seq<Instruction>, hs: Seq<HandlerV>, xu: usize)
    requires
        code.len() > 0,
        code.len() <= usize::MAX,
        cfg_roots(code, hs).contains(xu),
    ensures
        live_pc(code, hs, xu as int),
        reachable(cfg(optimized(code, hs).0), cfg_roots(optimized(code, hs).0, optimized(code, hs).1),
            count_true(live_marks(code, hs).take(xu as int)) as int),
{
    let x: int = xu as int;
    let m = live_marks(code, hs);
    let n: int = code.len() as int;
    let (c, hs2) = optimized(code, hs);
    let roots = cfg_roots(code, hs);
    let roots2 = cfg_roots(c, hs2);
    lemma_compact_len(code, m, n);
    assert(m.take(n) =~= m);
    let ri: int = choose|ri: int| 0 <= ri < roots.len() && roots[ri] == xu;
    let nx: int = count_true(m.take(x)) as int;
    if ri == 0 {
        assert(x == 0);
        assert(roots[0] == seq![x][0]);
        assert(is_path(cfg(code), roots, seq![x]));
        assert(m.take(0) =~= Seq::<bool>::empty());
        assert(roots2[0] == 0);
        assert(is_path(cfg(c), roots2, seq![nx]));
    } else {
        let cr = catch_roots(code, hs);
        assert(roots[ri] == cr[ri - 1]);
        lemma_catch_root_from(code, hs, ri - 1);
        let k: int = choose|k: int| 0 <= k < hs.len() && hs[k].catch_pc == cr[ri - 1] && hs[k].catch_pc < code.len();
        assert(roots[ri] == seq![x][0]);
        assert(is_path(cfg(code), roots, seq![x]));
        assert(live_pc(code, hs, x));
        assert(m[x]);
        lemma_new_index_below(m, x);
        assert(hs2[k].catch_pc == new_index(m, x));
        lemma_catch_root_in(c, hs2, k);
        let cr2 = catch_roots(c, hs2);
        let i2: int = choose|i2: int| 0 <= i2 < cr2.len() && cr2[i2] == hs2[k].catch_pc;
        assert(roots2[i2 + 1] == cr2[i2]);
        lemma_count_true_bound(m);
        assert(roots2[i2 + 1] == seq![nx][0]);
        assert(is_path(cfg(c), roots2, seq![nx]));
    }
    assert(seq![nx].last() == nx);
    assert(seq![x].last() == x);
}

/// The new index of a live instruction is reachable in the compacted code.
proof fn lemma_path_maps(code: Seq<Instruction>, hs: Seq<HandlerV>, path: Seq<int>)
    requires
        code.len() > 0,
        code.len() <= usize::MAX,
        indices_in_bounds(code, hs),
        is_path(cfg(code), cfg_roots(code, hs), path),
    ensures
        live_pc(code, hs, path.last()),
        reachable(cfg(optimized(code, hs).0), cfg_roots(optimized(code, hs).0, optimized(code, hs).1),
            count_true(live_marks(code, hs).take(path.last())) as int),
    decreases path.len(),
{
    let m = live_marks(code, hs);
    let n: int = code.len() as int;
    let (c, hs2) = optimized(code, hs);
    let roots = cfg_roots(code, hs);
    let roots2 = cfg_roots(c, hs2);
    lemma_compact_len(code, m, n);
    assert(m.take(n) =~= m);
    if path.len() == 1 {
        let ri: int = choose|k: int| 0 <= k < roots.len() && roots[k] == path[0];
        assert(path.last() == path[0]);
        lemma_root_maps(code, hs, roots[ri]);
    } else {
        let pre = path.drop_last();
        assert forall|k: int| 0 <= k < pre.len() - 1 implies #[trigger] edge(cfg(code), pre[k], pre[k + 1]) by {
            assert(edge(cfg(code), path[k], path[k + 1]));
        }
        assert(pre[0] == path[0]);
        assert(is_path(cfg(code), roots, pre));
        lemma_path_maps(code, hs, pre);
        let a: int = pre.last();
        let k2: int = path.len() - 2;
        assert(edge(cfg(code), path[k2], path[k2 + 1]));
        assert(a == path[k2] && path.last() == path[k2 + 1]);
        lemma_edge_maps(code, hs, a, path.last());
        lemma_path_extend(cfg(c), roots2, count_true(m.take(a)) as int, count_true(m.take(path.last())) as int);
    }
}

proof fn lemma_all_true_count(m: Seq<bool>, t: int)
    requires
        0 <= t <= m.len(),
        forall|i: int| 0 <= i < m.len() ==> m[i],
    ensures
        count_true(m.take(t)) == t,
    decreases t,
{
    if t > 0 {
        lemma_all_true_count(m, t - 1);
        lemma_count_take_step(m, t - 1);
    } else {
        assert(m.take(0) =~= Seq::<bool>::empty());
    }
}

/// With every instruction kept, compaction changes nothing.
proof fn lemma_compact_all(c: Seq<Instruction>, m: Seq<bool>, n: int)
    requires
        0 <= n <= c.len(),
        m.len() == c.len(),
        forall|i: int| 0 <= i < m.len() ==> m[i],
        forall|pc: int| 0 <= pc < c.len() ==> match jump_target(#[trigger] c[pc]) {
            Some(t) => t <= c.len(),
            None => true,
        },
    ensures
        compact(c, m, n) == c.take(n),
    decreases n,
{
    if n <= 0 {
        assert(c.take(0) =~= Seq::<Instruction>::empty());
    } else {
        lemma_compact_all(c, m, n - 1);
        let i = c[n - 1];
        assert(renumber(i, m) == i) by {
            if let Some(t) = jump_target(i) {
                lemma_all_true_count(m, t as int);
            }
        }
        assert(c.take(n) =~= c.take(n - 1).push(i));
    }
}

/// Removing unreachable code a second time changes nothing: every
/// instruction left after the first pass can be reached.
pub proof fn law_optimize_idempotent(code: Seq<Instruction>, hs: Seq<HandlerV>)
    requires
        code.len() <= usize::MAX,
        indices_in_bounds(code, hs),
    ensures
        optimized(optimized(code, hs).0, optimized(code, hs).1) == optimized(code, hs),
{
    if code.len() > 0 {
        let m = live_marks(code, hs);
        let n: int = code.len() as int;
        let (c, hs2) = optimized(code, hs);
        lemma_compact_len(code, m, n);
        assert(m.take(n) =~= m);
        law_optimize_keeps_bounds(code, hs);
        // The entry is live, so the compacted code is not empty.
        let roots = cfg_roots(code, hs);
        assert(roots[0] == 0);
        assert(is_path(cfg(code), roots, seq![0int]));
        assert(m[0]);
        lemma_new_index_below(m, 0);
        let m2 = live_marks(c, hs2);
        assert forall|j: int| 0 <= j < m2.len() implies m2[j] by {
            lemma_compact_source(m, n, j);
            let pc: int = choose|pc: int| 0 <= pc < n && m[pc] && count_true(m.take(pc)) == j;
            assert(live_pc(code, hs, pc));
            let path = choose|path: Seq<int>| #[trigger] is_path(cfg(code), roots, path) && path.last() == pc;
            lemma_path_maps(code, hs, path);
        }
        lemma_compact_all(c, m2, c.len() as int);
        assert(c.take(c.len() as int) =~= c);
        let hs3 = optimized(c, hs2).1;
        assert forall|k: int| 0 <= k < hs3.len() implies hs3[k] == hs2[k] by {
            lemma_all_true_count(m2, hs2[k].start_pc as int);
            lemma_all_true_count(m2, hs2[k].end_pc as int);
            lemma_all_true_count(m2, hs2[k].catch_pc as int);
        }
        assert(hs3 =~= hs2);
    }
}

} // verus!
