//! The text of a value as `print`, `println` and `to_string` show it.
//!
//! Floats are left to the host, which formats their bits; everything else
//! is rendered here. Nested arrays and tables are shown up to a depth of
//! `MAX_PRINT_DEPTH`; an array or table that contains itself is shown as
//! `[...]` or `{...}` where it recurs.
use vstd::prelude::*;
use crate::heap::{Heap, Obj, ObjV, Value};
use crate::value::StringPool;
use crate::fmt::{int_text, nat_digits};

verus! {

/// How deep nested arrays and tables are shown.
pub const MAX_PRINT_DEPTH: usize = 100;

/// One unit of rendered text: a character, or a float (by its bits) that
/// the host formats in its place.
#[derive(Clone, Copy, PartialEq, Eq, Structural, Debug)]
pub enum Unit<C> {
    Ch(C),
    Fl(u64),
}

/// A unit of text as `value_to_string` produces it.
pub type Chunk = Unit<char>;

/// Literal characters as chunks.
pub open spec fn txt(s: Seq<char>) -> Seq<Chunk>
    decreases s.len(),
{
    if s.len() == 0 { Seq::empty() } else { txt(s.drop_last()).push(Unit::Ch(s.last())) }
}

/// What is left of the depth budget.
pub open spec fn budget(depth: nat) -> nat {
    if depth <= 101 { (101 - depth) as nat } else { 0 }
}

/// The elements of array object `a` (none if there is no such array).
pub open spec fn elems(h: Seq<ObjV>, a: usize) -> Seq<Value> {
    if a < h.len() {
        match h[a as int] {
            ObjV::Array(vs) => vs,
            _ => Seq::empty(),
        }
    } else {
        Seq::empty()
    }
}

/// The entries of table object `t` (none if there is no such table).
pub open spec fn entries(h: Seq<ObjV>, t: usize) -> Seq<(usize, Value)> {
    if t < h.len() {
        match h[t as int] {
            ObjV::Table(es) => es,
            _ => Seq::empty(),
        }
    } else {
        Seq::empty()
    }
}

/// The characters of string object `i` (none if there is no such string).
pub open spec fn chars_at(h: Seq<ObjV>, i: usize) -> Seq<char> {
    if i < h.len() {
        match h[i as int] {
            ObjV::Str(s) => s,
            _ => Seq::empty(),
        }
    } else {
        Seq::empty()
    }
}

/// The text of symbol `s` (empty if the pool has no such symbol).
pub open spec fn symbol_text(pool: Seq<Seq<char>>, s: usize) -> Seq<char> {
    if s < pool.len() { pool[s as int] } else { Seq::empty() }
}

/// The text of `v` at nesting depth `depth`, where `sa` and `st` are the
/// arrays and tables being shown around it.
pub open spec fn show(h: Seq<ObjV>, pool: Seq<Seq<char>>, v: Value, sa: Seq<usize>, st: Seq<usize>, depth: nat) -> Seq<Chunk>
    decreases budget(depth), 0nat,
{
    if depth > MAX_PRINT_DEPTH {
        txt("..."@)
    } else {
        match v {
            Value::Null => txt("null"@),
            Value::Int(i) => txt(int_text(i as int)),
            Value::Float(b) => seq![Unit::Fl(b)],
            Value::Bool(b) => txt(if b { "true"@ } else { "false"@ }),
            Value::String(i) => txt(chars_at(h, i)),
            Value::Symbol(s) => txt(symbol_text(pool, s)),
            Value::Array(a) => if sa.contains(a) {
                txt("[...]"@)
            } else {
                txt("["@) + show_items(h, pool, elems(h, a), sa.push(a), st, depth + 1) + txt("]"@)
            },
            Value::Table(t) => if st.contains(t) {
                txt("{...}"@)
            } else {
                txt("{ "@) + show_pairs(h, pool, entries(h, t), sa, st.push(t), depth + 1) + txt(" }"@)
            },
            Value::Function(id) => txt("<function:"@ + nat_digits(id as nat) + ">"@),
        }
    }
}

/// The elements shown one after the other, separated by `, `.
pub open spec fn show_items(h: Seq<ObjV>, pool: Seq<Seq<char>>, items: Seq<Value>, sa: Seq<usize>, st: Seq<usize>, depth: nat) -> Seq<Chunk>
    decreases budget(depth), items.len() + 1,
{
    if items.len() == 0 {
        Seq::empty()
    } else {
        show_items(h, pool, items.drop_last(), sa, st, depth)
            + (if items.len() > 1 { txt(", "@) } else { Seq::empty() })
            + show(h, pool, items.last(), sa, st, depth)
    }
}

/// The entries shown as `key: value`, separated by `, `.
pub open spec fn show_pairs(h: Seq<ObjV>, pool: Seq<Seq<char>>, es: Seq<(usize, Value)>, sa: Seq<usize>, st: Seq<usize>, depth: nat) -> Seq<Chunk>
    decreases budget(depth), es.len() + 1,
{
    if es.len() == 0 {
        Seq::empty()
    } else {
        show_pairs(h, pool, es.drop_last(), sa, st, depth)
            + (if es.len() > 1 { txt(", "@) } else { Seq::empty() })
            + txt(symbol_text(pool, es.last().0))
            + txt(": "@)
            + show(h, pool, es.last().1, sa, st, depth)
    }
}

/// The text of `v` as `print` and `to_string` show it.
pub open spec fn value_text(h: Seq<ObjV>, pool: Seq<Seq<char>>, v: Value) -> Seq<Chunk> {
    show(h, pool, v, Seq::empty(), Seq::empty(), 0)
}

pub(crate) fn push_chars(out: &mut Vec<Chunk>, s: &Vec<char>)
    ensures
        final(out)@ == old(out)@ + txt(s@),
{
    let mut k: usize = 0;
    proof {
        assert(s@.take(0) =~= Seq::<char>::empty());
        lemma_lit_empty();
        assert(out@ =~= old(out)@ + txt(s@.take(0)));
    }
    while k < s.len()
        invariant
            k <= s@.len(),
            out@ == old(out)@ + txt(s@.take(k as int)),
        decreases s@.len() - k,
    {
        out.push(Unit::Ch(s[k]));
        proof {
            lemma_lit(s@.take(k + 1));
            lemma_lit(s@.take(k as int));
            assert(txt(s@.take(k + 1)) =~= txt(s@.take(k as int)).push(Unit::Ch(s@[k as int])));
        }
        k = k + 1;
    }
    assert(s@.take(s@.len() as int) =~= s@);
}

pub(crate) fn push_lit(out: &mut Vec<Chunk>, s: &str)
    ensures
        final(out)@ == old(out)@ + txt(s@),
{
    let c = crate::text::chars_of(s);
    push_chars(out, &c);
}

fn contains(v: &Vec<usize>, x: usize) -> (r: bool)
    ensures
        r == v@.contains(x),
{
    let mut k: usize = 0;
    while k < v.len()
        invariant
            k <= v@.len(),
            forall|j: int| 0 <= j < k ==> v@[j] != x,
        decreases v@.len() - k,
    {
        if v[k] == x {
            assert(v@[k as int] == x);
            return true;
        }
        k = k + 1;
    }
    false
}

proof fn lemma_lit(s: Seq<char>)
    ensures
        txt(s).len() == s.len(),
        forall|i: int| 0 <= i < s.len() ==> #[trigger] txt(s)[i] == Unit::Ch(s[i]),
    decreases s.len(),
{
    if s.len() > 0 {
        lemma_lit(s.drop_last());
        assert forall|i: int| 0 <= i < s.len() implies #[trigger] txt(s)[i] == Unit::Ch(s[i]) by {
            if i < s.len() - 1 {
                assert(txt(s)[i] == txt(s.drop_last())[i]);
            }
        }
    }
}

pub(crate) proof fn lemma_lit_concat(a: Seq<char>, b: Seq<char>)
    ensures
        txt(a + b) == txt(a) + txt(b),
{
    lemma_lit(a);
    lemma_lit(b);
    lemma_lit(a + b);
    assert(txt(a + b) =~= txt(a) + txt(b));
}

proof fn lemma_lit_empty()
    ensures
        txt(Seq::<char>::empty()) == Seq::<Chunk>::empty(),
{
    lemma_lit(Seq::<char>::empty());
    assert(txt(Seq::<char>::empty()) =~= Seq::<Chunk>::empty());
}

/// Appends the text of `v` (see `show`).
fn show_into(h: &Heap, pool: &StringPool, v: Value, sa: &mut Vec<usize>, st: &mut Vec<usize>, depth: usize, out: &mut Vec<Chunk>)
    requires
        depth <= 101,
    ensures
        final(out)@ == old(out)@ + show(h@, pool@, v, old(sa)@, old(st)@, depth as nat),
        final(sa)@ == old(sa)@,
        final(st)@ == old(st)@,
    decreases budget(depth as nat), 0nat,
{
    if depth > MAX_PRINT_DEPTH {
        push_lit(out, "...");
        return;
    }
    match v {
        Value::Null => push_lit(out, "null"),
        Value::Int(i) => {
            let t = crate::fmt::i64_text(i);
            push_chars(out, &t);
        },
        Value::Float(b) => {
            out.push(Unit::Fl(b));
            assert(out@ =~= old(out)@ + seq![Unit::Fl(b)]);
        },
        Value::Bool(b) => {
            if b { push_lit(out, "true") } else { push_lit(out, "false") }
        },
        Value::String(i) => {
            if i < h.objs.len() {
                match &h.objs[i] {
                    Obj::Str(s) => push_chars(out, s),
                    _ => {
                        proof { lemma_lit_empty(); }
                        assert(out@ =~= old(out)@ + txt(Seq::empty()));
                    },
                }
            } else {
                proof { lemma_lit_empty(); }
                        assert(out@ =~= old(out)@ + txt(Seq::empty()));
            }
        },
        Value::Symbol(s) => {
            if s < pool.len() {
                push_chars(out, pool.get_chars(s));
            } else {
                proof { lemma_lit_empty(); }
                        assert(out@ =~= old(out)@ + txt(Seq::empty()));
            }
        },
        Value::Array(a) => {
            if contains(sa, a) {
                push_lit(out, "[...]");
                return;
            }
            push_lit(out, "[");
            let ghost o1 = out@;
            let ghost sa0 = sa@;
            sa.push(a);
            let ghost items = elems(h@, a);
            let empty: Vec<Value> = Vec::new();
            let es: &Vec<Value> = if a < h.objs.len() {
                match &h.objs[a] {
                    Obj::Array(vs) => vs,
                    _ => &empty,
                }
            } else {
                &empty
            };
            assert(es@ == items);
            let mut k: usize = 0;
            proof {
                assert(items.take(0) =~= Seq::<Value>::empty());
                assert(out@ =~= o1 + show_items(h@, pool@, items.take(0), sa0.push(a), st@, (depth + 1) as nat));
            }
            while k < es.len()
                invariant
                    k <= es@.len(),
                    es@ == items,
                    depth <= 100,
                    sa@ == sa0.push(a),
                    st@ == old(st)@,
                    out@ == o1 + show_items(h@, pool@, items.take(k as int), sa0.push(a), st@, (depth + 1) as nat),
                decreases es@.len() - k,
            {
                let ghost before = out@;
                if k > 0 {
                    push_lit(out, ", ");
                }
                show_into(h, pool, es[k], sa, st, depth + 1, out);
                proof {
                    let t = items.take(k + 1);
                    assert(t.drop_last() =~= items.take(k as int));
                    assert(t.last() == items[k as int]);
                }
                k = k + 1;
                assert(out@ =~= o1 + show_items(h@, pool@, items.take(k as int), sa0.push(a), st@, (depth + 1) as nat));
            }
            proof {
                assert(items.take(k as int) =~= items);
            }
            sa.pop();
            assert(sa@ =~= sa0);
            push_lit(out, "]");
            assert(out@ =~= old(out)@ + show(h@, pool@, v, old(sa)@, old(st)@, depth as nat));
        },
        Value::Table(t) => {
            if contains(st, t) {
                push_lit(out, "{...}");
                return;
            }
            push_lit(out, "{ ");
            let ghost o1 = out@;
            let ghost st0 = st@;
            st.push(t);
            let ghost ps = entries(h@, t);
            let empty: Vec<(usize, Value)> = Vec::new();
            let es: &Vec<(usize, Value)> = if t < h.objs.len() {
                match &h.objs[t] {
                    Obj::Table(vs) => vs,
                    _ => &empty,
                }
            } else {
                &empty
            };
            assert(es@ == ps);
            let mut k: usize = 0;
            proof {
                assert(ps.take(0) =~= Seq::<(usize, Value)>::empty());
                assert(out@ =~= o1 + show_pairs(h@, pool@, ps.take(0), sa@, st0.push(t), (depth + 1) as nat));
            }
            while k < es.len()
                invariant
                    k <= es@.len(),
                    es@ == ps,
                    depth <= 100,
                    st@ == st0.push(t),
                    sa@ == old(sa)@,
                    out@ == o1 + show_pairs(h@, pool@, ps.take(k as int), sa@, st0.push(t), (depth + 1) as nat),
                decreases es@.len() - k,
            {
                if k > 0 {
                    push_lit(out, ", ");
                }
                let (key, val) = es[k];
                if key < pool.len() {
                    push_chars(out, pool.get_chars(key));
                } else {
                    proof { lemma_lit_empty(); }
                    assert(out@ =~= out@ + txt(Seq::empty()));
                }
                push_lit(out, ": ");
                show_into(h, pool, val, sa, st, depth + 1, out);
                proof {
                    let q = ps.take(k + 1);
                    assert(q.drop_last() =~= ps.take(k as int));
                    assert(q.last() == ps[k as int]);
                }
                k = k + 1;
                assert(out@ =~= o1 + show_pairs(h@, pool@, ps.take(k as int), sa@, st0.push(t), (depth + 1) as nat));
            }
            proof {
                assert(ps.take(k as int) =~= ps);
            }
            st.pop();
            assert(st@ =~= st0);
            push_lit(out, " }");
            assert(out@ =~= old(out)@ + show(h@, pool@, v, old(sa)@, old(st)@, depth as nat));
        },
        Value::Function(id) => {
            push_lit(out, "<function:");
            let d = crate::fmt::usize_text(id);
            push_chars(out, &d);
            push_lit(out, ">");
            proof {
                lemma_lit_concat("<function:"@, nat_digits(id as nat));
                lemma_lit_concat("<function:"@ + nat_digits(id as nat), ">"@);
            }
            assert(out@ =~= old(out)@ + show(h@, pool@, v, old(sa)@, old(st)@, depth as nat));
        },
    }
}

/// The text of `v` as `print` and `to_string` show it: the contents of
/// strings and symbols, the decimal text of integers, `true`/`false`,
/// `null`, `<function:N>`, arrays as `[a, b]` and tables as `{ k: v }` in
/// the order of their entries. Floats are left as `Chunk::Fl` for the host
/// to format.
pub fn value_to_string(h: &Heap, pool: &StringPool, v: Value) -> (r: Vec<Chunk>)
    ensures
        r@ == value_text(h@, pool@, v),
{
    let mut out: Vec<Chunk> = Vec::new();
    let mut sa: Vec<usize> = Vec::new();
    let mut st: Vec<usize> = Vec::new();
    show_into(h, pool, v, &mut sa, &mut st, 0, &mut out);
    assert(out@ =~= value_text(h@, pool@, v));
    out
}

} // verus!
