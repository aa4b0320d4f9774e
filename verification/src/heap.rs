//! Runtime values and the heap that holds strings, arrays and tables.
//!
//! A value is plain data; strings, arrays and tables live in the heap and a
//! value refers to them by index. Two values that hold the same index share
//! the object, as shared references to one cell would.
use vstd::prelude::*;
use crate::graph::{graph_wf, reachable, reachable_set};
use crate::value::Symbol;

verus! {

/// A value of the language. `Float` holds the IEEE-754 bits of a 64-bit
/// float; strings, arrays and tables are heap indices.
#[derive(Clone, Copy, PartialEq, Eq, Structural, Debug)]
pub enum Value {
    Null,
    Int(i64),
    Float(u64),
    Bool(bool),
    String(usize),
    Symbol(Symbol),
    Array(usize),
    Table(usize),
    Function(usize),
}

/// A heap object.
pub enum Obj {
    Array(Vec<Value>),
    Table(Vec<(Symbol, Value)>),
    Str(Vec<char>),
    /// A slot whose object the collector reclaimed.
    Free,
}

/// The mathematical content of a heap object.
pub enum ObjV {
    Array(Seq<Value>),
    Table(Seq<(Symbol, Value)>),
    Str(Seq<char>),
    Free,
}

impl View for Obj {
    type V = ObjV;

    open spec fn view(&self) -> ObjV {
        match self {
            Obj::Array(v) => ObjV::Array(v@),
            Obj::Table(v) => ObjV::Table(v@),
            Obj::Str(v) => ObjV::Str(v@),
            Obj::Free => ObjV::Free,
        }
    }
}

/// The largest index an array may be grown to by an indexed store, and the
/// largest length `push`, `insert` and `extend` may reach.
pub const MAX_ARRAY_SIZE: usize = 100_000;

/// The heap: objects indexed by handle.
pub struct Heap {
    pub objs: Vec<Obj>,
}

impl View for Heap {
    type V = Seq<ObjV>;

    open spec fn view(&self) -> Seq<ObjV> {
        self.objs@.map_values(|o: Obj| o@)
    }
}

/// Limits that values must respect: symbols index the string pool and
/// function values index the program's functions.
pub struct Bounds {
    pub nsym: nat,
    pub nfun: nat,
}

/// `v` refers only to existing objects of the right kind, to interned
/// symbols and to existing functions.
pub open spec fn value_ok(h: Seq<ObjV>, b: Bounds, v: Value) -> bool {
    match v {
        Value::String(i) => i < h.len() && h[i as int] is Str,
        Value::Array(i) => i < h.len() && h[i as int] is Array,
        Value::Table(i) => i < h.len() && h[i as int] is Table,
        Value::Symbol(s) => s < b.nsym,
        Value::Function(f) => f < b.nfun,
        _ => true,
    }
}

/// No key occurs twice in a table.
pub open spec fn keys_distinct(t: Seq<(Symbol, Value)>) -> bool {
    forall|i: int, j: int| 0 <= i < t.len() && 0 <= j < t.len() && i != j ==> t[i].0 != t[j].0
}

pub open spec fn values_ok(h: Seq<ObjV>, b: Bounds, vs: Seq<Value>) -> bool {
    forall|k: int| 0 <= k < vs.len() ==> value_ok(h, b, #[trigger] vs[k])
}

pub open spec fn obj_ok(h: Seq<ObjV>, b: Bounds, o: ObjV) -> bool {
    match o {
        ObjV::Array(vs) => values_ok(h, b, vs),
        ObjV::Table(t) => keys_distinct(t) && (forall|k: int| 0 <= k < t.len() ==> value_ok(h, b, #[trigger] t[k].1))
            && (forall|k: int| 0 <= k < t.len() ==> #[trigger] t[k].0 < b.nsym),
        _ => true,
    }
}

/// Every object refers only to valid things.
pub open spec fn heap_wf(h: Seq<ObjV>, b: Bounds) -> bool {
    forall|i: int| 0 <= i < h.len() ==> obj_ok(h, b, #[trigger] h[i])
}

/// Two heaps have the same objects' kinds at the same indices (the second
/// may be longer).
pub open spec fn kinds_kept(h1: Seq<ObjV>, h2: Seq<ObjV>) -> bool {
    &&& h1.len() <= h2.len()
    &&& forall|i: int| 0 <= i < h1.len() ==> {
        &&& (h1[i] is Str <==> #[trigger] h2[i] is Str)
        &&& (h1[i] is Array <==> h2[i] is Array)
        &&& (h1[i] is Table <==> h2[i] is Table)
    }
}

pub proof fn lemma_value_ok_kept(h1: Seq<ObjV>, h2: Seq<ObjV>, b: Bounds, v: Value)
    requires
        kinds_kept(h1, h2),
        value_ok(h1, b, v),
    ensures
        value_ok(h2, b, v),
{
}

pub proof fn lemma_values_ok_kept(h1: Seq<ObjV>, h2: Seq<ObjV>, b: Bounds, vs: Seq<Value>)
    requires
        kinds_kept(h1, h2),
        values_ok(h1, b, vs),
    ensures
        values_ok(h2, b, vs),
{
    assert forall|k: int| 0 <= k < vs.len() implies value_ok(h2, b, #[trigger] vs[k]) by {
        lemma_value_ok_kept(h1, h2, b, vs[k]);
    }
}

pub proof fn lemma_obj_ok_kept(h1: Seq<ObjV>, h2: Seq<ObjV>, b: Bounds, o: ObjV)
    requires
        kinds_kept(h1, h2),
        obj_ok(h1, b, o),
    ensures
        obj_ok(h2, b, o),
{
    match o {
        ObjV::Array(vs) => lemma_values_ok_kept(h1, h2, b, vs),
        ObjV::Table(t) => {
            assert forall|k: int| 0 <= k < t.len() implies value_ok(h2, b, #[trigger] t[k].1) by {
                lemma_value_ok_kept(h1, h2, b, t[k].1);
            }
        },
        _ => {},
    }
}

/// Replacing object `i` by one of the same kind that is valid keeps the heap valid.
pub proof fn lemma_replace_keeps_wf(h: Seq<ObjV>, b: Bounds, i: int, o: ObjV)
    requires
        heap_wf(h, b),
        0 <= i < h.len(),
        (h[i] is Str <==> o is Str) && (h[i] is Array <==> o is Array) && (h[i] is Table <==> o is Table),
        obj_ok(h, b, o),
    ensures
        kinds_kept(h, h.update(i, o)),
        heap_wf(h.update(i, o), b),
{
    let h2 = h.update(i, o);
    assert(kinds_kept(h, h2));
    assert forall|j: int| 0 <= j < h2.len() implies obj_ok(h2, b, #[trigger] h2[j]) by {
        if j == i {
            lemma_obj_ok_kept(h, h2, b, o);
        } else {
            lemma_obj_ok_kept(h, h2, b, h[j]);
        }
    }
}

/// Appending a valid object keeps the heap valid.
pub proof fn lemma_push_keeps_wf(h: Seq<ObjV>, b: Bounds, o: ObjV)
    requires
        heap_wf(h, b),
        obj_ok(h, b, o),
    ensures
        kinds_kept(h, h.push(o)),
        heap_wf(h.push(o), b),
{
    let h2 = h.push(o);
    assert(kinds_kept(h, h2));
    assert forall|j: int| 0 <= j < h2.len() implies obj_ok(h2, b, #[trigger] h2[j]) by {
        if j == h.len() {
            lemma_obj_ok_kept(h, h2, b, o);
        } else {
            lemma_obj_ok_kept(h, h2, b, h[j]);
        }
    }
}

/// The heap index a value refers to, if any.
pub open spec fn handle_of(v: Value) -> Option<usize> {
    match v {
        Value::String(i) => Some(i),
        Value::Array(i) => Some(i),
        Value::Table(i) => Some(i),
        _ => None,
    }
}

/// The heap indices the object refers to, in order of its contents.
pub open spec fn obj_refs(o: ObjV) -> Seq<usize> {
    match o {
        ObjV::Array(vs) => handles_of(vs),
        ObjV::Table(t) => handles_of(t.map_values(|e: (Symbol, Value)| e.1)),
        _ => Seq::empty(),
    }
}

/// The heap indices a sequence of values refers to.
pub open spec fn handles_of(vs: Seq<Value>) -> Seq<usize>
    decreases vs.len(),
{
    if vs.len() == 0 {
        Seq::empty()
    } else {
        handles_of(vs.drop_last()) + match handle_of(vs.last()) {
            Some(i) => seq![i],
            None => Seq::empty(),
        }
    }
}

/// The heap as a graph: each object's successors are the objects it refers to.
pub open spec fn heap_graph(h: Seq<ObjV>) -> Seq<Seq<usize>> {
    h.map_values(|o: ObjV| obj_refs(o))
}

/// Objects reachable from the given root values.
pub open spec fn live(h: Seq<ObjV>, roots: Seq<Value>, i: int) -> bool {
    reachable(heap_graph(h), handles_of(roots), i)
}

/// The heap after a collection: every object reachable from `roots` is
/// kept; every other object is reclaimed.
pub open spec fn collected(h: Seq<ObjV>, roots: Seq<Value>) -> Seq<ObjV> {
    Seq::new(h.len(), |i: int| if live(h, roots, i) { h[i] } else { ObjV::Free })
}

/// How many arrays and tables a collection reclaims.
pub open spec fn reclaimed_count(h: Seq<ObjV>, roots: Seq<Value>, n: int) -> nat
    decreases n,
{
    if n <= 0 {
        0
    } else {
        reclaimed_count(h, roots, n - 1) + if !live(h, roots, n - 1) && (h[n - 1] is Array || h[n - 1] is Table) {
            1nat
        } else {
            0nat
        }
    }
}

/// A value's handle, if any, is among the handles of any sequence holding it.
pub proof fn lemma_handles_of_contains(vs: Seq<Value>, k: int)
    requires
        0 <= k < vs.len(),
        handle_of(vs[k]) is Some,
    ensures
        handles_of(vs).contains(handle_of(vs[k])->0),
    decreases vs.len(),
{
    let i = handle_of(vs[k])->0;
    if k == vs.len() - 1 {
        let hs = handles_of(vs);
        assert(hs[hs.len() - 1] == i);
    } else {
        lemma_handles_of_contains(vs.drop_last(), k);
        let p = handles_of(vs.drop_last());
        let q = choose|q: int| 0 <= q < p.len() && p[q] == i;
        assert(handles_of(vs)[q] == i);
    }
}

/// Every handle among `handles_of(vs)` is the handle of some value of `vs`.
pub proof fn lemma_handles_of_from(vs: Seq<Value>, q: int)
    requires
        0 <= q < handles_of(vs).len(),
    ensures
        exists|k: int| 0 <= k < vs.len() && handle_of(vs[k]) == Some(handles_of(vs)[q]),
    decreases vs.len(),
{
    let p = handles_of(vs.drop_last());
    if q < p.len() {
        lemma_handles_of_from(vs.drop_last(), q);
        let k = choose|k: int| 0 <= k < vs.drop_last().len() && handle_of(vs.drop_last()[k]) == Some(p[q]);
        assert(vs[k] == vs.drop_last()[k]);
    } else {
        assert(handle_of(vs[vs.len() - 1]) == Some(handles_of(vs)[q]));
    }
}

/// Valid values refer to heap indices that exist.
pub proof fn lemma_handles_in_range(h: Seq<ObjV>, b: Bounds, vs: Seq<Value>)
    requires
        values_ok(h, b, vs),
    ensures
        forall|q: int| 0 <= q < handles_of(vs).len() ==> #[trigger] handles_of(vs)[q] < h.len(),
{
    assert forall|q: int| 0 <= q < handles_of(vs).len() implies #[trigger] handles_of(vs)[q] < h.len() by {
        lemma_handles_of_from(vs, q);
        let k = choose|k: int| 0 <= k < vs.len() && handle_of(vs[k]) == Some(handles_of(vs)[q]);
        assert(value_ok(h, b, vs[k]));
    }
}

pub proof fn lemma_heap_graph_wf(h: Seq<ObjV>, b: Bounds, roots: Seq<Value>)
    requires
        heap_wf(h, b),
        values_ok(h, b, roots),
    ensures
        graph_wf(heap_graph(h), handles_of(roots)),
{
    let g = heap_graph(h);
    lemma_handles_in_range(h, b, roots);
    assert forall|i: int, k: int| 0 <= i < g.len() && 0 <= k < g[i].len() implies g[i][k] < g.len() by {
        assert(obj_ok(h, b, h[i]));
        match h[i] {
            ObjV::Array(vs) => {
                lemma_handles_in_range(h, b, vs);
            },
            ObjV::Table(t) => {
                let vs = t.map_values(|e: (Symbol, Value)| e.1);
                assert forall|j: int| 0 <= j < vs.len() implies value_ok(h, b, #[trigger] vs[j]) by {
                    assert(value_ok(h, b, t[j].1));
                }
                lemma_handles_in_range(h, b, vs);
            },
            _ => {},
        }
    }
}

/// The values of a table's entries.
pub open spec fn table_values(t: Seq<(Symbol, Value)>) -> Seq<Value> {
    t.map_values(|e: (Symbol, Value)| e.1)
}

/// A value held by a live object, or a root, refers to a live object.
proof fn lemma_live_value(h: Seq<ObjV>, roots: Seq<Value>, i: int, vs: Seq<Value>, k: int)
    requires
        0 <= i < h.len(),
        live(h, roots, i),
        obj_refs(h[i]) == handles_of(vs),
        0 <= k < vs.len(),
        handle_of(vs[k]) is Some,
    ensures
        live(h, roots, handle_of(vs[k])->0 as int),
{
    let g = heap_graph(h);
    let j = handle_of(vs[k])->0;
    lemma_handles_of_contains(vs, k);
    let q = choose|q: int| 0 <= q < handles_of(vs).len() && handles_of(vs)[q] == j;
    assert(g[i] == obj_refs(h[i]));
    assert(crate::graph::edge(g, i, j as int));
    let p = choose|p: Seq<int>| #[trigger] crate::graph::is_path(g, handles_of(roots), p) && p.last() == i;
    let p2 = p.push(j as int);
    assert forall|m: int| 0 <= m < p2.len() - 1 implies #[trigger] crate::graph::edge(g, p2[m], p2[m + 1]) by {
        if m < p.len() - 1 {
            assert(crate::graph::edge(g, p[m], p[m + 1]));
        }
    }
    assert(p2[0] == p[0]);
    assert(crate::graph::is_path(g, handles_of(roots), p2));
}

proof fn lemma_root_live(h: Seq<ObjV>, roots: Seq<Value>, k: int)
    requires
        0 <= k < roots.len(),
        handle_of(roots[k]) is Some,
    ensures
        live(h, roots, handle_of(roots[k])->0 as int),
{
    let j = handle_of(roots[k])->0;
    lemma_handles_of_contains(roots, k);
    let p = seq![j as int];
    assert(crate::graph::is_path(heap_graph(h), handles_of(roots), p));
}

/// After a collection, the heap is valid and the roots are still valid.
pub proof fn lemma_collected_wf(h: Seq<ObjV>, b: Bounds, roots: Seq<Value>)
    requires
        heap_wf(h, b),
        values_ok(h, b, roots),
    ensures
        heap_wf(collected(h, roots), b),
        values_ok(collected(h, roots), b, roots),
{
    let c = collected(h, roots);
    assert forall|k: int| 0 <= k < roots.len() implies value_ok(c, b, #[trigger] roots[k]) by {
        if handle_of(roots[k]) is Some {
            lemma_root_live(h, roots, k);
        }
    }
    assert forall|i: int| 0 <= i < c.len() implies obj_ok(c, b, #[trigger] c[i]) by {
        if live(h, roots, i) {
            assert(obj_ok(h, b, h[i]));
            match h[i] {
                ObjV::Array(vs) => {
                    assert forall|k: int| 0 <= k < vs.len() implies value_ok(c, b, #[trigger] vs[k]) by {
                        assert(value_ok(h, b, vs[k]));
                        if handle_of(vs[k]) is Some {
                            lemma_live_value(h, roots, i, vs, k);
                        }
                    }
                },
                ObjV::Table(t) => {
                    let vs = table_values(t);
                    assert forall|k: int| 0 <= k < t.len() implies value_ok(c, b, #[trigger] t[k].1) by {
                        assert(value_ok(h, b, t[k].1));
                        assert(vs[k] == t[k].1);
                        if handle_of(vs[k]) is Some {
                            lemma_live_value(h, roots, i, vs, k);
                        }
                    }
                },
                _ => {},
            }
        }
    }
}

/// The handles a sequence of values refers to.
fn handles_vec(vs: &Vec<Value>, out: &mut Vec<usize>)
    ensures
        final(out)@ == old(out)@ + handles_of(vs@),
{
    let mut k: usize = 0;
    while k < vs.len()
        invariant
            k <= vs@.len(),
            out@ == old(out)@ + handles_of(vs@.take(k as int)),
        decreases vs@.len() - k,
    {
        assert(vs@.take(k + 1).drop_last() =~= vs@.take(k as int));
        match vs[k] {
            Value::String(i) | Value::Array(i) | Value::Table(i) => out.push(i),
            _ => {},
        }
        k = k + 1;
        assert(out@ =~= old(out)@ + handles_of(vs@.take(k as int)));
    }
    assert(vs@.take(vs@.len() as int) =~= vs@);
}

/// The handles a table's values refer to.
fn table_handles_vec(t: &Vec<(Symbol, Value)>) -> (out: Vec<usize>)
    ensures
        out@ == handles_of(table_values(t@)),
{
    let mut vs: Vec<Value> = Vec::new();
    let mut k: usize = 0;
    while k < t.len()
        invariant
            k <= t@.len(),
            vs@ =~= table_values(t@).take(k as int),
        decreases t@.len() - k,
    {
        vs.push(t[k].1);
        k = k + 1;
    }
    assert(table_values(t@).take(t@.len() as int) =~= table_values(t@));
    let mut out = Vec::new();
    handles_vec(&vs, &mut out);
    assert(out@ =~= handles_of(table_values(t@)));
    out
}

impl Heap {
    /// An empty heap.
    pub fn new() -> (r: Heap)
        ensures
            r@ == Seq::<ObjV>::empty(),
    {
        let r = Heap { objs: Vec::new() };
        assert(r@ =~= Seq::<ObjV>::empty());
        r
    }

    /// The number of slots.
    pub fn len(&self) -> (r: usize)
        ensures
            r == self@.len(),
    {
        self.objs.len()
    }

    /// Adds an object; returns its index.
    pub fn allocate(&mut self, o: Obj) -> (r: usize)
        ensures
            r == old(self)@.len(),
            final(self)@ == old(self)@.push(o@),
    {
        let r = self.objs.len();
        self.objs.push(o);
        assert(self@ =~= old(self)@.push(o@));
        r
    }

    /// Replaces object `i`.
    pub fn replace(&mut self, i: usize, o: Obj) -> (old_obj: Obj)
        requires
            i < old(self)@.len(),
        ensures
            final(self)@ == old(self)@.update(i as int, o@),
            old_obj@ == old(self)@[i as int],
    {
        let mut o = o;
        std::mem::swap(&mut self.objs[i], &mut o);
        assert(self@ =~= old(self)@.update(i as int, self.objs@[i as int]@));
        o
    }

    /// The successor lists of the heap graph.
    fn graph(&self) -> (adj: Vec<Vec<usize>>)
        ensures
            adj.deep_view() == heap_graph(self@),
    {
        let mut adj: Vec<Vec<usize>> = Vec::new();
        let mut i: usize = 0;
        while i < self.objs.len()
            invariant
                i <= self@.len(),
                adj@.len() == i,
                forall|j: int| 0 <= j < i ==> (#[trigger] adj@[j])@ == obj_refs(self@[j]),
            decreases self@.len() - i,
        {
            let refs = match &self.objs[i] {
                Obj::Array(vs) => {
                    let mut out = Vec::new();
                    handles_vec(vs, &mut out);
                    assert(out@ =~= handles_of(vs@));
                    out
                },
                Obj::Table(t) => table_handles_vec(t),
                _ => {
                    let out: Vec<usize> = Vec::new();
                    out
                },
            };
            adj.push(refs);
            i = i + 1;
        }
        assert forall|j: int| 0 <= j < adj@.len() implies #[trigger] adj.deep_view()[j] =~= heap_graph(self@)[j] by {
            assert(adj@[j].deep_view() =~= adj@[j]@);
        }
        assert(adj.deep_view() =~= heap_graph(self@));
        adj
    }

    /// Reclaims every object not reachable from `roots`: reachable objects
    /// are kept unchanged and the others become free. Returns how many
    /// arrays and tables were reclaimed.
    pub fn collect(&mut self, roots: &Vec<Value>, Ghost(b): Ghost<Bounds>) -> (count: usize)
        requires
            heap_wf(old(self)@, b),
            values_ok(old(self)@, b, roots@),
        ensures
            final(self)@ == collected(old(self)@, roots@),
            count == reclaimed_count(old(self)@, roots@, old(self)@.len() as int),
            heap_wf(final(self)@, b),
            values_ok(final(self)@, b, roots@),
    {
        let ghost h = self@;
        let adj = self.graph();
        let mut rs: Vec<usize> = Vec::new();
        handles_vec(roots, &mut rs);
        assert(rs@ =~= handles_of(roots@));
        proof {
            lemma_heap_graph_wf(h, b, roots@);
        }
        let marked = reachable_set(&adj, &rs);
        assert(adj@.len() == adj.deep_view().len());
        let mut count: usize = 0;
        let mut i: usize = 0;
        while i < self.objs.len()
            invariant
                i <= self@.len(),
                self@.len() == h.len(),
                marked@.len() == h.len(),
                adj.deep_view() == heap_graph(h),
                rs@ == handles_of(roots@),
                forall|j: int| 0 <= j < h.len() ==> (marked@[j] <==> reachable(heap_graph(h), handles_of(roots@), j)),
                forall|j: int| 0 <= j < i ==> #[trigger] self@[j] == collected(h, roots@)[j],
                forall|j: int| i <= j < h.len() ==> #[trigger] self@[j] == h[j],
                count == reclaimed_count(h, roots@, i as int),
                count <= i,
            decreases h.len() - i,
        {
            if !marked[i] {
                let is_container = match &self.objs[i] {
                    Obj::Array(_) | Obj::Table(_) => true,
                    _ => false,
                };
                let _ = self.replace(i, Obj::Free);
                if is_container {
                    count = count + 1;
                }
            }
            i = i + 1;
        }
        assert(self@ =~= collected(h, roots@));
        proof {
            lemma_collected_wf(h, b, roots@);
        }
        count
    }
}

/// The name of a value's type.
pub open spec fn type_label_of(v: Value) -> Seq<char> {
    match v {
        Value::Null => "Null"@,
        Value::Int(_) => "Int"@,
        Value::Float(_) => "Float"@,
        Value::Bool(_) => "Bool"@,
        Value::String(_) => "String"@,
        Value::Symbol(_) => "Symbol"@,
        Value::Array(_) => "Array"@,
        Value::Table(_) => "Table"@,
        Value::Function(_) => "Function"@,
    }
}

/// Every value is true except `null` and `false`.
pub open spec fn truthy(v: Value) -> bool {
    !(v is Null || v == Value::Bool(false))
}

impl Value {
    /// Whether the value counts as true in a condition.
    pub fn is_truthy(&self) -> (r: bool)
        ensures
            r == truthy(*self),
    {
        match self {
            Value::Null => false,
            Value::Bool(b) => *b,
            _ => true,
        }
    }

    /// The name of the value's type.
    pub fn type_label(&self) -> (r: &'static str)
        ensures
            r@ == type_label_of(*self),
    {
        match self {
            Value::Null => "Null",
            Value::Int(_) => "Int",
            Value::Float(_) => "Float",
            Value::Bool(_) => "Bool",
            Value::String(_) => "String",
            Value::Symbol(_) => "Symbol",
            Value::Array(_) => "Array",
            Value::Table(_) => "Table",
            Value::Function(_) => "Function",
        }
    }
}

impl Heap {
    /// The characters of string object `i`.
    pub fn str_chars(&self, i: usize) -> (r: &Vec<char>)
        requires
            i < self@.len(),
            self@[i as int] is Str,
        ensures
            ObjV::Str(r@) == self@[i as int],
    {
        match &self.objs[i] {
            Obj::Str(c) => c,
            _ => vstd::pervasive::unreached(),
        }
    }
}

/// The entries of array object `i`.
pub open spec fn arr_of(h: Seq<ObjV>, i: usize) -> Seq<Value> {
    match h[i as int] {
        ObjV::Array(vs) => vs,
        _ => Seq::empty(),
    }
}

/// The entries of table object `i`.
pub open spec fn tab_of(h: Seq<ObjV>, i: usize) -> Seq<(Symbol, Value)> {
    match h[i as int] {
        ObjV::Table(t) => t,
        _ => Seq::empty(),
    }
}

/// The characters of string object `i`.
pub open spec fn str_of(h: Seq<ObjV>, i: usize) -> Seq<char> {
    match h[i as int] {
        ObjV::Str(t) => t,
        _ => Seq::empty(),
    }
}

/// The value bound to `key` in a table, if any.
pub open spec fn table_lookup(t: Seq<(Symbol, Value)>, key: Symbol) -> Option<Value>
    decreases t.len(),
{
    if t.len() == 0 {
        None
    } else if t[0].0 == key {
        Some(t[0].1)
    } else {
        table_lookup(t.drop_first(), key)
    }
}

/// The table after binding `key` to `v`: an existing entry keeps its place
/// and takes the new value; a new key goes last.
pub open spec fn table_store(t: Seq<(Symbol, Value)>, key: Symbol, v: Value) -> Seq<(Symbol, Value)> {
    if exists|k: int| 0 <= k < t.len() && t[k].0 == key {
        let k = choose|k: int| 0 <= k < t.len() && t[k].0 == key;
        t.update(k, (key, v))
    } else {
        t.push((key, v))
    }
}

/// The array after storing `v` at index `i`, grown with `null`s if needed.
pub open spec fn arr_store(a: Seq<Value>, i: int, v: Value) -> Seq<Value> {
    let grown = if i >= a.len() { a + Seq::new((i + 1 - a.len()) as nat, |j: int| Value::Null) } else { a };
    grown.update(i, v)
}

/// The value bound to `key` is found at the first entry with that key.
pub proof fn lemma_table_lookup_at(t: Seq<(Symbol, Value)>, key: Symbol, k: int)
    requires
        0 <= k < t.len(),
        t[k].0 == key,
        keys_distinct(t),
    ensures
        table_lookup(t, key) == Some(t[k].1),
    decreases t.len(),
{
    if k > 0 {
        assert(t[0].0 != key);
        let r = t.drop_first();
        assert(keys_distinct(r));
        lemma_table_lookup_at(r, key, k - 1);
    }
}

pub proof fn lemma_table_lookup_none(t: Seq<(Symbol, Value)>, key: Symbol)
    requires
        forall|k: int| 0 <= k < t.len() ==> t[k].0 != key,
    ensures
        table_lookup(t, key) is None,
    decreases t.len(),
{
    if t.len() > 0 {
        lemma_table_lookup_none(t.drop_first(), key);
    }
}

impl Heap {
    /// The length of array object `a`.
    pub fn arr_len(&self, a: usize) -> (r: usize)
        requires
            a < self@.len(),
            self@[a as int] is Array,
        ensures
            r == arr_of(self@, a).len(),
    {
        match &self.objs[a] {
            Obj::Array(v) => v.len(),
            _ => vstd::pervasive::unreached(),
        }
    }

    /// Entry `i` of array object `a`.
    pub fn arr_get(&self, a: usize, i: usize) -> (r: Value)
        requires
            a < self@.len(),
            self@[a as int] is Array,
            i < arr_of(self@, a).len(),
        ensures
            r == arr_of(self@, a)[i as int],
    {
        match &self.objs[a] {
            Obj::Array(v) => v[i],
            _ => vstd::pervasive::unreached(),
        }
    }

    /// The value bound to `key` in table object `t`.
    pub fn tab_get(&self, t: usize, key: Symbol, Ghost(b): Ghost<Bounds>) -> (r: Option<Value>)
        requires
            heap_wf(self@, b),
            t < self@.len(),
            self@[t as int] is Table,
        ensures
            r == table_lookup(tab_of(self@, t), key),
    {
        match &self.objs[t] {
            Obj::Table(es) => {
                assert(obj_ok(self@, b, self@[t as int]));
                let mut k: usize = 0;
                while k < es.len()
                    invariant
                        k <= es@.len(),
                        es@ == tab_of(self@, t),
                        keys_distinct(es@),
                        forall|j: int| 0 <= j < k ==> es@[j].0 != key,
                    decreases es@.len() - k,
                {
                    if es[k].0 == key {
                        proof {
                            lemma_table_lookup_at(es@, key, k as int);
                        }
                        return Some(es[k].1);
                    }
                    k = k + 1;
                }
                proof {
                    lemma_table_lookup_none(es@, key);
                }
                None
            },
            _ => vstd::pervasive::unreached(),
        }
    }

    /// Stores `v` at index `i` of array object `a`, growing it with `null`s.
    pub fn arr_store(&mut self, a: usize, i: usize, v: Value, Ghost(b): Ghost<Bounds>)
        requires
            heap_wf(old(self)@, b),
            value_ok(old(self)@, b, v),
            a < old(self)@.len(),
            old(self)@[a as int] is Array,
            i <= MAX_ARRAY_SIZE,
        ensures
            final(self)@ == old(self)@.update(a as int, ObjV::Array(arr_store(arr_of(old(self)@, a), i as int, v))),
            heap_wf(final(self)@, b),
            kinds_kept(old(self)@, final(self)@),
    {
        let old_obj = self.replace(a, Obj::Free);
        let mut arr = match old_obj {
            Obj::Array(vs) => vs,
            _ => vstd::pervasive::unreached(),
        };
        let ghost a0 = arr@;
        if i >= arr.len() {
            let extra = i + 1 - arr.len();
            let mut k: usize = 0;
            while k < extra
                invariant
                    k <= extra,
                    extra == i + 1 - a0.len(),
                    arr@ == a0 + Seq::new(k as nat, |j: int| Value::Null),
                decreases extra - k,
            {
                arr.push(Value::Null);
                k = k + 1;
                assert(arr@ =~= a0 + Seq::new(k as nat, |j: int| Value::Null));
            }
        }
        arr.set(i, v);
        let ghost h0 = old(self)@;
        let ghost o = ObjV::Array(arr@);
        assert(arr@ =~= arr_store(a0, i as int, v));
        proof {
            assert(obj_ok(h0, b, h0[a as int]));
            assert forall|k: int| 0 <= k < arr@.len() implies value_ok(h0, b, #[trigger] arr@[k]) by {
                if k != i && k < a0.len() {
                    assert(arr@[k] == a0[k]);
                }
            }
            lemma_replace_keeps_wf(h0, b, a as int, o);
        }
        let _ = self.replace(a, Obj::Array(arr));
        assert(self@ =~= h0.update(a as int, o));
    }

    /// Binds `key` to `v` in table object `t`.
    pub fn tab_store(&mut self, t: usize, key: Symbol, v: Value, Ghost(b): Ghost<Bounds>)
        requires
            heap_wf(old(self)@, b),
            value_ok(old(self)@, b, v),
            key < b.nsym,
            t < old(self)@.len(),
            old(self)@[t as int] is Table,
        ensures
            final(self)@ == old(self)@.update(t as int, ObjV::Table(table_store(tab_of(old(self)@, t), key, v))),
            heap_wf(final(self)@, b),
            kinds_kept(old(self)@, final(self)@),
    {
        let ghost h0 = old(self)@;
        let old_obj = self.replace(t, Obj::Free);
        let mut es = match old_obj {
            Obj::Table(es) => es,
            _ => vstd::pervasive::unreached(),
        };
        let ghost e0 = es@;
        proof {
            assert(obj_ok(h0, b, h0[t as int]));
        }
        let mut k: usize = 0;
        let mut found = false;
        while k < es.len() && !found
            invariant
                k <= es@.len(),
                es@ == e0,
                found ==> k < e0.len() && e0[k as int].0 == key,
                forall|j: int| 0 <= j < k ==> e0[j].0 != key,
            decreases es@.len() - k + (if found { 0int } else { 1int }),
        {
            if es[k].0 == key {
                found = true;
            } else {
                k = k + 1;
            }
        }
        if found {
            proof {
                let c = choose|j: int| 0 <= j < e0.len() && e0[j].0 == key;
                assert(c == k);
            }
            es.set(k, (key, v));
        } else {
            es.push((key, v));
        }
        assert(es@ =~= table_store(e0, key, v));
        let ghost o = ObjV::Table(es@);
        proof {
            assert forall|i: int, j: int| 0 <= i < es@.len() && 0 <= j < es@.len() && i != j implies es@[i].0 != es@[j].0 by {
                if found {
                    if i != k && j != k {
                        assert(es@[i] == e0[i] && es@[j] == e0[j]);
                    }
                } else {
                    if i < e0.len() && j < e0.len() {
                        assert(es@[i] == e0[i] && es@[j] == e0[j]);
                    }
                }
            }
            assert forall|i: int| 0 <= i < es@.len() implies value_ok(h0, b, #[trigger] es@[i].1) && es@[i].0 < b.nsym by {
                if (found && i != k) || (!found && i < e0.len()) {
                    assert(es@[i] == e0[i]);
                }
            }
            lemma_replace_keeps_wf(h0, b, t as int, o);
        }
        let _ = self.replace(t, Obj::Table(es));
        assert(self@ =~= h0.update(t as int, o));
    }
}

impl Heap {
    /// Takes array object `a` out, leaving its slot free for the moment.
    fn take_arr(&mut self, a: usize) -> (r: Vec<Value>)
        requires
            a < old(self)@.len(),
            old(self)@[a as int] is Array,
        ensures
            r@ == arr_of(old(self)@, a),
            final(self)@ == old(self)@.update(a as int, ObjV::Free),
    {
        match self.replace(a, Obj::Free) {
            Obj::Array(vs) => vs,
            _ => vstd::pervasive::unreached(),
        }
    }

    /// Puts array contents back into slot `a`.
    fn put_arr(&mut self, a: usize, vs: Vec<Value>)
        requires
            a < old(self)@.len(),
        ensures
            final(self)@ == old(self)@.update(a as int, ObjV::Array(vs@)),
    {
        let _ = self.replace(a, Obj::Array(vs));
    }

    /// Appends `v` to array object `a`.
    pub fn arr_push(&mut self, a: usize, v: Value, Ghost(b): Ghost<Bounds>)
        requires
            heap_wf(old(self)@, b),
            value_ok(old(self)@, b, v),
            a < old(self)@.len(),
            old(self)@[a as int] is Array,
        ensures
            final(self)@ == old(self)@.update(a as int, ObjV::Array(arr_of(old(self)@, a).push(v))),
            heap_wf(final(self)@, b),
            kinds_kept(old(self)@, final(self)@),
    {
        let ghost h0 = self@;
        let mut vs = self.take_arr(a);
        vs.push(v);
        proof {
            assert(obj_ok(h0, b, h0[a as int]));
            assert forall|k: int| 0 <= k < vs@.len() implies value_ok(h0, b, #[trigger] vs@[k]) by {
                if k < vs@.len() - 1 {
                    assert(vs@[k] == arr_of(h0, a)[k]);
                }
            }
            lemma_replace_keeps_wf(h0, b, a as int, ObjV::Array(vs@));
        }
        self.put_arr(a, vs);
        assert(self@ =~= h0.update(a as int, ObjV::Array(arr_of(h0, a).push(v))));
    }

    /// Overwrites entry `i` of array object `a`.
    pub fn arr_set(&mut self, a: usize, i: usize, v: Value, Ghost(b): Ghost<Bounds>)
        requires
            heap_wf(old(self)@, b),
            value_ok(old(self)@, b, v),
            a < old(self)@.len(),
            old(self)@[a as int] is Array,
            i < arr_of(old(self)@, a).len(),
        ensures
            final(self)@ == old(self)@.update(a as int, ObjV::Array(arr_of(old(self)@, a).update(i as int, v))),
            heap_wf(final(self)@, b),
            kinds_kept(old(self)@, final(self)@),
    {
        let ghost h0 = self@;
        let mut vs = self.take_arr(a);
        vs.set(i, v);
        proof {
            assert(obj_ok(h0, b, h0[a as int]));
            assert forall|k: int| 0 <= k < vs@.len() implies value_ok(h0, b, #[trigger] vs@[k]) by {
                if k != i {
                    assert(vs@[k] == arr_of(h0, a)[k]);
                }
            }
            lemma_replace_keeps_wf(h0, b, a as int, ObjV::Array(vs@));
        }
        self.put_arr(a, vs);
        assert(self@ =~= h0.update(a as int, ObjV::Array(arr_of(h0, a).update(i as int, v))));
    }

    /// Removes and returns the last entry of array object `a`, if any.
    pub fn arr_pop(&mut self, a: usize, Ghost(b): Ghost<Bounds>) -> (r: Option<Value>)
        requires
            heap_wf(old(self)@, b),
            a < old(self)@.len(),
            old(self)@[a as int] is Array,
        ensures
            arr_of(old(self)@, a).len() == 0 ==> r is None && final(self)@ == old(self)@,
            arr_of(old(self)@, a).len() > 0 ==> r == Some(arr_of(old(self)@, a).last())
                && final(self)@ == old(self)@.update(a as int, ObjV::Array(arr_of(old(self)@, a).drop_last())),
            heap_wf(final(self)@, b),
            kinds_kept(old(self)@, final(self)@),
            r matches Some(v) ==> value_ok(final(self)@, b, v),
    {
        let ghost h0 = self@;
        proof {
            assert(obj_ok(h0, b, h0[a as int]));
        }
        let mut vs = self.take_arr(a);
        let r = vs.pop();
        proof {
            assert forall|k: int| 0 <= k < vs@.len() implies value_ok(h0, b, #[trigger] vs@[k]) by {
                assert(vs@[k] == arr_of(h0, a)[k]);
            }
            lemma_replace_keeps_wf(h0, b, a as int, ObjV::Array(vs@));
            if r is Some {
                assert(value_ok(h0, b, arr_of(h0, a)[arr_of(h0, a).len() - 1]));
                lemma_value_ok_kept(h0, h0.update(a as int, ObjV::Array(vs@)), b, r->0);
            }
        }
        self.put_arr(a, vs);
        proof {
            if arr_of(h0, a).len() == 0 {
                assert(self@ =~= h0);
            }
        }
        r
    }

    /// Inserts `v` at index `i` of array object `a`.
    pub fn arr_insert(&mut self, a: usize, i: usize, v: Value, Ghost(b): Ghost<Bounds>)
        requires
            heap_wf(old(self)@, b),
            value_ok(old(self)@, b, v),
            a < old(self)@.len(),
            old(self)@[a as int] is Array,
            i <= arr_of(old(self)@, a).len(),
        ensures
            final(self)@ == old(self)@.update(a as int, ObjV::Array(arr_of(old(self)@, a).insert(i as int, v))),
            heap_wf(final(self)@, b),
            kinds_kept(old(self)@, final(self)@),
    {
        let ghost h0 = self@;
        proof {
            assert(obj_ok(h0, b, h0[a as int]));
        }
        let mut vs = self.take_arr(a);
        vs.insert(i, v);
        proof {
            let a0 = arr_of(h0, a);
            assert forall|k: int| 0 <= k < vs@.len() implies value_ok(h0, b, #[trigger] vs@[k]) by {
                if k < i {
                    assert(vs@[k] == a0[k]);
                } else if k > i {
                    assert(vs@[k] == a0[k - 1]);
                }
            }
            lemma_replace_keeps_wf(h0, b, a as int, ObjV::Array(vs@));
        }
        self.put_arr(a, vs);
    }

    /// Adds a string object.
    pub fn alloc_str(&mut self, t: Vec<char>, Ghost(b): Ghost<Bounds>) -> (r: usize)
        requires
            heap_wf(old(self)@, b),
        ensures
            r == old(self)@.len(),
            final(self)@ == old(self)@.push(ObjV::Str(t@)),
            heap_wf(final(self)@, b),
            kinds_kept(old(self)@, final(self)@),
    {
        proof {
            lemma_push_keeps_wf(self@, b, ObjV::Str(t@));
        }
        self.allocate(Obj::Str(t))
    }

    /// Adds an array object.
    pub fn alloc_arr(&mut self, vs: Vec<Value>, Ghost(b): Ghost<Bounds>) -> (r: usize)
        requires
            heap_wf(old(self)@, b),
            values_ok(old(self)@, b, vs@),
        ensures
            r == old(self)@.len(),
            final(self)@ == old(self)@.push(ObjV::Array(vs@)),
            heap_wf(final(self)@, b),
            kinds_kept(old(self)@, final(self)@),
    {
        proof {
            lemma_push_keeps_wf(self@, b, ObjV::Array(vs@));
        }
        self.allocate(Obj::Array(vs))
    }

    /// The entries of table object `t`, in order.
    pub fn tab_entries(&self, t: usize) -> (r: &Vec<(Symbol, Value)>)
        requires
            t < self@.len(),
            self@[t as int] is Table,
        ensures
            r@ == tab_of(self@, t),
    {
        match &self.objs[t] {
            Obj::Table(es) => es,
            _ => vstd::pervasive::unreached(),
        }
    }
}

} // verus!
