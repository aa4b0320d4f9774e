//! The syntax tree that the parser builds and the compiler reads, and its
//! mathematical view.
use vstd::prelude::*;

verus! {

/// A unary operator.
#[derive(Clone, Copy, PartialEq, Eq, Structural, Debug)]
pub enum UnaryOp {
    Not,
    Minus,
}

/// A binary operator.
#[derive(Clone, Copy, PartialEq, Eq, Structural, Debug)]
pub enum BinaryOp {
    Plus,
    Minus,
    Star,
    Slash,
    Less,
    LessEq,
    Greater,
    GreaterEq,
    Eq,
    NotEq,
    And,
    Or,
}

/// An expression. Float literals keep their text.
pub enum Expr {
    Null,
    Bool(bool),
    Int(i64),
    Float(Vec<char>),
    String(Vec<char>),
    Symbol(Vec<char>),
    Ident(Vec<char>),
    Unary(UnaryOp, Box<Expr>),
    Binary(Box<Expr>, BinaryOp, Box<Expr>),
    Call(Vec<char>, Vec<Expr>),
    Table(Vec<(Vec<char>, Expr)>),
    Array(Vec<Expr>),
    Get(Box<Expr>, Box<Expr>),
    Assign(Box<Expr>, Box<Expr>),
    PostInc(Box<Expr>),
    PostDec(Box<Expr>),
}

pub enum ExprV {
    Null,
    Bool(bool),
    Int(i64),
    Float(Seq<char>),
    String(Seq<char>),
    Symbol(Seq<char>),
    Ident(Seq<char>),
    Unary(UnaryOp, Box<ExprV>),
    Binary(Box<ExprV>, BinaryOp, Box<ExprV>),
    Call(Seq<char>, Seq<ExprV>),
    Table(Seq<(Seq<char>, ExprV)>),
    Array(Seq<ExprV>),
    Get(Box<ExprV>, Box<ExprV>),
    Assign(Box<ExprV>, Box<ExprV>),
    PostInc(Box<ExprV>),
    PostDec(Box<ExprV>),
}

/// A statement.
pub enum Stmt {
    Let(Vec<char>, Expr),
    If(Expr, Vec<Stmt>, Option<Vec<Stmt>>),
    While(Expr, Vec<Stmt>),
    For(Box<Stmt>, Expr, Expr, Vec<Stmt>),
    Break,
    Continue,
    Return(Expr),
    Expr(Expr),
    Try(Vec<Stmt>, Vec<Vec<char>>, Vec<char>, Vec<Stmt>),
    Throw(Expr),
    Include(Vec<char>),
}

pub enum StmtV {
    Let(Seq<char>, ExprV),
    If(ExprV, Seq<StmtV>, Option<Seq<StmtV>>),
    While(ExprV, Seq<StmtV>),
    For(Box<StmtV>, ExprV, ExprV, Seq<StmtV>),
    Break,
    Continue,
    Return(ExprV),
    Expr(ExprV),
    Try(Seq<StmtV>, Seq<Seq<char>>, Seq<char>, Seq<StmtV>),
    Throw(ExprV),
    Include(Seq<char>),
}

/// A function definition.
pub struct FuncDef {
    pub name: Vec<char>,
    pub args: Vec<Vec<char>>,
    pub body: Vec<Stmt>,
}

pub struct FuncDefV {
    pub name: Seq<char>,
    pub args: Seq<Seq<char>>,
    pub body: Seq<StmtV>,
}

pub open spec fn ev(e: Expr) -> ExprV
    decreases e,
{
    match e {
        Expr::Null => ExprV::Null,
        Expr::Bool(b) => ExprV::Bool(b),
        Expr::Int(i) => ExprV::Int(i),
        Expr::Float(t) => ExprV::Float(t@),
        Expr::String(t) => ExprV::String(t@),
        Expr::Symbol(t) => ExprV::Symbol(t@),
        Expr::Ident(t) => ExprV::Ident(t@),
        Expr::Unary(op, x) => ExprV::Unary(op, Box::new(ev(*x))),
        Expr::Binary(l, op, r) => ExprV::Binary(Box::new(ev(*l)), op, Box::new(ev(*r))),
        Expr::Call(n, args) => ExprV::Call(n@, evs(args@)),
        Expr::Table(ps) => ExprV::Table(pvs(ps@)),
        Expr::Array(xs) => ExprV::Array(evs(xs@)),
        Expr::Get(o, k) => ExprV::Get(Box::new(ev(*o)), Box::new(ev(*k))),
        Expr::Assign(l, r) => ExprV::Assign(Box::new(ev(*l)), Box::new(ev(*r))),
        Expr::PostInc(x) => ExprV::PostInc(Box::new(ev(*x))),
        Expr::PostDec(x) => ExprV::PostDec(Box::new(ev(*x))),
    }
}

pub open spec fn evs(es: Seq<Expr>) -> Seq<ExprV>
    decreases es,
{
    if es.len() == 0 { Seq::empty() } else { evs(es.drop_last()).push(ev(es.last())) }
}

pub open spec fn pvs(ps: Seq<(Vec<char>, Expr)>) -> Seq<(Seq<char>, ExprV)>
    decreases ps,
{
    if ps.len() == 0 { Seq::empty() } else { pvs(ps.drop_last()).push((ps.last().0@, ev(ps.last().1))) }
}

pub open spec fn sv(s: Stmt) -> StmtV
    decreases s,
{
    match s {
        Stmt::Let(n, e) => StmtV::Let(n@, ev(e)),
        Stmt::If(c, t, e) => StmtV::If(ev(c), svs(t@), match e { Some(b) => Some(svs(b@)), None => None }),
        Stmt::While(c, b) => StmtV::While(ev(c), svs(b@)),
        Stmt::For(i, c, st, b) => StmtV::For(Box::new(sv(*i)), ev(c), ev(st), svs(b@)),
        Stmt::Break => StmtV::Break,
        Stmt::Continue => StmtV::Continue,
        Stmt::Return(e) => StmtV::Return(ev(e)),
        Stmt::Expr(e) => StmtV::Expr(ev(e)),
        Stmt::Try(t, types, v, c) => StmtV::Try(svs(t@), types.deep_view(), v@, svs(c@)),
        Stmt::Throw(e) => StmtV::Throw(ev(e)),
        Stmt::Include(p) => StmtV::Include(p@),
    }
}

pub open spec fn svs(ss: Seq<Stmt>) -> Seq<StmtV>
    decreases ss,
{
    if ss.len() == 0 { Seq::empty() } else { svs(ss.drop_last()).push(sv(ss.last())) }
}

impl View for Expr {
    type V = ExprV;

    open spec fn view(&self) -> ExprV {
        ev(*self)
    }
}

impl View for Stmt {
    type V = StmtV;

    open spec fn view(&self) -> StmtV {
        sv(*self)
    }
}

impl View for FuncDef {
    type V = FuncDefV;

    open spec fn view(&self) -> FuncDefV {
        FuncDefV { name: self.name@, args: self.args.deep_view(), body: svs(self.body@) }
    }
}

/// The views of a sequence of function definitions.
pub open spec fn fvs(fs: Seq<FuncDef>) -> Seq<FuncDefV> {
    fs.map_values(|f: FuncDef| f@)
}

pub proof fn lemma_evs_push(es: Seq<Expr>, e: Expr)
    ensures
        evs(es.push(e)) == evs(es).push(ev(e)),
{
    assert(es.push(e).drop_last() =~= es);
}

pub proof fn lemma_evs_len(es: Seq<Expr>)
    ensures
        evs(es).len() == es.len(),
        forall|i: int| 0 <= i < es.len() ==> #[trigger] evs(es)[i] == ev(es[i]),
    decreases es.len(),
{
    if es.len() > 0 {
        lemma_evs_len(es.drop_last());
    }
}

pub proof fn lemma_pvs_push(ps: Seq<(Vec<char>, Expr)>, p: (Vec<char>, Expr))
    ensures
        pvs(ps.push(p)) == pvs(ps).push((p.0@, ev(p.1))),
{
    assert(ps.push(p).drop_last() =~= ps);
}

pub proof fn lemma_pvs_len(ps: Seq<(Vec<char>, Expr)>)
    ensures
        pvs(ps).len() == ps.len(),
        forall|i: int| 0 <= i < ps.len() ==> #[trigger] pvs(ps)[i] == (ps[i].0@, ev(ps[i].1)),
    decreases ps.len(),
{
    if ps.len() > 0 {
        lemma_pvs_len(ps.drop_last());
    }
}

pub proof fn lemma_svs_push(ss: Seq<Stmt>, s: Stmt)
    ensures
        svs(ss.push(s)) == svs(ss).push(sv(s)),
{
    assert(ss.push(s).drop_last() =~= ss);
}

pub proof fn lemma_svs_len(ss: Seq<Stmt>)
    ensures
        svs(ss).len() == ss.len(),
        forall|i: int| 0 <= i < ss.len() ==> #[trigger] svs(ss)[i] == sv(ss[i]),
    decreases ss.len(),
{
    if ss.len() > 0 {
        lemma_svs_len(ss.drop_last());
    }
}

pub proof fn lemma_svs_append(a: Seq<Stmt>, b: Seq<Stmt>)
    ensures
        svs(a + b) == svs(a) + svs(b),
    decreases b.len(),
{
    if b.len() == 0 {
        assert(a + b =~= a);
        assert(svs(a) + svs(b) =~= svs(a));
    } else {
        lemma_svs_append(a, b.drop_last());
        assert((a + b).drop_last() =~= a + b.drop_last());
        assert(svs(a) + svs(b) =~= (svs(a) + svs(b.drop_last())).push(sv(b.last())));
    }
}

/// A copy of a sequence of characters.
pub fn copy_chars(s: &Vec<char>) -> (r: Vec<char>)
    ensures
        r@ == s@,
{
    let mut r = Vec::new();
    crate::fmt::push_all(&mut r, s);
    assert(r@ =~= s@);
    r
}

/// A copy of an expression.
pub fn copy_expr(e: &Expr) -> (r: Expr)
    ensures
        r@ == e@,
    decreases e,
{
    match e {
        Expr::Null => Expr::Null,
        Expr::Bool(b) => Expr::Bool(*b),
        Expr::Int(i) => Expr::Int(*i),
        Expr::Float(t) => Expr::Float(copy_chars(t)),
        Expr::String(t) => Expr::String(copy_chars(t)),
        Expr::Symbol(t) => Expr::Symbol(copy_chars(t)),
        Expr::Ident(t) => Expr::Ident(copy_chars(t)),
        Expr::Unary(op, x) => Expr::Unary(*op, Box::new(copy_expr(x))),
        Expr::Binary(l, op, r) => Expr::Binary(Box::new(copy_expr(l)), *op, Box::new(copy_expr(r))),
        Expr::Call(n, args) => Expr::Call(copy_chars(n), copy_exprs(args)),
        Expr::Table(ps) => Expr::Table(copy_pairs(ps)),
        Expr::Array(xs) => Expr::Array(copy_exprs(xs)),
        Expr::Get(o, k) => Expr::Get(Box::new(copy_expr(o)), Box::new(copy_expr(k))),
        Expr::Assign(l, r) => Expr::Assign(Box::new(copy_expr(l)), Box::new(copy_expr(r))),
        Expr::PostInc(x) => Expr::PostInc(Box::new(copy_expr(x))),
        Expr::PostDec(x) => Expr::PostDec(Box::new(copy_expr(x))),
    }
}

/// A copy of table entries.
pub fn copy_pairs(ps: &Vec<(Vec<char>, Expr)>) -> (r: Vec<(Vec<char>, Expr)>)
    ensures
        pvs(r@) == pvs(ps@),
    decreases ps,
{
    let mut out: Vec<(Vec<char>, Expr)> = Vec::new();
    let mut k: usize = 0;
    while k < ps.len()
        invariant
            k <= ps@.len(),
            pvs(out@) == pvs(ps@.take(k as int)),
        decreases ps@.len() - k,
    {
        proof {
            assert(decreases_to!(ps => ps@[k as int].1));
        }
        let p = (copy_chars(&ps[k].0), copy_expr(&ps[k].1));
        proof {
            lemma_pvs_push(out@, p);
            lemma_pvs_push(ps@.take(k as int), ps@[k as int]);
            assert(ps@.take(k + 1) =~= ps@.take(k as int).push(ps@[k as int]));
        }
        out.push(p);
        k = k + 1;
    }
    assert(ps@.take(ps@.len() as int) =~= ps@);
    out
}

/// A copy of a sequence of expressions.
pub fn copy_exprs(es: &Vec<Expr>) -> (r: Vec<Expr>)
    ensures
        evs(r@) == evs(es@),
    decreases es,
{
    let mut out: Vec<Expr> = Vec::new();
    let mut k: usize = 0;
    while k < es.len()
        invariant
            k <= es@.len(),
            evs(out@) == evs(es@.take(k as int)),
        decreases es@.len() - k,
    {
        let x = copy_expr(&es[k]);
        proof {
            lemma_evs_push(out@, x);
            lemma_evs_push(es@.take(k as int), es@[k as int]);
            assert(es@.take(k + 1) =~= es@.take(k as int).push(es@[k as int]));
        }
        out.push(x);
        k = k + 1;
    }
    assert(es@.take(es@.len() as int) =~= es@);
    out
}

} // verus!

verus! {

/// The statements of `ss` other than `include`s, in order.
pub open spec fn without_includes(ss: Seq<StmtV>) -> Seq<StmtV>
    decreases ss.len(),
{
    if ss.len() == 0 {
        Seq::empty()
    } else if ss.last() is Include {
        without_includes(ss.drop_last())
    } else {
        without_includes(ss.drop_last()).push(ss.last())
    }
}

/// The paths that the `include`s of `ss` name, in order.
pub open spec fn include_paths(ss: Seq<StmtV>) -> Seq<Seq<char>>
    decreases ss.len(),
{
    if ss.len() == 0 {
        Seq::empty()
    } else if let StmtV::Include(p) = ss.last() {
        include_paths(ss.drop_last()).push(p)
    } else {
        include_paths(ss.drop_last())
    }
}

/// Takes the `include` statements out of a function body: the other
/// statements in order, and the included paths in order.
pub fn split_includes(body: Vec<Stmt>) -> (r: (Vec<Stmt>, Vec<Vec<char>>))
    ensures
        svs(r.0@) == without_includes(svs(body@)),
        r.1.deep_view() == include_paths(svs(body@)),
{
    let ghost orig = svs(body@);
    let ghost b0 = body@;
    proof {
        lemma_svs_len(b0);
        assert(orig.take(0) =~= Seq::<StmtV>::empty());
    }
    let mut rest = body;
    let mut kept: Vec<Stmt> = Vec::new();
    let mut paths: Vec<Vec<char>> = Vec::new();
    let mut k: usize = 0;
    let n = rest.len();
    while k < n
        invariant
            n == b0.len(),
            k <= n,
            rest@ == b0.skip(k as int),
            orig == svs(b0),
            orig.len() == b0.len(),
            forall|i: int| 0 <= i < b0.len() ==> #[trigger] orig[i] == sv(b0[i]),
            svs(kept@) == without_includes(orig.take(k as int)),
            paths.deep_view() == include_paths(orig.take(k as int)),
        decreases n - k,
    {
        let s = rest.remove(0);
        proof {
            assert(s == b0[k as int]);
            assert(rest@ =~= b0.skip(k + 1));
            let t = orig.take(k + 1);
            assert(t.drop_last() =~= orig.take(k as int));
            assert(t.last() == sv(s));
        }
        match s {
            Stmt::Include(p) => {
                let ghost d0 = paths.deep_view();
                let ghost pv = p@;
                paths.push(p);
                assert forall|j: int| 0 <= j < paths@.len() implies #[trigger] paths.deep_view()[j] == d0.push(pv)[j] by {
                    assert(paths.deep_view()[j] =~= paths@[j]@);
                    if j < d0.len() {
                        assert(d0[j] =~= paths@[j]@);
                    }
                }
                assert(paths.deep_view() =~= d0.push(pv));
            },
            other => {
                proof {
                    lemma_svs_push(kept@, other);
                }
                kept.push(other);
            },
        }
        k = k + 1;
    }
    proof {
        assert(orig.take(n as int) =~= orig);
    }
    (kept, paths)
}


/// The paths held by a list of file names.
pub open spec fn file_names(v: Seq<Vec<char>>) -> Seq<Seq<char>> {
    v.map_values(|x: Vec<char>| x@)
}

/// The error for a file that includes itself, directly or through others.
pub open spec fn circular_msg(path: Seq<char>) -> Seq<char> {
    "CompilationError: Circular include detected: '"@ + path + "'"@
}

fn names_contain(v: &Vec<Vec<char>>, path: &Vec<char>) -> (r: bool)
    ensures
        r == file_names(v@).contains(path@),
{
    let mut i: usize = 0;
    while i < v.len()
        invariant
            i <= v@.len(),
            forall|j: int| 0 <= j < i ==> v@[j]@ != path@,
        decreases v@.len() - i,
    {
        if crate::text::chars_eq(&v[i], path) {
            assert(file_names(v@)[i as int] == path@);
            return true;
        }
        i = i + 1;
    }
    assert forall|j: int| 0 <= j < file_names(v@).len() implies file_names(v@)[j] != path@ by {
        assert(file_names(v@)[j] == v@[j]@);
    }
    false
}

/// Starts the include of `path`. `active` holds the files whose includes
/// are being resolved, outermost first; `done` the files already included.
/// A file that is still active includes itself: a circular include, an
/// error. A file already included is not included again (`Ok(false)`).
/// Otherwise the file becomes active and is to be read (`Ok(true)`).
pub fn admit_include(active: &mut Vec<Vec<char>>, done: &Vec<Vec<char>>, path: &Vec<char>) -> (r: Result<bool, Vec<char>>)
    ensures
        r is Err <==> file_names(old(active)@).contains(path@),
        r matches Err(m) ==> m@ == circular_msg(path@),
        r == Ok::<bool, Vec<char>>(false) <==> !file_names(old(active)@).contains(path@) && file_names(done@).contains(path@),
        r == Ok::<bool, Vec<char>>(true) ==> file_names(final(active)@) == file_names(old(active)@).push(path@),
        r != Ok::<bool, Vec<char>>(true) ==> final(active)@ == old(active)@,
{
    if names_contain(active, path) {
        let mut m = crate::text::chars_of("CompilationError: Circular include detected: '");
        crate::fmt::push_all(&mut m, path);
        crate::fmt::push_str(&mut m, "'");
        return Err(m);
    }
    if names_contain(done, path) {
        return Ok(false);
    }
    active.push(copy_chars(path));
    assert(file_names(active@) =~= file_names(old(active)@).push(path@));
    Ok(true)
}

/// Ends the include of the innermost active file, which is now included.
pub fn finish_include(active: &mut Vec<Vec<char>>, done: &mut Vec<Vec<char>>)
    requires
        old(active)@.len() > 0,
    ensures
        file_names(final(active)@) == file_names(old(active)@).drop_last(),
        file_names(final(done)@) == file_names(old(done)@).push(old(active)@.last()@),
{
    let f = active.pop().unwrap();
    done.push(f);
    assert(file_names(active@) =~= file_names(old(active)@).drop_last());
    assert(file_names(done@) =~= file_names(old(done)@).push(old(active)@.last()@));
}

} // verus!
