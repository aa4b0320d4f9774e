//! The parser: tokens to function definitions, by recursive descent, as
//! `grammar` states it.
use vstd::prelude::*;
use crate::ast::{BinaryOp, Expr, ExprV, FuncDef, FuncDefV, Stmt, StmtV, UnaryOp, copy_chars, copy_expr, ev, evs, pvs, sv, svs,
    lemma_evs_push, lemma_pvs_push, lemma_svs_push, lemma_svs_append, fvs};
use crate::fmt::{push_all, push_i64, push_str, push_u64};
use crate::grammar::{Expect, PR, expect_name, is_expected, debug_char, hex_char, hex_digits, debug_body, debug_str, token_debug,
    syn_msg, include_msg, expect_msg, next, eat, p_ident, forward, bin_op, assign_op, assign_node, p_expr, p_operand, p_bin,
    p_tail, p_factor, p_primary, p_postfix, p_items, p_pairs, p_block, p_braced, p_paren_expr, p_expr_semi, p_else, p_catch,
    p_include, p_stmt, p_let, p_if, p_while, p_for, p_try, p_params, p_func, p_items_top, parse_spec};
use crate::lexer::{Lexer, LexerV, Token, TokenInfo, TokenInfoV, TokenV, lex_all, lex_tokens, lexer_wf, opt_view, tokens_view};

verus! {

/// The views of the stream the parser reads.
pub open spec fn tsv(ts: &Vec<TokenInfo>) -> Seq<TokenInfoV> {
    tokens_view(ts@)
}

/// A parsing result agrees with the grammar: the same error, or the same
/// value and next index, which lies past `i` (or at it, where `strict` is
/// false) and inside the stream.
pub open spec fn agrees<E: View>(sp: PR<E::V>, r: Result<(E, usize), Vec<char>>, i: int, strict: bool, n: int) -> bool {
    match r {
        Ok((v, j)) => sp == Ok::<(E::V, int), Seq<char>>((v@, j as int)) && (if strict { i < j } else { i <= j }) && j < n,
        Err(m) => sp == Err::<(E::V, int), Seq<char>>(m@),
    }
}

/// A list of expressions as the grammar sees it.
pub struct ExprList(pub Vec<Expr>);

impl View for ExprList {
    type V = Seq<ExprV>;

    open spec fn view(&self) -> Seq<ExprV> {
        evs(self.0@)
    }
}

/// Table entries as the grammar sees them.
pub struct PairList(pub Vec<(Vec<char>, Expr)>);

impl View for PairList {
    type V = Seq<(Seq<char>, ExprV)>;

    open spec fn view(&self) -> Seq<(Seq<char>, ExprV)> {
        pvs(self.0@)
    }
}

/// A list of statements as the grammar sees it.
pub struct StmtList(pub Vec<Stmt>);

impl View for StmtList {
    type V = Seq<StmtV>;

    open spec fn view(&self) -> Seq<StmtV> {
        svs(self.0@)
    }
}

/// An optional `else` block as the grammar sees it.
pub struct ElsePart(pub Option<Vec<Stmt>>);

impl View for ElsePart {
    type V = Option<Seq<StmtV>>;

    open spec fn view(&self) -> Option<Seq<StmtV>> {
        match self.0 {
            Some(b) => Some(svs(b@)),
            None => None,
        }
    }
}

/// The inside of a `catch (...)` as the grammar sees it.
pub struct CatchPart(pub Vec<Vec<char>>, pub Vec<char>);

impl View for CatchPart {
    type V = (Seq<Seq<char>>, Seq<char>);

    open spec fn view(&self) -> (Seq<Seq<char>>, Seq<char>) {
        (self.0.deep_view(), self.1@)
    }
}

/// A list of names as the grammar sees it.
pub struct NameList(pub Vec<Vec<char>>);

impl View for NameList {
    type V = Seq<Seq<char>>;

    open spec fn view(&self) -> Seq<Seq<char>> {
        self.0.deep_view()
    }
}

/// A sequence of characters.
pub struct Chars(pub Vec<char>);

impl View for Chars {
    type V = Seq<char>;

    open spec fn view(&self) -> Seq<char> {
        self.0@
    }
}

fn hex_char_ex(d: u32) -> (c: char)
    requires
        d < 16,
    ensures
        c == hex_char(d as nat),
{
    if d == 0 { '0' } else if d == 1 { '1' } else if d == 2 { '2' } else if d == 3 { '3' }
    else if d == 4 { '4' } else if d == 5 { '5' } else if d == 6 { '6' } else if d == 7 { '7' }
    else if d == 8 { '8' } else if d == 9 { '9' } else if d == 10 { 'a' } else if d == 11 { 'b' }
    else if d == 12 { 'c' } else if d == 13 { 'd' } else if d == 14 { 'e' } else { 'f' }
}

fn push_hex(out: &mut Vec<char>, n: u32)
    ensures
        final(out)@ == old(out)@ + hex_digits(n as nat),
    decreases n,
{
    if n < 16 {
        out.push(hex_char_ex(n));
    } else {
        push_hex(out, n / 16);
        out.push(hex_char_ex(n % 16));
    }
}

fn push_debug_char(out: &mut Vec<char>, c: char)
    ensures
        final(out)@ == old(out)@ + debug_char(c),
{
    if c == '"' { push_str(out, "\\\""); }
    else if c == '\\' { push_str(out, "\\\\"); }
    else if c == '\n' { push_str(out, "\\n"); }
    else if c == '\r' { push_str(out, "\\r"); }
    else if c == '\t' { push_str(out, "\\t"); }
    else if c == '\0' { push_str(out, "\\0"); }
    else if (c as u32) < 0x20 || c as u32 == 0x7f {
        push_str(out, "\\u{");
        push_hex(out, c as u32);
        push_str(out, "}");
        assert(final(out)@ =~= old(out)@ + debug_char(c));
    } else {
        out.push(c);
        assert(final(out)@ =~= old(out)@ + debug_char(c));
    }
}

pub(crate) fn push_debug_str(out: &mut Vec<char>, s: &Vec<char>)
    ensures
        final(out)@ == old(out)@ + debug_str(s@),
{
    let ghost o0 = out@;
    push_str(out, "\"");
    let mut k: usize = 0;
    while k < s.len()
        invariant
            k <= s@.len(),
            out@ == o0 + "\""@ + debug_body(s@.take(k as int)),
        decreases s@.len() - k,
    {
        assert(s@.take(k + 1).drop_last() =~= s@.take(k as int));
        push_debug_char(out, s[k]);
        k = k + 1;
        assert(out@ =~= o0 + "\""@ + debug_body(s@.take(k as int)));
    }
    assert(s@.take(s@.len() as int) =~= s@);
    push_str(out, "\"");
    assert(out@ =~= o0 + debug_str(s@));
}

fn push_token_debug(out: &mut Vec<char>, t: &Token)
    ensures
        final(out)@ == old(out)@ + token_debug(t@),
{
    let ghost o0 = out@;
    match t {
        Token::Func => push_str(out, "Func"),
        Token::Let => push_str(out, "Let"),
        Token::If => push_str(out, "If"),
        Token::Else => push_str(out, "Else"),
        Token::Return => push_str(out, "Return"),
        Token::While => push_str(out, "While"),
        Token::For => push_str(out, "For"),
        Token::Break => push_str(out, "Break"),
        Token::Continue => push_str(out, "Continue"),
        Token::True => push_str(out, "True"),
        Token::False => push_str(out, "False"),
        Token::Null => push_str(out, "Null"),
        Token::And => push_str(out, "And"),
        Token::Or => push_str(out, "Or"),
        Token::Not => push_str(out, "Not"),
        Token::Try => push_str(out, "Try"),
        Token::Catch => push_str(out, "Catch"),
        Token::Throw => push_str(out, "Throw"),
        Token::Include => push_str(out, "Include"),
        Token::Ident(s) => {
            push_str(out, "Ident(");
            push_debug_str(out, s);
            push_str(out, ")");
            assert(out@ =~= o0 + token_debug(t@));
        },
        Token::Int(i) => {
            push_str(out, "Int(");
            push_i64(out, *i);
            push_str(out, ")");
            assert(out@ =~= o0 + token_debug(t@));
        },
        Token::Float(s) => {
            push_str(out, "Float(");
            push_all(out, s);
            push_str(out, ")");
            assert(out@ =~= o0 + token_debug(t@));
        },
        Token::String(s) => {
            push_str(out, "String(");
            push_debug_str(out, s);
            push_str(out, ")");
            assert(out@ =~= o0 + token_debug(t@));
        },
        Token::Assign => push_str(out, "Assign"),
        Token::Eq => push_str(out, "Eq"),
        Token::NotEq => push_str(out, "NotEq"),
        Token::Plus => push_str(out, "Plus"),
        Token::Minus => push_str(out, "Minus"),
        Token::Star => push_str(out, "Star"),
        Token::Slash => push_str(out, "Slash"),
        Token::PlusPlus => push_str(out, "PlusPlus"),
        Token::MinusMinus => push_str(out, "MinusMinus"),
        Token::PlusEq => push_str(out, "PlusEq"),
        Token::MinusEq => push_str(out, "MinusEq"),
        Token::StarEq => push_str(out, "StarEq"),
        Token::SlashEq => push_str(out, "SlashEq"),
        Token::Less => push_str(out, "Less"),
        Token::LessEq => push_str(out, "LessEq"),
        Token::Greater => push_str(out, "Greater"),
        Token::GreaterEq => push_str(out, "GreaterEq"),
        Token::LParen => push_str(out, "LParen"),
        Token::RParen => push_str(out, "RParen"),
        Token::LBrace => push_str(out, "LBrace"),
        Token::RBrace => push_str(out, "RBrace"),
        Token::LBracket => push_str(out, "LBracket"),
        Token::RBracket => push_str(out, "RBracket"),
        Token::Comma => push_str(out, "Comma"),
        Token::Colon => push_str(out, "Colon"),
        Token::Semicolon => push_str(out, "Semicolon"),
        Token::Dot => push_str(out, "Dot"),
        Token::EOF => push_str(out, "EOF"),
    }
}

fn syn_error(t: &TokenInfo, what: &Vec<char>) -> (m: Vec<char>)
    ensures
        m@ == syn_msg(t@, what@),
{
    let mut m = Vec::new();
    push_str(&mut m, "SyntaxError[Line ");
    push_u64(&mut m, t.line as u64);
    push_str(&mut m, ", Col ");
    push_u64(&mut m, t.col as u64);
    push_str(&mut m, "]: ");
    push_all(&mut m, what);
    assert(m@ =~= syn_msg(t@, what@));
    m
}

fn syn_error_str(t: &TokenInfo, what: &str) -> (m: Vec<char>)
    ensures
        m@ == syn_msg(t@, what@),
{
    let w = crate::text::chars_of(what);
    syn_error(t, &w)
}

fn expect_name_ex(k: Expect) -> (r: &'static str)
    ensures
        r@ == expect_name(k),
{
    match k {
        Expect::Func => "Func",
        Expect::Assign => "Assign",
        Expect::Catch => "Catch",
        Expect::LParen => "LParen",
        Expect::RParen => "RParen",
        Expect::LBrace => "LBrace",
        Expect::RBrace => "RBrace",
        Expect::RBracket => "RBracket",
        Expect::Colon => "Colon",
        Expect::Semicolon => "Semicolon",
    }
}

fn is_expected_ex(t: &Token, k: Expect) -> (r: bool)
    ensures
        r == is_expected(t@, k),
{
    match k {
        Expect::Func => matches!(t, Token::Func),
        Expect::Assign => matches!(t, Token::Assign),
        Expect::Catch => matches!(t, Token::Catch),
        Expect::LParen => matches!(t, Token::LParen),
        Expect::RParen => matches!(t, Token::RParen),
        Expect::LBrace => matches!(t, Token::LBrace),
        Expect::RBrace => matches!(t, Token::RBrace),
        Expect::RBracket => matches!(t, Token::RBracket),
        Expect::Colon => matches!(t, Token::Colon),
        Expect::Semicolon => matches!(t, Token::Semicolon),
    }
}

fn next_ex(ts: &Vec<TokenInfo>, f: &Option<Vec<char>>, i: usize) -> (r: Result<usize, Vec<char>>)
    requires
        i < ts@.len(),
    ensures
        match r {
            Ok(j) => next(tsv(ts), opt_view(*f), i as int) == Ok::<int, Seq<char>>(j as int) && j == i + 1 && j < ts@.len(),
            Err(m) => next(tsv(ts), opt_view(*f), i as int) == Err::<int, Seq<char>>(m@),
        },
{
    if i < ts.len() - 1 {
        Ok(i + 1)
    } else {
        match f {
            Some(m) => Err(copy_chars(m)),
            None => Err(Vec::new()),
        }
    }
}

fn eat_ex(ts: &Vec<TokenInfo>, f: &Option<Vec<char>>, i: usize, k: Expect) -> (r: Result<usize, Vec<char>>)
    requires
        i < ts@.len(),
    ensures
        match r {
            Ok(j) => eat(tsv(ts), opt_view(*f), i as int, k) == Ok::<int, Seq<char>>(j as int) && j == i + 1 && j < ts@.len(),
            Err(m) => eat(tsv(ts), opt_view(*f), i as int, k) == Err::<int, Seq<char>>(m@),
        },
{
    assert(tsv(ts)[i as int] == ts@[i as int]@);
    if is_expected_ex(&ts[i].token, k) {
        next_ex(ts, f, i)
    } else {
        let mut what = Vec::new();
        push_str(&mut what, "Expected '");
        push_str(&mut what, expect_name_ex(k));
        push_str(&mut what, "', but encountered '");
        push_token_debug(&mut what, &ts[i].token);
        push_str(&mut what, "'.");
        assert(what@ =~= "Expected '"@ + expect_name(k) + "', but encountered '"@ + token_debug(ts@[i as int].token@) + "'."@);
        Err(syn_error(&ts[i], &what))
    }
}

fn p_ident_ex(ts: &Vec<TokenInfo>, f: &Option<Vec<char>>, i: usize) -> (r: Result<(Chars, usize), Vec<char>>)
    requires
        i < ts@.len(),
    ensures
        agrees(p_ident(tsv(ts), opt_view(*f), i as int), r, i as int, true, ts@.len() as int),
{
    assert(tsv(ts)[i as int] == ts@[i as int]@);
    match &ts[i].token {
        Token::Ident(s) => {
            let name = copy_chars(s);
            match next_ex(ts, f, i) {
                Ok(j) => Ok((Chars(name), j)),
                Err(m) => Err(m),
            }
        },
        _ => Err(syn_error_str(&ts[i], "Expected a valid identifier.")),
    }
}

fn bin_op_ex(l: usize, t: &Token) -> (r: Option<BinaryOp>)
    requires
        l <= 4,
    ensures
        r == bin_op(l as nat, t@),
{
    if l == 0 {
        match t { Token::Or => Some(BinaryOp::Or), _ => None }
    } else if l == 1 {
        match t { Token::And => Some(BinaryOp::And), _ => None }
    } else if l == 2 {
        match t {
            Token::Less => Some(BinaryOp::Less),
            Token::LessEq => Some(BinaryOp::LessEq),
            Token::Greater => Some(BinaryOp::Greater),
            Token::GreaterEq => Some(BinaryOp::GreaterEq),
            Token::Eq => Some(BinaryOp::Eq),
            Token::NotEq => Some(BinaryOp::NotEq),
            _ => None,
        }
    } else if l == 3 {
        match t { Token::Plus => Some(BinaryOp::Plus), Token::Minus => Some(BinaryOp::Minus), _ => None }
    } else {
        match t { Token::Star => Some(BinaryOp::Star), Token::Slash => Some(BinaryOp::Slash), _ => None }
    }
}

fn assign_op_ex(t: &Token) -> (r: Option<Option<BinaryOp>>)
    ensures
        r == assign_op(t@),
{
    match t {
        Token::Assign => Some(None),
        Token::PlusEq => Some(Some(BinaryOp::Plus)),
        Token::MinusEq => Some(Some(BinaryOp::Minus)),
        Token::StarEq => Some(Some(BinaryOp::Star)),
        Token::SlashEq => Some(Some(BinaryOp::Slash)),
        _ => None,
    }
}

fn p_expr_ex(ts: &Vec<TokenInfo>, f: &Option<Vec<char>>, i: usize) -> (r: Result<(Expr, usize), Vec<char>>)
    requires
        i < ts@.len(),
    ensures
        agrees(p_expr(tsv(ts), opt_view(*f), i as int), r, i as int, true, ts@.len() as int),
    decreases ts@.len() - i, 20nat, 0nat,
{
    let (left, j) = match p_bin_ex(ts, f, 0, i) {
        Ok(p) => p,
        Err(m) => { return Err(m); },
    };
    assert(tsv(ts)[j as int] == ts@[j as int]@);
    match assign_op_ex(&ts[j].token) {
        None => Ok((left, j)),
        Some(op) => {
            let j2 = match next_ex(ts, f, j) {
                Ok(x) => x,
                Err(m) => { return Err(m); },
            };
            let (right, k) = match p_expr_ex(ts, f, j2) {
                Ok(p) => p,
                Err(m) => { return Err(m); },
            };
            let node = match op {
                None => Expr::Assign(Box::new(left), Box::new(right)),
                Some(o) => {
                    let l2 = copy_expr(&left);
                    let inner = Expr::Binary(Box::new(l2), o, Box::new(right));
                    assert(inner@ == ExprV::Binary(Box::new(left@), o, Box::new(right@)));
                    Expr::Assign(Box::new(left), Box::new(inner))
                },
            };
            Ok((node, k))
        },
    }
}

fn p_operand_ex(ts: &Vec<TokenInfo>, f: &Option<Vec<char>>, l: usize, i: usize) -> (r: Result<(Expr, usize), Vec<char>>)
    requires
        i < ts@.len(),
        l <= 4,
    ensures
        agrees(p_operand(tsv(ts), opt_view(*f), l as nat, i as int), r, i as int, true, ts@.len() as int),
    decreases ts@.len() - i, 15 - l, 1nat,
{
    if l == 4 {
        p_factor_ex(ts, f, i)
    } else {
        p_bin_ex(ts, f, l + 1, i)
    }
}

fn p_bin_ex(ts: &Vec<TokenInfo>, f: &Option<Vec<char>>, l: usize, i: usize) -> (r: Result<(Expr, usize), Vec<char>>)
    requires
        i < ts@.len(),
        l <= 4,
    ensures
        agrees(p_bin(tsv(ts), opt_view(*f), l as nat, i as int), r, i as int, true, ts@.len() as int),
    decreases ts@.len() - i, 15 - l, 2nat,
{
    let (left, j) = match p_operand_ex(ts, f, l, i) {
        Ok(p) => p,
        Err(m) => { return Err(m); },
    };
    p_tail_ex(ts, f, l, j, left)
}

fn p_tail_ex(ts: &Vec<TokenInfo>, f: &Option<Vec<char>>, l: usize, i: usize, left: Expr) -> (r: Result<(Expr, usize), Vec<char>>)
    requires
        i < ts@.len(),
        l <= 4,
    ensures
        agrees(p_tail(tsv(ts), opt_view(*f), l as nat, i as int, left@), r, i as int, false, ts@.len() as int),
    decreases ts@.len() - i, 15 - l, 0nat,
{
    assert(tsv(ts)[i as int] == ts@[i as int]@);
    match bin_op_ex(l, &ts[i].token) {
        None => Ok((left, i)),
        Some(op) => {
            let j = match next_ex(ts, f, i) {
                Ok(x) => x,
                Err(m) => { return Err(m); },
            };
            let (right, k) = match p_operand_ex(ts, f, l, j) {
                Ok(p) => p,
                Err(m) => { return Err(m); },
            };
            p_tail_ex(ts, f, l, k, Expr::Binary(Box::new(left), op, Box::new(right)))
        },
    }
}

fn p_factor_ex(ts: &Vec<TokenInfo>, f: &Option<Vec<char>>, i: usize) -> (r: Result<(Expr, usize), Vec<char>>)
    requires
        i < ts@.len(),
    ensures
        agrees(p_factor(tsv(ts), opt_view(*f), i as int), r, i as int, true, ts@.len() as int),
    decreases ts@.len() - i, 5nat, 0nat,
{
    assert(tsv(ts)[i as int] == ts@[i as int]@);
    let unary = match &ts[i].token {
        Token::Not => Some(UnaryOp::Not),
        Token::Minus => Some(UnaryOp::Minus),
        _ => None,
    };
    match unary {
        Some(op) => {
            let j = match next_ex(ts, f, i) {
                Ok(x) => x,
                Err(m) => { return Err(m); },
            };
            let (e, k) = match p_factor_ex(ts, f, j) {
                Ok(p) => p,
                Err(m) => { return Err(m); },
            };
            Ok((Expr::Unary(op, Box::new(e)), k))
        },
        None => {
            let (node, j) = match p_primary_ex(ts, f, i) {
                Ok(p) => p,
                Err(m) => { return Err(m); },
            };
            p_postfix_ex(ts, f, j, node)
        },
    }
}

fn leaf(ts: &Vec<TokenInfo>, f: &Option<Vec<char>>, i: usize, e: Expr) -> (r: Result<(Expr, usize), Vec<char>>)
    requires
        i < ts@.len(),
    ensures
        match r {
            Ok((v, j)) => next(tsv(ts), opt_view(*f), i as int) == Ok::<int, Seq<char>>(j as int) && v@ == e@ && j == i + 1 && j < ts@.len(),
            Err(m) => next(tsv(ts), opt_view(*f), i as int) == Err::<int, Seq<char>>(m@),
        },
{
    match next_ex(ts, f, i) {
        Ok(j) => Ok((e, j)),
        Err(m) => Err(m),
    }
}

fn p_primary_ex(ts: &Vec<TokenInfo>, f: &Option<Vec<char>>, i: usize) -> (r: Result<(Expr, usize), Vec<char>>)
    requires
        i < ts@.len(),
    ensures
        agrees(p_primary(tsv(ts), opt_view(*f), i as int), r, i as int, true, ts@.len() as int),
    decreases ts@.len() - i, 4nat, 0nat,
{
    assert(tsv(ts)[i as int] == ts@[i as int]@);
    match &ts[i].token {
        Token::Null => leaf(ts, f, i, Expr::Null),
        Token::True => leaf(ts, f, i, Expr::Bool(true)),
        Token::False => leaf(ts, f, i, Expr::Bool(false)),
        Token::Int(n) => leaf(ts, f, i, Expr::Int(*n)),
        Token::Float(t) => leaf(ts, f, i, Expr::Float(copy_chars(t))),
        Token::String(t) => leaf(ts, f, i, Expr::String(copy_chars(t))),
        Token::Ident(t) => leaf(ts, f, i, Expr::Ident(copy_chars(t))),
        Token::Colon => {
            let j = match next_ex(ts, f, i) {
                Ok(x) => x,
                Err(m) => { return Err(m); },
            };
            let (name, k) = match p_ident_ex(ts, f, j) {
                Ok(p) => p,
                Err(m) => { return Err(m); },
            };
            let sym = Expr::Symbol(name.0);
            assert(sym@ == ExprV::Symbol(name@));
            Ok((sym, k))
        },
        Token::LBracket => {
            let j = match next_ex(ts, f, i) {
                Ok(x) => x,
                Err(m) => { return Err(m); },
            };
            let (items, k) = match p_items_ex(ts, f, j, false, Vec::new()) {
                Ok(p) => p,
                Err(m) => { return Err(m); },
            };
            let k2 = match eat_ex(ts, f, k, Expect::RBracket) {
                Ok(x) => x,
                Err(m) => { return Err(m); },
            };
            Ok((Expr::Array(items.0), k2))
        },
        Token::LBrace => {
            let j = match next_ex(ts, f, i) {
                Ok(x) => x,
                Err(m) => { return Err(m); },
            };
            let (pairs, k) = match p_pairs_ex(ts, f, j, Vec::new()) {
                Ok(p) => p,
                Err(m) => { return Err(m); },
            };
            let k2 = match eat_ex(ts, f, k, Expect::RBrace) {
                Ok(x) => x,
                Err(m) => { return Err(m); },
            };
            Ok((Expr::Table(pairs.0), k2))
        },
        Token::LParen => {
            let j = match next_ex(ts, f, i) {
                Ok(x) => x,
                Err(m) => { return Err(m); },
            };
            let (e, k) = match p_expr_ex(ts, f, j) {
                Ok(p) => p,
                Err(m) => { return Err(m); },
            };
            let k2 = match eat_ex(ts, f, k, Expect::RParen) {
                Ok(x) => x,
                Err(m) => { return Err(m); },
            };
            Ok((e, k2))
        },
        _ => {
            let mut what = Vec::new();
            push_str(&mut what, "Unexpected token '");
            push_token_debug(&mut what, &ts[i].token);
            push_str(&mut what, "'.");
            assert(what@ =~= "Unexpected token '"@ + token_debug(ts@[i as int].token@) + "'."@);
            Err(syn_error(&ts[i], &what))
        },
    }
}

fn p_postfix_ex(ts: &Vec<TokenInfo>, f: &Option<Vec<char>>, i: usize, node: Expr) -> (r: Result<(Expr, usize), Vec<char>>)
    requires
        i < ts@.len(),
    ensures
        agrees(p_postfix(tsv(ts), opt_view(*f), i as int, node@), r, i as int, false, ts@.len() as int),
    decreases ts@.len() - i, 3nat, 0nat,
{
    assert(tsv(ts)[i as int] == ts@[i as int]@);
    match &ts[i].token {
        Token::LParen => match node {
            Expr::Ident(name) => {
                let j = match next_ex(ts, f, i) {
                    Ok(x) => x,
                    Err(m) => { return Err(m); },
                };
                let (args, k) = match p_items_ex(ts, f, j, true, Vec::new()) {
                    Ok(p) => p,
                    Err(m) => { return Err(m); },
                };
                let k2 = match eat_ex(ts, f, k, Expect::RParen) {
                    Ok(x) => x,
                    Err(m) => { return Err(m); },
                };
                p_postfix_ex(ts, f, k2, Expr::Call(name, args.0))
            },
            _ => Err(syn_error_str(&ts[i], "Cannot invoke non-identifier.")),
        },
        Token::LBracket => {
            let j = match next_ex(ts, f, i) {
                Ok(x) => x,
                Err(m) => { return Err(m); },
            };
            let (idx, k) = match p_expr_ex(ts, f, j) {
                Ok(p) => p,
                Err(m) => { return Err(m); },
            };
            let k2 = match eat_ex(ts, f, k, Expect::RBracket) {
                Ok(x) => x,
                Err(m) => { return Err(m); },
            };
            p_postfix_ex(ts, f, k2, Expr::Get(Box::new(node), Box::new(idx)))
        },
        Token::Dot => {
            let j = match next_ex(ts, f, i) {
                Ok(x) => x,
                Err(m) => { return Err(m); },
            };
            let (prop, k) = match p_ident_ex(ts, f, j) {
                Ok(p) => p,
                Err(m) => { return Err(m); },
            };
            let key = Expr::Symbol(prop.0);
            assert(key@ == ExprV::Symbol(prop@));
            p_postfix_ex(ts, f, k, Expr::Get(Box::new(node), Box::new(key)))
        },
        Token::PlusPlus => {
            let j = match next_ex(ts, f, i) {
                Ok(x) => x,
                Err(m) => { return Err(m); },
            };
            p_postfix_ex(ts, f, j, Expr::PostInc(Box::new(node)))
        },
        Token::MinusMinus => {
            let j = match next_ex(ts, f, i) {
                Ok(x) => x,
                Err(m) => { return Err(m); },
            };
            p_postfix_ex(ts, f, j, Expr::PostDec(Box::new(node)))
        },
        _ => Ok((node, i)),
    }
}

fn p_items_ex(ts: &Vec<TokenInfo>, f: &Option<Vec<char>>, i: usize, paren: bool, acc: Vec<Expr>) -> (r: Result<(ExprList, usize), Vec<char>>)
    requires
        i < ts@.len(),
    ensures
        agrees(p_items(tsv(ts), opt_view(*f), i as int, paren, evs(acc@)), r, i as int, false, ts@.len() as int),
    decreases ts@.len() - i, 21nat, 0nat,
{
    assert(tsv(ts)[i as int] == ts@[i as int]@);
    let closes = if paren { matches!(ts[i].token, Token::RParen) } else { matches!(ts[i].token, Token::RBracket) };
    if closes {
        return Ok((ExprList(acc), i));
    }
    let (e, j) = match p_expr_ex(ts, f, i) {
        Ok(p) => p,
        Err(m) => { return Err(m); },
    };
    let mut acc2 = acc;
    proof {
        lemma_evs_push(acc2@, e);
    }
    acc2.push(e);
    assert(tsv(ts)[j as int] == ts@[j as int]@);
    if matches!(ts[j].token, Token::Comma) {
        let j2 = match next_ex(ts, f, j) {
            Ok(x) => x,
            Err(m) => { return Err(m); },
        };
        p_items_ex(ts, f, j2, paren, acc2)
    } else {
        p_items_ex(ts, f, j, paren, acc2)
    }
}

fn p_pairs_ex(ts: &Vec<TokenInfo>, f: &Option<Vec<char>>, i: usize, acc: Vec<(Vec<char>, Expr)>) -> (r: Result<(PairList, usize), Vec<char>>)
    requires
        i < ts@.len(),
    ensures
        agrees(p_pairs(tsv(ts), opt_view(*f), i as int, pvs(acc@)), r, i as int, false, ts@.len() as int),
    decreases ts@.len() - i, 21nat, 0nat,
{
    assert(tsv(ts)[i as int] == ts@[i as int]@);
    if matches!(ts[i].token, Token::RBrace) {
        return Ok((PairList(acc), i));
    }
    let (key, j) = match p_ident_ex(ts, f, i) {
        Ok(p) => p,
        Err(m) => { return Err(m); },
    };
    let j2 = match eat_ex(ts, f, j, Expect::Colon) {
        Ok(x) => x,
        Err(m) => { return Err(m); },
    };
    let (v, k) = match p_expr_ex(ts, f, j2) {
        Ok(p) => p,
        Err(m) => { return Err(m); },
    };
    let mut acc2 = acc;
    let pair = (key.0, v);
    proof {
        lemma_pvs_push(acc2@, pair);
    }
    acc2.push(pair);
    assert(tsv(ts)[k as int] == ts@[k as int]@);
    if matches!(ts[k].token, Token::Comma) {
        let k2 = match next_ex(ts, f, k) {
            Ok(x) => x,
            Err(m) => { return Err(m); },
        };
        p_pairs_ex(ts, f, k2, acc2)
    } else {
        p_pairs_ex(ts, f, k, acc2)
    }
}

fn p_block_ex(ts: &Vec<TokenInfo>, f: &Option<Vec<char>>, i: usize, acc: Vec<Stmt>) -> (r: Result<(StmtList, usize), Vec<char>>)
    requires
        i < ts@.len(),
    ensures
        agrees(p_block(tsv(ts), opt_view(*f), i as int, svs(acc@)), r, i as int, false, ts@.len() as int),
    decreases ts@.len() - i, 31nat, 0nat,
{
    assert(tsv(ts)[i as int] == ts@[i as int]@);
    if matches!(ts[i].token, Token::RBrace) {
        return Ok((StmtList(acc), i));
    }
    let (st, j) = match p_stmt_ex(ts, f, i) {
        Ok(p) => p,
        Err(m) => { return Err(m); },
    };
    let mut acc2 = acc;
    proof {
        lemma_svs_push(acc2@, st);
    }
    acc2.push(st);
    p_block_ex(ts, f, j, acc2)
}

fn p_braced_ex(ts: &Vec<TokenInfo>, f: &Option<Vec<char>>, i: usize) -> (r: Result<(StmtList, usize), Vec<char>>)
    requires
        i < ts@.len(),
    ensures
        agrees(p_braced(tsv(ts), opt_view(*f), i as int), r, i as int, true, ts@.len() as int),
    decreases ts@.len() - i, 32nat, 0nat,
{
    let j = match eat_ex(ts, f, i, Expect::LBrace) {
        Ok(x) => x,
        Err(m) => { return Err(m); },
    };
    let (b, k) = match p_block_ex(ts, f, j, Vec::new()) {
        Ok(p) => p,
        Err(m) => { return Err(m); },
    };
    let k2 = match eat_ex(ts, f, k, Expect::RBrace) {
        Ok(x) => x,
        Err(m) => { return Err(m); },
    };
    Ok((b, k2))
}

fn p_paren_expr_ex(ts: &Vec<TokenInfo>, f: &Option<Vec<char>>, i: usize) -> (r: Result<(Expr, usize), Vec<char>>)
    requires
        i < ts@.len(),
    ensures
        agrees(p_paren_expr(tsv(ts), opt_view(*f), i as int), r, i as int, true, ts@.len() as int),
    decreases ts@.len() - i, 22nat, 0nat,
{
    let j = match eat_ex(ts, f, i, Expect::LParen) {
        Ok(x) => x,
        Err(m) => { return Err(m); },
    };
    let (c, k) = match p_expr_ex(ts, f, j) {
        Ok(p) => p,
        Err(m) => { return Err(m); },
    };
    let k2 = match eat_ex(ts, f, k, Expect::RParen) {
        Ok(x) => x,
        Err(m) => { return Err(m); },
    };
    Ok((c, k2))
}

fn p_expr_semi_ex(ts: &Vec<TokenInfo>, f: &Option<Vec<char>>, i: usize) -> (r: Result<(Expr, usize), Vec<char>>)
    requires
        i < ts@.len(),
    ensures
        agrees(p_expr_semi(tsv(ts), opt_view(*f), i as int), r, i as int, true, ts@.len() as int),
    decreases ts@.len() - i, 22nat, 0nat,
{
    let (e, j) = match p_expr_ex(ts, f, i) {
        Ok(p) => p,
        Err(m) => { return Err(m); },
    };
    let k = match eat_ex(ts, f, j, Expect::Semicolon) {
        Ok(x) => x,
        Err(m) => { return Err(m); },
    };
    Ok((e, k))
}

fn p_else_ex(ts: &Vec<TokenInfo>, f: &Option<Vec<char>>, i: usize) -> (r: Result<(ElsePart, usize), Vec<char>>)
    requires
        i < ts@.len(),
    ensures
        agrees(p_else(tsv(ts), opt_view(*f), i as int), r, i as int, false, ts@.len() as int),
    decreases ts@.len() - i, 33nat, 0nat,
{
    assert(tsv(ts)[i as int] == ts@[i as int]@);
    if !matches!(ts[i].token, Token::Else) {
        return Ok((ElsePart(None), i));
    }
    let j = match next_ex(ts, f, i) {
        Ok(x) => x,
        Err(m) => { return Err(m); },
    };
    assert(tsv(ts)[j as int] == ts@[j as int]@);
    if matches!(ts[j].token, Token::If) {
        let (st, k) = match p_stmt_ex(ts, f, j) {
            Ok(p) => p,
            Err(m) => { return Err(m); },
        };
        let mut v: Vec<Stmt> = Vec::new();
        proof {
            lemma_svs_push(v@, st);
        }
        v.push(st);
        assert(svs(v@) =~= seq![st@]);
        Ok((ElsePart(Some(v)), k))
    } else {
        let (b, k) = match p_braced_ex(ts, f, j) {
            Ok(p) => p,
            Err(m) => { return Err(m); },
        };
        Ok((ElsePart(Some(b.0)), k))
    }
}

fn p_catch_ex(ts: &Vec<TokenInfo>, f: &Option<Vec<char>>, i: usize, types: Vec<Vec<char>>) -> (r: Result<(CatchPart, usize), Vec<char>>)
    requires
        i < ts@.len(),
    ensures
        agrees(p_catch(tsv(ts), opt_view(*f), i as int, types.deep_view()), r, i as int, true, ts@.len() as int),
    decreases ts@.len() - i,
{
    assert(tsv(ts)[i as int] == ts@[i as int]@);
    match &ts[i].token {
        Token::String(t) => {
            let tc = copy_chars(t);
            let j = match next_ex(ts, f, i) {
                Ok(x) => x,
                Err(m) => { return Err(m); },
            };
            assert(tsv(ts)[j as int] == ts@[j as int]@);
            if matches!(ts[j].token, Token::Comma) {
                let j2 = match next_ex(ts, f, j) {
                    Ok(x) => x,
                    Err(m) => { return Err(m); },
                };
                let mut types2 = types;
                let ghost d0 = types2.deep_view();
                types2.push(tc);
                assert(types2.deep_view() =~~= d0.push(tc@));
                p_catch_ex(ts, f, j2, types2)
            } else {
                Err(syn_error_str(&ts[j], "Catch statement requires an error variable"))
            }
        },
        Token::Ident(v) => {
            let vc = copy_chars(v);
            match next_ex(ts, f, i) {
                Ok(j) => Ok((CatchPart(types, vc), j)),
                Err(m) => Err(m),
            }
        },
        _ => Err(syn_error_str(&ts[i], "Expected error type (string) or variable name in catch statement")),
    }
}

fn p_include_ex(ts: &Vec<TokenInfo>, f: &Option<Vec<char>>, i: usize) -> (r: Result<(Chars, usize), Vec<char>>)
    requires
        i < ts@.len(),
    ensures
        agrees(p_include(tsv(ts), opt_view(*f), i as int), r, i as int, true, ts@.len() as int),
{
    let j = match next_ex(ts, f, i) {
        Ok(x) => x,
        Err(m) => { return Err(m); },
    };
    assert(tsv(ts)[j as int] == ts@[j as int]@);
    match &ts[j].token {
        Token::String(path) => {
            let pc = copy_chars(path);
            let k = match next_ex(ts, f, j) {
                Ok(x) => x,
                Err(m) => { return Err(m); },
            };
            let k2 = match eat_ex(ts, f, k, Expect::Semicolon) {
                Ok(x) => x,
                Err(m) => { return Err(m); },
            };
            Ok((Chars(pc), k2))
        },
        _ => {
            let mut m = Vec::new();
            push_str(&mut m, "SyntaxError[line ");
            push_u64(&mut m, ts[j].line as u64);
            push_str(&mut m, ", col ");
            push_u64(&mut m, ts[j].col as u64);
            push_str(&mut m, "]: include expects a string path");
            assert(m@ =~= include_msg(ts@[j as int]@));
            Err(m)
        },
    }
}

fn p_stmt_ex(ts: &Vec<TokenInfo>, f: &Option<Vec<char>>, i: usize) -> (r: Result<(Stmt, usize), Vec<char>>)
    requires
        i < ts@.len(),
    ensures
        agrees(p_stmt(tsv(ts), opt_view(*f), i as int), r, i as int, true, ts@.len() as int),
    decreases ts@.len() - i, 30nat, 0nat,
{
    assert(tsv(ts)[i as int] == ts@[i as int]@);
    match &ts[i].token {
        Token::Include => {
            let (path, k) = match p_include_ex(ts, f, i) {
                Ok(p) => p,
                Err(m) => { return Err(m); },
            };
            Ok((Stmt::Include(path.0), k))
        },
        Token::Let => p_let_ex(ts, f, i),
        Token::If => p_if_ex(ts, f, i),
        Token::While => p_while_ex(ts, f, i),
        Token::For => p_for_ex(ts, f, i),
        Token::Try => p_try_ex(ts, f, i),
        Token::Throw => {
            let j = match next_ex(ts, f, i) {
                Ok(x) => x,
                Err(m) => { return Err(m); },
            };
            let (v, k) = match p_expr_semi_ex(ts, f, j) {
                Ok(p) => p,
                Err(m) => { return Err(m); },
            };
            Ok((Stmt::Throw(v), k))
        },
        Token::Break => {
            let j = match next_ex(ts, f, i) {
                Ok(x) => x,
                Err(m) => { return Err(m); },
            };
            let k = match eat_ex(ts, f, j, Expect::Semicolon) {
                Ok(x) => x,
                Err(m) => { return Err(m); },
            };
            Ok((Stmt::Break, k))
        },
        Token::Continue => {
            let j = match next_ex(ts, f, i) {
                Ok(x) => x,
                Err(m) => { return Err(m); },
            };
            let k = match eat_ex(ts, f, j, Expect::Semicolon) {
                Ok(x) => x,
                Err(m) => { return Err(m); },
            };
            Ok((Stmt::Continue, k))
        },
        Token::Return => {
            let j = match next_ex(ts, f, i) {
                Ok(x) => x,
                Err(m) => { return Err(m); },
            };
            let (v, k) = match p_expr_semi_ex(ts, f, j) {
                Ok(p) => p,
                Err(m) => { return Err(m); },
            };
            Ok((Stmt::Return(v), k))
        },
        _ => {
            let (e, k) = match p_expr_semi_ex(ts, f, i) {
                Ok(p) => p,
                Err(m) => { return Err(m); },
            };
            Ok((Stmt::Expr(e), k))
        },
    }
}

fn p_let_ex(ts: &Vec<TokenInfo>, f: &Option<Vec<char>>, i: usize) -> (r: Result<(Stmt, usize), Vec<char>>)
    requires
        i < ts@.len(),
    ensures
        agrees(p_let(tsv(ts), opt_view(*f), i as int), r, i as int, true, ts@.len() as int),
    decreases ts@.len() - i, 29nat, 0nat,
{
    let j = match next_ex(ts, f, i) {
        Ok(x) => x,
        Err(m) => { return Err(m); },
    };
    let (n, j2) = match p_ident_ex(ts, f, j) {
        Ok(p) => p,
        Err(m) => { return Err(m); },
    };
    let j3 = match eat_ex(ts, f, j2, Expect::Assign) {
        Ok(x) => x,
        Err(m) => { return Err(m); },
    };
    let (v, k) = match p_expr_semi_ex(ts, f, j3) {
        Ok(p) => p,
        Err(m) => { return Err(m); },
    };
    Ok((Stmt::Let(n.0, v), k))
}

fn p_if_ex(ts: &Vec<TokenInfo>, f: &Option<Vec<char>>, i: usize) -> (r: Result<(Stmt, usize), Vec<char>>)
    requires
        i < ts@.len(),
    ensures
        agrees(p_if(tsv(ts), opt_view(*f), i as int), r, i as int, true, ts@.len() as int),
    decreases ts@.len() - i, 29nat, 0nat,
{
    let j = match next_ex(ts, f, i) {
        Ok(x) => x,
        Err(m) => { return Err(m); },
    };
    let (c, j2) = match p_paren_expr_ex(ts, f, j) {
        Ok(p) => p,
        Err(m) => { return Err(m); },
    };
    let (b, j3) = match p_braced_ex(ts, f, j2) {
        Ok(p) => p,
        Err(m) => { return Err(m); },
    };
    let (e, k) = match p_else_ex(ts, f, j3) {
        Ok(p) => p,
        Err(m) => { return Err(m); },
    };
    Ok((Stmt::If(c, b.0, e.0), k))
}

fn p_while_ex(ts: &Vec<TokenInfo>, f: &Option<Vec<char>>, i: usize) -> (r: Result<(Stmt, usize), Vec<char>>)
    requires
        i < ts@.len(),
    ensures
        agrees(p_while(tsv(ts), opt_view(*f), i as int), r, i as int, true, ts@.len() as int),
    decreases ts@.len() - i, 29nat, 0nat,
{
    let j = match next_ex(ts, f, i) {
        Ok(x) => x,
        Err(m) => { return Err(m); },
    };
    let (c, j2) = match p_paren_expr_ex(ts, f, j) {
        Ok(p) => p,
        Err(m) => { return Err(m); },
    };
    let (b, k) = match p_braced_ex(ts, f, j2) {
        Ok(p) => p,
        Err(m) => { return Err(m); },
    };
    Ok((Stmt::While(c, b.0), k))
}

fn p_for_ex(ts: &Vec<TokenInfo>, f: &Option<Vec<char>>, i: usize) -> (r: Result<(Stmt, usize), Vec<char>>)
    requires
        i < ts@.len(),
    ensures
        agrees(p_for(tsv(ts), opt_view(*f), i as int), r, i as int, true, ts@.len() as int),
    decreases ts@.len() - i, 29nat, 0nat,
{
    let j = match next_ex(ts, f, i) {
        Ok(x) => x,
        Err(m) => { return Err(m); },
    };
    let j2 = match eat_ex(ts, f, j, Expect::LParen) {
        Ok(x) => x,
        Err(m) => { return Err(m); },
    };
    let (init, j3) = match p_stmt_ex(ts, f, j2) {
        Ok(p) => p,
        Err(m) => { return Err(m); },
    };
    let (c, j4) = match p_expr_semi_ex(ts, f, j3) {
        Ok(p) => p,
        Err(m) => { return Err(m); },
    };
    let (step, j5) = match p_expr_ex(ts, f, j4) {
        Ok(p) => p,
        Err(m) => { return Err(m); },
    };
    let j6 = match eat_ex(ts, f, j5, Expect::RParen) {
        Ok(x) => x,
        Err(m) => { return Err(m); },
    };
    let (b, k) = match p_braced_ex(ts, f, j6) {
        Ok(p) => p,
        Err(m) => { return Err(m); },
    };
    Ok((Stmt::For(Box::new(init), c, step, b.0), k))
}

fn p_try_ex(ts: &Vec<TokenInfo>, f: &Option<Vec<char>>, i: usize) -> (r: Result<(Stmt, usize), Vec<char>>)
    requires
        i < ts@.len(),
    ensures
        agrees(p_try(tsv(ts), opt_view(*f), i as int), r, i as int, true, ts@.len() as int),
    decreases ts@.len() - i, 29nat, 0nat,
{
    let j = match next_ex(ts, f, i) {
        Ok(x) => x,
        Err(m) => { return Err(m); },
    };
    let (tb, j2) = match p_braced_ex(ts, f, j) {
        Ok(p) => p,
        Err(m) => { return Err(m); },
    };
    let j3 = match eat_ex(ts, f, j2, Expect::Catch) {
        Ok(x) => x,
        Err(m) => { return Err(m); },
    };
    let j4 = match eat_ex(ts, f, j3, Expect::LParen) {
        Ok(x) => x,
        Err(m) => { return Err(m); },
    };
    let none: Vec<Vec<char>> = Vec::new();
    assert(none.deep_view() =~= Seq::<Seq<char>>::empty());
    let (cp, j5) = match p_catch_ex(ts, f, j4, none) {
        Ok(p) => p,
        Err(m) => { return Err(m); },
    };
    let j6 = match eat_ex(ts, f, j5, Expect::RParen) {
        Ok(x) => x,
        Err(m) => { return Err(m); },
    };
    let (cb, k) = match p_braced_ex(ts, f, j6) {
        Ok(p) => p,
        Err(m) => { return Err(m); },
    };
    Ok((Stmt::Try(tb.0, cp.0, cp.1, cb.0), k))
}

fn p_params_ex(ts: &Vec<TokenInfo>, f: &Option<Vec<char>>, i: usize, acc: Vec<Vec<char>>) -> (r: Result<(NameList, usize), Vec<char>>)
    requires
        i < ts@.len(),
    ensures
        agrees(p_params(tsv(ts), opt_view(*f), i as int, acc.deep_view()), r, i as int, false, ts@.len() as int),
    decreases ts@.len() - i,
{
    assert(tsv(ts)[i as int] == ts@[i as int]@);
    if matches!(ts[i].token, Token::RParen) {
        return Ok((NameList(acc), i));
    }
    let (n, j) = match p_ident_ex(ts, f, i) {
        Ok(p) => p,
        Err(m) => { return Err(m); },
    };
    let mut acc2 = acc;
    let ghost d0 = acc2.deep_view();
    acc2.push(n.0);
    assert(acc2.deep_view() =~~= d0.push(n@));
    assert(tsv(ts)[j as int] == ts@[j as int]@);
    if matches!(ts[j].token, Token::Comma) {
        let j2 = match next_ex(ts, f, j) {
            Ok(x) => x,
            Err(m) => { return Err(m); },
        };
        p_params_ex(ts, f, j2, acc2)
    } else {
        p_params_ex(ts, f, j, acc2)
    }
}

fn p_func_ex(ts: &Vec<TokenInfo>, f: &Option<Vec<char>>, i: usize) -> (r: Result<(FuncDef, usize), Vec<char>>)
    requires
        i < ts@.len(),
    ensures
        agrees(p_func(tsv(ts), opt_view(*f), i as int), r, i as int, true, ts@.len() as int),
{
    let j = match eat_ex(ts, f, i, Expect::Func) {
        Ok(x) => x,
        Err(m) => { return Err(m); },
    };
    let (name, j2) = match p_ident_ex(ts, f, j) {
        Ok(p) => p,
        Err(m) => { return Err(m); },
    };
    let j3 = match eat_ex(ts, f, j2, Expect::LParen) {
        Ok(x) => x,
        Err(m) => { return Err(m); },
    };
    let none: Vec<Vec<char>> = Vec::new();
    assert(none.deep_view() =~= Seq::<Seq<char>>::empty());
    let (args, j4) = match p_params_ex(ts, f, j3, none) {
        Ok(p) => p,
        Err(m) => { return Err(m); },
    };
    let j5 = match eat_ex(ts, f, j4, Expect::RParen) {
        Ok(x) => x,
        Err(m) => { return Err(m); },
    };
    let (body, k) = match p_braced_ex(ts, f, j5) {
        Ok(p) => p,
        Err(m) => { return Err(m); },
    };
    Ok((FuncDef { name: name.0, args: args.0, body: body.0 }, k))
}

fn p_items_top_ex(ts: &Vec<TokenInfo>, f: &Option<Vec<char>>, i: usize, funcs: Vec<FuncDef>, incs: Vec<Stmt>) -> (r: Result<(Vec<FuncDef>, Vec<Stmt>), Vec<char>>)
    requires
        i < ts@.len(),
    ensures
        match r {
            Ok((fs, is)) => p_items_top(tsv(ts), opt_view(*f), i as int, fvs(funcs@), svs(incs@)) == Ok::<(Seq<FuncDefV>, Seq<StmtV>), Seq<char>>((fvs(fs@), svs(is@))),
            Err(m) => p_items_top(tsv(ts), opt_view(*f), i as int, fvs(funcs@), svs(incs@)) == Err::<(Seq<FuncDefV>, Seq<StmtV>), Seq<char>>(m@),
        },
    decreases ts@.len() - i,
{
    assert(tsv(ts)[i as int] == ts@[i as int]@);
    if matches!(ts[i].token, Token::EOF) {
        return Ok((funcs, incs));
    }
    if matches!(ts[i].token, Token::Include) {
        let (path, k) = match p_include_ex(ts, f, i) {
            Ok(p) => p,
            Err(m) => { return Err(m); },
        };
        let mut incs2 = incs;
        let st = Stmt::Include(path.0);
        proof {
            lemma_svs_push(incs2@, st);
        }
        incs2.push(st);
        p_items_top_ex(ts, f, k, funcs, incs2)
    } else {
        let (fd, k) = match p_func_ex(ts, f, i) {
            Ok(p) => p,
            Err(m) => { return Err(m); },
        };
        let mut funcs2 = funcs;
        let ghost v0 = fvs(funcs2@);
        let ghost fdv = fd@;
        funcs2.push(fd);
        assert(fvs(funcs2@) =~= v0.push(fdv));
        p_items_top_ex(ts, f, k, funcs2, incs)
    }
}

/// The parser: the token stream of a text, read as a program.
pub struct Parser {
    toks: Vec<TokenInfo>,
    fail: Option<Vec<char>>,
}

impl Parser {
    /// The tokens the parser reads, and the lexical error after them if any.
    pub closed spec fn stream(&self) -> (Seq<TokenInfoV>, Option<Seq<char>>) {
        (tokens_view(self.toks@), opt_view(self.fail))
    }

    /// A parser over the tokens from the lexer's position on.
    pub fn new(l: Lexer) -> (r: Parser)
        requires
            lexer_wf(l@),
        ensures
            r.stream() == lex_all(l@),
    {
        let (toks, fail) = lex_tokens(l);
        Parser { toks, fail }
    }

    /// Parses the whole program: its functions, with the top-level
    /// `include`s put at the front of the first function's body. The
    /// program must lex and parse (`parse_spec` gives functions); see
    /// `check_program` for the check that reports the error.
    pub fn parse_program(&mut self) -> (r: Vec<FuncDef>)
        requires
            parse_spec(old(self).stream().0, old(self).stream().1) is Ok,
        ensures
            final(self).stream() == old(self).stream(),
            parse_spec(old(self).stream().0, old(self).stream().1) == Ok::<Seq<FuncDefV>, Seq<char>>(fvs(r@)),
    {
        match self.check_program() {
            Ok(fs) => fs,
            Err(_) => {
                assert(false);
                Vec::new()
            },
        }
    }

    /// Parses the whole program as `parse_program` does, or reports the
    /// lexical or syntax error that stops it.
    pub fn check_program(&mut self) -> (r: Result<Vec<FuncDef>, Vec<char>>)
        ensures
            final(self).stream() == old(self).stream(),
            match r {
                Ok(fs) => parse_spec(old(self).stream().0, old(self).stream().1) == Ok::<Seq<FuncDefV>, Seq<char>>(fvs(fs@)),
                Err(m) => parse_spec(old(self).stream().0, old(self).stream().1) == Err::<Seq<FuncDefV>, Seq<char>>(m@),
            },
    {
        if self.toks.len() == 0 {
            return match &self.fail {
                Some(m) => Err(copy_chars(m)),
                None => Err(Vec::new()),
            };
        }
        assert(fvs(Seq::<FuncDef>::empty()) =~= Seq::<FuncDefV>::empty());
        let (mut funcs, incs) = match p_items_top_ex(&self.toks, &self.fail, 0, Vec::new(), Vec::new()) {
            Ok(p) => p,
            Err(m) => { return Err(m); },
        };
        if incs.len() > 0 && funcs.len() > 0 {
            let ghost v0 = fvs(funcs@);
            let mut first = funcs.remove(0);
            let mut body = incs;
            let ghost b0 = body@;
            let ghost b1 = first.body@;
            body.append(&mut first.body);
            proof {
                lemma_svs_append(b0, b1);
            }
            let fd = FuncDef { name: first.name, args: first.args, body };
            funcs.insert(0, fd);
            assert(fvs(funcs@) =~= v0.update(0, FuncDefV { body: svs(b0) + v0[0].body, ..v0[0] }));
        }
        Ok(funcs)
    }
}

/// Reads a program from source text, or reports the lexical or syntax
/// error that stops it.
pub fn parse_source(text: &str) -> (r: Result<Vec<FuncDef>, Vec<char>>)
    ensures
        match r {
            Ok(fs) => parse_spec(lex_all(LexerV { text: text@, pos: 0, line: 1, col: 1 }).0, lex_all(LexerV { text: text@, pos: 0, line: 1, col: 1 }).1)
                == Ok::<Seq<FuncDefV>, Seq<char>>(fvs(fs@)),
            Err(m) => parse_spec(lex_all(LexerV { text: text@, pos: 0, line: 1, col: 1 }).0, lex_all(LexerV { text: text@, pos: 0, line: 1, col: 1 }).1)
                == Err::<Seq<FuncDefV>, Seq<char>>(m@),
        },
{
    let mut p = Parser::new(Lexer::new(text));
    p.check_program()
}

} // verus!
