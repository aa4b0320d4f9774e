//! The grammar of the language, as the parser reads it: recursive descent
//! over the token stream, with the message of each syntax error.
//!
//! The parser reads the tokens that the lexer hands out one by one; a
//! lexical error surfaces when the parser asks for the token after the last
//! good one.
use vstd::prelude::*;
use crate::ast::{BinaryOp, Expr, ExprV, FuncDef, FuncDefV, Stmt, StmtV, UnaryOp};
use crate::fmt::{int_text, nat_digits};
use crate::lexer::{TokenInfoV, TokenV};

verus! {

/// The payload-free tokens that the parser demands by name.
#[derive(Clone, Copy, PartialEq, Eq, Structural, Debug)]
pub enum Expect {
    Func,
    Assign,
    Catch,
    LParen,
    RParen,
    LBrace,
    RBrace,
    RBracket,
    Colon,
    Semicolon,
}

pub open spec fn expect_name(k: Expect) -> Seq<char> {
    match k {
        Expect::Func => "Func"@,
        Expect::Assign => "Assign"@,
        Expect::Catch => "Catch"@,
        Expect::LParen => "LParen"@,
        Expect::RParen => "RParen"@,
        Expect::LBrace => "LBrace"@,
        Expect::RBrace => "RBrace"@,
        Expect::RBracket => "RBracket"@,
        Expect::Colon => "Colon"@,
        Expect::Semicolon => "Semicolon"@,
    }
}

pub open spec fn is_expected(t: TokenV, k: Expect) -> bool {
    match k {
        Expect::Func => t is Func,
        Expect::Assign => t is Assign,
        Expect::Catch => t is Catch,
        Expect::LParen => t is LParen,
        Expect::RParen => t is RParen,
        Expect::LBrace => t is LBrace,
        Expect::RBrace => t is RBrace,
        Expect::RBracket => t is RBracket,
        Expect::Colon => t is Colon,
        Expect::Semicolon => t is Semicolon,
    }
}

/// A character as Rust's `Debug` shows it inside a quoted string: quotes,
/// backslashes and ASCII control characters escaped.
pub open spec fn debug_char(c: char) -> Seq<char> {
    if c == '"' { "\\\""@ }
    else if c == '\\' { "\\\\"@ }
    else if c == '\n' { "\\n"@ }
    else if c == '\r' { "\\r"@ }
    else if c == '\t' { "\\t"@ }
    else if c == '\0' { "\\0"@ }
    else if (c as u32) < 0x20 || c as u32 == 0x7f { "\\u{"@ + hex_digits(c as u32 as nat) + "}"@ }
    else { seq![c] }
}

pub open spec fn hex_char(d: nat) -> char {
    if d < 10 { crate::fmt::digit_char(d) }
    else if d == 10 { 'a' } else if d == 11 { 'b' } else if d == 12 { 'c' }
    else if d == 13 { 'd' } else if d == 14 { 'e' } else { 'f' }
}

/// Lower-case hexadecimal digits, without leading zeros.
pub open spec fn hex_digits(n: nat) -> Seq<char>
    decreases n,
{
    if n < 16 { seq![hex_char(n)] } else { hex_digits(n / 16).push(hex_char(n % 16)) }
}

/// The characters of a string as `Debug` shows them.
pub open spec fn debug_body(s: Seq<char>) -> Seq<char>
    decreases s.len(),
{
    if s.len() == 0 { Seq::empty() } else { debug_body(s.drop_last()) + debug_char(s.last()) }
}

/// A string as `Debug` shows it, with its quotes.
pub open spec fn debug_str(s: Seq<char>) -> Seq<char> {
    "\""@ + debug_body(s) + "\""@
}

/// A token as `Debug` shows it.
pub open spec fn token_debug(t: TokenV) -> Seq<char> {
    match t {
        TokenV::Func => "Func"@,
        TokenV::Let => "Let"@,
        TokenV::If => "If"@,
        TokenV::Else => "Else"@,
        TokenV::Return => "Return"@,
        TokenV::While => "While"@,
        TokenV::For => "For"@,
        TokenV::Break => "Break"@,
        TokenV::Continue => "Continue"@,
        TokenV::True => "True"@,
        TokenV::False => "False"@,
        TokenV::Null => "Null"@,
        TokenV::And => "And"@,
        TokenV::Or => "Or"@,
        TokenV::Not => "Not"@,
        TokenV::Try => "Try"@,
        TokenV::Catch => "Catch"@,
        TokenV::Throw => "Throw"@,
        TokenV::Include => "Include"@,
        TokenV::Ident(s) => "Ident("@ + debug_str(s) + ")"@,
        TokenV::Int(i) => "Int("@ + int_text(i as int) + ")"@,
        TokenV::Float(s) => "Float("@ + s + ")"@,
        TokenV::String(s) => "String("@ + debug_str(s) + ")"@,
        TokenV::Assign => "Assign"@,
        TokenV::Eq => "Eq"@,
        TokenV::NotEq => "NotEq"@,
        TokenV::Plus => "Plus"@,
        TokenV::Minus => "Minus"@,
        TokenV::Star => "Star"@,
        TokenV::Slash => "Slash"@,
        TokenV::PlusPlus => "PlusPlus"@,
        TokenV::MinusMinus => "MinusMinus"@,
        TokenV::PlusEq => "PlusEq"@,
        TokenV::MinusEq => "MinusEq"@,
        TokenV::StarEq => "StarEq"@,
        TokenV::SlashEq => "SlashEq"@,
        TokenV::Less => "Less"@,
        TokenV::LessEq => "LessEq"@,
        TokenV::Greater => "Greater"@,
        TokenV::GreaterEq => "GreaterEq"@,
        TokenV::LParen => "LParen"@,
        TokenV::RParen => "RParen"@,
        TokenV::LBrace => "LBrace"@,
        TokenV::RBrace => "RBrace"@,
        TokenV::LBracket => "LBracket"@,
        TokenV::RBracket => "RBracket"@,
        TokenV::Comma => "Comma"@,
        TokenV::Colon => "Colon"@,
        TokenV::Semicolon => "Semicolon"@,
        TokenV::Dot => "Dot"@,
        TokenV::EOF => "EOF"@,
    }
}

/// A syntax error at a token.
pub open spec fn syn_msg(t: TokenInfoV, what: Seq<char>) -> Seq<char> {
    "SyntaxError[Line "@ + nat_digits(t.line as nat) + ", Col "@ + nat_digits(t.col as nat) + "]: "@ + what
}

/// The error of an `include` without a string path (its position is spelt
/// in lower case).
pub open spec fn include_msg(t: TokenInfoV) -> Seq<char> {
    "SyntaxError[line "@ + nat_digits(t.line as nat) + ", col "@ + nat_digits(t.col as nat) + "]: include expects a string path"@
}

pub open spec fn expect_msg(t: TokenInfoV, k: Expect) -> Seq<char> {
    syn_msg(t, "Expected '"@ + expect_name(k) + "', but encountered '"@ + token_debug(t.token) + "'."@)
}

/// What parsing gives: a value and the index of the next token, or an
/// error message.
pub type PR<T> = Result<(T, int), Seq<char>>;

/// Moving past token `i`: the next token, or the lexical error that stands
/// after the last token.
pub open spec fn next(ts: Seq<TokenInfoV>, f: Option<Seq<char>>, i: int) -> Result<int, Seq<char>> {
    if i + 1 < ts.len() {
        Ok(i + 1)
    } else {
        Err(match f { Some(m) => m, None => Seq::empty() })
    }
}

/// Moving past token `i`, which must be of kind `k`.
pub open spec fn eat(ts: Seq<TokenInfoV>, f: Option<Seq<char>>, i: int, k: Expect) -> Result<int, Seq<char>> {
    if is_expected(ts[i].token, k) { next(ts, f, i) } else { Err(expect_msg(ts[i], k)) }
}

pub open spec fn p_ident(ts: Seq<TokenInfoV>, f: Option<Seq<char>>, i: int) -> PR<Seq<char>> {
    match ts[i].token {
        TokenV::Ident(s) => match next(ts, f, i) {
            Ok(j) => Ok((s, j)),
            Err(m) => Err(m),
        },
        _ => Err(syn_msg(ts[i], "Expected a valid identifier."@)),
    }
}

/// A step to a later token that stays inside the stream.
pub open spec fn forward(ts: Seq<TokenInfoV>, i: int, j: int) -> bool {
    i < j < ts.len()
}

/// The binary operator of precedence level `l` (0: `or`, 1: `and`,
/// 2: comparisons, 3: `+ -`, 4: `* /`) that a token spells.
pub open spec fn bin_op(l: nat, t: TokenV) -> Option<BinaryOp> {
    if l == 0 {
        if t is Or { Some(BinaryOp::Or) } else { None }
    } else if l == 1 {
        if t is And { Some(BinaryOp::And) } else { None }
    } else if l == 2 {
        match t {
            TokenV::Less => Some(BinaryOp::Less),
            TokenV::LessEq => Some(BinaryOp::LessEq),
            TokenV::Greater => Some(BinaryOp::Greater),
            TokenV::GreaterEq => Some(BinaryOp::GreaterEq),
            TokenV::Eq => Some(BinaryOp::Eq),
            TokenV::NotEq => Some(BinaryOp::NotEq),
            _ => None,
        }
    } else if l == 3 {
        match t {
            TokenV::Plus => Some(BinaryOp::Plus),
            TokenV::Minus => Some(BinaryOp::Minus),
            _ => None,
        }
    } else {
        match t {
            TokenV::Star => Some(BinaryOp::Star),
            TokenV::Slash => Some(BinaryOp::Slash),
            _ => None,
        }
    }
}

/// The assignment a token spells: plain, or compound with an operator.
pub open spec fn assign_op(t: TokenV) -> Option<Option<BinaryOp>> {
    match t {
        TokenV::Assign => Some(None),
        TokenV::PlusEq => Some(Some(BinaryOp::Plus)),
        TokenV::MinusEq => Some(Some(BinaryOp::Minus)),
        TokenV::StarEq => Some(Some(BinaryOp::Star)),
        TokenV::SlashEq => Some(Some(BinaryOp::Slash)),
        _ => None,
    }
}

/// `a op= b` is `a = a op b`.
pub open spec fn assign_node(left: ExprV, op: Option<BinaryOp>, right: ExprV) -> ExprV {
    match op {
        None => ExprV::Assign(Box::new(left), Box::new(right)),
        Some(o) => ExprV::Assign(Box::new(left), Box::new(ExprV::Binary(Box::new(left), o, Box::new(right)))),
    }
}

/// An expression: a disjunction, then an optional (right-associative)
/// assignment.
pub open spec fn p_expr(ts: Seq<TokenInfoV>, f: Option<Seq<char>>, i: int) -> PR<ExprV>
    decreases ts.len() - i, 20nat, 0nat,
{
    if !(0 <= i < ts.len()) {
        Err(Seq::empty())
    } else {
        match p_bin(ts, f, 0, i) {
            Err(m) => Err(m),
            Ok((left, j)) => if !forward(ts, i, j) {
                Err(Seq::empty())
            } else {
                match assign_op(ts[j].token) {
                    None => Ok((left, j)),
                    Some(op) => match next(ts, f, j) {
                        Err(m) => Err(m),
                        Ok(j2) => match p_expr(ts, f, j2) {
                            Err(m) => Err(m),
                            Ok((right, k)) => Ok((assign_node(left, op, right), k)),
                        },
                    },
                }
            },
        }
    }
}

/// The operand of level `l`: the next level, or a factor below level 4.
pub open spec fn p_operand(ts: Seq<TokenInfoV>, f: Option<Seq<char>>, l: nat, i: int) -> PR<ExprV>
    decreases ts.len() - i, 15 - l, 1nat,
{
    if l > 4 {
        Err(Seq::empty())
    } else if l == 4 {
        p_factor(ts, f, i)
    } else {
        p_bin(ts, f, (l + 1) as nat, i)
    }
}

/// A left-associative chain of level-`l` operators.
pub open spec fn p_bin(ts: Seq<TokenInfoV>, f: Option<Seq<char>>, l: nat, i: int) -> PR<ExprV>
    decreases ts.len() - i, 15 - l, 2nat,
{
    if !(0 <= i < ts.len()) || l > 4 {
        Err(Seq::empty())
    } else {
        match p_operand(ts, f, l, i) {
            Err(m) => Err(m),
            Ok((left, j)) => if !forward(ts, i, j) { Err(Seq::empty()) } else { p_tail(ts, f, l, j, left) },
        }
    }
}

/// The rest of a level-`l` chain after `left`.
pub open spec fn p_tail(ts: Seq<TokenInfoV>, f: Option<Seq<char>>, l: nat, i: int, left: ExprV) -> PR<ExprV>
    decreases ts.len() - i, 15 - l, 0nat,
{
    if !(0 <= i < ts.len()) || l > 4 {
        Err(Seq::empty())
    } else {
        match bin_op(l, ts[i].token) {
            None => Ok((left, i)),
            Some(op) => match next(ts, f, i) {
                Err(m) => Err(m),
                Ok(j) => match p_operand(ts, f, l, j) {
                    Err(m) => Err(m),
                    Ok((right, k)) => if !forward(ts, j, k) {
                        Err(Seq::empty())
                    } else {
                        p_tail(ts, f, l, k, ExprV::Binary(Box::new(left), op, Box::new(right)))
                    },
                },
            },
        }
    }
}

/// A factor: `not` or `-` before a factor, or a primary with its postfixes.
pub open spec fn p_factor(ts: Seq<TokenInfoV>, f: Option<Seq<char>>, i: int) -> PR<ExprV>
    decreases ts.len() - i, 5nat, 0nat,
{
    if !(0 <= i < ts.len()) {
        Err(Seq::empty())
    } else if ts[i].token is Not || ts[i].token is Minus {
        let op = if ts[i].token is Not { UnaryOp::Not } else { UnaryOp::Minus };
        match next(ts, f, i) {
            Err(m) => Err(m),
            Ok(j) => match p_factor(ts, f, j) {
                Err(m) => Err(m),
                Ok((e, k)) => Ok((ExprV::Unary(op, Box::new(e)), k)),
            },
        }
    } else {
        match p_primary(ts, f, i) {
            Err(m) => Err(m),
            Ok((node, j)) => if !forward(ts, i, j) { Err(Seq::empty()) } else { p_postfix(ts, f, j, node) },
        }
    }
}

/// A literal, a name, a symbol (`:name`), an array, a table or a
/// parenthesised expression.
pub open spec fn p_primary(ts: Seq<TokenInfoV>, f: Option<Seq<char>>, i: int) -> PR<ExprV>
    decreases ts.len() - i, 4nat, 0nat,
{
    if !(0 <= i < ts.len()) {
        Err(Seq::empty())
    } else {
        let leaf = |e: ExprV| match next(ts, f, i) { Ok(j) => Ok((e, j)), Err(m) => Err(m) };
        match ts[i].token {
            TokenV::Null => leaf(ExprV::Null),
            TokenV::True => leaf(ExprV::Bool(true)),
            TokenV::False => leaf(ExprV::Bool(false)),
            TokenV::Int(n) => leaf(ExprV::Int(n)),
            TokenV::Float(t) => leaf(ExprV::Float(t)),
            TokenV::String(t) => leaf(ExprV::String(t)),
            TokenV::Ident(t) => leaf(ExprV::Ident(t)),
            TokenV::Colon => match next(ts, f, i) {
                Err(m) => Err(m),
                Ok(j) => match p_ident(ts, f, j) {
                    Err(m) => Err(m),
                    Ok((name, k)) => Ok((ExprV::Symbol(name), k)),
                },
            },
            TokenV::LBracket => match next(ts, f, i) {
                Err(m) => Err(m),
                Ok(j) => match p_items(ts, f, j, false, Seq::empty()) {
                    Err(m) => Err(m),
                    Ok((items, k)) => match eat(ts, f, k, Expect::RBracket) {
                        Err(m) => Err(m),
                        Ok(k2) => Ok((ExprV::Array(items), k2)),
                    },
                },
            },
            TokenV::LBrace => match next(ts, f, i) {
                Err(m) => Err(m),
                Ok(j) => match p_pairs(ts, f, j, Seq::empty()) {
                    Err(m) => Err(m),
                    Ok((pairs, k)) => match eat(ts, f, k, Expect::RBrace) {
                        Err(m) => Err(m),
                        Ok(k2) => Ok((ExprV::Table(pairs), k2)),
                    },
                },
            },
            TokenV::LParen => match next(ts, f, i) {
                Err(m) => Err(m),
                Ok(j) => match p_expr(ts, f, j) {
                    Err(m) => Err(m),
                    Ok((e, k)) => match eat(ts, f, k, Expect::RParen) {
                        Err(m) => Err(m),
                        Ok(k2) => Ok((e, k2)),
                    },
                },
            },
            _ => Err(syn_msg(ts[i], "Unexpected token '"@ + token_debug(ts[i].token) + "'."@)),
        }
    }
}

/// Calls, indexing, `.name`, `++` and `--` after a primary.
pub open spec fn p_postfix(ts: Seq<TokenInfoV>, f: Option<Seq<char>>, i: int, node: ExprV) -> PR<ExprV>
    decreases ts.len() - i, 3nat, 0nat,
{
    if !(0 <= i < ts.len()) {
        Err(Seq::empty())
    } else {
        match ts[i].token {
            TokenV::LParen => match node {
                ExprV::Ident(name) => match next(ts, f, i) {
                    Err(m) => Err(m),
                    Ok(j) => match p_items(ts, f, j, true, Seq::empty()) {
                        Err(m) => Err(m),
                        Ok((args, k)) => match eat(ts, f, k, Expect::RParen) {
                            Err(m) => Err(m),
                            Ok(k2) => if !forward(ts, i, k2) { Err(Seq::empty()) } else { p_postfix(ts, f, k2, ExprV::Call(name, args)) },
                        },
                    },
                },
                _ => Err(syn_msg(ts[i], "Cannot invoke non-identifier."@)),
            },
            TokenV::LBracket => match next(ts, f, i) {
                Err(m) => Err(m),
                Ok(j) => match p_expr(ts, f, j) {
                    Err(m) => Err(m),
                    Ok((idx, k)) => match eat(ts, f, k, Expect::RBracket) {
                        Err(m) => Err(m),
                        Ok(k2) => if !forward(ts, i, k2) { Err(Seq::empty()) } else { p_postfix(ts, f, k2, ExprV::Get(Box::new(node), Box::new(idx))) },
                    },
                },
            },
            TokenV::Dot => match next(ts, f, i) {
                Err(m) => Err(m),
                Ok(j) => match p_ident(ts, f, j) {
                    Err(m) => Err(m),
                    Ok((prop, k)) => if !forward(ts, i, k) { Err(Seq::empty()) } else { p_postfix(ts, f, k, ExprV::Get(Box::new(node), Box::new(ExprV::Symbol(prop)))) },
                },
            },
            TokenV::PlusPlus => match next(ts, f, i) {
                Err(m) => Err(m),
                Ok(j) => p_postfix(ts, f, j, ExprV::PostInc(Box::new(node))),
            },
            TokenV::MinusMinus => match next(ts, f, i) {
                Err(m) => Err(m),
                Ok(j) => p_postfix(ts, f, j, ExprV::PostDec(Box::new(node))),
            },
            _ => Ok((node, i)),
        }
    }
}

/// Expressions up to `)` (call arguments) or `]` (array items), each
/// optionally followed by a comma; `acc` holds those read so far.
pub open spec fn p_items(ts: Seq<TokenInfoV>, f: Option<Seq<char>>, i: int, paren: bool, acc: Seq<ExprV>) -> PR<Seq<ExprV>>
    decreases ts.len() - i, 21nat, 0nat,
{
    if !(0 <= i < ts.len()) {
        Err(Seq::empty())
    } else if (paren && ts[i].token is RParen) || (!paren && ts[i].token is RBracket) {
        Ok((acc, i))
    } else {
        match p_expr(ts, f, i) {
            Err(m) => Err(m),
            Ok((e, j)) => if !forward(ts, i, j) {
                Err(Seq::empty())
            } else if ts[j].token is Comma {
                match next(ts, f, j) {
                    Err(m) => Err(m),
                    Ok(j2) => p_items(ts, f, j2, paren, acc.push(e)),
                }
            } else {
                p_items(ts, f, j, paren, acc.push(e))
            },
        }
    }
}

/// Table entries `name: expr` up to `}`, each optionally followed by a
/// comma.
pub open spec fn p_pairs(ts: Seq<TokenInfoV>, f: Option<Seq<char>>, i: int, acc: Seq<(Seq<char>, ExprV)>) -> PR<Seq<(Seq<char>, ExprV)>>
    decreases ts.len() - i, 21nat, 0nat,
{
    if !(0 <= i < ts.len()) {
        Err(Seq::empty())
    } else if ts[i].token is RBrace {
        Ok((acc, i))
    } else {
        match p_ident(ts, f, i) {
            Err(m) => Err(m),
            Ok((key, j)) => match eat(ts, f, j, Expect::Colon) {
                Err(m) => Err(m),
                Ok(j2) => match p_expr(ts, f, j2) {
                    Err(m) => Err(m),
                    Ok((v, k)) => if !forward(ts, i, k) {
                        Err(Seq::empty())
                    } else if ts[k].token is Comma {
                        match next(ts, f, k) {
                            Err(m) => Err(m),
                            Ok(k2) => p_pairs(ts, f, k2, acc.push((key, v))),
                        }
                    } else {
                        p_pairs(ts, f, k, acc.push((key, v)))
                    },
                },
            },
        }
    }
}

/// Statements up to `}`; `acc` holds those read so far.
pub open spec fn p_block(ts: Seq<TokenInfoV>, f: Option<Seq<char>>, i: int, acc: Seq<StmtV>) -> PR<Seq<StmtV>>
    decreases ts.len() - i, 31nat, 0nat,
{
    if !(0 <= i < ts.len()) {
        Err(Seq::empty())
    } else if ts[i].token is RBrace {
        Ok((acc, i))
    } else {
        match p_stmt(ts, f, i) {
            Err(m) => Err(m),
            Ok((s, j)) => if !forward(ts, i, j) { Err(Seq::empty()) } else { p_block(ts, f, j, acc.push(s)) },
        }
    }
}

/// `{ statements }`.
pub open spec fn p_braced(ts: Seq<TokenInfoV>, f: Option<Seq<char>>, i: int) -> PR<Seq<StmtV>>
    decreases ts.len() - i, 32nat, 0nat,
{
    if !(0 <= i < ts.len()) {
        Err(Seq::empty())
    } else {
        match eat(ts, f, i, Expect::LBrace) {
            Err(m) => Err(m),
            Ok(j) => match p_block(ts, f, j, Seq::empty()) {
                Err(m) => Err(m),
                Ok((b, k)) => match eat(ts, f, k, Expect::RBrace) {
                    Err(m) => Err(m),
                    Ok(k2) => Ok((b, k2)),
                },
            },
        }
    }
}

/// `( expr )`.
pub open spec fn p_paren_expr(ts: Seq<TokenInfoV>, f: Option<Seq<char>>, i: int) -> PR<ExprV>
    decreases ts.len() - i, 22nat, 0nat,
{
    if !(0 <= i < ts.len()) {
        Err(Seq::empty())
    } else {
        match eat(ts, f, i, Expect::LParen) {
            Err(m) => Err(m),
            Ok(j) => match p_expr(ts, f, j) {
                Err(m) => Err(m),
                Ok((c, k)) => match eat(ts, f, k, Expect::RParen) {
                    Err(m) => Err(m),
                    Ok(k2) => Ok((c, k2)),
                },
            },
        }
    }
}

/// An expression and its `;`.
pub open spec fn p_expr_semi(ts: Seq<TokenInfoV>, f: Option<Seq<char>>, i: int) -> PR<ExprV>
    decreases ts.len() - i, 22nat, 0nat,
{
    if !(0 <= i < ts.len()) {
        Err(Seq::empty())
    } else {
        match p_expr(ts, f, i) {
            Err(m) => Err(m),
            Ok((e, j)) => match eat(ts, f, j, Expect::Semicolon) {
                Err(m) => Err(m),
                Ok(k) => Ok((e, k)),
            },
        }
    }
}

/// The `else` part of an `if`, if any.
pub open spec fn p_else(ts: Seq<TokenInfoV>, f: Option<Seq<char>>, i: int) -> PR<Option<Seq<StmtV>>>
    decreases ts.len() - i, 33nat, 0nat,
{
    if !(0 <= i < ts.len()) {
        Err(Seq::empty())
    } else if !(ts[i].token is Else) {
        Ok((None, i))
    } else {
        match next(ts, f, i) {
            Err(m) => Err(m),
            Ok(j) => if ts[j].token is If {
                match p_stmt(ts, f, j) {
                    Err(m) => Err(m),
                    Ok((s, k)) => Ok((Some(seq![s]), k)),
                }
            } else {
                match p_braced(ts, f, j) {
                    Err(m) => Err(m),
                    Ok((b, k)) => Ok((Some(b), k)),
                }
            },
        }
    }
}

/// The inside of `catch ( ... )`: error type strings separated by commas,
/// then the error variable.
pub open spec fn p_catch(ts: Seq<TokenInfoV>, f: Option<Seq<char>>, i: int, types: Seq<Seq<char>>) -> PR<(Seq<Seq<char>>, Seq<char>)>
    decreases ts.len() - i,
{
    if !(0 <= i < ts.len()) {
        Err(Seq::empty())
    } else {
        match ts[i].token {
            TokenV::String(t) => match next(ts, f, i) {
                Err(m) => Err(m),
                Ok(j) => if ts[j].token is Comma {
                    match next(ts, f, j) {
                        Err(m) => Err(m),
                        Ok(j2) => p_catch(ts, f, j2, types.push(t)),
                    }
                } else {
                    Err(syn_msg(ts[j], "Catch statement requires an error variable"@))
                },
            },
            TokenV::Ident(v) => match next(ts, f, i) {
                Err(m) => Err(m),
                Ok(j) => Ok(((types, v), j)),
            },
            _ => Err(syn_msg(ts[i], "Expected error type (string) or variable name in catch statement"@)),
        }
    }
}

/// `include "path";` after the `include` at `i`.
pub open spec fn p_include(ts: Seq<TokenInfoV>, f: Option<Seq<char>>, i: int) -> PR<Seq<char>> {
    if !(0 <= i < ts.len()) {
        Err(Seq::empty())
    } else {
        match next(ts, f, i) {
            Err(m) => Err(m),
            Ok(j) => match ts[j].token {
                TokenV::String(path) => match next(ts, f, j) {
                    Err(m) => Err(m),
                    Ok(k) => match eat(ts, f, k, Expect::Semicolon) {
                        Err(m) => Err(m),
                        Ok(k2) => Ok((path, k2)),
                    },
                },
                _ => Err(include_msg(ts[j])),
            },
        }
    }
}

/// A statement.
pub open spec fn p_stmt(ts: Seq<TokenInfoV>, f: Option<Seq<char>>, i: int) -> PR<StmtV>
    decreases ts.len() - i, 30nat, 0nat,
{
    if !(0 <= i < ts.len()) {
        Err(Seq::empty())
    } else {
        match ts[i].token {
            TokenV::Include => match p_include(ts, f, i) {
                Err(m) => Err(m),
                Ok((path, k)) => Ok((StmtV::Include(path), k)),
            },
            TokenV::Let => p_let(ts, f, i),
            TokenV::If => p_if(ts, f, i),
            TokenV::While => p_while(ts, f, i),
            TokenV::For => p_for(ts, f, i),
            TokenV::Try => p_try(ts, f, i),
            TokenV::Throw => match next(ts, f, i) {
                Err(m) => Err(m),
                Ok(j) => match p_expr_semi(ts, f, j) {
                    Err(m) => Err(m),
                    Ok((v, k)) => Ok((StmtV::Throw(v), k)),
                },
            },
            TokenV::Break => match next(ts, f, i) {
                Err(m) => Err(m),
                Ok(j) => match eat(ts, f, j, Expect::Semicolon) {
                    Err(m) => Err(m),
                    Ok(k) => Ok((StmtV::Break, k)),
                },
            },
            TokenV::Continue => match next(ts, f, i) {
                Err(m) => Err(m),
                Ok(j) => match eat(ts, f, j, Expect::Semicolon) {
                    Err(m) => Err(m),
                    Ok(k) => Ok((StmtV::Continue, k)),
                },
            },
            TokenV::Return => match next(ts, f, i) {
                Err(m) => Err(m),
                Ok(j) => match p_expr_semi(ts, f, j) {
                    Err(m) => Err(m),
                    Ok((v, k)) => Ok((StmtV::Return(v), k)),
                },
            },
            _ => match p_expr_semi(ts, f, i) {
                Err(m) => Err(m),
                Ok((e, k)) => Ok((StmtV::Expr(e), k)),
            },
        }
    }
}

/// `let name = expr;`, from the keyword at `i`.
pub open spec fn p_let(ts: Seq<TokenInfoV>, f: Option<Seq<char>>, i: int) -> PR<StmtV>
    decreases ts.len() - i, 29nat, 0nat,
{
    if !(0 <= i < ts.len()) {
        Err(Seq::empty())
    } else {
        match next(ts, f, i) {
            Err(m) => Err(m),
            Ok(j) => match p_ident(ts, f, j) {
                Err(m) => Err(m),
                Ok((n, j2)) => match eat(ts, f, j2, Expect::Assign) {
                    Err(m) => Err(m),
                    Ok(j3) => match p_expr_semi(ts, f, j3) {
                        Err(m) => Err(m),
                        Ok((v, k)) => Ok((StmtV::Let(n, v), k)),
                    },
                },
            },
        }
    }
}

/// `if (cond) { ... }` with its `else` part, from the keyword at `i`.
pub open spec fn p_if(ts: Seq<TokenInfoV>, f: Option<Seq<char>>, i: int) -> PR<StmtV>
    decreases ts.len() - i, 29nat, 0nat,
{
    if !(0 <= i < ts.len()) {
        Err(Seq::empty())
    } else {
        match next(ts, f, i) {
            Err(m) => Err(m),
            Ok(j) => match p_paren_expr(ts, f, j) {
                Err(m) => Err(m),
                Ok((c, j2)) => if !forward(ts, i, j2) { Err(Seq::empty()) } else {
                    match p_braced(ts, f, j2) {
                        Err(m) => Err(m),
                        Ok((b, j3)) => if !forward(ts, i, j3) { Err(Seq::empty()) } else {
                            match p_else(ts, f, j3) {
                                Err(m) => Err(m),
                                Ok((e, k)) => Ok((StmtV::If(c, b, e), k)),
                            }
                        },
                    }
                },
            },
        }
    }
}

/// `while (cond) { ... }`, from the keyword at `i`.
pub open spec fn p_while(ts: Seq<TokenInfoV>, f: Option<Seq<char>>, i: int) -> PR<StmtV>
    decreases ts.len() - i, 29nat, 0nat,
{
    if !(0 <= i < ts.len()) {
        Err(Seq::empty())
    } else {
        match next(ts, f, i) {
            Err(m) => Err(m),
            Ok(j) => match p_paren_expr(ts, f, j) {
                Err(m) => Err(m),
                Ok((c, j2)) => if !forward(ts, i, j2) { Err(Seq::empty()) } else {
                    match p_braced(ts, f, j2) {
                        Err(m) => Err(m),
                        Ok((b, k)) => Ok((StmtV::While(c, b), k)),
                    }
                },
            },
        }
    }
}

/// `for (init cond; step) { ... }`, from the keyword at `i`.
pub open spec fn p_for(ts: Seq<TokenInfoV>, f: Option<Seq<char>>, i: int) -> PR<StmtV>
    decreases ts.len() - i, 29nat, 0nat,
{
    if !(0 <= i < ts.len()) {
        Err(Seq::empty())
    } else {
        match next(ts, f, i) {
            Err(m) => Err(m),
            Ok(j) => match eat(ts, f, j, Expect::LParen) {
                Err(m) => Err(m),
                Ok(j2) => match p_stmt(ts, f, j2) {
                    Err(m) => Err(m),
                    Ok((init, j3)) => if !forward(ts, i, j3) { Err(Seq::empty()) } else {
                        match p_expr_semi(ts, f, j3) {
                            Err(m) => Err(m),
                            Ok((c, j4)) => if !forward(ts, i, j4) { Err(Seq::empty()) } else {
                                match p_expr(ts, f, j4) {
                                    Err(m) => Err(m),
                                    Ok((step, j5)) => match eat(ts, f, j5, Expect::RParen) {
                                        Err(m) => Err(m),
                                        Ok(j6) => if !forward(ts, i, j6) { Err(Seq::empty()) } else {
                                            match p_braced(ts, f, j6) {
                                                Err(m) => Err(m),
                                                Ok((b, k)) => Ok((StmtV::For(Box::new(init), c, step, b), k)),
                                            }
                                        },
                                    },
                                }
                            },
                        }
                    },
                },
            },
        }
    }
}

/// `try { ... } catch (types, var) { ... }`, from the keyword at `i`.
pub open spec fn p_try(ts: Seq<TokenInfoV>, f: Option<Seq<char>>, i: int) -> PR<StmtV>
    decreases ts.len() - i, 29nat, 0nat,
{
    if !(0 <= i < ts.len()) {
        Err(Seq::empty())
    } else {
        match next(ts, f, i) {
            Err(m) => Err(m),
            Ok(j) => match p_braced(ts, f, j) {
                Err(m) => Err(m),
                Ok((tb, j2)) => match eat(ts, f, j2, Expect::Catch) {
                    Err(m) => Err(m),
                    Ok(j3) => match eat(ts, f, j3, Expect::LParen) {
                        Err(m) => Err(m),
                        Ok(j4) => match p_catch(ts, f, j4, Seq::empty()) {
                            Err(m) => Err(m),
                            Ok(((types, v), j5)) => match eat(ts, f, j5, Expect::RParen) {
                                Err(m) => Err(m),
                                Ok(j6) => if !forward(ts, i, j6) { Err(Seq::empty()) } else {
                                    match p_braced(ts, f, j6) {
                                        Err(m) => Err(m),
                                        Ok((cb, k)) => Ok((StmtV::Try(tb, types, v, cb), k)),
                                    }
                                },
                            },
                        },
                    },
                },
            },
        }
    }
}

/// Parameter names up to `)`, each optionally followed by a comma.
pub open spec fn p_params(ts: Seq<TokenInfoV>, f: Option<Seq<char>>, i: int, acc: Seq<Seq<char>>) -> PR<Seq<Seq<char>>>
    decreases ts.len() - i,
{
    if !(0 <= i < ts.len()) {
        Err(Seq::empty())
    } else if ts[i].token is RParen {
        Ok((acc, i))
    } else {
        match p_ident(ts, f, i) {
            Err(m) => Err(m),
            Ok((n, j)) => if !forward(ts, i, j) {
                Err(Seq::empty())
            } else if ts[j].token is Comma {
                match next(ts, f, j) {
                    Err(m) => Err(m),
                    Ok(j2) => p_params(ts, f, j2, acc.push(n)),
                }
            } else {
                p_params(ts, f, j, acc.push(n))
            },
        }
    }
}

/// `func name(params) { body }`.
pub open spec fn p_func(ts: Seq<TokenInfoV>, f: Option<Seq<char>>, i: int) -> PR<FuncDefV> {
    if !(0 <= i < ts.len()) {
        Err(Seq::empty())
    } else {
        match eat(ts, f, i, Expect::Func) {
            Err(m) => Err(m),
            Ok(j) => match p_ident(ts, f, j) {
                Err(m) => Err(m),
                Ok((name, j2)) => match eat(ts, f, j2, Expect::LParen) {
                    Err(m) => Err(m),
                    Ok(j3) => match p_params(ts, f, j3, Seq::empty()) {
                        Err(m) => Err(m),
                        Ok((args, j4)) => match eat(ts, f, j4, Expect::RParen) {
                            Err(m) => Err(m),
                            Ok(j5) => match p_braced(ts, f, j5) {
                                Err(m) => Err(m),
                                Ok((body, k)) => Ok((FuncDefV { name, args, body }, k)),
                            },
                        },
                    },
                },
            },
        }
    }
}

/// Top-level items up to `EOF`: functions, and `include`s, which are
/// collected apart.
pub open spec fn p_items_top(ts: Seq<TokenInfoV>, f: Option<Seq<char>>, i: int, funcs: Seq<FuncDefV>, incs: Seq<StmtV>) -> Result<(Seq<FuncDefV>, Seq<StmtV>), Seq<char>>
    decreases ts.len() - i,
{
    if !(0 <= i < ts.len()) {
        Err(Seq::empty())
    } else if ts[i].token is EOF {
        Ok((funcs, incs))
    } else if ts[i].token is Include {
        match p_include(ts, f, i) {
            Err(m) => Err(m),
            Ok((path, k)) => if !forward(ts, i, k) { Err(Seq::empty()) } else { p_items_top(ts, f, k, funcs, incs.push(StmtV::Include(path))) },
        }
    } else {
        match p_func(ts, f, i) {
            Err(m) => Err(m),
            Ok((fd, k)) => if !forward(ts, i, k) { Err(Seq::empty()) } else { p_items_top(ts, f, k, funcs.push(fd), incs) },
        }
    }
}

/// A program: its functions, the top-level `include`s going to the front
/// of the first function's body.
pub open spec fn parse_spec(ts: Seq<TokenInfoV>, f: Option<Seq<char>>) -> Result<Seq<FuncDefV>, Seq<char>> {
    if ts.len() == 0 {
        Err(match f { Some(m) => m, None => Seq::empty() })
    } else {
        match p_items_top(ts, f, 0, Seq::empty(), Seq::empty()) {
            Err(m) => Err(m),
            Ok((funcs, incs)) => if incs.len() > 0 && funcs.len() > 0 {
                Ok(funcs.update(0, FuncDefV { body: incs + funcs[0].body, ..funcs[0] }))
            } else {
                Ok(funcs)
            },
        }
    }
}

} // verus!
