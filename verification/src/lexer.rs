//! The lexer: source characters to tokens.
//!
//! A lexical error ends lexing with a message that says what went wrong
//! and where.
use vstd::prelude::*;
use crate::fmt::{nat_digits, push_all, push_str, push_u64};
use crate::strtext::{is_ws, is_whitespace, parse_i64, parse_i64_spec};

verus! {

/// Whether `c` has the Unicode `Alphabetic` property.
pub uninterp spec fn alphabetic(c: char) -> bool;

/// Whether `c` is in one of Unicode's numeric general categories.
pub uninterp spec fn numeric(c: char) -> bool;

pub open spec fn ascii_letter(c: char) -> bool {
    ('a' <= c && c <= 'z') || ('A' <= c && c <= 'Z')
}

pub open spec fn ascii_digit(c: char) -> bool {
    '0' <= c && c <= '9'
}

/// Calls `char::is_alphabetic`. The result is named `alphabetic(c)`; among
/// ASCII characters exactly the letters have the property.
#[verifier::external_body]
fn char_is_alphabetic(c: char) -> (r: bool)
    ensures
        r == alphabetic(c),
        (c as u32) < 0x80 ==> (r <==> ascii_letter(c)),
{
    c.is_alphabetic()
}

/// Calls `char::is_numeric`. The result is named `numeric(c)`; among ASCII
/// characters exactly the decimal digits are numeric.
#[verifier::external_body]
fn char_is_numeric(c: char) -> (r: bool)
    ensures
        r == numeric(c),
        (c as u32) < 0x80 ==> (r <==> ascii_digit(c)),
{
    c.is_numeric()
}

/// A token. Float literals keep their text; the host computes their value.
pub enum Token {
    Func,
    Let,
    If,
    Else,
    Return,
    While,
    For,
    Break,
    Continue,
    True,
    False,
    Null,
    And,
    Or,
    Not,
    Try,
    Catch,
    Throw,
    Include,
    Ident(Vec<char>),
    Int(i64),
    Float(Vec<char>),
    String(Vec<char>),
    Assign,
    Eq,
    NotEq,
    Plus,
    Minus,
    Star,
    Slash,
    PlusPlus,
    MinusMinus,
    PlusEq,
    MinusEq,
    StarEq,
    SlashEq,
    Less,
    LessEq,
    Greater,
    GreaterEq,
    LParen,
    RParen,
    LBrace,
    RBrace,
    LBracket,
    RBracket,
    Comma,
    Colon,
    Semicolon,
    Dot,
    EOF,
}

pub enum TokenV {
    Func,
    Let,
    If,
    Else,
    Return,
    While,
    For,
    Break,
    Continue,
    True,
    False,
    Null,
    And,
    Or,
    Not,
    Try,
    Catch,
    Throw,
    Include,
    Ident(Seq<char>),
    Int(i64),
    Float(Seq<char>),
    String(Seq<char>),
    Assign,
    Eq,
    NotEq,
    Plus,
    Minus,
    Star,
    Slash,
    PlusPlus,
    MinusMinus,
    PlusEq,
    MinusEq,
    StarEq,
    SlashEq,
    Less,
    LessEq,
    Greater,
    GreaterEq,
    LParen,
    RParen,
    LBrace,
    RBrace,
    LBracket,
    RBracket,
    Comma,
    Colon,
    Semicolon,
    Dot,
    EOF,
}

impl View for Token {
    type V = TokenV;

    open spec fn view(&self) -> TokenV {
        match self {
            Token::Func => TokenV::Func,
            Token::Let => TokenV::Let,
            Token::If => TokenV::If,
            Token::Else => TokenV::Else,
            Token::Return => TokenV::Return,
            Token::While => TokenV::While,
            Token::For => TokenV::For,
            Token::Break => TokenV::Break,
            Token::Continue => TokenV::Continue,
            Token::True => TokenV::True,
            Token::False => TokenV::False,
            Token::Null => TokenV::Null,
            Token::And => TokenV::And,
            Token::Or => TokenV::Or,
            Token::Not => TokenV::Not,
            Token::Try => TokenV::Try,
            Token::Catch => TokenV::Catch,
            Token::Throw => TokenV::Throw,
            Token::Include => TokenV::Include,
            Token::Ident(s) => TokenV::Ident(s@),
            Token::Int(i) => TokenV::Int(*i),
            Token::Float(s) => TokenV::Float(s@),
            Token::String(s) => TokenV::String(s@),
            Token::Assign => TokenV::Assign,
            Token::Eq => TokenV::Eq,
            Token::NotEq => TokenV::NotEq,
            Token::Plus => TokenV::Plus,
            Token::Minus => TokenV::Minus,
            Token::Star => TokenV::Star,
            Token::Slash => TokenV::Slash,
            Token::PlusPlus => TokenV::PlusPlus,
            Token::MinusMinus => TokenV::MinusMinus,
            Token::PlusEq => TokenV::PlusEq,
            Token::MinusEq => TokenV::MinusEq,
            Token::StarEq => TokenV::StarEq,
            Token::SlashEq => TokenV::SlashEq,
            Token::Less => TokenV::Less,
            Token::LessEq => TokenV::LessEq,
            Token::Greater => TokenV::Greater,
            Token::GreaterEq => TokenV::GreaterEq,
            Token::LParen => TokenV::LParen,
            Token::RParen => TokenV::RParen,
            Token::LBrace => TokenV::LBrace,
            Token::RBrace => TokenV::RBrace,
            Token::LBracket => TokenV::LBracket,
            Token::RBracket => TokenV::RBracket,
            Token::Comma => TokenV::Comma,
            Token::Colon => TokenV::Colon,
            Token::Semicolon => TokenV::Semicolon,
            Token::Dot => TokenV::Dot,
            Token::EOF => TokenV::EOF,
        }
    }
}

/// A token and the line and column where it starts.
pub struct TokenInfo {
    pub token: Token,
    pub line: usize,
    pub col: usize,
}

pub struct TokenInfoV {
    pub token: TokenV,
    pub line: int,
    pub col: int,
}

impl View for TokenInfo {
    type V = TokenInfoV;

    open spec fn view(&self) -> TokenInfoV {
        TokenInfoV { token: self.token@, line: self.line as int, col: self.col as int }
    }
}

/// The lexer: the source, the position, and its line and column.
pub struct Lexer {
    text: Vec<char>,
    pos: usize,
    line: usize,
    col: usize,
}

pub struct LexerV {
    pub text: Seq<char>,
    pub pos: int,
    pub line: int,
    pub col: int,
}

impl View for Lexer {
    type V = LexerV;

    closed spec fn view(&self) -> LexerV {
        LexerV { text: self.text@, pos: self.pos as int, line: self.line as int, col: self.col as int }
    }
}

/// Line and column count from 1 and grow no faster than the position.
pub open spec fn lexer_wf(s: LexerV) -> bool {
    &&& 1 <= s.line
    &&& 1 <= s.col
    &&& s.line + s.col <= s.pos + 2
    &&& 0 <= s.pos <= s.text.len()
    &&& s.text.len() + 2 <= usize::MAX
}

/// The number of line breaks in `t[a..b]`.
pub open spec fn newlines(t: Seq<char>, a: int, b: int) -> nat
    decreases b - a,
{
    if b <= a { 0 } else { newlines(t, a, b - 1) + if t[b - 1] == '\n' { 1nat } else { 0nat } }
}

/// The last line break in `t[a..b]`, if any.
pub open spec fn last_newline(t: Seq<char>, a: int, b: int) -> Option<int>
    decreases b - a,
{
    if b <= a { None } else if t[b - 1] == '\n' { Some(b - 1) } else { last_newline(t, a, b - 1) }
}

/// The lexer moved to position `k`, counting lines and columns over the
/// characters passed.
pub open spec fn adv_to(s: LexerV, k: int) -> LexerV {
    LexerV {
        text: s.text,
        pos: k,
        line: s.line + newlines(s.text, s.pos, k),
        col: match last_newline(s.text, s.pos, k) {
            Some(j) => k - j,
            None => s.col + (k - s.pos),
        },
    }
}

/// One step of `advance`: past a line break to column 1 of the next line,
/// past another character to the next column; past the end of the text
/// only the position moves.
pub open spec fn advanced(s: LexerV) -> LexerV {
    if 0 <= s.pos < s.text.len() && s.text[s.pos] == '\n' {
        LexerV { pos: s.pos + 1, line: s.line + 1, col: 1, ..s }
    } else if 0 <= s.pos < s.text.len() {
        LexerV { pos: s.pos + 1, col: s.col + 1, ..s }
    } else {
        LexerV { pos: s.pos + 1, ..s }
    }
}

proof fn lemma_adv_step(s: LexerV, k: int)
    requires
        0 <= s.pos <= k < s.text.len(),
    ensures
        advanced(adv_to(s, k)) == adv_to(s, k + 1),
{
    assert(newlines(s.text, s.pos, k + 1) == newlines(s.text, s.pos, k) + if s.text[k] == '\n' { 1nat } else { 0nat });
}

proof fn lemma_adv_wf(s: LexerV, k: int)
    requires
        lexer_wf(s),
        0 <= s.pos <= k <= s.text.len(),
    ensures
        lexer_wf(adv_to(s, k)),
    decreases k - s.pos,
{
    if k > s.pos {
        lemma_adv_wf(s, k - 1);
        lemma_adv_step(s, k - 1);
    } else {
        assert(adv_to(s, k) == s);
    }
}

/// The first index from `i` on whose character fails `p`, or the end.
pub open spec fn run_end(t: Seq<char>, i: int, p: spec_fn(char) -> bool) -> int
    decreases t.len() - i,
{
    if i < 0 || i >= t.len() || !p(t[i]) { i } else { run_end(t, i + 1, p) }
}

proof fn lemma_run_end(t: Seq<char>, i: int, k: int, p: spec_fn(char) -> bool)
    requires
        0 <= i <= k <= t.len(),
        forall|j: int| i <= j < k ==> p(#[trigger] t[j]),
        k == t.len() || !p(t[k]),
    ensures
        run_end(t, i, p) == k,
    decreases k - i,
{
    if i < k {
        lemma_run_end(t, i + 1, k, p);
    }
}

pub proof fn lemma_run_end_ge(t: Seq<char>, i: int, p: spec_fn(char) -> bool)
    requires
        0 <= i,
    ensures
        i <= run_end(t, i, p) <= if i <= t.len() { t.len() as int } else { i },
    decreases t.len() - i,
{
    if i < t.len() && p(t[i]) {
        lemma_run_end_ge(t, i + 1, p);
    }
}

/// The end of a line comment started at `i`: the next line break, or the
/// end of the text.
pub open spec fn line_end(t: Seq<char>, i: int) -> int {
    run_end(t, i, |c: char| c != '\n')
}

/// Where a block comment whose body starts at `i` closes: the index of its
/// `*/`, if it has one.
pub open spec fn block_end(t: Seq<char>, i: int) -> Option<int>
    decreases t.len() - i,
{
    if i < 0 || i + 1 >= t.len() { None } else if t[i] == '*' && t[i + 1] == '/' { Some(i) } else { block_end(t, i + 1) }
}

pub proof fn lemma_block_end_ge(t: Seq<char>, i: int)
    ensures
        block_end(t, i) matches Some(k) ==> i <= k && k + 1 < t.len() && t[k] == '*' && t[k + 1] == '/',
    decreases t.len() - i,
{
    if !(i < 0 || i + 1 >= t.len()) && !(t[i] == '*' && t[i + 1] == '/') {
        lemma_block_end_ge(t, i + 1);
    }
}

/// The character an escape sequence stands for.
pub open spec fn unescape(c: char) -> char {
    if c == 'n' { '\n' } else if c == 't' { '\t' } else if c == 'r' { '\r' } else { c }
}

/// The body of a string literal from index `i` on, with escapes resolved,
/// and the index after its closing quote; `None` if it does not close.
pub open spec fn str_scan(t: Seq<char>, i: int) -> Option<(Seq<char>, int)>
    decreases t.len() - i,
{
    if i < 0 || i >= t.len() {
        None
    } else if t[i] == '"' {
        Some((Seq::empty(), i + 1))
    } else if t[i] == '\\' && i + 1 < t.len() {
        match str_scan(t, i + 2) {
            Some((r, e)) => Some((seq![unescape(t[i + 1])] + r, e)),
            None => None,
        }
    } else {
        match str_scan(t, i + 1) {
            Some((r, e)) => Some((seq![t[i]] + r, e)),
            None => None,
        }
    }
}

pub open spec fn num_char(c: char) -> bool {
    ascii_digit(c) || c == '.'
}

/// A character that starts a name: an ASCII letter, `_`, or a non-ASCII
/// alphabetic character.
pub open spec fn word_start(c: char) -> bool {
    ascii_letter(c) || c == '_' || ((c as u32) >= 0x80 && alphabetic(c))
}

/// A character that continues a name: one that starts a name, an ASCII
/// digit, or a non-ASCII numeric character.
pub open spec fn word_char(c: char) -> bool {
    word_start(c) || ascii_digit(c) || ((c as u32) >= 0x80 && numeric(c))
}

/// The message of a lexical error at a line and column.
pub open spec fn lex_msg(line: int, col: int, what: Seq<char>) -> Seq<char> {
    "LexicalError[Line "@ + nat_digits(line as nat) + ", Col "@ + nat_digits(col as nat) + "]: "@ + what
}

/// The number of `.` in a sequence.
pub open spec fn dots(s: Seq<char>) -> nat
    decreases s.len(),
{
    if s.len() == 0 { 0 } else { dots(s.drop_last()) + if s.last() == '.' { 1nat } else { 0nat } }
}

/// The keyword a word spells, if it is one.
pub open spec fn keyword(w: Seq<char>) -> Option<TokenV> {
    if w == "func"@ { Some(TokenV::Func) }
    else if w == "let"@ { Some(TokenV::Let) }
    else if w == "if"@ { Some(TokenV::If) }
    else if w == "else"@ { Some(TokenV::Else) }
    else if w == "true"@ { Some(TokenV::True) }
    else if w == "false"@ { Some(TokenV::False) }
    else if w == "null"@ { Some(TokenV::Null) }
    else if w == "while"@ { Some(TokenV::While) }
    else if w == "for"@ { Some(TokenV::For) }
    else if w == "break"@ { Some(TokenV::Break) }
    else if w == "continue"@ { Some(TokenV::Continue) }
    else if w == "return"@ { Some(TokenV::Return) }
    else if w == "and"@ { Some(TokenV::And) }
    else if w == "or"@ { Some(TokenV::Or) }
    else if w == "not"@ { Some(TokenV::Not) }
    else if w == "try"@ { Some(TokenV::Try) }
    else if w == "catch"@ { Some(TokenV::Catch) }
    else if w == "throw"@ { Some(TokenV::Throw) }
    else if w == "include"@ { Some(TokenV::Include) }
    else { None }
}

/// A number literal: an integer, or a float with exactly one `.`.
pub open spec fn number_token(w: Seq<char>, line: int, col: int) -> Result<TokenV, Seq<char>> {
    if dots(w) > 0 {
        if dots(w) == 1 {
            Ok(TokenV::Float(w))
        } else {
            Err(lex_msg(line, col, "Invalid float literal '"@ + w + "'."@))
        }
    } else {
        match parse_i64_spec(w) {
            Some(i) => Ok(TokenV::Int(i)),
            None => Err(lex_msg(line, col, "Invalid integer literal '"@ + w + "'."@)),
        }
    }
}

/// The character at index `i`, if there is one.
pub open spec fn char_at(t: Seq<char>, i: int) -> Option<char> {
    if 0 <= i < t.len() { Some(t[i]) } else { None }
}

/// An operator or punctuation token for `c`, given the character after it:
/// the token and how many characters it takes, or `None` for a lone `!`.
pub open spec fn punct(c: char, next: Option<char>) -> Option<(TokenV, int)> {
    let eq = next == Some('=');
    if c == '+' {
        if next == Some('+') { Some((TokenV::PlusPlus, 2)) } else if eq { Some((TokenV::PlusEq, 2)) } else { Some((TokenV::Plus, 1)) }
    } else if c == '-' {
        if next == Some('-') { Some((TokenV::MinusMinus, 2)) } else if eq { Some((TokenV::MinusEq, 2)) } else { Some((TokenV::Minus, 1)) }
    } else if c == '*' {
        if eq { Some((TokenV::StarEq, 2)) } else { Some((TokenV::Star, 1)) }
    } else if c == '/' {
        if eq { Some((TokenV::SlashEq, 2)) } else { Some((TokenV::Slash, 1)) }
    } else if c == '<' {
        if eq { Some((TokenV::LessEq, 2)) } else { Some((TokenV::Less, 1)) }
    } else if c == '>' {
        if eq { Some((TokenV::GreaterEq, 2)) } else { Some((TokenV::Greater, 1)) }
    } else if c == '=' {
        if eq { Some((TokenV::Eq, 2)) } else { Some((TokenV::Assign, 1)) }
    } else if c == '!' {
        if eq { Some((TokenV::NotEq, 2)) } else { None }
    } else if c == '(' { Some((TokenV::LParen, 1)) }
    else if c == ')' { Some((TokenV::RParen, 1)) }
    else if c == '{' { Some((TokenV::LBrace, 1)) }
    else if c == '}' { Some((TokenV::RBrace, 1)) }
    else if c == '[' { Some((TokenV::LBracket, 1)) }
    else if c == ']' { Some((TokenV::RBracket, 1)) }
    else if c == ',' { Some((TokenV::Comma, 1)) }
    else if c == ':' { Some((TokenV::Colon, 1)) }
    else if c == ';' { Some((TokenV::Semicolon, 1)) }
    else if c == '.' { Some((TokenV::Dot, 1)) }
    else { Some((TokenV::EOF, 1)) }
}

/// The token that starts at the lexer's position (which holds no white
/// space or comment), and the lexer after it.
pub open spec fn token_at(s: LexerV) -> (LexerV, Result<TokenInfoV, Seq<char>>) {
    let t = s.text;
    let c = t[s.pos];
    let info = |tok: TokenV| TokenInfoV { token: tok, line: s.line, col: s.col };
    if ascii_digit(c) {
        let k = run_end(t, s.pos, |x: char| num_char(x));
        let w = t.subrange(s.pos, k);
        (adv_to(s, k), match number_token(w, s.line, s.col) { Ok(tok) => Ok(info(tok)), Err(m) => Err(m) })
    } else if c == '"' {
        match str_scan(t, s.pos + 1) {
            Some((body, e)) => (adv_to(s, e), Ok(info(TokenV::String(body)))),
            None => (adv_to(s, t.len() as int), Err(lex_msg(s.line, s.col, "Unterminated string literal."@))),
        }
    } else if word_start(c) {
        let k = run_end(t, s.pos, |x: char| word_char(x));
        let w = t.subrange(s.pos, k);
        (adv_to(s, k), Ok(info(match keyword(w) { Some(tok) => tok, None => TokenV::Ident(w) })))
    } else {
        match punct(c, char_at(t, s.pos + 1)) {
            Some((tok, n)) => (adv_to(s, s.pos + n), Ok(info(tok))),
            None => (adv_to(s, s.pos + 1), Err(lex_msg(s.line, s.col, "Unrecognized character '"@ + seq![c] + "'."@))),
        }
    }
}

/// `scan_token`: skips white space and comments, then reads one token. At
/// the end of the text the token is `EOF`, at the lexer's line and column.
pub open spec fn scan(s: LexerV) -> (LexerV, Result<TokenInfoV, Seq<char>>)
    decreases s.text.len() - s.pos,
{
    let t = s.text;
    if s.pos < 0 || s.pos >= t.len() {
        (s, Ok(TokenInfoV { token: TokenV::EOF, line: s.line, col: s.col }))
    } else if is_ws(t[s.pos]) {
        scan(adv_to(s, s.pos + 1))
    } else if t[s.pos] == '/' && char_at(t, s.pos + 1) == Some('/') {
        let k = line_end(t, s.pos);
        proof {
            lemma_run_end_ge(t, s.pos + 1, |c: char| c != '\n');
        }
        scan(adv_to(s, k))
    } else if t[s.pos] == '/' && char_at(t, s.pos + 1) == Some('*') {
        match block_end(t, s.pos + 2) {
            Some(k) => {
                proof {
                    lemma_block_end_ge(t, s.pos + 2);
                }
                scan(adv_to(s, k + 2))
            },
            None => (s, Err(lex_msg(s.line, s.col, "Unterminated comment."@))),
        }
    } else {
        token_at(s)
    }
}

fn lex_error(line: usize, col: usize, what: &Vec<char>) -> (r: Vec<char>)
    ensures
        r@ == lex_msg(line as int, col as int, what@),
{
    let mut m = Vec::new();
    push_str(&mut m, "LexicalError[Line ");
    push_u64(&mut m, line as u64);
    push_str(&mut m, ", Col ");
    push_u64(&mut m, col as u64);
    push_str(&mut m, "]: ");
    push_all(&mut m, what);
    assert(m@ =~= lex_msg(line as int, col as int, what@));
    m
}

fn count_dots(w: &Vec<char>) -> (r: usize)
    ensures
        r == dots(w@),
{
    let mut n: usize = 0;
    let mut k: usize = 0;
    while k < w.len()
        invariant
            k <= w@.len(),
            n == dots(w@.take(k as int)),
            n <= k,
        decreases w@.len() - k,
    {
        assert(w@.take(k + 1).drop_last() =~= w@.take(k as int));
        if w[k] == '.' {
            n = n + 1;
        }
        k = k + 1;
    }
    assert(w@.take(w@.len() as int) =~= w@);
    n
}

fn is_word(w: &Vec<char>, s: &str) -> (r: bool)
    ensures
        r == (w@ == s@),
{
    let t = crate::text::chars_of(s);
    crate::text::chars_eq(w, &t)
}

fn keyword_exec(w: &Vec<char>) -> (r: Option<Token>)
    ensures
        match r {
            Some(t) => keyword(w@) == Some(t@),
            None => keyword(w@) is None,
        },
{
    if is_word(w, "func") { Some(Token::Func) }
    else if is_word(w, "let") { Some(Token::Let) }
    else if is_word(w, "if") { Some(Token::If) }
    else if is_word(w, "else") { Some(Token::Else) }
    else if is_word(w, "true") { Some(Token::True) }
    else if is_word(w, "false") { Some(Token::False) }
    else if is_word(w, "null") { Some(Token::Null) }
    else if is_word(w, "while") { Some(Token::While) }
    else if is_word(w, "for") { Some(Token::For) }
    else if is_word(w, "break") { Some(Token::Break) }
    else if is_word(w, "continue") { Some(Token::Continue) }
    else if is_word(w, "return") { Some(Token::Return) }
    else if is_word(w, "and") { Some(Token::And) }
    else if is_word(w, "or") { Some(Token::Or) }
    else if is_word(w, "not") { Some(Token::Not) }
    else if is_word(w, "try") { Some(Token::Try) }
    else if is_word(w, "catch") { Some(Token::Catch) }
    else if is_word(w, "throw") { Some(Token::Throw) }
    else if is_word(w, "include") { Some(Token::Include) }
    else { None }
}

fn punct_exec(c: char, next: Option<char>) -> (r: Option<(Token, usize)>)
    ensures
        match r {
            Some((t, n)) => punct(c, next) == Some((t@, n as int)),
            None => punct(c, next) is None,
        },
{
    let eq = next == Some('=');
    if c == '+' {
        if next == Some('+') { Some((Token::PlusPlus, 2)) } else if eq { Some((Token::PlusEq, 2)) } else { Some((Token::Plus, 1)) }
    } else if c == '-' {
        if next == Some('-') { Some((Token::MinusMinus, 2)) } else if eq { Some((Token::MinusEq, 2)) } else { Some((Token::Minus, 1)) }
    } else if c == '*' {
        if eq { Some((Token::StarEq, 2)) } else { Some((Token::Star, 1)) }
    } else if c == '/' {
        if eq { Some((Token::SlashEq, 2)) } else { Some((Token::Slash, 1)) }
    } else if c == '<' {
        if eq { Some((Token::LessEq, 2)) } else { Some((Token::Less, 1)) }
    } else if c == '>' {
        if eq { Some((Token::GreaterEq, 2)) } else { Some((Token::Greater, 1)) }
    } else if c == '=' {
        if eq { Some((Token::Eq, 2)) } else { Some((Token::Assign, 1)) }
    } else if c == '!' {
        if eq { Some((Token::NotEq, 2)) } else { None }
    } else if c == '(' { Some((Token::LParen, 1)) }
    else if c == ')' { Some((Token::RParen, 1)) }
    else if c == '{' { Some((Token::LBrace, 1)) }
    else if c == '}' { Some((Token::RBrace, 1)) }
    else if c == '[' { Some((Token::LBracket, 1)) }
    else if c == ']' { Some((Token::RBracket, 1)) }
    else if c == ',' { Some((Token::Comma, 1)) }
    else if c == ':' { Some((Token::Colon, 1)) }
    else if c == ';' { Some((Token::Semicolon, 1)) }
    else if c == '.' { Some((Token::Dot, 1)) }
    else { Some((Token::EOF, 1)) }
}

impl Lexer {
    /// A lexer at the start of `text`, line 1, column 1.
    pub fn new(text: &str) -> (r: Lexer)
        ensures
            r@ == (LexerV { text: text@, pos: 0, line: 1, col: 1 }),
            lexer_wf(r@),
    {
        let t = crate::text::chars_of(text);
        Lexer { text: t, pos: 0, line: 1, col: 1 }
    }

    /// Moves past the current character, counting lines and columns.
    pub fn advance(&mut self)
        requires
            old(self)@.pos < usize::MAX,
            old(self)@.line < usize::MAX,
            old(self)@.col < usize::MAX,
        ensures
            final(self)@ == advanced(old(self)@),
            lexer_wf(old(self)@) && old(self)@.pos < old(self)@.text.len() ==> lexer_wf(final(self)@),
    {
        if self.pos < self.text.len() {
            if self.text[self.pos] == '\n' {
                self.line = self.line + 1;
                self.col = 1;
            } else {
                self.col = self.col + 1;
            }
        }
        self.pos = self.pos + 1;
    }

    /// Moves forward to position `k`.
    fn skip_to(&mut self, k: usize)
        requires
            lexer_wf(old(self)@),
            old(self)@.pos <= k <= old(self)@.text.len(),
        ensures
            final(self)@ == adv_to(old(self)@, k as int),
            lexer_wf(final(self)@),
    {
        let ghost s0 = self@;
        assert(adv_to(s0, s0.pos) == s0);
        while self.pos < k
            invariant
                s0.pos <= self@.pos <= k <= s0.text.len(),
                self@ == adv_to(s0, self@.pos),
                lexer_wf(s0),
                lexer_wf(self@),
            decreases k - self@.pos,
        {
            proof {
                lemma_adv_step(s0, self@.pos);
                lemma_adv_wf(s0, self@.pos + 1);
            }
            self.advance();
        }
    }

    /// Reads characters while `test` holds of them.
    pub fn consume_while<F: Fn(char) -> bool>(&mut self, test: F) -> (r: Vec<char>)
        requires
            lexer_wf(old(self)@),
            forall|c: char| test.requires((c,)),
        ensures
            lexer_wf(final(self)@),
            old(self)@.pos <= final(self)@.pos <= old(self)@.text.len(),
            final(self)@ == adv_to(old(self)@, final(self)@.pos),
            r@ == old(self)@.text.subrange(old(self)@.pos, final(self)@.pos),
            forall|j: int| old(self)@.pos <= j < final(self)@.pos ==> test.ensures((old(self)@.text[j],), true),
            final(self)@.pos < old(self)@.text.len() ==> test.ensures((old(self)@.text[final(self)@.pos],), false),
    {
        let ghost s0 = self@;
        assert(adv_to(s0, s0.pos) == s0);
        let mut s: Vec<char> = Vec::new();
        while self.pos < self.text.len()
            invariant
                s0.pos <= self@.pos <= s0.text.len(),
                self@ == adv_to(s0, self@.pos),
                lexer_wf(s0),
                lexer_wf(self@),
                forall|c: char| test.requires((c,)),
                s@ == s0.text.subrange(s0.pos, self@.pos),
                forall|j: int| s0.pos <= j < self@.pos ==> test.ensures((s0.text[j],), true),
                s0 == old(self)@,
            decreases s0.text.len() - self@.pos,
        {
            let c = self.text[self.pos];
            if test(c) {
                s.push(c);
                proof {
                    lemma_adv_step(s0, self@.pos);
                    lemma_adv_wf(s0, self@.pos + 1);
                }
                self.advance();
                assert(s@ =~= s0.text.subrange(s0.pos, self@.pos));
            } else {
                return s;
            }
        }
        s
    }

    fn info(&self, token: Token, line: usize, col: usize) -> (r: TokenInfo)
        ensures
            r.token == token,
            r.line == line,
            r.col == col,
    {
        TokenInfo { token, line, col }
    }

    /// Reads the token that starts at the current position.
    fn token_here(&mut self) -> (r: Result<TokenInfo, Vec<char>>)
        requires
            lexer_wf(old(self)@),
            old(self)@.pos < old(self)@.text.len(),
        ensures
            lexer_wf(final(self)@),
            match r {
                Ok(t) => token_at(old(self)@) == (final(self)@, Ok::<TokenInfoV, Seq<char>>(t@)),
                Err(m) => token_at(old(self)@).1 == Err::<TokenInfoV, Seq<char>>(m@),
            },
    {
        let ghost s0 = self@;
        let sl = self.line;
        let sc = self.col;
        let c = self.text[self.pos];
        if '0' <= c && c <= '9' {
            let w = self.consume_while(|ch: char| -> (b: bool)
                ensures
                    b == num_char(ch),
                { ('0' <= ch && ch <= '9') || ch == '.' });
            proof {
                lemma_run_end(s0.text, s0.pos, self@.pos, |x: char| num_char(x));
            }
            let nd = count_dots(&w);
            if nd > 0 {
                if nd == 1 {
                    return Ok(self.info(Token::Float(w), sl, sc));
                }
                let mut what = Vec::new();
                push_str(&mut what, "Invalid float literal '");
                push_all(&mut what, &w);
                push_str(&mut what, "'.");
                assert(what@ =~= "Invalid float literal '"@ + w@ + "'."@);
                return Err(lex_error(sl, sc, &what));
            }
            match parse_i64(&w) {
                Some(i) => Ok(self.info(Token::Int(i), sl, sc)),
                None => {
                    let mut what = Vec::new();
                    push_str(&mut what, "Invalid integer literal '");
                    push_all(&mut what, &w);
                    push_str(&mut what, "'.");
                    assert(what@ =~= "Invalid integer literal '"@ + w@ + "'."@);
                    Err(lex_error(sl, sc, &what))
                },
            }
        } else if c == '"' {
            let n = self.text.len();
            let mut body: Vec<char> = Vec::new();
            let mut i = self.pos + 1;
            let mut closed = false;
            while i < n && !closed
                invariant
                    s0 == self@,
                    n == s0.text.len(),
                    s0.pos + 1 <= i <= n,
                    !closed ==> str_scan(s0.text, s0.pos + 1) == match str_scan(s0.text, i as int) {
                        Some((r, e)) => Some((body@ + r, e)),
                        None => None::<(Seq<char>, int)>,
                    },
                    closed ==> str_scan(s0.text, s0.pos + 1) == Some((body@, i as int)),
                decreases n - i + (if closed { 0int } else { 1int }),
            {
                let ch = self.text[i];
                if ch == '"' {
                    closed = true;
                    i = i + 1;
                    assert(body@ + Seq::<char>::empty() =~= body@);
                } else if ch == '\\' && i + 1 < n {
                    let e = self.text[i + 1];
                    let u = if e == 'n' { '\n' } else if e == 't' { '\t' } else if e == 'r' { '\r' } else { e };
                    let ghost b0 = body@;
                    body.push(u);
                    proof {
                        match str_scan(s0.text, i + 2) {
                            Some((r, e2)) => {
                                assert(b0 + (seq![u] + r) =~= body@ + r);
                            },
                            None => {},
                        }
                    }
                    i = i + 2;
                } else {
                    let ghost b0 = body@;
                    body.push(ch);
                    proof {
                        match str_scan(s0.text, i + 1) {
                            Some((r, e2)) => {
                                assert(b0 + (seq![ch] + r) =~= body@ + r);
                            },
                            None => {},
                        }
                    }
                    i = i + 1;
                }
            }
            if closed {
                self.skip_to(i);
                Ok(self.info(Token::String(body), sl, sc))
            } else {
                self.skip_to(n);
                let what = crate::text::chars_of("Unterminated string literal.");
                Err(lex_error(sl, sc, &what))
            }
        } else if char_is_alphabetic(c) || c == '_' {
            let w = self.consume_while(|ch: char| -> (b: bool)
                ensures
                    b == word_char(ch),
                { char_is_alphabetic(ch) || char_is_numeric(ch) || ch == '_' });
            proof {
                lemma_run_end(s0.text, s0.pos, self@.pos, |x: char| word_char(x));
            }
            let tok = match keyword_exec(&w) {
                Some(k) => k,
                None => Token::Ident(w),
            };
            Ok(self.info(tok, sl, sc))
        } else {
            let next = if self.pos + 1 < self.text.len() { Some(self.text[self.pos + 1]) } else { None };
            match punct_exec(c, next) {
                Some((tok, k)) => {
                    self.skip_to(self.pos + k);
                    Ok(self.info(tok, sl, sc))
                },
                None => {
                    self.skip_to(self.pos + 1);
                    let mut what = Vec::new();
                    push_str(&mut what, "Unrecognized character '");
                    what.push(c);
                    push_str(&mut what, "'.");
                    assert(what@ =~= "Unrecognized character '"@ + seq![c] + "'."@);
                    Err(lex_error(sl, sc, &what))
                },
            }
        }
    }

    /// Reads the next token, skipping white space and comments, where the
    /// text there lexes (`scan` gives a token); see `scan_token` for the
    /// check that reports the lexical error.
    pub fn next_token(&mut self) -> (t: TokenInfo)
        requires
            lexer_wf(old(self)@),
            scan(old(self)@).1 is Ok,
        ensures
            lexer_wf(final(self)@),
            scan(old(self)@) == (final(self)@, Ok::<TokenInfoV, Seq<char>>(t@)),
    {
        match self.scan_token() {
            Ok(t) => t,
            Err(_) => {
                assert(false);
                TokenInfo { token: Token::EOF, line: 0, col: 0 }
            },
        }
    }

    /// Reads the next token, skipping white space and comments, or reports
    /// the lexical error there.
    pub fn scan_token(&mut self) -> (r: Result<TokenInfo, Vec<char>>)
        requires
            lexer_wf(old(self)@),
        ensures
            lexer_wf(final(self)@),
            match r {
                Ok(t) => scan(old(self)@) == (final(self)@, Ok::<TokenInfoV, Seq<char>>(t@)),
                Err(m) => scan(old(self)@).1 == Err::<TokenInfoV, Seq<char>>(m@),
            },
    {
        loop
            invariant
                lexer_wf(self@),
                scan(self@) == scan(old(self)@),
            decreases self@.text.len() - self@.pos,
        {
            let ghost s = self@;
            let n = self.text.len();
            if self.pos >= n {
                return Ok(self.info(Token::EOF, self.line, self.col));
            }
            let c = self.text[self.pos];
            if is_whitespace(c) {
                proof {
                    assert(adv_to(s, s.pos) == s);
                    lemma_adv_step(s, s.pos);
                }
                self.advance();
                continue;
            }
            if c == '/' && self.pos + 1 < n && self.text[self.pos + 1] == '/' {
                let mut k = self.pos;
                while k < n && self.text[k] != '\n'
                    invariant
                        s == self@,
                        n == s.text.len(),
                        s.pos <= k <= n,
                        forall|j: int| s.pos <= j < k ==> s.text[j] != '\n',
                    decreases n - k,
                {
                    k = k + 1;
                }
                proof {
                    lemma_run_end(s.text, s.pos, k as int, |x: char| x != '\n');
                }
                self.skip_to(k);
                continue;
            }
            if c == '/' && self.pos + 1 < n && self.text[self.pos + 1] == '*' {
                let cl = self.line;
                let cc = self.col;
                let mut k = self.pos + 2;
                let mut found = false;
                while k + 1 < n && !found
                    invariant
                        s == self@,
                        n == s.text.len(),
                        n + 2 <= usize::MAX,
                        s.pos + 2 <= k <= n,
                        !found ==> block_end(s.text, s.pos + 2) == block_end(s.text, k as int),
                        found ==> block_end(s.text, s.pos + 2) == Some(k as int) && k + 1 < n,
                    decreases n - k + (if found { 0int } else { 1int }),
                {
                    if self.text[k] == '*' && self.text[k + 1] == '/' {
                        found = true;
                    } else {
                        k = k + 1;
                    }
                }
                if !found {
                    let what = crate::text::chars_of("Unterminated comment.");
                    return Err(lex_error(cl, cc, &what));
                }
                self.skip_to(k + 2);
                continue;
            }
            return self.token_here();
        }
    }
}

proof fn lemma_str_scan_end(t: Seq<char>, i: int)
    ensures
        str_scan(t, i) matches Some((_, e)) ==> i < e <= t.len(),
    decreases t.len() - i,
{
    if !(i < 0 || i >= t.len()) && t[i] != '"' {
        if t[i] == '\\' && i + 1 < t.len() {
            lemma_str_scan_end(t, i + 2);
        } else {
            lemma_str_scan_end(t, i + 1);
        }
    }
}

/// A token read from a state moves the position forward, by at least one
/// character unless it is the end of the text.
pub proof fn lemma_scan_progress(s: LexerV)
    requires
        0 <= s.pos <= s.text.len(),
    ensures
        scan(s).1 is Ok ==> {
            &&& scan(s).0.text == s.text
            &&& s.pos <= scan(s).0.pos <= s.text.len()
            &&& (scan(s).0.pos == s.pos ==> scan(s).1->Ok_0.token is EOF)
        },
    decreases s.text.len() - s.pos,
{
    let t = s.text;
    if s.pos < t.len() {
        if is_ws(t[s.pos]) {
            lemma_scan_progress(adv_to(s, s.pos + 1));
        } else if t[s.pos] == '/' && char_at(t, s.pos + 1) == Some('/') {
            lemma_run_end_ge(t, s.pos + 1, |c: char| c != '\n');
            lemma_scan_progress(adv_to(s, line_end(t, s.pos)));
        } else if t[s.pos] == '/' && char_at(t, s.pos + 1) == Some('*') {
            lemma_block_end_ge(t, s.pos + 2);
            if let Some(k) = block_end(t, s.pos + 2) {
                lemma_scan_progress(adv_to(s, k + 2));
            }
        } else {
            let c = t[s.pos];
            if ascii_digit(c) {
                lemma_run_end_ge(t, s.pos + 1, |x: char| num_char(x));
            } else if c == '"' {
                lemma_str_scan_end(t, s.pos + 1);
            } else if word_start(c) {
                lemma_run_end_ge(t, s.pos + 1, |x: char| word_char(x));
            }
        }
    }
}

/// The tokens of a text from a lexer state on: up to and including the
/// first `EOF`, or up to the first lexical error, which comes second.
pub open spec fn lex_all(s: LexerV) -> (Seq<TokenInfoV>, Option<Seq<char>>)
    decreases s.text.len() - s.pos,
{
    if s.pos < 0 || s.pos > s.text.len() {
        (Seq::empty(), None)
    } else {
        match scan(s) {
            (s2, Ok(t)) => if t.token is EOF {
                (seq![t], None)
            } else {
                proof {
                    lemma_scan_progress(s);
                }
                let (rest, f) = lex_all(s2);
                (seq![t] + rest, f)
            },
            (_, Err(m)) => (Seq::empty(), Some(m)),
        }
    }
}

/// The views of a sequence of tokens.
pub open spec fn tokens_view(ts: Seq<TokenInfo>) -> Seq<TokenInfoV> {
    ts.map_values(|t: TokenInfo| t@)
}

pub open spec fn opt_view(m: Option<Vec<char>>) -> Option<Seq<char>> {
    match m {
        Some(v) => Some(v@),
        None => None,
    }
}

/// The text's tokens, as the parser takes them from the lexer one by one:
/// the tokens up to the first `EOF`, or up to a lexical error, with that
/// error.
pub fn tokenize(source: &str) -> (r: (Vec<TokenInfo>, Option<Vec<char>>))
    ensures
        (tokens_view(r.0@), opt_view(r.1)) == lex_all(LexerV { text: source@, pos: 0, line: 1, col: 1 }),
{
    lex_tokens(Lexer::new(source))
}

/// The tokens from a lexer's position on, as `tokenize` gives them.
pub fn lex_tokens(lexer: Lexer) -> (r: (Vec<TokenInfo>, Option<Vec<char>>))
    requires
        lexer_wf(lexer@),
    ensures
        (tokens_view(r.0@), opt_view(r.1)) == lex_all(lexer@),
{
    let mut lx = lexer;
    let ghost s0 = lx@;
    let mut out: Vec<TokenInfo> = Vec::new();
    loop
        invariant
            lexer_wf(lx@),
            s0 == lexer@,
            lex_all(s0) == (tokens_view(out@) + lex_all(lx@).0, lex_all(lx@).1),
        decreases lx@.text.len() - lx@.pos,
    {
        let ghost s = lx@;
        match lx.scan_token() {
            Ok(t) => {
                let eof = match t.token { Token::EOF => true, _ => false };
                let ghost tv = t@;
                let ghost before = tokens_view(out@);
                proof {
                    lemma_scan_progress(s);
                }
                out.push(t);
                assert(tokens_view(out@) =~= before.push(tv));
                if eof {
                    assert(lex_all(s0).0 =~= tokens_view(out@));
                    return (out, None);
                }
                assert(before + (seq![tv] + lex_all(lx@).0) =~= tokens_view(out@) + lex_all(lx@).0);
            },
            Err(m) => {
                assert(lex_all(s0).0 =~= tokens_view(out@));
                return (out, Some(m));
            },
        }
    }
}

} // verus!
