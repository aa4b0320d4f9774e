use lib::ast::{split_includes, BinaryOp, Expr, Stmt};
use lib::builtins::register_builtins;
use lib::bytecode::{ExceptionHandler, Function, Instruction, Program};
use lib::compiler::{fold_binary, Compiler, Folded};
use lib::disasm::error_report;
use lib::lexer::{tokenize, Lexer, Token};
use lib::parser::{parse_source, Parser};
use lib::show::{Chunk, Unit};
use lib::value::StringPool;
use lib::vm::RuntimeError;

fn chars(s: &str) -> Vec<char> {
    s.chars().collect()
}

fn text(v: &[char]) -> String {
    v.iter().collect()
}

fn render(chunks: &[Chunk]) -> String {
    let mut out = String::new();
    for c in chunks {
        match c {
            Unit::Ch(ch) => out.push(*ch),
            Unit::Fl(bits) => out.push_str(&format!("{}", f64::from_bits(*bits))),
        }
    }
    out
}

fn compiled(src: &str) -> Program {
    let mut prog = Program::new();
    register_builtins(&mut prog);
    let ast = parse_source(src).map_err(|m| text(&m)).unwrap();
    Compiler::try_compile(&mut prog, ast).map_err(|m| text(&m)).unwrap();
    for i in 0..prog.float_literals.len() {
        let v: f64 = text(&prog.float_literals[i]).parse().unwrap();
        prog.set_float(i, v.to_bits());
    }
    assert!(prog.check());
    prog
}

#[test]
fn intern_then_get_round_trip() {
    let mut pool = StringPool::new();
    let a = pool.intern("alpha");
    let b = pool.intern("beta");
    let a2 = pool.intern("alpha");
    assert_eq!(a, 0);
    assert_eq!(b, 1);
    assert_eq!(a2, a);
    assert_eq!(pool.len(), 2);
    assert_eq!(pool.get(a), "alpha");
    assert_eq!(pool.get(b), "beta");
}

#[test]
fn lexer_reads_tokens_with_positions() {
    let (toks, err) = tokenize("let x = 10;\n  x++;");
    assert!(err.is_none());
    assert!(matches!(toks[0].token, Token::Let));
    assert!(matches!(&toks[1].token, Token::Ident(n) if text(n) == "x"));
    assert!(matches!(toks[2].token, Token::Assign));
    assert!(matches!(toks[3].token, Token::Int(10)));
    assert!(matches!(toks[4].token, Token::Semicolon));
    assert_eq!((toks[5].line, toks[5].col), (2, 3));
    assert!(matches!(toks[6].token, Token::PlusPlus));
    assert!(matches!(toks.last().unwrap().token, Token::EOF));
}

#[test]
fn lexer_next_token_moves_forward() {
    let mut l = Lexer::new("a /* c */ 1.5 // x\n\"s\\n\"");
    assert!(matches!(l.next_token().token, Token::Ident(_)));
    assert!(matches!(&l.next_token().token, Token::Float(t) if text(t) == "1.5"));
    let s = l.next_token();
    assert!(matches!(&s.token, Token::String(t) if text(t) == "s\n"));
    assert_eq!(s.line, 2);
    assert!(matches!(l.next_token().token, Token::EOF));
    assert!(matches!(l.next_token().token, Token::EOF));
}

#[test]
fn lexer_reports_unterminated_string() {
    let (_, err) = tokenize("let s = \"abc");
    assert_eq!(text(&err.unwrap()), "LexicalError[Line 1, Col 9]: Unterminated string literal.");
}

#[test]
fn parser_builds_functions() {
    let mut p = Parser::new(Lexer::new("func add(a, b) { return a + b; } func main() { let x = add(1, 2); }"));
    let fs = p.parse_program();
    assert_eq!(fs.len(), 2);
    assert_eq!(text(&fs[0].name), "add");
    assert_eq!(fs[0].args.len(), 2);
    assert!(matches!(&fs[0].body[0], Stmt::Return(Expr::Binary(_, BinaryOp::Plus, _))));
    assert!(matches!(&fs[1].body[0], Stmt::Let(n, Expr::Call(f, args)) if text(n) == "x" && text(f) == "add" && args.len() == 2));
}

#[test]
fn parser_reports_expected_token() {
    let e = parse_source("func main() { let x = 1 }").err().unwrap();
    assert_eq!(text(&e), "SyntaxError[Line 1, Col 25]: Expected 'Semicolon', but encountered 'RBrace'.");
}

#[test]
fn readme_disassembly_example() {
    // Two parameters, the result, and the register kept for the right
    // operand: the listing of the README's example.
    let prog = compiled("func add(a, b) {\n    return a + b;\n}\n");
    assert_eq!(
        render(&prog.disassemble()),
        "add:\n  ; registers allocated: 4\n  0x0000    add        r2, r0, r1\n  0x0001    ret        r2\n\n"
    );
}

#[test]
fn constants_are_folded() {
    let prog = compiled("func main() { return 2 * 3 + 1; }");
    let listing = render(&prog.disassemble());
    assert!(listing.contains("mov        r0, #7\n"), "{}", listing);
}

#[test]
fn unreachable_code_is_removed() {
    let prog = compiled("func main() { return 1; let x = 2; }");
    let f = &prog.functions[0];
    assert_eq!(f.code.len(), 2);
    assert!(matches!(f.code[0], Instruction::LoadInt { value: 1, .. }));
    assert!(matches!(f.code[1], Instruction::Return { .. }));
}

#[test]
fn optimize_renumbers_jumps() {
    let mut f = Function {
        id: 0,
        name: chars("f"),
        arg_count: 0,
        code: vec![
            Instruction::Jump { target: 2 },
            Instruction::LoadInt { dst: 0, value: 9 },
            Instruction::LoadNull { dst: 0 },
            Instruction::Return { src: 0 },
        ],
        num_registers: 1,
        exception_handlers: Vec::new(),
    };
    f.optimize();
    assert_eq!(f.code.len(), 3);
    assert!(matches!(f.code[0], Instruction::Jump { target: 1 }));
    assert!(matches!(f.code[1], Instruction::LoadNull { dst: 0 }));
}

#[test]
fn format_instruction_texts() {
    let mut prog = Program::new();
    let s = prog.strings.intern("a\"b");
    assert_eq!(
        render(&prog.format_instruction(&Instruction::LoadString { dst: 3, symbol: s })),
        "mov        r3, \"a\\\"b\""
    );
    assert_eq!(
        render(&prog.format_instruction(&Instruction::SetProp { obj: 1, key: 2, value: 3 })),
        "mov       [r1 + r2], r3"
    );
    assert_eq!(
        render(&prog.format_instruction(&Instruction::LessEqImm { dst: 0, src: 1, imm: -5 })),
        "cmp_le_imm r0, r1, #-5"
    );
    assert_eq!(
        render(&prog.format_instruction(&Instruction::JumpIfFalse { target: 255, src: 4 })),
        "jz         r4, 0x00FF"
    );
    assert_eq!(
        render(&prog.format_instruction(&Instruction::NativeCall { api_id: 99, base: 1, count: 2, dst: 0 })),
        "ncall      native_?, r1, #2  ; ret -> r0"
    );
}

#[test]
fn error_report_text() {
    let mut prog = Program::new();
    prog.functions.push(Function {
        id: 0,
        name: chars("main"),
        arg_count: 0,
        code: vec![
            Instruction::LoadInt { dst: 0, value: 1 },
            Instruction::LoadNull { dst: 1 },
            Instruction::Throw { src: 0 },
            Instruction::Return { src: 1 },
        ],
        num_registers: 2,
        exception_handlers: vec![ExceptionHandler {
            start_pc: 0,
            end_pc: 1,
            catch_pc: 3,
            err_reg: 1,
            error_types: Vec::new(),
        }],
    });
    let e = RuntimeError { fault: chars("Unhandled Exception"), description: chars("1"), func_id: 0, pc: 2 };
    let rule = "----------------------------------------------------------------";
    let expected = format!(
        "\n{rule}\nFATAL RUNTIME EXCEPTION\n{rule}\nFault       : Unhandled Exception\nDescription : 1\n\n\
         Call Stack Trace:\n  -> [0x0002] in 'main'\n\nInstruction Dump:\n\
         \x20  0x0000    mov        r0, #1\n\
         \x20  0x0001    mov        r1, null\n\
         >> 0x0002    {:<35} <--- CRASH HERE\n\
         \x20  0x0003    ret        r1\n\
         {rule}\nProcess terminated with exit code 1.\n",
        "throw      r0"
    );
    assert_eq!(text(&error_report(&e, &prog, &Vec::new())), expected);
    let listing = render(&prog.disassemble());
    assert!(listing.contains("  ; exception tables:\n  ;[0x0000 - 0x0001] -> catch at 0x0003 (store err in r1)\n"), "{}", listing);
}

#[test]
fn split_includes_keeps_order() {
    let body = vec![
        Stmt::Include(chars("a.crs")),
        Stmt::Break,
        Stmt::Include(chars("b.crs")),
        Stmt::Continue,
    ];
    let (kept, paths) = split_includes(body);
    assert_eq!(kept.len(), 2);
    assert!(matches!(kept[0], Stmt::Break));
    assert!(matches!(kept[1], Stmt::Continue));
    assert_eq!(paths.iter().map(|p| text(p)).collect::<Vec<_>>(), vec!["a.crs", "b.crs"]);
}

#[test]
fn top_level_include_goes_to_first_function() {
    let fs = parse_source("include \"m.crs\"; func main() { return 1; }").map_err(|m| text(&m)).unwrap();
    assert!(matches!(&fs[0].body[0], Stmt::Include(p) if text(p) == "m.crs"));
}

#[test]
fn fold_binary_cases() {
    assert!(matches!(fold_binary(&Folded::Int(2), BinaryOp::Star, &Folded::Int(3)), Ok(Some(Folded::Int(6)))));
    assert!(matches!(fold_binary(&Folded::Int(7), BinaryOp::Slash, &Folded::Int(-2)), Ok(Some(Folded::Int(-3)))));
    assert!(matches!(fold_binary(&Folded::Int(1), BinaryOp::Slash, &Folded::Int(0)), Ok(None)));
    assert!(matches!(fold_binary(&Folded::Int(1), BinaryOp::LessEq, &Folded::Int(0)), Ok(None)));
    assert!(matches!(fold_binary(&Folded::Bool(true), BinaryOp::And, &Folded::Bool(false)), Ok(Some(Folded::Bool(false)))));
    match fold_binary(&Folded::Int(i64::MAX), BinaryOp::Plus, &Folded::Int(1)) {
        Err(m) => assert_eq!(text(&m), "attempt to add with overflow"),
        _ => panic!("expected overflow"),
    }
    match fold_binary(&Folded::Str(chars("ab")), BinaryOp::Plus, &Folded::Str(chars("cd"))) {
        Ok(Some(Folded::Str(s))) => assert_eq!(text(&s), "abcd"),
        _ => panic!("expected a string"),
    }
}

#[test]
fn program_check_rejects_bad_register() {
    let mut prog = compiled("func main() { return 1; }");
    assert!(prog.check());
    prog.functions[0].code[0] = Instruction::LoadInt { dst: 1000, value: 1 };
    assert!(!prog.check());
}

#[test]
fn lexer_unicode_identifiers() {
    let (toks, err) = tokenize("été² _x1");
    assert!(err.is_none());
    assert!(matches!(&toks[0].token, Token::Ident(n) if text(n) == "été²"));
    assert!(matches!(&toks[1].token, Token::Ident(n) if text(n) == "_x1"));
    assert_eq!(toks[1].col, 6);
}

#[test]
fn lexer_number_errors() {
    let (_, err) = tokenize("x = 1.2.3;");
    assert_eq!(text(&err.unwrap()), "LexicalError[Line 1, Col 5]: Invalid float literal '1.2.3'.");
    let (_, err) = tokenize("99999999999999999999");
    assert_eq!(text(&err.unwrap()), "LexicalError[Line 1, Col 1]: Invalid integer literal '99999999999999999999'.");
    let (toks, err) = tokenize("1.");
    assert!(err.is_none());
    assert!(matches!(&toks[0].token, Token::Float(t) if text(t) == "1."));
}

#[test]
fn lexer_unterminated_comment() {
    let (_, err) = tokenize("a\n  /* open");
    assert_eq!(text(&err.unwrap()), "LexicalError[Line 2, Col 3]: Unterminated comment.");
}

#[test]
fn lexer_escapes() {
    let (toks, _) = tokenize("\"a\\tb\\\"c\\q\"");
    assert!(matches!(&toks[0].token, Token::String(t) if text(t) == "a\tb\"cq"));
}

#[test]
fn builtins_are_registered_in_order() {
    let mut prog = Program::new();
    register_builtins(&mut prog);
    assert_eq!(prog.natives.len(), 38);
    assert_eq!(prog.native_map.get(&chars("print")), Some(0));
    assert_eq!(prog.native_map.get(&chars("get")), Some(33));
    assert_eq!(prog.native_map.get(&chars("is_windows_os")), Some(37));
    assert_eq!(prog.native_map.get(&chars("nope")), None);
    assert_eq!(text(&prog.natives[14].name), "replace");
}

#[test]
fn listing_lines_are_formatted_instructions() {
    let prog = compiled("func main() { let a = [1, 2.5, \"s\"]; let t = { k: a }; if (len(a) > 1) { return t.k; } return null; }");
    let listing = render(&prog.disassemble());
    let f = &prog.functions[0];
    for (pc, ins) in f.code.iter().enumerate() {
        let line = format!("  0x{:04X}    {}\n", pc, render(&prog.format_instruction(ins)));
        assert!(listing.contains(&line), "{}", line);
    }
    assert!(listing.contains("mov        r1, #2.5\n"), "{}", listing);
}

#[test]
fn colon_name_is_a_symbol_literal() {
    let fs = parse_source("func main() { get(table, :name); }").map_err(|m| text(&m)).unwrap();
    assert!(matches!(&fs[0].body[0], Stmt::Expr(Expr::Call(f, args))
        if text(f) == "get" && args.len() == 2
        && matches!(&args[0], Expr::Ident(t) if text(t) == "table")
        && matches!(&args[1], Expr::Symbol(s) if text(s) == "name")));
}

#[test]
fn colon_without_a_name_is_a_syntax_error() {
    let e = parse_source("func main() { get(t, :1); }").err().unwrap();
    assert!(text(&e).starts_with("SyntaxError[Line 1, Col 23]"));
}

#[test]
fn advance_counts_lines_and_columns() {
    let mut l = Lexer::new("a\nb");
    l.advance();
    l.advance();
    let t = l.next_token();
    assert!(matches!(&t.token, Token::Ident(s) if text(s) == "b"));
    assert_eq!((t.line, t.col), (2, 1));
}

#[test]
fn shared_includes_are_read_once_and_cycles_are_errors() {
    let mut active: Vec<Vec<char>> = Vec::new();
    let mut done: Vec<Vec<char>> = Vec::new();
    let b: Vec<char> = "b.crs".chars().collect();
    let c: Vec<char> = "c.crs".chars().collect();
    let d: Vec<char> = "d.crs".chars().collect();
    // b includes d
    assert_eq!(lib::ast::admit_include(&mut active, &done, &b).ok(), Some(true));
    assert_eq!(lib::ast::admit_include(&mut active, &done, &d).ok(), Some(true));
    lib::ast::finish_include(&mut active, &mut done);
    lib::ast::finish_include(&mut active, &mut done);
    // c includes d again: shared, not circular, and not read twice
    assert_eq!(lib::ast::admit_include(&mut active, &done, &c).ok(), Some(true));
    assert_eq!(lib::ast::admit_include(&mut active, &done, &d).ok(), Some(false));
    // c includes c: circular
    let e = lib::ast::admit_include(&mut active, &done, &c).err().unwrap();
    assert_eq!(text(&e), "CompilationError: Circular include detected: 'c.crs'");
    assert_eq!(active.len(), 1);
}

#[test]
fn optimizing_twice_is_optimizing_once() {
    let mut f = Function {
        id: 0,
        name: chars("f"),
        arg_count: 0,
        code: vec![
            Instruction::Jump { target: 3 },
            Instruction::LoadInt { dst: 0, value: 9 },
            Instruction::Jump { target: 1 },
            Instruction::LoadNull { dst: 0 },
            Instruction::JumpIfFalse { target: 5, src: 0 },
            Instruction::Return { src: 0 },
        ],
        num_registers: 1,
        exception_handlers: Vec::new(),
    };
    f.optimize();
    let once = f.code.clone();
    assert_eq!(once.len(), 4);
    f.optimize();
    assert_eq!(f.code, once);
}

#[test]
fn add_allocates_four_registers() {
    let mut prog = Program::new();
    register_builtins(&mut prog);
    let ast = Parser::new(Lexer::new("func add(a, b) { return a + b; }")).parse_program();
    Compiler::compile(&mut prog, ast);
    assert_eq!(prog.functions.len(), 1);
    assert_eq!(prog.functions[0].num_registers, 4);
    assert!(matches!(prog.functions[0].code[0], Instruction::Add { dst: 2, src1: 0, src2: 1 }));
    assert!(matches!(prog.functions[0].code[1], Instruction::Return { src: 2 }));
    assert_eq!(prog.functions[0].code.len(), 2);
}

#[test]
fn an_entry_function_may_use_more_registers_than_calls_may() {
    let mut prog = Program::new();
    prog.functions.push(Function {
        id: 0,
        name: chars("main"),
        arg_count: 0,
        code: vec![
            Instruction::LoadInt { dst: 69_999, value: 7 },
            Instruction::Return { src: 69_999 },
        ],
        num_registers: 70_000,
        exception_handlers: Vec::new(),
    });
    prog.func_map.insert(&chars("main"), 0);
    assert!(prog.check());
    let mut vm = lib::vm::Vm::new();
    let out = vm.execute(&prog, 0, 100);
    assert!(matches!(out, lib::vm::StepOut::Done(lib::heap::Value::Int(7))));
}
