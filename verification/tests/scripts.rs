use lib::builtins::{register_builtins, NativeKind};
use lib::bytecode::Program;
use lib::compiler::Compiler;
use lib::heap::{Obj, Value};
use lib::parser::parse_source;
use lib::show::{value_to_string, Chunk, Unit};
use lib::vm::{FloatJob, FloatOp, HostReply, HostRequest, Operand, StepOut, Vm};

/// The clock reading the test host gives when a script draws before seeding.
const SEED: i64 = 42;

fn chars(s: &str) -> Vec<char> {
    s.chars().collect()
}

fn text(v: &[char]) -> String {
    v.iter().collect()
}

fn render(chunks: &[Chunk]) -> String {
    let mut out = String::new();
    for c in chunks {
        match c {
            Unit::Ch(ch) => out.push(*ch),
            Unit::Fl(bits) => out.push_str(&format!("{}", f64::from_bits(*bits))),
        }
    }
    out
}

fn compile(src: &str) -> Result<Program, String> {
    let mut prog = Program::new();
    register_builtins(&mut prog);
    let ast = parse_source(src).map_err(|m| text(&m))?;
    Compiler::try_compile(&mut prog, ast).map_err(|m| text(&m))?;
    for i in 0..prog.float_literals.len() {
        let v: f64 = text(&prog.float_literals[i]).parse().unwrap();
        prog.set_float(i, v.to_bits());
    }
    assert!(prog.check());
    Ok(prog)
}

fn operand(o: &Operand) -> f64 {
    match o {
        Operand::Int(i) => *i as f64,
        Operand::Float(b) => f64::from_bits(*b),
        _ => 0.0,
    }
}

fn float_job(job: &FloatJob) -> HostReply {
    let a = operand(&job.lhs);
    let b = operand(&job.rhs);
    let fl = |x: f64| HostReply::Value(Value::Float(x.to_bits()));
    match (job.op, &job.lhs, &job.rhs) {
        (FloatOp::Add, Operand::Text(t), Operand::Float(f)) => {
            return HostReply::Text(chars(&format!("{}{}", text(t), f64::from_bits(*f))))
        }
        (FloatOp::Add, Operand::Float(f), Operand::Text(t)) => {
            return HostReply::Text(chars(&format!("{}{}", f64::from_bits(*f), text(t))))
        }
        _ => {}
    }
    match job.op {
        FloatOp::Add => fl(a + b),
        FloatOp::Sub => fl(a - b),
        FloatOp::Mul => fl(a * b),
        FloatOp::Div => {
            if b == 0.0 {
                HostReply::Error(chars("ArithmeticError: Division by zero"))
            } else {
                fl(a / b)
            }
        }
        FloatOp::Less => HostReply::Value(Value::Bool(a < b)),
        FloatOp::LessEq => HostReply::Value(Value::Bool(a <= b)),
        FloatOp::Greater => HostReply::Value(Value::Bool(a > b)),
        FloatOp::GreaterEq => HostReply::Value(Value::Bool(a >= b)),
        FloatOp::Equal => HostReply::Value(Value::Bool(a == b)),
        FloatOp::NotEq => HostReply::Value(Value::Bool(a != b)),
        FloatOp::Neg => fl(-a),
        FloatOp::Show => HostReply::Text(chars(&format!("{}", a))),
        FloatOp::FromInt => fl(a),
        FloatOp::ToInt => HostReply::Value(Value::Int(a as i64)),
        FloatOp::Unit => {
            let d = match job.lhs {
                Operand::Int(i) => i as u64,
                _ => 0,
            };
            fl(d as f64 / u32::MAX as f64)
        }
    }
}

/// What a run came to: the returned value as `to_string` shows it, the
/// uncaught error, or the message a panic would print.
#[derive(Debug, PartialEq)]
enum Outcome {
    Done(String),
    Fault(String, String),
    Abort(String),
}

fn run_entry(src: &str, entry: &str) -> (Outcome, String) {
    run_sliced(src, entry, 1 << 20)
}

fn run_sliced(src: &str, entry: &str, fuel: usize) -> (Outcome, String) {
    let prog = compile(src).expect("compiles");
    let fid = prog.func_map.get(&chars(entry)).expect("entry exists");
    let mut vm = Vm::new();
    let mut out = vm.execute(&prog, fid, fuel);
    let mut printed = String::new();
    loop {
        out = match out {
            StepOut::Continue => vm.run(&prog, fuel),
            StepOut::Done(v) => {
                let s = render(&value_to_string(vm.heap(), &prog.strings, v));
                return (Outcome::Done(s), printed);
            }
            StepOut::Fault(e) => return (Outcome::Fault(text(&e.fault), text(&e.description)), printed),
            StepOut::Abort(m) => return (Outcome::Abort(text(&m)), printed),
            StepOut::Request(req) => {
                let reply = match &req {
                    HostRequest::Float(job) => float_job(job),
                    HostRequest::Render(chunks) => HostReply::Text(chars(&render(chunks))),
                    HostRequest::Seed => HostReply::Value(Value::Int(SEED)),
                    HostRequest::Native { kind, args, .. } => {
                        let shown: Vec<String> =
                            args.iter().map(|a| render(&value_to_string(vm.heap(), &prog.strings, *a))).collect();
                        match kind {
                            NativeKind::Print => {
                                printed.push_str(&shown.concat());
                                HostReply::Value(Value::Null)
                            }
                            NativeKind::Println => {
                                printed.push_str(&shown.join(" "));
                                printed.push('\n');
                                HostReply::Value(Value::Null)
                            }
                            NativeKind::ToFloat => match shown[0].trim().parse::<f64>() {
                                Ok(f) => HostReply::Value(Value::Float(f.to_bits())),
                                Err(_) => HostReply::Error(chars(&format!(
                                    "ValueError: Function 'to_float' cannot convert '{}' to Float",
                                    shown[0]
                                ))),
                            },
                            _ => HostReply::Error(chars("unsupported in tests")),
                        }
                    }
                };
                assert!(vm.check_reply(&prog, &reply));
                vm.answer(&prog, reply)
            }
        };
    }
}

fn run(src: &str) -> (Outcome, String) {
    run_entry(src, "main")
}

fn done(s: &str) -> Outcome {
    Outcome::Done(s.to_string())
}

#[test]
fn fibonacci_of_ten() {
    let src = "func fibonacci(n) { if (n <= 1) { return n; } return fibonacci(n-1) + fibonacci(n-2); }
               func main() { return fibonacci(10); }";
    assert_eq!(run(src).0, done("55"));
}

#[test]
fn arithmetic_prints() {
    let src = "func main() { println(5 + 3); println(10 - 2); println(4 * 5); println(10 / 3); }";
    let (o, p) = run(src);
    assert_eq!(o, done("null"));
    assert_eq!(p, "8\n8\n20\n3\n");
}

#[test]
fn arithmetic_on_variables() {
    let src = "func main() { let a = 7; let b = -2; println(a + b, a - b, a * b, a / b); }";
    assert_eq!(run(src).1, "5 9 -14 -3\n");
}

#[test]
fn conditions_and_loops() {
    let src = "func main() {
        let x = 7;
        if (x > 5) { println(\"x is large\"); } else { println(\"x is small\"); }
        let i = 0;
        while (i < 10) { i++; }
        let s = 0;
        for (let j = 0; j < 10; j = j + 1) { s = s + j; }
        println(i, s);
    }";
    assert_eq!(run(src).1, "x is large\n10 45\n");
}

#[test]
fn break_and_continue() {
    let src = "func main() {
        let s = 0;
        for (let i = 0; i < 100; i = i + 1) {
            if (i == 10) { break; }
            if (i == 3) { continue; }
            s = s + i;
        }
        return s;
    }";
    assert_eq!(run(src).0, done("42"));
}

#[test]
fn arrays_push_index_len() {
    let src = "func main() { let arr = [1,2,3]; push(arr, 4); println(arr[0], len(arr)); return arr; }";
    let (o, p) = run(src);
    assert_eq!(p, "1 4\n");
    assert_eq!(o, done("[1, 2, 3, 4]"));
}

#[test]
fn push_then_pop_gives_value_back() {
    let src = "func main() { let a = [1, 2]; push(a, 5); let v = pop(a); return [v, len(a)]; }";
    assert_eq!(run(src).0, done("[5, 2]"));
}

#[test]
fn tables_fields_and_order() {
    let src = "func main() { let user = { name: \"Alice\", age: 25 }; println(user.name); return user; }";
    let (o, p) = run(src);
    assert_eq!(p, "Alice\n");
    assert_eq!(o, done("{ name: Alice, age: 25 }"));
}

#[test]
fn table_set_then_get() {
    let src = "func main() { let t = {}; t.k = 10; t.j = 5; t.k = 11; return [t.k, t.j, len(t), t]; }";
    assert_eq!(run(src).0, done("[11, 5, 2, { k: 11, j: 5 }]"));
}

#[test]
fn compound_assignment_on_field() {
    let src = "func main() { let obj = { value: 1 }; obj.value += 1; obj.value *= 10; return obj.value; }";
    assert_eq!(run(src).0, done("20"));
}

#[test]
fn function_values_in_tables() {
    let src = "func twice(o) { return o.n * 2; }
               func main() { let obj = { n: 21, f: twice }; let f = obj.f; return f(obj); }";
    assert_eq!(run(src).0, done("42"));
}

#[test]
fn try_catch_string() {
    let src = "func main() { try { throw \"Error\"; } catch (err) { println(err); } }";
    assert_eq!(run(src).1, "Error\n");
}

#[test]
fn try_catch_runtime_error() {
    let src = "func main() { let z = 0; try { let x = 1 / z; } catch (e) { return e; } }";
    assert_eq!(run(src).0, done("ArithmeticError: Division by zero"));
}

#[test]
fn uncaught_division_by_zero() {
    let src = "func main() { let z = 0; return 1 / z; }";
    assert_eq!(
        run(src).0,
        Outcome::Fault("Unhandled Exception".to_string(), "ArithmeticError: Division by zero".to_string())
    );
}

#[test]
fn integer_overflow_aborts() {
    let src = "func main() { let a = 9223372036854775807; return a + 1; }";
    assert_eq!(run(src).0, Outcome::Abort("attempt to add with overflow".to_string()));
}

#[test]
fn recursion_depth() {
    let src = "func sum(n) { if (n == 0) { return 0; } return n + sum(n - 1); } func main() { return sum(500); }";
    assert_eq!(run(src).0, done("125250"));
}

#[test]
fn string_functions() {
    let src = "func main() {
        println(replace(\"hello world\", \"world\", \"CRS\"));
        println(split(\"a,b,c\", \",\"));
        println(slice(\"hello\", 1, 4));
        println(strip(\"   hello  \"));
        println(type_of(123), type_of(\"s\"), type_of([]));
    }";
    assert_eq!(run(src).1, "hello CRS\n[a, b, c]\nell\nhello\nInt String Array\n");
}

#[test]
fn to_bool_rules() {
    let src = "func main() { return [to_bool(0), to_bool(0.0), to_bool(\"\"), to_bool(\"false\"), to_bool(null), to_bool(1), to_bool(\"x\"), to_bool([])]; }";
    assert_eq!(run(src).0, done("[false, false, false, false, false, true, true, true]"));
}

#[test]
fn conversions() {
    let src = "func main() { return [to_int(\"123\"), to_int(12.5), to_float(\"3.14\"), to_string(123), to_int(true)]; }";
    assert_eq!(run(src).0, done("[123, 12, 3.14, 123, 1]"));
}

#[test]
fn get_with_default() {
    let src = "func main() { let arr = [1, 2]; return [get(arr, 1), get(arr, 10, \"default\")]; }";
    assert_eq!(run(src).0, done("[2, default]"));
}

#[test]
fn float_arithmetic_through_host() {
    let src = "func main() { let x = 1.5; return [x + 2, x * x, x > 1, \"v=\" + x]; }";
    assert_eq!(run(src).0, done("[3.5, 2.25, true, v=1.5]"));
}

#[test]
fn self_containing_array_shows_ellipsis() {
    let src = "func main() { let a = [1]; push(a, a); return a; }";
    assert_eq!(run(src).0, done("[1, [...]]"));
}

#[test]
fn seeded_rand_int_is_deterministic() {
    let src = "func main() { rand_seed(123); return rand_int(1, 10); }";
    let s: u64 = 123u64.wrapping_mul(1664525).wrapping_add(1013904223);
    let expected = 1 + (s % 10) as i64;
    assert_eq!(run(src).0, done(&expected.to_string()));
}

#[test]
fn garbage_collection_keeps_live_data() {
    let src = "func main() {
        let keep = [1, 2, 3];
        for (let i = 0; i < 5000; i = i + 1) { let t = [i, i]; }
        gc_collect();
        return keep;
    }";
    assert_eq!(run(src).0, done("[1, 2, 3]"));
}

#[test]
fn other_entry_point() {
    let src = "func main() { return 1; } func other() { return 2; }";
    assert_eq!(run_entry(src, "other").0, done("2"));
}

#[test]
fn undefined_variable_is_a_compile_error() {
    assert_eq!(
        compile("func main() { return y; }").err().unwrap(),
        "CompilationError: Reference to undefined variable 'y'."
    );
}

#[test]
fn constant_overflow_is_a_compile_error() {
    assert_eq!(
        compile("func main() { return 9223372036854775807 + 1; }").err().unwrap(),
        "attempt to add with overflow"
    );
}

#[test]
fn missing_semicolon_is_a_syntax_error() {
    let e = compile("func main() { let x = 1 }").err().unwrap();
    assert!(e.starts_with("SyntaxError[Line 1, Col "), "{}", e);
}

#[test]
fn division_by_constant_zero_is_a_compile_error() {
    assert_eq!(
        compile("func main() { let a = 1; return a / 0; }").err().unwrap(),
        "CompilationError: Division by zero."
    );
}

#[test]
fn and_or_short_circuit() {
    let src = "func f() { println(\"called\"); return true; }
               func main() { let a = false and f(); let b = true or f(); return [a, b, true and 3, null or 4]; }";
    let (o, p) = run(src);
    assert_eq!(p, "");
    assert_eq!(o, done("[false, true, 3, 4]"));
}

#[test]
fn unknown_character_ends_the_token_stream() {
    let e = compile("func main() { let a = 1 & 2; }").err().unwrap();
    assert_eq!(e, "SyntaxError[Line 1, Col 25]: Expected 'Semicolon', but encountered 'EOF'.");
}

fn fault(desc: &str) -> Outcome {
    Outcome::Fault("Unhandled Exception".to_string(), desc.to_string())
}

#[test]
fn native_argument_errors() {
    assert_eq!(run("func main() { push(1, 2); }").0, fault("TypeError: Function 'push' expects Array as 1st arg, got Int"));
    assert_eq!(run("func main() { len(); }").0, fault("ArgumentError: Function 'len' expects 1 argument, got 0"));
    assert_eq!(run("func main() { to_int(\"x1\"); }").0, fault("ValueError: Function 'to_int' cannot convert 'x1' to Int"));
    assert_eq!(run("func main() { rand_seed(\"s\"); }").0, fault("TypeError: Function 'rand_seed' expects Int, got String"));
}

#[test]
fn runtime_type_errors() {
    assert_eq!(run("func main() { let a = [1]; let b = {}; return a + b; }").0, fault("TypeError: Cannot add Array and Table"));
    assert_eq!(run("func main() { let a = null; return a < 1; }").0, fault("TypeError: Cannot compare Null < Int"));
    assert_eq!(run("func main() { let a = \"s\"; return -a; }").0, fault("TypeError: Cannot negate String"));
}

#[test]
fn catch_by_error_type() {
    let src = "func main() {
        try {
            try { let z = 0; let x = 1 / z; } catch (\"TypeError\", e) { return \"wrong\"; }
        } catch (\"ArithmeticError\", e) { return \"right\"; }
    }";
    assert_eq!(run(src).0, done("right"));
}

#[test]
fn throw_non_string_values() {
    assert_eq!(run("func main() { throw 42; }").0, fault("42"));
    assert_eq!(run("func main() { throw [1, 2]; }").0, fault("Array(len=2)"));
    assert_eq!(run("func main() { throw 1.5; }").0, fault("1.5"));
}

#[test]
fn string_concatenation() {
    let src = "func main() { let n = 3; return \"n=\" + n + \"!\" + (1 + 2); }";
    assert_eq!(run(src).0, done("n=3!3"));
}

#[test]
fn keys_and_values_follow_insertion_order() {
    let src = "func main() { let t = { b: 1, a: 2 }; t.c = 3; return [keys(t), values(t)]; }";
    assert_eq!(run(src).0, done("[[b, a, c], [1, 2, 3]]"));
}

#[test]
fn slices_of_arrays() {
    let src = "func main() { let a = [1, 2, 3, 4, 5]; return [slice(a, 1, 3), slice(a, -2), slice(\"hello\", -3)]; }";
    assert_eq!(run(src).0, done("[[2, 3], [4, 5], llo]"));
}

#[test]
fn insert_and_extend() {
    let src = "func main() { let a = [1, 2]; insert(a, 1, 9); let b = [7]; extend(a, b); return a; }";
    assert_eq!(run(src).0, done("[1, 9, 2, 7]"));
}

#[test]
fn running_in_slices_gives_the_same_outcome() {
    let src = "func fib(n) { if (n <= 1) { return n; } return fib(n-1) + fib(n-2); }
               func main() { let t = []; for (let i = 0; i < 8; i = i + 1) { push(t, fib(i)); } println(t); return t; }";
    let whole = run_sliced(src, "main", 1 << 20);
    assert_eq!(run_sliced(src, "main", 1), whole);
    assert_eq!(run_sliced(src, "main", 7), whole);
    assert_eq!(whole.0, done("[0, 1, 1, 2, 3, 5, 8, 13]"));
}

#[test]
fn folding_agrees_with_the_machine() {
    let folded = "func main() { return [2 * 3 + 1, 7 / -2, 1 < 2, 3 == 3, \"ab\" + \"cd\", \"x\" == \"y\"]; }";
    let computed = "func main() { let a = 2; let b = 7; let m = -2; let s = \"ab\"; let x = \"x\";
                    return [a * 3 + 1, b / m, a - 1 < a, a + 1 == 3, s + \"cd\", x == \"y\"]; }";
    assert_eq!(run(folded).0, run(computed).0);
    assert_eq!(run(folded).0, done("[7, -3, true, true, abcd, false]"));
}

#[test]
fn to_bool_only_empty_and_false_strings_are_false() {
    let src = "func main() { return [to_bool(\"null\"), to_bool(\"FALSE\"), to_bool(\"  \"), to_bool(\"false\"), to_bool(\"\")]; }";
    assert_eq!(run(src).0, done("[true, true, true, false, false]"));
}

#[test]
fn extend_an_array_by_itself() {
    let src = "func main() { let a = [1, 2]; extend(a, a); return a; }";
    assert_eq!(run(src).0, done("[1, 2, 1, 2]"));
}

#[test]
fn symbol_literals_name_table_fields() {
    let src = "func main() { let table = {name: \"x\"}; set(table, :name, \"CRS\"); return [get(table, :name), table.name]; }";
    assert_eq!(run(src).0, done("[CRS, CRS]"));
}

#[test]
fn unseeded_draws_start_from_the_host_clock() {
    let src = "func main() { let a = [7, 8, 9]; return [rand_int(1, 10), rand_choice(a)]; }";
    let s1: u64 = (SEED as u64).wrapping_mul(1664525).wrapping_add(1013904223);
    let s2: u64 = s1.wrapping_mul(1664525).wrapping_add(1013904223);
    let n = 1 + (s1 % 10) as i64;
    let c = [7, 8, 9][(s2 as usize) % 3];
    assert_eq!(run(src).0, done(&format!("[{}, {}]", n, c)));
}

#[test]
fn to_string_of_nested_values() {
    let src = "func main() { return to_string([1, \"a\", true, null, 2.5]); }";
    assert_eq!(run(src).0, done("[1, a, true, null, 2.5]"));
}

#[test]
fn folded_logic_agrees_with_short_circuit() {
    let folded = "func main() { return [true and false, false and true, true or false, false or false]; }";
    let computed = "func main() { let t = true; let f = false; return [t and f, f and t, t or f, f or f]; }";
    assert_eq!(run(folded).0, run(computed).0);
    assert_eq!(run(folded).0, done("[false, false, true, false]"));
}

#[test]
fn increment_applies_to_variables_only() {
    let e = compile("func main() { let o = {v: 1}; o.v++; }").err().unwrap();
    assert_eq!(e, "CompilationError: i++ can only be applied to variables.");
    let e = compile("func main() { let o = {v: 1}; o.v--; }").err().unwrap();
    assert_eq!(e, "CompilationError: i-- can only be applied to variables.");
}

#[test]
fn only_functions_and_includes_at_top_level() {
    let e = compile("let x = 1;").err().unwrap();
    assert_eq!(e, "SyntaxError[Line 1, Col 1]: Expected 'Func', but encountered 'Let'.");
}

#[test]
fn arrays_stop_at_their_limit() {
    let src = "func main() { let a = []; for (let i = 0; i < 100001; i = i + 1) { push(a, i); } return len(a); }";
    assert_eq!(run(src).0, fault("MemoryError: OOM Array Limit Exceeded (limit: 100000)"));
}

#[test]
fn deep_recursion_overflows_the_stack() {
    let src = "func f(n) { return f(n + 1); } func main() { return f(0); }";
    assert_eq!(run(src).0, fault("StackOverflowError: Maximum call stack size exceeded"));
}

#[test]
fn a_second_collection_reclaims_nothing() {
    let prog = compile("func main() { let a = [1]; for (let i = 0; i < 3; i = i + 1) { let t = [i]; } return a; }").unwrap();
    let fid = prog.func_map.get(&chars("main")).unwrap();
    let mut vm = Vm::new();
    let out = vm.execute(&prog, fid, 1 << 20);
    assert!(matches!(out, StepOut::Done(_)));
    let first = vm.collect_garbage(&prog);
    assert!(first >= 1);
    assert_eq!(vm.collect_garbage(&prog), 0);
}

#[test]
fn equality_of_booleans_and_mixed_constants() {
    let folded = "func main() { return [true == false, true != false, 1 == true, \"a\" != 1, true == \"true\"]; }";
    let computed = "func main() { let t = true; let f = false; let one = 1; let a = \"a\";
                    return [t == f, t != f, one == t, a != one, t == \"true\"]; }";
    assert_eq!(run(folded).0, run(computed).0);
    assert_eq!(run(folded).0, done("[false, true, false, true, false]"));
}

#[test]
fn set_then_get_on_tables_and_arrays() {
    let src = "func main() { let t = {}; set(t, :k, 5); let arr = [10, 20];
               return [get(t, :k), keys(t), values(t), get(arr, 1), get(arr, 10, \"d\"), get(arr, 10)]; }";
    assert_eq!(run(src).0, done("[5, [k], [5], 20, d, null]"));
    let bad = "func main() { let arr = [10, 20]; set(arr, 5, 1); }";
    assert_eq!(run(bad).0, fault("IndexError: Array index out of bounds: 5"));
}
