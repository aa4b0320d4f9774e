# CRS

A small scripting language — lexer, parser, bytecode compiler and
register-based virtual machine — whose behaviour is stated in contracts and
proved with Verus.

## Layout

- `src/` — the verified library.
  - `lexer`, `grammar`, `parser`: source text to tokens to a syntax tree
    (`ast`); `grammar` states the parse as a function of the tokens.
  - `codegen`, `compiler`: what the compiler emits, stated as a function of
    the syntax tree (`codegen`), and the compiler that produces exactly that
    (`compiler`); `wf` proves that compiled programs are well formed.
  - `bytecode`: instructions, functions, programs, the removal of
    unreachable code, and the well-formedness check.
  - `heap`, `value`, `natives`, `builtins`, `vm`: runtime values, the heap
    and its collector, the standard library, and the machine, which runs a
    step at a time and hands floating-point work and input/output to the
    host.
  - `show`, `disasm`: the text of values, of instructions, of a program
    listing and of an error report.
  - `laws`, `reach`: properties that relate several parts of the library;
    `reach` shows that removing unreachable code twice removes nothing more.
- `app/` — the `crs` command line: files, the console, floating-point
  arithmetic and the rest of the host's work.
- `tests/` — scripts run end to end, and unit tests of the parts.
