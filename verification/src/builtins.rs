//! The standard library: the table of native functions, and the natives
//! whose work is pure computation on values and the heap.
use vstd::prelude::*;
use crate::bytecode::Program;
use crate::heap::{Bounds, Heap, ObjV, Value, heap_wf, values_ok};
use crate::natives::{NativeOut, NativeOutV, native_post, push_spec, native_push, len_spec, native_len, to_int_spec,
    native_to_int, to_float_spec, native_to_float, to_bool_spec, native_to_bool, to_string_spec, native_to_string,
    type_of_spec, native_type_of, pop_spec, native_pop, extend_spec, native_extend, replace_native_spec, native_replace,
    host_strings_spec, host_strings, rand_seed_spec, native_rand_seed, rand_spec, native_rand, rand_int_spec,
    native_rand_int, rand_choice_spec, native_rand_choice, split_native_spec, native_split, slice_spec, native_slice,
    strip_spec, native_strip, keys_spec, native_keys, values_spec, native_values, get_spec, native_get, set_spec,
    native_set, insert_spec, native_insert, quit_spec, native_quit};

verus! {

/// The native functions of the standard library. `External` stands for a
/// native that the host registers and runs itself.
#[derive(Clone, Copy, PartialEq, Eq, Structural, Debug)]
pub enum NativeKind {
    Print,
    Println,
    Input,
    Push,
    Len,
    ToInt,
    ToFloat,
    ToBool,
    ToString,
    TypeOf,
    GcCollect,
    Clear,
    Pop,
    Extend,
    Replace,
    Read,
    Write,
    IsFileExists,
    GetNow,
    GetEnv,
    SetEnv,
    GetDir,
    ChangeDir,
    RandSeed,
    Rand,
    RandInt,
    RandChoice,
    Sys,
    Split,
    Slice,
    Strip,
    Keys,
    Values,
    GetItem,
    SetItem,
    Insert,
    Quit,
    IsWindowsOs,
    External,
}

/// The standard library's natives by name, in the order that fixes their
/// ids.
pub open spec fn builtin_table() -> Seq<(Seq<char>, NativeKind)> {
    seq![
        ("print"@, NativeKind::Print),
        ("println"@, NativeKind::Println),
        ("input"@, NativeKind::Input),
        ("push"@, NativeKind::Push),
        ("len"@, NativeKind::Len),
        ("to_int"@, NativeKind::ToInt),
        ("to_float"@, NativeKind::ToFloat),
        ("to_bool"@, NativeKind::ToBool),
        ("to_string"@, NativeKind::ToString),
        ("type_of"@, NativeKind::TypeOf),
        ("gc_collect"@, NativeKind::GcCollect),
        ("clear"@, NativeKind::Clear),
        ("pop"@, NativeKind::Pop),
        ("extend"@, NativeKind::Extend),
        ("replace"@, NativeKind::Replace),
        ("read"@, NativeKind::Read),
        ("write"@, NativeKind::Write),
        ("is_file_exists"@, NativeKind::IsFileExists),
        ("get_now"@, NativeKind::GetNow),
        ("get_env"@, NativeKind::GetEnv),
        ("set_env"@, NativeKind::SetEnv),
        ("get_dir"@, NativeKind::GetDir),
        ("change_dir"@, NativeKind::ChangeDir),
        ("rand_seed"@, NativeKind::RandSeed),
        ("rand"@, NativeKind::Rand),
        ("rand_int"@, NativeKind::RandInt),
        ("rand_choice"@, NativeKind::RandChoice),
        ("sys"@, NativeKind::Sys),
        ("split"@, NativeKind::Split),
        ("slice"@, NativeKind::Slice),
        ("strip"@, NativeKind::Strip),
        ("keys"@, NativeKind::Keys),
        ("values"@, NativeKind::Values),
        ("get"@, NativeKind::GetItem),
        ("set"@, NativeKind::SetItem),
        ("insert"@, NativeKind::Insert),
        ("quit"@, NativeKind::Quit),
        ("is_windows_os"@, NativeKind::IsWindowsOs),
    ]
}

/// The name table after registering the entries of `t` from id `n0` on; a
/// later entry of the same name wins.
pub open spec fn registered(m: Map<Seq<char>, usize>, t: Seq<(Seq<char>, NativeKind)>, n0: nat) -> Map<Seq<char>, usize>
    decreases t.len(),
{
    if t.len() == 0 {
        m
    } else {
        registered(m, t.drop_last(), n0).insert(t.last().0, (n0 + t.len() - 1) as usize)
    }
}

fn builtin_list() -> (r: Vec<(&'static str, NativeKind)>)
    ensures
        r@.len() == builtin_table().len(),
        forall|i: int| 0 <= i < r@.len() ==> (#[trigger] r@[i]).0@ == builtin_table()[i].0 && r@[i].1 == builtin_table()[i].1,
{
    let mut v: Vec<(&'static str, NativeKind)> = Vec::new();
    v.push(("print", NativeKind::Print));
    v.push(("println", NativeKind::Println));
    v.push(("input", NativeKind::Input));
    v.push(("push", NativeKind::Push));
    v.push(("len", NativeKind::Len));
    v.push(("to_int", NativeKind::ToInt));
    v.push(("to_float", NativeKind::ToFloat));
    v.push(("to_bool", NativeKind::ToBool));
    v.push(("to_string", NativeKind::ToString));
    v.push(("type_of", NativeKind::TypeOf));
    v.push(("gc_collect", NativeKind::GcCollect));
    v.push(("clear", NativeKind::Clear));
    v.push(("pop", NativeKind::Pop));
    v.push(("extend", NativeKind::Extend));
    v.push(("replace", NativeKind::Replace));
    v.push(("read", NativeKind::Read));
    v.push(("write", NativeKind::Write));
    v.push(("is_file_exists", NativeKind::IsFileExists));
    v.push(("get_now", NativeKind::GetNow));
    v.push(("get_env", NativeKind::GetEnv));
    v.push(("set_env", NativeKind::SetEnv));
    v.push(("get_dir", NativeKind::GetDir));
    v.push(("change_dir", NativeKind::ChangeDir));
    v.push(("rand_seed", NativeKind::RandSeed));
    v.push(("rand", NativeKind::Rand));
    v.push(("rand_int", NativeKind::RandInt));
    v.push(("rand_choice", NativeKind::RandChoice));
    v.push(("sys", NativeKind::Sys));
    v.push(("split", NativeKind::Split));
    v.push(("slice", NativeKind::Slice));
    v.push(("strip", NativeKind::Strip));
    v.push(("keys", NativeKind::Keys));
    v.push(("values", NativeKind::Values));
    v.push(("get", NativeKind::GetItem));
    v.push(("set", NativeKind::SetItem));
    v.push(("insert", NativeKind::Insert));
    v.push(("quit", NativeKind::Quit));
    v.push(("is_windows_os", NativeKind::IsWindowsOs));
    v
}

/// Registers the standard library's natives (see `builtin_table`), in
/// order, after those already there.
pub fn register_builtins(prog: &mut Program)
    requires
        old(prog).wf_tables(),
        old(prog).natives@.len() + builtin_table().len() <= usize::MAX,
    ensures
        final(prog).wf_tables(),
        final(prog).natives@.len() == old(prog).natives@.len() + builtin_table().len(),
        forall|j: int| 0 <= j < old(prog).natives@.len() ==> #[trigger] final(prog).natives@[j] == old(prog).natives@[j],
        forall|i: int| 0 <= i < builtin_table().len() ==> {
            let n = #[trigger] final(prog).natives@[old(prog).natives@.len() + i];
            n.name@ == builtin_table()[i].0 && n.kind == builtin_table()[i].1
        },
        final(prog).native_map@ == registered(old(prog).native_map@, builtin_table(), old(prog).natives@.len()),
        final(prog).functions@ == old(prog).functions@,
        final(prog).func_map@ == old(prog).func_map@,
        final(prog).strings@ == old(prog).strings@,
        final(prog).floats@ == old(prog).floats@,
        final(prog).float_literals@ == old(prog).float_literals@,
{
    let list = builtin_list();
    let ghost t = builtin_table();
    let ghost n0 = prog.natives@.len();
    let mut i: usize = 0;
    proof {
        assert(t.take(0) =~= Seq::<(Seq<char>, NativeKind)>::empty());
    }
    while i < list.len()
        invariant
            i <= list@.len(),
            list@.len() == t.len(),
            t == builtin_table(),
            n0 == old(prog).natives@.len(),
            n0 + t.len() <= usize::MAX,
            forall|k: int| 0 <= k < list@.len() ==> (#[trigger] list@[k]).0@ == t[k].0 && list@[k].1 == t[k].1,
            prog.wf_tables(),
            prog.natives@.len() == n0 + i,
            forall|j: int| 0 <= j < n0 ==> #[trigger] prog.natives@[j] == old(prog).natives@[j],
            forall|k: int| 0 <= k < i ==> {
                let n = #[trigger] prog.natives@[n0 + k];
                n.name@ == t[k].0 && n.kind == t[k].1
            },
            prog.native_map@ == registered(old(prog).native_map@, t.take(i as int), n0),
            prog.functions@ == old(prog).functions@,
            prog.func_map@ == old(prog).func_map@,
            prog.strings@ == old(prog).strings@,
            prog.floats@ == old(prog).floats@,
            prog.float_literals@ == old(prog).float_literals@,
        decreases list@.len() - i,
    {
        let ghost before = prog.natives@;
        let (name, kind) = list[i];
        prog.register_native(name, kind);
        proof {
            assert(t.take(i + 1).drop_last() =~= t.take(i as int));
            assert forall|k: int| 0 <= k < i + 1 implies {
                let n = #[trigger] prog.natives@[n0 + k];
                n.name@ == t[k].0 && n.kind == t[k].1
            } by {
                if k < i {
                    assert(prog.natives@[n0 + k] == before[n0 + k]);
                }
            }
        }
        i = i + 1;
    }
    proof {
        assert(t.take(i as int) =~= t);
    }
}

/// What a native call does: the heap and generator state after it, and
/// its outcome. The natives that do input and output, read the clock or
/// the environment, or render values go to the host once their arguments
/// pass the checks.
pub open spec fn native_spec(k: NativeKind, h: Seq<ObjV>, rng: Option<u64>, args: Seq<Value>) -> (Seq<ObjV>, Option<u64>, NativeOutV) {
    match k {
        NativeKind::Push => { let (h2, o) = push_spec(h, args); (h2, rng, o) },
        NativeKind::Len => (h, rng, len_spec(h, args)),
        NativeKind::ToInt => (h, rng, to_int_spec(h, args)),
        NativeKind::ToFloat => (h, rng, to_float_spec(h, args)),
        NativeKind::ToBool => (h, rng, to_bool_spec(h, args)),
        NativeKind::ToString => (h, rng, to_string_spec(args)),
        NativeKind::TypeOf => { let (h2, o) = type_of_spec(h, args); (h2, rng, o) },
        NativeKind::GcCollect => (h, rng, NativeOutV::Value(Value::Null)),
        NativeKind::Pop => { let (h2, o) = pop_spec(h, args); (h2, rng, o) },
        NativeKind::Extend => { let (h2, o) = extend_spec(h, args); (h2, rng, o) },
        NativeKind::Replace => { let (h2, o) = replace_native_spec(h, args); (h2, rng, o) },
        NativeKind::Read => (h, rng, host_strings_spec("read"@, 1, args)),
        NativeKind::Write => (h, rng, host_strings_spec("write"@, 2, args)),
        NativeKind::IsFileExists => (h, rng, host_strings_spec("is_file_exists"@, 1, args)),
        NativeKind::GetEnv => (h, rng, host_strings_spec("get_env"@, 1, args)),
        NativeKind::SetEnv => (h, rng, host_strings_spec("set_env"@, 2, args)),
        NativeKind::ChangeDir => (h, rng, host_strings_spec("change_dir"@, 1, args)),
        NativeKind::Sys => (h, rng, host_strings_spec("sys"@, 1, args)),
        NativeKind::RandSeed => { let (r2, o) = rand_seed_spec(rng, args); (h, r2, o) },
        NativeKind::Rand => { let (r2, o) = rand_spec(rng); (h, r2, o) },
        NativeKind::RandInt => { let (r2, o) = rand_int_spec(rng, args); (h, r2, o) },
        NativeKind::RandChoice => { let (r2, o) = rand_choice_spec(h, rng, args); (h, r2, o) },
        NativeKind::Split => { let (h2, o) = split_native_spec(h, args); (h2, rng, o) },
        NativeKind::Slice => { let (h2, o) = slice_spec(h, args); (h2, rng, o) },
        NativeKind::Strip => { let (h2, o) = strip_spec(h, args); (h2, rng, o) },
        NativeKind::Keys => { let (h2, o) = keys_spec(h, args); (h2, rng, o) },
        NativeKind::Values => { let (h2, o) = values_spec(h, args); (h2, rng, o) },
        NativeKind::GetItem => (h, rng, get_spec(h, args)),
        NativeKind::SetItem => { let (h2, o) = set_spec(h, args); (h2, rng, o) },
        NativeKind::Insert => { let (h2, o) = insert_spec(h, args); (h2, rng, o) },
        NativeKind::Quit => (h, rng, quit_spec(args)),
        _ => (h, rng, NativeOutV::Host),
    }
}

/// Runs a native call as far as the library can.
pub fn call_native(heap: &mut Heap, rng: &mut Option<u64>, k: NativeKind, args: &Vec<Value>, Ghost(b): Ghost<Bounds>) -> (r: NativeOut)
    requires
        heap_wf(old(heap)@, b),
        values_ok(old(heap)@, b, args@),
    ensures
        (final(heap)@, *final(rng), r@) == native_spec(k, old(heap)@, *old(rng), args@),
        native_post(old(heap)@, final(heap)@, b, r@),
{
    match k {
        NativeKind::Push => native_push(heap, args, Ghost(b)),
        NativeKind::Len => native_len(heap, args, Ghost(b)),
        NativeKind::ToInt => native_to_int(heap, args, Ghost(b)),
        NativeKind::ToFloat => native_to_float(args),
        NativeKind::ToBool => native_to_bool(heap, args, Ghost(b)),
        NativeKind::ToString => native_to_string(args),
        NativeKind::TypeOf => native_type_of(heap, args, Ghost(b)),
        NativeKind::GcCollect => NativeOut::Value(Value::Null),
        NativeKind::Pop => native_pop(heap, args, Ghost(b)),
        NativeKind::Extend => native_extend(heap, args, Ghost(b)),
        NativeKind::Replace => native_replace(heap, args, Ghost(b)),
        NativeKind::Read => host_strings("read", 1, args),
        NativeKind::Write => host_strings("write", 2, args),
        NativeKind::IsFileExists => host_strings("is_file_exists", 1, args),
        NativeKind::GetEnv => host_strings("get_env", 1, args),
        NativeKind::SetEnv => host_strings("set_env", 2, args),
        NativeKind::ChangeDir => host_strings("change_dir", 1, args),
        NativeKind::Sys => host_strings("sys", 1, args),
        NativeKind::RandSeed => native_rand_seed(rng, args),
        NativeKind::Rand => native_rand(rng),
        NativeKind::RandInt => native_rand_int(rng, args),
        NativeKind::RandChoice => native_rand_choice(heap, rng, args, Ghost(b)),
        NativeKind::Split => native_split(heap, args, Ghost(b)),
        NativeKind::Slice => native_slice(heap, args, Ghost(b)),
        NativeKind::Strip => native_strip(heap, args, Ghost(b)),
        NativeKind::Keys => native_keys(heap, args, Ghost(b)),
        NativeKind::Values => native_values(heap, args, Ghost(b)),
        NativeKind::GetItem => native_get(heap, args, Ghost(b)),
        NativeKind::SetItem => native_set(heap, args, Ghost(b)),
        NativeKind::Insert => native_insert(heap, args, Ghost(b)),
        NativeKind::Quit => native_quit(args),
        _ => NativeOut::Host,
    }
}

} // verus!
