//! The natives of the standard library whose work is computation on values,
//! the heap and the random generator: each as a spec function that says what
//! the call does, and the function that does it.
use vstd::prelude::*;
use crate::fmt::{nat_digits, int_text, push_str, push_u64, push_i64, push_all};
use crate::heap::{Bounds, Heap, ObjV, Value, MAX_ARRAY_SIZE, arr_of, str_of, tab_of, table_lookup, table_store,
    heap_wf, kinds_kept, value_ok, values_ok, type_label_of, lemma_value_ok_kept};
use crate::strtext::{trim, trim_chars, utf8_len, parse_i64_spec, parse_i64, replace_spec, replace_chars,
    split_spec, split_chars, char_index_at, char_index};
use crate::vm::{FloatJob, FloatJobV, FloatOp, Operand, OperandV};

verus! {

/// What a native call comes to.
pub enum NativeOut {
    /// The call returned this value.
    Value(Value),
    /// The call failed with this error message.
    Raise(Vec<char>),
    /// The result is this floating-point operation, which the host performs.
    Float(FloatJob),
    /// The host must run the call (input and output, time, the environment).
    Host,
    /// The call ends the run with this panic message.
    Abort(Vec<char>),
}

pub enum NativeOutV {
    Value(Value),
    Raise(Seq<char>),
    Float(FloatJobV),
    Host,
    Abort(Seq<char>),
}

impl View for NativeOut {
    type V = NativeOutV;

    open spec fn view(&self) -> NativeOutV {
        match self {
            NativeOut::Value(v) => NativeOutV::Value(*v),
            NativeOut::Raise(m) => NativeOutV::Raise(m@),
            NativeOut::Float(j) => NativeOutV::Float(j@),
            NativeOut::Host => NativeOutV::Host,
            NativeOut::Abort(m) => NativeOutV::Abort(m@),
        }
    }
}

/// What every native keeps: a well-formed heap whose old objects keep their
/// kinds, and a result that refers to valid objects.
pub open spec fn native_post(h0: Seq<ObjV>, h1: Seq<ObjV>, b: Bounds, r: NativeOutV) -> bool {
    &&& heap_wf(h1, b)
    &&& kinds_kept(h0, h1)
    &&& (r matches NativeOutV::Value(v) ==> value_ok(h1, b, v))
}

/// The message for a call with the wrong number of arguments.
pub open spec fn arg_count_msg(name: Seq<char>, expect: Seq<char>, n: nat) -> Seq<char> {
    "ArgumentError: Function '"@ + name + "' expects "@ + expect + ", got "@ + nat_digits(n)
}

/// The message for an argument of the wrong type.
pub open spec fn type_msg(name: Seq<char>, expect: Seq<char>, v: Value) -> Seq<char> {
    "TypeError: Function '"@ + name + "' expects "@ + expect + ", got "@ + type_label_of(v)
}

/// The message when an array would grow past its limit.
pub open spec fn oom_msg() -> Seq<char> {
    "MemoryError: OOM Array Limit Exceeded (limit: "@ + nat_digits(MAX_ARRAY_SIZE as nat) + ")"@
}

fn arg_count_error(name: &str, expect: &str, n: usize) -> (r: NativeOut)
    ensures
        r@ == NativeOutV::Raise(arg_count_msg(name@, expect@, n as nat)),
{
    let mut m = Vec::new();
    push_str(&mut m, "ArgumentError: Function '");
    push_str(&mut m, name);
    push_str(&mut m, "' expects ");
    push_str(&mut m, expect);
    push_str(&mut m, ", got ");
    push_u64(&mut m, n as u64);
    assert(m@ =~= arg_count_msg(name@, expect@, n as nat));
    NativeOut::Raise(m)
}

fn type_error(name: &str, expect: &str, v: Value) -> (r: NativeOut)
    ensures
        r@ == NativeOutV::Raise(type_msg(name@, expect@, v)),
{
    let mut m = Vec::new();
    push_str(&mut m, "TypeError: Function '");
    push_str(&mut m, name);
    push_str(&mut m, "' expects ");
    push_str(&mut m, expect);
    push_str(&mut m, ", got ");
    push_str(&mut m, v.type_label());
    assert(m@ =~= type_msg(name@, expect@, v));
    NativeOut::Raise(m)
}

fn oom_error() -> (r: NativeOut)
    ensures
        r@ == NativeOutV::Raise(oom_msg()),
{
    let mut m = Vec::new();
    push_str(&mut m, "MemoryError: OOM Array Limit Exceeded (limit: ");
    push_u64(&mut m, MAX_ARRAY_SIZE as u64);
    push_str(&mut m, ")");
    assert(m@ =~= oom_msg());
    NativeOut::Raise(m)
}

/// `push(array, value)`: appends, up to the array limit.
pub open spec fn push_spec(h: Seq<ObjV>, args: Seq<Value>) -> (Seq<ObjV>, NativeOutV) {
    if args.len() != 2 {
        (h, NativeOutV::Raise(arg_count_msg("push"@, "2 arguments"@, args.len())))
    } else {
        match args[0] {
            Value::Array(a) => if arr_of(h, a).len() >= MAX_ARRAY_SIZE {
                (h, NativeOutV::Raise(oom_msg()))
            } else {
                (h.update(a as int, ObjV::Array(arr_of(h, a).push(args[1]))), NativeOutV::Value(Value::Null))
            },
            _ => (h, NativeOutV::Raise(type_msg("push"@, "Array as 1st arg"@, args[0]))),
        }
    }
}

pub fn native_push(heap: &mut Heap, args: &Vec<Value>, Ghost(b): Ghost<Bounds>) -> (r: NativeOut)
    requires
        heap_wf(old(heap)@, b),
        values_ok(old(heap)@, b, args@),
    ensures
        (final(heap)@, r@) == push_spec(old(heap)@, args@),
        native_post(old(heap)@, final(heap)@, b, r@),
{
    if args.len() != 2 {
        return arg_count_error("push", "2 arguments", args.len());
    }
    assert(value_ok(heap@, b, args@[0]) && value_ok(heap@, b, args@[1]));
    match args[0] {
        Value::Array(a) => {
            if heap.arr_len(a) >= MAX_ARRAY_SIZE {
                return oom_error();
            }
            heap.arr_push(a, args[1], Ghost(b));
            NativeOut::Value(Value::Null)
        },
        _ => type_error("push", "Array as 1st arg", args[0]),
    }
}

/// `len(x)`: the length of an array or table, or the UTF-8 length of a
/// string.
pub open spec fn len_spec(h: Seq<ObjV>, args: Seq<Value>) -> NativeOutV {
    if args.len() != 1 {
        NativeOutV::Raise(arg_count_msg("len"@, "1 argument"@, args.len()))
    } else {
        match args[0] {
            Value::Array(a) => NativeOutV::Value(Value::Int(arr_of(h, a).len() as i64)),
            Value::Table(t) => NativeOutV::Value(Value::Int(tab_of(h, t).len() as i64)),
            Value::String(s) => NativeOutV::Value(Value::Int(utf8_len(str_of(h, s)) as i64)),
            _ => NativeOutV::Raise(type_msg("len"@, "Array, Table or String"@, args[0])),
        }
    }
}

/// The UTF-8 length of a sequence, counted without a bound on its size.
fn utf8_count(s: &Vec<char>) -> (r: u128)
    ensures
        r == utf8_len(s@),
{
    let mut n: u128 = 0;
    let mut k: usize = 0;
    while k < s.len()
        invariant
            k <= s@.len(),
            n == utf8_len(s@.take(k as int)),
            n <= 4 * k,
        decreases s@.len() - k,
    {
        assert(s@.take(k + 1).drop_last() =~= s@.take(k as int));
        let w = crate::strtext::char_width(s[k]);
        n = n + w as u128;
        k = k + 1;
    }
    assert(s@.take(s@.len() as int) =~= s@);
    n
}

pub fn native_len(heap: &Heap, args: &Vec<Value>, Ghost(b): Ghost<Bounds>) -> (r: NativeOut)
    requires
        heap_wf(heap@, b),
        values_ok(heap@, b, args@),
    ensures
        r@ == len_spec(heap@, args@),
        native_post(heap@, heap@, b, r@),
{
    if args.len() != 1 {
        return arg_count_error("len", "1 argument", args.len());
    }
    assert(value_ok(heap@, b, args@[0]));
    match args[0] {
        Value::Array(a) => NativeOut::Value(Value::Int(heap.arr_len(a) as i64)),
        Value::Table(t) => NativeOut::Value(Value::Int(heap.tab_entries(t).len() as i64)),
        Value::String(s) => {
            let n = utf8_count(heap.str_chars(s));
            NativeOut::Value(Value::Int(n as i64))
        },
        _ => type_error("len", "Array, Table or String", args[0]),
    }
}

/// `pop(array)`: removes and returns the last entry, or `null`.
pub open spec fn pop_spec(h: Seq<ObjV>, args: Seq<Value>) -> (Seq<ObjV>, NativeOutV) {
    if args.len() != 1 {
        (h, NativeOutV::Raise(arg_count_msg("pop"@, "1 argument"@, args.len())))
    } else {
        match args[0] {
            Value::Array(a) => if arr_of(h, a).len() == 0 {
                (h, NativeOutV::Value(Value::Null))
            } else {
                (h.update(a as int, ObjV::Array(arr_of(h, a).drop_last())), NativeOutV::Value(arr_of(h, a).last()))
            },
            _ => (h, NativeOutV::Raise(type_msg("pop"@, "Array"@, args[0]))),
        }
    }
}

pub fn native_pop(heap: &mut Heap, args: &Vec<Value>, Ghost(b): Ghost<Bounds>) -> (r: NativeOut)
    requires
        heap_wf(old(heap)@, b),
        values_ok(old(heap)@, b, args@),
    ensures
        (final(heap)@, r@) == pop_spec(old(heap)@, args@),
        native_post(old(heap)@, final(heap)@, b, r@),
{
    if args.len() != 1 {
        return arg_count_error("pop", "1 argument", args.len());
    }
    assert(value_ok(heap@, b, args@[0]));
    match args[0] {
        Value::Array(a) => match heap.arr_pop(a, Ghost(b)) {
            Some(v) => NativeOut::Value(v),
            None => NativeOut::Value(Value::Null),
        },
        _ => type_error("pop", "Array", args[0]),
    }
}

/// `type_of(x)`: a new string naming the value's type.
pub open spec fn type_of_spec(h: Seq<ObjV>, args: Seq<Value>) -> (Seq<ObjV>, NativeOutV) {
    if args.len() != 1 {
        (h, NativeOutV::Raise(arg_count_msg("type_of"@, "1 argument"@, args.len())))
    } else {
        (h.push(ObjV::Str(type_label_of(args[0]))), NativeOutV::Value(Value::String(h.len() as usize)))
    }
}

pub fn native_type_of(heap: &mut Heap, args: &Vec<Value>, Ghost(b): Ghost<Bounds>) -> (r: NativeOut)
    requires
        heap_wf(old(heap)@, b),
        values_ok(old(heap)@, b, args@),
    ensures
        (final(heap)@, r@) == type_of_spec(old(heap)@, args@),
        native_post(old(heap)@, final(heap)@, b, r@),
{
    if args.len() != 1 {
        return arg_count_error("type_of", "1 argument", args.len());
    }
    let t = crate::text::chars_of(args[0].type_label());
    let i = heap.alloc_str(t, Ghost(b));
    NativeOut::Value(Value::String(i))
}

/// IEEE-754 bits of `1.0`.
pub const ONE_BITS: u64 = 0x3FF0_0000_0000_0000;

/// `to_bool(x)`: `null`, `false`, `0`, `0.0`, the empty string and the
/// string `"false"` are false; everything else is true.
pub open spec fn to_bool_spec(h: Seq<ObjV>, args: Seq<Value>) -> NativeOutV {
    if args.len() != 1 {
        NativeOutV::Raise(arg_count_msg("to_bool"@, "1 argument"@, args.len()))
    } else {
        NativeOutV::Value(Value::Bool(match args[0] {
            Value::Bool(x) => x,
            Value::Null => false,
            Value::Int(i) => i != 0,
            Value::Float(f) => f & 0x7FFF_FFFF_FFFF_FFFFu64 != 0,
            Value::String(s) => !is_false_text(str_of(h, s)),
            _ => true,
        }))
    }
}

/// The strings that convert to `false`: the empty string and `"false"`.
pub open spec fn is_false_text(t: Seq<char>) -> bool {
    t.len() == 0 || t == "false"@
}

fn is_false_word(t: &Vec<char>) -> (r: bool)
    ensures
        r == is_false_text(t@),
{
    let f = crate::text::chars_of("false");
    t.len() == 0 || crate::text::chars_eq(t, &f)
}

pub fn native_to_bool(heap: &Heap, args: &Vec<Value>, Ghost(b): Ghost<Bounds>) -> (r: NativeOut)
    requires
        heap_wf(heap@, b),
        values_ok(heap@, b, args@),
    ensures
        r@ == to_bool_spec(heap@, args@),
        native_post(heap@, heap@, b, r@),
{
    if args.len() != 1 {
        return arg_count_error("to_bool", "1 argument", args.len());
    }
    assert(value_ok(heap@, b, args@[0]));
    let x = match args[0] {
        Value::Bool(x) => x,
        Value::Null => false,
        Value::Int(i) => i != 0,
        Value::Float(f) => f & 0x7FFF_FFFF_FFFF_FFFFu64 != 0,
        Value::String(s) => {
            let t = heap.str_chars(s);
            !is_false_word(&t)
        },
        _ => true,
    };
    NativeOut::Value(Value::Bool(x))
}

/// `to_int(x)`: integers as they are, floats cut toward zero by the host,
/// booleans as 0 or 1, `null` as 0, strings parsed after trimming.
pub open spec fn to_int_spec(h: Seq<ObjV>, args: Seq<Value>) -> NativeOutV {
    if args.len() != 1 {
        NativeOutV::Raise(arg_count_msg("to_int"@, "1 argument"@, args.len()))
    } else {
        match args[0] {
            Value::Int(i) => NativeOutV::Value(Value::Int(i)),
            Value::Float(f) => NativeOutV::Float(FloatJobV { op: FloatOp::ToInt, lhs: OperandV::Float(f), rhs: OperandV::Absent }),
            Value::Bool(x) => NativeOutV::Value(Value::Int(if x { 1 } else { 0 })),
            Value::String(s) => match parse_i64_spec(trim(str_of(h, s))) {
                Some(i) => NativeOutV::Value(Value::Int(i)),
                None => NativeOutV::Raise("ValueError: Function 'to_int' cannot convert '"@ + str_of(h, s) + "' to Int"@),
            },
            Value::Null => NativeOutV::Value(Value::Int(0)),
            _ => NativeOutV::Raise(type_msg("to_int"@, "Int, Float, Bool or String"@, args[0])),
        }
    }
}

pub fn native_to_int(heap: &Heap, args: &Vec<Value>, Ghost(b): Ghost<Bounds>) -> (r: NativeOut)
    requires
        heap_wf(heap@, b),
        values_ok(heap@, b, args@),
    ensures
        r@ == to_int_spec(heap@, args@),
        native_post(heap@, heap@, b, r@),
{
    if args.len() != 1 {
        return arg_count_error("to_int", "1 argument", args.len());
    }
    assert(value_ok(heap@, b, args@[0]));
    match args[0] {
        Value::Int(i) => NativeOut::Value(Value::Int(i)),
        Value::Float(f) => NativeOut::Float(FloatJob { op: FloatOp::ToInt, lhs: Operand::Float(f), rhs: Operand::Absent }),
        Value::Bool(x) => NativeOut::Value(Value::Int(if x { 1 } else { 0 })),
        Value::String(s) => {
            let text = heap.str_chars(s);
            match parse_i64(&trim_chars(text)) {
                Some(i) => NativeOut::Value(Value::Int(i)),
                None => {
                    let mut m = Vec::new();
                    push_str(&mut m, "ValueError: Function 'to_int' cannot convert '");
                    push_all(&mut m, text);
                    push_str(&mut m, "' to Int");
                    assert(m@ =~= "ValueError: Function 'to_int' cannot convert '"@ + str_of(heap@, s) + "' to Int"@);
                    NativeOut::Raise(m)
                },
            }
        },
        Value::Null => NativeOut::Value(Value::Int(0)),
        _ => type_error("to_int", "Int, Float, Bool or String", args[0]),
    }
}

/// `to_float(x)`: integers converted by the host, floats as they are,
/// booleans as 0.0 or 1.0, `null` as 0.0; a string is parsed by the host.
pub open spec fn to_float_spec(h: Seq<ObjV>, args: Seq<Value>) -> NativeOutV {
    if args.len() != 1 {
        NativeOutV::Raise(arg_count_msg("to_float"@, "1 argument"@, args.len()))
    } else {
        match args[0] {
            Value::Int(i) => NativeOutV::Float(FloatJobV { op: FloatOp::FromInt, lhs: OperandV::Int(i), rhs: OperandV::Absent }),
            Value::Float(f) => NativeOutV::Value(Value::Float(f)),
            Value::Bool(x) => NativeOutV::Value(Value::Float(if x { ONE_BITS } else { 0 })),
            Value::String(_) => NativeOutV::Host,
            Value::Null => NativeOutV::Value(Value::Float(0)),
            _ => NativeOutV::Raise(type_msg("to_float"@, "Int, Float, Bool or String"@, args[0])),
        }
    }
}

pub fn native_to_float(args: &Vec<Value>) -> (r: NativeOut)
    ensures
        forall|h: Seq<ObjV>| r@ == #[trigger] to_float_spec(h, args@),
{
    if args.len() != 1 {
        return arg_count_error("to_float", "1 argument", args.len());
    }
    match args[0] {
        Value::Int(i) => NativeOut::Float(FloatJob { op: FloatOp::FromInt, lhs: Operand::Int(i), rhs: Operand::Absent }),
        Value::Float(f) => NativeOut::Value(Value::Float(f)),
        Value::Bool(x) => NativeOut::Value(Value::Float(if x { ONE_BITS } else { 0 })),
        Value::String(_) => NativeOut::Host,
        Value::Null => NativeOut::Value(Value::Float(0)),
        _ => type_error("to_float", "Int, Float, Bool or String", args[0]),
    }
}

/// `extend(dst, src)`: appends the entries that `src` holds to `dst` one by
/// one, stopping with an error where `dst` reaches the array limit. Extending
/// an array by itself appends a copy of its own entries.
pub open spec fn extend_spec(h: Seq<ObjV>, args: Seq<Value>) -> (Seq<ObjV>, NativeOutV) {
    if args.len() != 2 {
        (h, NativeOutV::Raise(arg_count_msg("extend"@, "2 arguments"@, args.len())))
    } else {
        match (args[0], args[1]) {
            (Value::Array(d), Value::Array(s)) => {
                let dv = arr_of(h, d);
                let sv = arr_of(h, s);
                let room: int = if dv.len() >= MAX_ARRAY_SIZE { 0 } else { MAX_ARRAY_SIZE - dv.len() };
                if sv.len() <= room {
                    (h.update(d as int, ObjV::Array(dv + sv)), NativeOutV::Value(Value::Null))
                } else {
                    (h.update(d as int, ObjV::Array(dv + sv.take(room))), NativeOutV::Raise(oom_msg()))
                }
            },
            (Value::Array(_), _) => (h, NativeOutV::Raise(type_msg("extend"@, "Array as 2nd arg"@, args[1]))),
            _ => (h, NativeOutV::Raise(type_msg("extend"@, "Array as 1st arg"@, args[0]))),
        }
    }
}

pub fn native_extend(heap: &mut Heap, args: &Vec<Value>, Ghost(b): Ghost<Bounds>) -> (r: NativeOut)
    requires
        heap_wf(old(heap)@, b),
        values_ok(old(heap)@, b, args@),
    ensures
        (final(heap)@, r@) == extend_spec(old(heap)@, args@),
        native_post(old(heap)@, final(heap)@, b, r@),
{
    if args.len() != 2 {
        return arg_count_error("extend", "2 arguments", args.len());
    }
    assert(value_ok(heap@, b, args@[0]) && value_ok(heap@, b, args@[1]));
    let (d, s) = match (args[0], args[1]) {
        (Value::Array(d), Value::Array(s)) => (d, s),
        (Value::Array(_), _) => { return type_error("extend", "Array as 2nd arg", args[1]); },
        _ => { return type_error("extend", "Array as 1st arg", args[0]); },
    };
    let ghost h0 = heap@;
    let dlen = heap.arr_len(d);
    let slen = heap.arr_len(s);
    let room: usize = if dlen >= MAX_ARRAY_SIZE { 0 } else { MAX_ARRAY_SIZE - dlen };
    let n: usize = if slen <= room { slen } else { room };
    let mut k: usize = 0;
    while k < n
        invariant
            k <= n <= slen,
            d < h0.len() && s < h0.len(),
            h0[d as int] is Array && h0[s as int] is Array,
            slen == arr_of(h0, s).len(),
            heap_wf(h0, b),
            heap@ == h0.update(d as int, ObjV::Array(arr_of(h0, d) + arr_of(h0, s).take(k as int))),
            heap_wf(heap@, b),
            kinds_kept(h0, heap@),
        decreases n - k,
    {
        proof {
            if d == s {
                assert(arr_of(heap@, s) == arr_of(h0, d) + arr_of(h0, s).take(k as int));
            } else {
                assert(arr_of(heap@, s) == arr_of(h0, s));
            }
            assert(k < arr_of(heap@, s).len());
            assert(arr_of(heap@, s)[k as int] == arr_of(h0, s)[k as int]);
        }
        let v = heap.arr_get(s, k);
        proof {
            assert(crate::heap::obj_ok(heap@, b, heap@[s as int]));
            assert(value_ok(heap@, b, arr_of(heap@, s)[k as int]));
        }
        let ghost h1 = heap@;
        heap.arr_push(d, v, Ghost(b));
        proof {
            lemma_kinds_kept_trans(h0, h1, heap@);
            assert(arr_of(h1, d) == arr_of(h0, d) + arr_of(h0, s).take(k as int));
            assert(arr_of(h0, d) + arr_of(h0, s).take(k + 1) =~= (arr_of(h0, d) + arr_of(h0, s).take(k as int)).push(v));
            assert(heap@ =~= h0.update(d as int, ObjV::Array(arr_of(h0, d) + arr_of(h0, s).take(k + 1))));
        }
        k = k + 1;
    }
    if slen <= room {
        assert(arr_of(h0, s).take(slen as int) =~= arr_of(h0, s));
        NativeOut::Value(Value::Null)
    } else {
        oom_error()
    }
}

/// Kinds kept is transitive.
pub proof fn lemma_kinds_kept_trans(h0: Seq<ObjV>, h1: Seq<ObjV>, h2: Seq<ObjV>)
    requires
        kinds_kept(h0, h1),
        kinds_kept(h1, h2),
    ensures
        kinds_kept(h0, h2),
{
    assert forall|i: int| 0 <= i < h0.len() implies {
        &&& (h0[i] is Str <==> #[trigger] h2[i] is Str)
        &&& (h0[i] is Array <==> h2[i] is Array)
        &&& (h0[i] is Table <==> h2[i] is Table)
    } by {
        assert(h1[i] is Str <==> h2[i] is Str);
    }
}

/// `replace(s, from, to)`: a new string, as `str::replace` gives it.
pub open spec fn replace_native_spec(h: Seq<ObjV>, args: Seq<Value>) -> (Seq<ObjV>, NativeOutV) {
    if args.len() != 3 {
        (h, NativeOutV::Raise(arg_count_msg("replace"@, "3 arguments"@, args.len())))
    } else {
        match (args[0], args[1], args[2]) {
            (Value::String(s), Value::String(f), Value::String(t)) => (
                h.push(ObjV::Str(replace_spec(str_of(h, s), str_of(h, f), str_of(h, t)))),
                NativeOutV::Value(Value::String(h.len() as usize)),
            ),
            (Value::String(_), Value::String(_), _) => (h, NativeOutV::Raise(type_msg("replace"@, "String as 3rd arg"@, args[2]))),
            (Value::String(_), _, _) => (h, NativeOutV::Raise(type_msg("replace"@, "String as 2nd arg"@, args[1]))),
            _ => (h, NativeOutV::Raise(type_msg("replace"@, "String as 1st arg"@, args[0]))),
        }
    }
}

pub fn native_replace(heap: &mut Heap, args: &Vec<Value>, Ghost(b): Ghost<Bounds>) -> (r: NativeOut)
    requires
        heap_wf(old(heap)@, b),
        values_ok(old(heap)@, b, args@),
    ensures
        (final(heap)@, r@) == replace_native_spec(old(heap)@, args@),
        native_post(old(heap)@, final(heap)@, b, r@),
{
    if args.len() != 3 {
        return arg_count_error("replace", "3 arguments", args.len());
    }
    assert(value_ok(heap@, b, args@[0]) && value_ok(heap@, b, args@[1]) && value_ok(heap@, b, args@[2]));
    match (args[0], args[1], args[2]) {
        (Value::String(s), Value::String(f), Value::String(t)) => {
            let out = replace_chars(heap.str_chars(s), heap.str_chars(f), heap.str_chars(t));
            let i = heap.alloc_str(out, Ghost(b));
            NativeOut::Value(Value::String(i))
        },
        (Value::String(_), Value::String(_), _) => type_error("replace", "String as 3rd arg", args[2]),
        (Value::String(_), _, _) => type_error("replace", "String as 2nd arg", args[1]),
        _ => type_error("replace", "String as 1st arg", args[0]),
    }
}

/// `strip(s)`: a new string without leading and trailing white space.
pub open spec fn strip_spec(h: Seq<ObjV>, args: Seq<Value>) -> (Seq<ObjV>, NativeOutV) {
    if args.len() != 1 {
        (h, NativeOutV::Raise(arg_count_msg("strip"@, "1 argument"@, args.len())))
    } else {
        match args[0] {
            Value::String(s) => (h.push(ObjV::Str(trim(str_of(h, s)))), NativeOutV::Value(Value::String(h.len() as usize))),
            _ => (h, NativeOutV::Raise(type_msg("strip"@, "String"@, args[0]))),
        }
    }
}

pub fn native_strip(heap: &mut Heap, args: &Vec<Value>, Ghost(b): Ghost<Bounds>) -> (r: NativeOut)
    requires
        heap_wf(old(heap)@, b),
        values_ok(old(heap)@, b, args@),
    ensures
        (final(heap)@, r@) == strip_spec(old(heap)@, args@),
        native_post(old(heap)@, final(heap)@, b, r@),
{
    if args.len() != 1 {
        return arg_count_error("strip", "1 argument", args.len());
    }
    assert(value_ok(heap@, b, args@[0]));
    match args[0] {
        Value::String(s) => {
            let out = trim_chars(heap.str_chars(s));
            let i = heap.alloc_str(out, Ghost(b));
            NativeOut::Value(Value::String(i))
        },
        _ => type_error("strip", "String", args[0]),
    }
}

/// The heap after allocating one string object per part, in order.
pub open spec fn with_strs(h: Seq<ObjV>, parts: Seq<Seq<char>>) -> Seq<ObjV> {
    h + parts.map_values(|p: Seq<char>| ObjV::Str(p))
}

/// String values for `n` objects allocated from index `start` on.
pub open spec fn str_handles(start: nat, n: nat) -> Seq<Value> {
    Seq::new(n, |i: int| Value::String((start + i) as usize))
}

/// Allocates one string object per part and returns their values.
fn alloc_parts(heap: &mut Heap, parts: &Vec<Vec<char>>, Ghost(b): Ghost<Bounds>) -> (r: Vec<Value>)
    requires
        heap_wf(old(heap)@, b),
    ensures
        final(heap)@ == with_strs(old(heap)@, parts.deep_view()),
        r@ == str_handles(old(heap)@.len(), parts@.len()),
        heap_wf(final(heap)@, b),
        kinds_kept(old(heap)@, final(heap)@),
        values_ok(final(heap)@, b, r@),
{
    let ghost h0 = heap@;
    let mut r: Vec<Value> = Vec::new();
    let mut k: usize = 0;
    assert(with_strs(h0, parts.deep_view().take(0)) =~= h0);
    while k < parts.len()
        invariant
            k <= parts@.len(),
            heap@ == with_strs(h0, parts.deep_view().take(k as int)),
            r@ == str_handles(h0.len(), k as nat),
            heap_wf(heap@, b),
            kinds_kept(h0, heap@),
            values_ok(heap@, b, r@),
        decreases parts@.len() - k,
    {
        let mut c: Vec<char> = Vec::new();
        push_all(&mut c, &parts[k]);
        let ghost h1 = heap@;
        let i = heap.alloc_str(c, Ghost(b));
        r.push(Value::String(i));
        proof {
            lemma_kinds_kept_trans(h0, h1, heap@);
            assert(parts.deep_view()[k as int] == parts@[k as int]@);
            assert(parts.deep_view().take(k + 1) =~= parts.deep_view().take(k as int).push(parts@[k as int]@));
            assert(heap@ =~= with_strs(h0, parts.deep_view().take(k + 1)));
            assert(r@ =~= str_handles(h0.len(), (k + 1) as nat));
            assert forall|j: int| 0 <= j < r@.len() implies value_ok(heap@, b, #[trigger] r@[j]) by {
                if j < k {
                    lemma_value_ok_kept(h1, heap@, b, r@[j]);
                }
            }
        }
        k = k + 1;
    }
    assert(parts.deep_view().take(parts@.len() as int) =~= parts.deep_view());
    r
}

/// `split(s, d)`: a new array of new strings, the parts of `s` between
/// occurrences of `d`, as `str::split` gives them.
pub open spec fn split_native_spec(h: Seq<ObjV>, args: Seq<Value>) -> (Seq<ObjV>, NativeOutV) {
    if args.len() != 2 {
        (h, NativeOutV::Raise(arg_count_msg("split"@, "2 arguments"@, args.len())))
    } else {
        match (args[0], args[1]) {
            (Value::String(s), Value::String(d)) => {
                let parts = split_spec(str_of(h, s), str_of(h, d));
                let h2 = with_strs(h, parts);
                (h2.push(ObjV::Array(str_handles(h.len(), parts.len()))), NativeOutV::Value(Value::Array(h2.len() as usize)))
            },
            (Value::String(_), _) => (h, NativeOutV::Raise(type_msg("split"@, "String as 2nd arg"@, args[1]))),
            _ => (h, NativeOutV::Raise(type_msg("split"@, "String as 1st arg"@, args[0]))),
        }
    }
}

pub fn native_split(heap: &mut Heap, args: &Vec<Value>, Ghost(b): Ghost<Bounds>) -> (r: NativeOut)
    requires
        heap_wf(old(heap)@, b),
        values_ok(old(heap)@, b, args@),
    ensures
        (final(heap)@, r@) == split_native_spec(old(heap)@, args@),
        native_post(old(heap)@, final(heap)@, b, r@),
{
    if args.len() != 2 {
        return arg_count_error("split", "2 arguments", args.len());
    }
    assert(value_ok(heap@, b, args@[0]) && value_ok(heap@, b, args@[1]));
    match (args[0], args[1]) {
        (Value::String(s), Value::String(d)) => {
            let ghost h0 = heap@;
            let parts = split_chars(heap.str_chars(s), heap.str_chars(d));
            let hs = alloc_parts(heap, &parts, Ghost(b));
            let ghost h1 = heap@;
            let i = heap.alloc_arr(hs, Ghost(b));
            proof {
                lemma_kinds_kept_trans(h0, h1, heap@);
            }
            NativeOut::Value(Value::Array(i))
        },
        (Value::String(_), _) => type_error("split", "String as 2nd arg", args[1]),
        _ => type_error("split", "String as 1st arg", args[0]),
    }
}

/// `keys(t)`: a new array of the table's keys, in the table's order.
pub open spec fn keys_spec(h: Seq<ObjV>, args: Seq<Value>) -> (Seq<ObjV>, NativeOutV) {
    if args.len() != 1 {
        (h, NativeOutV::Raise(arg_count_msg("keys"@, "1 argument"@, args.len())))
    } else {
        match args[0] {
            Value::Table(t) => (
                h.push(ObjV::Array(tab_of(h, t).map_values(|e: (crate::value::Symbol, Value)| Value::Symbol(e.0)))),
                NativeOutV::Value(Value::Array(h.len() as usize)),
            ),
            _ => (h, NativeOutV::Raise(type_msg("keys"@, "Table"@, args[0]))),
        }
    }
}

pub fn native_keys(heap: &mut Heap, args: &Vec<Value>, Ghost(b): Ghost<Bounds>) -> (r: NativeOut)
    requires
        heap_wf(old(heap)@, b),
        values_ok(old(heap)@, b, args@),
    ensures
        (final(heap)@, r@) == keys_spec(old(heap)@, args@),
        native_post(old(heap)@, final(heap)@, b, r@),
{
    if args.len() != 1 {
        return arg_count_error("keys", "1 argument", args.len());
    }
    assert(value_ok(heap@, b, args@[0]));
    match args[0] {
        Value::Table(t) => {
            let es = heap.tab_entries(t);
            proof {
                assert(crate::heap::obj_ok(heap@, b, heap@[t as int]));
            }
            let mut out: Vec<Value> = Vec::new();
            let mut k: usize = 0;
            while k < es.len()
                invariant
                    k <= es@.len(),
                    es@ == tab_of(heap@, t),
                    forall|j: int| 0 <= j < es@.len() ==> #[trigger] es@[j].0 < b.nsym,
                    out@ == es@.take(k as int).map_values(|e: (crate::value::Symbol, Value)| Value::Symbol(e.0)),
                decreases es@.len() - k,
            {
                out.push(Value::Symbol(es[k].0));
                k = k + 1;
                assert(out@ =~= es@.take(k as int).map_values(|e: (crate::value::Symbol, Value)| Value::Symbol(e.0)));
            }
            assert(es@.take(es@.len() as int) =~= es@);
            assert(values_ok(heap@, b, out@)) by {
                assert forall|j: int| 0 <= j < out@.len() implies value_ok(heap@, b, #[trigger] out@[j]) by {
                    assert(es@[j].0 < b.nsym);
                }
            }
            let i = heap.alloc_arr(out, Ghost(b));
            NativeOut::Value(Value::Array(i))
        },
        _ => type_error("keys", "Table", args[0]),
    }
}

/// `values(t)`: a new array of the table's values, in the table's order.
pub open spec fn values_spec(h: Seq<ObjV>, args: Seq<Value>) -> (Seq<ObjV>, NativeOutV) {
    if args.len() != 1 {
        (h, NativeOutV::Raise(arg_count_msg("values"@, "1 argument"@, args.len())))
    } else {
        match args[0] {
            Value::Table(t) => (
                h.push(ObjV::Array(tab_of(h, t).map_values(|e: (crate::value::Symbol, Value)| e.1))),
                NativeOutV::Value(Value::Array(h.len() as usize)),
            ),
            _ => (h, NativeOutV::Raise(type_msg("values"@, "Table"@, args[0]))),
        }
    }
}

pub fn native_values(heap: &mut Heap, args: &Vec<Value>, Ghost(b): Ghost<Bounds>) -> (r: NativeOut)
    requires
        heap_wf(old(heap)@, b),
        values_ok(old(heap)@, b, args@),
    ensures
        (final(heap)@, r@) == values_spec(old(heap)@, args@),
        native_post(old(heap)@, final(heap)@, b, r@),
{
    if args.len() != 1 {
        return arg_count_error("values", "1 argument", args.len());
    }
    assert(value_ok(heap@, b, args@[0]));
    match args[0] {
        Value::Table(t) => {
            let es = heap.tab_entries(t);
            proof {
                assert(crate::heap::obj_ok(heap@, b, heap@[t as int]));
            }
            let mut out: Vec<Value> = Vec::new();
            let mut k: usize = 0;
            while k < es.len()
                invariant
                    k <= es@.len(),
                    es@ == tab_of(heap@, t),
                    forall|j: int| 0 <= j < es@.len() ==> value_ok(heap@, b, #[trigger] es@[j].1),
                    out@ == es@.take(k as int).map_values(|e: (crate::value::Symbol, Value)| e.1),
                decreases es@.len() - k,
            {
                out.push(es[k].1);
                k = k + 1;
                assert(out@ =~= es@.take(k as int).map_values(|e: (crate::value::Symbol, Value)| e.1));
            }
            assert(es@.take(es@.len() as int) =~= es@);
            assert(values_ok(heap@, b, out@)) by {
                assert forall|j: int| 0 <= j < out@.len() implies value_ok(heap@, b, #[trigger] out@[j]) by {
                    assert(value_ok(heap@, b, es@[j].1));
                }
            }
            let i = heap.alloc_arr(out, Ghost(b));
            NativeOut::Value(Value::Array(i))
        },
        _ => type_error("values", "Table", args[0]),
    }
}

/// `get(coll, key [, default])`: an array entry by index or a table value by
/// symbol; the default (or `null`) where there is none.
pub open spec fn get_spec(h: Seq<ObjV>, args: Seq<Value>) -> NativeOutV {
    if args.len() < 2 || args.len() > 3 {
        NativeOutV::Raise(arg_count_msg("get"@, "2 or 3 arguments"@, args.len()))
    } else {
        let fallback = if args.len() == 3 { args[2] } else { Value::Null };
        match (args[0], args[1]) {
            (Value::Array(a), Value::Int(i)) => if (i as usize) < arr_of(h, a).len() {
                NativeOutV::Value(arr_of(h, a)[(i as usize) as int])
            } else {
                NativeOutV::Value(fallback)
            },
            (Value::Array(_), _) => NativeOutV::Raise(type_msg("get"@, "Int as 2nd arg"@, args[1])),
            (Value::Table(t), Value::Symbol(k)) => match table_lookup(tab_of(h, t), k) {
                Some(v) => NativeOutV::Value(v),
                None => NativeOutV::Value(fallback),
            },
            (Value::Table(_), _) => NativeOutV::Raise(type_msg("get"@, "Symbol as 2nd arg"@, args[1])),
            _ => NativeOutV::Raise(type_msg("get"@, "Array or Table as 1st arg"@, args[0])),
        }
    }
}

/// A table lookup finds a value of the table.
proof fn lemma_lookup_in(t: Seq<(crate::value::Symbol, Value)>, key: crate::value::Symbol)
    ensures
        table_lookup(t, key) matches Some(v) ==> exists|k: int| 0 <= k < t.len() && t[k].1 == v,
    decreases t.len(),
{
    if t.len() > 0 && t[0].0 != key {
        lemma_lookup_in(t.drop_first(), key);
        if let Some(v) = table_lookup(t, key) {
            let k = choose|k: int| 0 <= k < t.drop_first().len() && t.drop_first()[k].1 == v;
            assert(t[k + 1].1 == v);
        }
    }
}

pub fn native_get(heap: &Heap, args: &Vec<Value>, Ghost(b): Ghost<Bounds>) -> (r: NativeOut)
    requires
        heap_wf(heap@, b),
        values_ok(heap@, b, args@),
    ensures
        r@ == get_spec(heap@, args@),
        native_post(heap@, heap@, b, r@),
{
    if args.len() < 2 || args.len() > 3 {
        return arg_count_error("get", "2 or 3 arguments", args.len());
    }
    assert(value_ok(heap@, b, args@[0]) && value_ok(heap@, b, args@[1]));
    let fallback = if args.len() == 3 { args[2] } else { Value::Null };
    assert(value_ok(heap@, b, fallback));
    match (args[0], args[1]) {
        (Value::Array(a), Value::Int(i)) => {
            let index = i as usize;
            if index < heap.arr_len(a) {
                proof {
                    assert(crate::heap::obj_ok(heap@, b, heap@[a as int]));
                }
                NativeOut::Value(heap.arr_get(a, index))
            } else {
                NativeOut::Value(fallback)
            }
        },
        (Value::Array(_), _) => type_error("get", "Int as 2nd arg", args[1]),
        (Value::Table(t), Value::Symbol(k)) => match heap.tab_get(t, k, Ghost(b)) {
            Some(v) => {
                proof {
                    assert(crate::heap::obj_ok(heap@, b, heap@[t as int]));
                    lemma_lookup_in(tab_of(heap@, t), k);
                }
                NativeOut::Value(v)
            },
            None => NativeOut::Value(fallback),
        },
        (Value::Table(_), _) => type_error("get", "Symbol as 2nd arg", args[1]),
        _ => type_error("get", "Array or Table as 1st arg", args[0]),
    }
}

/// `set(coll, key, value)`: stores into an existing array slot or binds a
/// table key.
pub open spec fn set_spec(h: Seq<ObjV>, args: Seq<Value>) -> (Seq<ObjV>, NativeOutV) {
    if args.len() != 3 {
        (h, NativeOutV::Raise(arg_count_msg("set"@, "3 arguments"@, args.len())))
    } else {
        match (args[0], args[1]) {
            (Value::Array(a), Value::Int(i)) => if (i as usize) < arr_of(h, a).len() {
                (h.update(a as int, ObjV::Array(arr_of(h, a).update((i as usize) as int, args[2]))), NativeOutV::Value(Value::Null))
            } else {
                (h, NativeOutV::Raise("IndexError: Array index out of bounds: "@ + int_text(i as int)))
            },
            (Value::Array(_), _) => (h, NativeOutV::Raise(type_msg("set"@, "Int as 2nd arg"@, args[1]))),
            (Value::Table(t), Value::Symbol(k)) => (
                h.update(t as int, ObjV::Table(table_store(tab_of(h, t), k, args[2]))),
                NativeOutV::Value(Value::Null),
            ),
            (Value::Table(_), _) => (h, NativeOutV::Raise(type_msg("set"@, "Symbol as 2nd arg"@, args[1]))),
            _ => (h, NativeOutV::Raise(type_msg("set"@, "Array or Table as 1st arg"@, args[0]))),
        }
    }
}

pub fn native_set(heap: &mut Heap, args: &Vec<Value>, Ghost(b): Ghost<Bounds>) -> (r: NativeOut)
    requires
        heap_wf(old(heap)@, b),
        values_ok(old(heap)@, b, args@),
    ensures
        (final(heap)@, r@) == set_spec(old(heap)@, args@),
        native_post(old(heap)@, final(heap)@, b, r@),
{
    if args.len() != 3 {
        return arg_count_error("set", "3 arguments", args.len());
    }
    assert(value_ok(heap@, b, args@[0]) && value_ok(heap@, b, args@[1]) && value_ok(heap@, b, args@[2]));
    match (args[0], args[1]) {
        (Value::Array(a), Value::Int(i)) => {
            let index = i as usize;
            if index < heap.arr_len(a) {
                heap.arr_set(a, index, args[2], Ghost(b));
                NativeOut::Value(Value::Null)
            } else {
                let mut m = Vec::new();
                push_str(&mut m, "IndexError: Array index out of bounds: ");
                push_i64(&mut m, i);
                NativeOut::Raise(m)
            }
        },
        (Value::Array(_), _) => type_error("set", "Int as 2nd arg", args[1]),
        (Value::Table(t), Value::Symbol(k)) => {
            heap.tab_store(t, k, args[2], Ghost(b));
            NativeOut::Value(Value::Null)
        },
        (Value::Table(_), _) => type_error("set", "Symbol as 2nd arg", args[1]),
        _ => type_error("set", "Array or Table as 1st arg", args[0]),
    }
}

/// `insert(array, index, value)`: inserts at the index, or at the end when
/// the index is past it, up to the array limit.
pub open spec fn insert_spec(h: Seq<ObjV>, args: Seq<Value>) -> (Seq<ObjV>, NativeOutV) {
    if args.len() != 3 {
        (h, NativeOutV::Raise(arg_count_msg("insert"@, "3 arguments"@, args.len())))
    } else {
        match (args[0], args[1]) {
            (Value::Array(a), Value::Int(i)) => {
                let av = arr_of(h, a);
                let at: int = if (i as usize) < av.len() { (i as usize) as int } else { av.len() as int };
                if av.len() >= MAX_ARRAY_SIZE {
                    (h, NativeOutV::Raise(oom_msg()))
                } else {
                    (h.update(a as int, ObjV::Array(av.insert(at, args[2]))), NativeOutV::Value(Value::Null))
                }
            },
            (Value::Array(_), _) => (h, NativeOutV::Raise(type_msg("insert"@, "Int as 2nd arg"@, args[1]))),
            _ => (h, NativeOutV::Raise(type_msg("insert"@, "Array as 1st arg"@, args[0]))),
        }
    }
}

pub fn native_insert(heap: &mut Heap, args: &Vec<Value>, Ghost(b): Ghost<Bounds>) -> (r: NativeOut)
    requires
        heap_wf(old(heap)@, b),
        values_ok(old(heap)@, b, args@),
    ensures
        (final(heap)@, r@) == insert_spec(old(heap)@, args@),
        native_post(old(heap)@, final(heap)@, b, r@),
{
    if args.len() != 3 {
        return arg_count_error("insert", "3 arguments", args.len());
    }
    assert(value_ok(heap@, b, args@[0]) && value_ok(heap@, b, args@[1]) && value_ok(heap@, b, args@[2]));
    match (args[0], args[1]) {
        (Value::Array(a), Value::Int(i)) => {
            let len = heap.arr_len(a);
            let index = i as usize;
            let at = if index < len { index } else { len };
            if len >= MAX_ARRAY_SIZE {
                return oom_error();
            }
            heap.arr_insert(a, at, args[2], Ghost(b));
            NativeOut::Value(Value::Null)
        },
        (Value::Array(_), _) => type_error("insert", "Int as 2nd arg", args[1]),
        _ => type_error("insert", "Array as 1st arg", args[0]),
    }
}

/// One step of the generator: `s * 1664525 + 1013904223`, wrapping.
pub open spec fn lcg_next(s: u64) -> u64 {
    ((s as nat * 1664525 + 1013904223) % 0x1_0000_0000_0000_0000) as u64
}

pub fn lcg_step(s: u64) -> (r: u64)
    ensures
        r == lcg_next(s),
{
    let t: u128 = (s as u128) * 1664525 + 1013904223;
    (t % 0x1_0000_0000_0000_0000u128) as u64
}

/// `rand_seed(n)`: sets the generator's state to `n`.
pub open spec fn rand_seed_spec(rng: Option<u64>, args: Seq<Value>) -> (Option<u64>, NativeOutV) {
    if args.len() != 1 {
        (rng, NativeOutV::Raise(arg_count_msg("rand_seed"@, "1 argument"@, args.len())))
    } else {
        match args[0] {
            Value::Int(n) => (Some(n as u64), NativeOutV::Value(Value::Null)),
            _ => (rng, NativeOutV::Raise(type_msg("rand_seed"@, "Int"@, args[0]))),
        }
    }
}

pub fn native_rand_seed(rng: &mut Option<u64>, args: &Vec<Value>) -> (r: NativeOut)
    ensures
        (*final(rng), r@) == rand_seed_spec(*old(rng), args@),
{
    if args.len() != 1 {
        return arg_count_error("rand_seed", "1 argument", args.len());
    }
    match args[0] {
        Value::Int(n) => {
            *rng = Some(n as u64);
            NativeOut::Value(Value::Null)
        },
        _ => type_error("rand_seed", "Int", args[0]),
    }
}

/// `rand()`: advances the generator and scales the high half of its state
/// to `[0, 1]` (the host does the division). With no state yet the host
/// makes the draw.
pub open spec fn rand_spec(rng: Option<u64>) -> (Option<u64>, NativeOutV) {
    match rng {
        Some(s) => {
            let s2 = lcg_next(s);
            (Some(s2), NativeOutV::Float(FloatJobV { op: FloatOp::Unit, lhs: OperandV::Int((s2 / 0x1_0000_0000) as i64), rhs: OperandV::Absent }))
        },
        None => (rng, NativeOutV::Host),
    }
}

pub fn native_rand(rng: &mut Option<u64>) -> (r: NativeOut)
    ensures
        (*final(rng), r@) == rand_spec(*old(rng)),
{
    match *rng {
        Some(s) => {
            let s2 = lcg_step(s);
            *rng = Some(s2);
            NativeOut::Float(FloatJob { op: FloatOp::Unit, lhs: Operand::Int((s2 / 0x1_0000_0000) as i64), rhs: Operand::Absent })
        },
        None => NativeOut::Host,
    }
}

/// `rand_int(a, b)`: an integer between `a` and `b` inclusive, the state
/// modulo the size of the range above the smaller bound.
pub open spec fn rand_int_spec(rng: Option<u64>, args: Seq<Value>) -> (Option<u64>, NativeOutV) {
    if args.len() != 2 {
        (rng, NativeOutV::Raise(arg_count_msg("rand_int"@, "2 arguments"@, args.len())))
    } else {
        match (args[0], args[1]) {
            (Value::Int(a), Value::Int(b)) => match rng {
                Some(s) => {
                    let s2 = lcg_next(s);
                    let lo: int = if a <= b { a as int } else { b as int };
                    let hi: int = if a <= b { b as int } else { a as int };
                    if hi - lo > i64::MAX {
                        (Some(s2), NativeOutV::Abort("attempt to subtract with overflow"@))
                    } else if hi - lo + 1 > i64::MAX {
                        (Some(s2), NativeOutV::Abort("attempt to add with overflow"@))
                    } else {
                        (Some(s2), NativeOutV::Value(Value::Int((lo + (s2 as int) % (hi - lo + 1)) as i64)))
                    }
                },
                None => (rng, NativeOutV::Host),
            },
            (Value::Int(_), _) => (rng, NativeOutV::Raise(type_msg("rand_int"@, "Int as 2nd arg"@, args[1]))),
            _ => (rng, NativeOutV::Raise(type_msg("rand_int"@, "Int as 1st arg"@, args[0]))),
        }
    }
}

pub fn native_rand_int(rng: &mut Option<u64>, args: &Vec<Value>) -> (r: NativeOut)
    ensures
        (*final(rng), r@) == rand_int_spec(*old(rng), args@),
{
    if args.len() != 2 {
        return arg_count_error("rand_int", "2 arguments", args.len());
    }
    match (args[0], args[1]) {
        (Value::Int(a), Value::Int(b)) => match *rng {
            Some(s) => {
                let s2 = lcg_step(s);
                *rng = Some(s2);
                let lo = if a <= b { a } else { b };
                let hi = if a <= b { b } else { a };
                let span: i128 = hi as i128 - lo as i128;
                if span > i64::MAX as i128 {
                    let mut m = Vec::new();
                    push_str(&mut m, "attempt to subtract with overflow");
                    return NativeOut::Abort(m);
                }
                if span + 1 > i64::MAX as i128 {
                    let mut m = Vec::new();
                    push_str(&mut m, "attempt to add with overflow");
                    return NativeOut::Abort(m);
                }
                let range: u64 = (span + 1) as u64;
                let off: u64 = s2 % range;
                NativeOut::Value(Value::Int((lo as i128 + off as i128) as i64))
            },
            None => NativeOut::Host,
        },
        (Value::Int(_), _) => type_error("rand_int", "Int as 2nd arg", args[1]),
        _ => type_error("rand_int", "Int as 1st arg", args[0]),
    }
}

/// `rand_choice(array)`: an entry picked by the generator, or `null` for an
/// empty array (which leaves the generator alone).
pub open spec fn rand_choice_spec(h: Seq<ObjV>, rng: Option<u64>, args: Seq<Value>) -> (Option<u64>, NativeOutV) {
    if args.len() != 1 {
        (rng, NativeOutV::Raise(arg_count_msg("rand_choice"@, "1 argument"@, args.len())))
    } else {
        match args[0] {
            Value::Array(a) => if arr_of(h, a).len() == 0 {
                (rng, NativeOutV::Value(Value::Null))
            } else {
                match rng {
                    Some(s) => {
                        let s2 = lcg_next(s);
                        (Some(s2), NativeOutV::Value(arr_of(h, a)[((s2 as usize) % (arr_of(h, a).len() as usize)) as int]))
                    },
                    None => (rng, NativeOutV::Host),
                }
            },
            _ => (rng, NativeOutV::Raise(type_msg("rand_choice"@, "Array"@, args[0]))),
        }
    }
}

pub fn native_rand_choice(heap: &Heap, rng: &mut Option<u64>, args: &Vec<Value>, Ghost(b): Ghost<Bounds>) -> (r: NativeOut)
    requires
        heap_wf(heap@, b),
        values_ok(heap@, b, args@),
    ensures
        (*final(rng), r@) == rand_choice_spec(heap@, *old(rng), args@),
        native_post(heap@, heap@, b, r@),
{
    if args.len() != 1 {
        return arg_count_error("rand_choice", "1 argument", args.len());
    }
    assert(value_ok(heap@, b, args@[0]));
    match args[0] {
        Value::Array(a) => {
            let len = heap.arr_len(a);
            if len == 0 {
                return NativeOut::Value(Value::Null);
            }
            match *rng {
                Some(s) => {
                    let s2 = lcg_step(s);
                    *rng = Some(s2);
                    let idx = (s2 as usize) % len;
                    proof {
                        assert(crate::heap::obj_ok(heap@, b, heap@[a as int]));
                    }
                    NativeOut::Value(heap.arr_get(a, idx))
                },
                None => NativeOut::Host,
            }
        },
        _ => type_error("rand_choice", "Array", args[0]),
    }
}

/// The checks of a native that the host runs on string arguments: the
/// count, then each argument's type; the call goes to the host only when
/// they pass.
pub open spec fn host_strings_spec(name: Seq<char>, count: nat, args: Seq<Value>) -> NativeOutV {
    if args.len() != count {
        NativeOutV::Raise(arg_count_msg(name, if count == 1 { "1 argument"@ } else { "2 arguments"@ }, args.len()))
    } else if count == 1 && !(args[0] is String) {
        NativeOutV::Raise(type_msg(name, "String"@, args[0]))
    } else if count == 2 && !(args[0] is String) {
        NativeOutV::Raise(type_msg(name, "String as 1st arg"@, args[0]))
    } else if count == 2 && !(args[1] is String) {
        NativeOutV::Raise(type_msg(name, "String as 2nd arg"@, args[1]))
    } else {
        NativeOutV::Host
    }
}

pub fn host_strings(name: &str, count: usize, args: &Vec<Value>) -> (r: NativeOut)
    requires
        count == 1 || count == 2,
    ensures
        r@ == host_strings_spec(name@, count as nat, args@),
{
    if args.len() != count {
        return if count == 1 {
            arg_count_error(name, "1 argument", args.len())
        } else {
            arg_count_error(name, "2 arguments", args.len())
        };
    }
    if count == 1 {
        if !matches!(args[0], Value::String(_)) {
            return type_error(name, "String", args[0]);
        }
    } else {
        if !matches!(args[0], Value::String(_)) {
            return type_error(name, "String as 1st arg", args[0]);
        }
        if !matches!(args[1], Value::String(_)) {
            return type_error(name, "String as 2nd arg", args[1]);
        }
    }
    NativeOut::Host
}

/// `to_string(x)`: one argument, whose text the machine builds (see
/// `show::value_text`) and hands to the host, which formats its floats.
pub open spec fn to_string_spec(args: Seq<Value>) -> NativeOutV {
    if args.len() != 1 {
        NativeOutV::Raise(arg_count_msg("to_string"@, "1 argument"@, args.len()))
    } else {
        NativeOutV::Host
    }
}

pub fn native_to_string(args: &Vec<Value>) -> (r: NativeOut)
    ensures
        r@ == to_string_spec(args@),
{
    if args.len() != 1 {
        return arg_count_error("to_string", "1 argument", args.len());
    }
    NativeOut::Host
}

/// `quit(code)`: an integer code, with which the host ends the process.
pub open spec fn quit_spec(args: Seq<Value>) -> NativeOutV {
    if args.len() != 1 {
        NativeOutV::Raise(arg_count_msg("quit"@, "1 argument"@, args.len()))
    } else {
        match args[0] {
            Value::Int(_) => NativeOutV::Host,
            _ => NativeOutV::Raise(type_msg("quit"@, "Int"@, args[0])),
        }
    }
}

pub fn native_quit(args: &Vec<Value>) -> (r: NativeOut)
    ensures
        r@ == quit_spec(args@),
{
    if args.len() != 1 {
        return arg_count_error("quit", "1 argument", args.len());
    }
    match args[0] {
        Value::Int(_) => NativeOut::Host,
        _ => type_error("quit", "Int", args[0]),
    }
}

/// Where a `slice` bound falls: a negative one counts back from the end,
/// and both are clamped to `[0, len]`.
pub open spec fn slice_index(i: i64, len: usize) -> usize {
    if i < 0 {
        let t = (len as i64) as int + i as int;
        if t < 0 { 0 } else { t as usize }
    } else if (i as usize) < len {
        i as usize
    } else {
        len
    }
}

/// Counting a negative bound back from the end overflows.
pub open spec fn slice_overflows(i: i64, len: usize) -> bool {
    i < 0 && ((len as i64) as int + (i as int)) < i64::MIN
}

/// The bounds of a `slice` call on a collection of `len` units, or how the
/// call ends without them.
pub enum SliceRange {
    Range(usize, usize),
    Fail(NativeOutV),
}

pub open spec fn slice_range(len: usize, args: Seq<Value>) -> SliceRange {
    match args[1] {
        Value::Int(st) => if slice_overflows(st, len) {
            SliceRange::Fail(NativeOutV::Abort("attempt to add with overflow"@))
        } else if args.len() == 3 {
            match args[2] {
                Value::Int(en) => if slice_overflows(en, len) {
                    SliceRange::Fail(NativeOutV::Abort("attempt to add with overflow"@))
                } else {
                    SliceRange::Range(slice_index(st, len), slice_index(en, len))
                },
                _ => SliceRange::Fail(NativeOutV::Raise(type_msg("slice"@, "Int as 3rd arg"@, args[2]))),
            }
        } else {
            SliceRange::Range(slice_index(st, len), len)
        },
        _ => SliceRange::Fail(NativeOutV::Raise(type_msg("slice"@, "Int as 2nd arg"@, args[1]))),
    }
}

fn slice_index_exec(i: i64, len: usize) -> (r: Option<usize>)
    ensures
        r is None <==> slice_overflows(i, len),
        r matches Some(k) ==> k == slice_index(i, len),
{
    if i < 0 {
        let t: i128 = (len as i64) as i128 + i as i128;
        if t < i64::MIN as i128 {
            None
        } else if t < 0 {
            Some(0)
        } else {
            Some(t as usize)
        }
    } else {
        let u = i as usize;
        Some(if u < len { u } else { len })
    }
}

fn overflow_abort() -> (r: NativeOut)
    ensures
        r@ == NativeOutV::Abort("attempt to add with overflow"@),
{
    let mut m = Vec::new();
    push_str(&mut m, "attempt to add with overflow");
    NativeOut::Abort(m)
}

fn slice_range_exec(len: usize, args: &Vec<Value>) -> (r: Result<(usize, usize), NativeOut>)
    requires
        2 <= args@.len() <= 3,
    ensures
        match r {
            Ok((a, e)) => slice_range(len, args@) == SliceRange::Range(a, e),
            Err(o) => slice_range(len, args@) == SliceRange::Fail(o@),
        },
{
    match args[1] {
        Value::Int(st) => {
            let a = match slice_index_exec(st, len) {
                Some(a) => a,
                None => { return Err(overflow_abort()); },
            };
            if args.len() == 3 {
                match args[2] {
                    Value::Int(en) => match slice_index_exec(en, len) {
                        Some(e) => Ok((a, e)),
                        None => Err(overflow_abort()),
                    },
                    _ => Err(type_error("slice", "Int as 3rd arg", args[2])),
                }
            } else {
                Ok((a, len))
            }
        },
        _ => Err(type_error("slice", "Int as 2nd arg", args[1])),
    }
}

/// The panic of slicing a string inside a character.
pub open spec fn boundary_msg(i: usize) -> Seq<char> {
    "byte index "@ + nat_digits(i as nat) + " is not a char boundary"@
}

/// `slice(coll, start [, end])`: a new string or array with the part between
/// the bounds (empty where they cross); string bounds are byte offsets and
/// must fall between characters.
pub open spec fn slice_spec(h: Seq<ObjV>, args: Seq<Value>) -> (Seq<ObjV>, NativeOutV) {
    if args.len() < 2 || args.len() > 3 {
        (h, NativeOutV::Raise(arg_count_msg("slice"@, "2 or 3 arguments"@, args.len())))
    } else {
        match args[0] {
            Value::String(s) => {
                let t = str_of(h, s);
                match slice_range(utf8_len(t) as usize, args) {
                    SliceRange::Fail(o) => (h, o),
                    SliceRange::Range(a, e) => if a <= e {
                        match (char_index_at(t, a as int), char_index_at(t, e as int)) {
                            (Some(i), Some(j)) => (h.push(ObjV::Str(t.subrange(i, j))), NativeOutV::Value(Value::String(h.len() as usize))),
                            (None, _) => (h, NativeOutV::Abort(boundary_msg(a))),
                            (_, None) => (h, NativeOutV::Abort(boundary_msg(e))),
                        }
                    } else {
                        (h.push(ObjV::Str(Seq::empty())), NativeOutV::Value(Value::String(h.len() as usize)))
                    },
                }
            },
            Value::Array(x) => {
                let v = arr_of(h, x);
                match slice_range(v.len() as usize, args) {
                    SliceRange::Fail(o) => (h, o),
                    SliceRange::Range(a, e) => if a <= e {
                        (h.push(ObjV::Array(v.subrange(a as int, e as int))), NativeOutV::Value(Value::Array(h.len() as usize)))
                    } else {
                        (h.push(ObjV::Array(Seq::empty())), NativeOutV::Value(Value::Array(h.len() as usize)))
                    },
                }
            },
            _ => (h, NativeOutV::Raise(type_msg("slice"@, "String or Array as 1st arg"@, args[0]))),
        }
    }
}

pub fn native_slice(heap: &mut Heap, args: &Vec<Value>, Ghost(b): Ghost<Bounds>) -> (r: NativeOut)
    requires
        heap_wf(old(heap)@, b),
        values_ok(old(heap)@, b, args@),
    ensures
        (final(heap)@, r@) == slice_spec(old(heap)@, args@),
        native_post(old(heap)@, final(heap)@, b, r@),
{
    if args.len() < 2 || args.len() > 3 {
        return arg_count_error("slice", "2 or 3 arguments", args.len());
    }
    assert(value_ok(heap@, b, args@[0]));
    match args[0] {
        Value::String(s) => {
            let text = heap.str_chars(s);
            let len = utf8_count(text) as usize;
            let (a, e) = match slice_range_exec(len, args) {
                Ok(p) => p,
                Err(o) => { return o; },
            };
            if a <= e {
                let i = match char_index(text, a) {
                    Some(i) => i,
                    None => {
                        let mut m = Vec::new();
                        push_str(&mut m, "byte index ");
                        push_u64(&mut m, a as u64);
                        push_str(&mut m, " is not a char boundary");
                        assert(m@ =~= boundary_msg(a));
                        return NativeOut::Abort(m);
                    },
                };
                let j = match char_index(text, e) {
                    Some(j) => j,
                    None => {
                        let mut m = Vec::new();
                        push_str(&mut m, "byte index ");
                        push_u64(&mut m, e as u64);
                        push_str(&mut m, " is not a char boundary");
                        assert(m@ =~= boundary_msg(e));
                        return NativeOut::Abort(m);
                    },
                };
                proof {
                    lemma_char_index_order(text@, a as int, e as int);
                }
                let mut out: Vec<char> = Vec::new();
                let mut k = i;
                while k < j
                    invariant
                        i <= k <= j <= text@.len(),
                        out@ == text@.subrange(i as int, k as int),
                    decreases j - k,
                {
                    out.push(text[k]);
                    k = k + 1;
                    assert(out@ =~= text@.subrange(i as int, k as int));
                }
                let n = heap.alloc_str(out, Ghost(b));
                NativeOut::Value(Value::String(n))
            } else {
                let n = heap.alloc_str(Vec::new(), Ghost(b));
                assert(heap@ =~= old(heap)@.push(ObjV::Str(Seq::empty())));
                NativeOut::Value(Value::String(n))
            }
        },
        Value::Array(x) => {
            let len = heap.arr_len(x);
            let (a, e) = match slice_range_exec(len, args) {
                Ok(p) => p,
                Err(o) => { return o; },
            };
            let ghost h0 = heap@;
            proof {
                assert(crate::heap::obj_ok(h0, b, h0[x as int]));
            }
            let mut out: Vec<Value> = Vec::new();
            if a <= e {
                let mut k = a;
                while k < e
                    invariant
                        a <= k <= e <= arr_of(h0, x).len(),
                        heap@ == h0,
                        x < h0.len() && h0[x as int] is Array,
                        out@ == arr_of(h0, x).subrange(a as int, k as int),
                    decreases e - k,
                {
                    out.push(heap.arr_get(x, k));
                    k = k + 1;
                    assert(out@ =~= arr_of(h0, x).subrange(a as int, k as int));
                }
            }
            assert(values_ok(h0, b, out@)) by {
                assert forall|j: int| 0 <= j < out@.len() implies value_ok(h0, b, #[trigger] out@[j]) by {
                    assert(out@[j] == arr_of(h0, x)[a + j]);
                }
            }
            let n = heap.alloc_arr(out, Ghost(b));
            proof {
                if a > e {
                    assert(out@ =~= Seq::<Value>::empty());
                }
            }
            NativeOut::Value(Value::Array(n))
        },
        _ => type_error("slice", "String or Array as 1st arg", args[0]),
    }
}

/// Character indices of byte offsets keep their order.
proof fn lemma_char_index_order(t: Seq<char>, a: int, e: int)
    requires
        a <= e,
        char_index_at(t, a) is Some,
        char_index_at(t, e) is Some,
    ensures
        char_index_at(t, a)->0 <= char_index_at(t, e)->0,
{
    let i = char_index_at(t, a)->0;
    let j = char_index_at(t, e)->0;
    if j < i {
        crate::strtext::lemma_utf8_take_mono(t, j, i);
    }
}

} // verus!
