//! The types of WebAssembly values and functions.
use vstd::prelude::*;

verus! {

/// An integer type.
#[derive(Clone, Copy, Debug, PartialEq, Eq, Structural)]
pub enum Int {
    I32,
    I64,
}

/// A floating-point type.
#[derive(Clone, Copy, Debug, PartialEq, Eq, Structural)]
pub enum Float {
    F32,
    F64,
}

/// The type of a value.
#[derive(Clone, Copy, Debug, PartialEq, Eq, Structural)]
pub enum Value {
    Int(Int),
    Float(Float),
}

/// The type of a function.
#[derive(Debug)]
pub struct Func {
    pub args: Vec<Value>,
    pub result: Vec<Value>,
}

impl Clone for Func {
    fn clone(&self) -> (copy: Func)
        ensures
            copy.args@ == self.args@,
            copy.result@ == self.result@,
    {
        Func { args: copy_values(&self.args), result: copy_values(&self.result) }
    }
}

/// A copy of a list of types.
pub fn copy_values(list: &Vec<Value>) -> (copy: Vec<Value>)
    ensures
        copy@ == list@,
{
    vstd::slice::slice_to_vec(list.as_slice())
}

/// Whether the two lists hold the same types.
pub fn same_values(a: &[Value], b: &[Value]) -> (same: bool)
    ensures
        same == (a@ == b@),
{
    if a.len() != b.len() {
        return false;
    }
    let mut i: usize = 0;
    while i < a.len()
        invariant
            i <= a@.len(),
            a@.len() == b@.len(),
            forall|j: int| 0 <= j < i ==> a@[j] == b@[j],
        decreases a@.len() - i,
    {
        if a[i] != b[i] {
            assert(a@[i as int] != b@[i as int]);
            return false;
        }
        i += 1;
    }
    assert(a@ =~= b@);
    true
}

/// How a type is written.
pub open spec fn kind_name(value: Value) -> Seq<char> {
    match value {
        Value::Int(Int::I32) => "i32"@,
        Value::Int(Int::I64) => "i64"@,
        Value::Float(Float::F32) => "f32"@,
        Value::Float(Float::F64) => "f64"@,
    }
}

/// A list of types, with a comma and a space between them.
pub open spec fn type_list(values: Seq<Value>) -> Seq<char> {
    crate::text::joined(Seq::new(values.len(), |i: int| kind_name(values[i])), ", "@)
}

/// How a function type is written.
pub open spec fn signature_text(args: Seq<Value>, result: Seq<Value>) -> Seq<char> {
    "("@ + type_list(args) + ") -> ("@ + type_list(result) + ")"@
}

/// What the search for a host function has found.
pub open spec fn lookup_result<T>(found: Result<T, &'static str>) -> Result<T, Seq<char>> {
    match found {
        Ok(func) => Ok(func),
        Err(expected) => Err(expected@),
    }
}

/// The type `i32`.
pub open spec fn word() -> Value {
    Value::Int(Int::I32)
}

/// The type `i64`.
pub open spec fn long() -> Value {
    Value::Int(Int::I64)
}

/// How a list of types grows with its last member.
pub proof fn lemma_type_list_push(values: Seq<Value>, value: Value)
    ensures
        type_list(Seq::<Value>::empty()) == Seq::<char>::empty(),
        type_list(seq![value]) == kind_name(value),
        values.len() > 0 ==> type_list(values.push(value)) == type_list(values) + ", "@
            + kind_name(value),
{
    let names = Seq::new(values.len(), |i: int| kind_name(values[i]));
    let more = values.push(value);
    let more_names = Seq::new(more.len(), |i: int| kind_name(more[i]));
    assert(more_names.drop_last() =~= names);
}

/// How the first `n` types of a list are written.
pub proof fn lemma_first_kinds(values: Seq<Value>, n: nat)
    requires
        0 < n <= values.len(),
    ensures
        type_list(values.take(n as int)) == first_kinds(values, n),
    decreases n,
{
    if n == 1 {
        lemma_type_list_push(seq![], values[0]);
        assert(values.take(1) =~= seq![values[0]]);
    } else {
        let k = (n - 1) as nat;
        lemma_first_kinds(values, k);
        lemma_type_list_push(values.take(k as int), values[k as int]);
        assert(values.take(k as int).push(values[k as int]) =~= values.take(n as int));
    }
}

/// The first `n` types of a list, with a comma and a space between them.
pub open spec fn first_kinds(values: Seq<Value>, n: nat) -> Seq<char>
    decreases n,
{
    if n <= 1 {
        kind_name(values[0])
    } else {
        first_kinds(values, (n - 1) as nat) + ", "@ + kind_name(values[n - 1])
    }
}

/// How a type is written.
pub fn kind_text(value: Value) -> (text: &'static str)
    ensures
        text@ == kind_name(value),
{
    match value {
        Value::Int(Int::I32) => "i32",
        Value::Int(Int::I64) => "i64",
        Value::Float(Float::F32) => "f32",
        Value::Float(Float::F64) => "f64",
    }
}

/// How types and signatures are written.
pub proof fn law_written_signatures(args: Seq<Value>, result: Seq<Value>)
    ensures
        kind_name(Value::Int(Int::I32)) == "i32"@,
        kind_name(Value::Int(Int::I64)) == "i64"@,
        kind_name(Value::Float(Float::F32)) == "f32"@,
        kind_name(Value::Float(Float::F64)) == "f64"@,
        type_list(args) == crate::text::joined(
            args.map_values(|value: Value| kind_name(value)),
            ", "@,
        ),
        signature_text(args, result) == "("@ + type_list(args) + ") -> ("@ + type_list(result)
            + ")"@,
        word() == Value::Int(Int::I32),
        long() == Value::Int(Int::I64),
{
    assert(Seq::new(args.len(), |i: int| kind_name(args[i])) =~= args.map_values(
        |value: Value| kind_name(value),
    ));
}

/// What the search for a host function has found is what it says.
pub proof fn law_lookup_results<T>(func: T, expected: &'static str)
    ensures
        lookup_result(Ok::<T, &'static str>(func)) == Ok::<T, Seq<char>>(func),
        lookup_result(Err::<T, &'static str>(expected)) == Err::<T, Seq<char>>(expected@),
{
}

} // verus!
