//! The values the stack machine computes with, and the operations on them
//! that both engines of the language share.
use vstd::prelude::*;
use crate::ast::{kind_name, Field, TypeKind};
use crate::error::OnfexError;
use crate::text::{i64_to_string, owned, push_str, signed_decimal, str_eq};
use crate::v2::decimal::{abs, tdiv};

verus! {

broadcast use vstd::string::group_string_axioms;

/// A value. A floating-point number is kept as the text that displays it; a
/// `strouct` instance is a handle into the machine's store of instances, so
/// that every copy of it sees the same fields.
#[derive(Debug)]
pub enum Value {
    Int(i64),
    Float(String),
    Str(String),
    Bool(bool),
    Void,
    /// A function, by name.
    Func(String),
    /// A `strouct` type, by name.
    StructType(String),
    /// A `strouct` instance.
    Struct(usize),
}

/// A value with its kind.
#[derive(Debug)]
pub struct Type {
    pub kind: TypeKind,
    pub value: Value,
}

impl Value {
    /// A copy of this value.
    pub fn duplicate(&self) -> (r: Value)
        ensures
            r == *self,
    {
        match self {
            Value::Int(x) => Value::Int(*x),
            Value::Float(s) => Value::Float(s.clone()),
            Value::Str(s) => Value::Str(s.clone()),
            Value::Bool(b) => Value::Bool(*b),
            Value::Void => Value::Void,
            Value::Func(s) => Value::Func(s.clone()),
            Value::StructType(s) => Value::StructType(s.clone()),
            Value::Struct(h) => Value::Struct(*h),
        }
    }
}

impl Type {
    /// A value of the given kind.
    pub fn new(kind: TypeKind, value: Value) -> (r: Self)
        ensures
            r.kind == kind,
            r.value == value,
    {
        Type { kind, value }
    }

    /// The void value `noph`.
    #[allow(non_snake_case)]
    pub fn newVoid() -> (r: Self)
        ensures
            r.kind == TypeKind::Void,
            r.value == Value::Void,
    {
        Type { kind: TypeKind::Void, value: Value::Void }
    }

    /// A copy of this value.
    pub fn duplicate(&self) -> (r: Type)
        ensures
            r == *self,
    {
        Type { kind: self.kind, value: self.value.duplicate() }
    }
}

/// Whether a condition counts as true: `nophe` does not, a `booltg` does
/// when it is `trunth`, and a value of any other kind does.
pub open spec fn truthy_value(v: Type) -> bool {
    match v.kind {
        TypeKind::Void => false,
        TypeKind::Bool => v.value == Value::Bool(true),
        _ => true,
    }
}

/// Whether a condition counts as true (see `truthy_value`).
pub fn is_truthy(v: &Type) -> (r: bool)
    ensures
        r == truthy_value(*v),
{
    match v.kind {
        TypeKind::Void => false,
        TypeKind::Bool => matches!(v.value, Value::Bool(true)),
        _ => true,
    }
}

/// Whether a value of kind `k` may be returned where `out` is declared:
/// `Srel` accepts any `strouct` instance, other kinds compare by name.
pub open spec fn returns_as(out: TypeKind, k: TypeKind) -> bool {
    if out == TypeKind::Srel { k == TypeKind::StrctT } else { kind_name(k) == kind_name(out) }
}

/// Whether a returned value matches the declared result kind: `Srel`
/// accepts any `strouct` instance, other kinds compare by name.
pub fn check_return_kind(out: &TypeKind, v: &Type) -> (r: bool)
    ensures
        r == returns_as(*out, v.kind),
{
    if matches!(out, TypeKind::Srel) {
        matches!(v.kind, TypeKind::StrctT)
    } else {
        v.kind.equal(*out)
    }
}

/// The message of reading a private field from outside its `strouct`.
pub open spec fn private_field_message(field: Seq<char>, owner: Seq<char>) -> Seq<char> {
    "WrossnosStrouct Ern: '"@ + field + "' alt '"@ + owner + "' priv esp gephnosan (impelnos disponden erisim)"@
}

/// A public field may be used from anywhere, a private one only from inside
/// the methods of its own `strouct` (`current_struct`).
pub fn check_field_visibility(struct_name: &str, field: &Field, current_struct: &Option<String>) -> (r: Result<(), OnfexError>)
    ensures
        (field.glb || (current_struct is Some && current_struct->Some_0@ == struct_name@)) ==> r is Ok,
        !(field.glb || (current_struct is Some && current_struct->Some_0@ == struct_name@)) ==> match r {
            Err(OnfexError::Runtime { message }) => message@ == private_field_message(field.name@, struct_name@),
            _ => false,
        },
{
    if field.glb {
        return Ok(());
    }
    match current_struct {
        Some(s) => {
            if str_eq(s.as_str(), struct_name) {
                return Ok(());
            }
        },
        None => {},
    }
    let mut m = owned("WrossnosStrouct Ern: '");
    push_str(&mut m, field.name.as_str());
    push_str(&mut m, "' alt '");
    push_str(&mut m, struct_name);
    push_str(&mut m, "' priv esp gephnosan (impelnos disponden erisim)");
    Err(OnfexError::runtime(m))
}

/// What a binary operator gives, when it does not fail.
#[derive(Debug)]
pub enum BinResult {
    /// The result.
    Value(Type),
    /// Floating-point arithmetic or comparison on the two operands (an
    /// integer operand stands for the same number as a float): left to the
    /// caller, which computes with floats.
    Float(Value, Value),
    /// Integer arithmetic that overflows, which aborts the program.
    Overflow(String),
}

/// The operators that apply to two numbers.
pub open spec fn numeric_op(op: Seq<char>) -> bool {
    op == "+"@ || op == "-"@ || op == "*"@ || op == "/"@ || op == "<"@ || op == ">"@ || op == "<="@
        || op == ">="@ || op == "=="@
}

pub open spec fn in_i64(v: int) -> bool {
    i64::MIN <= v <= i64::MAX
}

/// What a binary operator on two integers gives.
pub enum IntOutcome {
    Value(Value),
    /// The arithmetic overflows `i64` (which aborts the program).
    Overflow,
    DivZero,
    BadOp,
}

/// The outcome of the operator `op` on the integers `a` and `b`: arithmetic
/// (division truncates), or a comparison.
pub open spec fn int_outcome(a: int, op: Seq<char>, b: int) -> IntOutcome {
    if op == "+"@ {
        if in_i64(a + b) { IntOutcome::Value(Value::Int((a + b) as i64)) } else { IntOutcome::Overflow }
    } else if op == "-"@ {
        if in_i64(a - b) { IntOutcome::Value(Value::Int((a - b) as i64)) } else { IntOutcome::Overflow }
    } else if op == "*"@ {
        if in_i64(a * b) { IntOutcome::Value(Value::Int((a * b) as i64)) } else { IntOutcome::Overflow }
    } else if op == "/"@ {
        if b == 0 {
            IntOutcome::DivZero
        } else if in_i64(tdiv(a, b)) {
            IntOutcome::Value(Value::Int(tdiv(a, b) as i64))
        } else {
            IntOutcome::Overflow
        }
    } else if op == "<"@ {
        IntOutcome::Value(Value::Bool(a < b))
    } else if op == ">"@ {
        IntOutcome::Value(Value::Bool(a > b))
    } else if op == "<="@ {
        IntOutcome::Value(Value::Bool(a <= b))
    } else if op == ">="@ {
        IntOutcome::Value(Value::Bool(a >= b))
    } else if op == "=="@ {
        IntOutcome::Value(Value::Bool(a == b))
    } else {
        IntOutcome::BadOp
    }
}

/// The kind of a value an integer operator gives.
pub open spec fn value_kind(v: Value) -> TypeKind {
    match v {
        Value::Int(_) => TypeKind::Int,
        Value::Bool(_) => TypeKind::Bool,
        _ => TypeKind::Void,
    }
}

/// Whether `res` is what the integer outcome `o` of operator `op` calls for.
pub open spec fn int_res_ok(o: IntOutcome, op: Seq<char>, res: Result<BinResult, OnfexError>) -> bool {
    match o {
        IntOutcome::Value(v) => res == Ok::<BinResult, OnfexError>(BinResult::Value(Type { kind: value_kind(v), value: v })),
        IntOutcome::Overflow => res matches Ok(BinResult::Overflow(_)),
        IntOutcome::DivZero => (res matches Err(OnfexError::Runtime { message })
            && message@ == "Sifrhen Ern: sifrhen tarafalt bölnos oft nophe"@),
        IntOutcome::BadOp => (res matches Err(OnfexError::Runtime { message })
            && message@ == "WrossnosOp Ern: '"@ + op + "' oft alnos nophe"@),
    }
}

/// Whether a value is a number.
pub open spec fn is_number(v: Value) -> bool {
    v is Int || v is Float
}

fn wrossnos_op(op: &str) -> (e: OnfexError)
    ensures
        (e matches OnfexError::Runtime { message } && message@ == "WrossnosOp Ern: '"@ + op@ + "' oft alnos nophe"@),
{
    let mut m = owned("WrossnosOp Ern: '");
    push_str(&mut m, op);
    push_str(&mut m, "' oft alnos nophe");
    OnfexError::runtime(m)
}

/// Division truncating towards zero (Rust's `/`), computed by dividing by
/// positive numbers only.
fn trunc_div(a: i64, b: i64) -> (q: i64)
    requires
        b != 0,
        !(a == i64::MIN && b == -1),
    ensures
        q as int == tdiv(a as int, b as int),
{
    if b > 0 {
        a / b
    } else if b == i64::MIN {
        if a == i64::MIN {
            assert(abs(a as int) / abs(b as int) == 1) by (nonlinear_arith)
                requires abs(a as int) == abs(b as int), abs(b as int) > 0;
            1
        } else {
            assert(abs(a as int) / abs(b as int) == 0) by (nonlinear_arith)
                requires abs(a as int) < abs(b as int), abs(a as int) >= 0;
            0
        }
    } else {
        let nb: i64 = -b;
        let q = a / nb;
        assert(q as int == tdiv(a as int, nb as int));
        if nb == 1 {
            assert(abs(q as int) == abs(a as int)) by (nonlinear_arith)
                requires abs(q as int) == abs(a as int) / abs(nb as int), abs(nb as int) == 1;
        } else {
            assert(abs(q as int) <= abs(a as int) / 2) by (nonlinear_arith)
                requires abs(q as int) == abs(a as int) / abs(nb as int), abs(nb as int) >= 2, abs(a as int) >= 0;
        }
        -q
    }
}

/// An operator on two integers.
fn int_binop(a: i64, op: &str, b: i64) -> (res: Result<BinResult, OnfexError>)
    ensures
        int_res_ok(int_outcome(a as int, op@, b as int), op@, res),
{
    if str_eq(op, "+") {
        let r = match a.checked_add(b) {
            Some(v) => Ok(BinResult::Value(Type::new(TypeKind::Int, Value::Int(v)))),
            None => Ok(BinResult::Overflow(owned("attempt to add with overflow"))),
        };
        r
    } else if str_eq(op, "-") {
        let r = match a.checked_sub(b) {
            Some(v) => Ok(BinResult::Value(Type::new(TypeKind::Int, Value::Int(v)))),
            None => Ok(BinResult::Overflow(owned("attempt to subtract with overflow"))),
        };
        r
    } else if str_eq(op, "*") {
        let r = match a.checked_mul(b) {
            Some(v) => Ok(BinResult::Value(Type::new(TypeKind::Int, Value::Int(v)))),
            None => Ok(BinResult::Overflow(owned("attempt to multiply with overflow"))),
        };
        r
    } else if str_eq(op, "/") {
        if b == 0 {
            return Err(OnfexError::runtime(owned("Sifrhen Ern: sifrhen tarafalt bölnos oft nophe")));
        }
        if a == i64::MIN && b == -1 {
            assert(abs(a as int) == 9223372036854775808nat);
            assert(abs(b as int) == 1nat);
            assert(9223372036854775808nat / 1nat == 9223372036854775808nat);
            assert(tdiv(a as int, b as int) == 9223372036854775808int);
            return Ok(BinResult::Overflow(owned("attempt to divide with overflow")));
        }
        let q = trunc_div(a, b);
        Ok(BinResult::Value(Type::new(TypeKind::Int, Value::Int(q))))
    } else if str_eq(op, "<") {
        Ok(BinResult::Value(Type::new(TypeKind::Bool, Value::Bool(a < b))))
    } else if str_eq(op, ">") {
        Ok(BinResult::Value(Type::new(TypeKind::Bool, Value::Bool(a > b))))
    } else if str_eq(op, "<=") {
        Ok(BinResult::Value(Type::new(TypeKind::Bool, Value::Bool(a <= b))))
    } else if str_eq(op, ">=") {
        Ok(BinResult::Value(Type::new(TypeKind::Bool, Value::Bool(a >= b))))
    } else if str_eq(op, "==") {
        Ok(BinResult::Value(Type::new(TypeKind::Bool, Value::Bool(a == b))))
    } else {
        Err(wrossnos_op(op))
    }
}

/// The message of a binary operator that fails on operands that are not
/// both integers, if it fails.
pub open spec fn mixed_error(l: Type, op: Seq<char>, r: Type) -> Option<Seq<char>> {
    if is_number(l.value) && is_number(r.value) {
        if !numeric_op(op) { Some("WrossnosOp Ern: '"@ + op + "' oft alnos nophe"@) } else { None }
    } else if l.value is Str && r.value is Str {
        if op != "+"@ { Some("WrossnosOp Ern: sterge alt '"@ + op + "' oft alnos nophe"@) } else { None }
    } else {
        Some("Typect Ern: '"@ + op + "' oft "@ + kind_name(l.kind) + " alt "@ + kind_name(r.kind) + " arasalt alnos nophe"@)
    }
}

/// Applies a binary operator: integer arithmetic and comparison, string
/// concatenation with `+`; floating-point work is handed back to the caller.
pub fn binop(l: Type, op: &str, r: Type) -> (res: Result<BinResult, OnfexError>)
    ensures
        l.value is Int && r.value is Int ==> int_res_ok(int_outcome(l.value->Int_0 as int, op@, r.value->Int_0 as int), op@, res),
        !(l.value is Int && r.value is Int) && mixed_error(l, op@, r) is Some ==> (res matches Err(OnfexError::Runtime { message })
            && message@ == mixed_error(l, op@, r)->Some_0),
        !(l.value is Int && r.value is Int) && mixed_error(l, op@, r) is None && is_number(l.value) && is_number(r.value)
            ==> res == Ok::<BinResult, OnfexError>(BinResult::Float(l.value, r.value)),
        mixed_error(l, op@, r) is None && l.value is Str && r.value is Str ==> (res matches Ok(BinResult::Value(t))
            && t.kind == TypeKind::Str && t.value is Str && t.value->Str_0@ == l.value->Str_0@ + r.value->Str_0@),
{
    let l_int = matches!(l.value, Value::Int(_));
    let r_int = matches!(r.value, Value::Int(_));
    let l_num = matches!(l.value, Value::Int(_) | Value::Float(_));
    let r_num = matches!(r.value, Value::Int(_) | Value::Float(_));
    if l_int && r_int {
        let a = match l.value { Value::Int(a) => a, _ => 0 };
        let b = match r.value { Value::Int(b) => b, _ => 0 };
        return int_binop(a, op, b);
    }
    if l_num && r_num {
        let is_numeric = str_eq(op, "+") || str_eq(op, "-") || str_eq(op, "*") || str_eq(op, "/") || str_eq(op, "<")
            || str_eq(op, ">") || str_eq(op, "<=") || str_eq(op, ">=") || str_eq(op, "==");
        if is_numeric {
            return Ok(BinResult::Float(l.value, r.value));
        }
        return Err(wrossnos_op(op));
    }
    match (&l.value, &r.value) {
        (Value::Str(a), Value::Str(b)) => {
            if str_eq(op, "+") {
                let mut c = owned(a.as_str());
                push_str(&mut c, b.as_str());
                return Ok(BinResult::Value(Type::new(TypeKind::Str, Value::Str(c))));
            } else {
                let mut m = owned("WrossnosOp Ern: sterge alt '");
                push_str(&mut m, op);
                push_str(&mut m, "' oft alnos nophe");
                return Err(OnfexError::runtime(m));
            }
        },
        _ => {},
    }
    let mut m = owned("Typect Ern: '");
    push_str(&mut m, op);
    push_str(&mut m, "' oft ");
    let lk = l.kind.to_string();
    push_str(&mut m, lk.as_str());
    push_str(&mut m, " alt ");
    let rk = r.kind.to_string();
    push_str(&mut m, rk.as_str());
    push_str(&mut m, " arasalt alnos nophe");
    Err(OnfexError::runtime(m))
}

} // verus!
