//! The compiled form of a program: flat instruction lists ("chunks") for the
//! main program, each function and each method, and the tables the machine
//! looks names up in.
use vstd::prelude::*;
use crate::ast::{Field, Param, TypeKind};

verus! {

/// One instruction of the stack machine. A floating-point constant is kept as
/// the text of its literal.
#[derive(Debug)]
pub enum OpCode {
    PushInt(i64),
    PushFloat(String),
    PushStr(String),
    PushBool(bool),
    PushVoid,
    Pop,
    Dup,
    /// Pops a value, binds it in the innermost scope, pushes it back.
    DefineVar(String),
    /// Pops a value, stores it in the nearest scope that has the name,
    /// pushes it back.
    SetVar(String),
    GetVar(String),
    GetField(String),
    /// Pops the value and the receiver, stores the field, pushes the value.
    SetField(String),
    BinOp(String),
    /// Pops the condition and jumps to the absolute position when it is false.
    JumpIfFalse(usize),
    Jump(usize),
    EnterScope,
    ExitScope,
    /// Name and number of arguments.
    CallFunction(String, usize),
    /// A built-in (`name!(...)`): name and number of arguments.
    CallBuiltin(String, usize),
    /// A method: name and number of arguments (the receiver is below them).
    CallMethod(String, usize),
    /// A `strouct` instance: its type, and the names of the fields whose
    /// values were pushed, in the order they were pushed.
    NewStruct(String, Vec<String>),
    DefineFunction(String),
    DefineStruct(String),
    Return,
}

impl OpCode {
    /// A copy of this instruction.
    pub fn duplicate(&self) -> (r: OpCode)
        ensures
            match (*self, r) {
                (OpCode::NewStruct(a, v), OpCode::NewStruct(b, w)) => a == b && v@ == w@,
                _ => r == *self,
            },
    {
        match self {
            OpCode::PushInt(x) => OpCode::PushInt(*x),
            OpCode::PushFloat(s) => OpCode::PushFloat(s.clone()),
            OpCode::PushStr(s) => OpCode::PushStr(s.clone()),
            OpCode::PushBool(b) => OpCode::PushBool(*b),
            OpCode::PushVoid => OpCode::PushVoid,
            OpCode::Pop => OpCode::Pop,
            OpCode::Dup => OpCode::Dup,
            OpCode::DefineVar(s) => OpCode::DefineVar(s.clone()),
            OpCode::SetVar(s) => OpCode::SetVar(s.clone()),
            OpCode::GetVar(s) => OpCode::GetVar(s.clone()),
            OpCode::GetField(s) => OpCode::GetField(s.clone()),
            OpCode::SetField(s) => OpCode::SetField(s.clone()),
            OpCode::BinOp(s) => OpCode::BinOp(s.clone()),
            OpCode::JumpIfFalse(t) => OpCode::JumpIfFalse(*t),
            OpCode::Jump(t) => OpCode::Jump(*t),
            OpCode::EnterScope => OpCode::EnterScope,
            OpCode::ExitScope => OpCode::ExitScope,
            OpCode::CallFunction(s, n) => OpCode::CallFunction(s.clone(), *n),
            OpCode::CallBuiltin(s, n) => OpCode::CallBuiltin(s.clone(), *n),
            OpCode::CallMethod(s, n) => OpCode::CallMethod(s.clone(), *n),
            OpCode::NewStruct(s, v) => OpCode::NewStruct(s.clone(), crate::ast::clone_strings(v)),
            OpCode::DefineFunction(s) => OpCode::DefineFunction(s.clone()),
            OpCode::DefineStruct(s) => OpCode::DefineStruct(s.clone()),
            OpCode::Return => OpCode::Return,
        }
    }
}

/// A flat list of instructions; jumps are absolute positions in it.
#[derive(Debug)]
pub struct Chunk {
    pub code: Vec<OpCode>,
}

impl Chunk {
    /// An empty chunk.
    pub fn new() -> (r: Self)
        ensures
            r.code@.len() == 0,
    {
        Chunk { code: Vec::new() }
    }
}

/// What a call needs to know of a function or method: its parameters and its
/// declared result kind (its code is kept apart, as a chunk).
#[derive(Debug)]
pub struct FunctionMeta {
    pub params: Vec<Param>,
    pub out: TypeKind,
}

/// A `strouct` type: its name, fields and methods, each name once, in source
/// order.
#[derive(Debug)]
pub struct StructType {
    pub name: String,
    pub fields: Vec<(String, Field)>,
    pub methods: Vec<(String, FunctionMeta)>,
}

/// A compiled program. Functions, their descriptions, methods (under
/// `Type::method`) and `strouct` types are association lists, each name once,
/// in the order they were compiled.
#[derive(Debug)]
pub struct Program {
    pub main: Chunk,
    pub functions: Vec<(String, Chunk)>,
    pub function_meta: Vec<(String, FunctionMeta)>,
    pub methods: Vec<(String, Chunk)>,
    pub struct_types: Vec<(String, StructType)>,
}

impl Program {
    /// An empty program.
    pub fn new() -> (r: Self)
        ensures
            r.main.code@.len() == 0,
            r.functions@.len() == 0,
            r.function_meta@.len() == 0,
            r.methods@.len() == 0,
            r.struct_types@.len() == 0,
    {
        Program {
            main: Chunk::new(),
            functions: Vec::new(),
            function_meta: Vec::new(),
            methods: Vec::new(),
            struct_types: Vec::new(),
        }
    }
}

/// Whether every jump of `code` lands inside it (at most one past its last
/// instruction, which ends the chunk).
pub open spec fn jumps_in_range(code: Seq<OpCode>) -> bool {
    forall|i: int|
        0 <= i < code.len() ==> match #[trigger] code[i] {
            OpCode::Jump(t) => t <= code.len(),
            OpCode::JumpIfFalse(t) => t <= code.len(),
            _ => true,
        }
}

/// How many values an instruction needs on the stack, and by how much it
/// changes the height of the stack, when it does not jump or return.
pub open spec fn op_effect(op: OpCode) -> (int, int) {
    match op {
        OpCode::PushInt(_) => (0, 1),
        OpCode::PushFloat(_) => (0, 1),
        OpCode::PushStr(_) => (0, 1),
        OpCode::PushBool(_) => (0, 1),
        OpCode::PushVoid => (0, 1),
        OpCode::Pop => (1, -1),
        OpCode::Dup => (1, 1),
        OpCode::DefineVar(_) => (1, 0),
        OpCode::SetVar(_) => (1, 0),
        OpCode::GetVar(_) => (0, 1),
        OpCode::GetField(_) => (1, 0),
        OpCode::SetField(_) => (2, -1),
        OpCode::BinOp(_) => (2, -1),
        OpCode::JumpIfFalse(_) => (1, -1),
        OpCode::Jump(_) => (0, 0),
        OpCode::EnterScope => (0, 0),
        OpCode::ExitScope => (0, 0),
        OpCode::CallFunction(_, n) => (n as int, 1 - n),
        OpCode::CallBuiltin(_, n) => (n as int, 1 - n),
        OpCode::CallMethod(_, n) => (n + 1, -n),
        OpCode::NewStruct(_, names) => (names.len() as int, 1 - names.len()),
        OpCode::DefineFunction(_) => (0, 1),
        OpCode::DefineStruct(_) => (0, 1),
        OpCode::Return => (1, -1),
    }
}

/// Whether an instruction can leave the straight line: a jump or a return.
pub open spec fn leaves_line(op: OpCode) -> bool {
    op is Jump || op is JumpIfFalse || op is Return
}

/// The height of the stack after running the straight-line `code` from
/// height `d`, or `None` when it would take a value from an empty stack or
/// meets a jump or a return.
pub open spec fn depth_after(code: Seq<OpCode>, d: int) -> Option<int>
    decreases code.len(),
{
    if code.len() == 0 {
        Some(d)
    } else {
        match depth_after(code.drop_last(), d) {
            None => None,
            Some(d1) => {
                let (need, delta) = op_effect(code.last());
                if d1 >= need && !leaves_line(code.last()) {
                    Some(d1 + delta)
                } else {
                    None
                }
            },
        }
    }
}

/// Running `a` and then `b` is running `a + b`.
pub proof fn lemma_depth_concat(a: Seq<OpCode>, b: Seq<OpCode>, d: int)
    ensures
        depth_after(a + b, d) == match depth_after(a, d) {
            None => None,
            Some(d1) => depth_after(b, d1),
        },
    decreases b.len(),
{
    if b.len() == 0 {
        assert(a + b =~= a);
    } else {
        lemma_depth_concat(a, b.drop_last(), d);
        assert((a + b).drop_last() =~= a + b.drop_last());
        assert((a + b).last() == b.last());
        match depth_after(a, d) {
            None => {
                assert(depth_after(a + b.drop_last(), d) is None);
            },
            Some(d1) => {},
        }
    }
}

} // verus!
