//! The tree-walking engine: runs a program directly from its syntax tree,
//! with an environment of nested scopes that map names to addresses and
//! addresses to values.
//!
//! Its outside work (printing, reading a line or a file, running a shell
//! command, floating-point arithmetic) is asked of the caller. A run is replayed from the start with
//! the answers given so far: every step is determined by the program and by
//! those answers, so a run that needs one more answer stops with the request
//! for it, and the caller runs again with the answer added.
use vstd::prelude::*;
use crate::assoc::{find_key, first_key, lemma_first_key, lemma_set_key_reads_back, set_key, sorted_positions, trim, trimmed};
use crate::ast::{clone_fields, clone_params, copy_stmts, snode_same, stmts_same, kind_name, Expr, ExprNode, Field, Param, Stmt, StmtNode, TypeKind};
use crate::token::Tok;
use crate::lexer::{lex_at, ws_end, Lexer};
use crate::parser::{lex_nth, single_token, source_ok, syntax_error, Parser};
use crate::error::OnfexError;
use crate::names::{check_string, name_chars};
use crate::ostools::{split_command, split_on, split_pieces};
use crate::text::{chars_of, i64_to_string, decimal, owned, push_decimal, push_str, replace_all, replaced, signed_decimal, str_eq};
use crate::values::{binop, check_field_visibility, check_return_kind, in_i64, int_outcome, returns_as, is_number, is_truthy, truthy_value, mixed_error, value_kind, BinResult, IntOutcome, Type, Value};
use crate::vm::{binop_step, fill, fill_placeholders, Event, Step};

verus! {

broadcast use vstd::string::group_string_axioms;

/// A value of the tree-walking engine.
#[derive(Debug)]
pub enum IValue {
    Int(i64),
    /// A floating-point number, as the text that displays it.
    Float(String),
    Str(String),
    Bool(bool),
    Void,
    /// A function: its position in the table of functions.
    Func(usize),
    /// A `strouct` type: its position in the table of types.
    StructType(usize),
    /// A `strouct` instance: its position in the store of instances.
    Struct(usize),
    /// A list literal: the name of its list type, and its items.
    Array(String, Vec<IType>),
    /// A map literal: the name of its map type, and its entries.
    Buffer(String, Vec<(IType, IType)>),
    /// The arguments collected by a parameter marked `!`.
    Vect(usize, Vec<IType>),
    /// The address of a variable.
    Ref(usize),
    /// A value marked to be spread into the arguments of a call.
    Sprd(Box<IType>),
    /// A built-in, by name.
    Macro(String),
}

/// A value with its kind.
#[derive(Debug)]
pub struct IType {
    pub kind: TypeKind,
    pub value: IValue,
}

impl IType {
    pub fn new(kind: TypeKind, value: IValue) -> (r: Self)
        ensures
            r.kind == kind,
            r.value == value,
    {
        IType { kind, value }
    }

    /// The value `nophe`.
    pub open spec fn void_spec() -> Self {
        IType { kind: TypeKind::Void, value: IValue::Void }
    }

    pub fn void() -> (r: Self)
        ensures
            r == Self::void_spec(),
    {
        IType { kind: TypeKind::Void, value: IValue::Void }
    }

    /// A copy of this value.
    pub fn duplicate(&self) -> (r: IType)
        ensures
            copied(r, *self),
        decreases self,
    {
        IType { kind: self.kind, value: self.value.duplicate() }
    }
}

/// Two values alike: of the same kind, and equal, except that of lists,
/// maps, collected arguments and spread values only the variant and its
/// name or count are compared.
pub open spec fn same_shape(a: IValue, b: IValue) -> bool {
    match (a, b) {
        (IValue::Array(n, _), IValue::Array(m, _)) => n == m,
        (IValue::Buffer(n, _), IValue::Buffer(m, _)) => n == m,
        (IValue::Vect(n, _), IValue::Vect(m, _)) => n == m,
        (IValue::Sprd(_), IValue::Sprd(_)) => true,
        _ => a == b,
    }
}

/// `a` is a copy of `b` (see `same_shape`).
pub open spec fn copied(a: IType, b: IType) -> bool {
    a.kind == b.kind && same_shape(a.value, b.value)
}

impl IValue {
    /// A copy of this value.
    pub fn duplicate(&self) -> (r: IValue)
        ensures
            same_shape(r, *self),
        decreases self,
    {
        match self {
            IValue::Int(x) => IValue::Int(*x),
            IValue::Float(s) => IValue::Float(s.clone()),
            IValue::Str(s) => IValue::Str(s.clone()),
            IValue::Bool(b) => IValue::Bool(*b),
            IValue::Void => IValue::Void,
            IValue::Func(i) => IValue::Func(*i),
            IValue::StructType(i) => IValue::StructType(*i),
            IValue::Struct(i) => IValue::Struct(*i),
            IValue::Array(n, items) => IValue::Array(n.clone(), copy_values(items)),
            IValue::Buffer(n, items) => IValue::Buffer(n.clone(), copy_entries(items)),
            IValue::Vect(n, items) => IValue::Vect(*n, copy_values(items)),
            IValue::Ref(a) => IValue::Ref(*a),
            IValue::Sprd(b) => IValue::Sprd(Box::new(b.duplicate())),
            IValue::Macro(s) => IValue::Macro(s.clone()),
        }
    }
}

/// Copies of a list of values.
pub fn copy_values(v: &Vec<IType>) -> (r: Vec<IType>)
    ensures
        r@.len() == v@.len(),
        forall|j: int| 0 <= j < v@.len() ==> copied(#[trigger] r@[j], v@[j]),
    decreases v,
{
    let mut r: Vec<IType> = Vec::new();
    let mut i: usize = 0;
    while i < v.len()
        invariant
            0 <= i <= v@.len(),
            r@.len() == i,
            forall|j: int| 0 <= j < i ==> copied(#[trigger] r@[j], v@[j]),
        decreases v@.len() - i,
    {
        proof { assert(decreases_to!(*v => v[i as int])); }
        r.push(v[i].duplicate());
        i = i + 1;
    }
    r
}

/// Copies of a list of map entries.
pub fn copy_entries(v: &Vec<(IType, IType)>) -> (r: Vec<(IType, IType)>)
    ensures
        r@.len() == v@.len(),
        forall|j: int| 0 <= j < v@.len() ==> copied(#[trigger] r@[j].0, v@[j].0) && copied(r@[j].1, v@[j].1),
    decreases v,
{
    let mut r: Vec<(IType, IType)> = Vec::new();
    let mut i: usize = 0;
    while i < v.len()
        invariant
            0 <= i <= v@.len(),
            r@.len() == i,
            forall|j: int| 0 <= j < i ==> copied(#[trigger] r@[j].0, v@[j].0) && copied(r@[j].1, v@[j].1),
        decreases v@.len() - i,
    {
        proof { assert(decreases_to!(*v => v[i as int])); }
        r.push((v[i].0.duplicate(), v[i].1.duplicate()));
        i = i + 1;
    }
    r
}

/// A function: parameters, body and declared result kind.
#[derive(Debug)]
pub struct FuncDef {
    pub params: Vec<Param>,
    pub body: Vec<StmtNode>,
    pub out: TypeKind,
}

/// A `strouct` type: its name, fields, and methods (positions in the table of
/// functions).
#[derive(Debug)]
pub struct IStructType {
    pub name: String,
    pub fields: Vec<(String, Field)>,
    pub methods: Vec<(String, usize)>,
}

/// A `strouct` instance: its type and the values of its fields.
#[derive(Debug)]
pub struct IInstance {
    pub base: usize,
    pub fields: Vec<(String, IType)>,
}

/// One scope: names to addresses, and the values at addresses stored here.
#[derive(Debug)]
pub struct Env {
    pub names: Vec<(String, usize)>,
    pub heap: Vec<(usize, IType)>,
}

/// The first position from `i` on that holds address `a`.
pub open spec fn address_from(heap: Seq<(usize, IType)>, a: usize, i: int) -> Option<int>
    decreases heap.len() - i,
{
    if i < 0 || i >= heap.len() {
        None
    } else if heap[i].0 == a {
        Some(i)
    } else {
        address_from(heap, a, i + 1)
    }
}

/// The first position of a scope's store that holds address `a`.
pub open spec fn first_address(heap: Seq<(usize, IType)>, a: usize) -> Option<int> {
    address_from(heap, a, 0)
}

proof fn lemma_address_from(heap: Seq<(usize, IType)>, a: usize, i: int)
    requires
        0 <= i,
    ensures
        match address_from(heap, a, i) {
            Some(k) => i <= k < heap.len() && heap[k].0 == a && forall|j: int| i <= j < k ==> #[trigger] heap[j].0 != a,
            None => forall|j: int| i <= j < heap.len() ==> #[trigger] heap[j].0 != a,
        },
    decreases heap.len() - i,
{
    if i < heap.len() && heap[i].0 != a {
        lemma_address_from(heap, a, i + 1);
    }
}

/// What `first_address` is: the least position holding `a`, if any.
pub proof fn lemma_first_address(heap: Seq<(usize, IType)>, a: usize)
    ensures
        match first_address(heap, a) {
            Some(k) => 0 <= k < heap.len() && heap[k].0 == a && forall|j: int| 0 <= j < k ==> #[trigger] heap[j].0 != a,
            None => forall|j: int| 0 <= j < heap.len() ==> #[trigger] heap[j].0 != a,
        },
{
    lemma_address_from(heap, a, 0);
}

/// A scope's store after `v` is stored at `a`: the first entry for `a` gets
/// it, or it is added at the end.
pub open spec fn stored(heap: Seq<(usize, IType)>, a: usize, v: IType) -> Seq<(usize, IType)> {
    match first_address(heap, a) {
        Some(i) => heap.update(i, (a, v)),
        None => heap.push((a, v)),
    }
}

/// A scope's names after `k` is bound to address `x` (as `set_key` does).
pub open spec fn rebound(names: Seq<(String, usize)>, k: String, x: usize) -> Seq<(String, usize)> {
    match first_key(names, k@) {
        Some(i) => names.update(i, (names[i].0, x)),
        None => names.push((k, x)),
    }
}

/// The position of the value stored at address `a` in a scope, if any.
pub fn find_address(heap: &Vec<(usize, IType)>, a: usize) -> (r: Option<usize>)
    ensures
        match r {
            Some(i) => i < heap@.len() && heap@[i as int].0 == a,
            None => forall|j: int| 0 <= j < heap@.len() ==> #[trigger] heap@[j].0 != a,
        },
        r == match first_address(heap@, a) { Some(i) => Some(i as usize), None => None::<usize> },
{
    let mut i: usize = 0;
    while i < heap.len()
        invariant
            0 <= i <= heap@.len(),
            forall|j: int| 0 <= j < i ==> #[trigger] heap@[j].0 != a,
            first_address(heap@, a) == address_from(heap@, a, i as int),
        decreases heap@.len() - i,
    {
        if heap[i].0 == a {
            return Some(i);
        }
        i = i + 1;
    }
    None
}

/// Stores `v` at address `a` (see `stored`).
pub fn store(heap: &mut Vec<(usize, IType)>, a: usize, v: IType)
    ensures
        final(heap)@ == stored(old(heap)@, a, v),
{
    proof { lemma_first_address(heap@, a); }
    match find_address(heap, a) {
        Some(i) => {
            let _ = heap.remove(i);
            heap.insert(i, (a, v));
            assert(heap@ =~= old(heap)@.update(i as int, (a, v)));
        },
        None => {
            heap.push((a, v));
        },
    }
}

/// What the engine asks of its caller.
#[derive(Debug)]
pub enum Request {
    /// Print `text`, then a line feed if `newline`.
    Print { text: String, newline: bool },
    /// Print `prompt` and read a line.
    ReadLine { prompt: String },
    /// The display text of the floating-point literal `text`.
    FloatConst { text: String },
    /// The operator `op` on two numbers, one of them a float.
    FloatOp { left: Value, op: String, right: Value },
    /// The text of the file at `path`.
    ReadFile { path: String },
    /// Run `program` with `args` and give what it prints.
    Command { program: String, args: Vec<String> },
}

/// The caller's answer to a request.
#[derive(Debug)]
pub enum Answer {
    Printed,
    Line(String),
    /// Printing or reading failed, with this message.
    Failed(String),
    Float(String),
    Value(Type),
    /// The text of the file, or nothing when it cannot be read.
    File(Option<String>),
}

/// How a run stops.
#[derive(Debug)]
pub enum Outcome {
    /// The program needs this answered to go on.
    Ask(Request),
    /// The program ended, normally or with an error.
    Done(Result<(), OnfexError>),
    /// The program aborts here.
    Abort(String),
    /// Calls nest deeper than allowed.
    TooDeep,
}

/// Why an evaluation stops early.
#[derive(Debug)]
pub enum Halt {
    Error(OnfexError),
    Ask(Request),
    Abort(String),
    TooDeep,
}

/// How a statement completed.
#[derive(Debug)]
pub enum Flow {
    Normal(IType),
    Return(IType),
}

/// The tables shared by every engine of a run (also those running imported
/// modules), and the answers to replay.
pub struct World {
    pub funcs: Vec<FuncDef>,
    pub types: Vec<IStructType>,
    pub instances: Vec<IInstance>,
    pub answers: Vec<Answer>,
    pub used: usize,
}

fn rt(m: String) -> (h: Halt)
    ensures
        h == Halt::Error(OnfexError::Runtime { message: m }),
{
    Halt::Error(OnfexError::runtime(m))
}

fn rt_named(prefix: &str, name: &str, suffix: &str) -> (h: Halt)
    ensures
        (h matches Halt::Error(OnfexError::Runtime { message }) && message@ == prefix@ + name@ + suffix@),
{
    let mut m = owned(prefix);
    push_str(&mut m, name);
    push_str(&mut m, suffix);
    Halt::Error(OnfexError::runtime(m))
}

impl World {
    /// The next answer, if it was given; otherwise the run stops with the
    /// request.
    fn ask(&mut self, req: Request) -> (r: Result<Answer, Halt>)
        ensures
            old(self).used < old(self).answers@.len() ==> r == Ok::<Answer, Halt>(old(self).answers@[old(self).used as int])
                && final(self).used == old(self).used + 1,
            old(self).used >= old(self).answers@.len() ==> r == Err::<Answer, Halt>(Halt::Ask(req))
                && final(self).used == old(self).used,
            final(self).answers == old(self).answers,
    {
        if self.used < self.answers.len() {
            let a = match &self.answers[self.used] {
                Answer::Printed => Answer::Printed,
                Answer::Line(s) => Answer::Line(s.clone()),
                Answer::Failed(s) => Answer::Failed(s.clone()),
                Answer::Float(s) => Answer::Float(s.clone()),
                Answer::Value(t) => Answer::Value(t.duplicate()),
                Answer::File(Some(s)) => Answer::File(Some(s.clone())),
                Answer::File(None) => Answer::File(None),
            };
            self.used = self.used + 1;
            Ok(a)
        } else {
            Err(Halt::Ask(req))
        }
    }
}

} // verus!

verus! {

/// The engine: the scopes (innermost last), the next free address, the
/// imported modules, whether modules may be imported, whether this run is an
/// import (its `mehen` block is skipped), its folder, and the `strouct` whose
/// method runs.
#[allow(non_snake_case)]
pub struct Interpreter {
    pub envs: Vec<Env>,
    pub ptr: usize,
    pub mods: Vec<(String, Env)>,
    pub libs: Vec<(String, String)>,
    pub selfAccess: bool,
    pub Import: bool,
    pub path: String,
    pub current_struct: Option<String>,
}

/// The answers stay as given, and the count of those used only grows, up to
/// how many there are.
pub open spec fn world_kept(w0: World, w1: World) -> bool {
    &&& w1.answers == w0.answers
    &&& w0.used <= w1.used
    &&& w1.used <= w1.answers@.len()
}

/// A run that stops to ask has used every answer it was given.
pub open spec fn asks_last<T>(r: Result<T, Halt>, w: World) -> bool {
    r matches Err(Halt::Ask(_)) ==> w.used == w.answers@.len()
}

/// The message of a missing variable.
pub open spec fn not_found(name: Seq<char>) -> Seq<char> {
    "variable '"@ + name + "' not found"@
}

/// What a scope holds for `name`: the value at the address the name is
/// bound to, if a value is stored there.
pub open spec fn scope_value(e: Env, name: Seq<char>) -> Option<IType> {
    match first_key(e.names@, name) {
        Some(j) => match first_address(e.heap@, e.names@[j].1) {
            Some(k) => Some(e.heap@[k].1),
            None => None,
        },
        None => None,
    }
}

/// The value of `name`: from the innermost scope that holds one for it.
pub open spec fn lookup_spec(envs: Seq<Env>, name: Seq<char>) -> Option<IType>
    decreases envs.len(),
{
    if envs.len() == 0 {
        None
    } else if scope_value(envs.last(), name) is Some {
        scope_value(envs.last(), name)
    } else {
        lookup_spec(envs.drop_last(), name)
    }
}

/// The value stored at address `adr`: in the innermost scope that stores one.
pub open spec fn stored_at(envs: Seq<Env>, adr: usize) -> Option<IType>
    decreases envs.len(),
{
    if envs.len() == 0 {
        None
    } else {
        match first_address(envs.last().heap@, adr) {
            Some(k) => Some(envs.last().heap@[k].1),
            None => stored_at(envs.drop_last(), adr),
        }
    }
}

/// The address `name` is bound to: in the innermost scope that binds it.
pub open spec fn address_spec(envs: Seq<Env>, name: Seq<char>) -> Option<usize>
    decreases envs.len(),
{
    if envs.len() == 0 {
        None
    } else {
        match first_key(envs.last().names@, name) {
            Some(j) => Some(envs.last().names@[j].1),
            None => address_spec(envs.drop_last(), name),
        }
    }
}

/// Once `name` is bound to an address in the innermost scope and `v` is
/// stored at that address there, reading `name` gives `v` back, whatever the
/// outer scopes hold.
pub proof fn law_read_after_bind(before: Seq<Env>, after: Seq<Env>, name: String, adr: usize, v: IType)
    requires
        before.len() >= 1,
        after.len() == before.len(),
        after.drop_last() == before.drop_last(),
        after.last().names@ == rebound(before.last().names@, name, adr),
        after.last().heap@ == stored(before.last().heap@, adr, v),
    ensures
        lookup_spec(after, name@) == Some(v),
{
    let names0 = before.last().names@;
    let names1 = after.last().names@;
    let heap0 = before.last().heap@;
    let heap1 = after.last().heap@;
    lemma_first_key(names0, name@);
    lemma_first_key(names1, name@);
    lemma_first_address(heap0, adr);
    lemma_first_address(heap1, adr);
    let j: int = match first_key(names0, name@) { Some(i) => i, None => names0.len() as int };
    assert(names1[j].0@ == name@ && names1[j].1 == adr);
    assert forall|q: int| 0 <= q < j implies #[trigger] names1[q].0@ != name@ by {
        assert(names1[q] == names0[q]);
    }
    match first_key(names1, name@) {
        Some(w) => {
            if w < j {
                assert(names1[w].0@ != name@);
            } else if w > j {
                assert(names1[j].0@ != name@);
            }
        },
        None => {
            assert(names1[j].0@ != name@);
        },
    }
    let k: int = match first_address(heap0, adr) { Some(i) => i, None => heap0.len() as int };
    assert(heap1[k] == (adr, v));
    assert forall|q: int| 0 <= q < k implies #[trigger] heap1[q].0 != adr by {
        assert(heap1[q] == heap0[q]);
    }
    match first_address(heap1, adr) {
        Some(w) => {
            if w < k {
                assert(heap1[w].0 != adr);
            } else if w > k {
                assert(heap1[k].0 != adr);
            }
        },
        None => {
            assert(heap1[k].0 != adr);
        },
    }
    assert(scope_value(after.last(), name@) == Some(v));
}

impl Interpreter {
    /// An engine for a document in the folder `path`, with one empty scope.
    pub fn new(path: String) -> (r: Self)
        ensures
            r.path == path,
            !r.selfAccess,
            !r.Import,
            r.envs@.len() == 1,
            r.envs@[0].names@.len() == 0 && r.envs@[0].heap@.len() == 0,
            r.mods@.len() == 0,
            r.libs@.len() == 0,
            r.current_struct is None,
    {
        let mut envs: Vec<Env> = Vec::new();
        envs.push(Env { names: Vec::new(), heap: Vec::new() });
        Interpreter {
            envs,
            ptr: 1,
            mods: Vec::new(),
            libs: Vec::new(),
            selfAccess: false,
            Import: false,
            path,
            current_struct: None,
        }
    }

    fn enter_scope(&mut self)
        ensures
            final(self).envs@.len() == old(self).envs@.len() + 1,
            final(self).envs@.drop_last() == old(self).envs@,
            final(self).envs@.last().names@.len() == 0,
            final(self).mods == old(self).mods,
            final(self).current_struct == old(self).current_struct,
            final(self).ptr == old(self).ptr,
    {
        self.envs.push(Env { names: Vec::new(), heap: Vec::new() });
    }

    /// Leaves the innermost scope; leaving the outermost one leaves an empty
    /// scope in its place.
    fn exit_scope(&mut self)
        ensures
            final(self).envs@.len() == if old(self).envs@.len() > 1 { old(self).envs@.len() - 1 } else { 1 },
            old(self).envs@.len() > 1 ==> final(self).envs@ == old(self).envs@.drop_last(),
            final(self).mods == old(self).mods,
            final(self).current_struct == old(self).current_struct,
    {
        if self.envs.len() > 1 {
            let _ = self.envs.pop();
        } else {
            self.envs = Vec::new();
            self.envs.push(Env { names: Vec::new(), heap: Vec::new() });
        }
    }

    fn inc_ptr(&mut self) -> (r: Result<(), Halt>)
        ensures
            final(self).envs == old(self).envs,
            final(self).mods == old(self).mods,
            final(self).current_struct == old(self).current_struct,
            old(self).ptr < usize::MAX ==> r is Ok && final(self).ptr == old(self).ptr + 1,
            old(self).ptr == usize::MAX ==> (r matches Err(Halt::Abort(m)) && m@ == "attempt to add with overflow"@),
    {
        if self.ptr == usize::MAX {
            return Err(Halt::Abort(owned("attempt to add with overflow")));
        }
        self.ptr = self.ptr + 1;
        Ok(())
    }

    /// Binds `name` to address `adr` and stores `v` there, in the innermost
    /// scope.
    fn bind(&mut self, name: String, adr: usize, v: IType)
        requires
            old(self).envs@.len() >= 1,
        ensures
            final(self).envs@.len() == old(self).envs@.len(),
            final(self).envs@.drop_last() == old(self).envs@.drop_last(),
            final(self).envs@.last().names@ == rebound(old(self).envs@.last().names@, name, adr),
            final(self).envs@.last().heap@ == stored(old(self).envs@.last().heap@, adr, v),
            lookup_spec(final(self).envs@, name@) == Some(v),
            final(self).mods == old(self).mods,
            final(self).current_struct == old(self).current_struct,
            final(self).ptr == old(self).ptr,
    {
        let ghost before = self.envs@;
        let ghost name0 = name;
        let ghost v0 = v;
        let n = self.envs.len();
        let mut env = self.envs.remove(n - 1);
        set_key(&mut env.names, name, adr);
        store(&mut env.heap, adr, v);
        self.envs.push(env);
        assert(self.envs@.drop_last() =~= before.drop_last());
        proof { law_read_after_bind(before, self.envs@, name0, adr, v0); }
    }

    /// Stores `v` at address `adr` in the innermost scope.
    fn store_here(&mut self, adr: usize, v: IType)
        requires
            old(self).envs@.len() >= 1,
        ensures
            final(self).envs@.len() == old(self).envs@.len(),
            final(self).envs@.drop_last() == old(self).envs@.drop_last(),
            final(self).envs@.last().names == old(self).envs@.last().names,
            final(self).envs@.last().heap@ == stored(old(self).envs@.last().heap@, adr, v),
            final(self).mods == old(self).mods,
            final(self).current_struct == old(self).current_struct,
    {
        let ghost before = self.envs@;
        let n = self.envs.len();
        let mut env = self.envs.remove(n - 1);
        store(&mut env.heap, adr, v);
        self.envs.push(env);
        assert(self.envs@.drop_last() =~= before.drop_last());
    }

    /// The value of `name`: from the innermost scope that binds the name and
    /// stores a value at its address.
    fn lookup(&self, name: &str) -> (r: Result<IType, Halt>)
        ensures
            r is Err ==> (r matches Err(Halt::Error(OnfexError::Runtime { message })) && message@ == not_found(name@)),
            match lookup_spec(self.envs@, name@) {
                Some(t) => r matches Ok(u) && copied(u, t),
                None => r is Err,
            },
    {
        let mut i = self.envs.len();
        assert(self.envs@.take(i as int) =~= self.envs@);
        while i > 0
            invariant
                i <= self.envs@.len(),
                lookup_spec(self.envs@, name@) == lookup_spec(self.envs@.take(i as int), name@),
            decreases i,
        {
            let ghost upto = self.envs@.take(i as int);
            assert(upto.last() == self.envs@[i - 1]);
            assert(upto.drop_last() =~= self.envs@.take(i - 1));
            let env = &self.envs[i - 1];
            proof { lemma_first_key(env.names@, name@); }
            match find_key(&env.names, name) {
                Some(j) => {
                    proof { lemma_first_address(env.heap@, env.names@[j as int].1); }
                    match find_address(&env.heap, env.names[j].1) {
                        Some(k) => { return Ok(env.heap[k].1.duplicate()); },
                        None => {},
                    }
                },
                None => {},
            }
            i = i - 1;
        }
        Err(rt_named("variable '", name, "' not found"))
    }

    /// The address bound to `name` in the innermost scope that binds it.
    fn lookup_address(&self, name: &str) -> (r: Result<usize, Halt>)
        ensures
            r is Err ==> (r matches Err(Halt::Error(OnfexError::Runtime { message })) && message@ == not_found(name@)),
            match address_spec(self.envs@, name@) {
                Some(a) => r == Ok::<usize, Halt>(a),
                None => r is Err,
            },
    {
        let mut i = self.envs.len();
        assert(self.envs@.take(i as int) =~= self.envs@);
        while i > 0
            invariant
                i <= self.envs@.len(),
                address_spec(self.envs@, name@) == address_spec(self.envs@.take(i as int), name@),
            decreases i,
        {
            let ghost upto = self.envs@.take(i as int);
            assert(upto.last() == self.envs@[i - 1]);
            assert(upto.drop_last() =~= self.envs@.take(i - 1));
            proof { lemma_first_key(self.envs@[i - 1].names@, name@); }
            match find_key(&self.envs[i - 1].names, name) {
                Some(j) => { return Ok(self.envs[i - 1].names[j].1); },
                None => {},
            }
            i = i - 1;
        }
        Err(rt_named("variable '", name, "' not found"))
    }

    /// The value at address `adr`, from the innermost scope that stores one.
    fn load_from_heap(&self, adr: usize) -> (r: Result<IType, Halt>)
        ensures
            match stored_at(self.envs@, adr) {
                Some(t) => r matches Ok(u) && copied(u, t),
                None => (r matches Err(Halt::Error(OnfexError::Runtime { message }))
                    && message@ == "invalid address "@ + decimal(adr as nat)),
            },
    {
        let mut i = self.envs.len();
        assert(self.envs@.take(i as int) =~= self.envs@);
        while i > 0
            invariant
                i <= self.envs@.len(),
                stored_at(self.envs@, adr) == stored_at(self.envs@.take(i as int), adr),
            decreases i,
        {
            let ghost upto = self.envs@.take(i as int);
            assert(upto.last() == self.envs@[i - 1]);
            assert(upto.drop_last() =~= self.envs@.take(i - 1));
            proof { lemma_first_address(self.envs@[i - 1].heap@, adr); }
            match find_address(&self.envs[i - 1].heap, adr) {
                Some(k) => { return Ok(self.envs[i - 1].heap[k].1.duplicate()); },
                None => {},
            }
            i = i - 1;
        }
        let mut m = owned("invalid address ");
        push_decimal(&mut m, adr as u128);
        Err(rt(m))
    }
}

/// The text a value is shown as (`Type::__out__`): texts in quotes, lists as
/// `<Vektöre [ a | b ]>`, maps as `<Map {k : v}>`, instances with their
/// fields in the order of their names. `None` when instances nest deeper
/// than `fuel` (only a cycle of instances does).
#[verifier::loop_isolation(false)]
pub fn show(world: &World, t: &IType, fuel: usize) -> (r: Option<String>)
    ensures
        t.value matches IValue::Int(x) ==> (r matches Some(m) && m@ == signed_decimal(x as int)),
        t.value matches IValue::Float(x) ==> (r matches Some(m) && m@ == x@),
        t.value matches IValue::Str(x) ==> (r matches Some(m) && m@ == "\""@ + x@ + "\""@),
        t.value matches IValue::Bool(b) ==> (r matches Some(m) && m@ == if b { "trunth1"@ } else { "franth0"@ }),
        t.value is Void ==> (r matches Some(m) && m@ == "noph"@),
        t.value is Func ==> (r matches Some(m) && m@ == "<frounct>"@),
        (t.value is Vect || t.value is Sprd || t.value is Macro) ==> (r matches Some(m) && m@ == "<METHAVEOT>"@),
    decreases fuel, t,
{
    match &t.value {
        IValue::Int(x) => Some(i64_to_string(*x)),
        IValue::Float(x) => Some(x.clone()),
        IValue::Str(x) => {
            let mut m = owned("\"");
            push_str(&mut m, x.as_str());
            push_str(&mut m, "\"");
            Some(m)
        },
        IValue::Bool(b) => Some(if *b { owned("trunth1") } else { owned("franth0") }),
        IValue::Void => Some(owned("noph")),
        IValue::Func(_) => Some(owned("<frounct>")),
        IValue::StructType(i) => {
            let mut m = owned("<strouct ");
            if *i < world.types.len() {
                push_str(&mut m, world.types[*i].name.as_str());
            }
            push_str(&mut m, ">");
            Some(m)
        },
        IValue::Array(_, items) => vector_out(world, items, fuel),
        IValue::Buffer(_, items) => map_out(world, items, fuel),
        IValue::Ref(a) => {
            let mut m = owned("<repherfal:&");
            push_decimal(&mut m, *a as u128);
            push_str(&mut m, ">");
            Some(m)
        },
        IValue::Struct(h) => {
            if fuel == 0 || *h >= world.instances.len() || world.instances[*h].base >= world.types.len() {
                return None;
            }
            let inst = &world.instances[*h];
            let mut names: Vec<Vec<char>> = Vec::new();
            let mut k: usize = 0;
            while k < inst.fields.len()
                invariant
                    0 <= k <= inst.fields@.len(),
                    names@.len() == k,
                decreases inst.fields@.len() - k,
            {
                names.push(chars_of(inst.fields[k].0.as_str()));
                k = k + 1;
            }
            let order = sorted_positions(&names);
            let mut vals = String::new();
            let mut i: usize = 0;
            while i < order.len()
                invariant
                    0 <= i <= order@.len(),
                    order@.len() == names@.len() == inst.fields@.len(),
                    forall|j: int| 0 <= j < order@.len() ==> #[trigger] order@[j] < names@.len(),
                    fuel > 0,
                decreases order@.len() - i,
            {
                let f = &inst.fields[order[i]];
                push_str(&mut vals, f.0.as_str());
                push_str(&mut vals, ": ");
                match show(world, &f.1, fuel - 1) {
                    Some(v) => push_str(&mut vals, v.as_str()),
                    None => { return None; },
                }
                if i + 1 < order.len() {
                    push_str(&mut vals, ", ");
                }
                i = i + 1;
            }
            let mut m = world.types[inst.base].name.clone();
            push_str(&mut m, " { ");
            push_str(&mut m, vals.as_str());
            push_str(&mut m, " }");
            Some(m)
        },
        _ => Some(owned("<METHAVEOT>")),
    }
}

/// The parts, with `sep` between each two of them.
pub open spec fn joined(parts: Seq<Seq<char>>, sep: Seq<char>) -> Seq<char>
    decreases parts.len(),
{
    if parts.len() == 0 {
        seq![]
    } else if parts.len() == 1 {
        parts[0]
    } else {
        joined(parts.drop_last(), sep) + sep + parts.last()
    }
}

proof fn lemma_joined_step(parts: Seq<Seq<char>>, sep: Seq<char>, i: int)
    requires
        1 <= i < parts.len(),
    ensures
        joined(parts.take(i + 1), sep) == joined(parts.take(i), sep) + sep + parts[i],
{
    assert(parts.take(i + 1).drop_last() =~= parts.take(i));
}

/// Whether every item is a number, text, truth value or `nophe`.
pub open spec fn all_scalar(items: Seq<IType>) -> bool {
    forall|i: int| 0 <= i < items.len() ==> #[trigger] scalar_text(items[i].value) is Some
}

/// How each item is shown, when all are scalars.
pub open spec fn scalar_texts(items: Seq<IType>) -> Seq<Seq<char>> {
    Seq::new(items.len(), |i: int| scalar_text(items[i].value)->Some_0)
}

/// How each entry `k : v` of a map is shown, when all keys and values are scalars.
pub open spec fn entry_texts(items: Seq<(IType, IType)>) -> Seq<Seq<char>> {
    Seq::new(items.len(), |i: int| scalar_text(items[i].0.value)->Some_0 + " : "@ + scalar_text(items[i].1.value)->Some_0)
}

/// Whether every key and value of a map is a scalar.
pub open spec fn all_scalar_entries(items: Seq<(IType, IType)>) -> bool {
    forall|i: int| 0 <= i < items.len() ==> scalar_text(#[trigger] items[i].0.value) is Some
        && scalar_text(items[i].1.value) is Some
}

/// A list as shown: `<Vektöre [ a | b ]>`.
pub fn vector_out(world: &World, items: &Vec<IType>, fuel: usize) -> (r: Option<String>)
    ensures
        all_scalar(items@) ==> (r matches Some(m)
            && m@ == "<Vektöre [ "@ + joined(scalar_texts(items@), " | "@) + " ]>"@),
    decreases fuel, items,
{
    let ghost parts = scalar_texts(items@);
    let mut vals = String::new();
    let mut i: usize = 0;
    while i < items.len()
        invariant
            i <= items@.len(),
            parts == scalar_texts(items@),
            all_scalar(items@) ==> vals@ == (if i == 0 { seq![] } else if i < items@.len() {
                joined(parts.take(i as int), " | "@) + " | "@ } else { joined(parts.take(i as int), " | "@) }),
        decreases items@.len() - i,
    {
        proof { assert(decreases_to!(*items => items[i as int])); }
        let v = show(world, &items[i], fuel)?;
        proof {
            if all_scalar(items@) {
                assert(scalar_text(items@[i as int].value) is Some);
                assert(v@ == parts[i as int]);
                if i == 0 {
                    assert(parts.take(1) =~= seq![parts[0]]);
                } else {
                    lemma_joined_step(parts, " | "@, i as int);
                }
            }
        }
        push_str(&mut vals, v.as_str());
        if i + 1 < items.len() {
            push_str(&mut vals, " | ");
        }
        i = i + 1;
    }
    proof { assert(parts.take(items@.len() as int) =~= parts); }
    let mut m = owned("<Vektöre [ ");
    push_str(&mut m, vals.as_str());
    push_str(&mut m, " ]>");
    Some(m)
}

/// A map as shown: `<Map {k : v, ...}>`.
pub fn map_out(world: &World, items: &Vec<(IType, IType)>, fuel: usize) -> (r: Option<String>)
    ensures
        all_scalar_entries(items@) ==> (r matches Some(m)
            && m@ == "<Map {"@ + joined(entry_texts(items@), ", "@) + "}>"@),
    decreases fuel, items,
{
    let ghost parts = entry_texts(items@);
    let mut vals = String::new();
    let mut i: usize = 0;
    while i < items.len()
        invariant
            i <= items@.len(),
            parts == entry_texts(items@),
            all_scalar_entries(items@) ==> vals@ == (if i == 0 { seq![] } else if i < items@.len() {
                joined(parts.take(i as int), ", "@) + ", "@ } else { joined(parts.take(i as int), ", "@) }),
        decreases items@.len() - i,
    {
        proof { assert(decreases_to!(*items => items[i as int])); }
        let k = show(world, &items[i].0, fuel)?;
        push_str(&mut vals, k.as_str());
        push_str(&mut vals, " : ");
        let v = show(world, &items[i].1, fuel)?;
        proof {
            if all_scalar_entries(items@) {
                assert(scalar_text(items@[i as int].0.value) is Some && scalar_text(items@[i as int].1.value) is Some);
                assert(k@ + " : "@ + v@ == parts[i as int]);
                if i == 0 {
                    assert(parts.take(1) =~= seq![parts[0]]);
                } else {
                    lemma_joined_step(parts, ", "@, i as int);
                }
            }
        }
        push_str(&mut vals, v.as_str());
        if i + 1 < items.len() {
            push_str(&mut vals, ", ");
        }
        i = i + 1;
    }
    proof { assert(parts.take(items@.len() as int) =~= parts); }
    let mut m = owned("<Map {");
    push_str(&mut m, vals.as_str());
    push_str(&mut m, "}>");
    Some(m)
}

} // verus!

verus! {

/// A value of the engine as an operand of the operators: numbers, texts and
/// truth values carry over; any other value keeps only its kind.
pub open spec fn operand_value(v: IValue) -> Value {
    match v {
        IValue::Int(x) => Value::Int(x),
        IValue::Float(s) => Value::Float(s),
        IValue::Str(s) => Value::Str(s),
        IValue::Bool(b) => Value::Bool(b),
        _ => Value::Void,
    }
}

/// What a binary operator gives on two values, where it needs no floating-point
/// work: for two integers, the outcome of `int_outcome` (an overflow aborts);
/// for operands of kinds it does not take, its error; `+` on two texts joins
/// them.
pub open spec fn operates(l: IType, op: Seq<char>, r: IType, res: Result<IType, Halt>) -> bool {
    if l.value is Int && r.value is Int {
        match int_outcome(l.value->Int_0 as int, op, r.value->Int_0 as int) {
            IntOutcome::Value(v) => res matches Ok(t) && t.kind == value_kind(v) && t.value == ivalue_of(v),
            IntOutcome::Overflow => res matches Err(Halt::Abort(_)),
            IntOutcome::DivZero => res matches Err(Halt::Error(OnfexError::Runtime { message }))
                && message@ == "Sifrhen Ern: sifrhen tarafalt bölnos oft nophe"@,
            IntOutcome::BadOp => res matches Err(Halt::Error(OnfexError::Runtime { message }))
                && message@ == "WrossnosOp Ern: '"@ + op + "' oft alnos nophe"@,
        }
    } else if mixed_error(operand(l), op, operand(r)) is Some {
        res matches Err(Halt::Error(OnfexError::Runtime { message }))
            && message@ == mixed_error(operand(l), op, operand(r))->Some_0
    } else if l.value is Str && r.value is Str {
        res matches Ok(t) && t.kind == TypeKind::Str && (t.value matches IValue::Str(x)
            && x@ == l.value->Str_0@ + r.value->Str_0@)
    } else {
        true
    }
}

/// Whether a value is one that evaluating a name gives back unchanged (not
/// a collection or a spread).
pub open spec fn plain_ivalue(v: IValue) -> bool {
    !(v is Array || v is Buffer || v is Vect || v is Sprd)
}

/// The value of an expression that needs nothing but the scopes `envs`: a
/// literal; a name bound to a plain value; an operator on two integers whose
/// values are known, as `int_outcome` computes it from the left operand's
/// value and the right operand's, in that order (`None` where the operator
/// gives no value).
pub open spec fn plain_value(envs: Seq<Env>, e: Expr) -> Option<IType>
    decreases e,
{
    match e {
        Expr::Variable(n) => match lookup_spec(envs, n@) {
            Some(t) => if plain_ivalue(t.value) { Some(t) } else { None },
            None => None,
        },
        Expr::BinaryOp(x, op, y) => match (plain_value(envs, *x), plain_value(envs, *y)) {
            (Some(a), Some(b)) => if a.value is Int && b.value is Int {
                match int_outcome(a.value->Int_0 as int, op@, b.value->Int_0 as int) {
                    IntOutcome::Value(v) => Some(IType { kind: value_kind(v), value: ivalue_of(v) }),
                    _ => None,
                }
            } else {
                None
            },
            _ => None,
        },
        _ => literal_value(e),
    }
}

/// An operator on two integer-valued expressions has the value that the
/// operator gives on the left one's value and the right one's, in that
/// order: `x - y` is the value of `x` minus that of `y`, `x < y` compares the
/// value of `x` with that of `y`, whatever `x` and `y` are.
pub proof fn law_operands_in_order(envs: Seq<Env>, x: Expr, op: String, y: Expr, a: i64, b: i64)
    requires
        plain_value(envs, x) == Some(IType { kind: TypeKind::Int, value: IValue::Int(a) }),
        plain_value(envs, y) == Some(IType { kind: TypeKind::Int, value: IValue::Int(b) }),
    ensures
        plain_value(envs, Expr::BinaryOp(Box::new(x), op, Box::new(y))) == match int_outcome(a as int, op@, b as int) {
            IntOutcome::Value(v) => Some(IType { kind: value_kind(v), value: ivalue_of(v) }),
            _ => None::<IType>,
        },
        (op@ == "-"@ && in_i64(a - b)) ==> plain_value(envs, Expr::BinaryOp(Box::new(x), op, Box::new(y)))
            == Some(IType { kind: TypeKind::Int, value: IValue::Int((a - b) as i64) }),
{
    reveal_strlit("+");
    reveal_strlit("-");
    assert("-"@[0] != "+"@[0]);
}

/// An `ifnt` whose condition's value is truthy runs its first block; one
/// whose condition's value is not runs its `elsnt` block, or nothing.
pub proof fn law_condition_picks_the_block(cv: IType, body: Seq<StmtNode>, else_body: Option<Vec<StmtNode>>)
    ensures
        truthy_value(operand(cv)) ==> branch_for(cv, body, else_body) == Some(body),
        !truthy_value(operand(cv)) ==> branch_for(cv, body, else_body) == match else_body {
            Some(b) => Some(b@),
            None => None::<Seq<StmtNode>>,
        },
{
}

/// Adding an empty innermost scope changes no name's value.
pub proof fn lemma_empty_scope_keeps_values(envs: Seq<Env>, inner: Seq<Env>, e: Expr)
    requires
        inner.len() == envs.len() + 1,
        inner.drop_last() == envs,
        inner.last().names@.len() == 0,
    ensures
        plain_value(inner, e) == plain_value(envs, e),
    decreases e,
{
    match e {
        Expr::Variable(n) => {
            assert(first_key(inner.last().names@, n@) is None);
        },
        Expr::BinaryOp(x, _, y) => {
            lemma_empty_scope_keeps_values(envs, inner, *x);
            lemma_empty_scope_keeps_values(envs, inner, *y);
        },
        _ => {},
    }
}

/// The message of a run that stopped on an error of the program.
pub open spec fn halt_message(res: Result<IType, Halt>) -> Option<Seq<char>> {
    match res {
        Err(Halt::Error(OnfexError::Runtime { message })) => Some(message@),
        _ => None,
    }
}

/// The message of a machine that finished on an error of the program.
pub open spec fn finish_message(s: Step) -> Option<Seq<char>> {
    match s {
        Step::Event(Event::Finished(Err(OnfexError::Runtime { message }))) => Some(message@),
        _ => None,
    }
}

/// Two values alike: the same kind and value, texts compared by their
/// characters.
pub open spec fn same_value(a: Type, b: Type) -> bool {
    a.kind == b.kind && (a.value == b.value || (a.value matches Value::Str(x) && b.value matches Value::Str(y) && x@ == y@))
}

/// The tree-walking engine and the stack machine agree on a binary operator
/// applied to two values that need no floating-point work: the one goes on
/// exactly when the other does, with alike values; the one aborts exactly
/// when the other panics; and they stop on the same error message.
pub proof fn law_engines_agree_on_operators(l: IType, op: Seq<char>, r: IType, res: Result<IType, Halt>, s: Step,
    rest: Seq<Type>, st: Seq<Type>)
    requires
        operates(l, op, r, res),
        binop_step(operand(l), op, operand(r), s, rest, st),
        !(is_number(operand_value(l.value)) && is_number(operand_value(r.value)) && !(l.value is Int && r.value is Int)),
    ensures
        res is Ok <==> s == Step::Continue,
        res matches Ok(t) ==> st.len() == rest.len() + 1 && st.drop_last() == rest && same_value(st.last(), operand(t)),
        (res matches Err(Halt::Abort(_))) <==> (s matches Step::Event(Event::Panic(_))),
        halt_message(res) == finish_message(s),
{
    if l.value is Int && r.value is Int {
        match int_outcome(l.value->Int_0 as int, op, r.value->Int_0 as int) {
            IntOutcome::Value(v) => {
                assert(st.drop_last() =~= rest);
            },
            _ => {},
        }
    }
}

/// The operand that a value of the engine stands for, with its kind.
pub open spec fn operand(t: IType) -> Type {
    Type { kind: t.kind, value: operand_value(t.value) }
}

/// The engine's value for a value of the operators.
pub open spec fn ivalue_of(v: Value) -> IValue {
    match v {
        Value::Int(x) => IValue::Int(x),
        Value::Float(s) => IValue::Float(s),
        Value::Str(s) => IValue::Str(s),
        Value::Bool(b) => IValue::Bool(b),
        _ => IValue::Void,
    }
}

/// The operand that a value of the engine stands for (see `operand_value`).
pub fn as_operand(t: &IType) -> (r: Type)
    ensures
        r.kind == t.kind,
        r.value == operand_value(t.value),
{
    let value = match &t.value {
        IValue::Int(x) => Value::Int(*x),
        IValue::Float(s) => Value::Float(s.clone()),
        IValue::Str(s) => Value::Str(s.clone()),
        IValue::Bool(b) => Value::Bool(*b),
        _ => Value::Void,
    };
    Type { kind: t.kind, value }
}

/// The engine's value for the result of an operator.
pub fn from_result(t: Type) -> (r: IType)
    ensures
        r.kind == t.kind,
        r.value == match t.value {
            Value::Int(x) => IValue::Int(x),
            Value::Float(s) => IValue::Float(s),
            Value::Str(s) => IValue::Str(s),
            Value::Bool(b) => IValue::Bool(b),
            _ => IValue::Void,
        },
{
    let value = match t.value {
        Value::Int(x) => IValue::Int(x),
        Value::Float(s) => IValue::Float(s),
        Value::Str(s) => IValue::Str(s),
        Value::Bool(b) => IValue::Bool(b),
        _ => IValue::Void,
    };
    IType { kind: t.kind, value }
}

/// The text of an abort on an answer that does not fit the request.
pub open spec fn unexpected_text() -> Seq<char> {
    "an answer of the wrong kind"@
}

fn unexpected() -> (h: Halt)
    ensures
        (h matches Halt::Abort(m) && m@ == unexpected_text()),
{
    Halt::Abort(owned("an answer of the wrong kind"))
}

/// The message of a call that got `given` arguments where `wanted` (or more, with `plus`)
/// were wanted.
pub open spec fn count_text(wanted: nat, plus: bool, given: nat) -> Seq<char> {
    decimal(wanted) + (if plus { "+"@ } else { ""@ }) + " afon promter esp wraithnosan "@
        + decimal(given) + " esp gephnosan"@
}

/// The message of a call with the wrong number of arguments.
fn count_error(wanted: usize, plus: bool, given: usize) -> (h: Halt)
    ensures
        (h matches Halt::Error(OnfexError::Runtime { message })
            && message@ == count_text(wanted as nat, plus, given as nat)),
{
    let mut m = String::new();
    push_decimal(&mut m, wanted as u128);
    let ghost m1 = m@;
    if plus {
        push_str(&mut m, "+");
    }
    proof {
        reveal_strlit("+");
        reveal_strlit("");
        assert(m@ == m1 + (if plus { "+"@ } else { ""@ }));
    }
    push_str(&mut m, " afon promter esp wraithnosan ");
    push_decimal(&mut m, given as u128);
    push_str(&mut m, " esp gephnosan");
    rt(m)
}

/// The message of a value of kind `given` where one of kind `wanted` was wanted.
pub open spec fn kind_text(wanted: TypeKind, given: TypeKind) -> Seq<char> {
    kind_name(wanted) + " esp ountf wraithnosan "@ + kind_name(given) + " esp gephnosan"@
}

/// The message of a value of one kind where another was wanted.
fn kind_error(wanted: TypeKind, given: TypeKind) -> (h: Halt)
    ensures
        (h matches Halt::Error(OnfexError::Runtime { message }) && message@ == kind_text(wanted, given)),
{
    let mut m = wanted.to_string();
    push_str(&mut m, " esp ountf wraithnosan ");
    let g = given.to_string();
    push_str(&mut m, g.as_str());
    push_str(&mut m, " esp gephnosan");
    rt(m)
}

/// The text of the abort on an index one past the end of a list of `len` items.
pub open spec fn index_text(len: nat) -> Seq<char> {
    "index out of bounds: the len is "@ + decimal(len) + " but the index is "@ + decimal(len)
}

fn index_panic(len: usize) -> (h: Halt)
    ensures
        (h matches Halt::Abort(m) && m@ == index_text(len as nat)),
{
    let mut m = owned("index out of bounds: the len is ");
    push_decimal(&mut m, len as u128);
    push_str(&mut m, " but the index is ");
    push_decimal(&mut m, len as u128);
    Halt::Abort(m)
}

/// The text of the abort on unwrapping an absent value.
pub open spec fn unwrap_none_text() -> Seq<char> {
    "called `Option::unwrap()` on a `None` value"@
}

fn unwrap_none() -> (h: Halt)
    ensures
        (h matches Halt::Abort(m) && m@ == unwrap_none_text()),
{
    Halt::Abort(owned("called `Option::unwrap()` on a `None` value"))
}

/// The answer a run gets next, if one is left.
pub open spec fn next_answer(w: World) -> Option<Answer> {
    if w.used < w.answers@.len() { Some(w.answers@[w.used as int]) } else { None }
}

/// Prints `text` (and a line feed if `newline`); the call's value is `nophe`.
fn emit(world: &mut World, text: String, newline: bool) -> (r: Result<IType, Halt>)
    requires
        old(world).used <= old(world).answers@.len(),
    ensures
        world_kept(*old(world), *final(world)),
        asks_last(r, *final(world)),
        old(world).used >= old(world).answers@.len() ==> r == Err::<IType, Halt>(Halt::Ask(Request::Print { text, newline })),
        next_answer(*old(world)) matches Some(Answer::Printed) ==> r == Ok::<IType, Halt>(IType::void_spec()),
        next_answer(*old(world)) matches Some(Answer::Failed(m)) ==> r == Err::<IType, Halt>(Halt::Error(OnfexError::Runtime { message: m })),
        old(world).used < old(world).answers@.len() ==> final(world).used == old(world).used + 1,
{
    match world.ask(Request::Print { text, newline })? {
        Answer::Printed => Ok(IType::void()),
        Answer::Failed(m) => Err(rt(m)),
        _ => Err(unexpected()),
    }
}

/// The text of the abort on a failed print of a line.
pub open spec fn print_failed_text() -> Seq<char> {
    "failed printing to stdout"@
}

/// Prints the rendering of an error on a line of its own, as a report.
fn report(world: &mut World, e: &OnfexError) -> (r: Result<(), Halt>)
    requires
        old(world).used <= old(world).answers@.len(),
    ensures
        world_kept(*old(world), *final(world)),
        asks_last(r, *final(world)),
        old(world).used >= old(world).answers@.len() ==> (r matches Err(Halt::Ask(Request::Print { text, newline }))
            && text@ == e.render_spec() && newline),
        next_answer(*old(world)) matches Some(Answer::Printed) ==> r is Ok,
        next_answer(*old(world)) matches Some(Answer::Failed(_))
            ==> (r matches Err(Halt::Abort(m)) && m@ == print_failed_text()),
{
    match world.ask(Request::Print { text: e.render(), newline: true })? {
        Answer::Printed => Ok(()),
        Answer::Failed(_) => Err(Halt::Abort(owned("failed printing to stdout"))),
        _ => Err(unexpected()),
    }
}

/// How a number, text, truth value or `nophe` is shown (see `show`).
pub open spec fn scalar_text(v: IValue) -> Option<Seq<char>> {
    match v {
        IValue::Int(x) => Some(signed_decimal(x as int)),
        IValue::Float(x) => Some(x@),
        IValue::Str(x) => Some("\""@ + x@ + "\""@),
        IValue::Bool(b) => Some(if b { "trunth1"@ } else { "franth0"@ }),
        IValue::Void => Some("noph"@),
        _ => None,
    }
}

/// Every argument after the first is shown as `scalar_text` shows it.
pub open spec fn scalar_args(args: Seq<IType>) -> bool {
    forall|i: int| 1 <= i < args.len() ==> #[trigger] scalar_text(args[i].value) is Some
}

/// The text printed for the format `fmt` and such arguments: each `{}`
/// takes the next argument after the first, as shown.
pub open spec fn printed_text(fmt: Seq<char>, args: Seq<IType>) -> Seq<char> {
    fill(fmt, Seq::new((args.len() - 1) as nat, |i: int| scalar_text(args[i + 1].value)->Some_0))
}

/// Printing for `pyrintnos` and `pyrintnosFowLt`: the first argument is a
/// text whose `{}` take the other arguments as shown, in order; with no
/// argument an empty line is printed.
#[verifier::loop_isolation(false)]
fn print_with(world: &mut World, args: &Vec<IType>, newline: bool) -> (r: Result<IType, Halt>)
    requires
        old(world).used <= old(world).answers@.len(),
    ensures
        world_kept(*old(world), *final(world)),
        asks_last(r, *final(world)),
        args@.len() == 0 && old(world).used >= old(world).answers@.len()
            ==> (r matches Err(Halt::Ask(Request::Print { text, newline: nl })) && text@.len() == 0 && nl),
        args@.len() > 0 && !(args@[0].value is Str) ==> r matches Err(Halt::Error(_)),
        (args@.len() > 0 && scalar_args(args@) && old(world).used >= old(world).answers@.len()) ==> (args@[0].value matches IValue::Str(f)
            ==> (r matches Err(Halt::Ask(Request::Print { text, newline: nl })) && nl == newline && text@ == printed_text(f@, args@))),
        (args@.len() > 0 && scalar_args(args@) && args@[0].value is Str && next_answer(*old(world)) == Some(Answer::Printed))
            ==> r == Ok::<IType, Halt>(IType::void_spec()) && final(world).used == old(world).used + 1,
{
    if args.len() == 0 {
        return emit(world, String::new(), true);
    }
    let fmt = match &args[0].value {
        IValue::Str(x) => x.clone(),
        _ => {
            let mut m = owned("Typect Ern:sterge esp wraithnosan ");
            let k = args[0].kind.to_string();
            push_str(&mut m, k.as_str());
            return Err(rt(m));
        },
    };
    let mut texts: Vec<String> = Vec::new();
    let mut i: usize = 1;
    while i < args.len()
        invariant
            1 <= i <= args@.len(),
            texts@.len() == i - 1,
            scalar_args(args@) ==> forall|j: int| 0 <= j < i - 1 ==> #[trigger] texts@[j]@ == scalar_text(args@[j + 1].value)->Some_0,
            world.used == old(world).used,
            world.answers == old(world).answers,
        decreases args@.len() - i,
    {
        match show(world, &args[i], world.instances.len()) {
            Some(t) => texts.push(t),
            None => { return Err(Halt::Abort(owned("thread 'main' has overflowed its stack"))); },
        }
        proof {
            if scalar_args(args@) {
                assert(scalar_text(args@[i as int].value) is Some);
            }
        }
        i = i + 1;
    }
    proof {
        if scalar_args(args@) {
            assert(texts@.map_values(|t: String| t@) =~= Seq::new((args@.len() - 1) as nat, |q: int| scalar_text(args@[q + 1].value)->Some_0));
        }
    }
    let text = fill_placeholders(fmt.as_str(), &texts);
    emit(world, text, newline)
}

/// `pyrintnos`: prints without a line feed (see `print_with`).
pub fn pr(world: &mut World, args: &Vec<IType>) -> (r: Result<IType, Halt>)
    requires
        old(world).used <= old(world).answers@.len(),
    ensures
        world_kept(*old(world), *final(world)),
        asks_last(r, *final(world)),
        args@.len() > 0 && !(args@[0].value is Str) ==> r matches Err(Halt::Error(_)),
        (args@.len() > 0 && scalar_args(args@) && old(world).used >= old(world).answers@.len()) ==> (args@[0].value matches IValue::Str(f)
            ==> (r matches Err(Halt::Ask(Request::Print { text, newline: nl })) && nl == false && text@ == printed_text(f@, args@))),
        (args@.len() > 0 && scalar_args(args@) && args@[0].value is Str && next_answer(*old(world)) == Some(Answer::Printed))
            ==> r == Ok::<IType, Halt>(IType::void_spec()) && final(world).used == old(world).used + 1,
{
    print_with(world, args, false)
}

/// `pyrintnosFowLt`: prints, then a line feed (see `print_with`).
pub fn prln(world: &mut World, args: &Vec<IType>) -> (r: Result<IType, Halt>)
    requires
        old(world).used <= old(world).answers@.len(),
    ensures
        world_kept(*old(world), *final(world)),
        asks_last(r, *final(world)),
        args@.len() > 0 && !(args@[0].value is Str) ==> r matches Err(Halt::Error(_)),
        (args@.len() > 0 && scalar_args(args@) && old(world).used >= old(world).answers@.len()) ==> (args@[0].value matches IValue::Str(f)
            ==> (r matches Err(Halt::Ask(Request::Print { text, newline: nl })) && nl == true && text@ == printed_text(f@, args@))),
        (args@.len() > 0 && scalar_args(args@) && args@[0].value is Str && next_answer(*old(world)) == Some(Answer::Printed))
            ==> r == Ok::<IType, Halt>(IType::void_spec()) && final(world).used == old(world).used + 1,
{
    print_with(world, args, true)
}

/// `morfenlnos`: prints the text given and reads a line; its value is the
/// line without surrounding white space.
pub fn ask(world: &mut World, args: &Vec<IType>) -> (r: Result<IType, Halt>)
    requires
        old(world).used <= old(world).answers@.len(),
    ensures
        world_kept(*old(world), *final(world)),
        asks_last(r, *final(world)),
        (args@.len() == 0 || !(args@[0].value is Str)) ==> r matches Err(Halt::Error(_)),
        args@.len() > 0 ==> (args@[0].value matches IValue::Str(p) ==> (old(world).used >= old(world).answers@.len()
            ==> (r matches Err(Halt::Ask(Request::ReadLine { prompt })) && prompt@ == p@))),
        (args@.len() > 0 && args@[0].value is Str) ==> (next_answer(*old(world)) matches Some(Answer::Line(l))
            ==> (r matches Ok(t) && t.kind == TypeKind::Str && (t.value matches IValue::Str(x) && x@ == trimmed(l@)))),
{
    let prompt = match args.len() {
        0 => { return Err(rt(owned("morfenlnos expects a single string argument"))); },
        _ => match &args[0].value {
            IValue::Str(x) => x.clone(),
            _ => { return Err(rt(owned("morfenlnos expects a single string argument"))); },
        },
    };
    match world.ask(Request::ReadLine { prompt })? {
        Answer::Line(s) => Ok(IType::new(TypeKind::Str, IValue::Str(trim(s.as_str())))),
        Answer::Failed(m) => Err(rt(m)),
        _ => Err(unexpected()),
    }
}

/// The value of a floating-point literal, as the caller displays it.
fn float_const(world: &mut World, text: &String) -> (r: Result<IType, Halt>)
    requires
        old(world).used <= old(world).answers@.len(),
    ensures
        world_kept(*old(world), *final(world)),
        asks_last(r, *final(world)),
        old(world).used >= old(world).answers@.len()
            ==> (r matches Err(Halt::Ask(Request::FloatConst { text: t })) && t@ == text@),
        next_answer(*old(world)) matches Some(Answer::Float(f))
            ==> (r matches Ok(v) && v.kind == TypeKind::Float && v.value == IValue::Float(f)),
        (next_answer(*old(world)) is Some && !(next_answer(*old(world)).unwrap() is Float))
            ==> (r matches Err(Halt::Abort(m)) && m@ == unexpected_text()),
{
    match world.ask(Request::FloatConst { text: text.clone() })? {
        Answer::Float(s) => Ok(IType::new(TypeKind::Float, IValue::Float(s))),
        _ => Err(unexpected()),
    }
}

/// The operator `op` on two values (see `values::binop`); floating-point
/// work is asked of the caller.
fn operate(world: &mut World, l: &IType, op: &str, r: &IType) -> (res: Result<IType, Halt>)
    requires
        old(world).used <= old(world).answers@.len(),
    ensures
        world_kept(*old(world), *final(world)),
        asks_last(res, *final(world)),
        operates(*l, op@, *r, res),
        (l.value is Int && r.value is Int) ==> *final(world) == *old(world),
        (!(l.value is Int && r.value is Int) && mixed_error(operand(*l), op@, operand(*r)) is None
            && is_number(operand_value(l.value)) && is_number(operand_value(r.value))) ==> ({
            &&& (old(world).used >= old(world).answers@.len() ==> (res matches Err(Halt::Ask(Request::FloatOp { left, op: o, right }))
                && left == operand_value(l.value) && o@ == op@ && right == operand_value(r.value)))
            &&& (next_answer(*old(world)) matches Some(Answer::Value(t))
                ==> (res matches Ok(v) && v.kind == t.kind && v.value == ivalue_of(t.value)))
        }),
{
    match binop(as_operand(l), op, as_operand(r)) {
        Ok(BinResult::Value(t)) => Ok(from_result(t)),
        Ok(BinResult::Float(a, b)) => {
            match world.ask(Request::FloatOp { left: a, op: owned(op), right: b })? {
                Answer::Value(t) => Ok(from_result(t)),
                _ => Err(unexpected()),
            }
        },
        Ok(BinResult::Overflow(m)) => Err(Halt::Abort(m)),
        Err(e) => Err(Halt::Error(e)),
    }
}

/// The text an argument of a shell function holds.
fn text_arg(t: &IType) -> (r: Result<String, Halt>)
    ensures
        r is Err ==> r->Err_0 is Error,
        t.value matches IValue::Str(x) ==> (r matches Ok(y) && y@ == x@),
{
    match &t.value {
        IValue::Str(s) => Ok(s.clone()),
        _ => Err(rt(owned("Typect Ern:sterge esp wraithnosan"))),
    }
}

/// What a command prints, without its last character (the line feed it
/// ends with); nothing printed stops the run, as taking one from nothing does.
pub fn without_last_char(out: &str) -> (r: Result<String, Halt>)
    ensures
        out@.len() > 0 ==> (r matches Ok(s) && s@ == out@.drop_last()),
        out@.len() == 0 ==> r matches Err(Halt::Abort(_)),
{
    let cs = chars_of(out);
    if cs.len() == 0 {
        return Err(Halt::Abort(owned("attempt to subtract with overflow")));
    }
    let r = crate::text::string_of_range(&cs, 0, cs.len() - 1);
    assert(cs@.subrange(0, cs@.len() - 1) =~= out@.drop_last());
    Ok(r)
}

/// Runs `program` with `args` (asked of the caller) and gives what it prints
/// without the last character.
pub fn command(world: &mut World, program: String, args: Vec<String>) -> (r: Result<String, Halt>)
    requires
        old(world).used <= old(world).answers@.len(),
    ensures
        world_kept(*old(world), *final(world)),
        asks_last(r, *final(world)),
        old(world).used >= old(world).answers@.len() ==> r == Err::<String, Halt>(Halt::Ask(Request::Command { program, args })),
        next_answer(*old(world)) matches Some(Answer::Line(out)) ==> (out@.len() > 0 ==> (r matches Ok(s) && s@ == out@.drop_last())),
{
    match world.ask(Request::Command { program, args })? {
        Answer::Line(out) => without_last_char(out.as_str()),
        Answer::Failed(m) => Err(Halt::Abort(m)),
        _ => Err(unexpected()),
    }
}

/// Runs a command line whose words are separated by single spaces: the
/// first word is the program, the others its arguments.
pub fn autocommand(world: &mut World, line: &str) -> (r: Result<String, Halt>)
    requires
        old(world).used <= old(world).answers@.len(),
    ensures
        world_kept(*old(world), *final(world)),
        asks_last(r, *final(world)),
        old(world).used >= old(world).answers@.len() ==> (r matches Err(Halt::Ask(Request::Command { program, args }))
            && program@ == split_on(line@, ' ')[0] && args@.map_values(|x: String| x@) == split_on(line@, ' ').drop_first()),
        next_answer(*old(world)) matches Some(Answer::Line(out)) ==> (out@.len() > 0 ==> (r matches Ok(s) && s@ == out@.drop_last())),
{
    let (program, args) = split_command(line);
    command(world, program, args)
}

/// Prints a line, as `println!` does: a failure stops the run.
fn print_line(world: &mut World, text: String) -> (r: Result<(), Halt>)
    requires
        old(world).used <= old(world).answers@.len(),
    ensures
        world_kept(*old(world), *final(world)),
        asks_last(r, *final(world)),
        old(world).used >= old(world).answers@.len()
            ==> r == Err::<(), Halt>(Halt::Ask(Request::Print { text, newline: true })),
        next_answer(*old(world)) matches Some(Answer::Printed) ==> r is Ok,
        next_answer(*old(world)) matches Some(Answer::Failed(_))
            ==> (r matches Err(Halt::Abort(m)) && m@ == print_failed_text()),
{
    match world.ask(Request::Print { text, newline: true })? {
        Answer::Printed => Ok(()),
        Answer::Failed(_) => Err(Halt::Abort(owned("failed printing to stdout"))),
        _ => Err(unexpected()),
    }
}

/// The functions of the `osp` library.
pub open spec fn osp_function(name: Seq<char>) -> bool {
    name == "systess"@ || name == "systessPyrintlbrof"@ || name == "kernevGrosser"@ || name == "termifal"@
        || name == "cg"@ || name == "intfpossGephnos"@ || name == "grosserCernos"@
}

/// A function of the `osp` library (shell commands), called with `args`.
#[verifier::loop_isolation(false)]
pub fn osp_call(world: &mut World, lib: &str, name: &str, args: &Vec<IType>) -> (r: Result<IType, Halt>)
    requires
        old(world).used <= old(world).answers@.len(),
    ensures
        world_kept(*old(world), *final(world)),
        asks_last(r, *final(world)),
        !osp_function(name@) ==> (r matches Err(Halt::Error(OnfexError::Runtime { message }))
            && message@ == "undefined function '"@ + lib@ + "->"@ + name@ + "'"@),
        (name@ == "kernevGrosser"@ && old(world).used >= old(world).answers@.len())
            ==> (r matches Err(Halt::Ask(Request::Command { program, args: a })) && program@ == "pwd"@ && a@.len() == 0),
        (name@ == "termifal"@ && args@.len() == 1) ==> (args@[0].value matches IValue::Str(t)
            ==> (old(world).used >= old(world).answers@.len() ==> (r matches Err(Halt::Ask(Request::Command { program, args: a }))
                && program@ == split_on(t@, ' ')[0] && a@.map_values(|x: String| x@) == split_on(t@, ' ').drop_first()))),
        (name@ == "termifal"@ && args@.len() != 1) ==> (r matches Err(Halt::Error(OnfexError::Runtime { message }))
            && message@ == "Promter Ern: termifal frounct asp 1 promter beg gephnosfer"@),
        ((name@ == "systess"@ || name@ == "systessPyrintlbrof"@) && args@.len() == 0) ==> r matches Err(Halt::Abort(_)),
{
    proof {
        reveal_strlit("systess");
        reveal_strlit("systessPyrintlbrof");
        reveal_strlit("kernevGrosser");
        reveal_strlit("termifal");
        reveal_strlit("cg");
        reveal_strlit("intfpossGephnos");
        reveal_strlit("grosserCernos");
        assert("systess"@.len() == 7 && "systessPyrintlbrof"@.len() == 18 && "kernevGrosser"@.len() == 13);
        assert("termifal"@.len() == 8 && "cg"@.len() == 2 && "intfpossGephnos"@.len() == 15);
        assert("grosserCernos"@[0] == 'g' && "kernevGrosser"@[0] == 'k');
    }
    let system = str_eq(name, "systess");
    let system_print = str_eq(name, "systessPyrintlbrof");
    if system || system_print {
        if args.len() == 0 {
            return Err(index_panic(0));
        }
        let program = text_arg(&args[0])?;
        let mut rest: Vec<String> = Vec::new();
        let mut i: usize = 1;
        while i < args.len()
            decreases args@.len() - i,
        {
            rest.push(text_arg(&args[i])?);
            i = i + 1;
        }
        let out = command(world, program, rest)?;
        if system_print {
            print_line(world, out.clone())?;
        }
        return Ok(IType::new(TypeKind::Str, IValue::Str(out)));
    }
    if str_eq(name, "kernevGrosser") {
        let out = command(world, owned("pwd"), Vec::new())?;
        return Ok(IType::new(TypeKind::Str, IValue::Str(out)));
    }
    if str_eq(name, "termifal") {
        if args.len() != 1 {
            return Err(rt(owned("Promter Ern: termifal frounct asp 1 promter beg gephnosfer")));
        }
        let line = text_arg(&args[0])?;
        let out = autocommand(world, line.as_str())?;
        return Ok(IType::new(TypeKind::Str, IValue::Str(out)));
    }
    let cd = str_eq(name, "cg") || str_eq(name, "intfpossGephnos");
    if cd || str_eq(name, "grosserCernos") {
        if args.len() != 1 {
            return Err(rt(owned(if cd {
                "Promter Ern: cg frounct asp 1 promter beg gephnosfer"
            } else {
                "Promter Ern: grosserCernos frounct asp 1 promter beg gephnosfer"
            })));
        }
        let dir = text_arg(&args[0])?;
        let mut line = owned(if cd { "cd " } else { "mkdir " });
        push_str(&mut line, dir.as_str());
        let _out = autocommand(world, line.as_str())?;
        return Ok(IType::void());
    }
    Err(message2("undefined function '", lib, "->", name, "'"))
}

/// `text` followed by `a`, `mid`, `b` and `end`.
fn message2(text: &str, a: &str, mid: &str, b: &str, end: &str) -> (h: Halt)
    ensures
        (h matches Halt::Error(OnfexError::Runtime { message }) && message@ == text@ + a@ + mid@ + b@ + end@),
{
    let mut m = owned(text);
    push_str(&mut m, a);
    push_str(&mut m, mid);
    push_str(&mut m, b);
    push_str(&mut m, end);
    Halt::Error(OnfexError::runtime(m))
}

/// Whether the named values `ft` give each field of a type and name nothing
/// else.
/// Whether the entry `e` of a new instance holds the field `name`, with a copy
/// of the value `ft` gives it.
pub open spec fn given_field(name: Seq<char>, ft: Seq<(String, IType)>, e: (String, IType)) -> bool {
    &&& e.0@ == name
    &&& first_key(ft, name) matches Some(j) && copied(e.1, ft[j].1)
}

/// Whether the fields of a new instance are the type's fields, in order,
/// holding the values `ft` gives them.
pub open spec fn given_fields(fields: Seq<(String, Field)>, ft: Seq<(String, IType)>, got: Seq<(String, IType)>) -> bool {
    &&& got.len() == fields.len()
    &&& forall|q: int| 0 <= q < fields.len() ==> given_field(fields[q].0@, ft, #[trigger] got[q])
}

pub open spec fn fields_given(fields: Seq<(String, Field)>, ft: Seq<(String, IType)>) -> bool {
    &&& forall|i: int| 0 <= i < fields.len() ==> #[trigger] first_key(ft, fields[i].0@) is Some
    &&& forall|j: int| 0 <= j < ft.len() ==> #[trigger] first_key(fields, ft[j].0@) is Some
}

/// Whether the methods of `cur` may use a field of the type `owner`: it is
/// public, or they are that type's own.
pub open spec fn field_visible(f: Field, owner: Seq<char>, cur: Option<String>) -> bool {
    f.glb || (cur is Some && cur->Some_0@ == owner)
}

/// Whether instance `h` has a type, which declares `field`, visible from
/// the methods of `cur`.
pub open spec fn field_usable(w: World, h: usize, field: Seq<char>, cur: Option<String>) -> bool {
    &&& h < w.instances@.len()
    &&& w.instances@[h as int].base < w.types@.len()
    &&& ({
        let ty = w.types@[w.instances@[h as int].base as int];
        first_key(ty.fields@, field) matches Some(k) && field_visible(ty.fields@[k].1, ty.name@, cur)
    })
}

/// The value instance `h` holds for `field`, if any.
pub open spec fn field_value(w: World, h: usize, field: Seq<char>) -> Option<IType> {
    if h < w.instances@.len() {
        match first_key(w.instances@[h as int].fields@, field) {
            Some(k) => Some(w.instances@[h as int].fields@[k].1),
            None => None,
        }
    } else {
        None
    }
}

/// Writing a field of an instance and then reading it, from the same
/// methods: the read is allowed and gives the written value back (as
/// `World::set_field` and `World::get_field` state).
pub proof fn law_field_read_after_write(before: World, after: World, h: usize, field: Seq<char>, cur: Option<String>, v: IType)
    requires
        field_usable(before, h, field, cur),
        after.types == before.types,
        after.instances@.len() == before.instances@.len(),
        after.instances@[h as int].base == before.instances@[h as int].base,
        first_key(after.instances@[h as int].fields@, field) matches Some(k) && after.instances@[h as int].fields@[k].1 == v,
    ensures
        field_usable(after, h, field, cur),
        field_value(after, h, field) == Some(v),
{
}

impl World {
    /// A run's tables, empty, with the answers to replay.
    pub fn new(answers: Vec<Answer>) -> (r: Self)
        ensures
            r.answers == answers,
            r.used == 0,
            r.funcs@.len() == 0,
            r.types@.len() == 0,
            r.instances@.len() == 0,
    {
        World { funcs: Vec::new(), types: Vec::new(), instances: Vec::new(), answers, used: 0 }
    }

    /// A new instance of the type `st` from the named values `ft`: every
    /// field of the type must be given, and nothing else.
    #[verifier::loop_isolation(false)]
    pub fn instantiate_struct(&mut self, st: usize, ft: &Vec<(String, IType)>) -> (r: Result<IType, Halt>)
        ensures
            r is Err ==> !(r->Err_0 is Ask),
            final(self).answers == old(self).answers,
            final(self).used == old(self).used,
            final(self).types == old(self).types,
            final(self).funcs == old(self).funcs,
            st >= old(self).types@.len() ==> r matches Err(Halt::Abort(_)),
            st < old(self).types@.len() ==> (r is Ok <==> fields_given(old(self).types@[st as int].fields@, ft@)),
            r is Ok ==> (r->Ok_0 == (IType { kind: TypeKind::StrctT, value: IValue::Struct(old(self).instances@.len() as usize) })
                && final(self).instances@.len() == old(self).instances@.len() + 1
                && final(self).instances@.drop_last() == old(self).instances@
                && final(self).instances@.last().base == st),
            r is Ok ==> given_fields(old(self).types@[st as int].fields@, ft@, final(self).instances@.last().fields@),
            r is Err ==> final(self).instances == old(self).instances,
    {
        if st >= self.types.len() {
            return Err(Halt::Abort(owned("invalid strouct type")));
        }
        let mut fields: Vec<(String, IType)> = Vec::new();
        let mut i: usize = 0;
        while i < self.types[st].fields.len()
            invariant
                st < self.types@.len(),
                forall|q: int| 0 <= q < i ==> #[trigger] first_key(ft@, self.types@[st as int].fields@[q].0@) is Some,
                fields@.len() == i,
                i <= self.types@[st as int].fields@.len(),
                forall|q: int| 0 <= q < i ==> given_field(self.types@[st as int].fields@[q].0@, ft@, #[trigger] fields@[q]),
            decreases self.types[st as int].fields@.len() - i,
        {
            let fname = &self.types[st].fields[i].0;
            match find_key(ft, fname.as_str()) {
                Some(k) => {
                    proof { lemma_first_key(ft@, fname@); }
                    fields.push((fname.clone(), ft[k].1.duplicate()));
                },
                None => {
                    return Err(message2("WrossnosStrouct Ern: '", fname.as_str(), "' alt strouct '",
                        self.types[st].name.as_str(), "' afma gephnosan nophe"));
                },
            }
            i = i + 1;
        }
        let mut j: usize = 0;
        while j < ft.len()
            invariant
                st < self.types@.len(),
                forall|q: int| 0 <= q < j ==> #[trigger] first_key(self.types@[st as int].fields@, ft@[q].0@) is Some,
                given_fields(self.types@[st as int].fields@, ft@, fields@),
            decreases ft@.len() - j,
        {
            if find_key(&self.types[st].fields, ft[j].0.as_str()).is_none() {
                return Err(message2("WrossnosStrouct Ern: '", ft[j].0.as_str(), "' alt strouct '",
                    self.types[st].name.as_str(), "' meovinden oft nophe"));
            }
            j = j + 1;
        }
        self.instances.push(IInstance { base: st, fields });
        Ok(IType::new(TypeKind::StrctT, IValue::Struct(self.instances.len() - 1)))
    }

    /// The field `field` of instance `h`, seen from the methods of `cur`.
    pub fn get_field(&self, h: usize, field: &str, cur: &Option<String>) -> (r: Result<IType, Halt>)
        ensures
            r is Err ==> !(r->Err_0 is Ask),
            r is Ok <==> (field_usable(*self, h, field@, *cur)
                && first_key(self.instances@[h as int].fields@, field@) is Some),
            r is Ok ==> copied(r->Ok_0, self.instances@[h as int].fields@[first_key(self.instances@[h as int].fields@, field@)->Some_0].1),
    {
        if h >= self.instances.len() || self.instances[h].base >= self.types.len() {
            return Err(Halt::Abort(owned("invalid strouct instance")));
        }
        let st = &self.types[self.instances[h].base];
        proof {
            lemma_first_key(st.fields@, field@);
            lemma_first_key(self.instances@[h as int].fields@, field@);
        }
        let f = match find_key(&st.fields, field) {
            Some(k) => &st.fields[k].1,
            None => {
                return Err(message2("WrossnosStrouct Ern: '", field, "' alt strouct '", st.name.as_str(),
                    "' meovinden oft nophe"));
            },
        };
        match check_field_visibility(st.name.as_str(), f, cur) {
            Ok(()) => {},
            Err(e) => { return Err(Halt::Error(e)); },
        }
        match find_key(&self.instances[h].fields, field) {
            Some(k) => Ok(self.instances[h].fields[k].1.duplicate()),
            None => Err(rt_named("WrossnosStrouct Ern: '", field, "' alt tanphelanmes nophe")),
        }
    }

    /// Sets the field `field` of instance `h` to `v`, seen from the methods
    /// of `cur`.
    pub fn set_field(&mut self, h: usize, field: &str, v: IType, cur: &Option<String>) -> (r: Result<(), Halt>)
        ensures
            r is Err ==> !(r->Err_0 is Ask),
            final(self).answers == old(self).answers,
            final(self).used == old(self).used,
            final(self).types == old(self).types,
            final(self).funcs == old(self).funcs,
            r is Ok <==> field_usable(*old(self), h, field@, *cur),
            r is Err ==> final(self).instances == old(self).instances,
            r is Ok ==> (final(self).instances@.len() == old(self).instances@.len()
                && (forall|i: int| 0 <= i < old(self).instances@.len() && i != h ==> final(self).instances@[i] == old(self).instances@[i])
                && final(self).instances@[h as int].base == old(self).instances@[h as int].base
                && (first_key(final(self).instances@[h as int].fields@, field@) matches Some(k)
                && final(self).instances@[h as int].fields@[k].1 == v)),
            r is Ok ==> ({
                let f0 = old(self).instances@[h as int].fields@;
                let f1 = final(self).instances@[h as int].fields@;
                &&& f0.len() <= f1.len() <= f0.len() + 1
                &&& forall|j: int| 0 <= j < f0.len() && (#[trigger] f0[j]).0@ != field@ ==> f1[j] == f0[j]
            }),
    {
        if h >= self.instances.len() || self.instances[h].base >= self.types.len() {
            return Err(Halt::Abort(owned("invalid strouct instance")));
        }
        let base = self.instances[h].base;
        proof { lemma_first_key(self.types@[base as int].fields@, field@); }
        match find_key(&self.types[base].fields, field) {
            Some(k) => {
                match check_field_visibility(self.types[base].name.as_str(), &self.types[base].fields[k].1, cur) {
                    Ok(()) => {},
                    Err(e) => { return Err(Halt::Error(e)); },
                }
            },
            None => {
                return Err(message2("WrossnosStrouct Ern: '", field, "' alt strouct '",
                    self.types[base].name.as_str(), "' meovinden oft nophe"));
            },
        }
        let ghost before = self.instances@;
        let ghost v0 = v;
        let mut inst = self.instances.remove(h);
        let ghost fields0 = inst.fields@;
        set_key(&mut inst.fields, owned(field), v);
        proof {
            if first_key(fields0, field@) is None {
                assert(inst.fields@.drop_last() =~= fields0);
            }
            lemma_set_key_reads_back(fields0, inst.fields@, field@, v0);
            lemma_first_key(fields0, field@);
        }
        self.instances.insert(h, inst);
        assert(self.instances@ =~= before.update(h as int, self.instances@[h as int]));
        Ok(())
    }
}

/// The texts of `parts`, each after a `/`.
pub open spec fn slash_joined(parts: Seq<Seq<char>>) -> Seq<char>
    decreases parts.len(),
{
    if parts.len() == 0 {
        seq![]
    } else {
        slash_joined(parts.drop_last()) + seq!['/'] + parts.last()
    }
}

/// The path of the file of the module `name` named in a document of the
/// folder `path` (see `module_place`).
pub open spec fn module_file_path(name: Seq<char>, path: Seq<char>) -> Seq<char> {
    let pieces = split_on(replaced(name, ".."@, path), '/');
    slash_joined(pieces.drop_last()) + "/"@ + pieces.last()
}

/// Where the module `name` named in a document of the folder `path` is: its
/// folder and its file name. `..` in the name stands for `path`; the folder
/// is every piece of the name but the last, each after a `/`.
pub fn module_place(name: &str, path: &str) -> (r: (String, String))
    ensures
        ({
            let pieces = split_on(replaced(name@, ".."@, path@), '/');
            &&& r.1@ == pieces.last()
            &&& r.0@ == slash_joined(pieces.drop_last())
        }),
{
    proof { reveal_strlit(".."); reveal_strlit("/"); }
    let full = replace_all(name, "..", path);
    let pieces = split_pieces(full.as_str(), '/');
    let ghost all = pieces@.map_values(|x: String| x@);
    let n = pieces.len();
    let mut folder = String::new();
    let mut i: usize = 0;
    assert(all.drop_last().take(0) =~= Seq::<Seq<char>>::empty());
    while i + 1 < n
        invariant
            n == pieces@.len() >= 1,
            all == pieces@.map_values(|x: String| x@),
            0 <= i < n,
            folder@ == slash_joined(all.drop_last().take(i as int)),
        decreases n - i,
    {
        assert(all.drop_last().take(i + 1).drop_last() =~= all.drop_last().take(i as int));
        assert(all.drop_last().take(i + 1).last() == pieces@[i as int]@);
        proof { reveal_strlit("/"); }
        push_str(&mut folder, "/");
        push_str(&mut folder, pieces[i].as_str());
        i = i + 1;
    }
    assert(all.drop_last().take(i as int) =~= all.drop_last());
    (folder, pieces[n - 1].clone())
}

} // verus!

verus! {

/// The answers are those given at first, and at least `u0` of them, but no
/// more than there are, have been used.
/// The value of a literal that needs nothing to be computed: a whole number,
/// a text, a truth value or `nophe`.
pub open spec fn literal_value(x: Expr) -> Option<IType> {
    match x {
        Expr::Int(n) => Some(IType { kind: TypeKind::Int, value: IValue::Int(n) }),
        Expr::Str(t) => Some(IType { kind: TypeKind::Str, value: IValue::Str(t) }),
        Expr::Bool(b) => Some(IType { kind: TypeKind::Bool, value: IValue::Bool(b) }),
        Expr::Void => Some(IType { kind: TypeKind::Void, value: IValue::Void }),
        _ => None,
    }
}

/// Whether every expression is such a literal.
pub open spec fn literal_exprs(s: Seq<Expr>) -> bool {
    forall|i: int| 0 <= i < s.len() ==> #[trigger] literal_value(s[i]) is Some
}

/// Whether every named value is such a literal.
pub open spec fn literal_feats(s: Seq<(String, Expr)>) -> bool {
    forall|i: int| 0 <= i < s.len() ==> literal_value(#[trigger] s[i].1) is Some
}

/// The values of such literals.
pub open spec fn literal_values(s: Seq<Expr>) -> Seq<IType> {
    Seq::new(s.len(), |i: int| literal_value(s[i])->Some_0)
}

/// The key and value expressions of a map literal.
pub open spec fn dict_items(e: Expr) -> Seq<(ExprNode, ExprNode)> {
    match e {
        Expr::Dict(_, items) => items@,
        Expr::LibDict(_, _, items) => items@,
        _ => seq![],
    }
}

/// The names of the macros that are built in.
pub open spec fn builtin_macro(s: Seq<char>) -> bool {
    s == "pyrintnos"@ || s == "pyrintnosFowLt"@ || s == "morfenlnos"@
}

/// How a call of the function `fi` with `args` ends before its body runs, or
/// what its value must be: a missing function or a function without
/// parameters aborts, a collecting parameter wants at least one argument,
/// another the one argument of its kind; the value is of the declared kind.
/// Two values alike: the same kind and value, texts compared by their
/// characters.
pub open spec fn same_ivalue(a: IType, b: IType) -> bool {
    a.kind == b.kind && (a.value == b.value || (a.value matches IValue::Str(x) && b.value matches IValue::Str(y) && x@ == y@))
}

/// A copy of a list of statements returns at once what the list does.
pub proof fn lemma_leading_return_copied(a: Seq<StmtNode>, b: Seq<StmtNode>)
    requires
        stmts_same(a, b),
    ensures
        leading_return(a) is Some <==> leading_return(b) is Some,
        leading_return(a) is Some ==> same_ivalue(leading_return(b)->Some_0, leading_return(a)->Some_0),
{
    if a.len() > 0 {
        assert(snode_same(a[0], b[0]));
    }
}

/// What a call of the function `fi` gives when its body returns at once: the
/// value returned, if it has the declared kind, else the kind error.
pub open spec fn returns_leading(funcs: Seq<FuncDef>, fi: usize, r: Result<IType, Halt>) -> bool {
    leading_return(funcs[fi as int].body@) matches Some(v) ==> if returns_as(funcs[fi as int].out, v.kind) {
        r matches Ok(u) && same_ivalue(u, v)
    } else {
        r matches Err(Halt::Error(OnfexError::Runtime { message })) && message@ == kind_text(funcs[fi as int].out, v.kind)
    }
}

pub open spec fn func_call_ok(funcs: Seq<FuncDef>, fi: usize, args: Seq<IType>, r: Result<IType, Halt>) -> bool {
    if fi >= funcs.len() {
        r matches Err(Halt::Abort(m)) && m@ == "invalid function"@
    } else {
        let ps = funcs[fi as int].params@;
        if ps.len() == 0 {
            r matches Err(Halt::Abort(m)) && m@ == index_text(0)
        } else if ps[0].vararg {
            &&& args.len() == 0 ==> (r matches Err(Halt::Error(OnfexError::Runtime { message }))
                && message@ == count_text(ps.len(), true, 0))
            &&& (r matches Ok(v) ==> returns_as(funcs[fi as int].out, v.kind))
            &&& (args.len() > 0 ==> returns_leading(funcs, fi, r))
        } else if args.len() == 0 {
            r matches Err(Halt::Abort(m)) && m@ == index_text(0)
        } else if kind_name(ps[0].kind) != kind_name(args[0].kind) {
            r matches Err(Halt::Error(OnfexError::Runtime { message })) && message@ == kind_text(ps[0].kind, args[0].kind)
        } else if !(ps.len() == 1 && args.len() == 1) {
            r matches Err(Halt::Error(OnfexError::Runtime { message }))
                && message@ == count_text(ps.len(), false, args.len())
        } else {
            &&& (r matches Ok(v) ==> returns_as(funcs[fi as int].out, v.kind))
            &&& returns_leading(funcs, fi, r)
        }
    }
}

/// How a call of the method `fi` on `this` with `args` ends before its body
/// runs: a missing method aborts; a first parameter of kind `srel` wants an
/// instance; the other parameters want as many arguments (when the next
/// free address can be counted on past the instance's).
pub open spec fn method_call_ok(funcs: Seq<FuncDef>, fi: usize, this: Option<IType>, args: Seq<IType>, ptr: usize,
    r: Result<IType, Halt>) -> bool {
    if fi >= funcs.len() {
        r matches Err(Halt::Abort(m)) && m@ == "invalid function"@
    } else {
        let ps = funcs[fi as int].params@;
        let with_self = ps.len() > 0 && ps[0].kind is srel;
        let first: int = if with_self { 1 } else { 0 };
        &&& (with_self && this is None) ==> (r matches Err(Halt::Error(OnfexError::Runtime { message }))
            && message@ == "WrossnosStrouct Ern: '"@ + ps[0].name@
                + "' metodnos srel esp wraithnosan afma instans oft gephnosan"@)
        &&& ((!with_self || (this is Some && ptr < usize::MAX)) && ps.len() - first != args.len())
            ==> (r matches Err(Halt::Error(OnfexError::Runtime { message }))
                && message@ == count_text((ps.len() - first) as nat, false, args.len()))
    }
}

/// A statement that is a literal on its own: it needs nothing and changes
/// nothing.
pub open spec fn quiet(s: Stmt) -> bool {
    s matches Stmt::ExprNode(n) && literal_value(*n.expr) is Some
}

/// The branch of an `ifnt` whose condition is a literal expression statement:
/// the first block when the literal is truthy, otherwise the `elsnt` block
/// (`None` where there is none).
pub open spec fn branch_taken(cond: Stmt, body: Seq<StmtNode>, else_body: Option<Vec<StmtNode>>) -> Option<Seq<StmtNode>> {
    let lit = literal_value(*cond->ExprNode_0.expr)->Some_0;
    if truthy_value(Type { kind: lit.kind, value: operand_value(lit.value) }) {
        Some(body)
    } else {
        match else_body {
            Some(b) => Some(b@),
            None => None,
        }
    }
}

/// Whether `e` prints literals: `pyrintnos!` or `pyrintnosFowLt!` on a text
/// and literals after it.
pub open spec fn print_call(e: Expr) -> bool {
    e matches Expr::Call(callee, args, feats)
        && (*callee matches Expr::Macro(m) && (m@ == "pyrintnos"@ || m@ == "pyrintnosFowLt"@))
        && literal_exprs(args@) && literal_feats(feats@) && args@.len() > 0 && args@[0] is Str
}

/// What such a call asks to print: the text, and whether a line feed follows.
pub open spec fn print_request(e: Expr) -> (Seq<char>, bool) {
    let args = e->Call_1@;
    (printed_text(args[0]->Str_0@, literal_values(args)), e->Call_0->Macro_0@ == "pyrintnosFowLt"@)
}

/// Whether a statement is such a call.
pub open spec fn print_stmt(s: Stmt) -> bool {
    s matches Stmt::ExprNode(n) && print_call(*n.expr)
}

/// The expressions of a list of nodes.
pub open spec fn node_exprs(xs: Seq<ExprNode>) -> Seq<Expr> {
    Seq::new(xs.len(), |i: int| *xs[i].expr)
}

/// Whether every statement of a program is such a call.
pub open spec fn all_prints(p: Seq<StmtNode>) -> bool {
    forall|k: int| 0 <= k < p.len() ==> print_stmt(#[trigger] p[k].stmt)
}

/// Whether statement `j` of a program is `erutnos;` or returns a literal, and
/// every statement before it prints literals.
pub open spec fn prints_then_return(p: Seq<StmtNode>, j: int) -> bool {
    &&& 0 <= j < p.len()
    &&& forall|k: int| 0 <= k < j ==> print_stmt(#[trigger] p[k].stmt)
    &&& (p[j].stmt == Stmt::Return(None) || (p[j].stmt matches Stmt::Return(Some(n)) && literal_value(*n.expr) is Some))
}

/// Whether the next `k` answers of `w` all say that the printing was done.
pub open spec fn printed_next(w: World, k: int) -> bool {
    &&& w.used + k <= w.answers@.len()
    &&& forall|j: int| 0 <= j < k ==> #[trigger] w.answers@[w.used + j] == Answer::Printed
}

/// The block an `ifnt` whose condition has the value `cv` runs: the first
/// one when `cv` is truthy, otherwise the `elsnt` block (`None` where there
/// is none).
pub open spec fn branch_for(cv: IType, body: Seq<StmtNode>, else_body: Option<Vec<StmtNode>>) -> Option<Seq<StmtNode>> {
    if truthy_value(Type { kind: cv.kind, value: operand_value(cv.value) }) {
        Some(body)
    } else {
        match else_body {
            Some(b) => Some(b@),
            None => None,
        }
    }
}

/// What running the statements `b` from the world `w0` is known to give: an
/// empty block gives `nophe`; a leading `erutnos` its value; a block of
/// prints, with an answer for each, `nophe` after using those answers, and
/// with too few answers the request of the first print left unanswered.
pub open spec fn block_outcome(b: Seq<StmtNode>, r: Result<Flow, Halt>, w0: World, w1: World) -> bool {
    &&& (b.len() == 0 ==> r == Ok::<Flow, Halt>(Flow::Normal(IType::void_spec())))
    &&& (leading_return(b) matches Some(v) ==> r == Ok::<Flow, Halt>(Flow::Return(v)))
    &&& ((all_prints(b) && printed_next(w0, b.len() as int))
        ==> r == Ok::<Flow, Halt>(Flow::Normal(IType::void_spec())) && w1.used == w0.used + b.len())
    &&& ({
        let rem = w0.answers@.len() - w0.used;
        all_prints(b) && rem < b.len() && printed_next(w0, rem)
    } ==> (r matches Err(Halt::Ask(Request::Print { text, newline }))
        && (text@, newline) == print_request(*b[w0.answers@.len() - w0.used].stmt->ExprNode_0.expr)))
}

/// The value a list of statements returns at once, when its first statement
/// is `erutnos;` or returns a literal.
pub open spec fn leading_return(body: Seq<StmtNode>) -> Option<IType> {
    if body.len() > 0 {
        match body[0].stmt {
            Stmt::Return(None) => Some(IType::void_spec()),
            Stmt::Return(Some(n)) => literal_value(*n.expr),
            _ => None,
        }
    } else {
        None
    }
}

/// Whether statement `j` of a program is `erutnos;` and every statement
/// before it is a literal on its own.
pub open spec fn returns_after_quiet(p: Seq<StmtNode>, j: int) -> bool {
    &&& 0 <= j < p.len()
    &&& p[j].stmt == Stmt::Return(None)
    &&& forall|k: int| 0 <= k < j ==> quiet(#[trigger] p[k].stmt)
}

pub open spec fn progress(a0: Vec<Answer>, u0: usize, w: World) -> bool {
    &&& w.answers == a0
    &&& u0 <= w.used
    &&& w.used <= w.answers@.len()
}

impl Interpreter {
    /// The value of an expression.
    #[verifier::loop_isolation(false)]
    fn eval(&mut self, world: &mut World, e: &Expr, depth: usize) -> (r: Result<IType, Halt>)
        requires
            old(self).envs@.len() >= 1,
            old(world).used <= old(world).answers@.len(),
        ensures
            final(self).envs@.len() >= 1,
            world_kept(*old(world), *final(world)),
            asks_last(r, *final(world)),
            r is Ok ==> final(self).envs@ == old(self).envs@,
            e is Int ==> r == Ok::<IType, Halt>(IType { kind: TypeKind::Int, value: IValue::Int(e->Int_0) }),
            e is Bool ==> r == Ok::<IType, Halt>(IType { kind: TypeKind::Bool, value: IValue::Bool(e->Bool_0) }),
            e is Void ==> r == Ok::<IType, Halt>(IType { kind: TypeKind::Void, value: IValue::Void }),
            e is Str ==> (r matches Ok(t) && t.kind == TypeKind::Str && t.value == IValue::Str(e->Str_0)),
            e matches Expr::AddressOf(name) ==> match address_spec(old(self).envs@, name@) {
                Some(a) => r == Ok::<IType, Halt>(IType { kind: TypeKind::Ref, value: IValue::Ref(a) }),
                None => (r matches Err(Halt::Error(OnfexError::Runtime { message })) && message@ == not_found(name@)),
            },
            e is Macro ==> r == Ok::<IType, Halt>(IType { kind: TypeKind::Void, value: IValue::Macro(e->Macro_0) }),
            e matches Expr::Variable(name) ==> match lookup_spec(old(self).envs@, name@) {
                Some(t) => r matches Ok(u) && copied(u, t),
                None => (r matches Err(Halt::Error(OnfexError::Runtime { message })) && message@ == not_found(name@)),
            },
            literal_value(*e) is Some ==> *final(world) == *old(world) && final(self).ptr == old(self).ptr,
            e matches Expr::BinaryOp(x, op, y) ==> ((literal_value(**x) is Some && literal_value(**y) is Some)
                ==> operates(literal_value(**x)->Some_0, op@, literal_value(**y)->Some_0, r)),
            e matches Expr::Member(b, f) ==> (literal_value(**b) is Some
                ==> (r matches Err(Halt::Error(OnfexError::Runtime { message })) && message@ == "Typect Ern: '"@ + f@ + "' alt strouct oft nophe"@)),
            e matches Expr::List(tn, items) ==> (literal_exprs(node_exprs(items@)) ==> if tn@ == "vektöre"@ {
                r matches Ok(t) && t.kind == TypeKind::ArrayT && (t.value matches IValue::Array(n, vs) && n@ == tn@
                    && vs@ == literal_values(node_exprs(items@)))
            } else {
                r matches Err(Halt::Error(OnfexError::Runtime { message })) && message@ == "undefined array type '"@ + tn@ + "'"@
            }),
            print_call(*e) ==> (old(world).used >= old(world).answers@.len() ==> (r matches Err(Halt::Ask(Request::Print { text, newline }))
                && (text@, newline) == print_request(*e))),
            print_call(*e) ==> (next_answer(*old(world)) == Some(Answer::Printed)
                ==> r == Ok::<IType, Halt>(IType::void_spec()) && final(world).used == old(world).used + 1),
            e matches Expr::BinaryOp(x, op, y) ==> (plain_value(old(self).envs@, **x) matches Some(lv)
                ==> (plain_value(old(self).envs@, **y) matches Some(rv) ==> operates(lv, op@, rv, r))),
            plain_value(old(self).envs@, *e) matches Some(v) ==> r == Ok::<IType, Halt>(v)
                && *final(world) == *old(world),
        decreases depth, 0nat, e, 1nat,
    {
        let ghost e0 = self.envs@;
        let ghost a0 = world.answers;
        let ghost u0 = world.used;
        match e {
            Expr::Int(x) => Ok(IType::new(TypeKind::Int, IValue::Int(*x))),
            Expr::Float(t) => float_const(world, t),
            Expr::Str(x) => Ok(IType::new(TypeKind::Str, IValue::Str(x.clone()))),
            Expr::Bool(b) => Ok(IType::new(TypeKind::Bool, IValue::Bool(*b))),
            Expr::Void => Ok(IType::void()),
            Expr::Variable(name) => self.lookup(name.as_str()),
            Expr::Macro(s) => Ok(IType::new(TypeKind::Void, IValue::Macro(s.clone()))),
            Expr::Spread(f) => {
                let v = self.eval(world, f, depth)?;
                Ok(IType::new(TypeKind::Sprd, IValue::Sprd(Box::new(v))))
            },
            Expr::AddressOf(name) => {
                let adr = self.lookup_address(name.as_str())?;
                Ok(IType::new(TypeKind::Ref, IValue::Ref(adr)))
            },
            Expr::Deref(inner) => {
                let v = self.eval(world, inner, depth)?;
                match v.value {
                    IValue::Ref(adr) => self.load_from_heap(adr),
                    _ => Err(rt(owned("cannot dereference a non-reference value"))),
                }
            },
            Expr::BinaryOp(l, op, r) => {
                let lv = self.eval(world, l, depth)?;
                let rv = self.eval(world, r, depth)?;
                operate(world, &lv, op.as_str(), &rv)
            },
            Expr::List(tn, items) => {
                let mut vals: Vec<IType> = Vec::new();
                let mut i: usize = 0;
                let ghost xs = node_exprs(items@);
                while i < items.len()
                    invariant
                        self.envs@ == e0,
                        progress(a0, u0, *world),
                        xs == node_exprs(items@),
                        i <= items@.len(),
                        literal_exprs(xs) ==> vals@ == literal_values(xs).take(i as int),
                    decreases items@.len() - i,
                {
                    proof { assert(decreases_to!(*items => items[i as int])); }
                    let v = self.eval(world, &items[i].expr, depth)?;
                    proof {
                        if literal_exprs(xs) {
                            assert(xs[i as int] == *items@[i as int].expr);
                            assert(literal_value(xs[i as int]) is Some);
                            assert(literal_values(xs).take(i + 1) =~= literal_values(xs).take(i as int).push(v));
                        }
                    }
                    vals.push(v);
                    i = i + 1;
                }
                proof { assert(literal_values(xs).take(items@.len() as int) =~= literal_values(xs)); }
                if str_eq(tn.as_str(), "vektöre") {
                    Ok(IType::new(TypeKind::ArrayT, IValue::Array(tn.clone(), vals)))
                } else {
                    Err(rt_named("undefined array type '", tn.as_str(), "'"))
                }
            },
            Expr::Dict(tn, items) => {
                let vals = self.eval_entries(world, e, depth)?;
                if str_eq(tn.as_str(), "mappe") {
                    Ok(IType::new(TypeKind::BufferT, IValue::Buffer(tn.clone(), vals)))
                } else {
                    Err(rt_named("undefined buffer type '", tn.as_str(), "'"))
                }
            },
            Expr::LibList(lib, name, items) => {
                self.inc_ptr()?;
                let mut i: usize = 0;
                while i < items.len()
                    invariant
                        self.envs@ == e0,
                        progress(a0, u0, *world),
                    decreases items@.len() - i,
                {
                    proof { assert(decreases_to!(*items => items[i as int])); }
                    let _v = self.eval(world, &items[i].expr, depth)?;
                    i = i + 1;
                }
                match find_key(&self.libs, lib.as_str()) {
                    Some(_) => Err(message2("undefined array type '", lib.as_str(), "::", name.as_str(), "'")),
                    None => Err(rt_named("undefined library '", lib.as_str(), "'")),
                }
            },
            Expr::LibDict(lib, name, _) => {
                let _vals = self.eval_entries(world, e, depth)?;
                match find_key(&self.libs, lib.as_str()) {
                    Some(_) => Err(message2("undefined buffer type '", lib.as_str(), "::", name.as_str(), "'")),
                    None => Err(rt_named("undefined library '", lib.as_str(), "'")),
                }
            },
            Expr::LibVariable(lib, name) => {
                match find_key(&self.libs, lib.as_str()) {
                    Some(_) => {
                        if str_eq(name.as_str(), "verzen") {
                            Ok(IType::new(TypeKind::Str, IValue::Str(owned("0.5.1"))))
                        } else {
                            Err(message2("undefined var '", lib.as_str(), "->", name.as_str(), "'"))
                        }
                    },
                    None => Err(rt_named("undefined library '", lib.as_str(), "'")),
                }
            },
            Expr::ModVariable(lib, name) => {
                match find_key(&self.mods, lib.as_str()) {
                    Some(j) => {
                        let env = &self.mods[j].1;
                        match find_key(&env.names, name.as_str()) {
                            Some(k) => match find_address(&env.heap, env.names[k].1) {
                                Some(h) => Ok(env.heap[h].1.duplicate()),
                                None => Err(message2("undefined heap address '", lib.as_str(), "!->", name.as_str(), "'")),
                            },
                            None => Err(message2("undefined module variable '", lib.as_str(), "!->", name.as_str(), "'")),
                        }
                    },
                    None => Err(rt_named("undefined module '", lib.as_str(), "'")),
                }
            },
            Expr::Member(base, field) => {
                let recv = self.eval(world, base, depth)?;
                match recv.value {
                    IValue::Struct(h) => world.get_field(h, field.as_str(), &self.current_struct),
                    _ => Err(rt_named("Typect Ern: '", field.as_str(), "' alt strouct oft nophe")),
                }
            },
            Expr::Call(_, _, _) => self.eval_call(world, e, depth),
            Expr::MethodCall(_, _, _) => self.eval_method(world, e, depth),
        }
    }

    /// The entries of a map literal: each key, then its value, in order.
    #[verifier::loop_isolation(false)]
    fn eval_entries(&mut self, world: &mut World, e: &Expr, depth: usize) -> (r: Result<Vec<(IType, IType)>, Halt>)
        requires
            old(self).envs@.len() >= 1,
            old(world).used <= old(world).answers@.len(),
            e is Dict || e is LibDict,
        ensures
            final(self).envs@.len() >= 1,
            world_kept(*old(world), *final(world)),
            asks_last(r, *final(world)),
            r is Ok ==> final(self).envs@ == old(self).envs@,
            r matches Ok(v) ==> v@.len() == dict_items(*e).len(),
            r matches Ok(v) ==> forall|i: int| 0 <= i < v@.len() ==> (literal_value(*dict_items(*e)[i].0.expr) matches Some(t)
                ==> #[trigger] v@[i].0 == t),
            r matches Ok(v) ==> forall|i: int| 0 <= i < v@.len() ==> (literal_value(*dict_items(*e)[i].1.expr) matches Some(t)
                ==> #[trigger] v@[i].1 == t),
            (forall|i: int| 0 <= i < dict_items(*e).len() ==> literal_value(*(#[trigger] dict_items(*e)[i]).0.expr) is Some
                && literal_value(*dict_items(*e)[i].1.expr) is Some) ==> r is Ok,
        decreases depth, 0nat, e, 0nat,
    {
        let ghost e0 = self.envs@;
        let ghost a0 = world.answers;
        let ghost u0 = world.used;
        let items = match e {
            Expr::Dict(_, items) => items,
            Expr::LibDict(_, _, items) => items,
            _ => { return Err(unexpected()); },
        };
        let mut vals: Vec<(IType, IType)> = Vec::new();
        let mut i: usize = 0;
        while i < items.len()
            invariant
                self.envs@ == e0,
                progress(a0, u0, *world),
                items@ == dict_items(*e),
                i <= items@.len(),
                vals@.len() == i,
                forall|j: int| 0 <= j < i ==> (literal_value(*items@[j].0.expr) matches Some(t) ==> #[trigger] vals@[j].0 == t),
                forall|j: int| 0 <= j < i ==> (literal_value(*items@[j].1.expr) matches Some(t) ==> #[trigger] vals@[j].1 == t),
            decreases items@.len() - i,
        {
            proof { assert(decreases_to!(*items => items[i as int])); }
            let k = self.eval(world, &items[i].0.expr, depth)?;
            let v = self.eval(world, &items[i].1.expr, depth)?;
            vals.push((k, v));
            i = i + 1;
        }
        Ok(vals)
    }

    /// A new instance of the type `st`: a type is called with named field
    /// values only.
    fn make_instance(&self, world: &mut World, st: usize, values: &Vec<IType>, ft: &Vec<(String, IType)>) -> (r: Result<IType, Halt>)
        ensures
            r is Err ==> !(r->Err_0 is Ask),
            final(world).answers == old(world).answers,
            final(world).used == old(world).used,
            st >= old(world).types@.len() ==> r matches Err(Halt::Abort(_)),
            (values@.len() > 0 && st < old(world).types@.len()) ==> (r matches Err(Halt::Error(OnfexError::Runtime { message }))
                && message@ == "WrossnosStrouct Ern: '"@ + old(world).types@[st as int].name@
                    + "' strouct örneği alt sadece alan(field) esp gephnosan, promter oft nophe"@),
            (values@.len() == 0 && st < old(world).types@.len())
                ==> (r is Ok <==> fields_given(old(world).types@[st as int].fields@, ft@)),
            r is Ok ==> (r->Ok_0 == (IType { kind: TypeKind::StrctT, value: IValue::Struct(old(world).instances@.len() as usize) })
                && final(world).instances@.len() == old(world).instances@.len() + 1
                && final(world).instances@.last().base == st),
    {
        if values.len() > 0 {
            if st >= world.types.len() {
                return Err(Halt::Abort(owned("invalid strouct type")));
            }
            return Err(rt_named("WrossnosStrouct Ern: '", world.types[st].name.as_str(),
                "' strouct örneği alt sadece alan(field) esp gephnosan, promter oft nophe"));
        }
        world.instantiate_struct(st, ft)
    }

    /// A call: the named field values first, then the arguments (a spread
    /// of collected arguments adds them all), then the callee.
    #[verifier::loop_isolation(false)]
    fn eval_call(&mut self, world: &mut World, e: &Expr, depth: usize) -> (r: Result<IType, Halt>)
        requires
            old(self).envs@.len() >= 1,
            old(world).used <= old(world).answers@.len(),
            e is Call,
        ensures
            final(self).envs@.len() >= 1,
            world_kept(*old(world), *final(world)),
            asks_last(r, *final(world)),
            r is Ok ==> final(self).envs@ == old(self).envs@,
            (literal_exprs(e->Call_1@) && literal_feats(e->Call_2@)) ==> ({
                let callee = *e->Call_0;
                let args = e->Call_1@;
                &&& (!(callee is Variable || callee is Macro || callee is LibVariable || callee is ModVariable)
                    ==> (r matches Err(Halt::Error(OnfexError::Runtime { message })) && message@ == "keonrofins experfal"@))
                &&& (callee matches Expr::Macro(m) ==> (!builtin_macro(m@)
                    ==> (r matches Err(Halt::Error(OnfexError::Runtime { message })) && message@ == "'"@ + m@ + "' is not a function"@)))
                &&& (callee matches Expr::Variable(nam) ==> (lookup_spec(old(self).envs@, nam@) is None
                    ==> (r matches Err(Halt::Error(OnfexError::Runtime { message })) && message@ == not_found(nam@))))
                &&& ((callee matches Expr::Macro(m) && (m@ == "pyrintnos"@ || m@ == "pyrintnosFowLt"@))
                    ==> (args.len() > 0 && args[0] is Str && old(world).used >= old(world).answers@.len()
                    ==> (r matches Err(Halt::Ask(Request::Print { text, newline }))
                        && newline == (callee->Macro_0@ == "pyrintnosFowLt"@)
                        && text@ == printed_text(args[0]->Str_0@, literal_values(args)))))
                &&& ((callee matches Expr::Macro(m) && (m@ == "pyrintnos"@ || m@ == "pyrintnosFowLt"@))
                    ==> (args.len() > 0 && args[0] is Str && next_answer(*old(world)) == Some(Answer::Printed)
                    ==> r == Ok::<IType, Halt>(IType::void_spec()) && final(world).used == old(world).used + 1))
            }),
        decreases depth, 0nat, e, 0nat,
    {
        let ghost e0 = self.envs@;
        let ghost a0 = world.answers;
        let ghost u0 = world.used;
        let (callee, args, feat) = match e {
            Expr::Call(c, a, f) => (c, a, f),
            _ => { return Err(unexpected()); },
        };
        let mut ft: Vec<(String, IType)> = Vec::new();
        let mut i: usize = 0;
        while i < feat.len()
            invariant
                self.envs@ == e0,
                progress(a0, u0, *world),
                feat@ == e->Call_2@,
                literal_feats(feat@) ==> world.used == u0,
            decreases feat@.len() - i,
        {
            proof { assert(decreases_to!(*feat => feat[i as int])); }
            proof { if literal_feats(feat@) { assert(literal_value(feat@[i as int].1) is Some); } }
            let v = self.eval(world, &feat[i].1, depth)?;
            set_key(&mut ft, feat[i].0.clone(), v);
            i = i + 1;
        }
        let mut values: Vec<IType> = Vec::new();
        let mut i: usize = 0;
        while i < args.len()
            invariant
                self.envs@ == e0,
                progress(a0, u0, *world),
                args@ == e->Call_1@,
                i <= args@.len(),
                literal_exprs(args@) ==> values@ == literal_values(args@).take(i as int),
                (literal_exprs(args@) && literal_feats(e->Call_2@)) ==> world.used == u0,
            decreases args@.len() - i,
        {
            proof { assert(decreases_to!(*args => args[i as int])); }
            let v = self.eval(world, &args[i], depth)?;
            proof {
                if literal_exprs(args@) {
                    assert(literal_value(args@[i as int]) is Some);
                    assert(v == literal_values(args@)[i as int]);
                    assert(literal_values(args@).take(i + 1) =~= literal_values(args@).take(i as int).push(v));
                }
            }
            match &v.value {
                IValue::Sprd(inner) => {
                    match &inner.value {
                        IValue::Vect(_, items) => {
                            let mut k: usize = 0;
                            while k < items.len()
                                decreases items@.len() - k,
                            {
                                values.push(items[k].duplicate());
                                k = k + 1;
                            }
                        },
                        _ => {},
                    }
                },
                _ => { values.push(v); },
            }
            i = i + 1;
        }
        proof {
            if literal_exprs(args@) {
                assert(literal_values(args@).take(args@.len() as int) =~= literal_values(args@));
                assert forall|j: int| 1 <= j < values@.len() implies #[trigger] scalar_text(values@[j].value) is Some by {
                    assert(literal_value(args@[j]) is Some);
                }
                if args@.len() > 0 {
                    assert(literal_value(args@[0]) is Some);
                }
            }
            reveal_strlit("pyrintnos");
            reveal_strlit("pyrintnosFowLt");
            assert("pyrintnos"@.len() != "pyrintnosFowLt"@.len());
        }
        match &**callee {
            Expr::Variable(nam) => {
                let f = self.lookup(nam.as_str())?;
                match f.value {
                    IValue::Func(fi) => {
                        if depth == 0 {
                            return Err(Halt::TooDeep);
                        }
                        self.run_func(world, fi, values, depth - 1)
                    },
                    IValue::StructType(st) => self.make_instance(world, st, &values, &ft),
                    _ => Err(rt_named("'", nam.as_str(), "' is not a function")),
                }
            },
            Expr::Macro(s) => {
                if str_eq(s.as_str(), "pyrintnos") {
                    pr(world, &values)
                } else if str_eq(s.as_str(), "pyrintnosFowLt") {
                    prln(world, &values)
                } else if str_eq(s.as_str(), "morfenlnos") {
                    ask(world, &values)
                } else {
                    Err(rt_named("'", s.as_str(), "' is not a function"))
                }
            },
            Expr::LibVariable(lib, name) => {
                match find_key(&self.libs, lib.as_str()) {
                    Some(_) => osp_call(world, lib.as_str(), name.as_str(), &values),
                    None => Err(rt_named("undefined library'", lib.as_str(), "'")),
                }
            },
            Expr::ModVariable(m, name) => {
                let found = match find_key(&self.mods, m.as_str()) {
                    Some(j) => {
                        let env = &self.mods[j].1;
                        match find_key(&env.names, name.as_str()) {
                            Some(k) => match find_address(&env.heap, env.names[k].1) {
                                Some(h) => env.heap[h].1.duplicate(),
                                None => { return Err(unwrap_none()); },
                            },
                            None => { return Err(unwrap_none()); },
                        }
                    },
                    None => { return Err(rt_named("undefined library'", m.as_str(), "'")); },
                };
                match found.value {
                    IValue::Func(fi) => {
                        if depth == 0 {
                            return Err(Halt::TooDeep);
                        }
                        self.run_func(world, fi, values, depth - 1)
                    },
                    IValue::StructType(st) => self.make_instance(world, st, &values, &ft),
                    _ => Err(rt(owned("'undefined' is not a function"))),
                }
            },
            _ => Err(rt(owned("keonrofins experfal"))),
        }
    }

    /// A method call: the receiver, then the arguments, then the method of
    /// the receiver's type (of an instance, with the instance as `srel`).
    #[verifier::loop_isolation(false)]
    fn eval_method(&mut self, world: &mut World, e: &Expr, depth: usize) -> (r: Result<IType, Halt>)
        requires
            old(self).envs@.len() >= 1,
            old(world).used <= old(world).answers@.len(),
            e is MethodCall,
        ensures
            final(self).envs@.len() >= 1,
            world_kept(*old(world), *final(world)),
            asks_last(r, *final(world)),
            r is Ok ==> final(self).envs@ == old(self).envs@,
            (literal_value(*e->MethodCall_0) is Some && literal_exprs(e->MethodCall_2@))
                ==> (r matches Err(Halt::Error(OnfexError::Runtime { message }))
                    && message@ == "Typect Ern: '"@ + e->MethodCall_1@ + "' metodnos strouct esp nophe"@),
        decreases depth, 0nat, e, 0nat,
    {
        let ghost e0 = self.envs@;
        let ghost a0 = world.answers;
        let ghost u0 = world.used;
        let (recv, name, args) = match e {
            Expr::MethodCall(r, n, a) => (r, n, a),
            _ => { return Err(unexpected()); },
        };
        let rv = self.eval(world, recv, depth)?;
        let mut values: Vec<IType> = Vec::new();
        let mut i: usize = 0;
        while i < args.len()
            invariant
                self.envs@ == e0,
                progress(a0, u0, *world),
                args@ == e->MethodCall_2@,
            decreases args@.len() - i,
        {
            proof { assert(decreases_to!(*args => args[i as int])); }
            proof { if literal_exprs(args@) { assert(literal_value(args@[i as int]) is Some); } }
            let v = self.eval(world, &args[i], depth)?;
            values.push(v);
            i = i + 1;
        }
        let (st, this) = match &rv.value {
            IValue::Struct(h) => {
                if *h >= world.instances.len() {
                    return Err(Halt::Abort(owned("invalid strouct instance")));
                }
                (world.instances[*h].base, Some(rv.duplicate()))
            },
            IValue::StructType(st) => (*st, None),
            _ => { return Err(rt_named("Typect Ern: '", name.as_str(), "' metodnos strouct esp nophe")); },
        };
        if st >= world.types.len() {
            return Err(Halt::Abort(owned("invalid strouct type")));
        }
        let fi = match find_key(&world.types[st].methods, name.as_str()) {
            Some(k) => world.types[st].methods[k].1,
            None => {
                return Err(message2("WrossnosStrouct Ern: '", world.types[st].name.as_str(), "' metodnos '",
                    name.as_str(), "' esp gephnosan"));
            },
        };
        let sname = world.types[st].name.clone();
        if depth == 0 {
            return Err(Halt::TooDeep);
        }
        self.run_method(world, sname, fi, this, values, depth - 1)
    }

    /// Runs a statement.
    #[verifier::loop_isolation(false)]
    #[verifier::spinoff_prover]
    #[verifier::rlimit(60)]
    fn exec(&mut self, world: &mut World, stmt: &StmtNode, depth: usize) -> (r: Result<Flow, Halt>)
        requires
            old(self).envs@.len() >= 1,
            old(world).used <= old(world).answers@.len(),
        ensures
            final(self).envs@.len() >= 1,
            world_kept(*old(world), *final(world)),
            asks_last(r, *final(world)),
            r is Ok ==> final(self).envs@.len() == old(self).envs@.len() && final(self).envs@.drop_last() == old(self).envs@.drop_last(),
            stmt.stmt == Stmt::Return(None) ==> r == Ok::<Flow, Halt>(Flow::Return(IType::void_spec()))
                && *final(world) == *old(world),
            stmt.stmt matches Stmt::Return(Some(n)) ==> (literal_value(*n.expr) matches Some(v)
                ==> r == Ok::<Flow, Halt>(Flow::Return(v)) && *final(world) == *old(world)),
            stmt.stmt matches Stmt::Assign(name, n) ==> ((literal_value(*n.expr) is Some && old(self).ptr < usize::MAX)
                ==> (r is Ok && *final(world) == *old(world) && final(self).ptr == old(self).ptr + 1
                    && lookup_spec(final(self).envs@, name@) == literal_value(*n.expr))),
            stmt.stmt matches Stmt::ReAssign(name, n) ==> ((literal_value(*n.expr) is Some
                && address_spec(old(self).envs@, name@) is None)
                ==> (r matches Err(Halt::Error(OnfexError::Runtime { message })) && message@ == not_found(name@))),
            quiet(stmt.stmt) ==> r == Ok::<Flow, Halt>(Flow::Normal(literal_value(*stmt.stmt->ExprNode_0.expr)->Some_0))
                && *final(world) == *old(world) && final(self).envs@ == old(self).envs@,
            stmt.stmt matches Stmt::Assign(name, _) ==> (r is Ok ==> (r->Ok_0 matches Flow::Normal(u)
                && lookup_spec(final(self).envs@, name@) matches Some(t) && copied(u, t))),
            stmt.stmt matches Stmt::FuncCre(name, _, _, _) ==> (r is Ok ==> (lookup_spec(final(self).envs@, name@) matches Some(t)
                && t.kind == TypeKind::FuncInht && t.value is Func)),
            stmt.stmt matches Stmt::StrctCre(name, _, _) ==> (r is Ok ==> (lookup_spec(final(self).envs@, name@) matches Some(t)
                && t.kind == TypeKind::StrctT && t.value is StructType)),
            (stmt.stmt is Mehen && old(self).Import) ==> (r == Ok::<Flow, Halt>(Flow::Normal(IType::void_spec()))
                && final(self).envs == old(self).envs && final(self).ptr == old(self).ptr && *final(world) == *old(world)),
            stmt.stmt matches Stmt::Import(name) ==> (r is Ok <==> name@ == "osp"@),
            print_stmt(stmt.stmt) ==> (old(world).used >= old(world).answers@.len() ==> (r matches Err(Halt::Ask(Request::Print { text, newline }))
                && (text@, newline) == print_request(*stmt.stmt->ExprNode_0.expr))),
            print_stmt(stmt.stmt) ==> (next_answer(*old(world)) == Some(Answer::Printed)
                ==> r == Ok::<Flow, Halt>(Flow::Normal(IType::void_spec())) && final(world).used == old(world).used + 1),
            (stmt.stmt is Mod && old(self).selfAccess) ==> (r matches Err(Halt::Error(OnfexError::Runtime { message }))
                && message@ == "Mot Ern: Mot Freat keonaertenosfer"@),
            forall|x: Seq<char>| (#[trigger] names_variable(stmt.stmt, x) && lookup_spec(old(self).envs@, x) is None)
                ==> (r matches Err(Halt::Error(OnfexError::Runtime { message })) && message@ == not_found(x)),
            stmt.stmt matches Stmt::ExprNode(n) ==> (plain_value(old(self).envs@, *n.expr) matches Some(v)
                ==> r == Ok::<Flow, Halt>(Flow::Normal(v)) && *final(world) == *old(world)
                    && final(self).envs@ == old(self).envs@),
            stmt.stmt matches Stmt::IfElse(c, body, eb) ==> (c.stmt matches Stmt::ExprNode(n)
                ==> (plain_value(old(self).envs@, *n.expr) matches Some(cv) ==> match branch_for(cv, body@, eb) {
                    Some(b) => block_outcome(b, r, *old(world), *final(world)),
                    None => r == Ok::<Flow, Halt>(Flow::Normal(IType::void_spec())),
                })),
            stmt.stmt matches Stmt::IfElse(c, body, eb) ==> (quiet(c.stmt) ==> match branch_taken(c.stmt, body@, eb) {
                Some(b) => (b.len() == 0 ==> r == Ok::<Flow, Halt>(Flow::Normal(IType::void_spec())))
                    && (leading_return(b) matches Some(v) ==> r == Ok::<Flow, Halt>(Flow::Return(v))),
                None => r == Ok::<Flow, Halt>(Flow::Normal(IType::void_spec())),
            }),
            stmt.stmt matches Stmt::TypeMod(new, _) ==> (!(forall|i: int| 0 <= i < new@.len() ==> name_chars().contains(#[trigger] new@[i]))
                ==> (r matches Err(Halt::Error(OnfexError::Runtime { message })) && message@ == "WrossnosMot Ern: meess asp"@)),
        decreases depth, 1nat, stmt, 1nat,
    {
        match &stmt.stmt {
            Stmt::ExprNode(x) => {
                let v = self.eval(world, &x.expr, depth)?;
                Ok(Flow::Normal(v))
            },
            Stmt::Assign(name, x) => {
                let adr = self.ptr;
                let v = self.eval(world, &x.expr, depth)?;
                let shown = v.duplicate();
                self.bind(name.clone(), adr, v);
                self.inc_ptr()?;
                Ok(Flow::Normal(shown))
            },
            Stmt::ReAssign(name, x) => {
                let adr = self.lookup_address(name.as_str())?;
                let v = self.eval(world, &x.expr, depth)?;
                self.store_here(adr, v);
                Ok(Flow::Normal(IType::void()))
            },
            Stmt::MemberAssign(base, field, val) => {
                let recv = self.eval(world, &base.expr, depth)?;
                match recv.value {
                    IValue::Struct(h) => {
                        let v = self.eval(world, &val.expr, depth)?;
                        world.set_field(h, field.as_str(), v.duplicate(), &self.current_struct)?;
                        Ok(Flow::Normal(v))
                    },
                    _ => Err(rt_named("Typect Ern: '", field.as_str(), "' alt strouct oft nophe")),
                }
            },
            Stmt::Return(x) => match x {
                Some(x) => {
                    let v = self.eval(world, &x.expr, depth)?;
                    Ok(Flow::Return(v))
                },
                None => Ok(Flow::Return(IType::void())),
            },
            Stmt::Import(name) => {
                if str_eq(name.as_str(), "osp") {
                    set_key(&mut self.libs, name.clone(), owned("osp"));
                    Ok(Flow::Normal(IType::void()))
                } else {
                    Err(rt_named("library '", name.as_str(), "' not found"))
                }
            },
            Stmt::Mod(_) => self.exec_mod(world, stmt, depth),
            Stmt::TypeLib(new, old) => {
                match find_key(&self.libs, old.as_str()) {
                    Some(j) => {
                        let (_, lib) = self.libs.remove(j);
                        set_key(&mut self.libs, new.clone(), lib);
                        Ok(Flow::Normal(IType::void()))
                    },
                    None => Err(rt_named("WrossnosLrib Ern: keoninferins lrib ", old.as_str(), "")),
                }
            },
            Stmt::TypeMod(new, old) => {
                if !check_string(new.as_str()) {
                    return Err(rt(owned("WrossnosMot Ern: meess asp")));
                }
                match find_key(&self.mods, old.as_str()) {
                    Some(j) => {
                        let (_, env) = self.mods.remove(j);
                        set_key(&mut self.mods, new.clone(), env);
                        Ok(Flow::Normal(IType::void()))
                    },
                    None => Err(rt_named("WrossnosMot Ern: keoninferins mot ", old.as_str(), "")),
                }
            },
            Stmt::IfElse(cnd, body, eb) => {
                let ghost e_before = self.envs@;
                self.enter_scope();
                proof {
                    if cnd.stmt is ExprNode {
                        lemma_empty_scope_keeps_values(e_before, self.envs@, *cnd.stmt->ExprNode_0.expr);
                    }
                }
                let c = match self.exec(world, cnd, depth)? {
                    Flow::Normal(v) => v,
                    Flow::Return(v) => v,
                };
                let res = if is_truthy(&as_operand(&c)) {
                    self.exec_block(world, body, depth)
                } else {
                    match eb {
                        Some(b) => self.exec_block(world, b, depth),
                        None => Ok(Flow::Normal(IType::void())),
                    }
                };
                self.exit_scope();
                res
            },
            Stmt::Mehen(body) => {
                if self.Import {
                    return Ok(Flow::Normal(IType::void()));
                }
                self.enter_scope();
                let res = self.exec_block(world, body, depth);
                self.exit_scope();
                res
            },
            Stmt::FuncCre(name, params, body, out) => {
                world.funcs.push(FuncDef { params: clone_params(params), body: copy_stmts(body), out: *out });
                let fi = world.funcs.len() - 1;
                let adr = self.ptr;
                self.bind(name.clone(), adr, IType::new(TypeKind::FuncInht, IValue::Func(fi)));
                self.inc_ptr()?;
                Ok(Flow::Normal(IType::void()))
            },
            Stmt::StrctCre(name, fields, funcs) => {
                let mut methods: Vec<(String, usize)> = Vec::new();
                let mut i: usize = 0;
                while i < funcs.len()
                    invariant
                        world.answers == old(world).answers,
                        world.used == old(world).used,
                    decreases funcs@.len() - i,
                {
                    match &funcs[i].1 {
                        Stmt::FuncCre(n, p, b, o) => {
                            world.funcs.push(FuncDef { params: clone_params(p), body: copy_stmts(b), out: *o });
                            let fi = world.funcs.len() - 1;
                            set_key(&mut methods, n.clone(), fi);
                        },
                        _ => {},
                    }
                    i = i + 1;
                }
                world.types.push(IStructType { name: name.clone(), fields: clone_fields(fields), methods });
                let ti = world.types.len() - 1;
                let adr = self.ptr;
                self.bind(name.clone(), adr, IType::new(TypeKind::StrctT, IValue::StructType(ti)));
                self.inc_ptr()?;
                Ok(Flow::Normal(IType::void()))
            },
        }
    }

    /// Runs statements in order, up to a `erutnos`: its value, or that of the
    /// last statement (`nophe` for none).
    #[verifier::loop_isolation(false)]
    fn exec_block(&mut self, world: &mut World, body: &Vec<StmtNode>, depth: usize) -> (r: Result<Flow, Halt>)
        requires
            old(self).envs@.len() >= 1,
            old(world).used <= old(world).answers@.len(),
        ensures
            final(self).envs@.len() >= 1,
            world_kept(*old(world), *final(world)),
            asks_last(r, *final(world)),
            r is Ok ==> final(self).envs@.len() == old(self).envs@.len() && final(self).envs@.drop_last() == old(self).envs@.drop_last(),
            body@.len() == 0 ==> r == Ok::<Flow, Halt>(Flow::Normal(IType::void_spec())) && *final(world) == *old(world)
                && final(self).envs == old(self).envs,
            (body@.len() > 0 && body@[0].stmt == Stmt::Return(None)) ==> r == Ok::<Flow, Halt>(Flow::Return(IType::void_spec())),
            leading_return(body@) matches Some(v) ==> r == Ok::<Flow, Halt>(Flow::Return(v)),
            body@.len() > 0 ==> (body@[0].stmt matches Stmt::Import(name) ==> (name@ != "osp"@ ==> r is Err)),
            block_outcome(body@, r, *old(world), *final(world)),
        decreases depth, 1nat, body, 1nat,
    {
        let ghost n0 = self.envs@.len();
        let ghost d0 = self.envs@.drop_last();
        let ghost a0 = world.answers;
        let ghost u0 = world.used;
        let ghost w0 = *world;
        let ghost v0 = self.envs;
        let ghost rem: int = world.answers@.len() - world.used;
        let ghost pp = all_prints(body@) && printed_next(*world, if rem < body@.len() { rem } else { body@.len() as int });
        let mut out = IType::void();
        let mut i: usize = 0;
        while i < body.len()
            invariant
                i <= body@.len(),
                pp == (all_prints(body@) && printed_next(w0, if rem < body@.len() { rem } else { body@.len() as int })),
                rem == w0.answers@.len() - w0.used,
                pp ==> world.used == u0 + i && i <= rem && out == IType::void_spec(),
                self.envs@.len() == n0,
                self.envs@.drop_last() == d0,
                progress(a0, u0, *world),
                i > 0 ==> (body@[0].stmt matches Stmt::Import(name) ==> name@ == "osp"@),
                i > 0 ==> body@[0].stmt != Stmt::Return(None),
                i > 0 ==> leading_return(body@) is None,
                body@.len() == 0 ==> *world == w0 && self.envs == v0 && out == IType::void_spec(),
            decreases body@.len() - i,
        {
            proof { assert(decreases_to!(*body => body[i as int])); }
            proof {
                if pp {
                    assert(print_stmt(body@[i as int].stmt));
                    if i < rem {
                        assert(w0.answers@[w0.used + i] == Answer::Printed);
                    }
                }
            }
            match self.exec(world, &body[i], depth)? {
                Flow::Normal(v) => { out = v; },
                Flow::Return(v) => { return Ok(Flow::Return(v)); },
            }
            i = i + 1;
        }
        proof {
            if all_prints(body@) && printed_next(w0, body@.len() as int) {
                assert(rem >= body@.len());
                assert(pp);
            }
        }
        Ok(Flow::Normal(out))
    }

    /// `mot`: runs the document the name points to as an import and keeps
    /// its outermost scope under the document's name without `.onfex`.
    fn exec_mod(&mut self, world: &mut World, stmt: &StmtNode, depth: usize) -> (r: Result<Flow, Halt>)
        requires
            old(self).envs@.len() >= 1,
            old(world).used <= old(world).answers@.len(),
            stmt.stmt is Mod,
        ensures
            final(self).envs@.len() >= 1,
            world_kept(*old(world), *final(world)),
            asks_last(r, *final(world)),
            final(self).envs@ == old(self).envs@,
            old(self).selfAccess ==> (r matches Err(Halt::Error(OnfexError::Runtime { message }))
                && message@ == "Mot Ern: Mot Freat keonaertenosfer"@),
            (!old(self).selfAccess && old(world).used >= old(world).answers@.len())
                ==> (r matches Err(Halt::Ask(Request::ReadFile { path }))
                    && path@ == module_file_path(stmt.stmt->Mod_0@, old(self).path@)),
            (!old(self).selfAccess && next_answer(*old(world)) is Some && !(next_answer(*old(world)).unwrap() is File))
                ==> (r matches Err(Halt::Abort(m)) && m@ == unexpected_text()),
        decreases depth, 1nat, stmt, 0nat,
    {
        let nam = match &stmt.stmt {
            Stmt::Mod(n) => n,
            _ => { return Err(unexpected()); },
        };
        if self.selfAccess {
            return Err(rt(owned("Mot Ern: Mot Freat keonaertenosfer")));
        }
        let (folder, file) = module_place(nam.as_str(), self.path.as_str());
        let mut full = folder.clone();
        push_str(&mut full, "/");
        push_str(&mut full, file.as_str());
        let code = match world.ask(Request::ReadFile { path: full })? {
            Answer::File(Some(c)) => c,
            Answer::File(None) => {
                let mut m = owned("Dophcumt Opernal Ern: ern oft rendnen dophcumt: ");
                push_str(&mut m, folder.as_str());
                report(world, &OnfexError::runtime(m))?;
                String::new()
            },
            _ => { return Err(unexpected()); },
        };
        if depth == 0 {
            return Err(Halt::TooDeep);
        }
        let env = run_module(world, code, folder, depth - 1)?;
        proof { reveal_strlit(".onfex"); }
        let modname = replace_all(file.as_str(), ".onfex", "");
        set_key(&mut self.mods, modname, env);
        Ok(Flow::Normal(IType::void()))
    }

    /// Calls a function: a parameter marked `!` collects all the arguments;
    /// otherwise the one parameter takes the one argument, of its kind. The
    /// value returned must be of the declared kind.
    fn run_func(&mut self, world: &mut World, fi: usize, args: Vec<IType>, depth: usize) -> (r: Result<IType, Halt>)
        requires
            old(self).envs@.len() >= 1,
            old(world).used <= old(world).answers@.len(),
        ensures
            final(self).envs@.len() >= 1,
            world_kept(*old(world), *final(world)),
            asks_last(r, *final(world)),
            r is Ok ==> final(self).envs@ == old(self).envs@,
            func_call_ok(old(world).funcs@, fi, args@, r),
        decreases depth, 2nat, args, 0nat,
    {
        if fi >= world.funcs.len() {
            return Err(Halt::Abort(owned("invalid function")));
        }
        let params = clone_params(&world.funcs[fi].params);
        let body = copy_stmts(&world.funcs[fi].body);
        let out = world.funcs[fi].out;
        self.enter_scope();
        if params.len() == 0 {
            return Err(index_panic(0));
        }
        let adr = self.ptr;
        if params[0].vararg {
            if args.len() == 0 {
                return Err(count_error(params.len(), true, 0));
            }
            let n = args.len();
            self.bind(params[0].name.clone(), adr, IType::new(TypeKind::Vect, IValue::Vect(n, args)));
        } else {
            if args.len() == 0 {
                return Err(index_panic(0));
            }
            if !params[0].kind.equal(args[0].kind) {
                return Err(kind_error(params[0].kind, args[0].kind));
            }
            let n = args.len();
            let first = args[0].duplicate();
            self.bind(params[0].name.clone(), adr, first);
            if !(params.len() == 1 && n == 1) {
                return Err(count_error(params.len(), false, n));
            }
        }
        proof { lemma_leading_return_copied(old(world).funcs@[fi as int].body@, body@); }
        let res = self.exec_block(world, &body, depth);
        self.exit_scope();
        let v = match res? {
            Flow::Return(v) => v,
            Flow::Normal(_) => IType::void(),
        };
        if !check_return_kind(&out, &as_operand(&v)) {
            return Err(kind_error(out, v.kind));
        }
        Ok(v)
    }

    /// Calls a method of the `strouct` named `sname`, whose private fields it
    /// may use.
    fn run_method(&mut self, world: &mut World, sname: String, fi: usize, this: Option<IType>, args: Vec<IType>, depth: usize) -> (r: Result<IType, Halt>)
        requires
            old(self).envs@.len() >= 1,
            old(world).used <= old(world).answers@.len(),
        ensures
            final(self).envs@.len() >= 1,
            world_kept(*old(world), *final(world)),
            asks_last(r, *final(world)),
            r is Ok ==> final(self).envs@ == old(self).envs@,
            final(self).current_struct == old(self).current_struct,
            method_call_ok(old(world).funcs@, fi, this, args@, old(self).ptr, r),
        decreases depth, 2nat, args, 1nat,
    {
        let prev = match &self.current_struct {
            Some(s) => Some(s.clone()),
            None => None,
        };
        self.current_struct = Some(sname);
        let res = self.method_body(world, fi, this, args, depth);
        self.current_struct = prev;
        res
    }

    /// The body of a method call: a first parameter of kind `srel` takes the
    /// instance; the others take the arguments, as many as there are.
    #[verifier::loop_isolation(false)]
    fn method_body(&mut self, world: &mut World, fi: usize, this: Option<IType>, args: Vec<IType>, depth: usize) -> (r: Result<IType, Halt>)
        requires
            old(self).envs@.len() >= 1,
            old(world).used <= old(world).answers@.len(),
        ensures
            final(self).envs@.len() >= 1,
            world_kept(*old(world), *final(world)),
            asks_last(r, *final(world)),
            r is Ok ==> final(self).envs@ == old(self).envs@,
            method_call_ok(old(world).funcs@, fi, this, args@, old(self).ptr, r),
        decreases depth, 2nat, args, 0nat,
    {
        if fi >= world.funcs.len() {
            return Err(Halt::Abort(owned("invalid function")));
        }
        let params = clone_params(&world.funcs[fi].params);
        let body = copy_stmts(&world.funcs[fi].body);
        let ghost n0 = self.envs@.len();
        let ghost e0 = self.envs@;
        self.enter_scope();
        let mut first: usize = 0;
        if params.len() > 0 && matches!(params[0].kind, TypeKind::srel) {
            match this {
                Some(me) => {
                    let adr = self.ptr;
                    self.bind(params[0].name.clone(), adr, me);
                    self.inc_ptr()?;
                    first = 1;
                },
                None => {
                    self.exit_scope();
                    return Err(rt_named("WrossnosStrouct Ern: '", params[0].name.as_str(),
                        "' metodnos srel esp wraithnosan afma instans oft gephnosan"));
                },
            }
        }
        if params.len() - first != args.len() {
            self.exit_scope();
            return Err(count_error(params.len() - first, false, args.len()));
        }
        let mut k: usize = 0;
        while k < args.len()
            invariant
                self.envs@.len() == n0 + 1,
                self.envs@.drop_last() == e0,
                first + args@.len() == params@.len(),
            decreases args@.len() - k,
        {
            let adr = self.ptr;
            self.bind(params[first + k].name.clone(), adr, args[k].duplicate());
            self.inc_ptr()?;
            k = k + 1;
        }
        let res = self.exec_block(world, &body, depth);
        self.exit_scope();
        match res? {
            Flow::Normal(v) => Ok(v),
            Flow::Return(v) => Ok(v),
        }
    }

    /// Runs a program: its statements in order, up to a `erutnos` at the top.
    #[verifier::loop_isolation(false)]
    pub fn run(&mut self, world: &mut World, program: &Vec<StmtNode>, depth: usize) -> (r: Result<(), Halt>)
        requires
            old(self).envs@.len() >= 1,
            old(world).used <= old(world).answers@.len(),
        ensures
            final(self).envs@.len() >= 1,
            world_kept(*old(world), *final(world)),
            asks_last(r, *final(world)),
            r is Ok ==> final(self).envs@.len() == old(self).envs@.len() && final(self).envs@.drop_last() == old(self).envs@.drop_last(),
            program@.len() == 0 ==> r is Ok && final(world).used == old(world).used,
            program@.len() == 0 ==> final(self).envs == old(self).envs,
            (exists|j: int| returns_after_quiet(program@, j)) ==> r is Ok && *final(world) == *old(world),
            (forall|k: int| 0 <= k < program@.len() ==> quiet(#[trigger] program@[k].stmt))
                ==> r is Ok && *final(world) == *old(world),
            (program@.len() > 0 && program@[0].stmt == Stmt::Return(None)) ==> r is Ok,
            program@.len() > 0 ==> (program@[0].stmt matches Stmt::Import(name) ==> (name@ != "osp"@ ==> r is Err)),
            (program@.len() > 0 && program@[0].stmt is Mod && old(self).selfAccess)
                ==> (r matches Err(Halt::Error(OnfexError::Runtime { message })) && message@ == "Mot Ern: Mot Freat keonaertenosfer"@),
            forall|x: Seq<char>| (program@.len() > 0 && #[trigger] names_variable(program@[0].stmt, x)
                && lookup_spec(old(self).envs@, x) is None)
                ==> (r matches Err(Halt::Error(OnfexError::Runtime { message })) && message@ == not_found(x)),
            (all_prints(program@) && printed_next(*old(world), program@.len() as int))
                ==> r is Ok && final(world).used == old(world).used + program@.len(),
            forall|j: int| (#[trigger] prints_then_return(program@, j) && printed_next(*old(world), j))
                ==> r is Ok && final(world).used == old(world).used + j,
            ({
                let rem = old(world).answers@.len() - old(world).used;
                all_prints(program@) && rem < program@.len() && printed_next(*old(world), rem)
            }) ==> (r matches Err(Halt::Ask(Request::Print { text, newline })) && (text@, newline)
                == print_request(*program@[old(world).answers@.len() - old(world).used].stmt->ExprNode_0.expr)
                && final(world).used == old(world).answers@.len()),
        decreases depth, 2nat, program, 0nat,
    {
        let ghost n0 = self.envs@.len();
        let ghost d0 = self.envs@.drop_last();
        let ghost a0 = world.answers;
        let ghost u0 = world.used;
        let ghost v0 = self.envs;
        let ghost w0 = *world;
        let ghost rem: int = world.answers@.len() - world.used;
        let ghost pp = all_prints(program@) && printed_next(*world, if rem < program@.len() { rem } else { program@.len() as int });
        let ghost ptr = exists|j: int| prints_then_return(program@, j) && printed_next(w0, j);
        let ghost jp: int = choose|j: int| prints_then_return(program@, j) && printed_next(w0, j);
        let ghost has_return = exists|j: int| returns_after_quiet(program@, j);
        let ghost jr: int = choose|j: int| returns_after_quiet(program@, j);
        let mut i: usize = 0;
        while i < program.len()
            invariant
                self.envs@.len() == n0,
                self.envs@.drop_last() == d0,
                progress(a0, u0, *world),
                program@.len() == 0 ==> world.used == u0,
                i > 0 ==> (program@[0].stmt matches Stmt::Import(name) ==> name@ == "osp"@),
                i > 0 ==> program@[0].stmt != Stmt::Return(None),
                program@.len() == 0 ==> self.envs == v0,
                has_return ==> returns_after_quiet(program@, jr) && i <= jr && *world == w0,
                i == 0 ==> *self == *old(self),
                i <= program@.len(),
                ptr ==> prints_then_return(program@, jp) && printed_next(w0, jp) && i <= jp && world.used == u0 + i,
                pp ==> world.used == u0 + i && i <= rem && all_prints(program@)
                    && printed_next(w0, if rem < program@.len() { rem } else { program@.len() as int }),
                i > 0 ==> !(program@[0].stmt is Mod && old(self).selfAccess),
                i > 0 ==> forall|x: Seq<char>| !(#[trigger] names_variable(program@[0].stmt, x)
                    && lookup_spec(old(self).envs@, x) is None),
                (forall|k: int| 0 <= k < program@.len() ==> quiet(#[trigger] program@[k].stmt)) ==> *world == w0,
            decreases program@.len() - i,
        {
            proof { if has_return && i < jr { assert(quiet(program@[i as int].stmt)); } }
            let ghost all_quiet = forall|k: int| 0 <= k < program@.len() ==> quiet(#[trigger] program@[k].stmt);
            proof {
                if all_quiet { assert(quiet(program@[i as int].stmt)); }
                if pp {
                    assert(print_stmt(program@[i as int].stmt));
                    if i < rem {
                        assert(w0.answers@[w0.used + i] == Answer::Printed);
                    }
                }
                if ptr && i < jp {
                    assert(print_stmt(program@[i as int].stmt));
                    assert(w0.answers@[w0.used + i] == Answer::Printed);
                }
            }
            match self.exec(world, &program[i], depth)? {
                Flow::Normal(_) => {},
                Flow::Return(_) => { return Ok(()); },
            }
            i = i + 1;
        }
        proof {
            if all_prints(program@) && printed_next(w0, program@.len() as int) {
                assert(rem >= program@.len());
                assert(pp);
            }
            if ptr {
                assert(prints_then_return(program@, jp));
            }
            assert forall|j: int| #[trigger] prints_then_return(program@, j) && printed_next(w0, j) implies false by {
                assert(ptr);
                if j < jp { assert(print_stmt(program@[j].stmt)); }
                if jp < j { assert(print_stmt(program@[jp].stmt)); }
            }
        }
        Ok(())
    }
}

/// The syntax tree of `code`; a text the lexer cannot read to its end stops
/// the run as indexing past the end of it does.
fn parse_source(code: String) -> (r: Result<Result<Vec<StmtNode>, OnfexError>, Halt>)
    ensures
        r is Err ==> r->Err_0 is Abort,
        (code@.len() > 0 && code@.last() == '=') ==> (r matches Err(Halt::Abort(m)) && m@ == index_text(code@.len())),
        (code@.len() < usize::MAX && source_ok(code@)) ==> r is Ok,
        (code@.len() < usize::MAX && source_ok(code@) && blank(code@)) ==> (r matches Ok(Ok(v)) && v@.len() == 0),
        (code@.len() < usize::MAX && source_ok(code@) && lex_at(code@, ws_end(code@, 0)).0 is Err)
            ==> (r matches Ok(Err(e)) && e is Lexer),
        forall|n: nat| (code@.len() < usize::MAX && source_ok(code@) && #[trigger] literal_statements(code@, n))
            ==> (r matches Ok(Ok(v)) && v@.len() == n && forall|k: int| 0 <= k < n ==> quiet((#[trigger] v@[k]).stmt)),
        starts_with_module(code@) ==> (r matches Ok(Ok(v)) ==> v@.len() > 0 && v@[0].stmt is Mod),
        r matches Ok(Err(e)) ==> syntax_error(e),
        forall|n: nat| (code@.len() < usize::MAX && source_ok(code@) && #[trigger] print_program(code@, n))
            ==> (r matches Ok(Ok(v)) && v@.len() == n && all_prints(v@)
                && forall|k: int| 0 <= k < n ==> print_request(*(#[trigger] v@[k]).stmt->ExprNode_0.expr)
                    == print_asked(code@, k as nat)),
        forall|x: Seq<char>| #[trigger] starts_with_name(code@, x) ==> (r matches Ok(Ok(v)) ==> v@.len() > 0
            && names_variable(v@[0].stmt, x)),
{
    let cs = chars_of(code.as_str());
    let n = cs.len();
    if n == usize::MAX || (n > 0 && cs[n - 1] == '=') {
        return Err(index_panic(n));
    }
    let ghost src = code@;
    let lexer = Lexer::new(code);
    match Parser::new(lexer) {
        Ok(mut p) => {
            proof {
                if blank(src) {
                    assert(lex_at(src, ws_end(src, 0)).0 == Ok::<Tok, Seq<char>>(Tok::EOF));
                    assert(p.current_kind() == Tok::EOF);
                }
            }
            let ghost p0 = p;
            let ghost lit = exists|n: nat| literal_statements(src, n);
            let ghost n: nat = choose|n: nat| literal_statements(src, n);
            proof {
                if lit {
                    assert forall|j: nat| j < n implies (#[trigger] p0.tok_ahead(2 * j) matches Some(t) && single_token(t))
                        && p0.tok_ahead(2 * j + 1) == Some(Tok::Semi) by {
                        assert(lex_nth(src, 0, 2 * j) matches Some(t) && literal_token(t));
                    }
                    assert(p0.tok_ahead(2 * n) == Some(Tok::EOF));
                    assert forall|i: nat| i <= 2 * n + 1 implies #[trigger] p0.tok_ahead(i) is Some by {
                        assert(lex_nth(src, 0, i) is Some);
                    }
                    assert(p0.expr_stmts(n));
                }
            }
            let r = p.parse();
            proof {
                p0.lemma_first_two();
                assert forall|x: Seq<char>| #[trigger] starts_with_name(src, x) implies (r matches Ok(v) ==> v@.len() > 0
                    && names_variable(v@[0].stmt, x)) by {
                    assert(p0.tok_ahead(0) == lex_nth(src, 0, 0));
                    assert(p0.tok_ahead(1) == lex_nth(src, 0, 1));
                    assert forall|i: nat| i <= 3 implies #[trigger] p0.tok_ahead(i) is Some by {
                        assert(lex_nth(src, 0, i) is Some);
                    }
                    assert(p0.reads(3));
                }
                if starts_with_module(src) {
                    assert(p0.tok_ahead(0) == lex_nth(src, 0, 0));
                }
                assert forall|n: nat| #[trigger] print_program(src, n) implies (r matches Ok(v) && v@.len() == n
                    && all_prints(v@) && forall|k: int| 0 <= k < n ==> print_request(*(#[trigger] v@[k]).stmt->ExprNode_0.expr)
                        == print_asked(src, k as nat)) by {
                    assert forall|j: nat| j < n implies #[trigger] p0.macro_tokens_at(6 * j) by {
                        assert(print_tokens_at(src, 6 * j));
                        assert(p0.tok_ahead(6 * j) == lex_nth(src, 0, 6 * j));
                        assert(p0.tok_ahead(6 * j + 3) == lex_nth(src, 0, 6 * j + 3));
                    }
                    assert forall|i: nat| i <= 6 * n + 1 implies #[trigger] p0.tok_ahead(i) is Some by {
                        assert(lex_nth(src, 0, i) is Some);
                    }
                    assert(p0.macro_stmts(n));
                    let v = r->Ok_0;
                    assert forall|k: int| 0 <= k < n implies print_stmt((#[trigger] v@[k]).stmt)
                        && print_request(*v@[k].stmt->ExprNode_0.expr) == print_asked(src, k as nat) by {
                        assert(print_tokens_at(src, (6 * k) as nat));
                        assert(p0.tok_ahead((6 * k) as nat) == lex_nth(src, 0, (6 * k) as nat));
                        assert(p0.tok_ahead((6 * k + 3) as nat) == lex_nth(src, 0, (6 * k + 3) as nat));
                        let e = *v@[k].stmt->ExprNode_0.expr;
                        let args = e->Call_1@;
                        assert(literal_exprs(args));
                        assert(literal_feats(e->Call_2@));
                        assert(Seq::new((literal_values(args).len() - 1) as nat,
                            |i: int| scalar_text(literal_values(args)[i + 1].value)->Some_0) =~= Seq::<Seq<char>>::empty());
                    }
                }
            }
            proof {
                if lit {
                    let v = r->Ok_0;
                    assert forall|k: int| 0 <= k < n implies quiet((#[trigger] v@[k]).stmt) by {
                        assert(lex_nth(src, 0, 2 * (k as nat)) matches Some(t) && literal_token(t));
                    }
                }
                assert forall|m: nat| #[trigger] literal_statements(src, m) implies m == n by {
                    if m != n {
                        if m < n {
                            assert(lex_nth(src, 0, 2 * m) matches Some(t) && literal_token(t));
                        } else {
                            assert(lex_nth(src, 0, 2 * n) matches Some(t) && literal_token(t));
                        }
                    }
                }
            }
            Ok(r)
        },
        Err(e) => Ok(Err(e)),
    }
}

/// Whether the tokens of `s` from the `k`-th are `m ! ( "t" ) ;` with `m`
/// one of the two print macros.
pub open spec fn print_tokens_at(s: Seq<char>, k: nat) -> bool {
    &&& (lex_nth(s, 0, k) matches Some(Tok::Identifier(m)) && (m == "pyrintnos"@ || m == "pyrintnosFowLt"@))
    &&& lex_nth(s, 0, k + 1) == Some(Tok::Clam)
    &&& lex_nth(s, 0, k + 2) == Some(Tok::LParen)
    &&& (lex_nth(s, 0, k + 3) matches Some(t) && t is Text)
    &&& lex_nth(s, 0, k + 4) == Some(Tok::RParen)
    &&& lex_nth(s, 0, k + 5) == Some(Tok::Semi)
}

/// Whether the tokens of `s` are `n` such print statements, then the end.
pub open spec fn print_program(s: Seq<char>, n: nat) -> bool {
    &&& forall|j: nat| j < n ==> #[trigger] print_tokens_at(s, 6 * j)
    &&& lex_nth(s, 0, 6 * n) == Some(Tok::EOF)
    &&& forall|i: nat| i <= 6 * n + 1 ==> #[trigger] lex_nth(s, 0, i) is Some
}

/// What the `j`-th print statement of such a program asks to print: its
/// text (with nothing to put in place of `{}`), and whether a line feed
/// follows.
pub open spec fn print_asked(s: Seq<char>, j: nat) -> (Seq<char>, bool) {
    (fill(lex_nth(s, 0, 6 * j + 3)->Some_0->Text_0, Seq::empty()),
        lex_nth(s, 0, 6 * j)->Some_0->Identifier_0 == "pyrintnosFowLt"@)
}

/// Whether every answer says that the printing was done.
pub open spec fn all_printed(a: Seq<Answer>) -> bool {
    forall|i: int| 0 <= i < a.len() ==> #[trigger] a[i] == Answer::Printed
}

/// Whether the tokens of `s` start with `mot`.
pub open spec fn starts_with_module(s: Seq<char>) -> bool {
    lex_nth(s, 0, 0) == Some(Tok::Mod)
}

/// Whether the tokens of `s` start with the name `x` and `;`, and the two
/// tokens after them can be read.
pub open spec fn starts_with_name(s: Seq<char>, x: Seq<char>) -> bool {
    &&& lex_nth(s, 0, 0) == Some(Tok::Identifier(x))
    &&& lex_nth(s, 0, 1) == Some(Tok::Semi)
    &&& forall|i: nat| i <= 3 ==> #[trigger] lex_nth(s, 0, i) is Some
}

/// Whether a statement is the bare name `x` as an expression.
pub open spec fn names_variable(s: Stmt, x: Seq<char>) -> bool {
    s matches Stmt::ExprNode(e) && (*e.expr matches Expr::Variable(y) && y@ == x)
}

/// The tokens that are literals needing nothing to be computed: whole
/// numbers, texts, truth values and `nophe`.
pub open spec fn literal_token(t: Tok) -> bool {
    t is Number || t is Text || t is Bool || t is Void
}

/// Whether the tokens of `s` are `n` statements of one such literal each
/// (`e;`), and then the end.
pub open spec fn literal_statements(s: Seq<char>, n: nat) -> bool {
    &&& forall|j: nat| j < n ==> (#[trigger] lex_nth(s, 0, 2 * j) matches Some(t) && literal_token(t))
        && lex_nth(s, 0, 2 * j + 1) == Some(Tok::Semi)
    &&& lex_nth(s, 0, 2 * n) == Some(Tok::EOF)
    &&& forall|i: nat| i <= 2 * n + 1 ==> #[trigger] lex_nth(s, 0, i) is Some
}

/// A text with nothing in it but white space.
pub open spec fn blank(s: Seq<char>) -> bool {
    ws_end(s, 0) >= s.len()
}

/// Runs the text of a module as an import in the folder `path`, and gives
/// back its outermost scope. A module that does not parse or run stops the
/// whole run: its error is printed where it was made, then reported again by
/// the module's document, and the run aborts.
fn run_module(world: &mut World, code: String, path: String, depth: usize) -> (r: Result<Env, Halt>)
    requires
        old(world).used <= old(world).answers@.len(),
    ensures
        world_kept(*old(world), *final(world)),
        asks_last(r, *final(world)),
        (code@.len() > 0 && code@.last() == '=') ==> (r matches Err(Halt::Abort(m)) && m@ == index_text(code@.len())),
        (code@.len() < usize::MAX && source_ok(code@) && blank(code@)) ==> (r matches Ok(env)
            && env.names@.len() == 0 && env.heap@.len() == 0 && final(world).used == old(world).used),
    decreases depth, 3nat, code, 0nat,
{
    let program = match parse_source(code)? {
        Ok(p) => p,
        Err(e) => {
            report(world, &e)?;
            report(world, &e)?;
            return Err(unwrap_none());
        },
    };
    let mut inner = Interpreter::new(path);
    inner.Import = true;
    match inner.run(world, &program, depth) {
        Ok(()) => {
            match inner.envs.pop() {
                Some(env) => Ok(env),
                None => Err(unwrap_none()),
            }
        },
        Err(Halt::Error(e)) => {
            report(world, &e)?;
            report(world, &e)?;
            Err(unwrap_none())
        },
        Err(h) => Err(h),
    }
}

/// Runs the program `code` of a document in the folder `path` (as an import
/// when `is_import`; with modules refused when `self_access`), replaying
/// `answers`, with calls nested at most `depth` deep. Gives how the run
/// stopped and how many answers it used.
pub fn run_source(code: String, path: String, is_import: bool, self_access: bool, answers: Vec<Answer>, depth: usize) -> (r: (Outcome, usize))
    ensures
        r.1 <= answers@.len(),
        r.0 is Ask ==> r.1 == answers@.len(),
        (code@.len() < usize::MAX && source_ok(code@) && blank(code@)) ==> (r.0 matches Outcome::Done(Ok(_)) && r.1 == 0),
        (code@.len() < usize::MAX && source_ok(code@) && lex_at(code@, ws_end(code@, 0)).0 is Err)
            ==> (r.0 matches Outcome::Done(Err(e)) && e is Lexer && r.1 == 0),
        forall|n: nat| (code@.len() < usize::MAX && source_ok(code@) && #[trigger] literal_statements(code@, n))
            ==> (r.0 matches Outcome::Done(Ok(_)) && r.1 == 0),
        (code@.len() < usize::MAX && source_ok(code@) && starts_with_module(code@) && self_access)
            ==> r.0 matches Outcome::Done(Err(_)),
        forall|x: Seq<char>| (code@.len() < usize::MAX && source_ok(code@) && #[trigger] starts_with_name(code@, x))
            ==> (r.0 matches Outcome::Done(Err(e))
                && (e matches OnfexError::Runtime { message } ==> message@ == not_found(x))),
        forall|n: nat| (code@.len() < usize::MAX && source_ok(code@) && #[trigger] print_program(code@, n)
            && all_printed(answers@) && answers@.len() >= n) ==> (r.0 matches Outcome::Done(Ok(_)) && r.1 == n),
        forall|n: nat| (code@.len() < usize::MAX && source_ok(code@) && #[trigger] print_program(code@, n)
            && all_printed(answers@) && answers@.len() < n) ==> (r.0 matches Outcome::Ask(Request::Print { text, newline })
                && (text@, newline) == print_asked(code@, answers@.len() as nat) && r.1 == answers@.len()),
{
    let ghost a0 = answers@;
    let mut world = World::new(answers);
    let program = match parse_source(code) {
        Ok(Ok(p)) => p,
        Ok(Err(e)) => { return (Outcome::Done(Err(e)), 0); },
        Err(Halt::Abort(m)) => { return (Outcome::Abort(m), 0); },
        Err(_) => { return (Outcome::Abort(owned("stopped before the run")), 0); },
    };
    let mut interp = Interpreter::new(path);
    interp.Import = is_import;
    interp.selfAccess = self_access;
    proof {
        assert forall|x: Seq<char>| #[trigger] lookup_spec(interp.envs@, x) is None by {
            assert(interp.envs@.drop_last().len() == 0);
            assert(first_key(interp.envs@.last().names@, x) is None);
            assert(scope_value(interp.envs@.last(), x) is None);
            assert(lookup_spec(interp.envs@.drop_last(), x) is None);
        }
    }
    proof {
        if all_printed(a0) {
            assert forall|k: int| 0 <= k < a0.len() implies #[trigger] world.answers@[world.used + k] == Answer::Printed
                by { assert(a0[k] == Answer::Printed); }
        }
    }
    let r = interp.run(&mut world, &program, depth);
    let used = world.used;
    let outcome = match r {
        Ok(()) => Outcome::Done(Ok(())),
        Err(Halt::Error(e)) => Outcome::Done(Err(e)),
        Err(Halt::Ask(q)) => Outcome::Ask(q),
        Err(Halt::Abort(m)) => Outcome::Abort(m),
        Err(Halt::TooDeep) => Outcome::TooDeep,
    };
    (outcome, used)
}

} // verus!
