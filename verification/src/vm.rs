//! The stack machine that runs a compiled `Program`. It runs one instruction
//! per `step`; what it cannot do itself (printing, reading a line, and
//! floating-point arithmetic) it hands to its caller as an `Event`, and goes
//! on when the caller `reply`s. Calls keep an explicit stack of frames.
use vstd::prelude::*;
use crate::assoc::{find_key, first_key, lemma_first_key, lemma_set_key_reads_back, set_key, sorted_positions, trim};
use crate::ast::{kind_name, Param, TypeKind};
use crate::bytecode::{Chunk, FunctionMeta, OpCode, Program};
use crate::error::OnfexError;
use crate::text::{chars_of, i64_to_string, owned, push_char, push_decimal, push_str, str_eq};
use crate::values::{binop, check_field_visibility, check_return_kind, int_outcome, mixed_error, returns_as, is_truthy, truthy_value, value_kind, BinResult, IntOutcome, Type, Value};

verus! {

broadcast use vstd::string::group_string_axioms;

/// Which chunk a frame runs: the main program, or an entry of the program's
/// functions or methods.
#[derive(Debug, Clone, Copy, PartialEq, Eq, Structural)]
pub enum ChunkRef {
    Main,
    Function(usize),
    Method(usize),
}

/// What a frame was entered for: the main program; a function (with the
/// position of its description, to check its result); a method (with the
/// `strouct` whose methods were running before, to restore).
#[derive(Debug)]
pub enum FrameKind {
    Main,
    Function(usize),
    Method(Option<String>),
}

/// A call in progress: its chunk, the next instruction, and the number of
/// scopes to return to.
#[derive(Debug)]
pub struct Frame {
    pub chunk: ChunkRef,
    pub pc: usize,
    pub scope_depth: usize,
    pub kind: FrameKind,
}

/// A `strouct` instance: its type and the values of its fields.
#[derive(Debug)]
pub struct Instance {
    pub struct_name: String,
    pub fields: Vec<(String, Type)>,
}

/// What the machine asks of its caller.
#[derive(Debug)]
pub enum Event {
    /// Print `text`, then a line feed if `newline`; reply `Printed`, or
    /// `Failed` with the message of the error.
    Print { text: String, newline: bool },
    /// Print `prompt`, read a line; reply `Line`, or `Failed`.
    ReadLine { prompt: String },
    /// The display text of the floating-point literal `text`; reply `Float`.
    FloatConst { text: String },
    /// The operator `op` on two numbers, at least one a float (an integer
    /// stands for the same float); reply `Value` with the result.
    FloatOp { left: Value, op: String, right: Value },
    /// The program aborts here (an integer overflow, or a state the original
    /// engine stops on).
    Panic(String),
    /// The program ended, normally or with an error.
    Finished(Result<(), OnfexError>),
}

/// The caller's answer to an event.
#[derive(Debug)]
pub enum Reply {
    Printed,
    Line(String),
    Float(String),
    Value(Type),
    Failed(String),
}

/// The outcome of one step.
#[derive(Debug)]
pub enum Step {
    Continue,
    Event(Event),
}

/// What the machine waits for.
#[derive(Debug, Clone, Copy, PartialEq, Eq, Structural)]
pub enum Awaiting {
    Nothing,
    Printed,
    Line,
    FloatConst,
    FloatOp,
    Done,
}

/// What the machine waits for after a step that gave `s`: nothing after
/// `Continue`, the matching reply after an event that asks for one, and
/// nothing more ever after the end.
pub open spec fn waits_for(s: Step) -> Awaiting {
    match s {
        Step::Continue => Awaiting::Nothing,
        Step::Event(Event::Print { .. }) => Awaiting::Printed,
        Step::Event(Event::ReadLine { .. }) => Awaiting::Line,
        Step::Event(Event::FloatConst { .. }) => Awaiting::FloatConst,
        Step::Event(Event::FloatOp { .. }) => Awaiting::FloatOp,
        Step::Event(Event::Panic(_)) => Awaiting::Done,
        Step::Event(Event::Finished(_)) => Awaiting::Done,
    }
}

/// The machine: the program, the scopes of variables (innermost last), the
/// operand stack shared by all frames, the `strouct` whose method runs, the
/// store of instances, the frames of the calls in progress, and what it
/// waits for.
pub struct VM {
    program: Program,
    scopes: Vec<Vec<(String, Type)>>,
    stack: Vec<Type>,
    current_struct: Option<String>,
    heap: Vec<Instance>,
    frames: Vec<Frame>,
    awaiting: Awaiting,
}

/// How a value other than an instance is shown (see `VM::show`).
pub open spec fn shown_plain(v: Value) -> Option<Seq<char>> {
    match v {
        Value::Int(x) => Some(crate::text::signed_decimal(x as int)),
        Value::Float(x) => Some(x@),
        Value::Str(x) => Some("\""@ + x@ + "\""@),
        Value::Bool(b) => Some(if b { "trunth1"@ } else { "franth0"@ }),
        Value::Void => Some("noph"@),
        Value::Func(_) => Some("<frounct>"@),
        Value::StructType(n) => Some("<strouct "@ + n@ + ">"@),
        Value::Struct(_) => None,
    }
}

/// No argument after the first is an instance.
pub open spec fn plain_args(args: Seq<Type>) -> bool {
    forall|i: int| 1 <= i < args.len() ==> #[trigger] shown_plain(args[i].value) is Some
}

/// The text printed for the format `fmt` and such arguments: each `{}`
/// takes the next argument after the first, as shown.
pub open spec fn print_text(fmt: Seq<char>, args: Seq<Type>) -> Seq<char> {
    fill(fmt, Seq::new((args.len() - 1) as nat, |i: int| shown_plain(args[i + 1].value)->Some_0))
}

/// What the instruction `BinOp(op)` does with the operands `l` and `r` taken
/// from the stack, `rest` being what lies below them: for two integers, the
/// outcome of `int_outcome` (an overflow aborts, an error ends the program);
/// for operands of kinds it does not take, its error; `+` on two texts joins
/// them. Floating-point work is handed out and not described here.
pub open spec fn binop_step(l: Type, op: Seq<char>, r: Type, s: Step, rest: Seq<Type>, st: Seq<Type>) -> bool {
    if l.value is Int && r.value is Int {
        match int_outcome(l.value->Int_0 as int, op, r.value->Int_0 as int) {
            IntOutcome::Value(v) => s == Step::Continue && st == rest.push(Type { kind: value_kind(v), value: v }),
            IntOutcome::Overflow => s matches Step::Event(Event::Panic(_)),
            IntOutcome::DivZero => s matches Step::Event(Event::Finished(Err(OnfexError::Runtime { message })))
                && message@ == "Sifrhen Ern: sifrhen tarafalt bölnos oft nophe"@,
            IntOutcome::BadOp => s matches Step::Event(Event::Finished(Err(OnfexError::Runtime { message })))
                && message@ == "WrossnosOp Ern: '"@ + op + "' oft alnos nophe"@,
        }
    } else if mixed_error(l, op, r) is Some {
        s matches Step::Event(Event::Finished(Err(OnfexError::Runtime { message }))) && message@ == mixed_error(l, op, r)->Some_0
    } else if l.value is Str && r.value is Str {
        s == Step::Continue && st.len() == rest.len() + 1 && st.drop_last() =~= rest && st.last().kind == TypeKind::Str
            && (st.last().value matches Value::Str(x) && x@ == l.value->Str_0@ + r.value->Str_0@)
    } else {
        true
    }
}

/// The instructions after which the frame goes on at the next one: all but
/// jumps, returns and calls.
pub open spec fn advances_pc(op: OpCode) -> bool {
    !(op is Jump || op is JumpIfFalse || op is Return || op is CallFunction || op is CallMethod)
}

/// The value a chunk that runs off its end gives: the top of the stack, or
/// `nophe` on an empty stack.
pub open spec fn top_or_void(st: Seq<Type>) -> Type {
    if st.len() > 0 { st.last() } else { Type { kind: TypeKind::Void, value: Value::Void } }
}

/// The stack without its top (empty stays empty).
pub open spec fn below_top(st: Seq<Type>) -> Seq<Type> {
    if st.len() > 0 { st.drop_last() } else { st }
}

/// After a name is bound, it and every name bound before are found.
proof fn lemma_set_key_keeps_keys<T>(before: Seq<(String, T)>, after: Seq<(String, T)>, k: Seq<char>)
    requires
        match first_key(before, k) {
            Some(i) => after =~= before.update(i, (before[i].0, after[i].1)),
            None => after.len() == before.len() + 1 && after.drop_last() =~= before && after.last().0@ == k,
        },
    ensures
        first_key(after, k) is Some,
        forall|n: Seq<char>| first_key(before, n) is Some ==> #[trigger] first_key(after, n) is Some,
{
    lemma_first_key(before, k);
    lemma_first_key(after, k);
    assert forall|n: Seq<char>| first_key(before, n) is Some implies #[trigger] first_key(after, n) is Some by {
        lemma_first_key(before, n);
        lemma_first_key(after, n);
        let i = first_key(before, n)->Some_0;
        assert(after[i].0@ == n);
    }
}

/// The value a scope holds under `name`, if any.
pub open spec fn bound_value(scope: Seq<(String, Type)>, name: Seq<char>) -> Option<Type> {
    match first_key(scope, name) {
        Some(j) => Some(scope[j].1),
        None => None,
    }
}

/// Whether no parameter after the `q`-th, below `k`, has its name.
pub open spec fn last_of_name(ps: Seq<Param>, q: int, k: int) -> bool {
    forall|q2: int| q < q2 < k ==> (#[trigger] ps[q2]).name@ != ps[q].name@
}

/// Entering a call whose parameters have distinct names binds every
/// parameter to the argument at its position: the first parameter to the
/// first argument, the second to the second, and so on.
pub proof fn law_parameters_take_arguments_in_order(ps: Seq<Param>, args: Seq<Type>, old: VM, new: VM)
    requires
        VM::binds_params(ps, args, old, new),
        forall|i: int, j: int| 0 <= i < j < ps.len() ==> (#[trigger] ps[i]).name@ != (#[trigger] ps[j]).name@,
    ensures
        forall|q: int| 0 <= q < ps.len() ==> bound_value(new.scopes_view().last()@, (#[trigger] ps[q]).name@) == Some(args[q]),
{
    assert forall|q: int| 0 <= q < ps.len() implies bound_value(new.scopes_view().last()@, (#[trigger] ps[q]).name@)
        == Some(args[q]) by {
        assert(last_of_name(ps, q, ps.len() as int));
    }
}

/// Binding a name leaves what the other names hold.
proof fn lemma_set_key_keeps_others<T>(before: Seq<(String, T)>, after: Seq<(String, T)>, k: Seq<char>, x: T, n: Seq<char>)
    requires
        n != k,
        match first_key(before, k) {
            Some(i) => after == before.update(i, (before[i].0, x)),
            None => after.len() == before.len() + 1 && after.drop_last() == before && after.last().0@ == k,
        },
    ensures
        first_key(after, n) == first_key(before, n),
        first_key(before, n) matches Some(j) ==> after[j].1 == before[j].1,
{
    lemma_first_key(before, k);
    lemma_first_key(before, n);
    lemma_first_key(after, n);
    match first_key(before, n) {
        Some(j) => {
            assert(after[j].0@ == n);
            assert forall|l: int| 0 <= l < j implies #[trigger] after[l].0@ != n by {
                assert(after[l].0 == before[l].0);
            }
        },
        None => {
            assert forall|l: int| 0 <= l < after.len() implies #[trigger] after[l].0@ != n by {
                if l < before.len() {
                    assert(after[l].0 == before[l].0);
                }
            }
        },
    }
}

/// Whether the named values `ft` give every field of `fields` and nothing
/// else.
pub open spec fn names_given<A, B>(fields: Seq<(String, A)>, ft: Seq<(String, B)>) -> bool {
    &&& forall|i: int| 0 <= i < fields.len() ==> #[trigger] first_key(ft, fields[i].0@) is Some
    &&& forall|j: int| 0 <= j < ft.len() ==> #[trigger] first_key(fields, ft[j].0@) is Some
}

/// The position after `pc`.
pub open spec fn next_pc(pc: usize) -> usize {
    if pc < usize::MAX { (pc + 1) as usize } else { pc }
}

/// Whether a condition lets the branch run (see `truthy_value`).
pub open spec fn truthy(v: Type) -> bool {
    truthy_value(v)
}

/// The message of a missing variable.
pub open spec fn missing_variable(name: Seq<char>) -> Seq<char> {
    "değişken '"@ + name + "' bulunamadı"@
}

/// The scope that holds `name` nearest to the innermost one, if any.
pub open spec fn scope_of(scopes: Seq<Vec<(String, Type)>>, name: Seq<char>) -> Option<int>
    decreases scopes.len(),
{
    if scopes.len() == 0 {
        None
    } else if first_key(scopes.last()@, name) is Some {
        Some(scopes.len() - 1)
    } else {
        scope_of(scopes.drop_last(), name)
    }
}

proof fn lemma_scope_of_range(scopes: Seq<Vec<(String, Type)>>, name: Seq<char>)
    ensures
        scope_of(scopes, name) is Some ==> 0 <= scope_of(scopes, name)->Some_0 < scopes.len()
            && first_key(scopes[scope_of(scopes, name)->Some_0]@, name) is Some,
    decreases scopes.len(),
{
    if scopes.len() > 0 && first_key(scopes.last()@, name) is None {
        lemma_scope_of_range(scopes.drop_last(), name);
    }
}

fn runtime_error(m: String) -> (e: OnfexError)
    ensures
        e == (OnfexError::Runtime { message: m }),
{
    OnfexError::runtime(m)
}

/// `prefix + name + suffix` as a runtime error.
fn named_error(prefix: &str, name: &str, suffix: &str) -> (e: OnfexError)
    ensures
        (e matches OnfexError::Runtime { message } && message@ == prefix@ + name@ + suffix@),
{
    let mut m = owned(prefix);
    push_str(&mut m, name);
    push_str(&mut m, suffix);
    OnfexError::runtime(m)
}

/// The text of a pair of counts: `"a" + middle + "b" + suffix`.
fn counts_error(a: usize, middle: &str, b: usize, suffix: &str) -> (e: OnfexError)
    ensures
        e is Runtime,
{
    let mut m = String::new();
    push_decimal(&mut m, a as u128);
    push_str(&mut m, middle);
    push_decimal(&mut m, b as u128);
    push_str(&mut m, suffix);
    OnfexError::runtime(m)
}

/// The message of a kind mismatch: `expected esp ountf wraithnosan got esp gephnosan`.
fn kinds_error(expected: TypeKind, got: TypeKind) -> (e: OnfexError)
    ensures
        (e matches OnfexError::Runtime { message } && message@ == kind_name(expected) + " esp ountf wraithnosan "@
            + kind_name(got) + " esp gephnosan"@),
{
    let mut m = expected.to_string();
    push_str(&mut m, " esp ountf wraithnosan ");
    let g = got.to_string();
    push_str(&mut m, g.as_str());
    push_str(&mut m, " esp gephnosan");
    OnfexError::runtime(m)
}

impl VM {
    /// A machine about to run the main chunk of `program`, with one empty
    /// global scope.
    pub fn new(program: Program) -> (r: Self)
        ensures
            r.stack_view().len() == 0,
            r.scopes_view().len() == 1,
            r.scopes_view()[0]@.len() == 0,
            r.waiting() == Awaiting::Nothing,
            r.pc_view() == Some(0usize),
            r.current_op() == (if program.main.code@.len() > 0 { Some(program.main.code@[0]) } else { None::<OpCode> }),
            r.program_view() == program,
            r.frame_chunk() == Some(ChunkRef::Main),
            r.frame_kind() == Some(FrameKind::Main),
            r.depth() == 1,
    {
        let mut scopes: Vec<Vec<(String, Type)>> = Vec::new();
        scopes.push(Vec::new());
        let mut frames: Vec<Frame> = Vec::new();
        frames.push(Frame { chunk: ChunkRef::Main, pc: 0, scope_depth: 1, kind: FrameKind::Main });
        VM {
            program,
            scopes,
            stack: Vec::new(),
            current_struct: None,
            heap: Vec::new(),
            frames,
            awaiting: Awaiting::Nothing,
        }
    }

    /// The operand stack, bottom first.
    pub closed spec fn stack_view(&self) -> Seq<Type> {
        self.stack@
    }

    /// The scopes of variables, outermost first.
    pub closed spec fn scopes_view(&self) -> Seq<Vec<(String, Type)>> {
        self.scopes@
    }

    /// What the machine waits for.
    pub closed spec fn waiting(&self) -> Awaiting {
        self.awaiting
    }

    /// What the machine waits for.
    pub fn awaiting(&self) -> (r: Awaiting)
        ensures
            r == self.waiting(),
    {
        self.awaiting
    }

    /// Takes the value on top of the operand stack.
    fn pop_stack(&mut self) -> (r: Result<Type, OnfexError>)
        ensures
            old(self).stack@.len() > 0 ==> r == Ok::<Type, OnfexError>(old(self).stack@.last())
                && final(self).stack@ == old(self).stack@.drop_last(),
            old(self).stack@.len() == 0 ==> (r matches Err(OnfexError::Runtime { message })
                && message@ == "Bytecode VM Ern: yığın boşaldı (stack underflow)"@) && final(self).stack@ == old(self).stack@,
            final(self).scopes == old(self).scopes,
            final(self).program == old(self).program,
            final(self).frames == old(self).frames,
            final(self).heap == old(self).heap,
            final(self).current_struct == old(self).current_struct,
            final(self).awaiting == old(self).awaiting,
    {
        match self.stack.pop() {
            Some(v) => Ok(v),
            None => Err(OnfexError::runtime(owned("Bytecode VM Ern: yığın boşaldı (stack underflow)"))),
        }
    }

    /// The value of the variable `name` in the nearest scope that has it.
    fn get_var(&self, name: &str) -> (r: Result<Type, OnfexError>)
        ensures
            match scope_of(self.scopes@, name@) {
                Some(s) => r == Ok::<Type, OnfexError>(self.scopes@[s]@[first_key(self.scopes@[s]@, name@)->Some_0].1),
                None => (r matches Err(OnfexError::Runtime { message }) && message@ == missing_variable(name@)),
            },
    {
        let mut i = self.scopes.len();
        assert(self.scopes@.subrange(0, i as int) =~= self.scopes@);
        while i > 0
            invariant
                0 <= i <= self.scopes@.len(),
                scope_of(self.scopes@, name@) == scope_of(self.scopes@.subrange(0, i as int), name@),
            decreases i,
        {
            let ghost sub = self.scopes@.subrange(0, i as int);
            proof { lemma_first_key(self.scopes@[i - 1]@, name@); }
            match find_key(&self.scopes[i - 1], name) {
                Some(j) => {
                    assert(sub.last() == self.scopes@[i - 1]);
                    return Ok(self.scopes[i - 1][j].1.duplicate());
                },
                None => {
                    assert(sub.drop_last() =~= self.scopes@.subrange(0, i - 1));
                },
            }
            i = i - 1;
        }
        Err(named_error("değişken '", name, "' bulunamadı"))
    }

    /// Stores `value` in the nearest scope that has the variable `name`.
    fn set_var(&mut self, name: &str, value: Type) -> (r: Result<(), OnfexError>)
        ensures
            match scope_of(old(self).scopes@, name@) {
                Some(s) => r is Ok && final(self).scopes@ == old(self).scopes@.update(
                    s,
                    final(self).scopes@[s],
                ) && final(self).scopes@[s]@ == old(self).scopes@[s]@.update(
                    first_key(old(self).scopes@[s]@, name@)->Some_0,
                    (old(self).scopes@[s]@[first_key(old(self).scopes@[s]@, name@)->Some_0].0, value),
                ),
                None => (r matches Err(OnfexError::Runtime { message }) && message@ == missing_variable(name@))
                    && final(self).scopes@ == old(self).scopes@,
            },
            final(self).stack == old(self).stack,
            final(self).program == old(self).program,
            final(self).frames == old(self).frames,
            final(self).heap == old(self).heap,
            final(self).current_struct == old(self).current_struct,
            final(self).awaiting == old(self).awaiting,
    {
        let mut i = self.scopes.len();
        assert(self.scopes@.subrange(0, i as int) =~= self.scopes@);
        while i > 0
            invariant
                0 <= i <= self.scopes@.len(),
                *self == *old(self),
                scope_of(self.scopes@, name@) == scope_of(self.scopes@.subrange(0, i as int), name@),
            decreases i,
        {
            let ghost sub = self.scopes@.subrange(0, i as int);
            match find_key(&self.scopes[i - 1], name) {
                Some(_) => {
                    assert(sub.last() == self.scopes@[i - 1]);
                    let mut scope = self.scopes.remove(i - 1);
                    let key = owned(name);
                    set_key(&mut scope, key, value);
                    self.scopes.insert(i - 1, scope);
                    assert(self.scopes@ =~= old(self).scopes@.update(i - 1, self.scopes@[i - 1]));
                    return Ok(());
                },
                None => {
                    assert(sub.drop_last() =~= self.scopes@.subrange(0, i - 1));
                },
            }
            i = i - 1;
        }
        Err(named_error("değişken '", name, "' bulunamadı"))
    }

    /// Binds `name` to `value` in the innermost scope; there is none only in
    /// a state the original engine stops on.
    fn define_var(&mut self, name: &str, value: Type) -> (r: Result<(), String>)
        ensures
            old(self).scopes@.len() > 0 ==> r is Ok && final(self).scopes@.len() == old(self).scopes@.len()
                && final(self).scopes@.drop_last() == old(self).scopes@.drop_last()
                && match first_key(old(self).scopes@.last()@, name@) {
                    Some(i) => final(self).scopes@.last()@ == old(self).scopes@.last()@.update(i, (old(self).scopes@.last()@[i].0, value)),
                    None => final(self).scopes@.last()@.len() == old(self).scopes@.last()@.len() + 1
                        && final(self).scopes@.last()@.drop_last() == old(self).scopes@.last()@
                        && final(self).scopes@.last()@.last().0@ == name@
                        && final(self).scopes@.last()@.last().1 == value,
                },
            old(self).scopes@.len() == 0 ==> r is Err,
            final(self).stack == old(self).stack,
            final(self).program == old(self).program,
            final(self).frames == old(self).frames,
            final(self).heap == old(self).heap,
            final(self).current_struct == old(self).current_struct,
            final(self).awaiting == old(self).awaiting,
    {
        let n = self.scopes.len();
        if n == 0 {
            return Err(owned("called `Option::unwrap()` on a `None` value"));
        }
        let mut scope = self.scopes.remove(n - 1);
        set_key(&mut scope, owned(name), value);
        self.scopes.push(scope);
        assert(self.scopes@.drop_last() =~= old(self).scopes@.drop_last());
        Ok(())
    }

    /// The text a value is shown as (`Type::__out__`). A `strouct` instance
    /// shows its type and its fields in the order of their names; `None`
    /// when instances nest deeper than `fuel` (only a cycle of instances
    /// does, on which the original engine never returns).
    fn show(&self, t: &Type, fuel: usize) -> (r: Option<String>)
        ensures
            match t.value {
                Value::Int(x) => r is Some && r->Some_0@ == crate::text::signed_decimal(x as int),
                Value::Float(x) => r is Some && r->Some_0@ == x@,
                Value::Str(x) => r is Some && r->Some_0@ == "\""@ + x@ + "\""@,
                Value::Bool(b) => r is Some && r->Some_0@ == (if b { "trunth1"@ } else { "franth0"@ }),
                Value::Void => r is Some && r->Some_0@ == "noph"@,
                Value::Func(_) => r is Some && r->Some_0@ == "<frounct>"@,
                Value::StructType(n) => r is Some && r->Some_0@ == "<strouct "@ + n@ + ">"@,
                Value::Struct(_) => true,
            },
        decreases fuel,
    {
        match &t.value {
            Value::Int(x) => Some(i64_to_string(*x)),
            Value::Float(x) => Some(x.clone()),
            Value::Str(x) => {
                let mut m = owned("\"");
                push_str(&mut m, x.as_str());
                push_str(&mut m, "\"");
                Some(m)
            },
            Value::Bool(b) => {
                if *b {
                    Some(owned("trunth1"))
                } else {
                    Some(owned("franth0"))
                }
            },
            Value::Void => Some(owned("noph")),
            Value::Func(_) => Some(owned("<frounct>")),
            Value::StructType(n) => {
                let mut m = owned("<strouct ");
                push_str(&mut m, n.as_str());
                push_str(&mut m, ">");
                Some(m)
            },
            Value::Struct(h) => {
                if fuel == 0 || *h >= self.heap.len() {
                    return None;
                }
                let inst = &self.heap[*h];
                let mut names: Vec<Vec<char>> = Vec::new();
                let mut k: usize = 0;
                while k < inst.fields.len()
                    invariant
                        0 <= k <= inst.fields@.len(),
                        names@.len() == k,
                    decreases inst.fields@.len() - k,
                {
                    names.push(chars_of(inst.fields[k].0.as_str()));
                    k = k + 1;
                }
                let order = sorted_positions(&names);
                let mut vals = String::new();
                let mut i: usize = 0;
                while i < order.len()
                    invariant
                        0 <= i <= order@.len(),
                        order@.len() == names@.len() == inst.fields@.len(),
                        forall|j: int| 0 <= j < order@.len() ==> #[trigger] order@[j] < names@.len(),
                        fuel > 0,
                        t.value is Struct,
                    decreases order@.len() - i,
                {
                    let f = &inst.fields[order[i]];
                    push_str(&mut vals, f.0.as_str());
                    push_str(&mut vals, ": ");
                    match self.show(&f.1, fuel - 1) {
                        Some(v) => push_str(&mut vals, v.as_str()),
                        None => { return None; },
                    }
                    if i + 1 < order.len() {
                        push_str(&mut vals, ", ");
                    }
                    i = i + 1;
                }
                let mut m = inst.struct_name.clone();
                push_str(&mut m, " { ");
                push_str(&mut m, vals.as_str());
                push_str(&mut m, " }");
                Some(m)
            },
        }
    }
}

/// The text `fmt` with each `{}` replaced by the next of `args` while there
/// are any left; a `{}` with no argument left stays.
pub open spec fn fill(fmt: Seq<char>, args: Seq<Seq<char>>) -> Seq<char>
    decreases fmt.len(),
{
    if fmt.len() == 0 {
        seq![]
    } else if fmt.len() >= 2 && fmt[0] == '{' && fmt[1] == '}' {
        if args.len() > 0 {
            args[0] + fill(fmt.skip(2), args.drop_first())
        } else {
            seq!['{', '}'] + fill(fmt.skip(2), args)
        }
    } else {
        seq![fmt[0]] + fill(fmt.drop_first(), args)
    }
}

/// Fills the placeholders `{}` of `fmt` with `args`, in order (see `fill`).
pub fn fill_placeholders(fmt: &str, args: &Vec<String>) -> (r: String)
    ensures
        r@ == fill(fmt@, args@.map_values(|a: String| a@)),
{
    let chars = chars_of(fmt);
    let ghost all = args@.map_values(|a: String| a@);
    let mut result = String::new();
    let mut index: usize = 0;
    let mut i: usize = 0;
    assert(chars@.skip(0) =~= chars@);
    assert(all.skip(0) =~= all);
    while i < chars.len()
        invariant
            chars@ == fmt@,
            all == args@.map_values(|a: String| a@),
            0 <= i <= chars@.len(),
            0 <= index <= args@.len(),
            fill(fmt@, all) == result@ + fill(chars@.skip(i as int), all.skip(index as int)),
        decreases chars@.len() - i,
    {
        let ghost rest = chars@.skip(i as int);
        let ghost ra = all.skip(index as int);
        if chars[i] == '{' && i + 1 < chars.len() && chars[i + 1] == '}' {
            assert(rest[0] == '{' && rest[1] == '}');
            assert(rest.skip(2) =~= chars@.skip(i + 2));
            if index < args.len() {
                push_str(&mut result, args[index].as_str());
                assert(ra[0] == args@[index as int]@);
                assert(ra.drop_first() =~= all.skip(index + 1));
                index = index + 1;
            } else {
                push_str(&mut result, "{}");
                proof { reveal_strlit("{}"); }
            }
            i = i + 2;
        } else {
            push_char(&mut result, chars[i]);
            assert(rest.drop_first() =~= chars@.skip(i + 1));
            i = i + 1;
        }
    }
    assert(chars@.skip(i as int) =~= Seq::<char>::empty());
    result
}

} // verus!

verus! {

/// The result of a chunk that ended: it ran off its end (leaving a value) or
/// returned one.
enum Ending {
    Value(Type),
    Return(Type),
}

impl VM {
    /// The program ends with an error.
    fn fail(&mut self, e: OnfexError) -> (s: Step)
        ensures
            s == Step::Event(Event::Finished(Err(e))),
            final(self).awaiting == Awaiting::Done,
            final(self).program == old(self).program,
            final(self).stack == old(self).stack,
            final(self).frames == old(self).frames,
    {
        self.awaiting = Awaiting::Done;
        Step::Event(Event::Finished(Err(e)))
    }

    /// The program aborts.
    fn abort(&mut self, message: String) -> (s: Step)
        ensures
            s == Step::Event(Event::Panic(message)),
            final(self).awaiting == Awaiting::Done,
            final(self).program == old(self).program,
            final(self).stack == old(self).stack,
            final(self).frames == old(self).frames,
    {
        self.awaiting = Awaiting::Done;
        Step::Event(Event::Panic(message))
    }

    /// The instructions of a chunk, if it exists.
    fn chunk_len(&self, c: ChunkRef) -> (r: Option<usize>)
        ensures
            match self.code_of(c) {
                Some(code) => r == Some(code.len() as usize),
                None => r is None,
            },
    {
        match c {
            ChunkRef::Main => Some(self.program.main.code.len()),
            ChunkRef::Function(i) => if i < self.program.functions.len() { Some(self.program.functions[i].1.code.len()) } else { None },
            ChunkRef::Method(i) => if i < self.program.methods.len() { Some(self.program.methods[i].1.code.len()) } else { None },
        }
    }

    /// The program the machine runs.
    pub closed spec fn program_view(&self) -> Program {
        self.program
    }

    /// The instructions of a chunk, if it exists.
    pub open spec fn code_of(&self, c: ChunkRef) -> Option<Seq<OpCode>> {
        let p = self.program_view();
        match c {
            ChunkRef::Main => Some(p.main.code@),
            ChunkRef::Function(i) => if i < p.functions@.len() { Some(p.functions@[i as int].1.code@) } else { None },
            ChunkRef::Method(i) => if i < p.methods@.len() { Some(p.methods@[i as int].1.code@) } else { None },
        }
    }

    /// The chunk the innermost frame runs, if there is a frame.
    pub closed spec fn frame_chunk(&self) -> Option<ChunkRef> {
        if self.frames@.len() == 0 { None } else { Some(self.frames@.last().chunk) }
    }

    /// The frames below the innermost one, outermost first.
    pub closed spec fn outer_frames(&self) -> Seq<Frame> {
        self.frames@.drop_last()
    }

    /// The instruction the innermost frame runs next, if it has one.
    pub open spec fn current_op(&self) -> Option<OpCode> {
        match (self.frame_chunk(), self.pc_view()) {
            (Some(c), Some(pc)) => match self.code_of(c) {
                Some(code) => if pc < code.len() { Some(code[pc as int]) } else { None },
                None => None,
            },
            _ => None,
        }
    }

    /// Whether the field `field` of instance `h` can be read here: the
    /// instance's type declares it, it is public or these are its type's
    /// methods, and the instance holds a value for it.
    pub closed spec fn field_readable(&self, h: usize, field: Seq<char>) -> bool {
        &&& h < self.heap@.len()
        &&& (first_key(self.program.struct_types@, self.heap@[h as int].struct_name@) matches Some(i)
            && (first_key(self.program.struct_types@[i].1.fields@, field) matches Some(j)
            && (self.program.struct_types@[i].1.fields@[j].1.glb || (self.current_struct is Some
                && self.current_struct->Some_0@ == self.program.struct_types@[i].1.name@))))
        &&& first_key(self.heap@[h as int].fields@, field) is Some
    }

    /// Whether the field `field` of instance `h` can be written here: the
    /// instance's type declares it, and it is public or these are its
    /// type's methods.
    pub closed spec fn field_writable(&self, h: usize, field: Seq<char>) -> bool {
        &&& h < self.heap@.len()
        &&& (first_key(self.program.struct_types@, self.heap@[h as int].struct_name@) matches Some(i)
            && (first_key(self.program.struct_types@[i].1.fields@, field) matches Some(j)
            && (self.program.struct_types@[i].1.fields@[j].1.glb || (self.current_struct is Some
                && self.current_struct->Some_0@ == self.program.struct_types@[i].1.name@))))
    }

    /// The value instance `h` holds for `field`.
    pub closed spec fn field_value(&self, h: usize, field: Seq<char>) -> Type {
        self.heap@[h as int].fields@[first_key(self.heap@[h as int].fields@, field)->Some_0].1
    }

    /// Whether the program declares a function named `name`.
    pub closed spec fn function_known(&self, name: Seq<char>) -> bool {
        first_key(self.program.function_meta@, name) is Some
    }

    /// The name of the `strouct` whose method a receiver calls: that of an
    /// instance on the heap, or of a `strouct` type.
    pub closed spec fn receiver_struct(&self, recv: Type) -> Option<Seq<char>> {
        match recv.value {
            Value::Struct(h) => if h < self.heap@.len() { Some(self.heap@[h as int].struct_name@) } else { None },
            Value::StructType(n) => Some(n@),
            _ => None,
        }
    }

    /// Whether the method `name` of the receiver can be entered with `nargs`
    /// arguments: its `strouct`, the method and its code exist, a first
    /// parameter of kind `srel` has an instance, and the other parameters
    /// are as many as the arguments.
    pub closed spec fn method_enterable(&self, recv: Type, name: Seq<char>, nargs: nat) -> bool {
        match self.receiver_struct(recv) {
            None => false,
            Some(sname) => match first_key(self.program.struct_types@, sname) {
                None => false,
                Some(si) => match first_key(self.program.struct_types@[si].1.methods@, name) {
                    None => false,
                    Some(mi) => {
                        let ps = self.program.struct_types@[si].1.methods@[mi].1.params@;
                        let with_self = ps.len() > 0 && ps[0].kind is srel;
                        &&& first_key(self.program.methods@, sname + "::"@ + name) is Some
                        &&& with_self ==> recv.value is Struct
                        &&& ps.len() - (if with_self { 1int } else { 0int }) == nargs
                    },
                },
            },
        }
    }

    /// The parameters of the function `name`, as the program declares them
    /// (none where it declares no such function).
    pub closed spec fn function_params(&self, name: Seq<char>) -> Seq<Param> {
        match first_key(self.program.function_meta@, name) {
            Some(mi) => self.program.function_meta@[mi].1.params@,
            None => seq![],
        }
    }

    /// Entering a call with parameters `ps` and arguments `args` from `old`
    /// gave `new` one more scope on top of the others, in which the name of
    /// each parameter (the last one of that name) holds the argument at the
    /// same position.
    pub open spec fn binds_params(ps: Seq<Param>, args: Seq<Type>, old: VM, new: VM) -> bool {
        &&& new.scopes_view().len() == old.scopes_view().len() + 1
        &&& new.scopes_view().drop_last() == old.scopes_view()
        &&& forall|q: int| 0 <= q < ps.len() && #[trigger] last_of_name(ps, q, ps.len() as int)
            ==> bound_value(new.scopes_view().last()@, ps[q].name@) == Some(args[q])
    }

    /// Whether the program declares a `strouct` named `name`.
    pub closed spec fn struct_known(&self, name: Seq<char>) -> bool {
        first_key(self.program.struct_types@, name) is Some
    }

    /// Where the innermost frame is in its instructions, if a call is in
    /// progress.
    pub closed spec fn pc_view(&self) -> Option<usize> {
        if self.frames@.len() == 0 {
            None
        } else {
            Some(self.frames@.last().pc)
        }
    }

    /// Whether the function `name` can be entered with `args`: it is declared
    /// and compiled, and takes as many parameters as there are arguments, each
    /// of the argument's kind.
    pub closed spec fn function_callable(&self, name: Seq<char>, args: Seq<Type>) -> bool {
        match first_key(self.program.function_meta@, name) {
            None => false,
            Some(mi) => {
                let ps = self.program.function_meta@[mi].1.params@;
                &&& first_key(self.program.functions@, name) is Some
                &&& ps.len() == args.len()
                &&& forall|k: int| 0 <= k < ps.len() ==> kind_name((#[trigger] ps[k]).kind) == kind_name(args[k].kind)
            },
        }
    }

    /// The number of instances on the heap.
    pub closed spec fn heap_len(&self) -> nat {
        self.heap@.len()
    }

    /// The kind of the innermost frame, if there is one.
    pub closed spec fn frame_kind(&self) -> Option<FrameKind> {
        if self.frames@.len() == 0 { None } else { Some(self.frames@.last().kind) }
    }

    /// How the innermost frame ends with the value `v`, the rest of the stack
    /// being `rest`: the main program finishes; a method's caller gets `v` on
    /// its stack; so does a function's, when `v` has the declared kind, and
    /// otherwise the program ends with the kind error.
    pub open spec fn ends_frame(old: VM, new: VM, s: Step, v: Type, rest: Seq<Type>) -> bool {
        let meta = old.program_view().function_meta@;
        &&& new.depth() == old.depth() - 1
        &&& (old.frame_kind() == Some(FrameKind::Main) ==> s == Step::Event(Event::Finished(Ok(()))))
        &&& (old.frame_kind() matches Some(FrameKind::Method(_)) ==> s == Step::Continue && new.stack_view() == rest.push(v))
        &&& (old.frame_kind() matches Some(FrameKind::Function(mi)) ==> (mi < meta.len() ==> (
            if returns_as(meta[mi as int].1.out, v.kind) {
                s == Step::Continue && new.stack_view() == rest.push(v)
            } else {
                s matches Step::Event(Event::Finished(Err(OnfexError::Runtime { message })))
                    && message@ == kind_name(meta[mi as int].1.out) + " esp ountf wraithnosan "@
                        + kind_name(v.kind) + " esp gephnosan"@
            })))
    }

    /// The number of calls in progress.
    pub closed spec fn depth(&self) -> nat {
        self.frames@.len()
    }

    /// A copy of the instruction at `pc` of a chunk, if there is one.
    fn fetch(&self, c: ChunkRef, pc: usize) -> (r: Option<OpCode>)
        ensures
            match self.code_of(c) {
                Some(code) => if pc < code.len() {
                    r is Some && match (code[pc as int], r->Some_0) {
                        (OpCode::NewStruct(a, v), OpCode::NewStruct(b, w)) => a == b && v@ == w@,
                        (x, y) => x == y,
                    }
                } else {
                    r is None
                },
                None => r is None,
            },
    {
        match c {
            ChunkRef::Main => if pc < self.program.main.code.len() { Some(self.program.main.code[pc].duplicate()) } else { None },
            ChunkRef::Function(i) => {
                if i < self.program.functions.len() && pc < self.program.functions[i].1.code.len() {
                    Some(self.program.functions[i].1.code[pc].duplicate())
                } else {
                    None
                }
            },
            ChunkRef::Method(i) => {
                if i < self.program.methods.len() && pc < self.program.methods[i].1.code.len() {
                    Some(self.program.methods[i].1.code[pc].duplicate())
                } else {
                    None
                }
            },
        }
    }

    /// Sets the next instruction of the innermost frame.
    fn set_pc(&mut self, pc: usize)
        ensures
            final(self).frames@.len() == old(self).frames@.len(),
            old(self).frames@.len() > 0 ==> final(self).frames@.last().pc == pc
                && final(self).frames@.last().chunk == old(self).frames@.last().chunk
                && final(self).frames@.last().kind == old(self).frames@.last().kind
                && final(self).frames@.drop_last() == old(self).frames@.drop_last(),
            final(self).program == old(self).program,
            final(self).heap == old(self).heap,
            final(self).current_struct == old(self).current_struct,
            final(self).stack == old(self).stack,
            final(self).scopes == old(self).scopes,
            final(self).awaiting == old(self).awaiting,
    {
        let n = self.frames.len();
        if n > 0 {
            let f = self.frames.pop().unwrap();
            self.frames.push(Frame { chunk: f.chunk, pc, scope_depth: f.scope_depth, kind: f.kind });
            assert(self.frames@.drop_last() =~= old(self).frames@.drop_last());
        }
    }

    /// Takes `n` values off the operand stack, in the order they were pushed.
    fn pop_args(&mut self, n: usize) -> (r: Result<Vec<Type>, OnfexError>)
        ensures
            r is Ok ==> r->Ok_0@.len() == n,
            final(self).awaiting == old(self).awaiting,
            final(self).frames == old(self).frames,
            final(self).program == old(self).program,
            final(self).heap == old(self).heap,
            final(self).scopes == old(self).scopes,
            old(self).stack@.len() >= n ==> (r matches Ok(a)
                && a@ == old(self).stack@.subrange(old(self).stack@.len() - n, old(self).stack@.len() as int)
                && final(self).stack@ == old(self).stack@.subrange(0, old(self).stack@.len() - n)),
    {
        let mut args: Vec<Type> = Vec::new();
        let mut k: usize = 0;
        let ghost st = self.stack@;
        while k < n
            invariant
                args@.len() == k,
                k <= n,
                self.awaiting == old(self).awaiting,
                self.frames == old(self).frames,
                self.program == old(self).program,
                self.heap == old(self).heap,
                self.scopes == old(self).scopes,
                st == old(self).stack@,
                st.len() >= n ==> (self.stack@ == st.subrange(0, st.len() - k)
                    && args@ == st.subrange(st.len() - k, st.len() as int)),
            decreases n - k,
        {
            let v = self.pop_stack()?;
            args.insert(0, v);
            proof {
                if st.len() >= n {
                    assert(args@ =~= st.subrange(st.len() - (k + 1), st.len() as int));
                    assert(self.stack@ =~= st.subrange(0, st.len() - (k + 1)));
                }
            }
            k = k + 1;
        }
        Ok(args)
    }

    /// Reads a field of the instance `h`, if it is visible here.
    fn get_field(&self, h: usize, field: &str) -> (r: Result<Type, Result<OnfexError, String>>)
        ensures
            self.field_readable(h, field@) ==> r == Ok::<Type, Result<OnfexError, String>>(self.field_value(h, field@)),
    {
        if h >= self.heap.len() {
            return Err(Err(owned("invalid instance")));
        }
        let inst = &self.heap[h];
        proof {
            lemma_first_key(self.program.struct_types@, inst.struct_name@);
            lemma_first_key(inst.fields@, field@);
        }
        let st = match find_key(&self.program.struct_types, inst.struct_name.as_str()) {
            Some(i) => {
                proof { lemma_first_key(self.program.struct_types@[i as int].1.fields@, field@); }
                &self.program.struct_types[i].1
            },
            None => { return Err(Err(owned("invalid instance"))); },
        };
        let f = match find_key(&st.fields, field) {
            Some(i) => &st.fields[i].1,
            None => {
                let mut m = owned("WrossnosStrouct Ern: '");
                push_str(&mut m, field);
                push_str(&mut m, "' alt strouct '");
                push_str(&mut m, inst.struct_name.as_str());
                push_str(&mut m, "' meovinden oft nophe");
                return Err(Ok(runtime_error(m)));
            },
        };
        match check_field_visibility(st.name.as_str(), f, &self.current_struct) {
            Ok(()) => {},
            Err(e) => { return Err(Ok(e)); },
        }
        match find_key(&inst.fields, field) {
            Some(i) => Ok(inst.fields[i].1.duplicate()),
            None => Err(Ok(named_error("WrossnosStrouct Ern: '", field, "' alt tanphelanmes nophe"))),
        }
    }

    /// Writes a field of the instance `h`, if it is visible here.
    fn set_field(&mut self, h: usize, field: &str, value: Type) -> (r: Result<(), Result<OnfexError, String>>)
        ensures
            final(self).program == old(self).program,
            final(self).awaiting == old(self).awaiting,
            final(self).frames == old(self).frames,
            final(self).stack == old(self).stack,
            final(self).scopes == old(self).scopes,
            old(self).field_writable(h, field@) ==> r is Ok && final(self).field_readable(h, field@)
                && final(self).field_value(h, field@) == value,
    {
        if h >= self.heap.len() {
            return Err(Err(owned("invalid instance")));
        }
        proof { lemma_first_key(self.program.struct_types@, self.heap@[h as int].struct_name@); }
        let si = match find_key(&self.program.struct_types, self.heap[h].struct_name.as_str()) {
            Some(i) => i,
            None => { return Err(Err(owned("invalid instance"))); },
        };
        proof { lemma_first_key(self.program.struct_types@[si as int].1.fields@, field@); }
        let fi = match find_key(&self.program.struct_types[si].1.fields, field) {
            Some(i) => i,
            None => {
                let mut m = owned("WrossnosStrouct Ern: '");
                push_str(&mut m, field);
                push_str(&mut m, "' alt strouct '");
                push_str(&mut m, self.heap[h].struct_name.as_str());
                push_str(&mut m, "' meovinden oft nophe");
                return Err(Ok(runtime_error(m)));
            },
        };
        match check_field_visibility(
            self.program.struct_types[si].1.name.as_str(),
            &self.program.struct_types[si].1.fields[fi].1,
            &self.current_struct,
        ) {
            Ok(()) => {},
            Err(e) => { return Err(Ok(e)); },
        }
        let ghost v0 = value;
        let ghost before = self.heap@;
        let mut inst = self.heap.remove(h);
        let ghost fields0 = inst.fields@;
        set_key(&mut inst.fields, owned(field), value);
        proof {
            if first_key(fields0, field@) is None {
                assert(inst.fields@.drop_last() =~= fields0);
            }
            lemma_set_key_reads_back(fields0, inst.fields@, field@, v0);
        }
        self.heap.insert(h, inst);
        assert(self.heap@[h as int].struct_name == before[h as int].struct_name);
        Ok(())
    }

    /// A new instance of the `strouct` `name` from the named values `ft`:
    /// every field must be given, and nothing else.
    fn instantiate(&mut self, name: &str, ft: Vec<(String, Type)>) -> (r: Result<usize, OnfexError>)
        ensures
            final(self).program == old(self).program,
            final(self).awaiting == old(self).awaiting,
            final(self).frames == old(self).frames,
            final(self).stack == old(self).stack,
            first_key(old(self).program.struct_types@, name@) is None ==> (r matches Err(OnfexError::Runtime { message })
                && message@ == "'"@ + name@ + "' strouct esp gephnosan"@),
            first_key(old(self).program.struct_types@, name@) matches Some(si)
                ==> (r is Ok <==> names_given(old(self).program.struct_types@[si].1.fields@, ft@)),
            r is Ok ==> r->Ok_0 == old(self).heap@.len() && final(self).heap@.len() == old(self).heap@.len() + 1
                && final(self).heap@.drop_last() == old(self).heap@,
            r is Err ==> final(self).heap == old(self).heap,
    {
        proof { lemma_first_key(self.program.struct_types@, name@); }
        let si = match find_key(&self.program.struct_types, name) {
            Some(i) => i,
            None => { return Err(named_error("'", name, "' strouct esp gephnosan")); },
        };
        let mut fld: Vec<(String, Type)> = Vec::new();
        let mut k: usize = 0;
        while k < self.program.struct_types[si].1.fields.len()
            invariant
                si < self.program.struct_types@.len(),
                self.awaiting == old(self).awaiting,
                self.frames == old(self).frames,
                self.stack == old(self).stack,
                self.program == old(self).program,
                self.heap == old(self).heap,
                first_key(self.program.struct_types@, name@) == Some(si as int),
                forall|q: int| 0 <= q < k ==> #[trigger] first_key(ft@, self.program.struct_types@[si as int].1.fields@[q].0@) is Some,
            decreases self.program.struct_types@[si as int].1.fields@.len() - k,
        {
            let fname = &self.program.struct_types[si].1.fields[k].0;
            match find_key(&ft, fname.as_str()) {
                Some(j) => {
                    set_key(&mut fld, fname.clone(), ft[j].1.duplicate());
                },
                None => {
                    let mut m = owned("WrossnosStrouct Ern: '");
                    push_str(&mut m, fname.as_str());
                    push_str(&mut m, "' alt strouct '");
                    push_str(&mut m, self.program.struct_types[si].1.name.as_str());
                    push_str(&mut m, "' afma gephnosan nophe");
                    return Err(runtime_error(m));
                },
            }
            k = k + 1;
        }
        let mut j: usize = 0;
        while j < ft.len()
            invariant
                si < self.program.struct_types@.len(),
                self.awaiting == old(self).awaiting,
                self.frames == old(self).frames,
                self.stack == old(self).stack,
                self.program == old(self).program,
                self.heap == old(self).heap,
                first_key(self.program.struct_types@, name@) == Some(si as int),
                forall|q: int| 0 <= q < self.program.struct_types@[si as int].1.fields@.len()
                    ==> #[trigger] first_key(ft@, self.program.struct_types@[si as int].1.fields@[q].0@) is Some,
                forall|q: int| 0 <= q < j ==> #[trigger] first_key(self.program.struct_types@[si as int].1.fields@, ft@[q].0@) is Some,
            decreases ft@.len() - j,
        {
            if find_key(&self.program.struct_types[si].1.fields, ft[j].0.as_str()).is_none() {
                let mut m = owned("WrossnosStrouct Ern: '");
                push_str(&mut m, ft[j].0.as_str());
                push_str(&mut m, "' alt strouct '");
                push_str(&mut m, self.program.struct_types[si].1.name.as_str());
                push_str(&mut m, "' meovinden oft nophe");
                return Err(runtime_error(m));
            }
            j = j + 1;
        }
        let struct_name = self.program.struct_types[si].1.name.clone();
        self.heap.push(Instance { struct_name, fields: fld });
        Ok(self.heap.len() - 1)
    }
}

} // verus!

verus! {

impl VM {
    /// Enters the function `name` with `args`: checks the number and kinds
    /// of the arguments, binds them in a new scope, and pushes its frame.
    fn call_function(&mut self, name: &str, args: Vec<Type>) -> (r: Result<(), OnfexError>)
        ensures
            final(self).program == old(self).program,
            final(self).awaiting == old(self).awaiting,
            !old(self).function_known(name@) ==> (r matches Err(OnfexError::Runtime { message })
                && message@ == "'"@ + name@ + "' fonksiyon oft nophe"@),
            r is Ok ==> final(self).frames@.len() == old(self).frames@.len() + 1,
            r is Ok ==> final(self).frames@.drop_last() == old(self).frames@ && final(self).frames@.last().pc == 0,
            r is Err ==> final(self).frames == old(self).frames,
            r is Ok <==> old(self).function_callable(name@, args@),
            r is Ok ==> Self::binds_params(old(self).function_params(name@), args@, *old(self), *final(self)),
    {
        proof {
            lemma_first_key(self.program.function_meta@, name@);
            lemma_first_key(self.program.functions@, name@);
        }
        let mi = match find_key(&self.program.function_meta, name) {
            Some(i) => i,
            None => { return Err(named_error("'", name, "' fonksiyon oft nophe")); },
        };
        let ci = match find_key(&self.program.functions, name) {
            Some(i) => i,
            None => { return Err(named_error("'", name, "' afon dernos esp gephnosan (derlenmemiş)")); },
        };
        let np = self.program.function_meta[mi].1.params.len();
        if np != args.len() {
            return Err(counts_error(np, " afon promter esp wraithnosan ", args.len(), " esp gephnosan"));
        }
        let scope_depth = self.scopes.len();
        let mut frame: Vec<(String, Type)> = Vec::new();
        let mut k: usize = 0;
        while k < np
            invariant
                mi < self.program.function_meta@.len(),
                np == self.program.function_meta@[mi as int].1.params@.len(),
                np == args@.len(),
                old(self).function_known(name@),
                self.awaiting == old(self).awaiting,
                self.frames == old(self).frames,
                self.program == old(self).program,
                k <= np,
                first_key(self.program.function_meta@, name@) == Some(mi as int),
                first_key(self.program.functions@, name@) is Some,
                forall|q: int| 0 <= q < k ==> kind_name((#[trigger] self.program.function_meta@[mi as int].1.params@[q]).kind)
                    == kind_name(args@[q].kind),
                self.scopes == old(self).scopes,
                forall|q: int| 0 <= q < k && #[trigger] last_of_name(self.program.function_meta@[mi as int].1.params@, q, k as int)
                    ==> bound_value(frame@, self.program.function_meta@[mi as int].1.params@[q].name@) == Some(args@[q]),
            decreases np - k,
        {
            let p = &self.program.function_meta[mi].1.params[k];
            if !p.kind.equal(args[k].kind) {
                return Err(kinds_error(p.kind, args[k].kind));
            }
            let ghost ps = self.program.function_meta@[mi as int].1.params@;
            let ghost f0 = frame@;
            let nm = p.name.clone();
            let ghost pk = nm@;
            let val = args[k].duplicate();
            let ghost v0 = val;
            set_key(&mut frame, nm, val);
            proof {
                lemma_first_key(f0, pk);
                if first_key(f0, pk) is None { assert(frame@.drop_last() =~= f0); }
                lemma_set_key_reads_back(f0, frame@, pk, v0);
                assert forall|q: int| 0 <= q < k + 1 && #[trigger] last_of_name(ps, q, k + 1)
                    implies bound_value(frame@, ps[q].name@) == Some(args@[q]) by {
                    if q < k {
                        assert(ps[k as int].name@ != ps[q].name@);
                        assert(last_of_name(ps, q, k as int));
                        lemma_set_key_keeps_others(f0, frame@, pk, v0, ps[q].name@);
                    }
                }
            }
            k = k + 1;
        }
        let ghost fr = frame@;
        self.scopes.push(frame);
        self.frames.push(Frame { chunk: ChunkRef::Function(ci), pc: 0, scope_depth, kind: FrameKind::Function(mi) });
        proof {
            assert(self.scopes@.drop_last() =~= old(self).scopes@);
            assert(self.scopes@.last()@ == fr);
            assert(old(self).function_params(name@) == self.program.function_meta@[mi as int].1.params@);
        }
        Ok(())
    }

    /// Enters the method `name` of the receiver (an instance, or a `strouct`
    /// type): a first parameter of kind `srel` gets the instance, the others
    /// the arguments; the method's `strouct` becomes the current one.
    fn call_method(&mut self, recv: Type, name: &str, args: Vec<Type>) -> (r: Result<(), Result<OnfexError, String>>)
        ensures
            final(self).program == old(self).program,
            final(self).awaiting == old(self).awaiting,
            r is Ok ==> final(self).frames@.len() == old(self).frames@.len() + 1,
            r is Ok ==> final(self).frames@.drop_last() == old(self).frames@ && final(self).frames@.last().pc == 0,
            r is Err ==> final(self).frames == old(self).frames,
            r is Ok <==> old(self).method_enterable(recv, name@, args@.len()),
            !(recv.value is Struct || recv.value is StructType) ==> (r matches Err(Ok(OnfexError::Runtime { message }))
                && message@ == "Typect Ern: '"@ + name@ + "' metodnos strouct esp nophe"@),
            r is Ok ==> ({
                let sname = old(self).receiver_struct(recv)->Some_0;
                let si = first_key(old(self).program.struct_types@, sname)->Some_0;
                let mi = first_key(old(self).program.struct_types@[si].1.methods@, name@)->Some_0;
                let ps = old(self).program.struct_types@[si].1.methods@[mi].1.params@;
                let first = if ps.len() > 0 && ps[0].kind is srel { 1int } else { 0int };
                &&& final(self).frames@.last().chunk
                    == ChunkRef::Method(first_key(old(self).program.methods@, sname + "::"@ + name@)->Some_0 as usize)
                &&& final(self).frames@.last().kind == FrameKind::Method(old(self).current_struct)
                &&& final(self).current_struct matches Some(n) && n@ == sname
                &&& final(self).scopes_view().len() == old(self).scopes_view().len() + 1
                &&& final(self).scopes_view().drop_last() == old(self).scopes_view()
                &&& forall|q: int| 0 <= q < ps.len() ==> first_key(final(self).scopes_view().last()@, (#[trigger] ps[q]).name@) is Some
                &&& forall|q: int| first <= q < ps.len() && #[trigger] last_of_name(ps, q, ps.len() as int)
                    ==> bound_value(final(self).scopes_view().last()@, ps[q].name@) == Some(args@[q - first])
                &&& (first == 1 && last_of_name(ps, 0, ps.len() as int))
                    ==> bound_value(final(self).scopes_view().last()@, ps[0].name@) == Some(recv)
            }),
    {
        let (struct_name, this) = match &recv.value {
            Value::Struct(h) => {
                if *h >= self.heap.len() {
                    return Err(Err(owned("invalid instance")));
                }
                (self.heap[*h].struct_name.clone(), Some(recv.duplicate()))
            },
            Value::StructType(n) => (n.clone(), None),
            _ => {
                return Err(Ok(named_error("Typect Ern: '", name, "' metodnos strouct esp nophe")));
            },
        };
        proof {
            assert(self.receiver_struct(recv) == Some(struct_name@));
            lemma_first_key(self.program.struct_types@, struct_name@);
        }
        let si = match find_key(&self.program.struct_types, struct_name.as_str()) {
            Some(i) => i,
            None => { return Err(Err(owned("invalid instance"))); },
        };
        proof { lemma_first_key(self.program.struct_types@[si as int].1.methods@, name@); }
        let mi = match find_key(&self.program.struct_types[si].1.methods, name) {
            Some(i) => i,
            None => {
                let mut m = owned("WrossnosStrouct Ern: '");
                push_str(&mut m, struct_name.as_str());
                push_str(&mut m, "' metodnos '");
                push_str(&mut m, name);
                push_str(&mut m, "' esp gephnosan");
                return Err(Ok(runtime_error(m)));
            },
        };
        let mut key = struct_name.clone();
        push_str(&mut key, "::");
        push_str(&mut key, name);
        let ci = match find_key(&self.program.methods, key.as_str()) {
            Some(i) => i,
            None => { return Err(Ok(named_error("'", key.as_str(), "' metodnos derlenmemiş"))); },
        };
        let scope_depth = self.scopes.len();
        let mut frame: Vec<(String, Type)> = Vec::new();
        let np = self.program.struct_types[si].1.methods[mi].1.params.len();
        let mut first: usize = 0;
        if np > 0 {
            let p0 = &self.program.struct_types[si].1.methods[mi].1.params[0];
            if matches!(p0.kind, TypeKind::srel) {
                match this {
                    Some(me) => {
                        let ghost f0 = frame@;
                        let ghost m0 = me;
                        set_key(&mut frame, p0.name.clone(), me);
                        proof {
                            lemma_set_key_keeps_keys(f0, frame@, p0.name@);
                            if first_key(f0, p0.name@) is None { assert(frame@.drop_last() =~= f0); }
                            lemma_set_key_reads_back(f0, frame@, p0.name@, m0);
                        }
                    },
                    None => {
                        return Err(Ok(named_error(
                            "WrossnosStrouct Ern: '",
                            p0.name.as_str(),
                            "' metodnos srel esp wraithnosan afma instans oft gephnosan",
                        )));
                    },
                }
                first = 1;
            }
        }
        if np - first != args.len() {
            return Err(Ok(counts_error(np - first, " afon promter esp wraithnosan ", args.len(), " esp gephnosan")));
        }
        let mut k: usize = first;
        while k < np
            invariant
                si < self.program.struct_types@.len(),
                mi < self.program.struct_types@[si as int].1.methods@.len(),
                np == self.program.struct_types@[si as int].1.methods@[mi as int].1.params@.len(),
                first <= k <= np,
                np - first == args@.len(),
                self.awaiting == old(self).awaiting,
                self.frames == old(self).frames,
                self.scopes == old(self).scopes,
                self.program == old(self).program,
                self.current_struct == old(self).current_struct,
                forall|q: int| 0 <= q < k ==> first_key(frame@,
                    (#[trigger] self.program.struct_types@[si as int].1.methods@[mi as int].1.params@[q]).name@) is Some,
                forall|q: int| first <= q < k && #[trigger] last_of_name(self.program.struct_types@[si as int].1.methods@[mi as int].1.params@, q, k as int)
                    ==> bound_value(frame@, self.program.struct_types@[si as int].1.methods@[mi as int].1.params@[q].name@)
                        == Some(args@[q - first]),
                (first == 1 && last_of_name(self.program.struct_types@[si as int].1.methods@[mi as int].1.params@, 0, k as int))
                    ==> bound_value(frame@, self.program.struct_types@[si as int].1.methods@[mi as int].1.params@[0].name@)
                        == Some(recv),
                first == 1 ==> np > 0 && self.program.struct_types@[si as int].1.methods@[mi as int].1.params@[0].kind is srel,
                first == 0 ==> !(np > 0 && self.program.struct_types@[si as int].1.methods@[mi as int].1.params@[0].kind is srel),
            decreases np - k,
        {
            let p = &self.program.struct_types[si].1.methods[mi].1.params[k];
            let ghost ps = self.program.struct_types@[si as int].1.methods@[mi as int].1.params@;
            let ghost f0 = frame@;
            let nm = p.name.clone();
            let ghost pk = nm@;
            let val = args[k - first].duplicate();
            let ghost v0 = val;
            set_key(&mut frame, nm, val);
            proof {
                lemma_first_key(f0, pk);
                lemma_set_key_keeps_keys(f0, frame@, pk);
                if first_key(f0, pk) is None { assert(frame@.drop_last() =~= f0); }
                lemma_set_key_reads_back(f0, frame@, pk, v0);
                assert forall|q: int| first <= q < k + 1 && #[trigger] last_of_name(ps, q, k + 1)
                    implies bound_value(frame@, ps[q].name@) == Some(args@[q - first]) by {
                    if q < k {
                        assert(ps[k as int].name@ != ps[q].name@);
                        assert(last_of_name(ps, q, k as int));
                        lemma_set_key_keeps_others(f0, frame@, pk, v0, ps[q].name@);
                    }
                }
                if first == 1 && last_of_name(ps, 0, k + 1) {
                    assert(ps[k as int].name@ != ps[0].name@);
                    assert(last_of_name(ps, 0, k as int));
                    lemma_set_key_keeps_others(f0, frame@, pk, v0, ps[0].name@);
                }
            }
            k = k + 1;
        }
        self.scopes.push(frame);
        let prev = self.current_struct.take();
        self.current_struct = Some(struct_name);
        self.frames.push(Frame { chunk: ChunkRef::Method(ci), pc: 0, scope_depth, kind: FrameKind::Method(prev) });
        Ok(())
    }

    /// Ends the innermost frame with its result: the main program finishes;
    /// a function's result must match its declared kind; the caller gets the
    /// value on its stack.
    fn finish_frame(&mut self, ending: Ending) -> (s: Step)
        requires
            old(self).awaiting == Awaiting::Nothing,
        ensures
            final(self).program == old(self).program,
            final(self).awaiting == waits_for(s),
            old(self).frames@.len() == 0 ==> (s matches Step::Event(Event::Panic(m)) && m@ == "no frame to return from"@),
            old(self).frames@.len() > 0 ==> final(self).frames@ == old(self).frames@.drop_last(),
            old(self).frames@.len() > 0 ==> ({
                let v = match ending { Ending::Value(v) => v, Ending::Return(v) => v };
                let meta = old(self).program.function_meta@;
                &&& (old(self).frames@.last().kind is Main ==> s == Step::Event(Event::Finished(Ok(()))))
                &&& (old(self).frames@.last().kind is Method ==> s == Step::Continue && final(self).stack@ == old(self).stack@.push(v))
                &&& (old(self).frames@.last().kind matches FrameKind::Function(mi) ==> (mi < meta.len() ==> (
                    if returns_as(meta[mi as int].1.out, v.kind) {
                        s == Step::Continue && final(self).stack@ == old(self).stack@.push(v)
                    } else {
                        s matches Step::Event(Event::Finished(Err(OnfexError::Runtime { message })))
                            && message@ == kind_name(meta[mi as int].1.out) + " esp ountf wraithnosan "@
                                + kind_name(v.kind) + " esp gephnosan"@
                    })))
            }),
    {
        let v = match ending {
            Ending::Value(v) => v,
            Ending::Return(v) => v,
        };
        let f = match self.frames.pop() {
            Some(f) => f,
            None => { return self.abort(owned("no frame to return from")); },
        };
        match f.kind {
            FrameKind::Main => {
                self.awaiting = Awaiting::Done;
                Step::Event(Event::Finished(Ok(())))
            },
            FrameKind::Function(mi) => {
                self.scopes.truncate(f.scope_depth);
                if mi >= self.program.function_meta.len() {
                    return self.abort(owned("invalid function"));
                }
                let out = self.program.function_meta[mi].1.out;
                if !check_return_kind(&out, &v) {
                    return self.fail(kinds_error(out, v.kind));
                }
                self.stack.push(v);
                Step::Continue
            },
            FrameKind::Method(prev) => {
                self.current_struct = prev;
                self.scopes.truncate(f.scope_depth);
                self.stack.push(v);
                Step::Continue
            },
        }
    }

    /// The built-in `name!(args)`: `pyrintnos` and `pyrintnosFowLt` print a
    /// format text filled with the arguments (the second with a line feed),
    /// `morfenlnos` prints a prompt and reads a line.
    #[verifier::loop_isolation(false)]
    fn builtin(&mut self, name: &str, args: Vec<Type>) -> (s: Step)
        requires
            old(self).awaiting == Awaiting::Nothing,
        ensures
            final(self).program == old(self).program,
            final(self).awaiting == waits_for(s),
            final(self).stack == old(self).stack,
            final(self).frames == old(self).frames,
            (name@ == "pyrintnos"@ || name@ == "pyrintnosFowLt"@) && args@.len() == 0
                ==> (s matches Step::Event(Event::Print { text, newline }) && text@.len() == 0 && newline),
            ((name@ == "pyrintnos"@ || name@ == "pyrintnosFowLt"@) && args@.len() > 0 && plain_args(args@))
                ==> (args@[0].value matches Value::Str(f) ==> (s matches Step::Event(Event::Print { text, newline })
                    && text@ == print_text(f@, args@) && newline == (name@ == "pyrintnosFowLt"@))),
    {
        let print = str_eq(name, "pyrintnos");
        let println = str_eq(name, "pyrintnosFowLt");
        if print || println {
            if args.len() == 0 {
                self.awaiting = Awaiting::Printed;
                return Step::Event(Event::Print { text: String::new(), newline: true });
            }
            let fmt = match &args[0].value {
                Value::Str(x) => x.clone(),
                _ => {
                    let mut m = owned("Typect Ern:sterge esp wraithnosan ");
                    let k = args[0].kind.to_string();
                    push_str(&mut m, k.as_str());
                    return self.fail(OnfexError::Runtime { message: m });
                },
            };
            let mut texts: Vec<String> = Vec::new();
            let mut i: usize = 1;
            while i < args.len()
                invariant
                    1 <= i <= args@.len(),
                    texts@.len() == i - 1,
                    self.stack == old(self).stack,
                    self.frames == old(self).frames,
                    self.program == old(self).program,
                    plain_args(args@) ==> forall|j: int| 0 <= j < i - 1 ==> #[trigger] texts@[j]@ == shown_plain(args@[j + 1].value)->Some_0,
                decreases args@.len() - i,
            {
                match self.show(&args[i], self.heap.len()) {
                    Some(t) => texts.push(t),
                    None => { return self.abort(owned("thread 'main' has overflowed its stack")); },
                }
                proof {
                    if plain_args(args@) {
                        assert(shown_plain(args@[i as int].value) is Some);
                    }
                }
                i = i + 1;
            }
            proof {
                if plain_args(args@) {
                    assert(texts@.map_values(|t: String| t@) =~= Seq::new((args@.len() - 1) as nat, |q: int| shown_plain(args@[q + 1].value)->Some_0));
                }
            }
            let text = fill_placeholders(fmt.as_str(), &texts);
            self.awaiting = Awaiting::Printed;
            return Step::Event(Event::Print { text, newline: println });
        }
        if str_eq(name, "morfenlnos") {
            if args.len() > 0 {
                match &args[0].value {
                    Value::Str(x) => {
                        self.awaiting = Awaiting::Line;
                        return Step::Event(Event::ReadLine { prompt: x.clone() });
                    },
                    _ => {},
                }
            }
            return self.fail(runtime_error(owned("morfenlnos expects a single string argument")));
        }
        self.fail(named_error("'", name, "' bir fonksiyon oft nophe"))
    }

    /// Runs one instruction of the innermost frame.
    #[verifier::spinoff_prover]
    #[verifier::rlimit(100)]
    pub fn step(&mut self) -> (s: Step)
        requires
            old(self).waiting() == Awaiting::Nothing,
        ensures
            final(self).waiting() == waits_for(s),
            match old(self).current_op() {
                Some(OpCode::PushInt(x)) => s == Step::Continue
                    && final(self).stack_view() == old(self).stack_view().push(Type { kind: TypeKind::Int, value: Value::Int(x) }),
                Some(OpCode::PushStr(t)) => s == Step::Continue
                    && final(self).stack_view() == old(self).stack_view().push(Type { kind: TypeKind::Str, value: Value::Str(t) }),
                Some(OpCode::PushBool(b)) => s == Step::Continue
                    && final(self).stack_view() == old(self).stack_view().push(Type { kind: TypeKind::Bool, value: Value::Bool(b) }),
                Some(OpCode::PushVoid) => s == Step::Continue
                    && final(self).stack_view() == old(self).stack_view().push(Type { kind: TypeKind::Void, value: Value::Void }),
                Some(OpCode::PushFloat(t)) => s == Step::Event(Event::FloatConst { text: t })
                    && final(self).stack_view() == old(self).stack_view(),
                Some(OpCode::Pop) => if old(self).stack_view().len() > 0 {
                    s == Step::Continue && final(self).stack_view() == old(self).stack_view().drop_last()
                } else {
                    (s matches Step::Event(Event::Finished(Err(OnfexError::Runtime { message })))
                        && message@ == "Bytecode VM Ern: yığın boşaldı (stack underflow)"@)
                },
                Some(OpCode::GetVar(name)) => match scope_of(old(self).scopes_view(), name@) {
                    Some(i) => s == Step::Continue && final(self).stack_view() == old(self).stack_view().push(
                        old(self).scopes_view()[i]@[first_key(old(self).scopes_view()[i]@, name@)->Some_0].1,
                    ),
                    None => (s matches Step::Event(Event::Finished(Err(OnfexError::Runtime { message })))
                        && message@ == missing_variable(name@)),
                },
                Some(OpCode::EnterScope) => s == Step::Continue
                    && final(self).scopes_view().len() == old(self).scopes_view().len() + 1
                    && final(self).scopes_view().drop_last() == old(self).scopes_view()
                    && final(self).scopes_view().last()@.len() == 0
                    && final(self).stack_view() == old(self).stack_view(),
                Some(OpCode::ExitScope) => s == Step::Continue
                    && final(self).stack_view() == old(self).stack_view()
                    && final(self).scopes_view() == if old(self).scopes_view().len() > 0 {
                        old(self).scopes_view().drop_last()
                    } else {
                        old(self).scopes_view()
                    },
                Some(OpCode::Dup) => if old(self).stack_view().len() > 0 {
                    s == Step::Continue && final(self).stack_view() == old(self).stack_view().push(old(self).stack_view().last())
                } else {
                    (s matches Step::Event(Event::Finished(Err(OnfexError::Runtime { message })))
                        && message@ == "Bytecode VM Ern: yığın boş (Dup)"@)
                },
                Some(OpCode::Jump(t)) => s == Step::Continue && final(self).pc_view() == Some(t)
                    && final(self).stack_view() == old(self).stack_view(),
                Some(OpCode::JumpIfFalse(t)) => if old(self).stack_view().len() > 0 {
                    s == Step::Continue && final(self).stack_view() == old(self).stack_view().drop_last()
                        && final(self).pc_view() == if truthy(old(self).stack_view().last()) {
                            Some(next_pc(old(self).pc_view()->Some_0))
                        } else {
                            Some(t)
                        }
                } else {
                    (s matches Step::Event(Event::Finished(Err(OnfexError::Runtime { message })))
                        && message@ == "Bytecode VM Ern: yığın boşaldı (stack underflow)"@)
                },
                Some(OpCode::SetVar(name)) => old(self).stack_view().len() > 0 ==> match scope_of(old(self).scopes_view(), name@) {
                    Some(i) => s == Step::Continue && final(self).stack_view() == old(self).stack_view()
                        && final(self).scopes_view() == old(self).scopes_view().update(i, final(self).scopes_view()[i])
                        && final(self).scopes_view()[i]@ == old(self).scopes_view()[i]@.update(
                            first_key(old(self).scopes_view()[i]@, name@)->Some_0,
                            (old(self).scopes_view()[i]@[first_key(old(self).scopes_view()[i]@, name@)->Some_0].0,
                                old(self).stack_view().last()),
                        ),
                    None => (s matches Step::Event(Event::Finished(Err(OnfexError::Runtime { message })))
                        && message@ == missing_variable(name@)),
                },
                Some(OpCode::DefineVar(name)) => (old(self).stack_view().len() > 0 && old(self).scopes_view().len() > 0)
                    ==> s == Step::Continue && final(self).stack_view() == old(self).stack_view()
                    && final(self).scopes_view().len() == old(self).scopes_view().len()
                    && final(self).scopes_view().drop_last() == old(self).scopes_view().drop_last()
                    && match first_key(old(self).scopes_view().last()@, name@) {
                        Some(i) => final(self).scopes_view().last()@ == old(self).scopes_view().last()@.update(
                            i,
                            (old(self).scopes_view().last()@[i].0, old(self).stack_view().last()),
                        ),
                        None => final(self).scopes_view().last()@.drop_last() == old(self).scopes_view().last()@
                            && final(self).scopes_view().last()@.last().0@ == name@
                            && final(self).scopes_view().last()@.last().1 == old(self).stack_view().last(),
                    },
                Some(OpCode::GetField(field)) => old(self).stack_view().len() > 0 ==> match old(self).stack_view().last().value {
                    Value::Struct(h) => old(self).field_readable(h, field@) ==> s == Step::Continue
                        && final(self).stack_view() == old(self).stack_view().drop_last().push(old(self).field_value(h, field@)),
                    _ => (s matches Step::Event(Event::Finished(Err(OnfexError::Runtime { message })))
                        && message@ == "Typect Ern: '"@ + field@ + "' alt strouct oft nophe"@),
                },
                Some(OpCode::SetField(field)) => ({
                    let st = old(self).stack_view();
                    st.len() >= 2 ==> match st[st.len() - 2].value {
                        Value::Struct(h) => old(self).field_writable(h, field@) ==> s == Step::Continue
                            && final(self).stack_view() == st.drop_last().drop_last().push(st.last())
                            && final(self).field_readable(h, field@) && final(self).field_value(h, field@) == st.last(),
                        _ => (s matches Step::Event(Event::Finished(Err(OnfexError::Runtime { message })))
                            && message@ == "Typect Ern: '"@ + field@ + "' alt strouct oft nophe"@),
                    }
                }),
                Some(OpCode::CallFunction(name, argc)) => (old(self).stack_view().len() >= argc && !old(self).function_known(name@))
                    ==> (s matches Step::Event(Event::Finished(Err(OnfexError::Runtime { message })))
                        && message@ == "'"@ + name@ + "' fonksiyon oft nophe"@),
                Some(OpCode::DefineFunction(name)) => if old(self).function_known(name@) {
                    old(self).scopes_view().len() > 0 ==> s == Step::Continue
                        && final(self).stack_view() == old(self).stack_view().push(Type { kind: TypeKind::Void, value: Value::Void })
                        && final(self).scopes_view().len() == old(self).scopes_view().len()
                        && final(self).scopes_view().drop_last() == old(self).scopes_view().drop_last()
                        && (first_key(final(self).scopes_view().last()@, name@) matches Some(k)
                            && final(self).scopes_view().last()@[k].1 == (Type { kind: TypeKind::FuncInht, value: Value::Func(name) }))
                } else {
                    (s matches Step::Event(Event::Finished(Err(OnfexError::Runtime { message })))
                        && message@ == "'"@ + name@ + "' fonksiyon meta oft gephnosan"@)
                },
                Some(OpCode::DefineStruct(name)) => if old(self).struct_known(name@) {
                    old(self).scopes_view().len() > 0 ==> s == Step::Continue
                        && final(self).stack_view() == old(self).stack_view().push(Type { kind: TypeKind::Void, value: Value::Void })
                        && final(self).scopes_view().len() == old(self).scopes_view().len()
                        && final(self).scopes_view().drop_last() == old(self).scopes_view().drop_last()
                        && (first_key(final(self).scopes_view().last()@, name@) matches Some(k)
                            && final(self).scopes_view().last()@[k].1 == (Type { kind: TypeKind::StrctT, value: Value::StructType(name) }))
                } else {
                    (s matches Step::Event(Event::Finished(Err(OnfexError::Runtime { message })))
                        && message@ == "'"@ + name@ + "' strouct meta oft gephnosan"@)
                },
                Some(OpCode::CallBuiltin(name, argc)) => ({
                    let st = old(self).stack_view();
                    let args = st.subrange(st.len() - argc, st.len() as int);
                    (st.len() >= argc && (name@ == "pyrintnos"@ || name@ == "pyrintnosFowLt"@))
                        ==> final(self).stack_view() == st.subrange(0, st.len() - argc)
                        && (argc == 0 ==> (s matches Step::Event(Event::Print { text, newline }) && text@.len() == 0 && newline))
                        && ((argc > 0 && plain_args(args)) ==> (args[0].value matches Value::Str(f)
                            ==> (s matches Step::Event(Event::Print { text, newline }) && text@ == print_text(f@, args)
                                && newline == (name@ == "pyrintnosFowLt"@))))
                }),
                Some(OpCode::BinOp(op)) => ({
                    let st = old(self).stack_view();
                    st.len() >= 2 ==> binop_step(st[st.len() - 2], op@, st.last(), s, st.drop_last().drop_last(),
                        final(self).stack_view())
                }),
                _ => true,
            },
            final(self).program_view() == old(self).program_view(),
            (old(self).current_op() is Some && advances_pc(old(self).current_op()->Some_0))
                ==> final(self).depth() == old(self).depth() && final(self).pc_view() == Some(next_pc(old(self).pc_view()->Some_0)),
            (old(self).current_op() is Some && (advances_pc(old(self).current_op()->Some_0)
                || old(self).current_op()->Some_0 is Jump || old(self).current_op()->Some_0 is JumpIfFalse))
                ==> final(self).depth() == old(self).depth() && final(self).frame_chunk() == old(self).frame_chunk()
                && final(self).frame_kind() == old(self).frame_kind() && final(self).outer_frames() == old(self).outer_frames(),
            (old(self).depth() > 0 && old(self).current_op() is None) ==> Self::ends_frame(*old(self), *final(self), s,
                top_or_void(old(self).stack_view()), below_top(old(self).stack_view())),
            old(self).current_op() == Some(OpCode::Return) ==> (if old(self).stack_view().len() > 0 {
                Self::ends_frame(*old(self), *final(self), s, old(self).stack_view().last(), old(self).stack_view().drop_last())
            } else {
                s matches Step::Event(Event::Finished(Err(OnfexError::Runtime { message })))
                    && message@ == "Bytecode VM Ern: yığın boşaldı (stack underflow)"@
            }),
            old(self).current_op() matches Some(OpCode::CallMethod(name, argc)) ==> ({
                let st = old(self).stack_view();
                st.len() > argc ==> (old(self).method_enterable(st[st.len() - argc - 1], name@, argc as nat)
                    <==> (s == Step::Continue && final(self).depth() == old(self).depth() + 1 && final(self).pc_view() == Some(0usize)))
            }),
            old(self).current_op() matches Some(OpCode::NewStruct(name, names)) ==> ({
                let st = old(self).stack_view();
                st.len() >= names@.len() ==> ((s == Step::Continue
                    && final(self).stack_view() == st.subrange(0, st.len() - names@.len()).push(
                        Type { kind: TypeKind::StrctT, value: Value::Struct(old(self).heap_len() as usize) }))
                    || s matches Step::Event(Event::Finished(Err(_))))
            }),
            old(self).current_op() matches Some(OpCode::CallFunction(name, argc)) ==> ({
                let st = old(self).stack_view();
                st.len() >= argc ==> (old(self).function_callable(name@, st.subrange(st.len() - argc, st.len() as int))
                    <==> (s == Step::Continue && final(self).depth() == old(self).depth() + 1 && final(self).pc_view() == Some(0usize)))
            }),
            old(self).current_op() matches Some(OpCode::CallFunction(name, argc)) ==> ({
                let st = old(self).stack_view();
                let args = st.subrange(st.len() - argc, st.len() as int);
                (st.len() >= argc && old(self).function_callable(name@, args))
                    ==> Self::binds_params(old(self).function_params(name@), args, *old(self), *final(self))
            }),
    {
        let n = self.frames.len();
        if n == 0 {
            return self.abort(owned("no frame to run"));
        }
        let chunk = self.frames[n - 1].chunk;
        let pc = self.frames[n - 1].pc;
        let op = match self.fetch(chunk, pc) {
            Some(op) => op,
            None => {
                let v = match self.stack.pop() {
                    Some(v) => v,
                    None => Type::newVoid(),
                };
                return self.finish_frame(Ending::Value(v));
            },
        };
        if pc < usize::MAX {
            self.set_pc(pc + 1);
        }
        match op {
            OpCode::PushInt(x) => {
                self.stack.push(Type::new(TypeKind::Int, Value::Int(x)));
            },
            OpCode::PushFloat(t) => {
                self.awaiting = Awaiting::FloatConst;
                return Step::Event(Event::FloatConst { text: t });
            },
            OpCode::PushStr(t) => {
                self.stack.push(Type::new(TypeKind::Str, Value::Str(t)));
            },
            OpCode::PushBool(b) => {
                self.stack.push(Type::new(TypeKind::Bool, Value::Bool(b)));
            },
            OpCode::PushVoid => {
                self.stack.push(Type::newVoid());
            },
            OpCode::Pop => {
                if let Err(e) = self.pop_stack() {
                    return self.fail(e);
                }
            },
            OpCode::Dup => {
                let len = self.stack.len();
                if len == 0 {
                    return self.fail(runtime_error(owned("Bytecode VM Ern: yığın boş (Dup)")));
                }
                let v = self.stack[len - 1].duplicate();
                self.stack.push(v);
            },
            OpCode::DefineVar(name) => {
                let v = match self.pop_stack() {
                    Ok(v) => v,
                    Err(e) => { return self.fail(e); },
                };
                if let Err(m) = self.define_var(name.as_str(), v.duplicate()) {
                    return self.abort(m);
                }
                self.stack.push(v);
                assert(self.stack@ =~= old(self).stack@);
            },
            OpCode::SetVar(name) => {
                let v = match self.pop_stack() {
                    Ok(v) => v,
                    Err(e) => { return self.fail(e); },
                };
                if let Err(e) = self.set_var(name.as_str(), v.duplicate()) {
                    return self.fail(e);
                }
                self.stack.push(v);
                assert(self.stack@ =~= old(self).stack@);
            },
            OpCode::GetVar(name) => {
                match self.get_var(name.as_str()) {
                    Ok(v) => self.stack.push(v),
                    Err(e) => { return self.fail(e); },
                }
            },
            OpCode::GetField(field) => {
                let recv = match self.pop_stack() {
                    Ok(v) => v,
                    Err(e) => { return self.fail(e); },
                };
                match recv.value {
                    Value::Struct(h) => {
                        match self.get_field(h, field.as_str()) {
                            Ok(v) => self.stack.push(v),
                            Err(Ok(e)) => { return self.fail(e); },
                            Err(Err(m)) => { return self.abort(m); },
                        }
                    },
                    _ => {
                        return self.fail(named_error("Typect Ern: '", field.as_str(), "' alt strouct oft nophe"));
                    },
                }
            },
            OpCode::SetField(field) => {
                let val = match self.pop_stack() {
                    Ok(v) => v,
                    Err(e) => { return self.fail(e); },
                };
                let recv = match self.pop_stack() {
                    Ok(v) => v,
                    Err(e) => { return self.fail(e); },
                };
                match recv.value {
                    Value::Struct(h) => {
                        match self.set_field(h, field.as_str(), val.duplicate()) {
                            Ok(()) => self.stack.push(val),
                            Err(Ok(e)) => { return self.fail(e); },
                            Err(Err(m)) => { return self.abort(m); },
                        }
                    },
                    _ => {
                        return self.fail(named_error("Typect Ern: '", field.as_str(), "' alt strouct oft nophe"));
                    },
                }
            },
            OpCode::BinOp(op) => {
                let r = match self.pop_stack() {
                    Ok(v) => v,
                    Err(e) => { return self.fail(e); },
                };
                let l = match self.pop_stack() {
                    Ok(v) => v,
                    Err(e) => { return self.fail(e); },
                };
                match binop(l, op.as_str(), r) {
                    Ok(BinResult::Value(v)) => self.stack.push(v),
                    Ok(BinResult::Float(a, b)) => {
                        self.awaiting = Awaiting::FloatOp;
                        return Step::Event(Event::FloatOp { left: a, op, right: b });
                    },
                    Ok(BinResult::Overflow(m)) => { return self.abort(m); },
                    Err(e) => { return self.fail(e); },
                }
            },
            OpCode::JumpIfFalse(target) => {
                let cond = match self.pop_stack() {
                    Ok(v) => v,
                    Err(e) => { return self.fail(e); },
                };
                if !is_truthy(&cond) {
                    self.set_pc(target);
                }
            },
            OpCode::Jump(target) => {
                self.set_pc(target);
            },
            OpCode::EnterScope => {
                self.scopes.push(Vec::new());
            },
            OpCode::ExitScope => {
                let _ = self.scopes.pop();
            },
            OpCode::CallFunction(name, argc) => {
                let args = match self.pop_args(argc) {
                    Ok(a) => a,
                    Err(e) => { return self.fail(e); },
                };
                if let Err(e) = self.call_function(name.as_str(), args) {
                    return self.fail(e);
                }
            },
            OpCode::CallBuiltin(name, argc) => {
                let args = match self.pop_args(argc) {
                    Ok(a) => a,
                    Err(e) => { return self.fail(e); },
                };
                return self.builtin(name.as_str(), args);
            },
            OpCode::CallMethod(name, argc) => {
                let args = match self.pop_args(argc) {
                    Ok(a) => a,
                    Err(e) => { return self.fail(e); },
                };
                let recv = match self.pop_stack() {
                    Ok(v) => v,
                    Err(e) => { return self.fail(e); },
                };
                match self.call_method(recv, name.as_str(), args) {
                    Ok(()) => {},
                    Err(Ok(e)) => { return self.fail(e); },
                    Err(Err(m)) => { return self.abort(m); },
                }
            },
            OpCode::NewStruct(name, field_names) => {
                let ghost f1 = self.frames;
                let mut ft: Vec<(String, Type)> = Vec::new();
                let mut k = field_names.len();
                assert(self.stack@ =~= old(self).stack@.subrange(0, old(self).stack@.len() as int));
                while k > 0
                    invariant
                        k <= field_names@.len(),
                        self.awaiting == Awaiting::Nothing,
                        self.frames == f1,
                        self.program == old(self).program,
                        self.heap == old(self).heap,
                        old(self).stack@.len() >= field_names@.len() ==> self.stack@ == old(self).stack@.subrange(0,
                            old(self).stack@.len() - (field_names@.len() - k)),
                        self.depth() == old(self).depth(),
                        self.frame_chunk() == old(self).frame_chunk(),
                        self.frame_kind() == old(self).frame_kind(),
                        self.outer_frames() == old(self).outer_frames(),
                        self.pc_view() == Some(next_pc(old(self).pc_view()->Some_0)),
                        old(self).current_op() is Some && old(self).current_op()->Some_0 is NewStruct,
                    decreases k,
                {
                    let v = match self.pop_stack() {
                        Ok(v) => v,
                        Err(e) => { return self.fail(e); },
                    };
                    set_key(&mut ft, field_names[k - 1].clone(), v);
                    k = k - 1;
                }
                match self.instantiate(name.as_str(), ft) {
                    Ok(h) => self.stack.push(Type::new(TypeKind::StrctT, Value::Struct(h))),
                    Err(e) => { return self.fail(e); },
                }
            },
            OpCode::DefineFunction(name) => {
                if find_key(&self.program.function_meta, name.as_str()).is_none() {
                    return self.fail(named_error("'", name.as_str(), "' fonksiyon meta oft gephnosan"));
                }
                let f = Type::new(TypeKind::FuncInht, Value::Func(name.clone()));
                let ghost f0 = f;
                let ghost before = self.scopes@;
                if let Err(m) = self.define_var(name.as_str(), f) {
                    return self.abort(m);
                }
                proof {
                    if before.len() > 0 {
                        lemma_set_key_reads_back(before.last()@, self.scopes@.last()@, name@, f0);
                    }
                }
                self.stack.push(Type::newVoid());
            },
            OpCode::DefineStruct(name) => {
                if find_key(&self.program.struct_types, name.as_str()).is_none() {
                    return self.fail(named_error("'", name.as_str(), "' strouct meta oft gephnosan"));
                }
                let t = Type::new(TypeKind::StrctT, Value::StructType(name.clone()));
                let ghost t0 = t;
                let ghost before = self.scopes@;
                if let Err(m) = self.define_var(name.as_str(), t) {
                    return self.abort(m);
                }
                proof {
                    if before.len() > 0 {
                        lemma_set_key_reads_back(before.last()@, self.scopes@.last()@, name@, t0);
                    }
                }
                self.stack.push(Type::newVoid());
            },
            OpCode::Return => {
                let v = match self.pop_stack() {
                    Ok(v) => v,
                    Err(e) => { return self.fail(e); },
                };
                return self.finish_frame(Ending::Return(v));
            },
        }
        Step::Continue
    }

    /// Gives the machine the caller's answer to the event it is waiting on.
    pub fn reply(&mut self, r: Reply) -> (s: Step)
        ensures
            final(self).waiting() == waits_for(s),
            match (old(self).waiting(), r) {
                (Awaiting::Printed, Reply::Printed) => s == Step::Continue
                    && final(self).stack_view() == old(self).stack_view().push(Type { kind: TypeKind::Void, value: Value::Void }),
                (Awaiting::Line, Reply::Line(line)) => s == Step::Continue
                    && final(self).stack_view().len() == old(self).stack_view().len() + 1
                    && final(self).stack_view().drop_last() == old(self).stack_view()
                    && final(self).stack_view().last().kind == TypeKind::Str
                    && final(self).stack_view().last().value is Str
                    && final(self).stack_view().last().value->Str_0@ == crate::assoc::trimmed(line@),
                (Awaiting::FloatConst, Reply::Float(text)) => s == Step::Continue
                    && final(self).stack_view() == old(self).stack_view().push(Type { kind: TypeKind::Float, value: Value::Float(text) }),
                (Awaiting::FloatOp, Reply::Value(v)) => s == Step::Continue
                    && final(self).stack_view() == old(self).stack_view().push(v),
                (Awaiting::Printed, Reply::Failed(m)) => s == Step::Event(Event::Finished(Err(OnfexError::Runtime { message: m }))),
                (Awaiting::Line, Reply::Failed(m)) => s == Step::Event(Event::Finished(Err(OnfexError::Runtime { message: m }))),
                _ => s is Event && s->Event_0 is Panic,
            },
    {
        let waiting = self.awaiting;
        self.awaiting = Awaiting::Nothing;
        match (waiting, r) {
            (Awaiting::Printed, Reply::Printed) => {
                self.stack.push(Type::newVoid());
                Step::Continue
            },
            (Awaiting::Line, Reply::Line(line)) => {
                let t = trim(line.as_str());
                self.stack.push(Type::new(TypeKind::Str, Value::Str(t)));
                Step::Continue
            },
            (Awaiting::FloatConst, Reply::Float(text)) => {
                self.stack.push(Type::new(TypeKind::Float, Value::Float(text)));
                Step::Continue
            },
            (Awaiting::FloatOp, Reply::Value(v)) => {
                self.stack.push(v);
                Step::Continue
            },
            (Awaiting::Printed, Reply::Failed(m)) | (Awaiting::Line, Reply::Failed(m)) => {
                self.fail(runtime_error(m))
            },
            _ => self.abort(owned("a reply that the machine did not wait for")),
        }
    }
}

} // verus!

verus! {

/// Reading a variable gives back what was last stored in it: after the
/// binding that `scope_of` finds for `name` gets the value `v` (as
/// `set_var` does), looking `name` up finds `v`.
pub proof fn law_read_after_write(scopes: Seq<Vec<(String, Type)>>, name: Seq<char>, v: Type, new_scope: Vec<(String, Type)>)
    requires
        scope_of(scopes, name) is Some,
        ({
            let s = scope_of(scopes, name)->Some_0;
            let j = first_key(scopes[s]@, name)->Some_0;
            new_scope@ == scopes[s]@.update(j, (scopes[s]@[j].0, v))
        }),
    ensures
        ({
            let s = scope_of(scopes, name)->Some_0;
            let after = scopes.update(s, new_scope);
            &&& scope_of(after, name) == Some(s)
            &&& after[s]@[first_key(after[s]@, name)->Some_0].1 == v
        }),
{
    let s = scope_of(scopes, name)->Some_0;
    lemma_scope_of_range(scopes, name);
    let j = first_key(scopes[s]@, name)->Some_0;
    let old_scope = scopes[s]@;
    lemma_first_key(old_scope, name);
    assert(new_scope@[j].0@ == name);
    assert forall|k: int| 0 <= k < j implies #[trigger] new_scope@[k].0@ != name by {
        assert(new_scope@[k] == old_scope[k]);
    }
    lemma_first_key(new_scope@, name);
    match first_key(new_scope@, name) {
        Some(w) => {
            if w < j {
                assert(new_scope@[w].0@ != name);
            } else if w > j {
                assert(new_scope@[j].0@ != name);
            }
        },
        None => {
            assert(new_scope@[j].0@ != name);
        },
    }
    lemma_scope_of_update(scopes, name, s, new_scope);
}

proof fn lemma_scope_of_update(scopes: Seq<Vec<(String, Type)>>, name: Seq<char>, s: int, new_scope: Vec<(String, Type)>)
    requires
        scope_of(scopes, name) == Some(s),
        0 <= s < scopes.len(),
        first_key(new_scope@, name) is Some,
    ensures
        scope_of(scopes.update(s, new_scope), name) == Some(s),
    decreases scopes.len(),
{
    let after = scopes.update(s, new_scope);
    if s == scopes.len() - 1 {
        assert(after.last() == new_scope);
    } else {
        assert(first_key(scopes.last()@, name) is None);
        assert(after.last() == scopes.last());
        assert(after.drop_last() =~= scopes.drop_last().update(s, new_scope));
        lemma_scope_of_update(scopes.drop_last(), name, s, new_scope);
    }
}

} // verus!
