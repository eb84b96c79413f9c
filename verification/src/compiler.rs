//! The compiler: walks the syntax tree once and produces the chunks of a
//! `Program`. Blocks of `ifnt`/`elsnt` are compiled inline with jumps; only
//! function and method bodies get chunks of their own.
use vstd::prelude::*;
use crate::ast::{clone_fields, clone_params, Expr, Param, Stmt, StmtNode};
use crate::bytecode::{depth_after, jumps_in_range, lemma_depth_concat, leaves_line, op_effect, Chunk, FunctionMeta, OpCode, Program, StructType};
use crate::error::OnfexError;
use crate::parser::put;
use crate::text::{owned, push_str, str_eq};

verus! {

broadcast use vstd::string::group_string_axioms;

/// Whether a name is in a list of names.
pub open spec fn names_contain(v: Seq<String>, n: Seq<char>) -> bool {
    exists|i: int| 0 <= i < v.len() && #[trigger] v[i]@ == n
}

/// Whether a name is in a list of names.
fn contains_name(v: &Vec<String>, n: &str) -> (r: bool)
    ensures
        r == names_contain(v@, n@),
{
    let mut i: usize = 0;
    while i < v.len()
        invariant
            0 <= i <= v@.len(),
            forall|j: int| 0 <= j < i ==> v@[j]@ != n@,
        decreases v@.len() - i,
    {
        if str_eq(v[i].as_str(), n) {
            return true;
        }
        i = i + 1;
    }
    false
}

/// Adds a name to a list of names unless it is there already.
fn insert_name(v: &mut Vec<String>, n: String)
    ensures
        names_contain(old(v)@, n@) ==> final(v)@ == old(v)@,
        !names_contain(old(v)@, n@) ==> final(v)@ == old(v)@.push(n),
{
    if !contains_name(v, n.as_str()) {
        v.push(n);
    }
}

/// Whether every chunk of an association list keeps its jumps inside itself.
pub open spec fn chunks_ok(v: Seq<(String, Chunk)>) -> bool {
    forall|i: int| 0 <= i < v.len() ==> jumps_in_range(#[trigger] v[i].1.code@)
}

/// Binding a name to a chunk whose jumps stay inside it keeps every chunk of
/// the list so.
proof fn lemma_put_chunk(old: Seq<(String, Chunk)>, new: Seq<(String, Chunk)>, k: String, x: Chunk)
    requires
        chunks_ok(old),
        jumps_in_range(x.code@),
        match crate::parser::keys_of(old).index_of_first(k@) {
            Some(j) => new == old.update(j, (old[j].0, x)),
            None => new == old.push((k, x)),
        },
    ensures
        chunks_ok(new),
{
    match crate::parser::keys_of(old).index_of_first(k@) {
        Some(j) => {
            crate::parser::keys_of(old).index_of_first_ensures(k@);
            assert forall|i: int| 0 <= i < new.len() implies jumps_in_range(#[trigger] new[i].1.code@) by {
                if i != j {
                    assert(new[i] == old[i]);
                }
            }
        },
        None => {
            assert forall|i: int| 0 <= i < new.len() implies jumps_in_range(#[trigger] new[i].1.code@) by {
                if i < old.len() {
                    assert(new[i] == old[i]);
                }
            }
        },
    }
}

/// Whether the chunks of a program keep their jumps inside themselves.
pub open spec fn program_jumps_ok(p: Program) -> bool {
    &&& jumps_in_range(p.main.code@)
    &&& forall|i: int| 0 <= i < p.functions@.len() ==> jumps_in_range(#[trigger] p.functions@[i].1.code@)
    &&& forall|i: int| 0 <= i < p.methods@.len() ==> jumps_in_range(#[trigger] p.methods@[i].1.code@)
}

/// Every jump at or after position `from` lands inside `code`.
pub open spec fn tail_jumps_ok(code: Seq<OpCode>, from: int) -> bool {
    forall|i: int|
        from <= i < code.len() ==> match #[trigger] code[i] {
            OpCode::Jump(t) => t <= code.len(),
            OpCode::JumpIfFalse(t) => t <= code.len(),
            _ => true,
        }
}

/// `new` is `old` with instructions added at the end, whose jumps land
/// inside `new`.
pub open spec fn extends(old: Seq<OpCode>, new: Seq<OpCode>) -> bool {
    &&& old.len() <= new.len()
    &&& new.subrange(0, old.len() as int) == old
    &&& tail_jumps_ok(new, old.len() as int)
}

/// Extending is transitive.
proof fn lemma_extends_trans(a: Seq<OpCode>, b: Seq<OpCode>, c: Seq<OpCode>)
    requires
        extends(a, b),
        extends(b, c),
    ensures
        extends(a, c),
{
    assert(c.subrange(0, a.len() as int) =~= a) by {
        assert forall|i: int| 0 <= i < a.len() implies c.subrange(0, a.len() as int)[i] == a[i] by {
            assert(c.subrange(0, b.len() as int)[i] == b[i]);
            assert(b.subrange(0, a.len() as int)[i] == a[i]);
        }
    }
    assert forall|i: int| a.len() <= i < c.len() implies match #[trigger] c[i] {
        OpCode::Jump(t) => t <= c.len(),
        OpCode::JumpIfFalse(t) => t <= c.len(),
        _ => true,
    } by {
        if i < b.len() {
            assert(c.subrange(0, b.len() as int)[i] == b[i]);
            assert(c[i] == b[i]);
        }
    }
}

/// Code whose jumps all land inside it keeps that when extended.
proof fn lemma_extends_jumps(a: Seq<OpCode>, b: Seq<OpCode>)
    requires
        extends(a, b),
        jumps_in_range(a),
    ensures
        jumps_in_range(b),
{
    assert forall|i: int| 0 <= i < b.len() implies match #[trigger] b[i] {
        OpCode::Jump(t) => t <= b.len(),
        OpCode::JumpIfFalse(t) => t <= b.len(),
        _ => true,
    } by {
        if i < a.len() {
            assert(b.subrange(0, a.len() as int)[i] == a[i]);
            assert(b[i] == a[i]);
            match a[i] {
                OpCode::Jump(t) => {},
                OpCode::JumpIfFalse(t) => {},
                _ => {},
            }
        }
    }
}

/// The instructions from `s` on in `c`.
pub open spec fn tail(c: Seq<OpCode>, s: int) -> Seq<OpCode> {
    c.subrange(s, c.len() as int)
}

/// Running the tail of an extended list is running the tail of the original
/// and then what was added.
proof fn lemma_tail_then(a: Seq<OpCode>, b: Seq<OpCode>, s: int, d: int)
    requires
        0 <= s <= a.len() <= b.len(),
        b.subrange(0, a.len() as int) == a,
    ensures
        depth_after(tail(b, s), d) == match depth_after(tail(a, s), d) {
            None => None,
            Some(d1) => depth_after(tail(b, a.len() as int), d1),
        },
{
    assert(tail(b, s) =~= tail(a, s) + tail(b, a.len() as int)) by {
        assert forall|i: int| 0 <= i < tail(b, s).len() implies tail(b, s)[i] == (tail(a, s) + tail(b, a.len() as int))[i] by {
            if i < a.len() - s {
                assert(b.subrange(0, a.len() as int)[s + i] == a[s + i]);
            }
        }
    }
    lemma_depth_concat(tail(a, s), tail(b, a.len() as int), d);
}

/// One instruction added at the end.
proof fn lemma_tail_push(c: Seq<OpCode>, op: OpCode, s: int, d: int)
    requires
        0 <= s <= c.len(),
    ensures
        depth_after(tail(c.push(op), s), d) == match depth_after(tail(c, s), d) {
            None => None,
            Some(d1) => if d1 >= op_effect(op).0 && !leaves_line(op) { Some(d1 + op_effect(op).1) } else { None },
        },
{
    assert(tail(c.push(op), s).drop_last() =~= tail(c, s));
    assert(tail(c.push(op), s).last() == op);
}

/// The instructions added to `old` to give `new`, run from any height of the
/// stack, need nothing below it, never jump, and leave one value more.
pub open spec fn pushes_one(old: Seq<OpCode>, new: Seq<OpCode>) -> bool {
    forall|d: int| d >= 0 ==> #[trigger] depth_after(new.subrange(old.len() as int, new.len() as int), d) == Some(d + 1)
}

/// The instructions added to `c0` to give `c1`, run from any height `d` of
/// the stack, never take a value below `d`, never jump, and leave `d + k`.
pub open spec fn pushes(c0: Seq<OpCode>, c1: Seq<OpCode>, k: int) -> bool {
    forall|d: int| d >= 0 ==> #[trigger] depth_after(tail(c1, c0.len() as int), d) == Some(d + k)
}

proof fn lemma_pushes_zero(c: Seq<OpCode>)
    ensures
        pushes(c, c, 0),
        extends(c, c),
{
    assert(c.subrange(0, c.len() as int) =~= c);
    assert forall|d: int| d >= 0 implies #[trigger] depth_after(tail(c, c.len() as int), d) == Some(d + 0) by {
        assert(tail(c, c.len() as int) =~= Seq::<OpCode>::empty());
    }
}

proof fn lemma_pushes_then(c0: Seq<OpCode>, c1: Seq<OpCode>, c2: Seq<OpCode>, k1: int, k2: int)
    requires
        extends(c0, c1),
        extends(c1, c2),
        pushes(c0, c1, k1),
        pushes(c1, c2, k2),
        k1 >= 0,
    ensures
        pushes(c0, c2, k1 + k2),
        extends(c0, c2),
{
    lemma_extends_trans(c0, c1, c2);
    assert forall|d: int| d >= 0 implies #[trigger] depth_after(tail(c2, c0.len() as int), d) == Some(d + (k1 + k2)) by {
        lemma_tail_then(c1, c2, c0.len() as int, d);
        assert(depth_after(tail(c1, c0.len() as int), d) == Some(d + k1));
        assert(depth_after(tail(c2, c1.len() as int), d + k1) == Some(d + k1 + k2));
    }
}

proof fn lemma_pushes_op(c0: Seq<OpCode>, c1: Seq<OpCode>, k: int, op: OpCode)
    requires
        extends(c0, c1),
        pushes(c0, c1, k),
        k >= op_effect(op).0,
        !leaves_line(op),
    ensures
        extends(c0, c1.push(op)),
        pushes(c0, c1.push(op), k + op_effect(op).1),
{
    let c2 = c1.push(op);
    assert(c2.subrange(0, c1.len() as int) =~= c1);
    assert(extends(c1, c2));
    lemma_extends_trans(c0, c1, c2);
    assert forall|d: int| d >= 0 implies #[trigger] depth_after(tail(c2, c0.len() as int), d) == Some(d + (k + op_effect(op).1)) by {
        lemma_tail_push(c1, op, c0.len() as int, d);
        assert(depth_after(tail(c1, c0.len() as int), d) == Some(d + k));
    }
}

/// Adding an instruction that does not jump extends the code.
proof fn lemma_extends_push(c: Seq<OpCode>, op: OpCode)
    requires
        !(op is Jump),
        !(op is JumpIfFalse),
    ensures
        extends(c, c.push(op)),
{
    assert(c.push(op).subrange(0, c.len() as int) =~= c);
}

/// Appends an instruction and returns its position.
fn emit(code: &mut Vec<OpCode>, op: OpCode) -> (i: usize)
    ensures
        final(code)@ == old(code)@.push(op),
        i == old(code)@.len(),
{
    code.push(op);
    code.len() - 1
}

/// The code of an expression of the straight-line kinds: literals, variables,
/// operators (left operand first), fields, built-in calls and method calls
/// (receiver, then the arguments in order). `None` for the other kinds, whose
/// code depends on the names met so far or which are refused.
pub open spec fn expr_code(e: Expr) -> Option<Seq<OpCode>>
    decreases e,
{
    match e {
        Expr::Int(x) => Some(seq![OpCode::PushInt(x)]),
        Expr::Float(t) => Some(seq![OpCode::PushFloat(t)]),
        Expr::Str(t) => Some(seq![OpCode::PushStr(t)]),
        Expr::Bool(b) => Some(seq![OpCode::PushBool(b)]),
        Expr::Void => Some(seq![OpCode::PushVoid]),
        Expr::Variable(n) => Some(seq![OpCode::GetVar(n)]),
        Expr::BinaryOp(l, op, r) => match (expr_code(*l), expr_code(*r)) {
            (Some(a), Some(b)) => Some(a + b + seq![OpCode::BinOp(op)]),
            _ => None,
        },
        Expr::Member(b, f) => match expr_code(*b) {
            Some(a) => Some(a + seq![OpCode::GetField(f)]),
            None => None,
        },
        Expr::MethodCall(recv, name, args) => match (expr_code(*recv), args_code(args@)) {
            (Some(a), Some(b)) => Some(a + b + seq![OpCode::CallMethod(name, args.len())]),
            _ => None,
        },
        Expr::Call(callee, args, _) => match *callee {
            Expr::Macro(m) => match args_code(args@) {
                Some(b) => Some(b + seq![OpCode::CallBuiltin(m, args.len())]),
                None => None,
            },
            _ => None,
        },
        _ => None,
    }
}

/// The code of an expression once the functions `kf` and the `strouct`s
/// `ks` are known: as `expr_code`, and besides a call of a known function
/// (that is not a `strouct`) is its arguments' code in order, then the call.
/// Every operator's code is its left operand's code, then its right
/// operand's, then the operator.
pub open spec fn code_with(kf: Seq<String>, ks: Seq<String>, e: Expr) -> Option<Seq<OpCode>>
    decreases e,
{
    match e {
        Expr::BinaryOp(l, op, r) => match (code_with(kf, ks, *l), code_with(kf, ks, *r)) {
            (Some(a), Some(b)) => Some(a + b + seq![OpCode::BinOp(op)]),
            _ => None,
        },
        Expr::Member(b, f) => match code_with(kf, ks, *b) {
            Some(a) => Some(a + seq![OpCode::GetField(f)]),
            None => None,
        },
        Expr::MethodCall(recv, name, args) => match (code_with(kf, ks, *recv), args_code_with(kf, ks, args@)) {
            (Some(a), Some(b)) => Some(a + b + seq![OpCode::CallMethod(name, args.len())]),
            _ => None,
        },
        Expr::Call(callee, args, _) => match *callee {
            Expr::Macro(m) => match args_code_with(kf, ks, args@) {
                Some(b) => Some(b + seq![OpCode::CallBuiltin(m, args.len())]),
                None => None,
            },
            Expr::Variable(v) => if !names_contain(ks, v@) && names_contain(kf, v@) {
                match args_code_with(kf, ks, args@) {
                    Some(b) => Some(b + seq![OpCode::CallFunction(v, args.len())]),
                    None => None,
                }
            } else {
                None
            },
            _ => None,
        },
        _ => expr_code(e),
    }
}

/// The code of arguments in order (see `code_with`).
pub open spec fn args_code_with(kf: Seq<String>, ks: Seq<String>, s: Seq<Expr>) -> Option<Seq<OpCode>>
    decreases s,
{
    if s.len() == 0 {
        Some(seq![])
    } else {
        match (args_code_with(kf, ks, s.drop_last()), code_with(kf, ks, s.last())) {
            (Some(a), Some(b)) => Some(a + b),
            _ => None,
        }
    }
}

/// An operator's code runs its left operand's code before its right
/// operand's, then the operator, whatever the operands are; a call of a known
/// function (that is no `strouct`) is its arguments' code in order, then the
/// call with as many arguments.
pub proof fn law_operands_compiled_in_order(kf: Seq<String>, ks: Seq<String>, x: Expr, op: String, y: Expr)
    ensures
        code_with(kf, ks, x) matches Some(cx) ==> (code_with(kf, ks, y) matches Some(cy)
            ==> code_with(kf, ks, Expr::BinaryOp(Box::new(x), op, Box::new(y))) == Some(cx + cy + seq![OpCode::BinOp(op)])),
        x matches Expr::Call(c, args, _) ==> (*c matches Expr::Variable(f) ==> ((names_contain(kf, f@) && !names_contain(ks, f@)
            && args_code_with(kf, ks, args@) is Some) ==> code_with(kf, ks, x)
                == Some(args_code_with(kf, ks, args@)->Some_0 + seq![OpCode::CallFunction(f, args.len())]))),
{
}

/// Code known without the names agrees with the code known with them.
proof fn lemma_code_with(kf: Seq<String>, ks: Seq<String>, e: Expr)
    ensures
        expr_code(e) is Some ==> code_with(kf, ks, e) == expr_code(e),
    decreases e,
{
    match e {
        Expr::BinaryOp(l, _, r) => { lemma_code_with(kf, ks, *l); lemma_code_with(kf, ks, *r); },
        Expr::Member(b, _) => { lemma_code_with(kf, ks, *b); },
        Expr::MethodCall(recv, _, args) => {
            lemma_code_with(kf, ks, *recv);
            lemma_args_code_with(kf, ks, args@);
        },
        Expr::Call(callee, args, _) => {
            assert(decreases_to!(e => args));
            lemma_args_code_with(kf, ks, args@);
        },
        _ => {},
    }
}

proof fn lemma_args_code_with(kf: Seq<String>, ks: Seq<String>, s: Seq<Expr>)
    ensures
        args_code(s) is Some ==> args_code_with(kf, ks, s) == args_code(s),
    decreases s,
{
    if s.len() > 0 {
        lemma_args_code_with(kf, ks, s.drop_last());
        lemma_code_with(kf, ks, s.last());
    }
}

proof fn lemma_args_code_with_prefix(kf: Seq<String>, ks: Seq<String>, s: Seq<Expr>, i: int)
    requires
        args_code_with(kf, ks, s) is Some,
        0 <= i < s.len(),
    ensures
        args_code_with(kf, ks, s.take(i)) is Some,
        code_with(kf, ks, s[i]) is Some,
        args_code_with(kf, ks, s.take(i + 1))
            == Some(args_code_with(kf, ks, s.take(i))->Some_0 + code_with(kf, ks, s[i])->Some_0),
    decreases s.len(),
{
    assert(s.take(i + 1).drop_last() =~= s.take(i));
    if i + 1 < s.len() {
        assert(s.drop_last().take(i) =~= s.take(i));
        assert(s.drop_last().take(i + 1) =~= s.take(i + 1));
        lemma_args_code_with_prefix(kf, ks, s.drop_last(), i);
    } else {
        assert(s.take(i + 1) =~= s);
    }
}

/// Whether an expression is a macro name.
pub open spec fn is_macro(e: Expr) -> bool {
    e is Macro
}

/// Whether an expression is a variable.
pub open spec fn is_variable(e: Expr) -> bool {
    e is Variable
}

/// The code of a list of expressions, one after another.
pub open spec fn args_code(s: Seq<Expr>) -> Option<Seq<OpCode>>
    decreases s,
{
    if s.len() == 0 {
        Some(seq![])
    } else {
        match (args_code(s.drop_last()), expr_code(s.last())) {
            (Some(a), Some(b)) => Some(a + b),
            _ => None,
        }
    }
}

/// The code of a prefix of a list whose code is known is known, and the list's
/// code continues it item by item.
proof fn lemma_args_code_prefix(s: Seq<Expr>, i: int)
    requires
        args_code(s) is Some,
        0 <= i < s.len(),
    ensures
        args_code(s.take(i)) is Some,
        expr_code(s[i]) is Some,
        args_code(s.take(i + 1)) == Some(args_code(s.take(i))->Some_0 + expr_code(s[i])->Some_0),
    decreases s.len(),
{
    assert(s.take(i + 1).drop_last() =~= s.take(i));
    if i + 1 < s.len() {
        assert(s.drop_last().take(i) =~= s.take(i));
        assert(s.drop_last().take(i + 1) =~= s.take(i + 1));
        lemma_args_code_prefix(s.drop_last(), i);
    } else {
        assert(s.take(i + 1) =~= s);
    }
}

/// The code of a statement of the straight-line kinds: an expression, an
/// assignment (the value stays as the statement's), a field assignment, or a
/// return. `None` for the other kinds.
pub open spec fn stmt_code(s: Stmt) -> Option<Seq<OpCode>> {
    match s {
        Stmt::ExprNode(e) => expr_code(*e.expr),
        Stmt::Assign(n, e) => match expr_code(*e.expr) {
            Some(a) => Some(a + seq![OpCode::DefineVar(n)]),
            None => None,
        },
        Stmt::ReAssign(n, e) => match expr_code(*e.expr) {
            Some(a) => Some(a + seq![OpCode::SetVar(n)]),
            None => None,
        },
        Stmt::MemberAssign(b, f, v) => match (expr_code(*b.expr), expr_code(*v.expr)) {
            (Some(a), Some(c)) => Some(a + c + seq![OpCode::SetField(f)]),
            _ => None,
        },
        Stmt::Return(x) => match x {
            None => Some(seq![OpCode::PushVoid, OpCode::Return]),
            Some(e) => match expr_code(*e.expr) {
                Some(a) => Some(a + seq![OpCode::Return]),
                None => None,
            },
        },
        _ => None,
    }
}

/// The code of an `elsnt` block: `nophe` where there is none.
pub open spec fn else_code(eb: Option<Vec<StmtNode>>) -> Option<Seq<OpCode>> {
    match eb {
        Some(b) => block_code(b@),
        None => Some(seq![OpCode::PushVoid]),
    }
}

/// The code of an `ifnt` that starts at position `base`, from the codes of
/// its condition `cc`, its first block `bc` and its `elsnt` block `ec`: a new
/// scope; the condition; a jump past the first block when it is false; the
/// first block and a jump past the `elsnt` block; the `elsnt` block; the
/// scope closed.
pub open spec fn if_code(base: int, cc: Seq<OpCode>, bc: Seq<OpCode>, ec: Seq<OpCode>) -> Seq<OpCode> {
    let else_start = base + 1 + cc.len() + 1 + bc.len() + 1;
    let end = else_start + ec.len();
    seq![OpCode::EnterScope] + cc + seq![OpCode::JumpIfFalse(else_start as usize)] + bc
        + seq![OpCode::Jump(end as usize)] + ec + seq![OpCode::ExitScope]
}

/// The code of a list of statements: `nophe` for none; otherwise each
/// statement's code, with a `Pop` dropping each value but the last.
pub open spec fn block_code(s: Seq<StmtNode>) -> Option<Seq<OpCode>>
    decreases s.len(),
{
    if s.len() == 0 {
        Some(seq![OpCode::PushVoid])
    } else if s.len() == 1 {
        stmt_code(s[0].stmt)
    } else {
        match (block_code(s.drop_last()), stmt_code(s.last().stmt)) {
            (Some(a), Some(b)) => Some(a + seq![OpCode::Pop] + b),
            _ => None,
        }
    }
}

/// A list of statements whose code is known has known code in every
/// non-empty prefix.
proof fn lemma_block_code_prefix(s: Seq<StmtNode>, i: int)
    requires
        block_code(s) is Some,
        0 <= i < s.len(),
    ensures
        stmt_code(s[i].stmt) is Some,
        i > 0 ==> block_code(s.take(i)) is Some,
        i == 0 ==> block_code(s.take(1)) == stmt_code(s[0].stmt),
        i > 0 ==> block_code(s.take(i + 1))
            == Some(block_code(s.take(i))->Some_0 + seq![OpCode::Pop] + stmt_code(s[i].stmt)->Some_0),
    decreases s.len(),
{
    assert(s.take(i + 1).drop_last() =~= s.take(i));
    if i + 1 < s.len() {
        assert(s.drop_last().take(i) =~= s.take(i));
        assert(s.drop_last().take(i + 1) =~= s.take(i + 1));
        lemma_block_code_prefix(s.drop_last(), i);
    } else {
        assert(s.take(i + 1) =~= s);
    }
}

/// The statements the stack machine does not take: loading libraries and
/// modules, and renaming them.
pub open spec fn refused(s: Stmt) -> bool {
    s is Import || s is Mod || s is TypeLib || s is TypeMod
}

/// An expression the stack machine never takes (see `compile_expr`).
pub open spec fn unsupported_expr(e: Expr) -> bool {
    ||| e is List || e is Dict || e is LibList || e is LibDict || e is Deref || e is AddressOf || e is Spread
    ||| e is LibVariable || e is ModVariable || e is Macro
    ||| (e is Call && !(is_macro(*e->Call_0) || is_variable(*e->Call_0)))
}

/// A function definition with a variadic parameter.
pub open spec fn vararg_func(s: Stmt) -> bool {
    s matches Stmt::FuncCre(_, ps, _, _) && exists|i: int| 0 <= i < ps@.len() && #[trigger] ps@[i].vararg
}

/// A statement the compiler refuses whatever came before it: one that is
/// `refused`, a function or a method with a variadic parameter, or a
/// statement whose expression is `unsupported_expr`.
pub open spec fn fails_at_once(s: Stmt) -> bool {
    ||| refused(s)
    ||| vararg_func(s)
    ||| (s matches Stmt::StrctCre(_, _, funcs) && exists|j: int| 0 <= j < funcs@.len() && vararg_func(#[trigger] funcs@[j].1))
    ||| (s matches Stmt::ExprNode(e) && unsupported_expr(*e.expr))
    ||| (s matches Stmt::Assign(_, e) && unsupported_expr(*e.expr))
    ||| (s matches Stmt::ReAssign(_, e) && unsupported_expr(*e.expr))
    ||| (s matches Stmt::Return(Some(e)) && unsupported_expr(*e.expr))
}

/// Sets the target of the jump at `idx`.
fn patch_jump(code: &mut Vec<OpCode>, idx: usize, target: usize)
    requires
        idx < old(code)@.len(),
    ensures
        final(code)@ == match old(code)@[idx as int] {
            OpCode::Jump(_) => old(code)@.update(idx as int, OpCode::Jump(target)),
            OpCode::JumpIfFalse(_) => old(code)@.update(idx as int, OpCode::JumpIfFalse(target)),
            _ => old(code)@,
        },
{
    let is_jump = matches!(code[idx], OpCode::Jump(_));
    let is_cond = matches!(code[idx], OpCode::JumpIfFalse(_));
    if is_jump {
        code.set(idx, OpCode::Jump(target));
    } else if is_cond {
        code.set(idx, OpCode::JumpIfFalse(target));
    }
}

/// Whether some parameter collects the remaining arguments.
fn any_vararg(params: &Vec<Param>) -> (r: bool)
    ensures
        r == exists|i: int| 0 <= i < params@.len() && #[trigger] params@[i].vararg,
{
    let mut i: usize = 0;
    while i < params.len()
        invariant
            0 <= i <= params@.len(),
            forall|j: int| 0 <= j < i ==> !(#[trigger] params@[j].vararg),
        decreases params@.len() - i,
    {
        if params[i].vararg {
            return true;
        }
        i = i + 1;
    }
    false
}

/// The compiler: the program being built and the names of the functions and
/// `strouct`s met so far (calls resolve against them).
pub struct Compiler {
    program: Program,
    known_functions: Vec<String>,
    known_structs: Vec<String>,
}

impl Compiler {
    /// The compiled chunks keep their jumps inside themselves.
    pub closed spec fn wf(&self) -> bool {
        &&& chunks_ok(self.program.functions@)
        &&& chunks_ok(self.program.methods@)
    }

    /// A compiler with nothing compiled yet.
    pub fn new() -> (r: Self)
        ensures
            r.wf(),
    {
        Compiler { program: Program::new(), known_functions: Vec::new(), known_structs: Vec::new() }
    }

    /// Compiles an expression: its instructions leave exactly one value on
    /// the stack and take none from below it.
    #[verifier::loop_isolation(false)]
    #[verifier::spinoff_prover]
    #[verifier::rlimit(100)]
    fn compile_expr(&mut self, code: &mut Vec<OpCode>, e: &Expr) -> (r: Result<(), OnfexError>)
        requires
            old(self).wf(),
        ensures
            final(self).wf(),
            r is Ok ==> extends(old(code)@, final(code)@) && pushes(old(code)@, final(code)@, 1),
            r is Err ==> r->Err_0 is Runtime,
            e is Int ==> r is Ok && final(code)@ == old(code)@.push(OpCode::PushInt(e->Int_0)),
            e is Float ==> r is Ok && final(code)@ == old(code)@.push(OpCode::PushFloat(e->Float_0)),
            e is Str ==> r is Ok && final(code)@ == old(code)@.push(OpCode::PushStr(e->Str_0)),
            e is Bool ==> r is Ok && final(code)@ == old(code)@.push(OpCode::PushBool(e->Bool_0)),
            e is Void ==> r is Ok && final(code)@ == old(code)@.push(OpCode::PushVoid),
            e is Variable ==> r is Ok && final(code)@ == old(code)@.push(OpCode::GetVar(e->Variable_0)),
            e is BinaryOp ==> (r is Ok ==> final(code)@.last() == OpCode::BinOp(e->BinaryOp_1)),
            e is Member ==> (r is Ok ==> final(code)@.last() == OpCode::GetField(e->Member_1)),
            expr_code(*e) matches Some(c) ==> r is Ok && final(code)@ == old(code)@ + c,
            final(self).known_functions@ == old(self).known_functions@,
            final(self).known_structs@ == old(self).known_structs@,
            code_with(old(self).known_functions@, old(self).known_structs@, *e) matches Some(c)
                ==> r is Ok && final(code)@ == old(code)@ + c,
            (e is List || e is Dict || e is LibList || e is LibDict || e is Deref || e is AddressOf || e is Spread
                || e is LibVariable || e is ModVariable || e is Macro) ==> r is Err,
            e is Call ==> (!(is_macro(*e->Call_0) || is_variable(*e->Call_0)) ==> r is Err),
        decreases e, 1nat,
    {
        let ghost c0 = code@;
        let ghost kf = self.known_functions@;
        let ghost ks = self.known_structs@;
        proof { lemma_pushes_zero(c0); lemma_code_with(kf, ks, *e); }
        match e {
            Expr::Int(x) => {
                emit(code, OpCode::PushInt(*x));
                proof { lemma_pushes_op(c0, c0, 0, OpCode::PushInt(*x)); }
            },
            Expr::Float(x) => {
                emit(code, OpCode::PushFloat(x.clone()));
                proof { lemma_pushes_op(c0, c0, 0, code@.last()); }
            },
            Expr::Str(x) => {
                emit(code, OpCode::PushStr(x.clone()));
                proof { lemma_pushes_op(c0, c0, 0, code@.last()); }
            },
            Expr::Bool(x) => {
                emit(code, OpCode::PushBool(*x));
                proof { lemma_pushes_op(c0, c0, 0, OpCode::PushBool(*x)); }
            },
            Expr::Void => {
                emit(code, OpCode::PushVoid);
                proof { lemma_pushes_op(c0, c0, 0, OpCode::PushVoid); }
            },
            Expr::Variable(name) => {
                emit(code, OpCode::GetVar(name.clone()));
                proof { lemma_pushes_op(c0, c0, 0, code@.last()); }
            },
            Expr::BinaryOp(l, op, r) => {
                self.compile_expr(code, l)?;
                let ghost c1 = code@;
                self.compile_expr(code, r)?;
                let ghost c2 = code@;
                proof { lemma_pushes_then(c0, c1, c2, 1, 1); }
                emit(code, OpCode::BinOp(op.clone()));
                proof {
                    lemma_pushes_op(c0, c2, 2, code@.last());
                    if code_with(kf, ks, *e) is Some {
                        assert(code@ =~= c0 + code_with(kf, ks, *e)->Some_0);
                    }
                }
            },
            Expr::Member(base, field) => {
                self.compile_expr(code, base)?;
                let ghost c1 = code@;
                emit(code, OpCode::GetField(field.clone()));
                proof {
                    lemma_pushes_op(c0, c1, 1, code@.last());
                    if code_with(kf, ks, *e) is Some {
                        assert(code@ =~= c0 + code_with(kf, ks, *e)->Some_0);
                    }
                }
            },
            Expr::MethodCall(recv, name, args) => {
                self.compile_expr(code, recv)?;
                let ghost cr = code@;
                proof { assert(args@.take(0) =~= Seq::<Expr>::empty()); }
                let mut i: usize = 0;
                while i < args.len()
                    invariant
                        self.wf(),
                        0 <= i <= args@.len(),
                        extends(c0, code@),
                        pushes(c0, code@, 1 + i as int),
                        decreases_to!(*e => *args),
                        self.known_functions@ == kf && self.known_structs@ == ks,
                        code_with(kf, ks, *e) is Some ==> args_code_with(kf, ks, args@) is Some
                            && code@ == cr + args_code_with(kf, ks, args@.take(i as int))->Some_0,
                    decreases args@.len() - i,
                {
                    let ghost c1 = code@;
                    proof { assert(decreases_to!(*args => args[i as int])); }
                    proof { if code_with(kf, ks, *e) is Some { lemma_args_code_with_prefix(kf, ks, args@, i as int); } }
                    self.compile_expr(code, &args[i])?;
                    proof { lemma_pushes_then(c0, c1, code@, 1 + i as int, 1); }
                    i = i + 1;
                }
                let ghost c1 = code@;
                emit(code, OpCode::CallMethod(name.clone(), args.len()));
                proof {
                    lemma_pushes_op(c0, c1, 1 + args@.len() as int, code@.last());
                    if code_with(kf, ks, *e) is Some {
                        assert(args@.take(args@.len() as int) =~= args@);
                        assert(code@ =~= c0 + code_with(kf, ks, *e)->Some_0);
                    }
                }
            },
            Expr::Call(..) => {
                self.compile_call(code, e)?;
            },
            _ => {
                return Err(OnfexError::runtime(owned(
                    "Bytecode Ern: bu ifade türü (vektöre/mappe literali, urso/mot değişkeni, referans/spread, vb.) şu anda bytecode derleyicisi tarafından desteklenmiyor.",
                )));
            },
        }
        Ok(())
    }

    /// Compiles a call: a built-in's, a known function's, or a `strouct`
    /// instance's.
    #[verifier::loop_isolation(false)]
    #[verifier::spinoff_prover]
    #[verifier::rlimit(100)]
    fn compile_call(&mut self, code: &mut Vec<OpCode>, e: &Expr) -> (r: Result<(), OnfexError>)
        requires
            old(self).wf(),
            e is Call,
        ensures
            final(self).wf(),
            r is Ok ==> extends(old(code)@, final(code)@) && pushes(old(code)@, final(code)@, 1),
            r is Err ==> r->Err_0 is Runtime,
            expr_code(*e) matches Some(c) ==> r is Ok && final(code)@ == old(code)@ + c,
            final(self).known_functions@ == old(self).known_functions@,
            final(self).known_structs@ == old(self).known_structs@,
            code_with(old(self).known_functions@, old(self).known_structs@, *e) matches Some(c)
                ==> r is Ok && final(code)@ == old(code)@ + c,
            e is Call ==> (!(is_macro(*e->Call_0) || is_variable(*e->Call_0)) ==> r is Err),
        decreases e, 0nat,
    {
        let ghost c0 = code@;
        let ghost kf = self.known_functions@;
        let ghost ks = self.known_structs@;
        proof { lemma_pushes_zero(c0); lemma_code_with(kf, ks, *e); }
        let (callee, args, ft) = match e {
            Expr::Call(c, a, f) => (c, a, f),
            _ => { return Err(OnfexError::runtime(owned("call expected"))); },
        };
        {
                match &**callee {
                    Expr::Macro(mname) => {
                        proof { assert(args@.take(0) =~= Seq::<Expr>::empty()); }
                        let mut i: usize = 0;
                        while i < args.len()
                            invariant
                                self.wf(),
                                0 <= i <= args@.len(),
                                extends(c0, code@),
                                pushes(c0, code@, i as int),
                                decreases_to!(*e => *args),
                                self.known_functions@ == kf && self.known_structs@ == ks,
                                code_with(kf, ks, *e) is Some ==> args_code_with(kf, ks, args@) is Some
                                    && code@ == c0 + args_code_with(kf, ks, args@.take(i as int))->Some_0,
                            decreases args@.len() - i,
                        {
                            let ghost c1 = code@;
                            proof { assert(decreases_to!(*args => args[i as int])); }
                            proof { if code_with(kf, ks, *e) is Some { lemma_args_code_with_prefix(kf, ks, args@, i as int); } }
                            self.compile_expr(code, &args[i])?;
                            proof { lemma_pushes_then(c0, c1, code@, i as int, 1); }
                            i = i + 1;
                        }
                        let ghost c1 = code@;
                        emit(code, OpCode::CallBuiltin(mname.clone(), args.len()));
                        proof {
                            lemma_pushes_op(c0, c1, args@.len() as int, code@.last());
                            if code_with(kf, ks, *e) is Some {
                                assert(args@.take(args@.len() as int) =~= args@);
                                assert(code@ =~= c0 + code_with(kf, ks, *e)->Some_0);
                            }
                        }
                    },
                    Expr::Variable(vname) => {
                        if contains_name(&self.known_structs, vname.as_str()) {
                            if args.len() != 0 {
                                let mut m = owned("WrossnosStrouct Ern: '");
                                push_str(&mut m, vname.as_str());
                                push_str(&mut m, "' strouct örneği alt sadece alan(field) esp gephnosan");
                                return Err(OnfexError::runtime(m));
                            }
                            let mut names: Vec<String> = Vec::new();
                            let mut i: usize = 0;
                            while i < ft.len()
                                invariant
                                    self.wf(),
                                    0 <= i <= ft@.len(),
                                    names@.len() == i,
                                    extends(c0, code@),
                                    pushes(c0, code@, i as int),
                                    decreases_to!(*e => *ft),
                                    self.known_functions@ == kf && self.known_structs@ == ks,
                                decreases ft@.len() - i,
                            {
                                let ghost c1 = code@;
                                proof { assert(decreases_to!(*ft => ft[i as int])); }
                                self.compile_expr(code, &ft[i].1)?;
                                proof { lemma_pushes_then(c0, c1, code@, i as int, 1); }
                                names.push(ft[i].0.clone());
                                i = i + 1;
                            }
                            let ghost c1 = code@;
                            emit(code, OpCode::NewStruct(vname.clone(), names));
                            proof { lemma_pushes_op(c0, c1, i as int, code@.last()); }
                        } else if contains_name(&self.known_functions, vname.as_str()) {
                            let mut i: usize = 0;
                            while i < args.len()
                                invariant
                                    self.wf(),
                                    0 <= i <= args@.len(),
                                    extends(c0, code@),
                                    pushes(c0, code@, i as int),
                                    decreases_to!(*e => *args),
                                    self.known_functions@ == kf && self.known_structs@ == ks,
                                    code_with(kf, ks, *e) is Some ==> args_code_with(kf, ks, args@) is Some
                                        && code@ == c0 + args_code_with(kf, ks, args@.take(i as int))->Some_0,
                                decreases args@.len() - i,
                            {
                                let ghost c1 = code@;
                                proof { assert(decreases_to!(*args => args[i as int])); }
                                proof { if code_with(kf, ks, *e) is Some { lemma_args_code_with_prefix(kf, ks, args@, i as int); } }
                                self.compile_expr(code, &args[i])?;
                                proof { lemma_pushes_then(c0, c1, code@, i as int, 1); }
                                i = i + 1;
                            }
                            let ghost c1 = code@;
                            emit(code, OpCode::CallFunction(vname.clone(), args.len()));
                            proof {
                                lemma_pushes_op(c0, c1, args@.len() as int, code@.last());
                                if code_with(kf, ks, *e) is Some {
                                    assert(args@.take(args@.len() as int) =~= args@);
                                    assert(code@ =~= c0 + code_with(kf, ks, *e)->Some_0);
                                }
                            }
                        } else {
                            return Err(OnfexError::runtime(owned(
                                "Bytecode Ern: bu çağrı türü (lrib/mot değişkeni, ya da henüz tanımlanmamış/dinamik bir fonksiyon) şu anda bytecode derleyicisi tarafından desteklenmiyor.",
                            )));
                        }
                    },
                    _ => {
                        return Err(OnfexError::runtime(owned(
                            "Bytecode Ern: bu çağrı türü (lrib/mot değişkeni, ya da henüz tanımlanmamış/dinamik bir fonksiyon) şu anda bytecode derleyicisi tarafından desteklenmiyor.",
                        )));
                    },
                }
        }
        Ok(())
    }

    /// Compiles a list of statements: each one's value is dropped before the
    /// next, so the last one's stays; an empty list gives `nophe`.
    fn compile_block(&mut self, code: &mut Vec<OpCode>, stmts: &Vec<StmtNode>) -> (r: Result<(), OnfexError>)
        requires
            old(self).wf(),
        ensures
            final(self).wf(),
            r is Ok ==> extends(old(code)@, final(code)@),
            r is Err ==> r->Err_0 is Runtime,
            stmts@.len() == 0 ==> r is Ok && final(code)@ == old(code)@.push(OpCode::PushVoid),
            (exists|i: int| 0 <= i < stmts@.len() && fails_at_once(#[trigger] stmts@[i].stmt)) ==> r is Err,
            block_code(stmts@) matches Some(c) ==> r is Ok && final(code)@ == old(code)@ + c,
        decreases stmts, 0nat,
    {
        let ghost c0 = code@;
        if stmts.len() == 0 {
            emit(code, OpCode::PushVoid);
            proof { lemma_extends_push(c0, OpCode::PushVoid); }
            return Ok(());
        }
        proof { lemma_pushes_zero(c0); }
        let mut i: usize = 0;
        while i < stmts.len()
            invariant
                self.wf(),
                0 <= i <= stmts@.len(),
                extends(c0, code@),
                forall|j: int| 0 <= j < i ==> !fails_at_once(#[trigger] stmts@[j].stmt),
                block_code(stmts@) is Some ==> (i == 0 ==> code@ == c0)
                    && (i > 0 ==> code@ == c0 + block_code(stmts@.take(i as int))->Some_0),
            decreases stmts@.len() - i,
        {
            proof { if block_code(stmts@) is Some { lemma_block_code_prefix(stmts@, i as int); } }
            if i > 0 {
                let ghost c1 = code@;
                emit(code, OpCode::Pop);
                proof {
                    lemma_extends_push(c1, OpCode::Pop);
                    lemma_extends_trans(c0, c1, code@);
                }
            }
            let ghost c1 = code@;
            proof { assert(decreases_to!(*stmts => stmts[i as int])); }
            self.compile_stmt(code, &stmts[i])?;
            proof {
                lemma_extends_trans(c0, c1, code@);
                if block_code(stmts@) is Some {
                    if i == 0 {
                        assert(code@ =~= c0 + block_code(stmts@.take(1))->Some_0);
                    } else {
                        assert(code@ =~= c0 + block_code(stmts@.take(i + 1))->Some_0);
                    }
                }
            }
            i = i + 1;
        }
        proof { assert(stmts@.take(stmts@.len() as int) =~= stmts@); }
        Ok(())
    }

    /// Compiles a function or method body into a chunk of its own.
    fn compile_function_body(&mut self, body: &Vec<StmtNode>) -> (r: Result<Chunk, OnfexError>)
        requires
            old(self).wf(),
        ensures
            final(self).wf(),
            r is Ok ==> jumps_in_range(r->Ok_0.code@),
            r is Err ==> r->Err_0 is Runtime,
            body@.len() == 0 ==> (r matches Ok(c) && c.code@ == seq![OpCode::PushVoid]),
            block_code(body@) matches Some(c) ==> (r matches Ok(ch) && ch.code@ == c),
            (exists|i: int| 0 <= i < body@.len() && fails_at_once(#[trigger] body@[i].stmt)) ==> r is Err,
        decreases body, 1nat,
    {
        let mut code: Vec<OpCode> = Vec::new();
        let ghost c0 = code@;
        self.compile_block(&mut code, body)?;
        proof {
            assert(jumps_in_range(c0));
            lemma_extends_jumps(c0, code@);
        }
        Ok(Chunk { code })
    }

    /// Compiles an `ifnt` (see `if_code`).
    #[verifier::loop_isolation(false)]
    #[verifier::spinoff_prover]
    #[verifier::rlimit(100)]
    fn compile_if(&mut self, code: &mut Vec<OpCode>, s: &StmtNode) -> (r: Result<(), OnfexError>)
        requires
            old(self).wf(),
            s.stmt is IfElse,
        ensures
            final(self).wf(),
            r is Ok ==> extends(old(code)@, final(code)@),
            r is Err ==> r->Err_0 is Runtime,
            s.stmt matches Stmt::IfElse(c, body, eb) ==> ((stmt_code(c.stmt) is Some && block_code(body@) is Some
                && else_code(eb) is Some) ==> r is Ok && final(code)@ == old(code)@ + if_code(old(code)@.len() as int,
                    stmt_code(c.stmt)->Some_0, block_code(body@)->Some_0, else_code(eb)->Some_0)),
        decreases s, 0nat,
    {
        let ghost c0 = code@;
        let (cond, body, else_body) = match &s.stmt {
            Stmt::IfElse(c, b, e) => (c, b, e),
            _ => { return Err(OnfexError::runtime(owned("ifnt expected"))); },
        };
        emit(code, OpCode::EnterScope);
        let ghost c1 = code@;
        proof { lemma_extends_push(c0, OpCode::EnterScope); }
        self.compile_stmt(code, cond)?;
        let ghost c2 = code@;
        let jf = emit(code, OpCode::JumpIfFalse(usize::MAX));
        let ghost c3 = code@;
        self.compile_block(code, body)?;
        let ghost c4 = code@;
        let jend = emit(code, OpCode::Jump(usize::MAX));
        let ghost c5 = code@;
        let else_start = code.len();
        proof {
            assert(c4.subrange(0, c3.len() as int)[jf as int] == c3[jf as int]);
            assert(c5[jf as int] == OpCode::JumpIfFalse(usize::MAX));
        }
        patch_jump(code, jf, else_start);
        let ghost c6 = code@;
        match else_body {
            Some(eb) => {
                self.compile_block(code, eb)?;
            },
            None => {
                emit(code, OpCode::PushVoid);
                proof { lemma_extends_push(c6, OpCode::PushVoid); }
            },
        }
        let ghost c7 = code@;
        let end = code.len();
        proof {
            assert(c7.subrange(0, c6.len() as int)[jend as int] == c6[jend as int]);
            assert(c6[jend as int] == c5[jend as int]);
            assert(c7[jend as int] == OpCode::Jump(usize::MAX));
        }
        patch_jump(code, jend, end);
        let ghost c8 = code@;
        emit(code, OpCode::ExitScope);
        proof {
            if stmt_code(cond.stmt) is Some && block_code(body@) is Some && else_code(*else_body) is Some {
                let cc = stmt_code(cond.stmt)->Some_0;
                let bc = block_code(body@)->Some_0;
                let ec = else_code(*else_body)->Some_0;
                assert(c2 =~= c0 + seq![OpCode::EnterScope] + cc);
                assert(c7 =~= c0 + seq![OpCode::EnterScope] + cc + seq![OpCode::JumpIfFalse(else_start)] + bc
                    + seq![OpCode::Jump(usize::MAX)] + ec);
                assert(code@ =~= c0 + if_code(c0.len() as int, cc, bc, ec));
            }
        }
        proof {
            lemma_extends_trans(c0, c1, c2);
            let c9 = code@;
            assert(c9.subrange(0, c0.len() as int) =~= c0) by {
                assert forall|i: int| 0 <= i < c0.len() implies c9.subrange(0, c0.len() as int)[i] == c0[i] by {
                    assert(c2.subrange(0, c0.len() as int)[i] == c0[i]);
                    assert(c4.subrange(0, c3.len() as int)[i] == c3[i]);
                    assert(c7.subrange(0, c6.len() as int)[i] == c6[i]);
                }
            }
            assert forall|i: int| c0.len() <= i < c9.len() implies match #[trigger] c9[i] {
                OpCode::Jump(t) => t <= c9.len(),
                OpCode::JumpIfFalse(t) => t <= c9.len(),
                _ => true,
            } by {
                if i < c2.len() {
                    assert(c4.subrange(0, c3.len() as int)[i] == c3[i]);
                    assert(c7.subrange(0, c6.len() as int)[i] == c6[i]);
                    assert(c9[i] == c2[i]);
                } else if i == c2.len() {
                    assert(c7.subrange(0, c6.len() as int)[i] == c6[i]);
                    assert(c9[i] == OpCode::JumpIfFalse(else_start));
                } else if i < c4.len() {
                    assert(c7.subrange(0, c6.len() as int)[i] == c6[i]);
                    assert(c9[i] == c4[i]);
                } else if i == c4.len() {
                    assert(c9[i] == OpCode::Jump(end));
                } else if i < c7.len() {
                    assert(c9[i] == c7[i]);
                } else {
                    assert(c9[i] == OpCode::ExitScope);
                }
            }
        }
        Ok(())
    }

    /// Compiles one statement.
    #[verifier::loop_isolation(false)]
    #[verifier::spinoff_prover]
    #[verifier::rlimit(100)]
    fn compile_stmt(&mut self, code: &mut Vec<OpCode>, s: &StmtNode) -> (r: Result<(), OnfexError>)
        requires
            old(self).wf(),
        ensures
            final(self).wf(),
            r is Ok ==> extends(old(code)@, final(code)@),
            r is Err ==> r->Err_0 is Runtime,
            s.stmt == Stmt::Return(None) ==> r is Ok && final(code)@ == old(code)@.push(OpCode::PushVoid).push(OpCode::Return),
            s.stmt is Return ==> (r is Ok ==> final(code)@.last() == OpCode::Return),
            s.stmt matches Stmt::Assign(name, _) ==> (r is Ok ==> final(code)@.last() == OpCode::DefineVar(name)),
            s.stmt matches Stmt::ReAssign(name, _) ==> (r is Ok ==> final(code)@.last() == OpCode::SetVar(name)),
            (s.stmt is ExprNode || s.stmt is Assign || s.stmt is ReAssign || s.stmt is MemberAssign
                || s.stmt is FuncCre || s.stmt is StrctCre)
                ==> (r is Ok ==> pushes(old(code)@, final(code)@, 1)),
            s.stmt matches Stmt::IfElse(c, body, eb) ==> ((stmt_code(c.stmt) is Some && block_code(body@) is Some
                && else_code(eb) is Some) ==> r is Ok && final(code)@ == old(code)@ + if_code(old(code)@.len() as int,
                    stmt_code(c.stmt)->Some_0, block_code(body@)->Some_0, else_code(eb)->Some_0)),
            stmt_code(s.stmt) matches Some(c) ==> r is Ok && final(code)@ == old(code)@ + c,
            s.stmt matches Stmt::MemberAssign(_, field, _) ==> (r is Ok ==> final(code)@.last() == OpCode::SetField(field)),
            fails_at_once(s.stmt) ==> r is Err,
        decreases s, 1nat,
    {
        let ghost c0 = code@;
        match &s.stmt {
            Stmt::ExprNode(e) => {
                self.compile_expr(code, &e.expr)?;
            },
            Stmt::Assign(name, e) => {
                self.compile_expr(code, &e.expr)?;
                let ghost c1 = code@;
                emit(code, OpCode::DefineVar(name.clone()));
                proof {
                    lemma_pushes_op(c0, c1, 1, code@.last());
                    if stmt_code(s.stmt) is Some {
                        assert(code@ =~= c0 + stmt_code(s.stmt)->Some_0);
                    }
                }
            },
            Stmt::ReAssign(name, e) => {
                self.compile_expr(code, &e.expr)?;
                let ghost c1 = code@;
                emit(code, OpCode::SetVar(name.clone()));
                proof {
                    lemma_pushes_op(c0, c1, 1, code@.last());
                    if stmt_code(s.stmt) is Some {
                        assert(code@ =~= c0 + stmt_code(s.stmt)->Some_0);
                    }
                }
            },
            Stmt::MemberAssign(base, field, val) => {
                self.compile_expr(code, &base.expr)?;
                let ghost c1 = code@;
                self.compile_expr(code, &val.expr)?;
                let ghost c2 = code@;
                emit(code, OpCode::SetField(field.clone()));
                proof {
                    lemma_pushes_then(c0, c1, c2, 1, 1);
                    lemma_pushes_op(c0, c2, 2, code@.last());
                    if stmt_code(s.stmt) is Some {
                        assert(code@ =~= c0 + stmt_code(s.stmt)->Some_0);
                    }
                }
            },
            Stmt::Return(opt) => {
                match opt {
                    Some(e) => {
                        self.compile_expr(code, &e.expr)?;
                    },
                    None => {
                        emit(code, OpCode::PushVoid);
                        proof { lemma_extends_push(c0, OpCode::PushVoid); }
                    },
                }
                let ghost c1 = code@;
                emit(code, OpCode::Return);
                proof {
                    lemma_extends_push(c1, OpCode::Return);
                    lemma_extends_trans(c0, c1, code@);
                    if stmt_code(s.stmt) is Some {
                        assert(code@ =~= c0 + stmt_code(s.stmt)->Some_0);
                    }
                }
            },
            Stmt::FuncCre(name, params, body, out) => {
                if any_vararg(params) {
                    let mut m = owned("Bytecode Ern: '");
                    push_str(&mut m, name.as_str());
                    push_str(&mut m, "' afon '...' (vararg) promterlnos esp desteklenmiyor");
                    return Err(OnfexError::runtime(m));
                }
                insert_name(&mut self.known_functions, name.clone());
                let chunk = self.compile_function_body(body)?;
                let ghost before = self.program.functions@;
                let ghost ch = chunk;
                let key = name.clone();
                let ghost k = key;
                put(&mut self.program.functions, key, chunk);
                proof { lemma_put_chunk(before, self.program.functions@, k, ch); }
                put(&mut self.program.function_meta, name.clone(), FunctionMeta { params: clone_params(params), out: *out });
                emit(code, OpCode::DefineFunction(name.clone()));
                proof {
                    lemma_extends_push(c0, code@.last());
                    lemma_pushes_zero(c0);
                    lemma_pushes_op(c0, c0, 0, code@.last());
                }
            },
            Stmt::StrctCre(name, fields, funcs) => {
                insert_name(&mut self.known_structs, name.clone());
                let mut methods: Vec<(String, FunctionMeta)> = Vec::new();
                let mut i: usize = 0;
                while i < funcs.len()
                    invariant
                        self.wf(),
                        0 <= i <= funcs@.len(),
                        decreases_to!(*s => *funcs),
                        forall|j: int| 0 <= j < i ==> !vararg_func(#[trigger] funcs@[j].1),
                    decreases funcs@.len() - i,
                {
                    proof { assert(decreases_to!(*funcs => funcs[i as int])); }
                    match &funcs[i].1 {
                        Stmt::FuncCre(n, p, b, o) => {
                            if any_vararg(p) {
                                let mut m = owned("Bytecode Ern: '");
                                push_str(&mut m, name.as_str());
                                push_str(&mut m, "::");
                                push_str(&mut m, n.as_str());
                                push_str(&mut m, "' metodnos '...' (vararg) esp desteklenmiyor");
                                return Err(OnfexError::runtime(m));
                            }
                            let chunk = self.compile_function_body(b)?;
                            let mut key = name.clone();
                            push_str(&mut key, "::");
                            push_str(&mut key, n.as_str());
                            let ghost before = self.program.methods@;
                            let ghost ch = chunk;
                            let ghost k = key;
                            put(&mut self.program.methods, key, chunk);
                            proof { lemma_put_chunk(before, self.program.methods@, k, ch); }
                            put(&mut methods, funcs[i].0.clone(), FunctionMeta { params: clone_params(p), out: *o });
                        },
                        _ => {},
                    }
                    i = i + 1;
                }
                let st = StructType { name: name.clone(), fields: clone_fields(fields), methods };
                put(&mut self.program.struct_types, name.clone(), st);
                emit(code, OpCode::DefineStruct(name.clone()));
                proof {
                    lemma_extends_push(c0, code@.last());
                    lemma_pushes_zero(c0);
                    lemma_pushes_op(c0, c0, 0, code@.last());
                }
            },
            Stmt::IfElse(..) => {
                self.compile_if(code, s)?;
            },
            Stmt::Mehen(body) => {
                emit(code, OpCode::EnterScope);
                let ghost c1 = code@;
                proof { lemma_extends_push(c0, OpCode::EnterScope); }
                self.compile_block(code, body)?;
                let ghost c2 = code@;
                emit(code, OpCode::ExitScope);
                proof {
                    lemma_extends_trans(c0, c1, c2);
                    lemma_extends_push(c2, OpCode::ExitScope);
                    lemma_extends_trans(c0, c2, code@);
                }
            },
            _ => {
                return Err(OnfexError::runtime(owned(
                    "Bytecode Ern: 'urso' / 'mot' / 'wrossnosLrib' / 'wrossnosMot' şu anda bytecode derleyicisi tarafından desteklenmiyor; bu dosya için yorum ağacı (interpreter) motorunu kullanın.",
                )));
            },
        }
        Ok(())
    }

    /// Compiles a whole program: the statements become the main chunk.
    pub fn compile(self, stmts: &Vec<StmtNode>) -> (r: Result<Program, OnfexError>)
        requires
            self.wf(),
        ensures
            r is Ok ==> program_jumps_ok(r->Ok_0),
            r is Err ==> r->Err_0 is Runtime,
            stmts@.len() == 0 ==> (r matches Ok(p) && p.main.code@ == seq![OpCode::PushVoid]),
            (exists|i: int| 0 <= i < stmts@.len() && fails_at_once(#[trigger] stmts@[i].stmt)) ==> r is Err,
            block_code(stmts@) matches Some(c) ==> (r matches Ok(p) && p.main.code@ == c),
    {
        let mut this = self;
        let mut code: Vec<OpCode> = Vec::new();
        let ghost c0 = code@;
        this.compile_block(&mut code, stmts)?;
        proof {
            assert(jumps_in_range(c0));
            lemma_extends_jumps(c0, code@);
        }
        let mut program = this.program;
        program.main = Chunk { code };
        Ok(program)
    }
}

} // verus!
