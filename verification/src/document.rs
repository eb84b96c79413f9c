//! An Onfex source document: where it comes from and what it holds.
use vstd::prelude::*;
use crate::ast::{Expr, Stmt, StmtNode, TypeKind};
use crate::values::{Type, Value};
use crate::vm::{print_text, shown_plain};
use crate::bytecode::{OpCode, Program};
use crate::compiler::{args_code, block_code, expr_code, program_jumps_ok, stmt_code, Compiler};
use crate::error::OnfexError;
use crate::interpreter::{all_printed, print_tokens_at, blank, literal_statements, not_found, print_asked, print_program, run_source, starts_with_module, starts_with_name, Answer, Outcome, Request};
use crate::lexer::{lex_at, ws_end, Lexer};
use crate::token::Tok;
use crate::parser::{expr_of_token, lex_nth, single_token, source_ok, syntax_error, Parser};
use crate::text::{owned, str_eq};

verus! {

broadcast use vstd::string::group_string_axioms;

/// A source document: the language version it is read as, its folder and
/// file name, whether it is being imported by another document, and its text.
#[allow(non_snake_case)]
pub struct OnfexPloneDoph {
    pub version: String,
    pub path: String,
    pub name: String,
    pub isImport: bool,
    pub code: String,
}

/// Whether the tokens of `s` are `n` statements of one literal or name each
/// (`e;`), and then the end.
pub open spec fn token_statements(s: Seq<char>, n: nat) -> bool {
    &&& forall|j: nat| j < n ==> (#[trigger] lex_nth(s, 0, 2 * j) matches Some(t) && single_token(t))
        && lex_nth(s, 0, 2 * j + 1) == Some(Tok::Semi)
    &&& lex_nth(s, 0, 2 * n) == Some(Tok::EOF)
    &&& forall|i: nat| i <= 2 * n + 1 ==> #[trigger] lex_nth(s, 0, i) is Some
}

/// Whether the tokens of `s` are `mot`, a name or a text, `;` and the end.
pub open spec fn lone_module(s: Seq<char>) -> bool {
    &&& lex_nth(s, 0, 0) == Some(Tok::Mod)
    &&& (lex_nth(s, 0, 1) matches Some(t) && (t is Text || t is Identifier))
    &&& lex_nth(s, 0, 2) == Some(Tok::Semi)
    &&& lex_nth(s, 0, 3) == Some(Tok::EOF)
    &&& forall|i: nat| i <= 4 ==> #[trigger] lex_nth(s, 0, i) is Some
}

/// The document a `mot` statement with the token `t` loads: a text as it
/// is, a bare name with `.onfex`.
pub open spec fn module_named(t: Tok) -> Seq<char> {
    match t {
        Tok::Identifier(x) => x + ".onfex"@,
        Tok::Text(x) => x,
        _ => seq![],
    }
}

/// The instruction that loads the value of the single-token expression `t`.
pub open spec fn loads_token(op: OpCode, t: Tok) -> bool {
    match t {
        Tok::Number(x) => op == OpCode::PushInt(x),
        Tok::Float(x) => op matches OpCode::PushFloat(y) && y@ == x,
        Tok::Text(x) => op matches OpCode::PushStr(y) && y@ == x,
        Tok::Bool(b) => op == OpCode::PushBool(b),
        Tok::Void => op == OpCode::PushVoid,
        Tok::Identifier(x) => op matches OpCode::GetVar(y) && y@ == x,
        _ => false,
    }
}

/// Whether `code` is the code of the statements `e;` whose tokens are
/// `lex_nth(s, 0, 0)`, `lex_nth(s, 0, 2)`, ...: each one's load, with a
/// `Pop` between two of them.
pub open spec fn token_code(code: Seq<OpCode>, s: Seq<char>, n: nat) -> bool {
    &&& code.len() == 2 * n - 1
    &&& forall|k: int| 0 <= k < n ==> loads_token(#[trigger] code[2 * k], lex_nth(s, 0, (2 * k) as nat)->Some_0)
    &&& forall|k: int| 0 <= k < n - 1 ==> #[trigger] code[2 * k + 1] == OpCode::Pop
}

/// Whether `code` is the code of a program of `n` print statements whose
/// tokens are those of `s`: for each, its text pushed and the print macro
/// called on one argument, with a `Pop` between two of them.
pub open spec fn print_code(code: Seq<OpCode>, s: Seq<char>, n: nat) -> bool {
    &&& code.len() == 3 * n - 1
    &&& forall|k: int| 0 <= k < n ==> (#[trigger] code[3 * k] matches OpCode::PushStr(x)
        && x@ == lex_nth(s, 0, (6 * k + 3) as nat)->Some_0->Text_0)
    &&& forall|k: int| 0 <= k < n ==> (#[trigger] code[3 * k + 1] matches OpCode::CallBuiltin(m, c)
        && m@ == lex_nth(s, 0, (6 * k) as nat)->Some_0->Identifier_0 && c == 1)
    &&& forall|k: int| 0 <= k < n - 1 ==> #[trigger] code[3 * k + 2] == OpCode::Pop
}

/// Whether statement `k` of `v` is the print call of the `k`-th statement
/// of the print program `s`.
pub open spec fn print_stmt_of(v: Seq<StmtNode>, s: Seq<char>, k: int) -> bool {
    v[k].stmt matches Stmt::ExprNode(e) && (*e.expr matches Expr::Call(c, args, ft)
        && (*c matches Expr::Macro(m) && m@ == lex_nth(s, 0, (6 * k) as nat)->Some_0->Identifier_0)
        && args@.len() == 1 && (args@[0] matches Expr::Str(x) && x@ == lex_nth(s, 0, (6 * k + 3) as nat)->Some_0->Text_0)
        && ft@.len() == 0)
}

/// The block of `n` such print statements has `print_code`.
proof fn lemma_print_block(v: Seq<StmtNode>, s: Seq<char>, n: nat)
    requires
        n > 0,
        v.len() == n,
        forall|k: int| 0 <= k < n ==> #[trigger] print_stmt_of(v, s, k),
    ensures
        block_code(v) matches Some(c) && print_code(c, s, n),
    decreases n,
{
    assert(print_stmt_of(v, s, n - 1));
    let e = *v[n - 1].stmt->ExprNode_0.expr;
    let args = e->Call_1@;
    let m = e->Call_0->Macro_0;
    assert(args.drop_last() =~= Seq::<Expr>::empty());
    assert(args.last() == args[0]);
    assert(args_code(args.drop_last()) == Some(Seq::<OpCode>::empty()));
    assert(expr_code(args.last()) == Some(seq![OpCode::PushStr(args[0]->Str_0)]));
    assert(args_code(args) == Some(Seq::<OpCode>::empty() + seq![OpCode::PushStr(args[0]->Str_0)]));
    assert(Seq::<OpCode>::empty() + seq![OpCode::PushStr(args[0]->Str_0)] =~= seq![OpCode::PushStr(args[0]->Str_0)]);
    let b = stmt_code(v[n - 1].stmt)->Some_0;
    assert(b =~= seq![OpCode::PushStr(args[0]->Str_0), OpCode::CallBuiltin(m, 1)]);
    if n > 1 {
        assert forall|k: int| 0 <= k < n - 1 implies #[trigger] print_stmt_of(v.drop_last(), s, k) by {
            assert(print_stmt_of(v, s, k));
        }
        lemma_print_block(v.drop_last(), s, (n - 1) as nat);
        let a = block_code(v.drop_last())->Some_0;
        let c = a + seq![OpCode::Pop] + b;
        assert(block_code(v) == Some(c));
        assert forall|k: int| 0 <= k < n implies (#[trigger] c[3 * k] matches OpCode::PushStr(x)
            && x@ == lex_nth(s, 0, (6 * k + 3) as nat)->Some_0->Text_0) by {
            if k < n - 1 { assert(c[3 * k] == a[3 * k]); }
        }
        assert forall|k: int| 0 <= k < n implies (#[trigger] c[3 * k + 1] matches OpCode::CallBuiltin(m, cc)
            && m@ == lex_nth(s, 0, (6 * k) as nat)->Some_0->Identifier_0 && cc == 1) by {
            if k < n - 1 { assert(c[3 * k + 1] == a[3 * k + 1]); }
        }
        assert forall|k: int| 0 <= k < n - 1 implies #[trigger] c[3 * k + 2] == OpCode::Pop by {
            if k < n - 2 { assert(c[3 * k + 2] == a[3 * k + 2]); }
        }
    }
}

/// The two engines print alike on a print program: the stack machine's code
/// for its `k`-th statement calls the same print macro on one argument, and
/// the text the machine hands out for that call, the argument being the
/// text the code pushed (`print_text`), is the one the tree-walking engine
/// asks for at that statement (`print_asked`), with a line feed in both or in
/// neither.
pub proof fn law_engines_print_alike(s: Seq<char>, n: nat, code: Seq<OpCode>, k: int, arg: Type)
    requires
        print_program(s, n),
        print_code(code, s, n),
        0 <= k < n,
        code[3 * k] matches OpCode::PushStr(x) && arg == (Type { kind: TypeKind::Str, value: Value::Str(x) }),
    ensures
        code[3 * k + 1] matches OpCode::CallBuiltin(m, c) && c == 1
            && (m@ == "pyrintnos"@ || m@ == "pyrintnosFowLt"@)
            && print_text(arg.value->Str_0@, seq![arg]) == print_asked(s, k as nat).0
            && (m@ == "pyrintnosFowLt"@) == print_asked(s, k as nat).1,
{
    assert(print_tokens_at(s, (6 * k) as nat));
    assert(code[3 * k] matches OpCode::PushStr(_));
    assert(code[3 * k + 1] matches OpCode::CallBuiltin(_, _));
    assert(Seq::new((seq![arg].len() - 1) as nat, |i: int| shown_plain(seq![arg][i + 1].value)->Some_0)
        =~= Seq::<Seq<char>>::empty());
}

/// A single-token expression statement has the load of its token as code.
proof fn lemma_token_stmt_code(sn: StmtNode, t: Tok)
    requires
        sn.stmt matches Stmt::ExprNode(e) && expr_of_token(*e.expr, t),
    ensures
        stmt_code(sn.stmt) matches Some(c) && c.len() == 1 && loads_token(c[0], t),
{
}

/// The block of `n` single-token expression statements has `token_code`.
proof fn lemma_token_block(v: Seq<StmtNode>, s: Seq<char>, n: nat)
    requires
        n > 0,
        v.len() == n,
        forall|k: int| 0 <= k < n ==> ((#[trigger] v[k]).stmt matches Stmt::ExprNode(e)
            && expr_of_token(*e.expr, lex_nth(s, 0, (2 * k) as nat)->Some_0)),
    ensures
        block_code(v) matches Some(c) && token_code(c, s, n),
    decreases n,
{
    lemma_token_stmt_code(v[n - 1], lex_nth(s, 0, (2 * (n - 1)) as nat)->Some_0);
    if n > 1 {
        lemma_token_block(v.drop_last(), s, (n - 1) as nat);
        let a = block_code(v.drop_last())->Some_0;
        let b = stmt_code(v[n - 1].stmt)->Some_0;
        let c = a + seq![OpCode::Pop] + b;
        assert(block_code(v) == Some(c));
        assert forall|k: int| 0 <= k < n implies loads_token(#[trigger] c[2 * k], lex_nth(s, 0, (2 * k) as nat)->Some_0) by {
            if k < n - 1 {
                assert(c[2 * k] == a[2 * k]);
            }
        }
        assert forall|k: int| 0 <= k < n - 1 implies #[trigger] c[2 * k + 1] == OpCode::Pop by {
            if k < n - 2 {
                assert(c[2 * k + 1] == a[2 * k + 1]);
            }
        }
    }
}

impl OnfexPloneDoph {
    /// The language version documents are read as.
    pub open spec fn current_version() -> Seq<char> {
        "0.7.1"@
    }

    /// A document with the given text (read by the caller from `path/name`).
    #[allow(non_snake_case)]
    pub fn with_code(path: String, name: String, isImport: bool, code: String) -> (r: Self)
        ensures
            r.version@ == Self::current_version(),
            r.path == path,
            r.name == name,
            r.isImport == isImport,
            r.code == code,
    {
        OnfexPloneDoph { version: owned("0.7.1"), path, name, isImport, code }
    }

    /// Whether the document is read as language version `v`.
    #[allow(non_snake_case)]
    pub fn verifyVersion(&self, v: String) -> (r: bool)
        ensures
            r == (self.version@ == v@),
    {
        str_eq(self.version.as_str(), v.as_str())
    }

    /// The syntax tree of the document's text.
    pub fn parse_program(&self) -> (r: Result<Vec<StmtNode>, OnfexError>)
        requires
            self.code@.len() < usize::MAX,
            source_ok(self.code@),
        ensures
            r is Err ==> syntax_error(r->Err_0),
            blank(self.code@) ==> (r matches Ok(v) && v@.len() == 0),
            lex_at(self.code@, ws_end(self.code@, 0)).0 is Err ==> (r matches Err(e) && e is Lexer),
            forall|n: nat| #[trigger] token_statements(self.code@, n) ==> (r matches Ok(v) && v@.len() == n
                && forall|k: int| 0 <= k < n ==> ((#[trigger] v@[k]).stmt matches Stmt::ExprNode(e)
                    && expr_of_token(*e.expr, lex_nth(self.code@, 0, (2 * k) as nat)->Some_0))),
            lone_module(self.code@) ==> (r matches Ok(v) && v@.len() == 1
                && (v@[0].stmt matches Stmt::Mod(m) && m@ == module_named(lex_nth(self.code@, 0, 1)->Some_0))),
            starts_with_module(self.code@) ==> (r matches Ok(v) ==> v@.len() > 0 && v@[0].stmt is Mod),
            forall|n: nat| #[trigger] print_program(self.code@, n) ==> (r matches Ok(v) && v@.len() == n
                && forall|k: int| 0 <= k < n ==> #[trigger] print_stmt_of(v@, self.code@, k)),
    {
        let ghost src = self.code@;
        let lexer = Lexer::new(self.code.clone());
        let mut parser = Parser::new(lexer)?;
        let ghost p0 = parser;
        proof {
            if blank(self.code@) {
                assert(lex_at(self.code@, ws_end(self.code@, 0)).0 == Ok::<Tok, Seq<char>>(Tok::EOF));
            }
            p0.lemma_first_two();
            assert forall|n: nat| #[trigger] token_statements(src, n) implies p0.expr_stmts(n) by {
                assert forall|j: nat| j < n implies (#[trigger] p0.tok_ahead(2 * j) matches Some(t) && single_token(t))
                    && p0.tok_ahead(2 * j + 1) == Some(Tok::Semi) by {
                    assert(lex_nth(src, 0, 2 * j) matches Some(t) && single_token(t));
                }
                assert(p0.tok_ahead(2 * n) == Some(Tok::EOF));
                assert forall|i: nat| i <= 2 * n + 1 implies #[trigger] p0.tok_ahead(i) is Some by {
                    assert(lex_nth(src, 0, i) is Some);
                }
            }
            if lone_module(src) {
                assert(p0.tok_ahead(0) == lex_nth(src, 0, 0));
                assert(p0.tok_ahead(1) == lex_nth(src, 0, 1));
                assert(p0.tok_ahead(2) == lex_nth(src, 0, 2));
                assert(p0.tok_ahead(3) == lex_nth(src, 0, 3));
                assert forall|i: nat| i <= 4 implies #[trigger] p0.tok_ahead(i) is Some by {
                    assert(lex_nth(src, 0, i) is Some);
                }
                assert(p0.lone_module());
            }
            if starts_with_module(src) {
                assert(p0.tok_ahead(0) == lex_nth(src, 0, 0));
            }
            assert forall|n: nat| #[trigger] print_program(src, n) implies p0.macro_stmts(n) by {
                assert forall|j: nat| j < n implies #[trigger] p0.macro_tokens_at(6 * j) by {
                    assert(print_tokens_at(src, 6 * j));
                }
                assert forall|i: nat| i <= 6 * n + 1 implies #[trigger] p0.tok_ahead(i) is Some by {
                    assert(lex_nth(src, 0, i) is Some);
                }
            }
        }
        let r = parser.parse();
        proof {
            assert forall|n: nat| #[trigger] print_program(src, n) implies (r matches Ok(v) && v@.len() == n
                && forall|k: int| 0 <= k < n ==> #[trigger] print_stmt_of(v@, src, k)) by {
                assert(p0.macro_stmts(n));
                let v = r->Ok_0;
                assert forall|k: int| 0 <= k < n implies #[trigger] print_stmt_of(v@, src, k) by {
                    assert(p0.tok_ahead((6 * k) as nat) == lex_nth(src, 0, (6 * k) as nat));
                    assert(p0.tok_ahead((6 * k + 3) as nat) == lex_nth(src, 0, (6 * k + 3) as nat));
                }
            }
        }
        r
    }

    /// The document compiled for the stack machine: parsed, then compiled.
    pub fn compile_program(&self) -> (r: Result<Program, OnfexError>)
        requires
            self.code@.len() < usize::MAX,
            source_ok(self.code@),
        ensures
            r is Ok ==> program_jumps_ok(r->Ok_0),
            blank(self.code@) ==> (r matches Ok(p) && p.main.code@ == seq![OpCode::PushVoid]),
            lex_at(self.code@, ws_end(self.code@, 0)).0 is Err ==> (r matches Err(e) && e is Lexer),
            forall|n: nat| (n > 0 && #[trigger] token_statements(self.code@, n))
                ==> (r matches Ok(p) && token_code(p.main.code@, self.code@, n)),
            forall|n: nat| (n > 0 && #[trigger] print_program(self.code@, n))
                ==> (r matches Ok(p) && print_code(p.main.code@, self.code@, n)),
    {
        let stmts = self.parse_program()?;
        proof {
            assert forall|n: nat| (n > 0 && #[trigger] print_program(self.code@, n))
                implies (block_code(stmts@) matches Some(c) && print_code(c, self.code@, n)) by {
                lemma_print_block(stmts@, self.code@, n);
            }
            assert forall|n: nat| (n > 0 && #[trigger] token_statements(self.code@, n))
                implies (block_code(stmts@) matches Some(c) && token_code(c, self.code@, n)) by {
                lemma_token_block(stmts@, self.code@, n);
            }
        }
        let compiler = Compiler::new();
        compiler.compile(&stmts)
    }

    /// Runs the document on the tree-walking engine, in its folder and as an
    /// import if it is one, replaying `answers` (see `run_source`).
    pub fn run(&self, answers: Vec<Answer>, depth: usize) -> (r: (Outcome, usize))
        ensures
            r.1 <= answers@.len(),
            r.0 is Ask ==> r.1 == answers@.len(),
            (self.code@.len() < usize::MAX && source_ok(self.code@) && blank(self.code@))
                ==> (r.0 matches Outcome::Done(Ok(_)) && r.1 == 0),
            forall|n: nat| (self.code@.len() < usize::MAX && source_ok(self.code@) && #[trigger] literal_statements(self.code@, n))
                ==> (r.0 matches Outcome::Done(Ok(_)) && r.1 == 0),
            forall|x: Seq<char>| (self.code@.len() < usize::MAX && source_ok(self.code@) && #[trigger] starts_with_name(self.code@, x))
                ==> (r.0 matches Outcome::Done(Err(e))
                    && (e matches OnfexError::Runtime { message } ==> message@ == not_found(x))),
            forall|n: nat| (self.code@.len() < usize::MAX && source_ok(self.code@) && #[trigger] print_program(self.code@, n)
                && all_printed(answers@) && answers@.len() >= n) ==> (r.0 matches Outcome::Done(Ok(_)) && r.1 == n),
            forall|n: nat| (self.code@.len() < usize::MAX && source_ok(self.code@) && #[trigger] print_program(self.code@, n)
                && all_printed(answers@) && answers@.len() < n) ==> (r.0 matches Outcome::Ask(Request::Print { text, newline })
                    && (text@, newline) == print_asked(self.code@, answers@.len() as nat) && r.1 == answers@.len()),
    {
        run_source(self.code.clone(), self.path.clone(), self.isImport, false, answers, depth)
    }

    /// Runs a program on its own, where `mot` is refused (see `run_source`).
    pub fn freerun(code: String, answers: Vec<Answer>, depth: usize) -> (r: (Outcome, usize))
        ensures
            r.1 <= answers@.len(),
            r.0 is Ask ==> r.1 == answers@.len(),
            (code@.len() < usize::MAX && source_ok(code@) && blank(code@)) ==> (r.0 matches Outcome::Done(Ok(_)) && r.1 == 0),
            forall|n: nat| (code@.len() < usize::MAX && source_ok(code@) && #[trigger] literal_statements(code@, n))
                ==> (r.0 matches Outcome::Done(Ok(_)) && r.1 == 0),
            (code@.len() < usize::MAX && source_ok(code@) && starts_with_module(code@))
                ==> r.0 matches Outcome::Done(Err(_)),
            forall|x: Seq<char>| (code@.len() < usize::MAX && source_ok(code@) && #[trigger] starts_with_name(code@, x))
                ==> (r.0 matches Outcome::Done(Err(e))
                    && (e matches OnfexError::Runtime { message } ==> message@ == not_found(x))),
            forall|n: nat| (code@.len() < usize::MAX && source_ok(code@) && #[trigger] print_program(code@, n)
                && all_printed(answers@) && answers@.len() >= n) ==> (r.0 matches Outcome::Done(Ok(_)) && r.1 == n),
            forall|n: nat| (code@.len() < usize::MAX && source_ok(code@) && #[trigger] print_program(code@, n)
                && all_printed(answers@) && answers@.len() < n) ==> (r.0 matches Outcome::Ask(Request::Print { text, newline })
                    && (text@, newline) == print_asked(code@, answers@.len() as nat) && r.1 == answers@.len()),
    {
        run_source(code, String::new(), false, true, answers, depth)
    }
}

/// The status a run ends with: 0 when it ended without an error, 1 otherwise.
pub fn exit_status(o: &Outcome) -> (r: i8)
    ensures
        r == (if o matches Outcome::Done(Ok(_)) { 0i8 } else { 1i8 }),
{
    match o {
        Outcome::Done(Ok(())) => 0,
        _ => 1,
    }
}

} // verus!
