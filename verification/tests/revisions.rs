use onfex::ast::{Expr, Stmt, TypeKind};
use onfex::bytecode::{Chunk, OpCode, Program};
use onfex::compiler::Compiler;
use onfex::error::OnfexError;
use onfex::lexer::Lexer;
use onfex::parser::Parser;
use onfex::token::TokenKind;
use onfex::v2::decimal::OnfexDecimal;
use onfex::values::{is_truthy, Type, Value};
use onfex::vm::{Event, Reply, Step, VM};

fn printed(code: Vec<OpCode>) -> (String, bool) {
    let mut program = Program::new();
    program.main = Chunk { code };
    let mut vm = VM::new(program);
    let mut out = String::new();
    let mut step = vm.step();
    loop {
        match step {
            Step::Continue => step = vm.step(),
            Step::Event(Event::Print { text, .. }) => {
                out.push_str(&text);
                step = vm.reply(Reply::Printed);
            },
            Step::Event(Event::Finished(r)) => return (out, r.is_ok()),
            _ => panic!("unexpected event"),
        }
    }
}

#[test]
fn nophe_is_not_truthy() {
    assert!(!is_truthy(&Type::new(TypeKind::Void, Value::Void)));
    assert!(is_truthy(&Type::new(TypeKind::Int, Value::Int(0))));
    assert!(!is_truthy(&Type::new(TypeKind::Bool, Value::Bool(false))));
    assert!(is_truthy(&Type::new(TypeKind::Bool, Value::Bool(true))));
}

#[test]
fn comments_between_hashes_are_skipped() {
    let mut lx = Lexer::new("f(); # note #".to_string());
    let mut kinds = Vec::new();
    loop {
        let t = lx.next_token().expect("token");
        let end = matches!(t.kind, TokenKind::EOF);
        kinds.push(t.kind);
        if end {
            break;
        }
    }
    assert_eq!(kinds.len(), 5);
    assert!(matches!(&kinds[0], TokenKind::Identifier(x) if x == "f"));
    assert!(matches!(kinds[1], TokenKind::LParen));
    assert!(matches!(kinds[2], TokenKind::RParen));
    assert!(matches!(kinds[3], TokenKind::Semi));
    assert!(matches!(kinds[4], TokenKind::EOF));
}

#[test]
fn expression_statement_tree() {
    let v = Parser::new(Lexer::new("x;".to_string())).unwrap().parse().unwrap();
    assert_eq!(v.len(), 1);
    match &v[0].stmt {
        Stmt::ExprNode(e) => assert!(matches!(&*e.expr, Expr::Variable(n) if n == "x")),
        _ => panic!("expected an expression statement"),
    }
}

#[test]
fn missing_semicolon_position() {
    let r = Parser::new(Lexer::new("x".to_string())).unwrap().parse();
    match r {
        Err(OnfexError::Parser { line, col, .. }) => {
            assert_eq!(line, 1);
            assert_eq!(col, 2);
        },
        _ => panic!("expected a parser error"),
    }
}

#[test]
fn bare_module_name() {
    let v = Parser::new(Lexer::new("mot onfexFile;".to_string())).unwrap().parse().unwrap();
    assert!(matches!(&v[0].stmt, Stmt::Mod(n) if n == "onfexFile.onfex"));
}

#[test]
fn assignment_leaves_one_value() {
    let v = Parser::new(Lexer::new("valt a = 1;".to_string())).unwrap().parse().unwrap();
    let p = Compiler::new().compile(&v).unwrap();
    assert_eq!(p.main.code.len(), 2);
    assert!(matches!(p.main.code[0], OpCode::PushInt(1)));
    assert!(matches!(&p.main.code[1], OpCode::DefineVar(n) if n == "a"));
}

#[test]
fn operands_compile_left_first() {
    let v = Parser::new(Lexer::new("7 - 2;".to_string())).unwrap().parse().unwrap();
    let p = Compiler::new().compile(&v).unwrap();
    assert!(matches!(p.main.code[0], OpCode::PushInt(7)));
    assert!(matches!(p.main.code[1], OpCode::PushInt(2)));
    assert!(matches!(&p.main.code[2], OpCode::BinOp(o) if o == "-"));
}

#[test]
fn stack_machine_subtracts_left_from_right() {
    let (out, ok) = printed(vec![
        OpCode::PushStr("{}".to_string()),
        OpCode::PushInt(7),
        OpCode::PushInt(2),
        OpCode::BinOp("-".to_string()),
        OpCode::CallBuiltin("pyrintnos".to_string(), 2),
    ]);
    assert_eq!(out, "5");
    assert!(ok);
}

#[test]
fn conditional_jump_and_return() {
    for (b, expect) in [(false, "2"), (true, "1")] {
        let (out, ok) = printed(vec![
            OpCode::PushBool(b),
            OpCode::JumpIfFalse(6),
            OpCode::PushStr("{}".to_string()),
            OpCode::PushInt(1),
            OpCode::CallBuiltin("pyrintnos".to_string(), 2),
            OpCode::Return,
            OpCode::PushStr("{}".to_string()),
            OpCode::PushInt(2),
            OpCode::CallBuiltin("pyrintnos".to_string(), 2),
        ]);
        assert_eq!(out, expect);
        assert!(ok);
    }
}

#[test]
fn equal_decimals_are_identical() {
    let a = OnfexDecimal::new(15, 1, 64).unwrap();
    let b = OnfexDecimal::new(150, 2, 64).unwrap();
    assert_eq!(a.cmp(&b), std::cmp::Ordering::Equal);
    assert_eq!(a.value, b.value);
    assert_eq!(a.scale, b.scale);
}

#[test]
fn literal_program_runs_without_answers() {
    let (outcome, used) = onfex::interpreter::run_source(
        "1; \"a\"; trunth; noph; # done #".to_string(), ".".to_string(), false, false, Vec::new(), 50);
    assert!(matches!(outcome, onfex::interpreter::Outcome::Done(Ok(()))));
    assert_eq!(used, 0);
}

#[test]
fn later_return_ends_the_run() {
    let (outcome, used) = onfex::interpreter::run_source(
        "1; erutnos; pyrintnos!(\"never\");".to_string(), ".".to_string(), false, false, Vec::new(), 50);
    assert!(matches!(outcome, onfex::interpreter::Outcome::Done(Ok(()))));
    assert_eq!(used, 0);
}
