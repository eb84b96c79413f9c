use onfex::ast::{Expr, Stmt, TypeKind};
use onfex::bytecode::{Chunk, OpCode, Program};
use onfex::compiler::Compiler;
use onfex::document::OnfexPloneDoph;
use onfex::error::OnfexError;
use onfex::interpreter::{run_source, Answer, Outcome, Request};
use onfex::lexer::Lexer;
use onfex::parser::Parser;
use onfex::token::TokenKind;
use onfex::token_text::kind_text;
use onfex::vm::{Event, Reply, Step, VM};

fn parse(src: &str) -> Vec<onfex::ast::StmtNode> {
    let mut p = Parser::new(Lexer::new(src.to_string())).unwrap();
    p.parse().unwrap()
}

/// Runs a hand-made main chunk on the stack machine: what it prints and how
/// it ends.
fn run_code(code: Vec<OpCode>) -> (String, String) {
    let mut program = Program::new();
    program.main = Chunk { code };
    let mut vm = VM::new(program);
    let mut out = String::new();
    let mut step = vm.step();
    loop {
        match step {
            Step::Continue => step = vm.step(),
            Step::Event(Event::Print { text, newline }) => {
                out.push_str(&text);
                if newline {
                    out.push('\n');
                }
                step = vm.reply(Reply::Printed);
            },
            Step::Event(Event::Finished(Ok(()))) => return (out, "ok".to_string()),
            Step::Event(Event::Finished(Err(e))) => return (out, format!("error: {}", e.message())),
            Step::Event(Event::Panic(m)) => return (out, format!("panic: {}", m)),
            Step::Event(_) => panic!("unexpected event"),
        }
    }
}

#[test]
fn kind_text_shows_variant_and_payload() {
    assert_eq!(kind_text(&TokenKind::Identifier("x".to_string())), "Identifier(\"x\")");
    assert_eq!(kind_text(&TokenKind::Number(-5)), "Number(-5)");
    assert_eq!(kind_text(&TokenKind::Float("1.50".to_string())), "Float(1.5)");
    assert_eq!(kind_text(&TokenKind::Float("007.".to_string())), "Float(7.0)");
    assert_eq!(kind_text(&TokenKind::String("a\"b\\c\nd".to_string())), "String(\"a\\\"b\\\\c\\nd\")");
    assert_eq!(kind_text(&TokenKind::String("\u{1b}".to_string())), "String(\"\\u{1b}\")");
    assert_eq!(kind_text(&TokenKind::Bool(true)), "Bool(true)");
    assert_eq!(kind_text(&TokenKind::TyKd(TypeKind::Int)), "TyKd(Int)");
    assert_eq!(kind_text(&TokenKind::Semi), "Semi");
    assert_eq!(kind_text(&TokenKind::EOF), "EOF");
}

#[test]
fn kind_text_agrees_with_debug_where_both_apply() {
    let kinds = vec![
        TokenKind::Identifier("name_1".to_string()),
        TokenKind::Number(42),
        TokenKind::Float("0.25".to_string()),
        TokenKind::String("tab\there".to_string()),
        TokenKind::Bool(false),
        TokenKind::TyKd(TypeKind::Str),
        TokenKind::LParen,
        TokenKind::ifnt,
    ];
    for k in &kinds {
        let shown = kind_text(k);
        let debug = match k {
            TokenKind::Float(t) => format!("Float({:?})", t.parse::<f64>().unwrap()),
            _ => format!("{:?}", k),
        };
        assert_eq!(shown, debug);
    }
}

#[test]
fn parser_message_shows_a_float_by_its_value() {
    let mut p = Parser::new(Lexer::new("valt 1.50 = 3;".to_string())).unwrap();
    let e = p.parse().unwrap_err();
    assert_eq!(e.message(), "variable name esp wraithnosan, Float(1.5) gephnosan");
}

#[test]
fn parser_reads_a_lone_module_statement() {
    let prog = parse("mot onfexFile;");
    assert_eq!(prog.len(), 1);
    match &prog[0].stmt {
        Stmt::Mod(n) => assert_eq!(n, "onfexFile.onfex"),
        _ => panic!("not a module statement"),
    }
}

#[test]
fn parser_keeps_ifnt_blocks_in_order() {
    let prog = parse("ifnt (trunth;) { 1; } elsnt { 2; 3; }");
    match &prog[0].stmt {
        Stmt::IfElse(_, body, Some(other)) => {
            assert_eq!(body.len(), 1);
            assert_eq!(other.len(), 2);
        },
        _ => panic!("not an ifnt"),
    }
}

#[test]
fn compiler_lays_out_ifnt() {
    let prog = parse("ifnt (trunth;) { 1; } elsnt { 2; }");
    let p = Compiler::new().compile(&prog).unwrap();
    let c = &p.main.code;
    assert_eq!(c.len(), 7);
    assert!(matches!(c[0], OpCode::EnterScope));
    assert!(matches!(c[1], OpCode::PushBool(true)));
    assert!(matches!(c[2], OpCode::JumpIfFalse(5)));
    assert!(matches!(c[3], OpCode::PushInt(1)));
    assert!(matches!(c[4], OpCode::Jump(6)));
    assert!(matches!(c[5], OpCode::PushInt(2)));
    assert!(matches!(c[6], OpCode::ExitScope));
}

#[test]
fn compiler_refuses_an_unsupported_expression() {
    let prog = parse("1; [1, 2];");
    let e = Compiler::new().compile(&prog).unwrap_err();
    assert!(matches!(e, OnfexError::Runtime { .. }));
    assert!(e.message().starts_with("Bytecode Ern: bu ifade türü"));
}

#[test]
fn compiler_refuses_a_vararg_method() {
    let prog = parse("strouct P { prube x: intg } impelnos { frounct f(!xs: intg) -> intg { erutnos 1; } }");
    let e = Compiler::new().compile(&prog).unwrap_err();
    assert_eq!(e.message(), "Bytecode Ern: 'P::f' metodnos '...' (vararg) esp desteklenmiyor");
}

#[test]
fn vm_subtracts_left_minus_right() {
    let (out, end) = run_code(vec![
        OpCode::PushStr("{}".to_string()),
        OpCode::PushInt(7),
        OpCode::PushInt(2),
        OpCode::BinOp("-".to_string()),
        OpCode::CallBuiltin("pyrintnos".to_string(), 2),
    ]);
    assert_eq!(out, "5");
    assert_eq!(end, "ok");
}

#[test]
fn vm_jump_if_false_takes_the_absolute_target() {
    let code = |b: bool| vec![
        OpCode::PushStr("{}".to_string()),
        OpCode::PushBool(b),
        OpCode::JumpIfFalse(5),
        OpCode::PushInt(1),
        OpCode::Jump(6),
        OpCode::PushInt(2),
        OpCode::CallBuiltin("pyrintnos".to_string(), 2),
    ];
    assert_eq!(run_code(code(false)).0, "2");
    assert_eq!(run_code(code(true)).0, "1");
}

#[test]
fn vm_binds_method_arguments_in_order() {
    let doc = OnfexPloneDoph::with_code(
        "p".to_string(),
        "t.onfex".to_string(),
        false,
        "strouct P { prube x: intg } impelnos { frounct d(s: srel, a: intg, b: intg) -> intg { erutnos a / b; } } \
         valt c = P(){ x: 1 }; pyrintnos!(\"{}\", c.d(9, 4));"
            .to_string(),
    );
    let program = doc.compile_program().unwrap();
    let mut vm = VM::new(program);
    let mut out = String::new();
    let mut step = vm.step();
    loop {
        match step {
            Step::Continue => step = vm.step(),
            Step::Event(Event::Print { text, .. }) => {
                out.push_str(&text);
                step = vm.reply(Reply::Printed);
            },
            Step::Event(Event::Finished(r)) => {
                assert!(r.is_ok());
                break;
            },
            _ => panic!("unexpected event"),
        }
    }
    assert_eq!(out, "2");
}

#[test]
fn run_source_reports_an_unknown_name() {
    let (o, _) = run_source("x;".to_string(), String::new(), false, false, Vec::new(), 64);
    match o {
        Outcome::Done(Err(e)) => assert_eq!(e.message(), "variable 'x' not found"),
        _ => panic!("expected an error"),
    }
}

#[test]
fn freerun_refuses_modules() {
    let (o, _) = OnfexPloneDoph::freerun("mot other;".to_string(), Vec::new(), 64);
    match o {
        Outcome::Done(Err(e)) => assert_eq!(e.message(), "Mot Ern: Mot Freat keonaertenosfer"),
        _ => panic!("expected an error"),
    }
}

#[test]
fn parse_program_gives_single_token_statements() {
    let doc = OnfexPloneDoph::with_code("p".to_string(), "t.onfex".to_string(), false, "7; ab; \"t\";".to_string());
    let v = doc.parse_program().unwrap();
    assert_eq!(v.len(), 3);
    match &v[1].stmt {
        Stmt::ExprNode(e) => assert!(matches!(&*e.expr, Expr::Variable(n) if n == "ab")),
        _ => panic!(),
    }
    let p = doc.compile_program().unwrap();
    assert_eq!(p.main.code.len(), 5);
    assert!(matches!(p.main.code[0], OpCode::PushInt(7)));
    assert!(matches!(p.main.code[1], OpCode::Pop));
    assert!(matches!(&p.main.code[2], OpCode::GetVar(n) if n == "ab"));
    assert!(matches!(&p.main.code[4], OpCode::PushStr(t) if t == "t"));
}

#[test]
fn whitespace_is_the_unicode_property() {
    for c in ['\t', '\n', ' ', '\u{85}', '\u{a0}', '\u{2003}', '\u{3000}', 'a', '_', '\u{200b}'] {
        assert_eq!(onfex::text::is_whitespace(c), c.is_whitespace());
    }
}

#[test]
fn a_run_of_prints_asks_for_the_next_one() {
    let code = "pyrintnos!(\"a\"); pyrintnosFowLt!(\"b {}\", 3); pyrintnos!(\"c\");";
    let (o, used) = run_source(code.to_string(), String::new(), false, false, vec![Answer::Printed], 64);
    assert_eq!(used, 1);
    match o {
        Outcome::Ask(Request::Print { text, newline }) => {
            assert_eq!(text, "b 3");
            assert!(newline);
        },
        _ => panic!("expected the second print"),
    }
    let (o, used) = run_source(code.to_string(), String::new(), false, false,
        vec![Answer::Printed, Answer::Printed, Answer::Printed], 64);
    assert_eq!(used, 3);
    assert!(matches!(o, Outcome::Done(Ok(()))));
}

#[test]
fn a_field_of_a_literal_is_an_error() {
    let (o, _) = run_source("\"s\".x;".to_string(), String::new(), false, false, Vec::new(), 64);
    match o {
        Outcome::Done(Err(e)) => assert_eq!(e.message(), "Typect Ern: 'x' alt strouct oft nophe"),
        _ => panic!("expected an error"),
    }
}

#[test]
fn freerun_of_prints_asks_for_each_in_turn() {
    let code = "pyrintnos!(\"hi\"); pyrintnosFowLt!(\"x {}\");";
    let (o, used) = OnfexPloneDoph::freerun(code.to_string(), vec![Answer::Printed], 64);
    assert_eq!(used, 1);
    match o {
        Outcome::Ask(Request::Print { text, newline }) => {
            assert_eq!(text, "x {}");
            assert!(newline);
        },
        _ => panic!("expected the second print"),
    }
}

#[test]
fn both_engines_print_a_print_program_alike() {
    let code = "pyrintnos!(\"a\"); pyrintnosFowLt!(\"b\"); pyrintnos!(\"c\");";
    let doc = OnfexPloneDoph::with_code("p".to_string(), "t.onfex".to_string(), false, code.to_string());
    let p = doc.compile_program().unwrap();
    assert_eq!(p.main.code.len(), 8);
    assert!(matches!(&p.main.code[0], OpCode::PushStr(t) if t == "a"));
    assert!(matches!(&p.main.code[1], OpCode::CallBuiltin(m, 1) if m == "pyrintnos"));
    assert!(matches!(p.main.code[2], OpCode::Pop));
    assert!(matches!(&p.main.code[4], OpCode::CallBuiltin(m, 1) if m == "pyrintnosFowLt"));
    // The stack machine's prints.
    let mut vm = VM::new(p);
    let mut machine: Vec<(String, bool)> = Vec::new();
    let mut step = vm.step();
    loop {
        match step {
            Step::Continue => step = vm.step(),
            Step::Event(Event::Print { text, newline }) => {
                machine.push((text, newline));
                step = vm.reply(Reply::Printed);
            },
            Step::Event(Event::Finished(r)) => {
                assert!(r.is_ok());
                break;
            },
            _ => panic!("unexpected event"),
        }
    }
    // The tree-walking engine's requests, replayed answer by answer.
    let mut walker: Vec<(String, bool)> = Vec::new();
    let mut given: usize = 0;
    loop {
        let answers: Vec<Answer> = (0..given).map(|_| Answer::Printed).collect();
        let (o, _) = run_source(code.to_string(), String::new(), false, false, answers, 64);
        match o {
            Outcome::Ask(Request::Print { text, newline }) => {
                walker.push((text, newline));
                given += 1;
            },
            Outcome::Done(Ok(())) => break,
            _ => panic!("unexpected outcome"),
        }
    }
    assert_eq!(machine, walker);
    assert_eq!(walker, vec![("a".to_string(), false), ("b".to_string(), true), ("c".to_string(), false)]);
}

#[test]
fn a_top_level_return_stops_the_run() {
    let code = "pyrintnos!(\"a\"); erutnos; pyrintnos!(\"b\");";
    let (o, used) = run_source(code.to_string(), String::new(), false, false,
        vec![Answer::Printed, Answer::Printed], 64);
    assert!(matches!(o, Outcome::Done(Ok(()))));
    assert_eq!(used, 1);
}
