use onfex::ast::{copy_stmts, TypeKind};
use onfex::interpreter::{map_out, run_source, vector_out, IType, IValue, Outcome, World};
use onfex::lexer::Lexer;
use onfex::parser::Parser;

#[test]
fn copied_program_is_alike() {
    let src = "strouct P { prube x: intg, prive y: intg } impelnos { frounct get(s: srel) -> intg { erutnos s.x; } } valt a = 1 + 2;";
    let mut p = Parser::new(Lexer::new(src.to_string())).unwrap();
    let prog = p.parse().unwrap();
    let copy = copy_stmts(&prog);
    assert_eq!(format!("{:?}", copy), format!("{:?}", prog));
}

#[test]
fn list_of_scalars_is_shown_joined() {
    let w = World::new(Vec::new());
    let items = vec![
        IType::new(TypeKind::Int, IValue::Int(1)),
        IType::new(TypeKind::Str, IValue::Str("a".to_string())),
        IType::new(TypeKind::Bool, IValue::Bool(true)),
    ];
    assert_eq!(vector_out(&w, &items, 4), Some("<Vektöre [ 1 | \"a\" | trunth1 ]>".to_string()));
    assert_eq!(vector_out(&w, &Vec::new(), 4), Some("<Vektöre [  ]>".to_string()));
}

#[test]
fn map_of_scalars_is_shown_joined() {
    let w = World::new(Vec::new());
    let items = vec![
        (IType::new(TypeKind::Int, IValue::Int(1)), IType::new(TypeKind::Int, IValue::Int(2))),
        (IType::new(TypeKind::Str, IValue::Str("k".to_string())), IType::new(TypeKind::Void, IValue::Void)),
    ];
    assert_eq!(map_out(&w, &items, 4), Some("<Map {1 : 2, \"k\" : noph}>".to_string()));
}

#[test]
fn unknown_library_stops_the_run() {
    let (outcome, used) = run_source("urso nowhere;".to_string(), ".".to_string(), false, false, Vec::new(), 50);
    match outcome {
        Outcome::Done(Err(e)) => assert_eq!(e.message(), "library 'nowhere' not found"),
        _ => panic!("expected an error"),
    }
    assert_eq!(used, 0);
}
