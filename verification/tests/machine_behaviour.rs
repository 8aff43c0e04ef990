use std::collections::HashMap;

use parsevm::{emit, emit_body, Expr, Function, Instruction, Program, Types, Values};

#[test]
fn emit_ignores_unsupported_expressions() {
    assert_eq!(emit(&Expr::Int(3)), vec![]);
    assert_eq!(emit(&Expr::Symbol("x".to_string())), vec![]);
    let add = Expr::Add(Box::new(Expr::Int(1)), Box::new(Expr::Int(2)));
    assert_eq!(emit(&add), vec![]);
}

#[test]
fn emit_add_of_unbound_names_emits_nothing() {
    let add = Expr::Add(
        Box::new(Expr::Symbol("x".to_string())),
        Box::new(Expr::Symbol("y".to_string())),
    );
    assert_eq!(emit(&add), vec![]);
}

#[test]
fn emit_latest_binding_wins() {
    let exprs = vec![
        Expr::Ident("x".to_string(), Box::new(Expr::Int(1))),
        Expr::Ident("x".to_string(), Box::new(Expr::Int(2))),
        Expr::Add(
            Box::new(Expr::Symbol("x".to_string())),
            Box::new(Expr::Symbol("x".to_string())),
        ),
    ];
    assert_eq!(
        emit_body(&exprs),
        vec![
            Instruction::StoreLocal(0, Values::Int(1)),
            Instruction::StoreLocal(1, Values::Int(2)),
            Instruction::Add(1, 1),
        ]
    );
}

#[test]
fn emit_body_extends_code_of_prefix() {
    let first = vec![Expr::Ident("a".to_string(), Box::new(Expr::Int(5)))];
    let both = vec![
        Expr::Ident("a".to_string(), Box::new(Expr::Int(5))),
        Expr::Ident("b".to_string(), Box::new(Expr::Int(6))),
    ];
    let short = emit_body(&first);
    let long = emit_body(&both);
    assert_eq!(long[..short.len()], short[..]);
    assert_eq!(long.len(), 2);
}

#[test]
fn eval_emitted_code_returns_nothing() {
    let exprs = vec![
        Expr::Ident("x".to_string(), Box::new(Expr::Int(1))),
        Expr::Ident("y".to_string(), Box::new(Expr::Int(2))),
        Expr::Add(
            Box::new(Expr::Symbol("x".to_string())),
            Box::new(Expr::Symbol("y".to_string())),
        ),
    ];
    let function = Function::new(vec![Types::Int], emit_body(&exprs));
    let program = Program::new(HashMap::new());
    assert_eq!(program.eval(&function, &[]), None);
}

#[test]
fn eval_ignores_other_instructions() {
    let function = Function::new(
        vec![],
        vec![
            Instruction::Nop,
            Instruction::StoreLocal(99, Values::String("s".to_string())),
            Instruction::Ret,
        ],
    );
    let mut functions = HashMap::new();
    let f2 = Function::new(vec![], vec![]);
    functions.insert("main", f2);
    let program = Program::new(functions);
    assert_eq!(program.eval(&function, &[Values::Null]), None);
}

#[test]
fn function_new_keeps_fields() {
    let f = Function::new(vec![Types::Bool, Types::String], vec![Instruction::Nop]);
    assert_eq!(f.parameters, vec![Types::Bool, Types::String]);
    assert_eq!(f.instructions, vec![Instruction::Nop]);
}

#[test]
fn value_copy_and_default() {
    let v = Values::String("abc".to_string());
    assert_eq!(v.copy(), v);
    assert_eq!(Values::default(), Values::Null);
    assert_eq!(Values::Register(4).copy(), Values::Register(4));
}
