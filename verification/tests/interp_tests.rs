use slick_script::ast::{AstNodeType, DeclareType};
use slick_script::frame::ValType;
use slick_script::interp::{run, test_entry, EvalError};

fn ident(n: &str) -> AstNodeType {
    AstNodeType::Identifier { ident: n.to_string() }
}

fn lit(v: i32) -> AstNodeType {
    AstNodeType::IntLiteral(v)
}

fn multi(child: Vec<AstNodeType>) -> AstNodeType {
    AstNodeType::MulitiExp { child }
}

fn add(child: Vec<AstNodeType>) -> AstNodeType {
    AstNodeType::AdditiveExp { child }
}

/// An expression statement's shape for a single atom: an additive node over
/// one multiplicative node over the atom.
fn expr(atom: AstNodeType) -> AstNodeType {
    add(vec![multi(vec![atom])])
}

fn stmt(node: AstNodeType) -> AstNodeType {
    AstNodeType::Statement { child: Box::new(vec![node]) }
}

fn decl_int(name: &str, init: AstNodeType) -> AstNodeType {
    AstNodeType::Declaration {
        declare_type: DeclareType::Int,
        identifier: name.to_string(),
        additive: Some(Box::new(init)),
    }
}

fn decl_fn_typed(name: &str, init: AstNodeType) -> AstNodeType {
    AstNodeType::Declaration {
        declare_type: DeclareType::FnType {
            return_type: Some(Box::new(DeclareType::Int)),
            argu_list: Box::new(Vec::new()),
        },
        identifier: name.to_string(),
        additive: Some(Box::new(init)),
    }
}

fn assign(name: &str, rhs: AstNodeType) -> AstNodeType {
    AstNodeType::AssignmentStatement { ident: name.to_string(), additive: Box::new(rhs) }
}

fn judge(l: AstNodeType, r: AstNodeType, op: &str) -> AstNodeType {
    AstNodeType::JudgeExp { left: Box::new(l), right: Box::new(r), judge: op.to_string() }
}

fn if_else(cond: AstNodeType, then_b: AstNodeType, else_b: Option<AstNodeType>) -> AstNodeType {
    AstNodeType::IfStatement {
        judge_stat: Box::new(cond),
        if_stat: Box::new(then_b),
        else_stat: else_b.map(Box::new),
    }
}

fn block(stmts: Vec<AstNodeType>) -> AstNodeType {
    AstNodeType::Block { statements: Some(stmts) }
}

fn fn_decl(name: &str, params: Vec<AstNodeType>, body: Vec<AstNodeType>) -> AstNodeType {
    AstNodeType::FnDeclaration {
        return_type: Some(Box::new(DeclareType::Int)),
        identifier: name.to_string(),
        argu_list: params,
        block: Box::new(block(body)),
    }
}

fn param_int(name: &str) -> AstNodeType {
    AstNodeType::Declaration {
        declare_type: DeclareType::Int,
        identifier: name.to_string(),
        additive: None,
    }
}

fn call(callee: &str, args: Vec<AstNodeType>) -> AstNodeType {
    AstNodeType::FnCall { identifier: Box::new(ident(callee)), argu_list: args }
}

fn ret(e: AstNodeType) -> AstNodeType {
    AstNodeType::ReturnExp { exp: Some(Box::new(e)) }
}

// int a = 3;
// a = 4;
// a;
#[test]
fn test_base() {
    let program = vec![
        stmt(decl_int("a", expr(lit(3)))),
        stmt(assign("a", expr(lit(4)))),
        stmt(expr(ident("a"))),
    ];
    let res = test_entry(&program).unwrap();
    match res {
        ValType::Number(n) => assert_eq!(n, 4),
        _ => {}
    }
}

// 3>4;
#[test]
fn test_judge() {
    let program = vec![stmt(judge(expr(lit(3)), expr(lit(4)), ">"))];
    let res = test_entry(&program).unwrap();
    match res {
        ValType::Boolean(n) => assert_eq!(n, false),
        _ => {}
    }
}

// int a = 0;
// if (3<2) { a = 4; } else { a = 1; }
// a;
#[test]
fn test_if() {
    let program = vec![
        stmt(decl_int("a", expr(lit(0)))),
        stmt(if_else(
            judge(expr(lit(3)), expr(lit(2)), "<"),
            block(vec![stmt(assign("a", expr(lit(4))))]),
            Some(block(vec![stmt(assign("a", expr(lit(1))))])),
        )),
        stmt(expr(ident("a"))),
    ];
    let res = test_entry(&program).unwrap();
    match res {
        ValType::Number(n) => assert_eq!(n, 1),
        _ => {}
    }
}

// int b = 0;
// if (3<2) { int b = 4; } else { int b = 1; }
// b;
#[test]
fn test_block() {
    let program = vec![
        stmt(decl_int("b", expr(lit(0)))),
        stmt(if_else(
            judge(expr(lit(3)), expr(lit(2)), "<"),
            block(vec![stmt(decl_int("b", expr(lit(4))))]),
            Some(block(vec![stmt(decl_int("b", expr(lit(1))))])),
        )),
        stmt(expr(ident("b"))),
    ];
    let res = test_entry(&program).unwrap();
    match res {
        ValType::Number(n) => assert_eq!(n, 0),
        _ => {}
    }
}

// int a () { int b = 4; return b; }
// a;
#[test]
fn test_fn_declare() {
    let program = vec![
        stmt(fn_decl(
            "a",
            vec![],
            vec![stmt(decl_int("b", expr(lit(4)))), stmt(ret(expr(ident("b"))))],
        )),
        stmt(expr(ident("a"))),
    ];
    let res = test_entry(&program).unwrap();
    match res {
        ValType::String(n) => assert_eq!(n, String::from("closure a")),
        _ => {}
    }
}

// int a () { int b = 4; return b; }
// fn int () b  = a;
// b;
#[test]
fn test_fn_assign() {
    let program = vec![
        stmt(fn_decl(
            "a",
            vec![],
            vec![stmt(decl_int("b", expr(lit(4)))), stmt(ret(expr(ident("b"))))],
        )),
        stmt(decl_fn_typed("b", expr(ident("a")))),
        stmt(expr(ident("b"))),
    ];
    let res = test_entry(&program).unwrap();
    match res {
        ValType::String(n) => assert_eq!(n, String::from("closure a")),
        _ => {}
    }
}

// int a (int c) { int b = c; return b; }
// a(1*2);
#[test]
fn test_fn_call() {
    let program = vec![
        stmt(fn_decl(
            "a",
            vec![param_int("c")],
            vec![stmt(decl_int("b", expr(ident("c")))), stmt(ret(expr(ident("b"))))],
        )),
        stmt(expr(call("a", vec![add(vec![multi(vec![lit(1), lit(2)])])]))),
    ];
    let res = test_entry(&program).unwrap();
    match res {
        ValType::Number(n) => assert_eq!(n, 2),
        _ => {}
    }
}

// int a () { int b = 3; return b; }
// a();
#[test]
fn test_fn_call_no_args() {
    let program = vec![
        stmt(fn_decl(
            "a",
            vec![],
            vec![stmt(decl_int("b", expr(lit(3)))), stmt(ret(expr(ident("b"))))],
        )),
        stmt(expr(call("a", vec![]))),
    ];
    let res = test_entry(&program).unwrap();
    match res {
        ValType::Number(n) => assert_eq!(n, 3),
        _ => {}
    }
}

fn closure_counter_program() -> Vec<AstNodeType> {
    // int a () {
    //   int c = 6;
    //   int b () { c = c + 1; return c; }
    //   return b;
    // }
    // fn int () c = a();
    // c();
    vec![
        stmt(fn_decl(
            "a",
            vec![],
            vec![
                stmt(decl_int("c", expr(lit(6)))),
                stmt(fn_decl(
                    "b",
                    vec![],
                    vec![
                        stmt(assign(
                            "c",
                            add(vec![multi(vec![ident("c")]), multi(vec![lit(1)])]),
                        )),
                        stmt(ret(expr(ident("c")))),
                    ],
                )),
                stmt(ret(expr(ident("b")))),
            ],
        )),
        stmt(decl_fn_typed("c", expr(call("a", vec![])))),
        stmt(expr(call("c", vec![]))),
    ]
}

#[test]
fn test_closure_call() {
    let program = closure_counter_program();
    let res = test_entry(&program).unwrap();
    match res {
        ValType::Number(n) => assert_eq!(n, 7),
        _ => {}
    }
}

#[test]
fn closure_mutation_persists_across_calls() {
    let mut program = closure_counter_program();
    program.push(stmt(expr(call("c", vec![]))));
    match test_entry(&program).unwrap() {
        ValType::Number(n) => assert_eq!(n, 8),
        other => panic!("expected the second call to see the first call's mutation, got {:?}", other),
    }
}

#[test]
fn shadowing_keeps_outer_binding() {
    // int x = 0; { int x = 4; } x;
    let program = vec![
        stmt(decl_int("x", expr(lit(0)))),
        stmt(block(vec![stmt(decl_int("x", expr(lit(4))))])),
        stmt(expr(ident("x"))),
    ];
    match test_entry(&program).unwrap() {
        ValType::Number(n) => assert_eq!(n, 0),
        other => panic!("expected the outer binding unchanged, got {:?}", other),
    }
}

#[test]
fn assignment_resolves_outward() {
    // int x = 0; { x = 4; } x;
    let program = vec![
        stmt(decl_int("x", expr(lit(0)))),
        stmt(block(vec![stmt(assign("x", expr(lit(4))))])),
        stmt(expr(ident("x"))),
    ];
    match test_entry(&program).unwrap() {
        ValType::Number(n) => assert_eq!(n, 4),
        other => panic!("expected the outer binding mutated, got {:?}", other),
    }
}

#[test]
fn undeclared_assignment_fails() {
    let program = vec![stmt(assign("x", expr(lit(1))))];
    assert_eq!(test_entry(&program).unwrap_err(), EvalError::UndeclaredVariable);
}

#[test]
fn undeclared_identifier_fails() {
    let program = vec![stmt(expr(ident("y")))];
    assert_eq!(test_entry(&program).unwrap_err(), EvalError::UndeclaredVariable);
}

#[test]
fn comparing_closures_yields_false() {
    let body = vec![stmt(ret(expr(lit(1))))];
    for op in [">", "<", ">=", "<=", "=="] {
        let program = vec![
            stmt(fn_decl("a", vec![], body.clone())),
            stmt(fn_decl("b", vec![], body.clone())),
            stmt(judge(expr(ident("a")), expr(ident("b")), op)),
        ];
        match test_entry(&program).unwrap() {
            ValType::Boolean(b) => assert_eq!(b, false, "operator {}", op),
            other => panic!("expected a boolean, got {:?}", other),
        }
    }
}

#[test]
fn comparing_mismatched_kinds_yields_false() {
    let program = vec![
        stmt(fn_decl("a", vec![], vec![stmt(ret(expr(lit(1))))])),
        stmt(judge(expr(ident("a")), expr(lit(3)), "==")),
    ];
    match test_entry(&program).unwrap() {
        ValType::Boolean(b) => assert_eq!(b, false),
        other => panic!("expected a boolean, got {:?}", other),
    }
}

#[test]
fn unsupported_operator_fails() {
    let program = vec![stmt(judge(expr(lit(1)), expr(lit(2)), "!="))];
    assert_eq!(test_entry(&program).unwrap_err(), EvalError::UnsupportedOperator);
}

#[test]
fn multiplicative_fold_from_one() {
    // 1*2*3;
    let program = vec![stmt(add(vec![multi(vec![lit(1), lit(2), lit(3)])]))];
    match test_entry(&program).unwrap() {
        ValType::Number(n) => assert_eq!(n, 6),
        other => panic!("expected 6, got {:?}", other),
    }
}

#[test]
fn additive_fold_from_zero() {
    // 3+2;
    let program = vec![stmt(add(vec![multi(vec![lit(3)]), multi(vec![lit(2)])]))];
    match test_entry(&program).unwrap() {
        ValType::Number(n) => assert_eq!(n, 5),
        other => panic!("expected 5, got {:?}", other),
    }
}

#[test]
fn single_literal_passes_unchanged() {
    let program = vec![stmt(expr(lit(-41)))];
    match test_entry(&program).unwrap() {
        ValType::Number(n) => assert_eq!(n, -41),
        other => panic!("expected -41, got {:?}", other),
    }
}

#[test]
fn addition_wraps() {
    let program = vec![stmt(add(vec![multi(vec![lit(i32::MAX)]), multi(vec![lit(1)])]))];
    match test_entry(&program).unwrap() {
        ValType::Number(n) => assert_eq!(n, i32::MIN),
        other => panic!("expected wrap-around, got {:?}", other),
    }
}

#[test]
fn non_number_in_fold_fails() {
    let program = vec![stmt(add(vec![lit(3), judge(expr(lit(3)), expr(lit(4)), ">")]))];
    assert_eq!(test_entry(&program).unwrap_err(), EvalError::TypeMismatch);
}

#[test]
fn non_boolean_condition_fails() {
    let program = vec![stmt(if_else(expr(lit(1)), block(vec![]), None))];
    assert_eq!(test_entry(&program).unwrap_err(), EvalError::TypeMismatch);
}

#[test]
fn calling_a_number_fails() {
    let program = vec![
        stmt(decl_int("a", expr(lit(3)))),
        stmt(expr(call("a", vec![]))),
    ];
    assert_eq!(test_entry(&program).unwrap_err(), EvalError::NotCallable);
}

#[test]
fn empty_statement_is_unhandled() {
    let program = vec![AstNodeType::Statement { child: Box::new(vec![]) }];
    assert_eq!(test_entry(&program).unwrap_err(), EvalError::UnhandledNode);
}

#[test]
fn declaration_without_initializer_is_unhandled() {
    let program = vec![stmt(param_int("x"))];
    assert_eq!(test_entry(&program).unwrap_err(), EvalError::UnhandledNode);
}

#[test]
fn deep_nesting_reports_depth() {
    let mut node = lit(1);
    for _ in 0..1100 {
        node = AstNodeType::ReturnExp { exp: Some(Box::new(node)) };
    }
    let program = vec![stmt(node)];
    assert_eq!(test_entry(&program).unwrap_err(), EvalError::DepthExceeded);
}

#[test]
fn empty_program_yields_true() {
    let program: Vec<AstNodeType> = vec![];
    match test_entry(&program).unwrap() {
        ValType::Boolean(b) => assert_eq!(b, true),
        other => panic!("expected true, got {:?}", other),
    }
}

#[test]
fn run_returns_last_raw_value() {
    let program = vec![
        stmt(fn_decl("a", vec![], vec![stmt(ret(expr(lit(4))))])),
        stmt(expr(ident("a"))),
    ];
    match run(&program).unwrap() {
        ValType::Closure { name, args, .. } => {
            assert_eq!(name, "a");
            // a closure passing through a fold has its formals cleared
            assert_eq!(args.len(), 0);
        }
        other => panic!("expected the closure itself, got {:?}", other),
    }
}

#[test]
fn return_without_expression_is_false() {
    let program = vec![stmt(AstNodeType::ReturnExp { exp: None })];
    match test_entry(&program).unwrap() {
        ValType::Boolean(b) => assert_eq!(b, false),
        other => panic!("expected false, got {:?}", other),
    }
}

#[test]
fn if_statement_value_is_true() {
    let program = vec![stmt(if_else(
        judge(expr(lit(8)), expr(lit(4)), ">"),
        block(vec![]),
        None,
    ))];
    match test_entry(&program).unwrap() {
        ValType::Boolean(b) => assert_eq!(b, true),
        other => panic!("expected true, got {:?}", other),
    }
}

#[test]
fn argument_expressions_use_callee_scope() {
    // The callee's captured environment, not the caller's, resolves names in
    // actual-argument expressions: `k` is visible globally (the closure's
    // captured scope), so the call inside a block still sees it — and a name
    // declared only in the caller's block is not what the argument sees.
    let program = vec![
        stmt(decl_int("k", expr(lit(10)))),
        stmt(fn_decl(
            "f",
            vec![param_int("p")],
            vec![stmt(ret(expr(ident("p"))))],
        )),
        stmt(expr(call("f", vec![expr(ident("k"))]))),
    ];
    match test_entry(&program).unwrap() {
        ValType::Number(n) => assert_eq!(n, 10),
        other => panic!("expected 10, got {:?}", other),
    }
}
