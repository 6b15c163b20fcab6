use slick_script::ast::AstNodeType;
use slick_script::frame::{Frame, Scope, ScopeStruct, ValType};

#[test]
fn frame_scope() {
    let global_scope = Scope::Block(ScopeStruct { play_object: Vec::new(), parent_scope: None });
    let mut first_frame = Frame { scopes: vec![global_scope], scope: 0 };
    first_frame.set(String::from("a"), ValType::Number(1), true);

    let b_scope = Scope::Block(ScopeStruct { play_object: Vec::new(), parent_scope: None });
    first_frame.create_scope(b_scope);

    let has = first_frame.contains_key(&String::from("a"));
    assert_eq!(has, true);

    let get_res = first_frame.get(&String::from("a")).unwrap();
    match get_res {
        ValType::Number(n) => {
            assert_eq!(n, 1)
        }
        _ => {
            panic!("scope chain broken")
        }
    }

    first_frame.set(String::from("a"), ValType::Number(0), false);
    let get_res0 = first_frame.get(&String::from("a")).unwrap();
    match get_res0 {
        ValType::Number(n) => {
            assert_eq!(n, 0)
        }
        _ => {
            panic!("scope chain broken")
        }
    }
}

#[test]
fn round_trip_number() {
    let mut f = Frame::new_global();
    f.set(String::from("n"), ValType::Number(-5), true);
    match f.get(&String::from("n")).unwrap() {
        ValType::Number(n) => assert_eq!(n, -5),
        _ => panic!("value changed kind"),
    }
}

#[test]
fn round_trip_boolean() {
    let mut f = Frame::new_global();
    f.set(String::from("b"), ValType::Boolean(true), true);
    match f.get(&String::from("b")).unwrap() {
        ValType::Boolean(b) => assert_eq!(b, true),
        _ => panic!("value changed kind"),
    }
}

#[test]
fn round_trip_string() {
    let mut f = Frame::new_global();
    f.set(String::from("s"), ValType::String(String::from("hi")), true);
    match f.get(&String::from("s")).unwrap() {
        ValType::String(s) => assert_eq!(s, "hi"),
        _ => panic!("value changed kind"),
    }
}

#[test]
fn round_trip_closure() {
    let mut f = Frame::new_global();
    let clos = ValType::Closure {
        scope: 0,
        block: Box::new(AstNodeType::Block { statements: None }),
        name: String::from("g"),
        args: Vec::new(),
    };
    f.set(String::from("g"), clos, true);
    match f.get(&String::from("g")).unwrap() {
        ValType::Closure { scope, name, args, .. } => {
            assert_eq!(scope, 0);
            assert_eq!(name, "g");
            assert_eq!(args.len(), 0);
        }
        _ => panic!("value changed kind"),
    }
}

#[test]
fn assignment_needs_declaration() {
    let mut f = Frame::new_global();
    let ok = f.set(String::from("missing"), ValType::Number(1), false);
    assert_eq!(ok, false);
    assert!(f.get(&String::from("missing")).is_none());
}

#[test]
fn shadowing_at_frame_level() {
    let mut f = Frame::new_global();
    f.set(String::from("x"), ValType::Number(0), true);
    f.create_scope(Scope::Block(ScopeStruct { play_object: Vec::new(), parent_scope: None }));
    f.set(String::from("x"), ValType::Number(4), true);
    match f.get(&String::from("x")).unwrap() {
        ValType::Number(n) => assert_eq!(n, 4),
        _ => panic!("inner shadow not visible"),
    }
    assert!(f.drop_scope());
    match f.get(&String::from("x")).unwrap() {
        ValType::Number(n) => assert_eq!(n, 0),
        _ => panic!("outer binding altered"),
    }
}

#[test]
fn drop_scope_fails_at_root() {
    let mut f = Frame::new_global();
    assert_eq!(f.drop_scope(), false);
    f.create_scope(Scope::Block(ScopeStruct { play_object: Vec::new(), parent_scope: None }));
    assert_eq!(f.drop_scope(), true);
    assert_eq!(f.drop_scope(), false);
}

#[test]
fn comparisons_only_on_numbers() {
    let five = ValType::Number(5);
    let three = ValType::Number(3);
    assert!(five.gt(&three));
    assert!(!five.lt(&three));
    assert!(five.ge(&three));
    assert!(!five.le(&three));
    assert!(!five.eq(&three));
    assert!(five.ne(&three));

    let c1 = ValType::Closure {
        scope: 0,
        block: Box::new(AstNodeType::Block { statements: None }),
        name: String::from("a"),
        args: Vec::new(),
    };
    let c2 = ValType::Closure {
        scope: 0,
        block: Box::new(AstNodeType::Block { statements: None }),
        name: String::from("a"),
        args: Vec::new(),
    };
    assert!(!c1.gt(&c2));
    assert!(!c1.lt(&c2));
    assert!(!c1.ge(&c2));
    assert!(!c1.le(&c2));
    assert!(!c1.eq(&c2));
    assert!(!c1.ne(&c2));
    assert!(!c1.eq(&five));
    assert!(!five.eq(&c1));
}

#[test]
fn to_number_reads_a_number() {
    assert_eq!(ValType::Number(42).to_number(), 42);
}
