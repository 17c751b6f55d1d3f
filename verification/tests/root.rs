use repl::complete::complete;
use repl::eval::evaluate;
use repl::eval::evaluate_result;
use repl::eval::evaluate_shared;
use repl::node::Action;
use repl::node::FieldEntry;
use repl::node::Method;
use repl::node::Node;
use repl::node::ParamKind;

fn test_struct() -> Node {
    Node::Composite {
        label: "TestStruct".to_string(),
        fields: vec![FieldEntry { name: "a".to_string(), node: Node::Bool(false) }],
        methods: vec![
            Method {
                name: "try_ping".to_string(),
                params: vec![],
                action: Action::Constant(Box::new(Node::Variant {
                    name: "Ok".to_string(),
                    items: vec![Node::Text("pong".to_string())],
                })),
            },
            Method {
                name: "add".to_string(),
                params: vec![ParamKind::Decimal, ParamKind::Decimal],
                action: Action::SumArgs,
            },
            Method {
                name: "frob".to_string(),
                params: vec![ParamKind::Unsigned, ParamKind::Decimal, ParamKind::Signed],
                action: Action::EchoArgs,
            },
            Method {
                name: "toggle".to_string(),
                params: vec![],
                action: Action::ToggleField("a".to_string()),
            },
        ],
    }
}

fn root() -> Node {
    Node::Composite {
        label: "Root".to_string(),
        fields: vec![FieldEntry {
            name: "parent".to_string(),
            node: Node::Composite {
                label: "ParentStruct".to_string(),
                fields: vec![FieldEntry { name: "child".to_string(), node: test_struct() }],
                methods: vec![],
            },
        }],
        methods: vec![],
    }
}

fn shared_root() -> Node {
    Node::Composite {
        label: "SharedRoot".to_string(),
        fields: vec![FieldEntry { name: "child".to_string(), node: test_struct() }],
        methods: vec![],
    }
}

#[test]
fn test_get_root_object() {
    let mut r = root();
    assert!(r.is_well_formed());
    assert_eq!(
        evaluate(&mut r, "parent"),
        "Ok(ParentStruct { child: TestStruct { a: false } })"
    );
}

#[test]
fn test_get_child() {
    let mut r = root();
    assert_eq!(evaluate(&mut r, "parent.child"), "Ok(TestStruct { a: false })");
}

#[test]
fn test_get_child_field() {
    let mut r = root();
    assert_eq!(evaluate(&mut r, "parent.child.a"), "Ok(false)");
}

#[test]
fn test_call_child_method() {
    let mut r = root();
    assert_eq!(evaluate(&mut r, "parent.child.try_ping()"), "Ok(Ok(\"pong\"))");
}

#[test]
fn test_call_with_float() {
    let mut r = root();
    assert_eq!(evaluate(&mut r, "parent.child.add(4.20, 6.9)"), "Ok(11.1)");
}

#[test]
fn test_call_with_different_arg_types() {
    let mut r = root();
    assert_eq!(evaluate(&mut r, "parent.child.frob(420, 6.9, -7)"), "Ok((420, 6.9, -7))");
}

#[test]
fn test_call_with_bad_args() {
    let mut r = root();
    assert_eq!(
        evaluate(&mut r, "parent.child.add(nope, 1)"),
        "Err(ArgsError { given_args: \"nope, 1\" })"
    );
}

#[test]
fn test_shared_reference_field() {
    let r = shared_root();
    assert_eq!(evaluate_shared(&r, "child.a"), "Ok(false)");
}

#[test]
fn test_shared_reference_method() {
    let r = shared_root();
    assert_eq!(evaluate_shared(&r, "child.add(1, 2)"), "Ok(3.0)");
}

#[test]
fn test_shared_reference_mut_method() {
    let r = shared_root();
    assert_eq!(
        evaluate_shared(&r, "child.toggle()"),
        "Err(MethodNotFound { type_label: \"TestStruct\", method_name: \"toggle\" })"
    );
}

#[test]
fn test_toggle_through_exclusive_reference() {
    let mut r = root();
    assert_eq!(evaluate(&mut r, "parent.child.toggle()"), "Ok(())");
    assert_eq!(evaluate(&mut r, "parent.child.a"), "Ok(true)");
    assert_eq!(evaluate(&mut r, "parent.child.toggle()"), "Ok(())");
    assert_eq!(evaluate(&mut r, "parent.child.a"), "Ok(false)");
}

#[test]
fn test_wrong_number_of_arguments() {
    let mut r = root();
    assert_eq!(
        evaluate(&mut r, "parent.child.add(1)"),
        "Err(WrongNumberOfArguments { expected: 2, found: 1 })"
    );
    assert_eq!(
        evaluate(&mut r, "parent.child.try_ping(5)"),
        "Err(WrongNumberOfArguments { expected: 0, found: 1 })"
    );
}

#[test]
fn test_field_not_found() {
    let mut r = root();
    assert_eq!(
        evaluate(&mut r, "parent.nope"),
        "Err(FieldNotFound { type_label: \"ParentStruct\", field_name: \"nope\" })"
    );
    assert_eq!(
        evaluate(&mut r, "parent.child.a.deeper"),
        "Err(FieldNotFound { type_label: \"bool\", field_name: \"deeper\" })"
    );
}

#[test]
fn test_method_not_found() {
    let mut r = root();
    assert_eq!(
        evaluate(&mut r, "parent.child.zap()"),
        "Err(MethodNotFound { type_label: \"TestStruct\", method_name: \"zap\" })"
    );
}

#[test]
fn test_syntax_error() {
    let mut r = root();
    assert_eq!(evaluate(&mut r, "parent..child"), "Err(SyntaxError)");
    assert_eq!(evaluate(&mut r, ""), "Err(SyntaxError)");
    assert_eq!(evaluate(&mut r, "parent.child.add(1, 2"), "Err(SyntaxError)");
    assert_eq!(evaluate(&mut r, "parent.child.add(1).a"), "Err(SyntaxError)");
}

#[test]
fn test_debug_not_implemented() {
    let mut r = Node::Composite {
        label: "Holder".to_string(),
        fields: vec![FieldEntry {
            name: "secret".to_string(),
            node: Node::Opaque { label: "Hidden".to_string() },
        }],
        methods: vec![],
    };
    assert_eq!(evaluate(&mut r, "secret"), "Err(DebugNotImplemented)");
}

#[test]
fn test_negative_decimal_sum() {
    let mut r = root();
    assert_eq!(evaluate(&mut r, "parent.child.add(-1.5, 0.25)"), "Ok(-1.25)");
    assert_eq!(evaluate(&mut r, "parent.child.add(2.5, -2.5)"), "Ok(0.0)");
}

#[test]
fn test_echo_single_argument() {
    let mut r = Node::Composite {
        label: "Echoer".to_string(),
        fields: vec![],
        methods: vec![
            Method {
                name: "id".to_string(),
                params: vec![ParamKind::Unsigned],
                action: Action::EchoArgs,
            },
            Method {
                name: "flag".to_string(),
                params: vec![ParamKind::Boolean],
                action: Action::EchoArgs,
            },
            Method {
                name: "say".to_string(),
                params: vec![ParamKind::Text],
                action: Action::EchoArgs,
            },
        ],
    };
    assert_eq!(evaluate(&mut r, "id(7)"), "Ok(7)");
    assert_eq!(evaluate(&mut r, "flag(true)"), "Ok(true)");
    assert_eq!(evaluate(&mut r, "say( hi )"), "Ok(\"hi\")");
}

#[test]
fn test_idempotent_pure_calls() {
    let mut r = root();
    let first = evaluate(&mut r, "parent.child.add(4.20, 6.9)");
    let second = evaluate(&mut r, "parent.child.add(4.20, 6.9)");
    assert_eq!(first, second);
    let f1 = evaluate(&mut r, "parent.child.a");
    let f2 = evaluate(&mut r, "parent.child.a");
    assert_eq!(f1, f2);
}

#[test]
fn test_evaluate_result_variant() {
    let mut r = root();
    let ok = evaluate_result(&mut r, "parent.child.a");
    assert_eq!(ok.unwrap(), "false");
    let err = evaluate_result(&mut r, "parent.bogus");
    assert!(matches!(err, Err(repl::interactive::InteractiveError::FieldNotFound { .. })));
}

#[test]
fn test_complete_lists_fields_then_methods() {
    let r = root();
    let (start, names) = complete(&r, "parent.child.", 13);
    assert_eq!(start, 13);
    assert_eq!(names, vec!["a", "try_ping", "add", "frob", "toggle"]);
}

#[test]
fn test_complete_filters_by_prefix() {
    let r = root();
    let (start, names) = complete(&r, "parent.child.t", 14);
    assert_eq!(start, 13);
    assert_eq!(names, vec!["try_ping", "toggle"]);
    let (start2, names2) = complete(&r, "par", 3);
    assert_eq!(start2, 0);
    assert_eq!(names2, vec!["parent"]);
}

#[test]
fn test_complete_unresolvable_is_empty() {
    let r = root();
    let (start, names) = complete(&r, "bogus.x", 7);
    assert_eq!(start, 0);
    assert!(names.is_empty());
    let (start2, names2) = complete(&r, "parent.child.try_ping().", 24);
    assert_eq!(start2, 0);
    assert!(names2.is_empty());
}

#[test]
fn test_well_formedness_checker() {
    let r = root();
    assert!(r.is_well_formed());
    let bad = Node::Composite {
        label: "Bad".to_string(),
        fields: vec![FieldEntry {
            name: "d".to_string(),
            node: Node::Decimal(repl::numbers::Dec { neg: false, mant: 1, scale: 99 }),
        }],
        methods: vec![],
    };
    assert!(!bad.is_well_formed());
}

#[test]
fn test_zero_decimal_renders_like_float() {
    let mut r = Node::Composite {
        label: "Nums".to_string(),
        fields: vec![FieldEntry {
            name: "x".to_string(),
            node: Node::Decimal(repl::numbers::Dec { neg: false, mant: 0, scale: 0 }),
        }],
        methods: vec![],
    };
    assert_eq!(evaluate(&mut r, "x"), "Ok(0.0)");
}
