use munk::eval::Host;
use munk::eval::bind_param;
use munk::eval::convert_text;
use munk::eval::cost_upper_bound;
use munk::eval::eval;
use munk::eval::run_block;
use munk::eval::run_program;
use munk::node::Node;
use munk::register::SetupError;
use munk::register::register_function;
use munk::serialize::serialize;
use munk::serialize::u32_str;
use munk::value::ErrKind;
use munk::value::Value;
use munk::vm::Vm;

fn leaf(t: &str) -> Node {
    Node::Leaf { text: t.to_string(), line: 1, col: 1 }
}

fn leaf_at(t: &str, line: u32, col: u32) -> Node {
    Node::Leaf { text: t.to_string(), line, col }
}

fn branch(kids: Vec<Node>) -> Node {
    Node::Branch { kids, line: 1, col: 1 }
}

const LT_FN: u64 = 1;
const PRINT_FN: u64 = 2;

struct TestHost {
    printed: Vec<String>,
    calls: u32,
}

impl TestHost {
    fn new() -> TestHost {
        TestHost { printed: Vec::new(), calls: 0 }
    }
}

fn leaf_text(n: &Node) -> Option<String> {
    match n {
        Node::Leaf { text, .. } => Some(text.clone()),
        Node::Branch { .. } => None,
    }
}

impl Host for TestHost {
    fn call_native(&mut self, _vm: &mut Vm, fun: &Value, call: &Node) -> Value {
        self.calls += 1;
        let fun_id = match fun {
            Value::Function { fun_id, .. } => *fun_id,
            _ => return Value::Null,
        };
        match fun_id {
            LT_FN => {
                // (lt a b): compare two integer leaf arguments.
                let a: i64 = leaf_text(call.kid(1)).unwrap().parse().unwrap();
                let b: i64 = leaf_text(call.kid(2)).unwrap().parse().unwrap();
                if a < b {
                    Value::Literal(leaf("true"))
                } else {
                    Value::Literal(leaf(""))
                }
            },
            PRINT_FN => {
                // (print message): record the message leaf.
                let msg = leaf_text(call.kid(1)).unwrap();
                self.printed.push(msg);
                Value::Null
            },
            _ => Value::Null,
        }
    }

    fn native_cost(&self, _fun: &Value, _call: &Node) -> u64 {
        7
    }
}

fn fresh_vm(external: Vec<(String, Value)>) -> Vm {
    Vm::new(external)
}

fn bind(vm: &mut Vm, name: &str, v: Value) {
    vm.scopes[0].entries.push((name.to_string(), v));
}

fn is_error_kind(v: &Value, k: ErrKind) -> bool {
    match v {
        Value::Error { kind, .. } => *kind == k,
        _ => false,
    }
}

#[test]
fn def_then_reference_yields_null() {
    // (do (def x) x) evaluates to Null: x defaults to Null.
    let mut vm = fresh_vm(Vec::new());
    let mut host = TestHost::new();
    let prog = branch(vec![leaf("do"), branch(vec![leaf("def"), leaf("x")]), leaf("x")]);
    let r = eval(&mut vm, &mut host, &prog);
    assert!(matches!(r, Value::Null));
    let s = serialize(&r);
    assert_eq!(leaf_text(&s).unwrap(), "null");
}

#[test]
fn def_twice_in_one_frame_errors() {
    // (do (def a) (def a)) errors on the second def.
    let mut vm = fresh_vm(Vec::new());
    let mut host = TestHost::new();
    let prog = branch(vec![
        leaf("do"),
        branch(vec![leaf("def"), leaf("a")]),
        branch(vec![leaf("def"), leaf("a")]),
    ]);
    let r = eval(&mut vm, &mut host, &prog);
    assert!(is_error_kind(&r, ErrKind::Name));
}

#[test]
fn def_shadowing_in_nested_frame_succeeds() {
    // Binding the same name in a freshly pushed frame succeeds.
    let mut vm = fresh_vm(Vec::new());
    let mut host = TestHost::new();
    let prog = branch(vec![
        leaf("do"),
        branch(vec![leaf("def"), leaf("a")]),
        branch(vec![leaf("do"), branch(vec![leaf("def"), leaf("a")])]),
    ]);
    let r = eval(&mut vm, &mut host, &prog);
    assert!(matches!(r, Value::Null));
}

#[test]
fn empty_do_block_is_syntax_error() {
    // (do) yields a syntax error: empty block.
    let mut vm = fresh_vm(Vec::new());
    let mut host = TestHost::new();
    let prog = branch(vec![leaf("do")]);
    let r = eval(&mut vm, &mut host, &prog);
    assert!(is_error_kind(&r, ErrKind::Syntax));
}

#[test]
fn if_with_literal_def_takes_true_branch() {
    // (if (lt 1 2) (do (def r "yes") r) (else "no")) gives the literal yes.
    let mut vm = fresh_vm(Vec::new());
    let mut host = TestHost::new();
    bind(&mut vm, "lt", Value::Function { name: "lt".to_string(), fun_id: LT_FN });
    let prog = branch(vec![
        leaf("if"),
        branch(vec![leaf("lt"), leaf("1"), leaf("2")]),
        branch(vec![
            leaf("do"),
            branch(vec![leaf("def"), leaf("r"), leaf("yes")]),
            leaf("r"),
        ]),
        branch(vec![leaf("else"), leaf("no")]),
    ]);
    let r = eval(&mut vm, &mut host, &prog);
    let s = serialize(&r);
    assert_eq!(leaf_text(&s).unwrap(), "yes");
}

#[test]
fn if_false_condition_without_alternative_is_null() {
    let mut vm = fresh_vm(Vec::new());
    let mut host = TestHost::new();
    bind(&mut vm, "lt", Value::Function { name: "lt".to_string(), fun_id: LT_FN });
    let prog = branch(vec![
        leaf("if"),
        branch(vec![leaf("lt"), leaf("2"), leaf("1")]),
        branch(vec![leaf("def"), leaf("q")]),
    ]);
    let r = eval(&mut vm, &mut host, &prog);
    assert!(matches!(r, Value::Null));
}

#[test]
fn if_arity_errors() {
    // (if) and (if cond) are syntax errors.
    let mut vm = fresh_vm(Vec::new());
    let mut host = TestHost::new();
    let r1 = eval(&mut vm, &mut host, &branch(vec![leaf("if")]));
    assert!(is_error_kind(&r1, ErrKind::Syntax));
    let r2 = eval(&mut vm, &mut host, &branch(vec![leaf("if"), leaf("c")]));
    assert!(is_error_kind(&r2, ErrKind::Syntax));
}

#[test]
fn sibling_else_is_consumed_by_bare_if() {
    // (do (if cond body) (else alt)): false condition runs the sibling alt.
    let mut vm = fresh_vm(Vec::new());
    let mut host = TestHost::new();
    bind(&mut vm, "lt", Value::Function { name: "lt".to_string(), fun_id: LT_FN });
    bind(&mut vm, "alt", Value::Literal(leaf("altvalue")));
    let prog = branch(vec![
        leaf("do"),
        branch(vec![
            leaf("if"),
            branch(vec![leaf("lt"), leaf("2"), leaf("1")]),
            branch(vec![leaf("def"), leaf("q")]),
        ]),
        branch(vec![leaf("else"), leaf("alt")]),
    ]);
    let r = eval(&mut vm, &mut host, &prog);
    let s = serialize(&r);
    assert_eq!(leaf_text(&s).unwrap(), "altvalue");
}

#[test]
fn sibling_else_not_consumed_by_self_contained_if() {
    // A self-contained (if c (do ..) (else ..)) leaves a following (else ..)
    // statement alone; evaluating that statement is then a name error.
    let mut vm = fresh_vm(Vec::new());
    let mut host = TestHost::new();
    bind(&mut vm, "lt", Value::Function { name: "lt".to_string(), fun_id: LT_FN });
    let prog = branch(vec![
        leaf("do"),
        branch(vec![
            leaf("if"),
            branch(vec![leaf("lt"), leaf("1"), leaf("2")]),
            branch(vec![leaf("do"), branch(vec![leaf("def"), leaf("q")])]),
            branch(vec![leaf("else"), leaf("x")]),
        ]),
        branch(vec![leaf("else"), leaf("x")]),
    ]);
    let r = eval(&mut vm, &mut host, &prog);
    assert!(is_error_kind(&r, ErrKind::Name));
}

#[test]
fn block_short_circuits_on_first_error() {
    // Statements after the first error never execute: the native in the
    // third statement is never called, and the block's result is the error.
    let mut vm = fresh_vm(Vec::new());
    let mut host = TestHost::new();
    bind(&mut vm, "print", Value::Function { name: "print".to_string(), fun_id: PRINT_FN });
    let prog = branch(vec![
        leaf("do"),
        branch(vec![leaf("def"), leaf("a")]),
        leaf("missing"),
        branch(vec![leaf("print"), leaf("never")]),
    ]);
    let r = eval(&mut vm, &mut host, &prog);
    assert!(is_error_kind(&r, ErrKind::Name));
    assert_eq!(host.calls, 0);
    assert!(host.printed.is_empty());
}

#[test]
fn native_print_emits_and_returns_null() {
    // Registering a print function and calling it through module indexing
    // emits the message and yields Null.
    let mut ext: Vec<(String, Value)> = Vec::new();
    let path = vec!["std".to_string(), "print".to_string()];
    assert!(register_function(&mut ext, &path, PRINT_FN).is_ok());
    let mut vm = fresh_vm(ext);
    let mut host = TestHost::new();
    let prog = branch(vec![
        leaf("do"),
        branch(vec![leaf("use"), leaf("std")]),
        branch(vec![branch(vec![leaf("std"), leaf("print")]), leaf("hi")]),
    ]);
    let r = eval(&mut vm, &mut host, &prog);
    assert!(matches!(r, Value::Null));
    assert_eq!(host.printed, vec!["hi".to_string()]);
}

#[test]
fn use_missing_name_is_name_error_at_import_node() {
    // (use (mathlib sin cos)) where mathlib lacks cos yields a name error
    // positioned at the cos node.
    let mut ext: Vec<(String, Value)> = Vec::new();
    let path = vec!["mathlib".to_string(), "sin".to_string()];
    assert!(register_function(&mut ext, &path, LT_FN).is_ok());
    let mut vm = fresh_vm(ext);
    let mut host = TestHost::new();
    let prog = branch(vec![
        leaf("use"),
        branch(vec![leaf("mathlib"), leaf("sin"), leaf_at("cos", 7, 9)]),
    ]);
    let r = eval(&mut vm, &mut host, &prog);
    match r {
        Value::Error { kind, line, col, .. } => {
            assert_eq!(kind, ErrKind::Name);
            assert_eq!(line, 7);
            assert_eq!(col, 9);
        },
        _ => panic!("expected a name error"),
    }
}

#[test]
fn use_from_non_module_is_type_error() {
    let mut vm = fresh_vm(vec![("k".to_string(), Value::Null)]);
    let mut host = TestHost::new();
    let prog = branch(vec![leaf("use"), branch(vec![leaf("k"), leaf("a")])]);
    let r = eval(&mut vm, &mut host, &prog);
    assert!(is_error_kind(&r, ErrKind::Type));
}

#[test]
fn use_degenerate_branches_are_syntax_errors() {
    let mut vm = fresh_vm(Vec::new());
    let mut host = TestHost::new();
    let r1 = eval(&mut vm, &mut host, &branch(vec![leaf("use"), branch(vec![])]));
    assert!(is_error_kind(&r1, ErrKind::Syntax));
    let r2 = eval(&mut vm, &mut host, &branch(vec![leaf("use"), branch(vec![leaf("m")])]));
    assert!(is_error_kind(&r2, ErrKind::Syntax));
}

#[test]
fn module_indexing_resolves_nested_value() {
    // (M a b) resolves through the module chain to the terminal value.
    let inner = Value::Module {
        name: "a".to_string(),
        entries: vec![("b".to_string(), Value::Literal(leaf("deep")))],
    };
    let m = Value::Module { name: "M".to_string(), entries: vec![("a".to_string(), inner)] };
    let mut vm = fresh_vm(Vec::new());
    bind(&mut vm, "M", m);
    let mut host = TestHost::new();
    let prog = branch(vec![leaf("M"), leaf("a"), leaf("b")]);
    let r = eval(&mut vm, &mut host, &prog);
    let s = serialize(&r);
    assert_eq!(leaf_text(&s).unwrap(), "deep");
}

#[test]
fn module_indexing_absent_key_is_name_error() {
    let m = Value::Module { name: "M".to_string(), entries: Vec::new() };
    let mut vm = fresh_vm(Vec::new());
    bind(&mut vm, "M", m);
    let mut host = TestHost::new();
    let prog = branch(vec![leaf("M"), leaf_at("nope", 3, 4)]);
    let r = eval(&mut vm, &mut host, &prog);
    match r {
        Value::Error { kind, line, col, .. } => {
            assert_eq!(kind, ErrKind::Name);
            assert_eq!(line, 3);
            assert_eq!(col, 4);
        },
        _ => panic!("expected a name error"),
    }
}

#[test]
fn module_indexing_through_non_module_is_type_error() {
    let m = Value::Module {
        name: "M".to_string(),
        entries: vec![("x".to_string(), Value::Null)],
    };
    let mut vm = fresh_vm(Vec::new());
    bind(&mut vm, "M", m);
    let mut host = TestHost::new();
    let prog = branch(vec![leaf("M"), leaf("x"), leaf("y")]);
    let r = eval(&mut vm, &mut host, &prog);
    assert!(is_error_kind(&r, ErrKind::Type));
}

#[test]
fn unresolved_name_is_name_error() {
    let mut vm = fresh_vm(Vec::new());
    let mut host = TestHost::new();
    let r = eval(&mut vm, &mut host, &leaf("ghostly"));
    assert!(is_error_kind(&r, ErrKind::Name));
}

#[test]
fn comment_is_null() {
    let mut vm = fresh_vm(Vec::new());
    let mut host = TestHost::new();
    let r = eval(&mut vm, &mut host, &branch(vec![leaf("#"), leaf("anything")]));
    assert!(matches!(r, Value::Null));
}

#[test]
fn literal_roundtrips_through_serialize() {
    // serialize(eval(..)) of literal content gives back the original form.
    let mut vm = fresh_vm(Vec::new());
    let mut host = TestHost::new();
    bind(&mut vm, "lit", Value::Literal(leaf("payload")));
    let r = eval(&mut vm, &mut host, &leaf("lit"));
    let s = serialize(&r);
    assert_eq!(leaf_text(&s).unwrap(), "payload");
}

#[test]
fn serialize_error_shape() {
    let e = Value::Error {
        kind: ErrKind::Type,
        line: 42,
        col: 7,
        message: "boom".to_string(),
    };
    let s = serialize(&e);
    match s {
        Node::Branch { kids, .. } => {
            assert_eq!(kids.len(), 5);
            assert_eq!(leaf_text(&kids[0]).unwrap(), "Error");
            match &kids[1] {
                Node::Branch { kids: kk, .. } => {
                    assert_eq!(leaf_text(&kk[0]).unwrap(), "kind");
                    assert_eq!(leaf_text(&kk[1]).unwrap(), "TypeError");
                },
                _ => panic!("expected a branch"),
            }
            match &kids[2] {
                Node::Branch { kids: kk, .. } => {
                    assert_eq!(leaf_text(&kk[1]).unwrap(), "42");
                },
                _ => panic!("expected a branch"),
            }
            match &kids[3] {
                Node::Branch { kids: kk, .. } => {
                    assert_eq!(leaf_text(&kk[1]).unwrap(), "7");
                },
                _ => panic!("expected a branch"),
            }
            match &kids[4] {
                Node::Branch { kids: kk, .. } => {
                    assert_eq!(leaf_text(&kk[1]).unwrap(), "boom");
                },
                _ => panic!("expected a branch"),
            }
        },
        _ => panic!("expected a branch"),
    }
}

#[test]
fn serialize_function_and_module_tags() {
    let f = Value::Function { name: "print".to_string(), fun_id: 9 };
    assert_eq!(leaf_text(&serialize(&f)).unwrap(), "function:print");
    let m = Value::Module { name: "std".to_string(), entries: Vec::new() };
    assert_eq!(leaf_text(&serialize(&m)).unwrap(), "module:std");
}

#[test]
fn decimal_rendering_exact() {
    assert_eq!(u32_str(0), "0");
    assert_eq!(u32_str(7), "7");
    assert_eq!(u32_str(10), "10");
    assert_eq!(u32_str(20039), "20039");
    assert_eq!(u32_str(4294967295), "4294967295");
}

#[test]
fn register_empty_path_is_setup_error() {
    let mut ext: Vec<(String, Value)> = Vec::new();
    let path: Vec<String> = Vec::new();
    assert_eq!(register_function(&mut ext, &path, 1), Err(SetupError::EmptyPath));
    assert!(ext.is_empty());
}

#[test]
fn register_through_non_module_is_refused() {
    let mut ext: Vec<(String, Value)> = vec![("x".to_string(), Value::Null)];
    let path = vec!["x".to_string(), "y".to_string()];
    assert_eq!(register_function(&mut ext, &path, 1), Err(SetupError::NotAModule));
    assert_eq!(ext.len(), 1);
}

#[test]
fn register_overwrites_existing_leaf() {
    let mut ext: Vec<(String, Value)> = Vec::new();
    let path = vec!["f".to_string()];
    assert!(register_function(&mut ext, &path, 1).is_ok());
    assert!(register_function(&mut ext, &path, 2).is_ok());
    assert_eq!(ext.len(), 1);
    match &ext[0].1 {
        Value::Function { fun_id, .. } => assert_eq!(*fun_id, 2),
        _ => panic!("expected a function"),
    }
}

#[test]
fn truth_test_on_literals() {
    let t = Value::Literal(leaf("x"));
    assert!(t.test_truth());
    let f = Value::Literal(leaf(""));
    assert!(!f.test_truth());
    assert!(!Value::Null.test_truth());
    let m = Value::Module { name: "m".to_string(), entries: Vec::new() };
    assert!(!m.test_truth());
}

#[test]
fn bind_param_missing_is_param_error() {
    let mut vm = fresh_vm(Vec::new());
    let mut host = TestHost::new();
    let call = branch(vec![leaf("f"), branch(vec![leaf("other"), leaf("1")])]);
    let name = "message".to_string();
    let r = bind_param(&mut vm, &mut host, &call, &name);
    match r {
        Err(e) => assert!(is_error_kind(&e, ErrKind::Param)),
        Ok(_) => panic!("expected a missing-parameter error"),
    }
}

#[test]
fn bind_param_evaluates_keyed_subexpression() {
    let mut vm = fresh_vm(Vec::new());
    let mut host = TestHost::new();
    bind(&mut vm, "x", Value::Literal(leaf("hi")));
    let call = branch(vec![leaf("f"), branch(vec![leaf("message"), leaf("x")])]);
    let name = "message".to_string();
    let r = match bind_param(&mut vm, &mut host, &call, &name) {
        Ok(v) => v,
        Err(_) => panic!("expected a bound value"),
    };
    assert_eq!(leaf_text(&serialize(&r)).unwrap(), "hi");
}

#[test]
fn convert_text_accepts_leaf_literal_only() {
    let at = leaf_at("spot", 5, 6);
    match convert_text(&Value::Literal(leaf("payload")), &at) {
        Ok(t) => assert_eq!(t, "payload"),
        Err(_) => panic!("expected a conversion"),
    }
    match convert_text(&Value::Null, &at) {
        Ok(_) => panic!("expected a type error"),
        Err(e) => {
            assert!(is_error_kind(&e, ErrKind::Type));
            match e {
                Value::Error { line, col, .. } => {
                    assert_eq!(line, 5);
                    assert_eq!(col, 6);
                },
                _ => unreachable!(),
            }
        },
    }
}

#[test]
fn bind_param_keyed_node_without_value_is_param_error() {
    // (f (message)) names the parameter but carries no value expression.
    let mut vm = fresh_vm(Vec::new());
    let mut host = TestHost::new();
    let call = branch(vec![leaf("f"), branch(vec![leaf("message")])]);
    let name = "message".to_string();
    match bind_param(&mut vm, &mut host, &call, &name) {
        Err(e) => assert!(is_error_kind(&e, ErrKind::Param)),
        Ok(_) => panic!("expected a missing-parameter error"),
    }
}

#[test]
fn register_into_existing_module_keeps_siblings() {
    let mut ext: Vec<(String, Value)> = Vec::new();
    let sin = vec!["mathlib".to_string(), "sin".to_string()];
    let cos = vec!["mathlib".to_string(), "cos".to_string()];
    assert!(register_function(&mut ext, &sin, 1).is_ok());
    assert!(register_function(&mut ext, &cos, 2).is_ok());
    assert_eq!(ext.len(), 1);
    match &ext[0].1 {
        Value::Module { entries, .. } => {
            assert_eq!(entries.len(), 2);
            assert_eq!(entries[0].0, "sin");
            assert_eq!(entries[1].0, "cos");
        },
        _ => panic!("expected a module"),
    }
}

#[test]
fn cost_upper_bound_by_variant() {
    let host = TestHost::new();
    let call = branch(vec![leaf("m"), leaf("a"), leaf("b")]);
    assert_eq!(cost_upper_bound(&host, &Value::Null, &call), 0);
    let m = Value::Module { name: "m".to_string(), entries: Vec::new() };
    assert_eq!(cost_upper_bound(&host, &m, &call), 3);
    let f = Value::Function { name: "f".to_string(), fun_id: 1 };
    assert_eq!(cost_upper_bound(&host, &f, &call), 7);
}

#[test]
fn run_program_empty_is_syntax_error_and_toplevel_sequences() {
    let mut vm = fresh_vm(Vec::new());
    let mut host = TestHost::new();
    let r = run_program(&mut vm, &mut host, &branch(vec![]));
    assert!(is_error_kind(&r, ErrKind::Syntax));

    let mut vm2 = fresh_vm(Vec::new());
    let prog = branch(vec![
        branch(vec![leaf("def"), leaf("x"), leaf("ok")]),
        leaf("x"),
    ]);
    let r2 = run_program(&mut vm2, &mut host, &prog);
    assert_eq!(leaf_text(&serialize(&r2)).unwrap(), "ok");
}

#[test]
fn run_block_without_short_circuit_returns_last() {
    let mut vm = fresh_vm(Vec::new());
    let mut host = TestHost::new();
    let prog = branch(vec![
        leaf("do"),
        leaf("missing"),
        branch(vec![leaf("def"), leaf("x")]),
    ]);
    // With short-circuiting off, the error is passed over and the last
    // statement's result is returned.
    let out = run_block(&mut vm, &mut host, &prog, 1, false);
    assert!(matches!(out, Value::Null));
}

#[test]
fn scope_frames_are_popped_after_do() {
    // A name defined in a nested do is gone afterwards.
    let mut vm = fresh_vm(Vec::new());
    let mut host = TestHost::new();
    let prog = branch(vec![
        leaf("do"),
        branch(vec![leaf("do"), branch(vec![leaf("def"), leaf("inner")])]),
        leaf("inner"),
    ]);
    let r = eval(&mut vm, &mut host, &prog);
    assert!(is_error_kind(&r, ErrKind::Name));
}
