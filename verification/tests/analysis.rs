use obfuscator::ast::{BinOp, Node};
use obfuscator::report::full_report;
use obfuscator::walker::analyze;

const EVAL_MSG: &str = "Uso de eval detectado, posible riesgo de seguridad";
const CONCAT_MSG: &str = "Concatenación de strings literales detectada";

fn ident(name: &str) -> Node {
    Node::Ident(name.to_string())
}

fn strlit(text: &str) -> Node {
    Node::StrLit(text.to_string())
}

fn addition(left: Node, right: Node) -> Node {
    Node::Bin { op: BinOp::Add, left: Box::new(left), right: Box::new(right) }
}

fn declare(name: &str, init: Option<Node>) -> Node {
    Node::Declare { name: Some(name.to_string()), init: init.map(Box::new) }
}

#[test]
fn eval_call_detected_regardless_of_arguments() {
    let tree = Node::Call {
        callee: Some("eval".to_string()),
        args: vec![ident("payload"), strlit("1 + 2")],
    };
    let a = analyze(&tree);
    assert!(a.errors.iter().any(|m| m == EVAL_MSG));
}

#[test]
fn eval_call_detected_with_no_arguments() {
    let tree = Node::Call { callee: Some("eval".to_string()), args: vec![] };
    let a = analyze(&tree);
    assert_eq!(a.errors, vec![EVAL_MSG.to_string()]);
}

#[test]
fn other_callee_not_flagged() {
    let tree = Node::Call { callee: Some("evaluate".to_string()), args: vec![] };
    let a = analyze(&tree);
    assert!(a.errors.is_empty());
}

#[test]
fn literal_concatenation_detected_exactly_once() {
    let tree = addition(strlit("a"), strlit("b"));
    let a = analyze(&tree);
    assert_eq!(a.errors, vec![CONCAT_MSG.to_string()]);
}

#[test]
fn concatenation_with_identifier_not_flagged() {
    let tree = addition(ident("x"), strlit("b"));
    let a = analyze(&tree);
    assert!(a.errors.is_empty());
    assert_eq!(a.undefined_vars, vec!["x".to_string()]);
}

#[test]
fn nested_concatenation_fires_per_qualifying_subexpression() {
    // ("a" + "b") + x: only the inner addition joins two direct literals.
    let tree = addition(addition(strlit("a"), strlit("b")), ident("x"));
    let a = analyze(&tree);
    assert_eq!(a.errors, vec![CONCAT_MSG.to_string()]);
}

#[test]
fn all_declared_before_use_leaves_nothing_unresolved() {
    let tree = Node::Group(vec![
        declare("x", None),
        ident("x"),
        declare("y", Some(ident("x"))),
        ident("y"),
    ]);
    let a = analyze(&tree);
    assert!(a.unresolved_names().is_empty());
}

#[test]
fn undeclared_reference_is_reported() {
    let tree = Node::Group(vec![declare("z", Some(ident("q")))]);
    let a = analyze(&tree);
    assert_eq!(a.unresolved_names(), vec!["q".to_string()]);
}

#[test]
fn redeclaring_a_name_does_not_change_the_outcome() {
    let once = Node::Group(vec![ident("w"), declare("n", None), ident("n")]);
    let twice = Node::Group(vec![
        ident("w"),
        declare("n", None),
        declare("n", None),
        ident("n"),
    ]);
    assert_eq!(
        analyze(&once).unresolved_names(),
        analyze(&twice).unresolved_names()
    );
}

#[test]
fn forward_reference_resolves_at_end_of_traversal() {
    // use `y` inside the initializer of `x`, declare `y` afterward.
    let tree = Node::Group(vec![declare("x", Some(ident("y"))), declare("y", None)]);
    let a = analyze(&tree);
    assert!(!a.unresolved_names().contains(&"y".to_string()));
    assert!(a.unresolved_names().is_empty());
}

#[test]
fn self_reference_in_own_initializer_is_not_flagged() {
    let tree = declare("f", Some(ident("f")));
    let a = analyze(&tree);
    assert!(a.unresolved_names().is_empty());
}

#[test]
fn callee_name_is_not_a_reference() {
    let tree = Node::Call { callee: Some("foo".to_string()), args: vec![] };
    let a = analyze(&tree);
    assert!(a.undefined_vars.is_empty());
}

#[test]
fn destructuring_target_is_not_a_declaration() {
    let tree = Node::Group(vec![
        Node::Declare { name: None, init: Some(Box::new(ident("q"))) },
        ident("q"),
    ]);
    let a = analyze(&tree);
    assert_eq!(a.unresolved_names(), vec!["q".to_string()]);
}

#[test]
fn end_to_end_report_order() {
    // eval("a" + "b"); let z = q;
    let tree = Node::Group(vec![
        Node::Call {
            callee: Some("eval".to_string()),
            args: vec![addition(strlit("a"), strlit("b"))],
        },
        declare("z", Some(ident("q"))),
    ]);
    let a = analyze(&tree);
    let lines = full_report(&a, &vec![]);
    assert_eq!(
        lines,
        vec![
            format!("Error: {}", EVAL_MSG),
            format!("Error: {}", CONCAT_MSG),
            "Advertencia: Variable no definida: q".to_string(),
        ]
    );
    let unresolved = a.unresolved_names();
    assert!(!unresolved.contains(&"z".to_string()));
    assert!(!unresolved.contains(&"a".to_string()));
    assert!(!unresolved.contains(&"b".to_string()));
}
