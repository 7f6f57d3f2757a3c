//! The two stateless pattern rules, each a pure function of one visited
//! node: a call whose callee is the bare dynamic-evaluation identifier, and
//! an addition whose operands are both direct string literals.
use vstd::prelude::*;
use vstd::string::StringExecFns;
use crate::ast::{BinOp, Node};

verus! {

/// The disallowed dynamic-evaluation callee name.
pub open spec fn eval_name() -> Seq<char> {
    "eval"@
}

/// Finding text for a dynamic-evaluation call.
pub open spec fn eval_msg() -> Seq<char> {
    "Uso de eval detectado, posible riesgo de seguridad"@
}

/// Finding text for a concatenation of two string literals.
pub open spec fn concat_msg() -> Seq<char> {
    "Concatenación de strings literales detectada"@
}

/// Whether a call with this callee fires the dynamic-evaluation rule: the
/// callee is a bare identifier spelling the disallowed name.
pub open spec fn is_eval_call(callee: Option<String>) -> bool {
    match callee {
        Option::Some(name) => name@ == eval_name(),
        Option::None => false,
    }
}

/// Whether a binary expression fires the literal-concatenation rule: the
/// operator is addition and both operands are direct string literals.
pub open spec fn is_lit_concat(op: BinOp, left: Node, right: Node) -> bool {
    op is Add && left is StrLit && right is StrLit
}

/// The dynamic-evaluation finding text, as a value.
pub fn eval_message() -> (r: String)
    ensures
        r@ == eval_msg(),
{
    String::from_str("Uso de eval detectado, posible riesgo de seguridad")
}

/// The literal-concatenation finding text, as a value.
pub fn concat_message() -> (r: String)
    ensures
        r@ == concat_msg(),
{
    String::from_str("Concatenación de strings literales detectada")
}

/// Decides the dynamic-evaluation rule for one callee.
pub fn eval_call(callee: &Option<String>) -> (r: bool)
    ensures
        r == is_eval_call(*callee),
{
    match callee {
        Option::Some(name) => {
            let fixed = String::from_str("eval");
            name.eq(&fixed)
        },
        Option::None => false,
    }
}

/// Decides the literal-concatenation rule for one binary expression.
pub fn lit_concat(op: &BinOp, left: &Node, right: &Node) -> (r: bool)
    ensures
        r == is_lit_concat(*op, *left, *right),
{
    match op {
        BinOp::Add => match (left, right) {
            (Node::StrLit(_), Node::StrLit(_)) => true,
            _ => false,
        },
        BinOp::Other => false,
    }
}

} // verus!
