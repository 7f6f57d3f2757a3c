//! The tree that the analysis walks: a closed tagged union over the node
//! shapes the rules care about, with a generic fallback that only carries
//! children. The front end builds one of these from the parsed program.
use vstd::prelude::*;

verus! {

/// Operator of a binary expression: addition is the only operator the
/// literal-concatenation rule looks at, every other operator is `Other`.
pub enum BinOp {
    Add,
    Other,
}

/// One node of the source tree.
///
/// - `Ident` is an identifier read as a reference.
/// - `StrLit` is a string literal appearing directly as an expression.
/// - `Bin` is a binary expression.
/// - `Call` is a call expression; `callee` holds the callee's name when the
///   callee is a bare identifier and `None` otherwise. The callee itself is
///   not a child: the walker never descends into it.
/// - `Declare` is one variable declarator; `name` holds the bound name when
///   the target is a single plain identifier and `None` for destructuring
///   patterns, which are not tracked.
/// - `Group` is every other construct, reduced to its children in source
///   order (statement lists, blocks, other expressions, other literals).
pub enum Node {
    Ident(String),
    StrLit(String),
    Bin { op: BinOp, left: Box<Node>, right: Box<Node> },
    Call { callee: Option<String>, args: Vec<Node> },
    Declare { name: Option<String>, init: Option<Box<Node>> },
    Group(Vec<Node>),
}

} // verus!
