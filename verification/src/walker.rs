//! The tree walker: one pre-order, left-to-right pass over the whole tree.
//! Each node is handed to the pattern rules and the resolution tracker before
//! its children are visited; a declarator registers its bound name before its
//! initializer is walked, so a name may refer to itself from its own
//! initializer. The callee of a call is never descended into.
use vstd::prelude::*;
use crate::ast::Node;
use crate::patterns::{concat_message, concat_msg, eval_call, eval_message, eval_msg, is_eval_call,
    is_lit_concat, lit_concat};
use crate::tracker::{add_error, empty_analysis, see_decl, see_ident, Analysis, Analyzer};

verus! {

/// The accumulator state after walking `n`, starting from `st`.
pub open spec fn walk_node(n: Node, st: Analysis) -> Analysis
    decreases n,
{
    match n {
        Node::Ident(name) => see_ident(st, name@),
        Node::StrLit(_) => st,
        Node::Bin { op, left, right } => {
            let checked = if is_lit_concat(op, *left, *right) {
                add_error(st, concat_msg())
            } else {
                st
            };
            walk_node(*right, walk_node(*left, checked))
        },
        Node::Call { callee, args } => {
            let checked = if is_eval_call(callee) {
                add_error(st, eval_msg())
            } else {
                st
            };
            walk_nodes(args@, checked)
        },
        Node::Declare { name, init } => {
            let registered = match name {
                Option::Some(target) => see_decl(st, target@),
                Option::None => st,
            };
            match init {
                Option::Some(value) => walk_node(*value, registered),
                Option::None => registered,
            }
        },
        Node::Group(children) => walk_nodes(children@, st),
    }
}

/// The accumulator state after walking every node of `s` in order, starting
/// from `st`.
pub open spec fn walk_nodes(s: Seq<Node>, st: Analysis) -> Analysis
    decreases s,
{
    if s.len() == 0 {
        st
    } else {
        walk_node(s.last(), walk_nodes(s.drop_last(), st))
    }
}

/// Walking one more node continues from the state the earlier nodes left.
pub proof fn lemma_walk_nodes_snoc(s: Seq<Node>, x: Node, st: Analysis)
    ensures
        walk_nodes(s.push(x), st) == walk_node(x, walk_nodes(s, st)),
{
    assert(s.push(x).drop_last() =~= s);
    assert(s.push(x).last() == x);
}

/// Visits every node reachable from `n` exactly once, pre-order and
/// left-to-right, feeding the pattern rules and the resolution tracker.
pub fn walk(n: &Node, a: &mut Analyzer)
    ensures
        final(a)@ == walk_node(*n, old(a)@),
    decreases *n,
{
    match n {
        Node::Ident(name) => {
            a.observe_identifier(name);
        },
        Node::StrLit(_) => {},
        Node::Bin { op, left, right } => {
            if lit_concat(op, left, right) {
                a.add_finding(concat_message());
            }
            walk(left, a);
            walk(right, a);
        },
        Node::Call { callee, args } => {
            if eval_call(callee) {
                a.add_finding(eval_message());
            }
            let ghost checked = a@;
            let mut i: usize = 0;
            while i < args.len()
                invariant
                    0 <= i <= args@.len(),
                    *n matches Node::Call { callee: _, args: all } && all@ == args@,
                    a@ == walk_nodes(args@.subrange(0, i as int), checked),
                decreases args@.len() - i,
            {
                let ghost sofar = args@.subrange(0, i as int);
                walk(&args[i], a);
                proof {
                    lemma_walk_nodes_snoc(sofar, args@[i as int], checked);
                    assert(args@.subrange(0, i as int + 1) =~= sofar.push(args@[i as int]));
                }
                i = i + 1;
            }
            proof {
                assert(args@.subrange(0, args@.len() as int) =~= args@);
            }
        },
        Node::Declare { name, init } => {
            match name {
                Option::Some(target) => {
                    a.observe_declaration(target);
                },
                Option::None => {},
            }
            match init {
                Option::Some(value) => {
                    walk(value, a);
                },
                Option::None => {},
            }
        },
        Node::Group(children) => {
            let ghost start = a@;
            let mut i: usize = 0;
            while i < children.len()
                invariant
                    0 <= i <= children@.len(),
                    *n matches Node::Group(all) && all@ == children@,
                    a@ == walk_nodes(children@.subrange(0, i as int), start),
                decreases children@.len() - i,
            {
                let ghost sofar = children@.subrange(0, i as int);
                walk(&children[i], a);
                proof {
                    lemma_walk_nodes_snoc(sofar, children@[i as int], start);
                    assert(children@.subrange(0, i as int + 1) =~= sofar.push(children@[i as int]));
                }
                i = i + 1;
            }
            proof {
                assert(children@.subrange(0, children@.len() as int) =~= children@);
            }
        },
    }
}

/// Analyzes a whole tree: one traversal from the empty state.
pub fn analyze(tree: &Node) -> (a: Analyzer)
    ensures
        a@ == walk_node(*tree, empty_analysis()),
{
    let mut a = Analyzer::new();
    walk(tree, &mut a);
    a
}

} // verus!
