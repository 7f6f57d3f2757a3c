//! Properties of the analysis pass, stated over the walker's model and
//! proved once for every tree.
use vstd::prelude::*;
use crate::ast::Node;
use crate::patterns::{concat_msg, eval_msg, is_eval_call, is_lit_concat};
use crate::tracker::{empty_analysis, unresolved_of, Analysis};
use crate::walker::{walk_node, walk_nodes};

verus! {

/// Membership in a concatenation is membership in either part.
pub proof fn lemma_contains_append<A>(a: Seq<A>, b: Seq<A>, x: A)
    ensures
        (a + b).contains(x) <==> a.contains(x) || b.contains(x),
{
    if a.contains(x) {
        let i = choose|i: int| 0 <= i < a.len() && a[i] == x;
        assert((a + b)[i] == x);
    }
    if b.contains(x) {
        let i = choose|i: int| 0 <= i < b.len() && b[i] == x;
        assert((a + b)[a.len() + i] == x);
    }
    if (a + b).contains(x) {
        let i = choose|i: int| 0 <= i < (a + b).len() && (a + b)[i] == x;
        if i < a.len() {
            assert(a[i] == x);
        } else {
            assert(b[i - a.len()] == x);
        }
    }
}

/// The findings the pattern rules produce on `n`, in traversal order. They
/// depend on the tree alone, never on the tracker's state.
pub open spec fn findings_of(n: Node) -> Seq<Seq<char>>
    decreases n,
{
    match n {
        Node::Ident(_) => Seq::empty(),
        Node::StrLit(_) => Seq::empty(),
        Node::Bin { op, left, right } => {
            let here: Seq<Seq<char>> = if is_lit_concat(op, *left, *right) {
                seq![concat_msg()]
            } else {
                Seq::empty()
            };
            here + findings_of(*left) + findings_of(*right)
        },
        Node::Call { callee, args } => {
            let here: Seq<Seq<char>> = if is_eval_call(callee) {
                seq![eval_msg()]
            } else {
                Seq::empty()
            };
            here + findings_in(args@)
        },
        Node::Declare { name: _, init } => match init {
            Option::Some(value) => findings_of(*value),
            Option::None => Seq::empty(),
        },
        Node::Group(children) => findings_in(children@),
    }
}

/// The findings produced on a list of nodes, in order.
pub open spec fn findings_in(s: Seq<Node>) -> Seq<Seq<char>>
    decreases s,
{
    if s.len() == 0 {
        Seq::empty()
    } else {
        findings_in(s.drop_last()) + findings_of(s.last())
    }
}

/// The declaration targets registered while walking `n`, in traversal order.
pub open spec fn decls_of(n: Node) -> Seq<Seq<char>>
    decreases n,
{
    match n {
        Node::Ident(_) => Seq::empty(),
        Node::StrLit(_) => Seq::empty(),
        Node::Bin { op: _, left, right } => decls_of(*left) + decls_of(*right),
        Node::Call { callee: _, args } => decls_in(args@),
        Node::Declare { name, init } => {
            let here: Seq<Seq<char>> = match name {
                Option::Some(target) => seq![target@],
                Option::None => Seq::empty(),
            };
            here + (match init {
                Option::Some(value) => decls_of(*value),
                Option::None => Seq::empty(),
            })
        },
        Node::Group(children) => decls_in(children@),
    }
}

/// The declaration targets registered over a list of nodes, in order.
pub open spec fn decls_in(s: Seq<Node>) -> Seq<Seq<char>>
    decreases s,
{
    if s.len() == 0 {
        Seq::empty()
    } else {
        decls_in(s.drop_last()) + decls_of(s.last())
    }
}

/// Walking appends exactly the tree's own findings and declarations to
/// whatever the state already held: neither list depends on the state.
pub proof fn lemma_walk_appends(n: Node, st: Analysis)
    ensures
        walk_node(n, st).errors == st.errors + findings_of(n),
        walk_node(n, st).declared == st.declared + decls_of(n),
    decreases n,
{
    match n {
        Node::Ident(_) => {
            assert(walk_node(n, st).errors =~= st.errors + findings_of(n));
            assert(walk_node(n, st).declared =~= st.declared + decls_of(n));
        },
        Node::StrLit(_) => {
            assert(walk_node(n, st).errors =~= st.errors + findings_of(n));
            assert(walk_node(n, st).declared =~= st.declared + decls_of(n));
        },
        Node::Bin { op, left, right } => {
            let checked = if is_lit_concat(op, *left, *right) {
                crate::tracker::add_error(st, concat_msg())
            } else {
                st
            };
            lemma_walk_appends(*left, checked);
            lemma_walk_appends(*right, walk_node(*left, checked));
            assert(walk_node(n, st).errors =~= st.errors + findings_of(n));
            assert(walk_node(n, st).declared =~= st.declared + decls_of(n));
        },
        Node::Call { callee, args } => {
            let checked = if is_eval_call(callee) {
                crate::tracker::add_error(st, eval_msg())
            } else {
                st
            };
            lemma_walk_list_appends(args@, checked);
            assert(walk_node(n, st).errors =~= st.errors + findings_of(n));
            assert(walk_node(n, st).declared =~= st.declared + decls_of(n));
        },
        Node::Declare { name, init } => {
            let registered = match name {
                Option::Some(target) => crate::tracker::see_decl(st, target@),
                Option::None => st,
            };
            match init {
                Option::Some(value) => {
                    lemma_walk_appends(*value, registered);
                },
                Option::None => {},
            }
            assert(walk_node(n, st).errors =~= st.errors + findings_of(n));
            assert(walk_node(n, st).declared =~= st.declared + decls_of(n));
        },
        Node::Group(children) => {
            lemma_walk_list_appends(children@, st);
            assert(walk_node(n, st).errors =~= st.errors + findings_of(n));
            assert(walk_node(n, st).declared =~= st.declared + decls_of(n));
        },
    }
}

/// The list form of `lemma_walk_appends`.
pub proof fn lemma_walk_list_appends(s: Seq<Node>, st: Analysis)
    ensures
        walk_nodes(s, st).errors == st.errors + findings_in(s),
        walk_nodes(s, st).declared == st.declared + decls_in(s),
    decreases s,
{
    if s.len() == 0 {
        assert(walk_nodes(s, st).errors =~= st.errors + findings_in(s));
        assert(walk_nodes(s, st).declared =~= st.declared + decls_in(s));
    } else {
        lemma_walk_list_appends(s.drop_last(), st);
        lemma_walk_appends(s.last(), walk_nodes(s.drop_last(), st));
        assert(walk_nodes(s, st).errors =~= st.errors + findings_in(s));
        assert(walk_nodes(s, st).declared =~= st.declared + decls_in(s));
    }
}

/// Whether the tree holds a call whose callee is the bare dynamic-evaluation
/// name, anywhere the walker looks.
pub open spec fn has_eval_call(n: Node) -> bool
    decreases n,
{
    match n {
        Node::Ident(_) => false,
        Node::StrLit(_) => false,
        Node::Bin { op: _, left, right } => has_eval_call(*left) || has_eval_call(*right),
        Node::Call { callee, args } => is_eval_call(callee) || any_eval_call(args@),
        Node::Declare { name: _, init } => match init {
            Option::Some(value) => has_eval_call(*value),
            Option::None => false,
        },
        Node::Group(children) => any_eval_call(children@),
    }
}

/// Whether some node of the list holds such a call.
pub open spec fn any_eval_call(s: Seq<Node>) -> bool
    decreases s,
{
    if s.len() == 0 {
        false
    } else {
        any_eval_call(s.drop_last()) || has_eval_call(s.last())
    }
}

/// A dynamic-evaluation call anywhere in the tree is reported: the walk ends
/// with at least one finding carrying the fixed detection message, whatever
/// the call's arguments.
pub proof fn law_eval_call_reported(n: Node, st: Analysis)
    requires
        has_eval_call(n),
    ensures
        walk_node(n, st).errors.contains(eval_msg()),
{
    lemma_walk_appends(n, st);
    lemma_eval_finding(n);
    lemma_contains_append(st.errors, findings_of(n), eval_msg());
}

/// The findings of a tree with a dynamic-evaluation call include the fixed
/// detection message.
pub proof fn lemma_eval_finding(n: Node)
    requires
        has_eval_call(n),
    ensures
        findings_of(n).contains(eval_msg()),
    decreases n,
{
    match n {
        Node::Ident(_) => {},
        Node::StrLit(_) => {},
        Node::Bin { op, left, right } => {
            let here: Seq<Seq<char>> = if is_lit_concat(op, *left, *right) {
                seq![concat_msg()]
            } else {
                Seq::empty()
            };
            if has_eval_call(*left) {
                lemma_eval_finding(*left);
                lemma_contains_append(here + findings_of(*left), findings_of(*right), eval_msg());
                lemma_contains_append(here, findings_of(*left), eval_msg());
            } else {
                lemma_eval_finding(*right);
                lemma_contains_append(here + findings_of(*left), findings_of(*right), eval_msg());
            }
        },
        Node::Call { callee, args } => {
            let here: Seq<Seq<char>> = if is_eval_call(callee) {
                seq![eval_msg()]
            } else {
                Seq::empty()
            };
            if is_eval_call(callee) {
                assert(here[0] == eval_msg());
                assert(here.contains(eval_msg()));
            } else {
                lemma_any_eval_finding(args@);
            }
            lemma_contains_append(here, findings_in(args@), eval_msg());
        },
        Node::Declare { name: _, init } => {
            match init {
                Option::Some(value) => {
                    lemma_eval_finding(*value);
                },
                Option::None => {},
            }
        },
        Node::Group(children) => {
            lemma_any_eval_finding(children@);
        },
    }
}

/// The list form of `lemma_eval_finding`.
pub proof fn lemma_any_eval_finding(s: Seq<Node>)
    requires
        any_eval_call(s),
    ensures
        findings_in(s).contains(eval_msg()),
    decreases s,
{
    if s.len() > 0 {
        if any_eval_call(s.drop_last()) {
            lemma_any_eval_finding(s.drop_last());
        } else {
            lemma_eval_finding(s.last());
        }
        lemma_contains_append(findings_in(s.drop_last()), findings_of(s.last()), eval_msg());
    }
}

/// The number of binary expressions in the tree that fire the
/// literal-concatenation rule.
pub open spec fn concat_sites(n: Node) -> nat
    decreases n,
{
    match n {
        Node::Ident(_) => 0,
        Node::StrLit(_) => 0,
        Node::Bin { op, left, right } => (if is_lit_concat(op, *left, *right) {
            1nat
        } else {
            0nat
        }) + concat_sites(*left) + concat_sites(*right),
        Node::Call { callee: _, args } => concat_sites_in(args@),
        Node::Declare { name: _, init } => match init {
            Option::Some(value) => concat_sites(*value),
            Option::None => 0,
        },
        Node::Group(children) => concat_sites_in(children@),
    }
}

/// The number of such sites over a list of nodes.
pub open spec fn concat_sites_in(s: Seq<Node>) -> nat
    decreases s,
{
    if s.len() == 0 {
        0
    } else {
        concat_sites_in(s.drop_last()) + concat_sites(s.last())
    }
}

/// The two fixed finding texts are distinct.
pub proof fn lemma_messages_differ()
    ensures
        eval_msg() != concat_msg(),
{
    reveal_strlit("Uso de eval detectado, posible riesgo de seguridad");
    reveal_strlit("Concatenación de strings literales detectada");
    assert(eval_msg().len() == 50);
    assert(concat_msg().len() == 44);
}

/// The walk reports exactly one literal-concatenation finding per qualifying
/// sub-expression: no more, no fewer, however the matches nest.
pub proof fn law_concat_counted_once(n: Node, st: Analysis)
    requires
        st.errors.filter(|m: Seq<char>| m == concat_msg()).len() == 0,
    ensures
        walk_node(n, st).errors.filter(|m: Seq<char>| m == concat_msg()).len() == concat_sites(
            n,
        ),
{
    let pred = |m: Seq<char>| m == concat_msg();
    lemma_walk_appends(n, st);
    Seq::filter_distributes_over_add(st.errors, findings_of(n), pred);
    lemma_concat_count(n);
}

/// The concat findings of a tree number its qualifying sub-expressions.
pub proof fn lemma_concat_count(n: Node)
    ensures
        findings_of(n).filter(|m: Seq<char>| m == concat_msg()).len() == concat_sites(n),
    decreases n,
{
    let pred = |m: Seq<char>| m == concat_msg();
    reveal(Seq::filter);
    match n {
        Node::Ident(_) => {
            assert(findings_of(n).filter(pred).len() == 0);
        },
        Node::StrLit(_) => {
            assert(findings_of(n).filter(pred).len() == 0);
        },
        Node::Bin { op, left, right } => {
            let here: Seq<Seq<char>> = if is_lit_concat(op, *left, *right) {
                seq![concat_msg()]
            } else {
                Seq::empty()
            };
            lemma_concat_count(*left);
            lemma_concat_count(*right);
            lemma_filter_singleton_counts(here);
            Seq::filter_distributes_over_add(here, findings_of(*left), pred);
            Seq::filter_distributes_over_add(here + findings_of(*left), findings_of(*right), pred);
            assert(findings_of(n) =~= here + findings_of(*left) + findings_of(*right));
            assert(findings_of(n).filter(pred).len() == concat_sites(n));
        },
        Node::Call { callee, args } => {
            let here: Seq<Seq<char>> = if is_eval_call(callee) {
                seq![eval_msg()]
            } else {
                Seq::empty()
            };
            lemma_concat_count_in(args@);
            lemma_filter_singleton_counts(here);
            Seq::filter_distributes_over_add(here, findings_in(args@), pred);
            lemma_messages_differ();
            assert(seq![eval_msg()][0] == eval_msg());
            assert(seq![concat_msg()][0] == concat_msg());
            assert(seq![eval_msg()] != seq![concat_msg()]);
            assert(findings_of(n) =~= here + findings_in(args@));
            assert(concat_sites(n) == concat_sites_in(args@));
            assert(findings_of(n).filter(pred).len() == concat_sites(n));
        },
        Node::Declare { name: _, init } => {
            match init {
                Option::Some(value) => {
                    lemma_concat_count(*value);
                },
                Option::None => {},
            }
        },
        Node::Group(children) => {
            lemma_concat_count_in(children@);
        },
    }
}

/// The list form of `lemma_concat_count`.
pub proof fn lemma_concat_count_in(s: Seq<Node>)
    ensures
        findings_in(s).filter(|m: Seq<char>| m == concat_msg()).len() == concat_sites_in(s),
    decreases s,
{
    let pred = |m: Seq<char>| m == concat_msg();
    reveal(Seq::filter);
    if s.len() > 0 {
        lemma_concat_count_in(s.drop_last());
        lemma_concat_count(s.last());
        Seq::filter_distributes_over_add(findings_in(s.drop_last()), findings_of(s.last()), pred);
    }
}

/// Filtering a one-finding list for the concat message counts it exactly
/// when it is the concat message.
proof fn lemma_filter_singleton_counts(here: Seq<Seq<char>>)
    requires
        here == seq![concat_msg()] || here == seq![eval_msg()] || here
            == Seq::<Seq<char>>::empty(),
    ensures
        here.filter(|m: Seq<char>| m == concat_msg()).len() == (if here == seq![concat_msg()] {
            1int
        } else {
            0int
        }),
{
    let pred = |m: Seq<char>| m == concat_msg();
    reveal(Seq::filter);
    lemma_messages_differ();
    assert(Seq::<Seq<char>>::empty().filter(pred).len() == 0);
    if here == seq![concat_msg()] || here == seq![eval_msg()] {
        assert(here.drop_last() =~= Seq::<Seq<char>>::empty());
        assert(here.last() == here[0]);
        assert(here.filter(pred) == (if pred(here[0]) {
            here.drop_last().filter(pred).push(here[0])
        } else {
            here.drop_last().filter(pred)
        }));
        if here == seq![eval_msg()] {
            assert(here[0] == eval_msg());
            assert(!pred(here[0]));
            assert(here.filter(pred).len() == 0);
            assert(here != seq![concat_msg()]);
        } else {
            assert(here[0] == concat_msg());
            assert(pred(here[0]));
            assert(here.filter(pred).len() == 1);
        }
    }
}

/// A name with a declaration anywhere in the tree is never reported as
/// unresolved, however early it was referenced: forward references at the
/// flat top level resolve.
pub proof fn law_declared_never_unresolved(st: Analysis, name: Seq<char>)
    requires
        st.declared.contains(name),
    ensures
        !unresolved_of(st).contains(name),
{
    let pred = |candidate: Seq<char>| !st.declared.contains(candidate);
    if unresolved_of(st).contains(name) {
        let i = choose|i: int| 0 <= i < unresolved_of(st).len() && unresolved_of(st)[i] == name;
        st.referenced.lemma_filter_pred(pred, i);
    }
}

/// Declaring the same name a second time leaves the unresolved names as
/// they were: declaration tracking is idempotent.
pub proof fn law_redeclare_idempotent(st: Analysis, name: Seq<char>)
    ensures
        unresolved_of(crate::tracker::see_decl(crate::tracker::see_decl(st, name), name))
            == unresolved_of(crate::tracker::see_decl(st, name)),
{
    let once = crate::tracker::see_decl(st, name);
    let twice = crate::tracker::see_decl(once, name);
    assert forall|candidate: Seq<char>|
        #[trigger] twice.declared.contains(candidate) == once.declared.contains(candidate) by {
        lemma_contains_append(once.declared, seq![name], candidate);
        assert(once.declared.push(name) =~= once.declared + seq![name]);
        if candidate == name {
            assert(once.declared[once.declared.len() - 1] == name);
        }
    }
    lemma_filter_equivalent(
        twice.referenced,
        |candidate: Seq<char>| !twice.declared.contains(candidate),
        |candidate: Seq<char>| !once.declared.contains(candidate),
    );
}

/// Filtering with pointwise-equal predicates keeps the same entries.
pub proof fn lemma_filter_equivalent<A>(s: Seq<A>, p: spec_fn(A) -> bool, q: spec_fn(A) -> bool)
    requires
        forall|x: A| #[trigger] p(x) == q(x),
    ensures
        s.filter(p) == s.filter(q),
    decreases s.len(),
{
    reveal(Seq::filter);
    if s.len() > 0 {
        lemma_filter_equivalent(s.drop_last(), p, q);
    }
}

/// A walk in which every identifier's name is already declared at the moment
/// it is visited.
pub open spec fn uses_predeclared(n: Node, st: Analysis) -> bool
    decreases n,
{
    match n {
        Node::Ident(name) => st.declared.contains(name@),
        Node::StrLit(_) => true,
        Node::Bin { op, left, right } => {
            let checked = if is_lit_concat(op, *left, *right) {
                crate::tracker::add_error(st, concat_msg())
            } else {
                st
            };
            uses_predeclared(*left, checked) && uses_predeclared(*right, walk_node(*left, checked))
        },
        Node::Call { callee, args } => {
            let checked = if is_eval_call(callee) {
                crate::tracker::add_error(st, eval_msg())
            } else {
                st
            };
            list_uses_predeclared(args@, checked)
        },
        Node::Declare { name, init } => {
            let registered = match name {
                Option::Some(target) => crate::tracker::see_decl(st, target@),
                Option::None => st,
            };
            match init {
                Option::Some(value) => uses_predeclared(*value, registered),
                Option::None => true,
            }
        },
        Node::Group(children) => list_uses_predeclared(children@, st),
    }
}

/// The list form of `uses_predeclared`.
pub open spec fn list_uses_predeclared(s: Seq<Node>, st: Analysis) -> bool
    decreases s,
{
    if s.len() == 0 {
        true
    } else {
        list_uses_predeclared(s.drop_last(), st) && uses_predeclared(
            s.last(),
            walk_nodes(s.drop_last(), st),
        )
    }
}

/// When every identifier is declared before use in traversal order, the walk
/// records no reference at all.
pub proof fn lemma_predeclared_no_reference(n: Node, st: Analysis)
    requires
        uses_predeclared(n, st),
    ensures
        walk_node(n, st).referenced == st.referenced,
    decreases n,
{
    match n {
        Node::Ident(_) => {},
        Node::StrLit(_) => {},
        Node::Bin { op, left, right } => {
            let checked = if is_lit_concat(op, *left, *right) {
                crate::tracker::add_error(st, concat_msg())
            } else {
                st
            };
            lemma_predeclared_no_reference(*left, checked);
            lemma_predeclared_no_reference(*right, walk_node(*left, checked));
        },
        Node::Call { callee, args } => {
            let checked = if is_eval_call(callee) {
                crate::tracker::add_error(st, eval_msg())
            } else {
                st
            };
            lemma_list_predeclared_no_reference(args@, checked);
        },
        Node::Declare { name, init } => {
            let registered = match name {
                Option::Some(target) => crate::tracker::see_decl(st, target@),
                Option::None => st,
            };
            match init {
                Option::Some(value) => {
                    lemma_predeclared_no_reference(*value, registered);
                },
                Option::None => {},
            }
        },
        Node::Group(children) => {
            lemma_list_predeclared_no_reference(children@, st);
        },
    }
}

/// The list form of `lemma_predeclared_no_reference`.
pub proof fn lemma_list_predeclared_no_reference(s: Seq<Node>, st: Analysis)
    requires
        list_uses_predeclared(s, st),
    ensures
        walk_nodes(s, st).referenced == st.referenced,
    decreases s,
{
    if s.len() > 0 {
        lemma_list_predeclared_no_reference(s.drop_last(), st);
        lemma_predeclared_no_reference(s.last(), walk_nodes(s.drop_last(), st));
    }
}

/// When every identifier is declared before use in traversal order, the
/// unresolved-name report of a whole run is empty.
pub proof fn law_predeclared_all_resolved(n: Node)
    requires
        uses_predeclared(n, empty_analysis()),
    ensures
        unresolved_of(walk_node(n, empty_analysis())) == Seq::<Seq<char>>::empty(),
{
    reveal(Seq::filter);
    lemma_predeclared_no_reference(n, empty_analysis());
    assert(walk_node(n, empty_analysis()).referenced =~= Seq::<Seq<char>>::empty());
}

} // verus!
