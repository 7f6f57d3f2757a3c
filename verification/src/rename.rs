//! The rename transform: every declared name is given a fresh generated
//! name, and the whole tree is rewritten and reserialized through the
//! underlying rename machinery.
//!
//! The map from original to generated names is built and checked here: one
//! entry per distinct declared name, generated names pairwise distinct and
//! colliding with no tracked name of the program.
use vstd::prelude::*;
use vstd::string::StringExecFns;
use crate::laws::lemma_contains_append;
use crate::tracker::{holds_name, names_of};

verus! {

/// The character sequences of a list of string pairs.
pub open spec fn pair_views(s: Seq<(String, String)>) -> Seq<(Seq<char>, Seq<char>)> {
    s.map_values(|p: (String, String)| (p.0@, p.1@))
}

/// What the rename map promises, relative to the declared names and a
/// further list of names to stay clear of:
/// every entry's source is a declared name and every declared name is some
/// entry's source, no source repeats, no two entries share a generated name,
/// and no generated name collides with a declared or avoided name.
pub open spec fn rename_map_ok(
    pairs: Seq<(Seq<char>, Seq<char>)>,
    declared: Seq<Seq<char>>,
    avoid: Seq<Seq<char>>,
) -> bool {
    &&& forall|k: int|
        0 <= k < pairs.len() ==> declared.contains(#[trigger] pairs[k].0)
    &&& forall|name: Seq<char>|
        #[trigger] declared.contains(name) ==> exists|k: int|
            0 <= k < pairs.len() && pairs[k].0 == name
    &&& forall|k1: int, k2: int|
        0 <= k1 < k2 < pairs.len() ==> (#[trigger] pairs[k1].0) != (#[trigger] pairs[k2].0)
    &&& forall|k1: int, k2: int|
        0 <= k1 < k2 < pairs.len() ==> (#[trigger] pairs[k1].1) != (#[trigger] pairs[k2].1)
    &&& forall|k: int|
        0 <= k < pairs.len() ==> !declared.contains(#[trigger] pairs[k].1) && !avoid.contains(
            pairs[k].1,
        )
}

/// The longest length among a list of names.
pub open spec fn max_name_len(s: Seq<Seq<char>>) -> nat
    decreases s.len(),
{
    if s.len() == 0 {
        0
    } else if s.last().len() > max_name_len(s.drop_last()) {
        s.last().len()
    } else {
        max_name_len(s.drop_last())
    }
}

/// A name in the list is no longer than the longest.
proof fn lemma_contains_le_max(s: Seq<Seq<char>>, x: Seq<char>)
    requires
        s.contains(x),
    ensures
        x.len() <= max_name_len(s),
    decreases s.len(),
{
    if s.last() == x {
    } else {
        let i = choose|i: int| 0 <= i < s.len() && s[i] == x;
        assert(s.drop_last()[i] == x);
        lemma_contains_le_max(s.drop_last(), x);
    }
}

/// Whether `name` is already the source of some entry.
fn source_present(pairs: &Vec<(String, String)>, name: &String) -> (r: bool)
    ensures
        r == exists|k: int|
            0 <= k < pairs@.len() && pair_views(pairs@)[k].0 == name@,
{
    let mut i: usize = 0;
    while i < pairs.len()
        invariant
            0 <= i <= pairs@.len(),
            forall|k: int| 0 <= k < i ==> pair_views(pairs@)[k].0 != name@,
        decreases pairs@.len() - i,
    {
        if pairs[i].0.eq(name) {
            assert(pair_views(pairs@)[i as int].0 == name@);
            return true;
        }
        i = i + 1;
    }
    false
}

/// Builds the rename map: one fresh generated name per distinct declared
/// name, in first-occurrence order. Generated names are runs of `x` behind
/// an underscore, grown until they collide with nothing declared or avoided
/// and with no earlier generated name.
pub fn make_rename_map(declared: &Vec<String>, avoid: &Vec<String>) -> (r: Vec<
    (String, String),
>)
    ensures
        rename_map_ok(pair_views(r@), names_of(declared@), names_of(avoid@)),
{
    let ghost dnames = names_of(declared@);
    let ghost anames = names_of(avoid@);
    let mut out: Vec<(String, String)> = Vec::new();
    let mut cur = String::from_str("_");
    let mut i: usize = 0;
    while i < declared.len()
        invariant
            0 <= i <= declared@.len(),
            dnames == names_of(declared@),
            anames == names_of(avoid@),
            forall|k: int|
                0 <= k < out@.len() ==> dnames.contains(#[trigger] pair_views(out@)[k].0),
            forall|name: Seq<char>|
                #[trigger] dnames.subrange(0, i as int).contains(name) ==> exists|k: int|
                    0 <= k < out@.len() && pair_views(out@)[k].0 == name,
            forall|k1: int, k2: int|
                0 <= k1 < k2 < out@.len() ==> (#[trigger] pair_views(out@)[k1].0) != (
                #[trigger] pair_views(out@)[k2].0),
            forall|k1: int, k2: int|
                0 <= k1 < k2 < out@.len() ==> (#[trigger] pair_views(out@)[k1].1).len() < (
                #[trigger] pair_views(out@)[k2].1).len(),
            forall|k: int|
                0 <= k < out@.len() ==> (#[trigger] pair_views(out@)[k].1).len() <= cur@.len(),
            forall|k: int|
                0 <= k < out@.len() ==> !dnames.contains(#[trigger] pair_views(out@)[k].1)
                    && !anames.contains(pair_views(out@)[k].1),
        decreases declared@.len() - i,
    {
        let ghost sofar = dnames.subrange(0, i as int);
        let ghost next = dnames.subrange(0, i as int + 1);
        proof {
            assert(next =~= sofar.push(dnames[i as int]));
            assert(dnames[i as int] == declared@[i as int]@);
        }
        let name = &declared[i];
        if !source_present(&out, name) {
            grow_fresh(&mut cur, declared, avoid);
            proof {
                assert(forall|k: int|
                    0 <= k < out@.len() ==> (#[trigger] pair_views(out@)[k].1).len()
                        < cur@.len());
            }
            let ghost before = out@;
            let new_source = name.clone();
            let new_target = cur.clone();
            let ghost pushed = (new_source, new_target);
            out.push((new_source, new_target));
            proof {
                before.lemma_push_map_commute(|p: (String, String)| (p.0@, p.1@), pushed);
                assert(pair_views(out@) =~= pair_views(before).push((name@, cur@)));
                assert(pair_views(out@)[out@.len() - 1].0 == name@);
                assert(dnames.contains(name@)) by {
                    assert(dnames[i as int] == name@);
                }
                assert(forall|nm: Seq<char>| #[trigger] next.contains(nm) ==> exists|k: int|
                    0 <= k < out@.len() && pair_views(out@)[k].0 == nm) by {
                    assert forall|nm: Seq<char>| #[trigger] next.contains(nm) implies exists|
                        k: int,
                    | 0 <= k < out@.len() && pair_views(out@)[k].0 == nm by {
                        lemma_contains_append(sofar, seq![dnames[i as int]], nm);
                        assert(next =~= sofar + seq![dnames[i as int]]);
                        if sofar.contains(nm) {
                            let k = choose|k: int|
                                0 <= k < before.len() && pair_views(before)[k].0 == nm;
                            assert(pair_views(out@)[k].0 == nm);
                        } else {
                            assert(seq![dnames[i as int]][0] == nm);
                            assert(pair_views(out@)[out@.len() - 1].0 == nm);
                        }
                    }
                }
            }
        } else {
            proof {
                assert forall|nm: Seq<char>| #[trigger] next.contains(nm) implies exists|k: int|
                    0 <= k < out@.len() && pair_views(out@)[k].0 == nm by {
                    lemma_contains_append(sofar, seq![dnames[i as int]], nm);
                    assert(next =~= sofar + seq![dnames[i as int]]);
                    if !sofar.contains(nm) {
                        assert(seq![dnames[i as int]][0] == nm);
                        assert(nm == name@);
                    }
                }
            }
        }
        i = i + 1;
    }
    proof {
        assert(dnames.subrange(0, declared@.len() as int) =~= dnames);
        assert(forall|k1: int, k2: int|
            0 <= k1 < k2 < out@.len() ==> (#[trigger] pair_views(out@)[k1].1) != (
            #[trigger] pair_views(out@)[k2].1));
    }
    out
}

/// Lengthens `cur` by at least one `x`, until it collides with nothing in
/// either list. Every string shorter than the result's final length was
/// outgrown for good.
fn grow_fresh(cur: &mut String, declared: &Vec<String>, avoid: &Vec<String>)
    ensures
        old(cur)@.len() < final(cur)@.len(),
        !names_of(declared@).contains(final(cur)@),
        !names_of(avoid@).contains(final(cur)@),
{
    proof {
        reveal_strlit("x");
    }
    let ghost bound = max_name_len(names_of(declared@)) + max_name_len(names_of(avoid@));
    cur.append("x");
    while holds_name(declared, cur) || holds_name(avoid, cur)
        invariant
            old(cur)@.len() < cur@.len(),
            bound == max_name_len(names_of(declared@)) + max_name_len(names_of(avoid@)),
        decreases bound + 2 - cur@.len(),
    {
        proof {
            reveal_strlit("x");
            if names_of(declared@).contains(cur@) {
                lemma_contains_le_max(names_of(declared@), cur@);
            } else {
                lemma_contains_le_max(names_of(avoid@), cur@);
            }
        }
        cur.append("x");
    }
}

} // verus!
