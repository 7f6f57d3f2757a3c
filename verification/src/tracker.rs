//! Diagnostic accumulator and flat-scope identifier resolution tracker.
//!
//! Findings and names accumulate in discovery order. Declared and referenced
//! names form two flat, whole-program lists: membership is checked at the
//! moment of visiting, and the unresolved names are decided
//! only at the end of the traversal.
use vstd::prelude::*;
use vstd::string::StringExecFns;

verus! {

/// The character sequences of a list of strings.
pub open spec fn names_of(v: Seq<String>) -> Seq<Seq<char>> {
    v.map_values(|s: String| s@)
}

/// Model of the accumulator: findings, referenced names and declared names,
/// each in discovery order.
pub struct Analysis {
    pub errors: Seq<Seq<char>>,
    pub referenced: Seq<Seq<char>>,
    pub declared: Seq<Seq<char>>,
}

/// The state every run starts from: nothing seen yet.
pub open spec fn empty_analysis() -> Analysis {
    Analysis { errors: Seq::empty(), referenced: Seq::empty(), declared: Seq::empty() }
}

/// Effect of seeing an identifier reference: recorded once, and only while
/// the name has no declaration seen so far.
pub open spec fn see_ident(st: Analysis, name: Seq<char>) -> Analysis {
    if st.declared.contains(name) || st.referenced.contains(name) {
        st
    } else {
        Analysis { referenced: st.referenced.push(name), ..st }
    }
}

/// Effect of seeing a declaration target: appended unconditionally, repeats
/// and all.
pub open spec fn see_decl(st: Analysis, name: Seq<char>) -> Analysis {
    Analysis { declared: st.declared.push(name), ..st }
}

/// Effect of a pattern rule firing: the finding is appended.
pub open spec fn add_error(st: Analysis, msg: Seq<char>) -> Analysis {
    Analysis { errors: st.errors.push(msg), ..st }
}

/// The names reported as unresolved once the traversal is over: referenced
/// names with no declaration anywhere in the tree, in first-occurrence order.
pub open spec fn unresolved_of(st: Analysis) -> Seq<Seq<char>> {
    st.referenced.filter(|name: Seq<char>| !st.declared.contains(name))
}

/// Accumulator for one run: pattern findings, names referenced before or
/// without a declaration, and declaration targets, each in discovery order.
pub struct Analyzer {
    pub errors: Vec<String>,
    pub undefined_vars: Vec<String>,
    pub declared_vars: Vec<String>,
}

impl View for Analyzer {
    type V = Analysis;

    open spec fn view(&self) -> Analysis {
        Analysis {
            errors: names_of(self.errors@),
            referenced: names_of(self.undefined_vars@),
            declared: names_of(self.declared_vars@),
        }
    }
}

/// Whether some string in `v` spells `name`.
pub(crate) fn holds_name(v: &Vec<String>, name: &String) -> (r: bool)
    ensures
        r == names_of(v@).contains(name@),
{
    let mut i: usize = 0;
    while i < v.len()
        invariant
            0 <= i <= v@.len(),
            forall|j: int| 0 <= j < i ==> names_of(v@)[j] != name@,
        decreases v@.len() - i,
    {
        if v[i].eq(name) {
            assert(names_of(v@)[i as int] == name@);
            return true;
        }
        i = i + 1;
    }
    assert(forall|j: int| 0 <= j < names_of(v@).len() ==> names_of(v@)[j] != name@);
    false
}

impl Analyzer {
    /// A fresh accumulator with nothing seen yet.
    pub fn new() -> (a: Analyzer)
        ensures
            a@ == empty_analysis(),
    {
        let a = Analyzer { errors: Vec::new(), undefined_vars: Vec::new(), declared_vars: Vec::new() };
        proof {
            assert(a@.errors =~= empty_analysis().errors);
            assert(a@.referenced =~= empty_analysis().referenced);
            assert(a@.declared =~= empty_analysis().declared);
            assert(a@ =~= empty_analysis());
        }
        a
    }

    /// Records an identifier reference, unless its name is already declared
    /// or already recorded.
    pub fn observe_identifier(&mut self, name: &String)
        ensures
            final(self)@ == see_ident(old(self)@, name@),
    {
        if !holds_name(&self.declared_vars, name) && !holds_name(&self.undefined_vars, name) {
            let ghost before = self.undefined_vars@;
            self.undefined_vars.push(name.clone());
            proof {
                before.lemma_push_map_commute(|s: String| s@, *name);
                assert(names_of(self.undefined_vars@) =~= names_of(before).push(name@));
                assert(self@ =~= see_ident(old(self)@, name@));
            }
        } else {
            proof {
                assert(self@ =~= see_ident(old(self)@, name@));
            }
        }
    }

    /// Records a declaration target, unconditionally.
    pub fn observe_declaration(&mut self, name: &String)
        ensures
            final(self)@ == see_decl(old(self)@, name@),
    {
        let ghost before = self.declared_vars@;
        self.declared_vars.push(name.clone());
        proof {
            before.lemma_push_map_commute(|s: String| s@, *name);
            assert(names_of(self.declared_vars@) =~= names_of(before).push(name@));
            assert(self@ =~= see_decl(old(self)@, name@));
        }
    }

    /// Records one pattern finding.
    pub fn add_finding(&mut self, msg: String)
        ensures
            final(self)@ == add_error(old(self)@, msg@),
    {
        let ghost before = self.errors@;
        self.errors.push(msg);
        proof {
            before.lemma_push_map_commute(|s: String| s@, msg);
            assert(names_of(self.errors@) =~= names_of(before).push(msg@));
            assert(self@ =~= add_error(old(self)@, msg@));
        }
    }

    /// At the end of the traversal: every referenced name still absent from
    /// the declared names, in first-occurrence order.
    pub fn unresolved_names(&self) -> (r: Vec<String>)
        ensures
            names_of(r@) == unresolved_of(self@),
    {
        let mut r: Vec<String> = Vec::new();
        let ghost pred = |name: Seq<char>| !self@.declared.contains(name);
        let mut i: usize = 0;
        while i < self.undefined_vars.len()
            invariant
                0 <= i <= self.undefined_vars@.len(),
                pred == (|name: Seq<char>| !self@.declared.contains(name)),
                names_of(r@) == self@.referenced.subrange(0, i as int).filter(pred),
            decreases self.undefined_vars@.len() - i,
        {
            let ghost prefix = self@.referenced.subrange(0, i as int);
            let ghost next = self@.referenced.subrange(0, i as int + 1);
            proof {
                reveal(Seq::filter);
                assert(next.drop_last() =~= prefix);
                assert(next.last() == self@.referenced[i as int]);
            }
            let var = &self.undefined_vars[i];
            if !holds_name(&self.declared_vars, var) {
                let ghost before = r@;
                r.push(var.clone());
                proof {
                    reveal(Seq::filter);
                    before.lemma_push_map_commute(|s: String| s@, *var);
                    assert(names_of(r@) =~= names_of(before).push(var@));
                    assert(names_of(r@) == next.filter(pred));
                }
            } else {
                proof {
                    reveal(Seq::filter);
                    assert(names_of(r@) == next.filter(pred));
                }
            }
            i = i + 1;
        }
        proof {
            assert(self@.referenced.subrange(0, self.undefined_vars@.len() as int)
                =~= self@.referenced);
        }
        r
    }
}

} // verus!
