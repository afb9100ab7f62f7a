use vstd::prelude::*;

use crate::dialog::{
    clone_id_vec, contains_id, deref_phylums, diff_absent, phylum_ids, phylum_vars, unique_seq,
    Phylum, PhylumDiff,
};
use crate::errors::CoherenceError;
use crate::ids::Id;
use crate::seq_facts::{
    lemma_cons_contains, lemma_cons_unique, lemma_push_contains, lemma_push_unique,
};
use crate::variables::{var_id_of, VariableStore};

verus! {

/// One entry of the reverse index: the branch-node ids that reference the
/// variable through some condition's requirement tree.
#[derive(Debug, Clone, PartialEq)]
pub struct VarEntry {
    pub var_id: Id,
    pub phylum_ids: Vec<Id>,
}

/// The reverse index from variables to the branch nodes that reference
/// them, for the currently persisted version of every dialogue of a
/// project.  It is maintained incrementally by applying structural diffs,
/// not recomputed by full scans.
#[derive(Debug, Clone, PartialEq)]
pub struct VarToPhylum {
    pub data: Vec<VarEntry>,
}

impl View for VarToPhylum {
    type V = Seq<(Id, Seq<Id>)>;

    open spec fn view(&self) -> Seq<(Id, Seq<Id>)> {
        self.data@.map_values(|e: VarEntry| (e.var_id, e.phylum_ids@))
    }
}

// ---------------------------------------------------------------------------
// The mathematical index and diff application
// ---------------------------------------------------------------------------

/// The branch ids recorded for a variable: the list of its first entry, or
/// empty where no entry exists.
pub open spec fn refs_of(m: Seq<(Id, Seq<Id>)>, v: Id) -> Seq<Id>
    decreases m.len(),
{
    if m.len() == 0 {
        Seq::empty()
    } else if m[0].0 == v {
        m[0].1
    } else {
        refs_of(m.drop_first(), v)
    }
}

/// The index records branch `x` for variable `v`.
pub open spec fn has_ref(m: Seq<(Id, Seq<Id>)>, v: Id, x: Id) -> bool {
    refs_of(m, v).contains(x)
}

/// The variable ids the index has entries for, in index order: the known
/// variables a graph may reference.
pub open spec fn index_keys(m: Seq<(Id, Seq<Id>)>) -> Seq<Id> {
    m.map_values(|e: (Id, Seq<Id>)| e.0)
}

/// The index has an entry (possibly empty) for the variable.
pub open spec fn has_key(m: Seq<(Id, Seq<Id>)>, v: Id) -> bool {
    exists|i: int| 0 <= i < m.len() && (#[trigger] m[i]).0 == v
}

/// Well-formedness of the index: one entry per variable, and no branch id
/// recorded twice for the same variable.
pub open spec fn index_wf(m: Seq<(Id, Seq<Id>)>) -> bool {
    &&& unique_seq(index_keys(m))
    &&& forall|i: int| 0 <= i < m.len() ==> unique_seq((#[trigger] m[i]).1)
}

/// A branch list with every occurrence of the given branch id removed.
pub open spec fn remove_id(l: Seq<Id>, x: Id) -> Seq<Id>
    decreases l.len(),
{
    if l.len() == 0 {
        Seq::empty()
    } else if l[0] == x {
        remove_id(l.drop_first(), x)
    } else {
        seq![l[0]] + remove_id(l.drop_first(), x)
    }
}

/// Removing one branch node: its id disappears from the entry of every
/// variable the branch referenced; entries of other variables are
/// untouched.  Removing an id that is already absent changes nothing.
pub open spec fn apply_removal(m: Seq<(Id, Seq<Id>)>, pid: Id, vars: Seq<Id>) -> Seq<(Id, Seq<Id>)>
    decreases m.len(),
{
    if m.len() == 0 {
        Seq::empty()
    } else {
        let e0 = if vars.contains(m[0].0) {
            (m[0].0, remove_id(m[0].1, pid))
        } else {
            m[0]
        };
        seq![e0] + apply_removal(m.drop_first(), pid, vars)
    }
}

pub open spec fn apply_removals(m: Seq<(Id, Seq<Id>)>, ps: Seq<Phylum>) -> Seq<(Id, Seq<Id>)>
    decreases ps.len(),
{
    if ps.len() == 0 {
        m
    } else {
        apply_removals(apply_removal(m, ps[0].id, phylum_vars(ps[0])), ps.drop_first())
    }
}

/// Recording one reference: the branch id is appended to the variable's
/// entry unless already present; a missing entry is created at the end.
pub open spec fn add_ref(m: Seq<(Id, Seq<Id>)>, v: Id, pid: Id) -> Seq<(Id, Seq<Id>)>
    decreases m.len(),
{
    if m.len() == 0 {
        seq![(v, seq![pid])]
    } else if m[0].0 == v {
        if m[0].1.contains(pid) {
            m
        } else {
            seq![(m[0].0, m[0].1.push(pid))] + m.drop_first()
        }
    } else {
        seq![m[0]] + add_ref(m.drop_first(), v, pid)
    }
}

pub open spec fn add_refs(m: Seq<(Id, Seq<Id>)>, vars: Seq<Id>, pid: Id) -> Seq<(Id, Seq<Id>)>
    decreases vars.len(),
{
    if vars.len() == 0 {
        m
    } else {
        add_refs(add_ref(m, vars[0], pid), vars.drop_first(), pid)
    }
}

pub open spec fn apply_additions(m: Seq<(Id, Seq<Id>)>, ps: Seq<Phylum>) -> Seq<(Id, Seq<Id>)>
    decreases ps.len(),
{
    if ps.len() == 0 {
        m
    } else {
        apply_additions(add_refs(m, phylum_vars(ps[0]), ps[0].id), ps.drop_first())
    }
}

/// Applying a structural diff: first every deleted branch node's references
/// are removed, then every added branch node's references are recorded.
pub open spec fn apply_diff(
    m: Seq<(Id, Seq<Id>)>,
    deleted: Seq<Phylum>,
    added: Seq<Phylum>,
) -> Seq<(Id, Seq<Id>)> {
    apply_additions(apply_removals(m, deleted), added)
}

/// The entries a variable-store fold adds to the index: a fresh empty entry
/// for every stored variable that has none yet.
pub open spec fn spec_fill(m: Seq<(Id, Seq<Id>)>, vs: Seq<crate::variables::Variable>) -> Seq<
    (Id, Seq<Id>),
>
    decreases vs.len(),
{
    if vs.len() == 0 {
        m
    } else {
        let m1 = if has_key(m, var_id_of(vs[0])) {
            m
        } else {
            m.push((var_id_of(vs[0]), Seq::empty()))
        };
        spec_fill(m1, vs.drop_first())
    }
}

// ---------------------------------------------------------------------------
// Executable index maintenance
// ---------------------------------------------------------------------------

/// Builds the branch list with every occurrence of `x` removed.
fn removed_copy(l: &Vec<Id>, x: Id) -> (r: Vec<Id>)
    ensures
        r@ == remove_id(l@, x),
{
    proof {
        assert(l@.skip(0) =~= l@);
    }
    let mut out: Vec<Id> = Vec::new();
    let mut i: usize = 0;
    while i < l.len()
        invariant
            i <= l.len(),
            remove_id(l@, x) =~= out@ + remove_id(l@.skip(i as int), x),
        decreases l.len() - i,
    {
        proof {
            assert(l@.skip(i as int)[0] == l@[i as int]);
            assert(l@.skip(i as int).drop_first() =~= l@.skip(i + 1));
        }
        if l[i] != x {
            out.push(l[i]);
            proof {
                assert(out@ + remove_id(l@.skip(i + 1), x) =~= out@.drop_last() + (seq![
                    l@[i as int],
                ] + remove_id(l@.skip(i + 1), x)));
            }
        }
        i = i + 1;
    }
    proof {
        assert(l@.skip(l@.len() as int) =~= Seq::<Id>::empty());
        assert(remove_id(l@, x) =~= out@);
    }
    out
}

impl VarToPhylum {
    pub fn new() -> (r: Self)
        ensures
            r@ == Seq::<(Id, Seq<Id>)>::empty(),
            index_wf(r@),
    {
        let r = VarToPhylum { data: Vec::new() };
        proof {
            assert(r@ =~= Seq::<(Id, Seq<Id>)>::empty());
        }
        r
    }

    /// Whether the index has an entry for the variable.
    fn has_var(&self, v: Id) -> (b: bool)
        ensures
            b == has_key(self@, v),
    {
        let mut i: usize = 0;
        while i < self.data.len()
            invariant
                i <= self.data.len(),
                forall|j: int| 0 <= j < i ==> (#[trigger] self@[j]).0 != v,
            decreases self.data.len() - i,
        {
            if self.data[i].var_id == v {
                proof {
                    assert(self@[i as int].0 == v);
                }
                return true;
            }
            i = i + 1;
        }
        false
    }

    /// Removes one deleted branch node's contribution: its id is dropped
    /// from the entry of every variable it referenced.
    fn remove_phylum_refs(&mut self, pid: Id, vars: &Vec<Id>)
        ensures
            final(self)@ == apply_removal(old(self)@, pid, vars@),
    {
        let mut j: usize = 0;
        while j < self.data.len()
            invariant
                j <= self.data.len(),
                self.data@.len() == old(self).data@.len(),
                forall|k: int| j <= k < self.data@.len() ==> self.data@[k] == old(self).data@[k],
                forall|k: int|
                    0 <= k < j ==> #[trigger] self@[k] == (if vars@.contains(old(self)@[k].0) {
                        (old(self)@[k].0, remove_id(old(self)@[k].1, pid))
                    } else {
                        old(self)@[k]
                    }),
            decreases self.data.len() - j,
        {
            let ghost prev_view = self@;
            let ghost prev_data = self.data@;
            let vid = self.data[j].var_id;
            if contains_id(vars, vid) {
                let nl = removed_copy(&self.data[j].phylum_ids, pid);
                self.data[j] = VarEntry { var_id: vid, phylum_ids: nl };
            }
            proof {
                assert forall|k: int| 0 <= k < j implies #[trigger] self@[k] == prev_view[k] by {
                    assert(self.data@[k] == prev_data[k]);
                }
                assert forall|k: int|
                    j < k < self.data@.len() implies self.data@[k] == prev_data[k] by {}
                assert(self@[j as int] == (if vars@.contains(old(self)@[j as int].0) {
                    (old(self)@[j as int].0, remove_id(old(self)@[j as int].1, pid))
                } else {
                    old(self)@[j as int]
                }));
            }
            j = j + 1;
        }
        proof {
            lemma_apply_removal_index(old(self)@, pid, vars@);
            assert(self@ =~= apply_removal(old(self)@, pid, vars@));
        }
    }

    /// Records one added branch node's references: its id is appended to the
    /// entry of each variable it references, unless already present.
    fn add_phylum_ref(&mut self, v: Id, pid: Id)
        ensures
            final(self)@ == add_ref(old(self)@, v, pid),
    {
        proof {
            assert(self@.skip(0) =~= self@);
            assert(self@.take(0) =~= Seq::<(Id, Seq<Id>)>::empty());
        }
        let mut j: usize = 0;
        while j < self.data.len()
            invariant
                j <= self.data.len(),
                *self == *old(self),
                forall|k: int| 0 <= k < j ==> (#[trigger] self@[k]).0 != v,
                add_ref(old(self)@, v, pid) =~= old(self)@.take(j as int) + add_ref(
                    old(self)@.skip(j as int),
                    v,
                    pid,
                ),
            decreases self.data.len() - j,
        {
            proof {
                assert(self@.skip(j as int)[0] == self@[j as int]);
                assert(self@.skip(j as int).drop_first() =~= self@.skip(j + 1));
            }
            if self.data[j].var_id == v {
                if contains_id(&self.data[j].phylum_ids, pid) {
                    proof {
                        assert(add_ref(old(self)@.skip(j as int), v, pid) =~= old(self)@.skip(
                            j as int,
                        ));
                        assert(old(self)@.take(j as int) + old(self)@.skip(j as int) =~= old(
                            self,
                        )@);
                        assert(add_ref(old(self)@, v, pid) =~= self@);
                    }
                    return;
                }
                let mut nl = clone_id_vec(&self.data[j].phylum_ids);
                nl.push(pid);
                self.data[j] = VarEntry { var_id: v, phylum_ids: nl };
                proof {
                    assert(self@ =~= old(self)@.update(
                        j as int,
                        (v, old(self)@[j as int].1.push(pid)),
                    ));
                    assert(add_ref(old(self)@.skip(j as int), v, pid) =~= seq![
                        (v, old(self)@[j as int].1.push(pid)),
                    ] + old(self)@.skip(j + 1));
                    assert(self@ =~= old(self)@.take(j as int) + (seq![
                        (v, old(self)@[j as int].1.push(pid)),
                    ] + old(self)@.skip(j + 1)));
                    assert(self@ =~= add_ref(old(self)@, v, pid));
                }
                return;
            }
            proof {
                assert(add_ref(old(self)@.skip(j as int), v, pid) =~= seq![
                    old(self)@[j as int],
                ] + add_ref(old(self)@.skip(j + 1), v, pid));
                assert(old(self)@.take(j as int) + seq![old(self)@[j as int]] =~= old(
                    self,
                )@.take(j + 1));
                assert(old(self)@.take(j as int) + (seq![old(self)@[j as int]] + add_ref(
                    old(self)@.skip(j + 1),
                    v,
                    pid,
                )) =~= old(self)@.take(j + 1) + add_ref(old(self)@.skip(j + 1), v, pid));
            }
            j = j + 1;
        }
        self.data.push(VarEntry { var_id: v, phylum_ids: single_id_vec(pid) });
        proof {
            assert(old(self)@.skip(old(self)@.len() as int) =~= Seq::<(Id, Seq<Id>)>::empty());
            assert(old(self)@.take(old(self)@.len() as int) =~= old(self)@);
            assert(self@ =~= old(self)@.push((v, seq![pid])));
            assert(old(self)@ + seq![(v, seq![pid])] =~= old(self)@.push((v, seq![pid])));
            assert(self@ =~= add_ref(old(self)@, v, pid));
        }
    }

    fn add_phylum_refs(&mut self, vars: &Vec<Id>, pid: Id)
        ensures
            final(self)@ == add_refs(old(self)@, vars@, pid),
    {
        proof {
            assert(vars@.skip(0) =~= vars@);
        }
        let mut k: usize = 0;
        while k < vars.len()
            invariant
                k <= vars.len(),
                add_refs(old(self)@, vars@, pid) == add_refs(self@, vars@.skip(k as int), pid),
            decreases vars.len() - k,
        {
            proof {
                assert(vars@.skip(k as int)[0] == vars@[k as int]);
                assert(vars@.skip(k as int).drop_first() =~= vars@.skip(k + 1));
            }
            self.add_phylum_ref(vars[k], pid);
            k = k + 1;
        }
        proof {
            assert(vars@.skip(vars@.len() as int) =~= Seq::<Id>::empty());
        }
    }

    /// Applies a structural diff to the index: every deleted branch node's
    /// references are removed, then every added branch node's references
    /// are recorded (deduplicated).  Branch nodes that kept their id are not
    /// touched, even if their conditions changed in place.
    pub fn mutate_to_match_diffs(&mut self, diffs: PhylumDiff<'_>) -> (r: Result<
        (),
        CoherenceError,
    >)
        ensures
            r is Ok,
            final(self)@ == apply_diff(
                old(self)@,
                deref_phylums(diffs.deleted@),
                deref_phylums(diffs.added@),
            ),
            index_wf(old(self)@) ==> index_wf(final(self)@),
    {
        proof {
            if index_wf(self@) {
                lemma_apply_diff_wf(self@, deref_phylums(diffs.deleted@), deref_phylums(diffs.added@));
            }
        }
        proof {
            assert(deref_phylums(diffs.deleted@).skip(0) =~= deref_phylums(diffs.deleted@));
            assert(deref_phylums(diffs.added@).skip(0) =~= deref_phylums(diffs.added@));
        }
        let ghost dels = deref_phylums(diffs.deleted@);
        let ghost adds = deref_phylums(diffs.added@);
        let mut d: usize = 0;
        while d < diffs.deleted.len()
            invariant
                d <= diffs.deleted.len(),
                dels == deref_phylums(diffs.deleted@),
                adds == deref_phylums(diffs.added@),
                apply_removals(old(self)@, dels) == apply_removals(
                    self@,
                    dels.skip(d as int),
                ),
            decreases diffs.deleted.len() - d,
        {
            proof {
                assert(dels.skip(d as int)[0] == dels[d as int]);
                assert(dels[d as int] == *diffs.deleted@[d as int]);
                assert(dels.skip(d as int).drop_first() =~= dels.skip(d + 1));
            }
            let deleted: &Phylum = diffs.deleted[d];
            let phylum_id = *deleted.get_id();
            let vars = deleted.get_variables();
            self.remove_phylum_refs(phylum_id, &vars);
            d = d + 1;
        }
        proof {
            assert(dels.skip(dels.len() as int) =~= Seq::<Phylum>::empty());
        }

        let mut a: usize = 0;
        while a < diffs.added.len()
            invariant
                a <= diffs.added.len(),
                adds == deref_phylums(diffs.added@),
                apply_diff(old(self)@, dels, adds) == apply_additions(
                    self@,
                    adds.skip(a as int),
                ),
            decreases diffs.added.len() - a,
        {
            proof {
                assert(adds.skip(a as int)[0] == adds[a as int]);
                assert(adds[a as int] == *diffs.added@[a as int]);
                assert(adds.skip(a as int).drop_first() =~= adds.skip(a + 1));
            }
            let added: &Phylum = diffs.added[a];
            let phylum_id = *added.get_id();
            let vars = added.get_variables();
            self.add_phylum_refs(&vars, phylum_id);
            a = a + 1;
        }
        proof {
            assert(adds.skip(adds.len() as int) =~= Seq::<Phylum>::empty());
        }
        Ok(())
    }

    /// The deletion guard: a variable may be deleted exactly when no branch
    /// node references it any more — its entry is empty or absent.  On
    /// failure the error carries the branch ids still referencing it.
    pub fn enforce_free_existing_var(&self, id: &Id) -> (r: Result<(), CoherenceError>)
        ensures
            r is Ok <==> refs_of(self@, *id).len() == 0,
            r matches Err(e) ==> (e matches CoherenceError::InUse {
                variable_id,
                referencing_branches,
            } && variable_id == *id && referencing_branches@ == refs_of(self@, *id) && refs_of(
                self@,
                *id,
            ).len() > 0),
    {
        proof {
            assert(self@.skip(0) =~= self@);
        }
        let mut j: usize = 0;
        while j < self.data.len()
            invariant
                j <= self.data.len(),
                refs_of(self@, *id) == refs_of(self@.skip(j as int), *id),
            decreases self.data.len() - j,
        {
            proof {
                assert(self@.skip(j as int)[0] == self@[j as int]);
                assert(self@.skip(j as int).drop_first() =~= self@.skip(j + 1));
            }
            if self.data[j].var_id == *id {
                if self.data[j].phylum_ids.len() == 0 {
                    return Ok(());
                }
                return Err(
                    CoherenceError::InUse {
                        variable_id: *id,
                        referencing_branches: clone_id_vec(&self.data[j].phylum_ids),
                    },
                );
            }
            j = j + 1;
        }
        proof {
            assert(self@.skip(self@.len() as int) =~= Seq::<(Id, Seq<Id>)>::empty());
        }
        Ok(())
    }

    /// Gives every variable of the store an index entry, creating empty
    /// entries for variables that have none; existing entries are kept.
    pub fn fill_non_existing_keys(&mut self, vars: VariableStore)
        ensures
            final(self)@ == spec_fill(old(self)@, vars.data@),
            index_wf(old(self)@) ==> index_wf(final(self)@),
    {
        proof {
            assert(vars.data@.skip(0) =~= vars.data@);
            if index_wf(self@) {
                lemma_spec_fill_wf(self@, vars.data@);
            }
        }
        let mut k: usize = 0;
        while k < vars.data.len()
            invariant
                k <= vars.data.len(),
                spec_fill(old(self)@, vars.data@) == spec_fill(self@, vars.data@.skip(k as int)),
            decreases vars.data.len() - k,
        {
            proof {
                assert(vars.data@.skip(k as int)[0] == vars.data@[k as int]);
                assert(vars.data@.skip(k as int).drop_first() =~= vars.data@.skip(k + 1));
            }
            let ghost prev = self@;
            let vid = vars.data[k].get_id();
            if !self.has_var(vid) {
                self.data.push(VarEntry { var_id: vid, phylum_ids: Vec::new() });
                proof {
                    assert(self@ =~= prev.push((vid, Seq::<Id>::empty())));
                }
            }
            k = k + 1;
        }
        proof {
            assert(vars.data@.skip(vars.data@.len() as int)
                =~= Seq::<crate::variables::Variable>::empty());
        }
    }

    /// The ids of every variable the index has an entry for, in index
    /// order.
    pub fn var_ids(&self) -> (r: Vec<Id>)
        ensures
            r@ == self@.map_values(|e: (Id, Seq<Id>)| e.0),
    {
        let mut out: Vec<Id> = Vec::new();
        let mut i: usize = 0;
        while i < self.data.len()
            invariant
                i <= self.data.len(),
                out@ =~= self@.map_values(|e: (Id, Seq<Id>)| e.0).take(i as int),
            decreases self.data.len() - i,
        {
            out.push(self.data[i].var_id);
            proof {
                assert(out@ =~= self@.map_values(|e: (Id, Seq<Id>)| e.0).take(i + 1));
            }
            i = i + 1;
        }
        proof {
            assert(out@ =~= self@.map_values(|e: (Id, Seq<Id>)| e.0));
        }
        out
    }
}

fn single_id_vec(x: Id) -> (r: Vec<Id>)
    ensures
        r@ == seq![x],
{
    let mut v: Vec<Id> = Vec::new();
    v.push(x);
    proof {
        assert(v@ =~= seq![x]);
    }
    v
}

/// Pointwise description of `apply_removal`.
proof fn lemma_apply_removal_index(m: Seq<(Id, Seq<Id>)>, pid: Id, vars: Seq<Id>)
    ensures
        apply_removal(m, pid, vars).len() == m.len(),
        forall|k: int|
            0 <= k < m.len() ==> #[trigger] apply_removal(m, pid, vars)[k] == (if vars.contains(
                m[k].0,
            ) {
                (m[k].0, remove_id(m[k].1, pid))
            } else {
                m[k]
            }),
    decreases m.len(),
{
    if m.len() > 0 {
        lemma_apply_removal_index(m.drop_first(), pid, vars);
        assert forall|k: int| 0 <= k < m.len() implies #[trigger] apply_removal(m, pid, vars)[k]
            == (if vars.contains(m[k].0) {
            (m[k].0, remove_id(m[k].1, pid))
        } else {
            m[k]
        }) by {
            if k > 0 {
                assert(apply_removal(m, pid, vars)[k] == apply_removal(
                    m.drop_first(),
                    pid,
                    vars,
                )[k - 1]);
                assert(m.drop_first()[k - 1] == m[k]);
            }
        }
    }
}

// ---------------------------------------------------------------------------
// Laws of the incremental index
// ---------------------------------------------------------------------------

/// Some branch node of the sequence has id `x` and references variable `v`:
/// what a full scan would record.
pub open spec fn scan_has(ps: Seq<Phylum>, v: Id, x: Id) -> bool {
    exists|i: int|
        0 <= i < ps.len() && (#[trigger] ps[i]).id == x && phylum_vars(ps[i]).contains(v)
}

/// The index records exactly what a full scan of the branch nodes records.
pub open spec fn consistent_with(m: Seq<(Id, Seq<Id>)>, ps: Seq<Phylum>) -> bool {
    forall|v: Id, x: Id|
        #![trigger has_ref(m, v, x)]
        #![trigger scan_has(ps, v, x)]
        has_ref(m, v, x) == scan_has(ps, v, x)
}



proof fn lemma_head_contains(l: Seq<Id>, y: Id)
    requires
        l.len() > 0,
    ensures
        l.contains(y) <==> (l[0] == y || l.drop_first().contains(y)),
{
    assert(l =~= seq![l[0]] + l.drop_first());
    lemma_cons_contains(l[0], l.drop_first(), y);
}

proof fn lemma_scan_has_cons(ps: Seq<Phylum>, v: Id, x: Id)
    requires
        ps.len() > 0,
    ensures
        scan_has(ps, v, x) <==> ((ps[0].id == x && phylum_vars(ps[0]).contains(v)) || scan_has(
            ps.drop_first(),
            v,
            x,
        )),
{
    if scan_has(ps, v, x) {
        let i = choose|i: int|
            0 <= i < ps.len() && (#[trigger] ps[i]).id == x && phylum_vars(ps[i]).contains(v);
        if i != 0 {
            assert(ps.drop_first()[i - 1] == ps[i]);
        }
    }
    if scan_has(ps.drop_first(), v, x) {
        let i = choose|i: int|
            0 <= i < ps.drop_first().len() && (#[trigger] ps.drop_first()[i]).id == x
                && phylum_vars(ps.drop_first()[i]).contains(v);
        assert(ps[i + 1] == ps.drop_first()[i]);
    }
}

proof fn lemma_scan_has_push(ps: Seq<Phylum>, q: Phylum, v: Id, x: Id)
    ensures
        scan_has(ps.push(q), v, x) <==> (scan_has(ps, v, x) || (q.id == x && phylum_vars(
            q,
        ).contains(v))),
{
    if scan_has(ps.push(q), v, x) {
        let i = choose|i: int|
            0 <= i < ps.push(q).len() && (#[trigger] ps.push(q)[i]).id == x && phylum_vars(
                ps.push(q)[i],
            ).contains(v);
        if i < ps.len() {
            assert(ps[i] == ps.push(q)[i]);
        }
    }
    if scan_has(ps, v, x) {
        let i = choose|i: int|
            0 <= i < ps.len() && (#[trigger] ps[i]).id == x && phylum_vars(ps[i]).contains(v);
        assert(ps.push(q)[i] == ps[i]);
    }
    if q.id == x && phylum_vars(q).contains(v) {
        assert(ps.push(q)[ps.len() as int] == q);
    }
}

proof fn lemma_remove_id_contains(l: Seq<Id>, x: Id, y: Id)
    ensures
        remove_id(l, x).contains(y) <==> (l.contains(y) && y != x),
    decreases l.len(),
{
    if l.len() == 0 {
    } else {
        lemma_remove_id_contains(l.drop_first(), x, y);
        lemma_head_contains(l, y);
        if l[0] == x {
        } else {
            lemma_cons_contains(l[0], remove_id(l.drop_first(), x), y);
        }
    }
}

proof fn lemma_apply_removal_refs(m: Seq<(Id, Seq<Id>)>, pid: Id, vars: Seq<Id>, v: Id)
    ensures
        refs_of(apply_removal(m, pid, vars), v) == (if vars.contains(v) {
            remove_id(refs_of(m, v), pid)
        } else {
            refs_of(m, v)
        }),
    decreases m.len(),
{
    if m.len() == 0 {
    } else {
        lemma_apply_removal_refs(m.drop_first(), pid, vars, v);
        let e0 = if vars.contains(m[0].0) {
            (m[0].0, remove_id(m[0].1, pid))
        } else {
            m[0]
        };
        let rest = apply_removal(m.drop_first(), pid, vars);
        assert((seq![e0] + rest)[0] == e0);
        assert((seq![e0] + rest).drop_first() =~= rest);
    }
}

proof fn lemma_add_ref_refs(m: Seq<(Id, Seq<Id>)>, w: Id, pid: Id, v: Id)
    ensures
        refs_of(add_ref(m, w, pid), v) == (if v == w {
            if refs_of(m, w).contains(pid) {
                refs_of(m, w)
            } else {
                refs_of(m, w).push(pid)
            }
        } else {
            refs_of(m, v)
        }),
    decreases m.len(),
{
    if m.len() == 0 {
        let out = seq![(w, seq![pid])];
        assert(add_ref(m, w, pid) == out);
        assert(out[0] == (w, seq![pid]));
        assert(out.drop_first() =~= Seq::<(Id, Seq<Id>)>::empty());
        if v == w {
            assert(refs_of(out, v) == seq![pid]);
            assert(refs_of(m, w).push(pid) =~= seq![pid]);
        } else {
            assert(refs_of(out, v) == refs_of(out.drop_first(), v));
        }
    } else if m[0].0 == w {
        if m[0].1.contains(pid) {
            assert(add_ref(m, w, pid) == m);
            assert(refs_of(m, w) == m[0].1);
        } else {
            let out = seq![(m[0].0, m[0].1.push(pid))] + m.drop_first();
            assert(add_ref(m, w, pid) == out);
            assert(out[0] == (m[0].0, m[0].1.push(pid)));
            assert(out.drop_first() =~= m.drop_first());
            if v == w {
                assert(refs_of(out, v) == m[0].1.push(pid));
                assert(refs_of(m, w) == m[0].1);
            } else {
                assert(refs_of(out, v) == refs_of(m.drop_first(), v));
                assert(refs_of(m, v) == refs_of(m.drop_first(), v));
            }
        }
    } else {
        lemma_add_ref_refs(m.drop_first(), w, pid, v);
        let out = seq![m[0]] + add_ref(m.drop_first(), w, pid);
        assert(add_ref(m, w, pid) == out);
        assert(out[0] == m[0]);
        assert(out.drop_first() =~= add_ref(m.drop_first(), w, pid));
        assert(refs_of(m, w) == refs_of(m.drop_first(), w));
        if v == m[0].0 {
            assert(refs_of(out, v) == m[0].1);
            assert(refs_of(m, v) == m[0].1);
        } else {
            assert(refs_of(out, v) == refs_of(add_ref(m.drop_first(), w, pid), v));
            assert(refs_of(m, v) == refs_of(m.drop_first(), v));
        }
    }
}

proof fn lemma_add_refs_has(m: Seq<(Id, Seq<Id>)>, vars: Seq<Id>, pid: Id, v: Id, x: Id)
    ensures
        has_ref(add_refs(m, vars, pid), v, x) <==> (has_ref(m, v, x) || (x == pid
            && vars.contains(v))),
    decreases vars.len(),
{
    if vars.len() == 0 {
    } else {
        let m1 = add_ref(m, vars[0], pid);
        lemma_add_ref_refs(m, vars[0], pid, v);
        if v == vars[0] && !refs_of(m, v).contains(pid) {
            lemma_push_contains(refs_of(m, v), pid, x);
        }
        lemma_add_refs_has(m1, vars.drop_first(), pid, v, x);
        lemma_head_contains(vars, v);
    }
}

proof fn lemma_apply_removals_has(m: Seq<(Id, Seq<Id>)>, del: Seq<Phylum>, v: Id, x: Id)
    ensures
        has_ref(apply_removals(m, del), v, x) <==> (has_ref(m, v, x) && !scan_has(del, v, x)),
    decreases del.len(),
{
    if del.len() == 0 {
        assert(!scan_has(del, v, x));
    } else {
        let vars0 = phylum_vars(del[0]);
        let m1 = apply_removal(m, del[0].id, vars0);
        lemma_apply_removal_refs(m, del[0].id, vars0, v);
        if vars0.contains(v) {
            lemma_remove_id_contains(refs_of(m, v), del[0].id, x);
        }
        lemma_apply_removals_has(m1, del.drop_first(), v, x);
        lemma_scan_has_cons(del, v, x);
    }
}

proof fn lemma_apply_additions_has(m: Seq<(Id, Seq<Id>)>, add: Seq<Phylum>, v: Id, x: Id)
    ensures
        has_ref(apply_additions(m, add), v, x) <==> (has_ref(m, v, x) || scan_has(add, v, x)),
    decreases add.len(),
{
    if add.len() == 0 {
        assert(!scan_has(add, v, x));
    } else {
        let m1 = add_refs(m, phylum_vars(add[0]), add[0].id);
        lemma_add_refs_has(m, phylum_vars(add[0]), add[0].id, v, x);
        lemma_apply_additions_has(m1, add.drop_first(), v, x);
        lemma_scan_has_cons(add, v, x);
    }
}

proof fn lemma_diff_absent_scan(ps: Seq<Phylum>, other: Seq<Phylum>, v: Id, x: Id)
    ensures
        scan_has(diff_absent(ps, other), v, x) <==> (scan_has(ps, v, x) && !phylum_ids(
            other,
        ).contains(x)),
    decreases ps.len(),
{
    if ps.len() == 0 {
        assert(!scan_has(diff_absent(ps, other), v, x));
        assert(!scan_has(ps, v, x));
    } else {
        lemma_diff_absent_scan(ps.drop_last(), other, v, x);
        assert(ps =~= ps.drop_last().push(ps.last()));
        lemma_scan_has_push(ps.drop_last(), ps.last(), v, x);
        if !phylum_ids(other).contains(ps.last().id) {
            lemma_scan_has_push(diff_absent(ps.drop_last(), other), ps.last(), v, x);
        } else {
            if ps.last().id == x && phylum_vars(ps.last()).contains(v) {
                assert(phylum_ids(other).contains(x));
            }
        }
    }
}

/// Index idempotence: the diff of a graph against itself is empty on both
/// sides, so applying it leaves the index exactly — entry for entry and id
/// for id — as it was.  Re-saving an unchanged dialogue cannot grow,
/// shrink or reorder the reverse index.
pub proof fn lemma_index_idempotent(m: Seq<(Id, Seq<Id>)>, d: crate::dialog::Dialog)
    ensures
        diff_absent(d.phylums(), d.phylums()) == Seq::<Phylum>::empty(),
        apply_diff(
            m,
            diff_absent(d.phylums(), d.phylums()),
            diff_absent(d.phylums(), d.phylums()),
        ) == m,
{
    lemma_diff_absent_self(d.phylums());
}

proof fn lemma_diff_absent_self(ps: Seq<Phylum>)
    ensures
        diff_absent(ps, ps) == Seq::<Phylum>::empty(),
{
    assert forall|i: int| 0 <= i < ps.len() implies phylum_ids(ps).contains(
        #[trigger] ps[i].id,
    ) by {
        assert(phylum_ids(ps)[i] == ps[i].id);
    }
    lemma_diff_absent_all_present(ps, ps);
}

proof fn lemma_diff_absent_all_present(ps: Seq<Phylum>, other: Seq<Phylum>)
    requires
        forall|i: int| 0 <= i < ps.len() ==> phylum_ids(other).contains(#[trigger] ps[i].id),
    ensures
        diff_absent(ps, other) == Seq::<Phylum>::empty(),
    decreases ps.len(),
{
    if ps.len() > 0 {
        assert forall|i: int| 0 <= i < ps.drop_last().len() implies phylum_ids(other).contains(
            #[trigger] ps.drop_last()[i].id,
        ) by {
            assert(ps.drop_last()[i] == ps[i]);
        }
        lemma_diff_absent_all_present(ps.drop_last(), other);
    }
}

// ---------------------------------------------------------------------------
// The index invariant is preserved by diff application
// ---------------------------------------------------------------------------

proof fn lemma_has_key_cons(m: Seq<(Id, Seq<Id>)>, v: Id)
    requires
        m.len() > 0,
    ensures
        has_key(m, v) <==> (m[0].0 == v || has_key(m.drop_first(), v)),
{
    if has_key(m, v) {
        let i = choose|i: int| 0 <= i < m.len() && (#[trigger] m[i]).0 == v;
        if i > 0 {
            assert(m.drop_first()[i - 1] == m[i]);
        }
    }
    if has_key(m.drop_first(), v) {
        let i = choose|i: int|
            0 <= i < m.drop_first().len() && (#[trigger] m.drop_first()[i]).0 == v;
        assert(m[i + 1] == m.drop_first()[i]);
    }
}

proof fn lemma_has_key_iff_keys(m: Seq<(Id, Seq<Id>)>, v: Id)
    ensures
        has_key(m, v) <==> index_keys(m).contains(v),
{
    if has_key(m, v) {
        let i = choose|i: int| 0 <= i < m.len() && (#[trigger] m[i]).0 == v;
        assert(index_keys(m)[i] == v);
    }
    if index_keys(m).contains(v) {
        let i = choose|i: int| 0 <= i < index_keys(m).len() && index_keys(m)[i] == v;
        assert(m[i].0 == v);
    }
}

proof fn lemma_index_wf_cons(m: Seq<(Id, Seq<Id>)>)
    requires
        m.len() > 0,
        index_wf(m),
    ensures
        index_wf(m.drop_first()),
        !has_key(m.drop_first(), m[0].0),
{
    assert(index_keys(m) =~= seq![m[0].0] + index_keys(m.drop_first()));
    lemma_cons_unique(m[0].0, index_keys(m.drop_first()));
    lemma_has_key_iff_keys(m.drop_first(), m[0].0);
    assert forall|i: int| 0 <= i < m.drop_first().len() implies unique_seq(
        (#[trigger] m.drop_first()[i]).1,
    ) by {
        assert(m.drop_first()[i] == m[i + 1]);
    }
}

proof fn lemma_remove_id_unique(l: Seq<Id>, x: Id)
    requires
        unique_seq(l),
    ensures
        unique_seq(remove_id(l, x)),
    decreases l.len(),
{
    if l.len() > 0 {
        assert(l =~= seq![l[0]] + l.drop_first());
        lemma_cons_unique(l[0], l.drop_first());
        lemma_remove_id_unique(l.drop_first(), x);
        if l[0] != x {
            lemma_remove_id_contains(l.drop_first(), x, l[0]);
            lemma_cons_unique(l[0], remove_id(l.drop_first(), x));
        }
    }
}

proof fn lemma_apply_removal_wf(m: Seq<(Id, Seq<Id>)>, pid: Id, vars: Seq<Id>)
    requires
        index_wf(m),
    ensures
        index_wf(apply_removal(m, pid, vars)),
{
    lemma_apply_removal_index(m, pid, vars);
    let out = apply_removal(m, pid, vars);
    assert(index_keys(out) =~= index_keys(m));
    assert forall|i: int| 0 <= i < out.len() implies unique_seq((#[trigger] out[i]).1) by {
        assert(unique_seq(m[i].1));
        if vars.contains(m[i].0) {
            lemma_remove_id_unique(m[i].1, pid);
        }
    }
}

proof fn lemma_add_ref_wf(m: Seq<(Id, Seq<Id>)>, v: Id, pid: Id)
    requires
        index_wf(m),
    ensures
        index_wf(add_ref(m, v, pid)),
        index_keys(add_ref(m, v, pid)) == (if has_key(m, v) {
            index_keys(m)
        } else {
            index_keys(m).push(v)
        }),
    decreases m.len(),
{
    let out = add_ref(m, v, pid);
    if m.len() == 0 {
        assert(!has_key(m, v));
        assert(index_keys(out) =~= index_keys(m).push(v));
        assert(unique_seq(seq![pid]));
        assert forall|i: int| 0 <= i < out.len() implies unique_seq((#[trigger] out[i]).1) by {
            assert(out[i] == (v, seq![pid]));
        }
        lemma_push_unique(index_keys(m), v);
        lemma_has_key_iff_keys(m, v);
    } else if m[0].0 == v {
        assert(has_key(m, v));
        if m[0].1.contains(pid) {
        } else {
            assert(out =~= seq![(m[0].0, m[0].1.push(pid))] + m.drop_first());
            assert(index_keys(out) =~= index_keys(m));
            assert forall|i: int| 0 <= i < out.len() implies unique_seq(
                (#[trigger] out[i]).1,
            ) by {
                if i == 0 {
                    assert(unique_seq(m[0].1));
                    lemma_push_unique(m[0].1, pid);
                } else {
                    assert(out[i] == m[i]);
                    assert(unique_seq(m[i].1));
                }
            }
        }
    } else {
        lemma_index_wf_cons(m);
        lemma_has_key_cons(m, v);
        lemma_add_ref_wf(m.drop_first(), v, pid);
        let rest = add_ref(m.drop_first(), v, pid);
        assert(out =~= seq![m[0]] + rest);
        assert(index_keys(out) =~= seq![m[0].0] + index_keys(rest));
        assert(index_keys(m) =~= seq![m[0].0] + index_keys(m.drop_first()));
        if has_key(m, v) {
            assert(index_keys(out) =~= index_keys(m));
        } else {
            assert(index_keys(out) =~= seq![m[0].0] + index_keys(m.drop_first()).push(v));
            assert(index_keys(m).push(v) =~= seq![m[0].0] + index_keys(m.drop_first()).push(v));
            lemma_cons_unique(m[0].0, index_keys(m.drop_first()).push(v));
            lemma_push_contains(index_keys(m.drop_first()), v, m[0].0);
            assert(index_keys(m) =~= seq![m[0].0] + index_keys(m.drop_first()));
            lemma_cons_unique(m[0].0, index_keys(m.drop_first()));
        }
        assert forall|i: int| 0 <= i < out.len() implies unique_seq((#[trigger] out[i]).1) by {
            if i == 0 {
                assert(out[0] == m[0]);
                assert(unique_seq(m[0].1));
            } else {
                assert(out[i] == rest[i - 1]);
                assert(unique_seq(rest[i - 1].1));
            }
        }
    }
}

proof fn lemma_add_refs_wf(m: Seq<(Id, Seq<Id>)>, vars: Seq<Id>, pid: Id)
    requires
        index_wf(m),
    ensures
        index_wf(add_refs(m, vars, pid)),
    decreases vars.len(),
{
    if vars.len() > 0 {
        lemma_add_ref_wf(m, vars[0], pid);
        lemma_add_refs_wf(add_ref(m, vars[0], pid), vars.drop_first(), pid);
    }
}

proof fn lemma_apply_removals_wf(m: Seq<(Id, Seq<Id>)>, ps: Seq<Phylum>)
    requires
        index_wf(m),
    ensures
        index_wf(apply_removals(m, ps)),
    decreases ps.len(),
{
    if ps.len() > 0 {
        lemma_apply_removal_wf(m, ps[0].id, phylum_vars(ps[0]));
        lemma_apply_removals_wf(apply_removal(m, ps[0].id, phylum_vars(ps[0])), ps.drop_first());
    }
}

proof fn lemma_apply_additions_wf(m: Seq<(Id, Seq<Id>)>, ps: Seq<Phylum>)
    requires
        index_wf(m),
    ensures
        index_wf(apply_additions(m, ps)),
    decreases ps.len(),
{
    if ps.len() > 0 {
        lemma_add_refs_wf(m, phylum_vars(ps[0]), ps[0].id);
        lemma_apply_additions_wf(add_refs(m, phylum_vars(ps[0]), ps[0].id), ps.drop_first());
    }
}

/// Applying any structural diff preserves the index invariant: entries stay
/// one per variable and no branch id is ever recorded twice for the same
/// variable.
pub proof fn lemma_apply_diff_wf(m: Seq<(Id, Seq<Id>)>, deleted: Seq<Phylum>, added: Seq<Phylum>)
    requires
        index_wf(m),
    ensures
        index_wf(apply_diff(m, deleted, added)),
{
    lemma_apply_removals_wf(m, deleted);
    lemma_apply_additions_wf(apply_removals(m, deleted), added);
}

/// Filling missing entries preserves the index invariant: only fresh keys
/// are appended, each with an empty branch list.
pub proof fn lemma_spec_fill_wf(m: Seq<(Id, Seq<Id>)>, vs: Seq<crate::variables::Variable>)
    requires
        index_wf(m),
    ensures
        index_wf(spec_fill(m, vs)),
    decreases vs.len(),
{
    if vs.len() > 0 {
        let v = var_id_of(vs[0]);
        if has_key(m, v) {
            lemma_spec_fill_wf(m, vs.drop_first());
        } else {
            let m1 = m.push((v, Seq::empty()));
            lemma_has_key_iff_keys(m, v);
            assert(index_keys(m1) =~= index_keys(m).push(v));
            lemma_push_unique(index_keys(m), v);
            assert forall|i: int| 0 <= i < m1.len() implies unique_seq((#[trigger] m1[i]).1) by {
                if i < m.len() {
                    assert(m1[i] == m[i]);
                    assert(unique_seq(m[i].1));
                } else {
                    assert(m1[i].1 =~= Seq::<Id>::empty());
                }
            }
            lemma_spec_fill_wf(m1, vs.drop_first());
        }
    }
}

/// Diff/rebuild equivalence, restricted to whole-branch addition and
/// removal: if two versions of a dialogue's branch nodes agree on every
/// branch id they share, then applying the structural diff between them to
/// an index that agrees with a full scan of the old version yields an index
/// that agrees with a full scan of the new version.
pub proof fn lemma_diff_rebuild(m: Seq<(Id, Seq<Id>)>, a: Seq<Phylum>, b: Seq<Phylum>)
    requires
        forall|i: int, j: int|
            0 <= i < a.len() && 0 <= j < b.len() && (#[trigger] a[i]).id == (#[trigger] b[j]).id
                ==> a[i] == b[j],
        consistent_with(m, a),
    ensures
        consistent_with(apply_diff(m, diff_absent(a, b), diff_absent(b, a)), b),
{
    let deleted = diff_absent(a, b);
    let added = diff_absent(b, a);
    let m1 = apply_removals(m, deleted);
    let m2 = apply_diff(m, deleted, added);
    assert forall|v: Id, x: Id|
        #![trigger has_ref(m2, v, x)]
        #![trigger scan_has(b, v, x)]
        has_ref(m2, v, x) == scan_has(b, v, x) by {
        lemma_apply_removals_has(m, deleted, v, x);
        lemma_apply_additions_has(m1, added, v, x);
        lemma_diff_absent_scan(a, b, v, x);
        lemma_diff_absent_scan(b, a, v, x);
        assert(has_ref(m, v, x) == scan_has(a, v, x));
        if scan_has(b, v, x) {
            let j = choose|j: int|
                0 <= j < b.len() && (#[trigger] b[j]).id == x && phylum_vars(b[j]).contains(v);
            assert(phylum_ids(b)[j] == x);
            if phylum_ids(a).contains(x) {
                let i = choose|i: int| 0 <= i < phylum_ids(a).len() && phylum_ids(a)[i] == x;
                assert(a[i].id == x);
                assert(a[i] == b[j]);
                assert(scan_has(a, v, x));
            } else {
                assert(scan_has(added, v, x));
            }
        } else {
            if scan_has(a, v, x) {
                let i = choose|i: int|
                    0 <= i < a.len() && (#[trigger] a[i]).id == x && phylum_vars(a[i]).contains(
                        v,
                    );
                assert(phylum_ids(a)[i] == x);
                if phylum_ids(b).contains(x) {
                    let j = choose|j: int| 0 <= j < phylum_ids(b).len() && phylum_ids(b)[j] == x;
                    assert(b[j].id == x);
                    assert(a[i] == b[j]);
                    assert(scan_has(b, v, x));
                    assert(false);
                } else {
                    assert(scan_has(deleted, v, x));
                }
            }
        }
    }
}

} // verus!
