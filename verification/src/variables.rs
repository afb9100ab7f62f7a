use vstd::prelude::*;

use crate::errors::CoherenceError;
use crate::ids::Id;

verus! {

/// A variable every character and dialogue shares.
#[derive(Debug, Clone, PartialEq)]
pub struct GlobalVariable {
    pub id: Id,
    pub name: String,
    pub current_state: String,
    pub potential_states: Vec<String>,
}

/// A variable with one state per character.
#[derive(Debug, Clone, PartialEq)]
pub struct GlobalCharacterVariable {
    pub id: Id,
    pub name: String,
    pub potential_states: Vec<String>,
    pub characters: Vec<CharacterVariableState>,
}

/// The state one character holds for a per-character variable.
#[derive(Debug, Clone, PartialEq)]
pub struct CharacterVariableState {
    pub current_state: String,
    pub character_id: Id,
}

/// A variable owned by a single character.
#[derive(Debug, Clone, PartialEq)]
pub struct CharacterVariable {
    pub id: Id,
    pub name: String,
    pub current_state: String,
    pub potential_states: Vec<String>,
    pub character_id: Id,
}

/// A variable owned by a single dialogue.
#[derive(Debug, Clone, PartialEq)]
pub struct DialogVariable {
    pub id: Id,
    pub name: String,
    pub current_state: String,
    pub potential_states: Vec<String>,
    pub dialog_id: Id,
}

/// The four variable scopes; the owning scope is encoded in the variant.
#[derive(Debug, Clone, PartialEq)]
pub enum Variable {
    Global(GlobalVariable),
    GlobalChar(GlobalCharacterVariable),
    Char(CharacterVariable),
    Dialog(DialogVariable),
}

/// A project's variable store.
#[derive(Debug, Clone, PartialEq)]
pub struct VariableStore {
    pub data: Vec<Variable>,
}

pub open spec fn var_id_of(v: Variable) -> Id {
    match v {
        Variable::Global(g) => g.id,
        Variable::GlobalChar(g) => g.id,
        Variable::Char(c) => c.id,
        Variable::Dialog(d) => d.id,
    }
}

/// Every owner the variable names exists: character owners among
/// `character_ids`, dialogue owners among `dialog_ids`.
pub open spec fn spec_var_ok(v: Variable, dialog_ids: Seq<Id>, character_ids: Seq<Id>) -> bool {
    match v {
        Variable::Global(_) => true,
        Variable::GlobalChar(g) => forall|i: int|
            0 <= i < g.characters@.len() ==> character_ids.contains(
                (#[trigger] g.characters@[i]).character_id,
            ),
        Variable::Char(c) => character_ids.contains(c.character_id),
        Variable::Dialog(d) => dialog_ids.contains(d.dialog_id),
    }
}

/// The per-character overrides of the variable mention the given character.
pub open spec fn spec_gc_mentions(g: GlobalCharacterVariable, owner_id: Id) -> bool {
    exists|i: int|
        0 <= i < g.characters@.len() && (#[trigger] g.characters@[i]).character_id == owner_id
}

/// The error names an owner the variable really references and that really
/// is missing.
pub open spec fn spec_owner_violation(
    v: Variable,
    dialog_ids: Seq<Id>,
    character_ids: Seq<Id>,
    owner_id: Id,
) -> bool {
    match v {
        Variable::Global(_) => false,
        Variable::GlobalChar(g) => !character_ids.contains(owner_id) && spec_gc_mentions(
            g,
            owner_id,
        ),
        Variable::Char(c) => c.character_id == owner_id && !character_ids.contains(owner_id),
        Variable::Dialog(d) => d.dialog_id == owner_id && !dialog_ids.contains(owner_id),
    }
}

impl VariableStore {
    /// Every variable of the store references only existing owners.
    pub open spec fn spec_coherent(self, dialog_ids: Seq<Id>, character_ids: Seq<Id>) -> bool {
        forall|i: int|
            0 <= i < self.data@.len() ==> spec_var_ok(
                #[trigger] self.data@[i],
                dialog_ids,
                character_ids,
            )
    }
}

/// The store with every variable of the given id removed.
pub open spec fn spec_delete_vars(s: Seq<Variable>, id: Id) -> Seq<Variable>
    decreases s.len(),
{
    if s.len() == 0 {
        Seq::empty()
    } else if var_id_of(s[0]) == id {
        spec_delete_vars(s.drop_first(), id)
    } else {
        seq![s[0]] + spec_delete_vars(s.drop_first(), id)
    }
}

impl Variable {
    pub fn get_id(&self) -> (r: Id)
        ensures
            r == var_id_of(*self),
    {
        match self {
            Variable::Global(g) => g.id,
            Variable::GlobalChar(g) => g.id,
            Variable::Char(c) => c.id,
            Variable::Dialog(d) => d.id,
        }
    }
}

fn check_var(v: &Variable, dialog_ids: &Vec<Id>, character_ids: &Vec<Id>) -> (r: Result<
    (),
    CoherenceError,
>)
    ensures
        r is Ok <==> spec_var_ok(*v, dialog_ids@, character_ids@),
        r matches Err(e) ==> (e matches CoherenceError::UnknownOwner { variable_id, owner_id }
            && variable_id == var_id_of(*v) && spec_owner_violation(
            *v,
            dialog_ids@,
            character_ids@,
            owner_id,
        )),
{
    match v {
        Variable::Global(_) => Ok(()),
        Variable::GlobalChar(g) => {
            let mut i: usize = 0;
            while i < g.characters.len()
                invariant
                    *v == Variable::GlobalChar(*g),
                    i <= g.characters.len(),
                    forall|j: int|
                        0 <= j < i ==> character_ids@.contains(
                            (#[trigger] g.characters@[j]).character_id,
                        ),
                decreases g.characters.len() - i,
            {
                let owner = g.characters[i].character_id;
                if !crate::dialog::contains_id(character_ids, owner) {
                    proof {
                        assert(*v == Variable::GlobalChar(*g));
                        assert((g.characters@[i as int]).character_id == owner);
                        assert(spec_gc_mentions(*g, owner));
                        assert(spec_owner_violation(*v, dialog_ids@, character_ids@, owner));
                        assert(!spec_var_ok(*v, dialog_ids@, character_ids@));
                    }
                    return Err(
                        CoherenceError::UnknownOwner { variable_id: g.id, owner_id: owner },
                    );
                }
                i = i + 1;
            }
            Ok(())
        },
        Variable::Char(c) => {
            if crate::dialog::contains_id(character_ids, c.character_id) {
                Ok(())
            } else {
                Err(
                    CoherenceError::UnknownOwner {
                        variable_id: c.id,
                        owner_id: c.character_id,
                    },
                )
            }
        },
        Variable::Dialog(d) => {
            if crate::dialog::contains_id(dialog_ids, d.dialog_id) {
                Ok(())
            } else {
                Err(CoherenceError::UnknownOwner { variable_id: d.id, owner_id: d.dialog_id })
            }
        },
    }
}

impl VariableStore {
    pub fn new() -> (r: Self)
        ensures
            r.data@ == Seq::<Variable>::empty(),
    {
        VariableStore { data: Vec::new() }
    }

    /// Checks that every character-scoped variable (or per-character
    /// override) names an existing character and every dialogue-scoped
    /// variable an existing dialogue.  On failure the error names a variable
    /// and a missing owner it really references.
    pub fn enforce_coherence(&self, dialog_ids: &Vec<Id>, character_ids: &Vec<Id>) -> (r: Result<
        (),
        CoherenceError,
    >)
        ensures
            r is Ok <==> self.spec_coherent(dialog_ids@, character_ids@),
            r matches Err(e) ==> (e matches CoherenceError::UnknownOwner { variable_id, owner_id }
                && exists|i: int|
                0 <= i < self.data@.len() && var_id_of(#[trigger] self.data@[i]) == variable_id
                    && spec_owner_violation(
                    self.data@[i],
                    dialog_ids@,
                    character_ids@,
                    owner_id,
                )),
    {
        let mut i: usize = 0;
        while i < self.data.len()
            invariant
                i <= self.data.len(),
                forall|j: int|
                    0 <= j < i ==> spec_var_ok(
                        #[trigger] self.data@[j],
                        dialog_ids@,
                        character_ids@,
                    ),
            decreases self.data.len() - i,
        {
            match check_var(&self.data[i], dialog_ids, character_ids) {
                Ok(()) => {},
                Err(e) => {
                    proof {
                        assert(var_id_of(self.data@[i as int]) == e->UnknownOwner_variable_id);
                    }
                    return Err(e);
                },
            }
            i = i + 1;
        }
        Ok(())
    }

    /// Removes every variable with the given id from the store.
    pub fn delete_var_with_id(&mut self, id: Id)
        ensures
            final(self).data@ == spec_delete_vars(old(self).data@, id),
    {
        proof {
            assert(self.data@.skip(0) =~= self.data@);
            assert(self.data@.take(0) =~= Seq::<Variable>::empty());
        }
        let mut i: usize = 0;
        while i < self.data.len()
            invariant
                i <= self.data.len(),
                spec_delete_vars(old(self).data@, id) =~= self.data@.take(i as int)
                    + spec_delete_vars(self.data@.skip(i as int), id),
                forall|j: int| 0 <= j < i ==> var_id_of(#[trigger] self.data@[j]) != id,
            decreases self.data.len() - i,
        {
            proof {
                assert(self.data@.skip(i as int)[0] == self.data@[i as int]);
                assert(self.data@.skip(i as int).drop_first() =~= self.data@.skip(i + 1));
            }
            if self.data[i].get_id() == id {
                let ghost before = self.data@;
                self.data.remove(i);
                proof {
                    assert(self.data@ =~= before.remove(i as int));
                    assert(self.data@.take(i as int) =~= before.take(i as int));
                    assert(self.data@.skip(i as int) =~= before.skip(i + 1));
                }
            } else {
                proof {
                    assert(self.data@.take(i + 1) =~= self.data@.take(i as int) + seq![
                        self.data@[i as int],
                    ]);
                    assert(self.data@.take(i as int) + spec_delete_vars(
                        self.data@.skip(i as int),
                        id,
                    ) =~= self.data@.take(i + 1) + spec_delete_vars(self.data@.skip(i + 1), id));
                }
                i = i + 1;
            }
        }
        proof {
            assert(self.data@.skip(i as int) =~= Seq::<Variable>::empty());
            assert(self.data@.take(i as int) =~= self.data@);
            assert(self.data@.take(i as int) + spec_delete_vars(self.data@.skip(i as int), id)
                =~= self.data@);
        }
    }
}

} // verus!
