use open_dialog::errors::CoherenceError;
use open_dialog::variables::{
    CharacterVariable, CharacterVariableState, DialogVariable, GlobalCharacterVariable,
    GlobalVariable, Variable, VariableStore,
};

fn global(id: u128) -> Variable {
    Variable::Global(GlobalVariable {
        id,
        name: "g".to_string(),
        current_state: "on".to_string(),
        potential_states: vec!["on".to_string(), "off".to_string()],
    })
}

fn per_character(id: u128, character_id: u128) -> Variable {
    Variable::Char(CharacterVariable {
        id,
        name: "c".to_string(),
        current_state: "on".to_string(),
        potential_states: vec![],
        character_id,
    })
}

fn per_dialog(id: u128, dialog_id: u128) -> Variable {
    Variable::Dialog(DialogVariable {
        id,
        name: "d".to_string(),
        current_state: "on".to_string(),
        potential_states: vec![],
        dialog_id,
    })
}

fn global_per_character(id: u128, character_ids: Vec<u128>) -> Variable {
    Variable::GlobalChar(GlobalCharacterVariable {
        id,
        name: "gc".to_string(),
        potential_states: vec![],
        characters: character_ids
            .into_iter()
            .map(|c| CharacterVariableState {
                current_state: "on".to_string(),
                character_id: c,
            })
            .collect(),
    })
}

#[test]
fn per_character_variable_with_unknown_owner_is_reported() {
    // Store holds PerCharacter{id: V1, characterId: X}; the character set
    // does not contain X.
    let v1 = 31u128;
    let x = 77u128;
    let store = VariableStore {
        data: vec![per_character(v1, x)],
    };
    let r = store.enforce_coherence(&vec![], &vec![1, 2]);
    assert_eq!(
        r,
        Err(CoherenceError::UnknownOwner {
            variable_id: v1,
            owner_id: x
        })
    );
}

#[test]
fn coherent_store_is_accepted() {
    let store = VariableStore {
        data: vec![
            global(1),
            per_character(2, 10),
            per_dialog(3, 20),
            global_per_character(4, vec![10, 11]),
        ],
    };
    assert!(store.enforce_coherence(&vec![20], &vec![10, 11]).is_ok());
}

#[test]
fn per_dialog_variable_with_unknown_owner_is_reported() {
    let store = VariableStore {
        data: vec![per_dialog(3, 20)],
    };
    let r = store.enforce_coherence(&vec![21], &vec![]);
    assert_eq!(
        r,
        Err(CoherenceError::UnknownOwner {
            variable_id: 3,
            owner_id: 20
        })
    );
}

#[test]
fn per_character_override_with_unknown_owner_is_reported() {
    let store = VariableStore {
        data: vec![global_per_character(4, vec![10, 99])],
    };
    let r = store.enforce_coherence(&vec![], &vec![10]);
    assert_eq!(
        r,
        Err(CoherenceError::UnknownOwner {
            variable_id: 4,
            owner_id: 99
        })
    );
}

#[test]
fn global_variables_need_no_owner() {
    let store = VariableStore {
        data: vec![global(1)],
    };
    assert!(store.enforce_coherence(&vec![], &vec![]).is_ok());
}

#[test]
fn delete_var_with_id_removes_exactly_that_variable() {
    let mut store = VariableStore {
        data: vec![global(1), global(2), global(3)],
    };
    store.delete_var_with_id(2);
    let ids: Vec<u128> = store.data.iter().map(|v| v.get_id()).collect();
    assert_eq!(ids, vec![1, 3]);
}
