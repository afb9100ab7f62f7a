use open_dialog::dialog::{
    Conditions, Dialog, DialogMetadata, NecessityExpression, Node, NodeData, Phylum, SimpleDialog,
    VarNecessity,
};
use open_dialog::errors::CoherenceError;
use open_dialog::meta::{VarEntry, VarToPhylum};
use open_dialog::service::{delete_variable, save_dialog};
use open_dialog::variables::{GlobalVariable, Variable, VariableStore};

fn branch_node(node_id: u128, phylum_id: u128, vars: Vec<u128>) -> Node {
    let branches = vars
        .iter()
        .enumerate()
        .map(|(k, v)| Conditions {
            id: 2000 + k as u128,
            priority: k as i32,
            name: format!("cond {}", k),
            necessities: Some(NecessityExpression::Var(VarNecessity {
                var_id: *v,
                necessary_state: "on".to_string(),
            })),
            next_node: None,
        })
        .collect();
    Node {
        id: node_id,
        pos_x: 0,
        pos_y: 0,
        data: NodeData::Phylum(Phylum {
            id: phylum_id,
            name: None,
            branches,
        }),
    }
}

fn dialog_with(id: u128, nodes: Vec<Node>) -> Dialog {
    Dialog {
        id,
        name: "d".to_string(),
        root_node: None,
        characters_ids: vec![],
        created_at: 0,
        main_character: 1,
        nodes,
    }
}

fn index_with(entries: Vec<(u128, Vec<u128>)>) -> VarToPhylum {
    VarToPhylum {
        data: entries
            .into_iter()
            .map(|(v, l)| VarEntry {
                var_id: v,
                phylum_ids: l,
            })
            .collect(),
    }
}

fn entries_of(fks: &VarToPhylum) -> Vec<(u128, Vec<u128>)> {
    fks.data
        .iter()
        .map(|e| (e.var_id, e.phylum_ids.clone()))
        .collect()
}

fn metadata_for(d: &Dialog) -> DialogMetadata {
    let mut m = DialogMetadata::new();
    m.upsert_dialog(SimpleDialog::from_dialog(d));
    m
}

const V: u128 = 900;

fn uuid_str(v: u128) -> String {
    uuid::Uuid::from_u128(v).to_string()
}

#[test]
fn deletion_guard_round_trip() {
    // Create variable V; save a graph holding a branch requiring V; the
    // index then maps V to that branch, so deleting V is blocked.  Save the
    // graph again without the branch; the entry empties and the deletion
    // goes through.
    let branch_id = 500u128;
    let graph = dialog_with(42, vec![branch_node(5, branch_id, vec![V])]);
    let empty_prev = dialog_with(42, vec![]);
    let mut fks = index_with(vec![(V, vec![])]);
    let mut metadata = metadata_for(&graph);
    let mut store = VariableStore {
        data: vec![Variable::Global(GlobalVariable {
            id: V,
            name: "v".to_string(),
            current_state: "on".to_string(),
            potential_states: vec!["on".to_string(), "off".to_string()],
        })],
    };

    let mut d1 = graph.clone();
    assert!(save_dialog(&mut d1, &empty_prev, &mut fks, &mut metadata).is_ok());
    assert_eq!(entries_of(&fks), vec![(V, vec![branch_id])]);

    let r = delete_variable(&uuid_str(V), &fks, &mut store);
    assert_eq!(
        r,
        Err(CoherenceError::InUse {
            variable_id: V,
            referencing_branches: vec![branch_id]
        })
    );
    assert_eq!(store.data.len(), 1);

    let mut d2 = dialog_with(42, vec![]);
    assert!(save_dialog(&mut d2, &d1, &mut fks, &mut metadata).is_ok());
    assert_eq!(entries_of(&fks), vec![(V, vec![])]);

    assert!(delete_variable(&uuid_str(V), &fks, &mut store).is_ok());
    assert!(store.data.is_empty());
}

#[test]
fn saving_an_unchanged_graph_twice_leaves_the_index_identical() {
    let graph = dialog_with(42, vec![branch_node(5, 500, vec![V])]);
    let empty_prev = dialog_with(42, vec![]);
    let mut fks = index_with(vec![(V, vec![])]);
    let mut metadata = metadata_for(&graph);

    let mut d1 = graph.clone();
    assert!(save_dialog(&mut d1, &empty_prev, &mut fks, &mut metadata).is_ok());
    let snapshot = fks.clone();

    let mut d2 = graph.clone();
    assert!(save_dialog(&mut d2, &d1, &mut fks, &mut metadata).is_ok());
    assert_eq!(fks, snapshot);
}

#[test]
fn rejected_save_changes_no_record() {
    // The graph references a variable the index does not know, so
    // validation fails and graph, index and listing stay untouched.
    let graph = dialog_with(42, vec![branch_node(5, 500, vec![777])]);
    let empty_prev = dialog_with(42, vec![]);
    let mut fks = index_with(vec![(V, vec![])]);
    let mut metadata = metadata_for(&graph);
    let fks_before = fks.clone();
    let metadata_before = metadata.clone();

    let mut d = graph.clone();
    let r = save_dialog(&mut d, &empty_prev, &mut fks, &mut metadata);
    assert_eq!(
        r,
        Err(CoherenceError::UnknownVariable {
            branch_node: 500,
            variable_id: 777
        })
    );
    assert_eq!(d, graph);
    assert_eq!(fks, fks_before);
    assert_eq!(metadata, metadata_before);
}

#[test]
fn save_of_an_unlisted_dialog_is_rejected() {
    let graph = dialog_with(42, vec![]);
    let empty_prev = dialog_with(42, vec![]);
    let mut fks = index_with(vec![]);
    let mut metadata = DialogMetadata::new();
    let mut d = graph.clone();
    let r = save_dialog(&mut d, &empty_prev, &mut fks, &mut metadata);
    assert_eq!(r, Err(CoherenceError::NotFound { id: 42 }));
}

#[test]
fn a_branch_referencing_a_variable_twice_is_recorded_once() {
    let graph = dialog_with(42, vec![branch_node(5, 500, vec![V, V])]);
    let empty_prev = dialog_with(42, vec![]);
    let mut fks = index_with(vec![(V, vec![])]);
    let mut metadata = metadata_for(&graph);
    let mut d = graph.clone();
    assert!(save_dialog(&mut d, &empty_prev, &mut fks, &mut metadata).is_ok());
    assert_eq!(entries_of(&fks), vec![(V, vec![500])]);
}

#[test]
fn an_addition_creates_a_missing_entry_at_the_end() {
    let graph = dialog_with(42, vec![branch_node(5, 500, vec![V])]);
    let empty_prev = dialog_with(42, vec![]);
    let mut fks = index_with(vec![]);
    let mut metadata = metadata_for(&graph);
    let mut d = graph.clone();
    // V is not a known index key, so validation rejects the graph first.
    let r = save_dialog(&mut d, &empty_prev, &mut fks, &mut metadata);
    assert_eq!(
        r,
        Err(CoherenceError::UnknownVariable {
            branch_node: 500,
            variable_id: V
        })
    );
    // Applied directly, the diff creates the entry.
    let diffs = graph.get_diffs(&empty_prev);
    assert!(fks.mutate_to_match_diffs(diffs).is_ok());
    assert_eq!(entries_of(&fks), vec![(V, vec![500])]);
}

#[test]
fn removing_an_absent_reference_is_not_an_error() {
    let old_graph = dialog_with(42, vec![branch_node(5, 500, vec![V])]);
    let new_graph = dialog_with(42, vec![]);
    let mut fks = index_with(vec![(V, vec![])]);
    let diffs = new_graph.get_diffs(&old_graph);
    assert!(fks.mutate_to_match_diffs(diffs).is_ok());
    assert_eq!(entries_of(&fks), vec![(V, vec![])]);
}

#[test]
fn enforce_free_existing_var_accepts_absent_and_empty_entries() {
    let fks = index_with(vec![(V, vec![])]);
    assert!(fks.enforce_free_existing_var(&V).is_ok());
    assert!(fks.enforce_free_existing_var(&12345).is_ok());
    let busy = index_with(vec![(V, vec![500])]);
    assert_eq!(
        busy.enforce_free_existing_var(&V),
        Err(CoherenceError::InUse {
            variable_id: V,
            referencing_branches: vec![500]
        })
    );
}

#[test]
fn fill_non_existing_keys_adds_only_missing_entries() {
    let mut fks = index_with(vec![(V, vec![500])]);
    let store = VariableStore {
        data: vec![
            Variable::Global(GlobalVariable {
                id: V,
                name: "v".to_string(),
                current_state: "on".to_string(),
                potential_states: vec![],
            }),
            Variable::Global(GlobalVariable {
                id: 901,
                name: "w".to_string(),
                current_state: "off".to_string(),
                potential_states: vec![],
            }),
        ],
    };
    fks.fill_non_existing_keys(store);
    assert_eq!(entries_of(&fks), vec![(V, vec![500]), (901, vec![])]);
}

#[test]
fn delete_variable_rejects_an_unparseable_identifier() {
    let fks = VarToPhylum::new();
    let mut store = VariableStore::new();
    let r = delete_variable("not-a-uuid", &fks, &mut store);
    assert_eq!(r, Err(CoherenceError::CorruptRecord));
}

#[test]
fn applying_a_diff_equals_rebuilding_from_scratch() {
    // Versions A and B differ only by whole-branch addition and removal:
    // branch 100 (requiring 7) is removed, branch 300 (requiring 7 and 9)
    // is added, branch 200 (requiring 8) stays.
    let a = dialog_with(
        42,
        vec![
            branch_node(1, 100, vec![7]),
            branch_node(2, 200, vec![8]),
        ],
    );
    let b = dialog_with(
        42,
        vec![
            branch_node(2, 200, vec![8]),
            branch_node(3, 300, vec![7, 9]),
        ],
    );
    // The index built from A by full scan.
    let mut fks = index_with(vec![(7, vec![100]), (8, vec![200])]);
    let diffs = b.get_diffs(&a);
    assert!(fks.mutate_to_match_diffs(diffs).is_ok());
    // The result records, variable for variable, exactly what a full scan
    // of B records.
    assert_eq!(
        entries_of(&fks),
        vec![(7, vec![300]), (8, vec![200]), (9, vec![300])]
    );
}
