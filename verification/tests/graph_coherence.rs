use open_dialog::dialog::{
    Choice, Choices, Conditions, Dialog, DialogNode, NecessityExpression, Node, NodeData, Phylum,
    TreeNecessity, VarNecessity,
};
use open_dialog::errors::CoherenceError;

fn line_node(id: u128, next: Option<u128>) -> Node {
    Node {
        id,
        pos_x: 0,
        pos_y: 0,
        data: NodeData::Dialog(DialogNode {
            next_node: next,
            character_id: None,
            content_link: None,
            content: None,
        }),
    }
}

fn choice_node(id: u128, targets: Vec<Option<u128>>) -> Node {
    let choices = targets
        .into_iter()
        .enumerate()
        .map(|(k, t)| Choice {
            id: 1000 + k as u128,
            content: format!("choice {}", k),
            next_node: t,
        })
        .collect();
    Node {
        id,
        pos_x: 0,
        pos_y: 0,
        data: NodeData::Choices(Choices { choices }),
    }
}

fn branch_node(node_id: u128, phylum_id: u128, vars: Vec<u128>, next: Option<u128>) -> Node {
    let branches = vars
        .iter()
        .enumerate()
        .map(|(k, v)| Conditions {
            id: 2000 + k as u128,
            priority: k as i32,
            name: format!("cond {}", k),
            necessities: Some(NecessityExpression::Var(VarNecessity {
                var_id: *v,
                necessary_state: "on".to_string(),
            })),
            next_node: next,
        })
        .collect();
    Node {
        id: node_id,
        pos_x: 0,
        pos_y: 0,
        data: NodeData::Phylum(Phylum {
            id: phylum_id,
            name: None,
            branches,
        }),
    }
}

fn dialog_with(nodes: Vec<Node>) -> Dialog {
    Dialog {
        id: 7,
        name: "d".to_string(),
        root_node: None,
        characters_ids: vec![],
        created_at: 0,
        main_character: 1,
        nodes,
    }
}

#[test]
fn coherent_graph_is_accepted() {
    let d = dialog_with(vec![line_node(1, Some(2)), line_node(2, None)]);
    assert!(d.enforce_links_coherence(&vec![]).is_ok());
}

#[test]
fn dangling_choice_target_is_reported_with_source_and_target() {
    // Nodes {A: line(next=B), B: choices([choice(next=C)])} but no node C.
    let a = 10u128;
    let b = 11u128;
    let c = 12u128;
    let d = dialog_with(vec![line_node(a, Some(b)), choice_node(b, vec![Some(c)])]);
    let r = d.enforce_links_coherence(&vec![]);
    assert_eq!(
        r,
        Err(CoherenceError::DanglingReference {
            source_node: b,
            target_id: c
        })
    );
}

#[test]
fn dangling_line_target_is_reported() {
    let d = dialog_with(vec![line_node(1, Some(99))]);
    let r = d.enforce_links_coherence(&vec![]);
    assert_eq!(
        r,
        Err(CoherenceError::DanglingReference {
            source_node: 1,
            target_id: 99
        })
    );
}

#[test]
fn dangling_condition_target_is_reported() {
    let d = dialog_with(vec![branch_node(5, 50, vec![77], Some(42))]);
    let r = d.enforce_links_coherence(&vec![77]);
    assert_eq!(
        r,
        Err(CoherenceError::DanglingReference {
            source_node: 5,
            target_id: 42
        })
    );
}

#[test]
fn unknown_variable_is_reported_with_branch_and_variable() {
    let d = dialog_with(vec![branch_node(5, 50, vec![77], None)]);
    let r = d.enforce_links_coherence(&vec![88]);
    assert_eq!(
        r,
        Err(CoherenceError::UnknownVariable {
            branch_node: 50,
            variable_id: 77
        })
    );
}

#[test]
fn known_variables_in_requirement_tree_are_accepted() {
    let tree = NecessityExpression::Tree(TreeNecessity {
        left: Box::new(NecessityExpression::Var(VarNecessity {
            var_id: 1,
            necessary_state: "a".to_string(),
        })),
        operator: "and".to_string(),
        right: Box::new(NecessityExpression::Var(VarNecessity {
            var_id: 2,
            necessary_state: "b".to_string(),
        })),
    });
    let node = Node {
        id: 5,
        pos_x: 0,
        pos_y: 0,
        data: NodeData::Phylum(Phylum {
            id: 50,
            name: None,
            branches: vec![Conditions {
                id: 6,
                priority: 0,
                name: "c".to_string(),
                necessities: Some(tree),
                next_node: None,
            }],
        }),
    };
    let d = dialog_with(vec![node]);
    assert!(d.enforce_links_coherence(&vec![1, 2]).is_ok());
    assert_eq!(
        d.enforce_links_coherence(&vec![1]),
        Err(CoherenceError::UnknownVariable {
            branch_node: 50,
            variable_id: 2
        })
    );
}

#[test]
fn phylum_variables_are_collected_right_subtree_first() {
    let tree = NecessityExpression::Tree(TreeNecessity {
        left: Box::new(NecessityExpression::Var(VarNecessity {
            var_id: 1,
            necessary_state: "a".to_string(),
        })),
        operator: "or".to_string(),
        right: Box::new(NecessityExpression::Var(VarNecessity {
            var_id: 2,
            necessary_state: "b".to_string(),
        })),
    });
    let p = Phylum {
        id: 50,
        name: None,
        branches: vec![Conditions {
            id: 6,
            priority: 0,
            name: "c".to_string(),
            necessities: Some(tree),
            next_node: None,
        }],
    };
    assert_eq!(p.get_variables(), vec![2, 1]);
}

#[test]
fn diffs_classify_whole_branch_additions_and_removals() {
    let old = dialog_with(vec![
        branch_node(1, 100, vec![7], None),
        branch_node(2, 200, vec![8], None),
    ]);
    let new = dialog_with(vec![
        branch_node(2, 200, vec![8], None),
        branch_node(3, 300, vec![9], None),
    ]);
    let diffs = new.get_diffs(&old);
    let added: Vec<u128> = diffs.added.iter().map(|p| *p.get_id()).collect();
    let deleted: Vec<u128> = diffs.deleted.iter().map(|p| *p.get_id()).collect();
    assert_eq!(added, vec![300]);
    assert_eq!(deleted, vec![100]);
}

#[test]
fn diff_of_identical_graphs_is_empty() {
    let d = dialog_with(vec![branch_node(1, 100, vec![7], None)]);
    let e = d.clone();
    let diffs = d.get_diffs(&e);
    assert!(diffs.added.is_empty());
    assert!(diffs.deleted.is_empty());
}

#[test]
fn every_reference_of_an_accepted_graph_resolves() {
    // A graph the validator accepts has no dangling references: every
    // populated target is the id of some node of the same graph.
    let d = dialog_with(vec![
        line_node(1, Some(2)),
        choice_node(2, vec![Some(1), None, Some(3)]),
        branch_node(3, 30, vec![5], Some(1)),
    ]);
    assert!(d.enforce_links_coherence(&vec![5]).is_ok());
    let ids: Vec<u128> = d.nodes.iter().map(|n| n.id).collect();
    for n in &d.nodes {
        let targets: Vec<u128> = match &n.data {
            NodeData::Dialog(dn) => dn.next_node.into_iter().collect(),
            NodeData::Choices(cs) => cs.choices.iter().filter_map(|c| c.next_node).collect(),
            NodeData::Phylum(p) => p.branches.iter().filter_map(|c| c.next_node).collect(),
        };
        for t in targets {
            assert!(ids.contains(&t));
        }
    }
}
