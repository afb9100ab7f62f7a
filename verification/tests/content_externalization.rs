use open_dialog::dialog::{Dialog, DialogContent, DialogNode, Node, NodeData};
use open_dialog::errors::CoherenceError;

fn line_with_content(id: u128, content: Option<&str>) -> Node {
    Node {
        id,
        pos_x: 0,
        pos_y: 0,
        data: NodeData::Dialog(DialogNode {
            next_node: None,
            character_id: None,
            content_link: None,
            content: content.map(|s| s.to_string()),
        }),
    }
}

fn dialog_with(nodes: Vec<Node>) -> Dialog {
    Dialog {
        id: 7,
        name: "d".to_string(),
        root_node: None,
        characters_ids: vec![],
        created_at: 0,
        main_character: 1,
        nodes,
    }
}

fn line_fields(n: &Node) -> (Option<u128>, Option<String>) {
    match &n.data {
        NodeData::Dialog(dn) => (dn.content_link, dn.content.clone()),
        _ => panic!("not a spoken line"),
    }
}

#[test]
fn externalize_moves_inline_text_out_and_hydrate_restores_it() {
    // A spoken line with inline text "Hello there": externalize then
    // hydrate yields the same text, and the externalized graph holds no
    // inline text for that node, only the link.
    let mut d = dialog_with(vec![line_with_content(1, Some("Hello there"))]);
    let mut blobs: Vec<DialogContent> = vec![];
    d.collect_content(&mut blobs);

    assert_eq!(blobs.len(), 1);
    assert_eq!(blobs[0].node_id, 1);
    assert_eq!(blobs[0].content, "Hello there".to_string());
    let (link, content) = line_fields(&d.nodes[0]);
    assert_eq!(link, Some(1));
    assert_eq!(content, None);

    assert!(d.hydrate_content(&blobs).is_ok());
    let (link, content) = line_fields(&d.nodes[0]);
    assert_eq!(link, Some(1));
    assert_eq!(content, Some("Hello there".to_string()));
}

#[test]
fn externalize_skips_empty_and_absent_text() {
    let mut d = dialog_with(vec![
        line_with_content(1, Some("")),
        line_with_content(2, None),
    ]);
    let mut blobs: Vec<DialogContent> = vec![];
    d.collect_content(&mut blobs);
    assert!(blobs.is_empty());
    assert_eq!(line_fields(&d.nodes[0]), (None, Some("".to_string())));
    assert_eq!(line_fields(&d.nodes[1]), (None, None));
}

#[test]
fn externalize_is_idempotent_on_an_externalized_graph() {
    let mut d = dialog_with(vec![line_with_content(1, Some("text"))]);
    let mut blobs: Vec<DialogContent> = vec![];
    d.collect_content(&mut blobs);
    let snapshot = d.clone();
    let mut more: Vec<DialogContent> = vec![];
    d.collect_content(&mut more);
    assert!(more.is_empty());
    assert_eq!(d, snapshot);
}

#[test]
fn hydrate_reports_a_missing_blob_and_changes_nothing() {
    let mut d = dialog_with(vec![line_with_content(9, Some("kept"))]);
    match &mut d.nodes[0].data {
        NodeData::Dialog(dn) => {
            dn.content = None;
            dn.content_link = Some(123);
        }
        _ => unreachable!(),
    }
    let before = d.clone();
    let r = d.hydrate_content(&vec![]);
    assert_eq!(
        r,
        Err(CoherenceError::ContentMissing {
            node_id: 9,
            content_id: 123
        })
    );
    assert_eq!(d, before);
}

#[test]
fn externalize_collects_blobs_in_node_order() {
    let mut d = dialog_with(vec![
        line_with_content(1, Some("one")),
        line_with_content(2, Some("two")),
        line_with_content(3, None),
        line_with_content(4, Some("four")),
    ]);
    let mut blobs: Vec<DialogContent> = vec![];
    d.collect_content(&mut blobs);
    let got: Vec<(u128, String)> = blobs.iter().map(|b| (b.node_id, b.content.clone())).collect();
    assert_eq!(
        got,
        vec![
            (1, "one".to_string()),
            (2, "two".to_string()),
            (4, "four".to_string())
        ]
    );
}
