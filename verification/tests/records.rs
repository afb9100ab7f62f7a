use open_dialog::dialog::{Dialog, DialogCreationForm, DialogMetadata, SimpleDialog};
use open_dialog::errors::{CoherenceError, ValdidationError};
use open_dialog::gitter::{BranchInfo, CommitGraph, CommitInfo, GitImpl};
use open_dialog::project::{short_dir_name, Project};
use open_dialog::provider::DialogProvider;
use open_dialog::service::create_dialog;
use uuid::Uuid;

fn simple(id: u128, name: &str) -> SimpleDialog {
    SimpleDialog {
        id,
        name: name.to_string(),
        main_character: 1,
        characters: vec![],
    }
}

#[test]
fn create_dialog_records_the_new_dialog_in_the_listing() {
    let char_uuid = Uuid::parse_str("550e8400-e29b-41d4-a716-446655440000").unwrap();
    let form = DialogCreationForm {
        name: "intro".to_string(),
        main_char_id: char_uuid.to_string(),
    };
    let mut metadata = DialogMetadata::new();
    let d = create_dialog(form, true, &mut metadata).unwrap();
    assert_eq!(d.name, "intro".to_string());
    assert_eq!(d.main_character, char_uuid.as_u128());
    assert_eq!(d.root_node, None);
    assert!(d.nodes.is_empty());
    assert_eq!(metadata.data.len(), 1);
    assert_eq!(metadata.data[0].id, d.id);
    assert_eq!(metadata.data[0].name, "intro".to_string());
}

#[test]
fn create_dialog_rejects_an_unparseable_main_character() {
    let form = DialogCreationForm {
        name: "intro".to_string(),
        main_char_id: "garbage".to_string(),
    };
    let mut metadata = DialogMetadata::new();
    let r = create_dialog(form, true, &mut metadata);
    assert_eq!(r, Err(CoherenceError::CorruptRecord));
    assert!(metadata.data.is_empty());
}

#[test]
fn create_dialog_rejects_a_missing_main_character() {
    let char_uuid = Uuid::parse_str("550e8400-e29b-41d4-a716-446655440000").unwrap();
    let form = DialogCreationForm {
        name: "intro".to_string(),
        main_char_id: char_uuid.to_string(),
    };
    let mut metadata = DialogMetadata::new();
    let r = create_dialog(form, false, &mut metadata);
    assert_eq!(
        r,
        Err(CoherenceError::NotFound {
            id: char_uuid.as_u128()
        })
    );
    assert!(metadata.data.is_empty());
}

#[test]
fn from_dialog_keeps_the_summary_fields() {
    let d = Dialog {
        id: 5,
        name: "quest".to_string(),
        root_node: Some(1),
        characters_ids: vec![10, 11],
        created_at: 99,
        main_character: 10,
        nodes: vec![],
    };
    let s = SimpleDialog::from_dialog(&d);
    assert_eq!(s.id, 5);
    assert_eq!(s.name, "quest".to_string());
    assert_eq!(s.main_character, 10);
    assert_eq!(s.characters, vec![10, 11]);
}

#[test]
fn upsert_replaces_an_entry_under_the_same_id() {
    let mut m = DialogMetadata::new();
    m.upsert_dialog(simple(1, "one"));
    m.upsert_dialog(simple(2, "two"));
    m.upsert_dialog(simple(1, "one renamed"));
    let got: Vec<(u128, String)> = m.data.iter().map(|s| (s.id, s.name.clone())).collect();
    assert_eq!(
        got,
        vec![(1, "one renamed".to_string()), (2, "two".to_string())]
    );
}

#[test]
fn delete_dialog_by_id_removes_the_entry_or_reports_it_missing() {
    let mut m = DialogMetadata::new();
    m.upsert_dialog(simple(1, "one"));
    m.upsert_dialog(simple(2, "two"));
    assert!(m.delete_dialog_by_id(&1).is_ok());
    let ids: Vec<u128> = m.data.iter().map(|s| s.id).collect();
    assert_eq!(ids, vec![2]);
    assert_eq!(
        m.delete_dialog_by_id(&1),
        Err(CoherenceError::NotFound { id: 1 })
    );
}

#[test]
fn listing_edits_may_not_add_or_drop_dialogs() {
    let mut old = DialogMetadata::new();
    old.upsert_dialog(simple(1, "one"));
    old.upsert_dialog(simple(2, "two"));

    let mut renamed = DialogMetadata::new();
    renamed.upsert_dialog(simple(2, "two renamed"));
    renamed.upsert_dialog(simple(1, "one"));
    assert!(renamed.enforce_metadata_contains_same_dialogs(&old).is_ok());

    let mut extra = DialogMetadata::new();
    extra.upsert_dialog(simple(1, "one"));
    extra.upsert_dialog(simple(2, "two"));
    extra.upsert_dialog(simple(3, "three"));
    assert_eq!(
        extra.enforce_metadata_contains_same_dialogs(&old),
        Err(CoherenceError::NotFound { id: 3 })
    );

    let mut missing = DialogMetadata::new();
    missing.upsert_dialog(simple(1, "one"));
    assert_eq!(
        missing.enforce_metadata_contains_same_dialogs(&old),
        Err(CoherenceError::NotFound { id: 2 })
    );
}

#[test]
fn short_dir_name_matches_the_simple_uuid_form() {
    let u = Uuid::parse_str("550e8400-e29b-41d4-a716-446655440000").unwrap();
    assert_eq!(short_dir_name(u.as_u128()), u.simple().to_string()[..12]);
    assert_eq!(short_dir_name(0), "000000000000".to_string());
    assert_eq!(
        short_dir_name(u128::MAX),
        "ffffffffffff".to_string()
    );
}

#[test]
fn a_new_project_lives_under_its_shortened_id() {
    let p = Project::new("my game", "/tmp/root");
    assert_eq!(p.name, "my game".to_string());
    assert_eq!(p.path, format!("/tmp/root/{}", short_dir_name(p.id)));
    assert_eq!(p.metadata.last_commit, None);
    assert_eq!(p.metadata.current_branch, None);
    assert!(p.metadata.branches.is_empty());
    assert_eq!(p.get_path(), &p.path);
    assert_eq!(*p.get_id(), p.id);
}

#[test]
fn project_branch_bookkeeping() {
    let mut p = Project::new("g", "/r");
    p.set_last_commit(123);
    assert_eq!(p.metadata.last_commit, Some(123));
    p.append_branch("main");
    assert_eq!(p.metadata.branches, vec!["main".to_string()]);
    assert_eq!(p.metadata.current_branch, None);
    p.append_branch_and_checkout("dev");
    assert_eq!(
        p.metadata.branches,
        vec!["main".to_string(), "dev".to_string()]
    );
    assert_eq!(p.metadata.current_branch, Some("dev".to_string()));
}

#[test]
fn commit_graph_holds_what_it_was_built_from() {
    let commit = CommitInfo {
        id: "abc".to_string(),
        message: Some("first".to_string()),
        author: Some("me".to_string()),
        email: None,
        timestamp: 7,
        parents: vec![],
    };
    let branch = BranchInfo::new("main".to_string(), "abc".to_string());
    assert_eq!(branch.name, "main".to_string());
    assert_eq!(branch.tip, "abc".to_string());
    let g = CommitGraph::new(vec![commit.clone()], Some("abc".to_string()), vec![branch]);
    assert_eq!(g.commits, vec![commit]);
    assert_eq!(g.head, Some("abc".to_string()));
    assert_eq!(g.branches.len(), 1);
}

#[test]
fn git_stand_in_starts_without_a_root() {
    let g = GitImpl::new();
    assert_eq!(g.root_dir, None);
    GitImpl::set_path("/somewhere".to_string());
}

#[test]
fn dialog_provider_greets_in_kind() {
    let p = DialogProvider::new("p".to_string());
    assert_eq!(p.name, "p".to_string());
    assert_eq!(
        DialogProvider::create_dialog("pipi"),
        "le caca : pipi".to_string()
    );
}

#[test]
fn validation_errors_keep_their_messages() {
    let e = ValdidationError::new(vec![("field", "message")]);
    assert_eq!(e.err_map, vec![("field", "message")]);
}
