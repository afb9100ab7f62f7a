use vstd::prelude::*;

use crate::dialog::{
    diff_absent, dialog_summary, spec_blobs_of, spec_externalized_node, spec_is_violation,
    spec_upsert, Dialog, DialogContent, DialogCreationForm, DialogMetadata, SimpleDialog,
};
use crate::errors::CoherenceError;
use crate::ids::{parse_id, parsed_id, Id};
use crate::meta::{apply_diff, index_keys, refs_of, VarToPhylum};
use crate::variables::{spec_delete_vars, VariableStore};

verus! {

/// Creates a new dialogue from the creation form and records its summary in
/// the listing.  `main_char_exists` is the storage layer's answer to
/// whether the form's main character is a stored record; creation fails,
/// changing nothing, when the main-character id does not parse or the
/// character does not exist.
pub fn create_dialog(
    form: DialogCreationForm,
    main_char_exists: bool,
    metadata: &mut DialogMetadata,
) -> (r: Result<Dialog, CoherenceError>)
    ensures
        r matches Ok(d) ==> {
            &&& parsed_id(form.main_char_id@) == Some(d.main_character)
            &&& main_char_exists
            &&& d.name == form.name
            &&& d.root_node is None
            &&& d.characters_ids@ == Seq::<Id>::empty()
            &&& d.nodes@ == Seq::<crate::dialog::Node>::empty()
            &&& d.wf()
            &&& final(metadata)@ == spec_upsert(old(metadata)@, dialog_summary(d))
        },
        r is Err <==> parsed_id(form.main_char_id@) is None || !main_char_exists,
        r is Err ==> *final(metadata) == *old(metadata),
        old(metadata).wf() ==> final(metadata).wf(),
        r matches Err(e) ==> (if parsed_id(form.main_char_id@) is None {
            e == CoherenceError::CorruptRecord
        } else {
            e matches CoherenceError::NotFound { id: _ }
        }),
{
    let parsed = parse_id(form.main_char_id.as_str());
    match parsed {
        Some(char_id) => {
            if !main_char_exists {
                return Err(CoherenceError::NotFound { id: char_id });
            }
        },
        None => {
            return Err(CoherenceError::CorruptRecord);
        },
    }
    let new_dialog = match Dialog::from_dialog_creation_form(form) {
        Ok(d) => d,
        Err(e) => {
            return Err(e);
        },
    };
    let sd = SimpleDialog::from_dialog(&new_dialog);
    proof {
        assert(crate::dialog::simple_view(sd) == dialog_summary(new_dialog));
    }
    metadata.upsert_dialog(sd);
    Ok(new_dialog)
}

/// Plans one dialogue save against the previously persisted version of the
/// same dialogue.  On success the graph is validated and externalized, the
/// reverse index has the structural diff applied, the listing holds the
/// dialogue's fresh summary, and the returned blobs are the texts to
/// persist beside the graph.  On any failure nothing — graph, index or
/// listing — is changed, so a rejected save leaves every record exactly as
/// it was.
pub fn save_dialog(
    dialog: &mut Dialog,
    prev: &Dialog,
    fks: &mut VarToPhylum,
    metadata: &mut DialogMetadata,
) -> (r: Result<Vec<DialogContent>, CoherenceError>)
    ensures
        r is Ok <==> {
            &&& old(dialog).links_coherent()
            &&& old(dialog).vars_coherent(index_keys(old(fks)@))
            &&& old(metadata).spec_has(old(dialog).id)
        },
        r matches Ok(blobs) ==> {
            &&& final(fks)@ == apply_diff(
                old(fks)@,
                diff_absent(prev.phylums(), old(dialog).phylums()),
                diff_absent(old(dialog).phylums(), prev.phylums()),
            )
            &&& final(metadata)@ == spec_upsert(old(metadata)@, dialog_summary(*old(dialog)))
            &&& final(dialog).nodes@ == old(dialog).nodes@.map_values(
                |n: crate::dialog::Node| spec_externalized_node(n),
            )
            &&& final(dialog).id == old(dialog).id
            &&& final(dialog).name == old(dialog).name
            &&& final(dialog).root_node == old(dialog).root_node
            &&& final(dialog).characters_ids == old(dialog).characters_ids
            &&& final(dialog).created_at == old(dialog).created_at
            &&& final(dialog).main_character == old(dialog).main_character
            &&& blobs@ == spec_blobs_of(old(dialog).nodes@)
        },
        r is Err ==> {
            &&& *final(dialog) == *old(dialog)
            &&& *final(fks) == *old(fks)
            &&& *final(metadata) == *old(metadata)
        },
        crate::meta::index_wf(old(fks)@) ==> crate::meta::index_wf(final(fks)@),
        old(metadata).wf() ==> final(metadata).wf(),
        r matches Err(e) ==> (spec_is_violation(*old(dialog), index_keys(old(fks)@), e) || (
        e matches CoherenceError::NotFound { id } && id == old(dialog).id && !old(
            metadata,
        ).spec_has(id))),
{
    let vars = fks.var_ids();
    match dialog.enforce_links_coherence(&vars) {
        Ok(()) => {},
        Err(e) => {
            return Err(e);
        },
    }
    let dialog_id = dialog.get_id();
    if !metadata.has_dialog(dialog_id) {
        return Err(CoherenceError::NotFound { id: dialog_id });
    }

    let diffs = dialog.get_diffs(prev);
    match fks.mutate_to_match_diffs(diffs) {
        Ok(()) => {},
        Err(e) => {
            // Applying a diff cannot fail; the arm is provably unreachable.
            proof {
                assert(false);
            }
            return Err(e);
        },
    }

    let sd = SimpleDialog::from_dialog(dialog);
    proof {
        assert(crate::dialog::simple_view(sd) == dialog_summary(*dialog));
    }
    metadata.upsert_dialog(sd);

    let mut collector: Vec<DialogContent> = Vec::new();
    dialog.collect_content(&mut collector);
    Ok(collector)
}

/// Deletes a variable from the store, guarded by the reverse index: the
/// deletion goes through exactly when the identifier parses and no branch
/// node references the variable any more.  A blocked or failed deletion
/// changes nothing.
pub fn delete_variable(var_id: &str, fks: &VarToPhylum, vars: &mut VariableStore) -> (r: Result<
    (),
    CoherenceError,
>)
    ensures
        r is Ok <==> (parsed_id(var_id@) matches Some(id) && refs_of(fks@, id).len() == 0),
        r matches Ok(()) ==> final(vars).data@ == spec_delete_vars(
            old(vars).data@,
            parsed_id(var_id@)->Some_0,
        ),
        r is Err ==> *final(vars) == *old(vars),
        parsed_id(var_id@) is None ==> r == Err::<(), CoherenceError>(
            CoherenceError::CorruptRecord,
        ),
        r matches Err(e) ==> (parsed_id(var_id@) matches Some(id) ==> (
        e matches CoherenceError::InUse { variable_id, referencing_branches } && variable_id == id
            && referencing_branches@ == refs_of(fks@, id))),
{
    let id = match parse_id(var_id) {
        Some(id) => id,
        None => {
            return Err(CoherenceError::CorruptRecord);
        },
    };
    match fks.enforce_free_existing_var(&id) {
        Ok(()) => {},
        Err(e) => {
            return Err(e);
        },
    }
    vars.delete_var_with_id(id);
    Ok(())
}

} // verus!
