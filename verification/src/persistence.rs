//! The settings store read and merged as a whole, and the workspace store
//! read and replaced as one record.

use crate::error::{labelled, CommandError, ErrorKind};
use crate::json::{
    lemma_member_at, lemma_to_map_push, members_view, to_map, unique_keys, JsonModel, JsonValue,
};
use crate::recent::{files_json, law_files_json_round_trip, recent_files_to_json};
use crate::store::{document_representable, Store};
use crate::types::{optional_text, WorkspaceData, WorkspaceModel};
use crate::workspace_commands::{
    check_workspace_saves, get_current_file_path, get_current_folder_path, get_recent_files,
    stored_recent_files, stored_text, workspace_save_failure,
};
use vstd::prelude::*;

verus! {

/// The name of the store that keeps the settings.
pub const SETTINGS_STORE: &'static str = "settings.json";

/// What a command reports when the settings document cannot be written.
pub open spec fn settings_save_failure(error: CommandError) -> bool {
    &&& error.kind == ErrorKind::Serialization
    &&& error.message@ == labelled(
        "Failed to save settings store"@,
        "a value cannot be written as JSON"@,
    )
}

/// All settings: each key of the store once, with its value.
pub fn get_settings(store: &Store) -> (r: Vec<(String, JsonValue)>)
    ensures
        unique_keys(members_view(r@)),
        to_map(members_view(r@)) == store@,
{
    store.entries()
}

/// Merges `settings` into the store: each given key takes its given value
/// (the last one, where a key is given twice), every other key keeps its
/// value. The document is changed in any case; the result says whether it
/// can be written.
pub fn save_settings(store: &mut Store, settings: Vec<(String, JsonValue)>) -> (r: Result<
    (),
    CommandError,
>)
    ensures
        final(store)@ == old(store)@.union_prefer_right(to_map(members_view(settings@))),
        r is Ok <==> document_representable(final(store)@),
        r matches Err(error) ==> settings_save_failure(error),
{
    let ghost before = store@;
    let ghost pairs = members_view(settings@);
    let mut i: usize = 0;
    assert(before.union_prefer_right(to_map(pairs.subrange(0, 0))) =~= before);
    while i < settings.len()
        invariant
            i <= settings.len(),
            pairs == members_view(settings@),
            store@ == before.union_prefer_right(to_map(pairs.subrange(0, i as int))),
        decreases settings.len() - i,
    {
        let key = settings[i].0.clone();
        let value = settings[i].1.clone();
        proof {
            let head = pairs.subrange(0, i as int);
            assert(pairs.subrange(0, i + 1) =~= head.push((key@, value@)));
            lemma_to_map_push(head, key@, value@);
            assert(before.union_prefer_right(to_map(head).insert(key@, value@))
                =~= before.union_prefer_right(to_map(head)).insert(key@, value@));
        }
        store.set(key, value);
        i += 1;
    }
    assert(pairs.subrange(0, i as int) =~= pairs);
    if store.is_representable() {
        Ok(())
    } else {
        Err(
            CommandError::with_detail(
                ErrorKind::Serialization,
                "Failed to save settings store",
                "a value cannot be written as JSON",
            ),
        )
    }
}

/// After a merge the store holds every given setting with its given value,
/// and every key that was not given with the value it had.
pub proof fn law_saved_settings_are_read_back(
    before: Map<Seq<char>, JsonModel>,
    settings: Seq<(Seq<char>, JsonModel)>,
)
    requires
        unique_keys(settings),
    ensures
        forall|i: int|
            0 <= i < settings.len() ==> {
                let after = before.union_prefer_right(to_map(settings));
                after.contains_key((#[trigger] settings[i]).0) && after[settings[i].0]
                    == settings[i].1
            },
        forall|key: Seq<char>|
            #![trigger before.contains_key(key)]
            before.contains_key(key) && !to_map(settings).contains_key(key) ==> {
                let after = before.union_prefer_right(to_map(settings));
                after.contains_key(key) && after[key] == before[key]
            },
{
    assert forall|i: int| 0 <= i < settings.len() implies {
        let after = before.union_prefer_right(to_map(settings));
        after.contains_key((#[trigger] settings[i]).0) && after[settings[i].0] == settings[i].1
    } by {
        lemma_member_at(settings, i);
    }
}

/// The JSON form of an optional text: the string, or `null`.
pub open spec fn optional_text_json(text: Option<Seq<char>>) -> JsonModel {
    match text {
        Some(s) => JsonModel::String(s),
        None => JsonModel::Null,
    }
}

/// The workspace that a document holds.
pub open spec fn stored_workspace(document: Map<Seq<char>, JsonModel>) -> WorkspaceModel {
    WorkspaceModel {
        folder_path: stored_text(document, "folderPath"@),
        selected_file_path: stored_text(document, "selectedFilePath"@),
        recent_files: stored_recent_files(document),
    }
}

/// The document after the workspace record `state` replaced the one it held.
pub open spec fn with_workspace(
    document: Map<Seq<char>, JsonModel>,
    state: WorkspaceModel,
) -> Map<Seq<char>, JsonModel> {
    document.insert("folderPath"@, optional_text_json(state.folder_path)).insert(
        "selectedFilePath"@,
        optional_text_json(state.selected_file_path),
    ).insert("recentFiles"@, files_json(state.recent_files))
}

/// The whole workspace record. A store that was never written gives the
/// record of a first run.
pub fn get_workspace_state(store: &Store) -> (r: WorkspaceData)
    ensures
        r@ == stored_workspace(store@),
{
    WorkspaceData {
        folder_path: get_current_folder_path(store),
        selected_file_path: get_current_file_path(store),
        recent_files: get_recent_files(store),
    }
}

/// The JSON form of an optional text.
fn optional_text_to_json(text: Option<String>) -> (r: JsonValue)
    ensures
        r@ == optional_text_json(optional_text(text)),
{
    match text {
        Some(s) => JsonValue::String(s),
        None => JsonValue::Null,
    }
}

/// Replaces the whole workspace record: all three fields are written, so
/// whatever a field held before is gone. The document is changed in any
/// case; the result says whether it can be written.
pub fn save_workspace_state(store: &mut Store, state: WorkspaceData) -> (r: Result<
    (),
    CommandError,
>)
    ensures
        final(store)@ == with_workspace(old(store)@, state@),
        r is Ok <==> document_representable(final(store)@),
        r matches Err(error) ==> workspace_save_failure(error),
{
    let recent_files = recent_files_to_json(&state.recent_files);
    store.set("folderPath".to_owned(), optional_text_to_json(state.folder_path));
    store.set("selectedFilePath".to_owned(), optional_text_to_json(state.selected_file_path));
    store.set("recentFiles".to_owned(), recent_files);
    check_workspace_saves(store)
}

/// A workspace record that was saved is read back unchanged.
pub proof fn law_workspace_round_trip(document: Map<Seq<char>, JsonModel>, state: WorkspaceModel)
    ensures
        stored_workspace(with_workspace(document, state)) == state,
{
    reveal_strlit("folderPath");
    reveal_strlit("selectedFilePath");
    reveal_strlit("recentFiles");
    law_files_json_round_trip(state.recent_files);
    assert("folderPath"@[0] != "recentFiles"@[0]);
}

/// The first run's record is what an empty store reads as.
pub proof fn law_empty_store_reads_default()
    ensures
        stored_workspace(Map::empty()) == (WorkspaceModel {
            folder_path: None,
            selected_file_path: None,
            recent_files: Seq::empty(),
        }),
{
}

} // verus!
