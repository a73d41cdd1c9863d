//! The workspace store read and written field by field: the open folder, the
//! selected file, and the recent files.

use crate::error::{labelled, CommandError, ErrorKind};
use crate::json::{JsonModel, JsonValue};
use crate::recent::{
    file_of_json, files_json, files_of_json, law_files_json_round_trip, law_list_stays_well_kept,
    push_recent, recent_files_from_json, recent_files_to_json, well_kept, with_recent,
};
use crate::store::{document_representable, Store};
use crate::types::{optional_text, recent_files_view, RecentFile, RecentFileModel};
use vstd::prelude::*;

verus! {

/// The name of the store that keeps the workspace.
pub const WORKSPACE_STORE: &'static str = "workspace.json";

/// The text under `key`, where the document has a string there.
pub open spec fn stored_text(document: Map<Seq<char>, JsonModel>, key: Seq<char>) -> Option<
    Seq<char>,
> {
    if document.contains_key(key) {
        document[key].text()
    } else {
        None
    }
}

/// The recent files of a document: what its `recentFiles` field stands for,
/// and the empty list where the field is absent or malformed.
pub open spec fn stored_recent_files(document: Map<Seq<char>, JsonModel>) -> Seq<RecentFileModel> {
    if document.contains_key("recentFiles"@) {
        match files_of_json(document["recentFiles"@]) {
            Some(files) => files,
            None => Seq::empty(),
        }
    } else {
        Seq::empty()
    }
}

/// What a command reports when the workspace document cannot be written.
pub open spec fn workspace_save_failure(error: CommandError) -> bool {
    &&& error.kind == ErrorKind::Serialization
    &&& error.message@ == labelled(
        "Failed to save workspace store"@,
        "a value cannot be written as JSON"@,
    )
}

/// The text under `key`, where the store has a string there.
pub fn read_text(store: &Store, key: &str) -> (r: Option<String>)
    ensures
        optional_text(r) == stored_text(store@, key@),
{
    match store.get(key) {
        Some(value) => match value.as_str() {
            Some(text) => Some(text.to_owned()),
            None => None,
        },
        None => None,
    }
}

/// Checks that the workspace document can be written as it stands.
pub fn check_workspace_saves(store: &Store) -> (r: Result<(), CommandError>)
    ensures
        r is Ok <==> document_representable(store@),
        r matches Err(error) ==> workspace_save_failure(error),
{
    if store.is_representable() {
        Ok(())
    } else {
        Err(
            CommandError::with_detail(
                ErrorKind::Serialization,
                "Failed to save workspace store",
                "a value cannot be written as JSON",
            ),
        )
    }
}

/// The folder that is open, if the store remembers one.
pub fn get_current_folder_path(store: &Store) -> (r: Option<String>)
    ensures
        optional_text(r) == stored_text(store@, "folderPath"@),
{
    read_text(store, "folderPath")
}

/// Remembers `path` as the open folder. The document is changed in any case;
/// the result says whether it can be written.
pub fn set_current_folder_path(store: &mut Store, path: String) -> (r: Result<(), CommandError>)
    ensures
        final(store)@ == old(store)@.insert("folderPath"@, JsonModel::String(path@)),
        r is Ok <==> document_representable(final(store)@),
        r matches Err(error) ==> workspace_save_failure(error),
{
    store.set("folderPath".to_owned(), JsonValue::String(path));
    check_workspace_saves(store)
}

/// The file that is selected, if the store remembers one.
pub fn get_current_file_path(store: &Store) -> (r: Option<String>)
    ensures
        optional_text(r) == stored_text(store@, "selectedFilePath"@),
{
    read_text(store, "selectedFilePath")
}

/// Remembers `path` as the selected file. The document is changed in any
/// case; the result says whether it can be written.
pub fn set_current_file_path(store: &mut Store, path: String) -> (r: Result<(), CommandError>)
    ensures
        final(store)@ == old(store)@.insert("selectedFilePath"@, JsonModel::String(path@)),
        r is Ok <==> document_representable(final(store)@),
        r matches Err(error) ==> workspace_save_failure(error),
{
    store.set("selectedFilePath".to_owned(), JsonValue::String(path));
    check_workspace_saves(store)
}

/// The recent files, most recent first. A field that is absent or does not
/// hold a list of recent files reads as the empty list.
pub fn get_recent_files(store: &Store) -> (r: Vec<RecentFile>)
    ensures
        recent_files_view(r@) == stored_recent_files(store@),
{
    let found = match store.get("recentFiles") {
        Some(value) => recent_files_from_json(value),
        None => None,
    };
    match found {
        Some(files) => files,
        None => {
            let files: Vec<RecentFile> = Vec::new();
            assert(recent_files_view(files@) =~= Seq::empty());
            files
        },
    }
}

/// Records that `file` was opened: it becomes the first recent file, the
/// earlier entries for its path go, and the list keeps its first ten. The
/// document is changed in any case; the result says whether it can be
/// written.
pub fn add_recent_file(store: &mut Store, file: RecentFile) -> (r: Result<(), CommandError>)
    ensures
        final(store)@ == old(store)@.insert(
            "recentFiles"@,
            files_json(with_recent(stored_recent_files(old(store)@), file@)),
        ),
        r is Ok <==> document_representable(final(store)@),
        r matches Err(error) ==> workspace_save_failure(error),
{
    let mut recent_files = get_recent_files(store);
    push_recent(&mut recent_files, file);
    let serialized = recent_files_to_json(&recent_files);
    store.set("recentFiles".to_owned(), serialized);
    check_workspace_saves(store)
}

/// What `add_recent_file` leaves in the document is what `get_recent_files`
/// reads from it afterwards.
pub proof fn law_added_file_is_read_back(document: Map<Seq<char>, JsonModel>, file: RecentFileModel)
    ensures
        stored_recent_files(
            document.insert(
                "recentFiles"@,
                files_json(with_recent(stored_recent_files(document), file)),
            ),
        ) == with_recent(stored_recent_files(document), file),
{
    law_files_json_round_trip(with_recent(stored_recent_files(document), file));
}

/// Recent files that are kept well in the document stay so when a file is
/// added; the empty document keeps them well.
pub proof fn law_add_keeps_recent_files_well(
    document: Map<Seq<char>, JsonModel>,
    file: RecentFileModel,
)
    requires
        well_kept(stored_recent_files(document)),
    ensures
        well_kept(
            stored_recent_files(
                document.insert(
                    "recentFiles"@,
                    files_json(with_recent(stored_recent_files(document), file)),
                ),
            ),
        ),
        well_kept(stored_recent_files(Map::empty())),
{
    law_added_file_is_read_back(document, file);
    law_list_stays_well_kept(stored_recent_files(document), file);
}

/// A `recentFiles` field that holds anything but an array reads as the empty
/// list.
pub proof fn law_malformed_recent_files_read_empty(document: Map<Seq<char>, JsonModel>)
    requires
        document.contains_key("recentFiles"@),
        !(document["recentFiles"@] is Array),
    ensures
        stored_recent_files(document) == Seq::<RecentFileModel>::empty(),
{
}

/// An array with an item that is no recent file reads as the empty list.
pub proof fn law_malformed_recent_file_reads_empty(
    document: Map<Seq<char>, JsonModel>,
    items: Seq<JsonModel>,
    i: int,
)
    requires
        document.contains_key("recentFiles"@),
        document["recentFiles"@] == JsonModel::Array(items),
        0 <= i < items.len(),
        file_of_json(items[i]) is None,
    ensures
        stored_recent_files(document) == Seq::<RecentFileModel>::empty(),
{
}

} // verus!
