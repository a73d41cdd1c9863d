//! The recent-files list: most recent first, one entry per path, at most ten
//! entries; and the JSON form in which the workspace store keeps it.

use crate::json::{
    find_member, items_view, lemma_array_view, lemma_member_push, lemma_object_view, member,
    members_view, JsonModel, JsonNumber, JsonValue,
};
use crate::types::{recent_files_view, RecentFile, RecentFileModel};
use vstd::prelude::*;

verus! {

/// The list never holds more entries than this.
pub const RECENT_LIMIT: usize = 10;

/// The test that keeps the entries whose path is not `path`.
pub open spec fn differs_from(path: Seq<char>) -> spec_fn(RecentFileModel) -> bool {
    |f: RecentFileModel| f.path != path
}

/// The entries of `list` whose path is not `path`, in their order.
pub open spec fn other_paths(list: Seq<RecentFileModel>, path: Seq<char>) -> Seq<RecentFileModel> {
    list.filter(differs_from(path))
}

/// The first `limit` entries of `list`, or all of it where it has fewer.
pub open spec fn truncated(list: Seq<RecentFileModel>, limit: nat) -> Seq<RecentFileModel> {
    if list.len() <= limit {
        list
    } else {
        list.subrange(0, limit as int)
    }
}

/// The list after `file` was opened: `file` first, then the earlier entries
/// for other paths, cut to the limit.
pub open spec fn with_recent(list: Seq<RecentFileModel>, file: RecentFileModel) -> Seq<
    RecentFileModel,
> {
    truncated(seq![file] + other_paths(list, file.path), RECENT_LIMIT as nat)
}

/// The list after the files of `files` were opened one after the other.
pub open spec fn with_all_recent(list: Seq<RecentFileModel>, files: Seq<RecentFileModel>) -> Seq<
    RecentFileModel,
>
    decreases files.len(),
{
    if files.len() == 0 {
        list
    } else {
        with_recent(with_all_recent(list, files.drop_last()), files.last())
    }
}

/// No two entries share a path.
pub open spec fn unique_paths(list: Seq<RecentFileModel>) -> bool {
    forall|i: int, j: int| 0 <= i < j < list.len() ==> list[i].path != list[j].path
}

/// Records that `file` was opened: drops every entry with its path, puts it
/// first, and keeps the first ten entries.
pub fn push_recent(list: &mut Vec<RecentFile>, file: RecentFile)
    ensures
        recent_files_view(final(list)@) == with_recent(recent_files_view(old(list)@), file@),
{
    let ghost before = recent_files_view(list@);
    let ghost added = file@;
    let mut kept: Vec<RecentFile> = Vec::new();
    kept.push(file);
    proof {
        reveal(Seq::filter);
        assert(before.subrange(0, 0) =~= Seq::<RecentFileModel>::empty());
        assert(recent_files_view(kept@) =~= seq![added] + other_paths(
            before.subrange(0, 0),
            added.path,
        ));
    }
    let mut i: usize = 0;
    while i < list.len()
        invariant
            i <= list.len(),
            before == recent_files_view(list@),
            1 <= kept.len() <= RECENT_LIMIT,
            kept@[0]@ == added,
            recent_files_view(kept@) == truncated(
                seq![added] + other_paths(before.subrange(0, i as int), added.path),
                RECENT_LIMIT as nat,
            ),
        decreases list.len() - i,
    {
        let ghost head = before.subrange(0, i as int);
        let ghost seen = seq![added] + other_paths(head, added.path);
        let ghost kept_before = recent_files_view(kept@);
        proof {
            assert(before.subrange(0, i + 1) =~= head.push(before[i as int]));
            head.lemma_filter_push(before[i as int], differs_from(added.path));
        }
        let same_path = list[i].path == kept[0].path;
        if !same_path {
            if kept.len() < RECENT_LIMIT {
                kept.push(list[i].clone());
                proof {
                    assert(recent_files_view(kept@) =~= kept_before.push(before[i as int]));
                    assert(seq![added] + other_paths(head, added.path).push(before[i as int])
                        =~= seen.push(before[i as int]));
                }
            } else {
                proof {
                    assert(seq![added] + other_paths(head, added.path).push(before[i as int])
                        =~= seen.push(before[i as int]));
                    assert(seen.push(before[i as int]).subrange(0, RECENT_LIMIT as int)
                        =~= kept_before);
                }
            }
        }
        i += 1;
    }
    assert(before.subrange(0, i as int) =~= before);
    *list = kept;
}

/// After a file is opened it is first in the list, no other entry has its
/// path, and the list is within the limit.
pub proof fn law_opened_file_is_first(list: Seq<RecentFileModel>, file: RecentFileModel)
    ensures
        1 <= with_recent(list, file).len() <= RECENT_LIMIT,
        with_recent(list, file)[0] == file,
        forall|i: int|
            0 < i < with_recent(list, file).len() ==> (#[trigger] with_recent(list, file)[i]).path
                != file.path,
{
    let others = other_paths(list, file.path);
    let result = with_recent(list, file);
    assert forall|i: int| 0 < i < result.len() implies (#[trigger] result[i]).path
        != file.path by {
        assert(result[i] == others[i - 1]);
        list.lemma_filter_pred(differs_from(file.path), i - 1);
    }
}

/// Opening the same path twice leaves one entry for it: the second call's,
/// at the head of the list.
pub proof fn law_same_path_twice(
    list: Seq<RecentFileModel>,
    first: RecentFileModel,
    second: RecentFileModel,
)
    requires
        first.path == second.path,
    ensures
        with_recent(with_recent(list, first), second)[0] == second,
        forall|i: int|
            0 <= i < with_recent(with_recent(list, first), second).len() && (#[trigger] with_recent(
                with_recent(list, first),
                second,
            )[i]).path == second.path ==> i == 0,
{
    law_opened_file_is_first(with_recent(list, first), second);
}

/// A test keeps the start of a list on which it holds.
pub proof fn lemma_filter_keeps_prefix(
    list: Seq<RecentFileModel>,
    keep: spec_fn(RecentFileModel) -> bool,
    count: int,
)
    requires
        0 <= count <= list.len(),
        forall|j: int| 0 <= j < count ==> keep(#[trigger] list[j]),
    ensures
        list.filter(keep).len() >= count,
        forall|j: int| 0 <= j < count ==> (#[trigger] list.filter(keep)[j]) == list[j],
    decreases list.len(),
{
    reveal(Seq::filter);
    if list.len() > 0 {
        let head = list.drop_last();
        if list.len() == count {
            lemma_filter_keeps_prefix(head, keep, count - 1);
            head.lemma_filter_len(keep);
        } else {
            lemma_filter_keeps_prefix(head, keep, count);
        }
    }
}

/// Dropping the entries of one path leaves the paths distinct.
pub proof fn lemma_other_paths_unique(list: Seq<RecentFileModel>, path: Seq<char>)
    requires
        unique_paths(list),
    ensures
        unique_paths(other_paths(list, path)),
    decreases list.len(),
{
    reveal(Seq::filter);
    if list.len() > 0 {
        let head = list.drop_last();
        let rest = other_paths(head, path);
        lemma_other_paths_unique(head, path);
        if list.last().path != path {
            assert forall|i: int| 0 <= i < rest.len() implies (#[trigger] rest[i]).path
                != list.last().path by {
                assert(rest.contains(rest[i]));
                head.lemma_filter_contains_rev(differs_from(path), rest[i]);
                let k = choose|k: int| 0 <= k < head.len() && head[k] == rest[i];
                assert(list[k] == head[k]);
            }
        }
    }
}

/// A list of distinct paths stays one when a file is opened.
pub proof fn law_paths_stay_unique(list: Seq<RecentFileModel>, file: RecentFileModel)
    requires
        unique_paths(list),
    ensures
        unique_paths(with_recent(list, file)),
{
    let others = other_paths(list, file.path);
    let joined = seq![file] + others;
    lemma_other_paths_unique(list, file.path);
    assert forall|i: int, j: int| 0 <= i < j < joined.len() implies joined[i].path
        != joined[j].path by {
        list.lemma_filter_pred(differs_from(file.path), j - 1);
        if i > 0 {
            assert(joined[i] == others[i - 1]);
            assert(joined[j] == others[j - 1]);
        }
    }
}

/// The list is as the workspace keeps it: within the limit, one entry for
/// each path.
pub open spec fn well_kept(list: Seq<RecentFileModel>) -> bool {
    list.len() <= RECENT_LIMIT && unique_paths(list)
}

/// A list that is kept well stays so when a file is opened.
pub proof fn law_list_stays_well_kept(list: Seq<RecentFileModel>, file: RecentFileModel)
    requires
        well_kept(list),
    ensures
        well_kept(with_recent(list, file)),
{
    law_opened_file_is_first(list, file);
    law_paths_stay_unique(list, file);
}

/// After files of distinct paths were opened, the list starts with them,
/// the last opened first, as far as the limit lets them in.
pub proof fn lemma_recent_prefix(list: Seq<RecentFileModel>, files: Seq<RecentFileModel>)
    requires
        unique_paths(files),
    ensures
        with_all_recent(list, files).len() >= if files.len() <= RECENT_LIMIT {
            files.len()
        } else {
            RECENT_LIMIT as nat
        },
        with_all_recent(list, files).len() <= RECENT_LIMIT || files.len() == 0,
        forall|i: int|
            0 <= i < files.len() && i < RECENT_LIMIT ==> (#[trigger] with_all_recent(
                list,
                files,
            )[i]) == files[files.len() - 1 - i],
    decreases files.len(),
{
    if files.len() > 0 {
        let earlier = files.drop_last();
        let file = files.last();
        let previous = with_all_recent(list, earlier);
        let count: int = if earlier.len() <= RECENT_LIMIT {
            earlier.len() as int
        } else {
            RECENT_LIMIT as int
        };
        lemma_recent_prefix(list, earlier);
        assert forall|j: int| 0 <= j < count implies differs_from(file.path)(
            #[trigger] previous[j],
        ) by {
            assert(previous[j] == earlier[earlier.len() - 1 - j]);
            assert(earlier[earlier.len() - 1 - j] == files[files.len() - 2 - j]);
        }
        lemma_filter_keeps_prefix(previous, differs_from(file.path), count);
        let others = other_paths(previous, file.path);
        let result = with_recent(previous, file);
        assert forall|i: int| 0 <= i < files.len() && i < RECENT_LIMIT implies (#[trigger] result[i])
            == files[files.len() - 1 - i] by {
            if i > 0 {
                assert(result[i] == others[i - 1]);
                assert(others[i - 1] == previous[i - 1]);
            }
        }
    }
}

/// Opening ten or more files of distinct paths leaves exactly the ten opened
/// last, the most recent first, whatever the list held before.
pub proof fn law_ten_most_recent(list: Seq<RecentFileModel>, files: Seq<RecentFileModel>)
    requires
        unique_paths(files),
        files.len() >= RECENT_LIMIT,
    ensures
        with_all_recent(list, files) == Seq::new(
            RECENT_LIMIT as nat,
            |i: int| files[files.len() - 1 - i],
        ),
{
    lemma_recent_prefix(list, files);
    assert(with_all_recent(list, files) =~= Seq::new(
        RECENT_LIMIT as nat,
        |i: int| files[files.len() - 1 - i],
    ));
}

/// The JSON form of a recent file: an object with the members `path`, `name`
/// and `accessed_at`.
pub open spec fn file_json(file: RecentFileModel) -> JsonModel {
    JsonModel::Object(
        seq![
            ("path"@, JsonModel::String(file.path)),
            ("name"@, JsonModel::String(file.name)),
            ("accessed_at"@, JsonModel::Number(JsonNumber::PosInt(file.accessed_at))),
        ],
    )
}

/// The recent file made of three values, where the first two are strings and
/// the third is an unsigned integer.
pub open spec fn file_of_parts(
    path: Option<JsonModel>,
    name: Option<JsonModel>,
    accessed_at: Option<JsonModel>,
) -> Option<RecentFileModel> {
    if path is Some && path->0.text() is Some && name is Some && name->0.text() is Some
        && accessed_at is Some && accessed_at->0.count() is Some {
        Some(
            RecentFileModel {
                path: path->0.text()->0,
                name: name->0.text()->0,
                accessed_at: accessed_at->0.count()->0,
            },
        )
    } else {
        None
    }
}

/// The recent file that a JSON value stands for. An object stands for one
/// where it has the three members with the right types; other members do not
/// count. An array stands for one where it holds exactly the three values in
/// the order path, name, time. Nothing else does.
pub open spec fn file_of_json(value: JsonModel) -> Option<RecentFileModel> {
    match value {
        JsonModel::Object(members) => file_of_parts(
            member(members, "path"@),
            member(members, "name"@),
            member(members, "accessed_at"@),
        ),
        JsonModel::Array(items) => if items.len() == 3 {
            file_of_parts(Some(items[0]), Some(items[1]), Some(items[2]))
        } else {
            None
        },
        _ => None,
    }
}

/// The JSON form of a list of recent files: the array of their forms.
pub open spec fn files_json(files: Seq<RecentFileModel>) -> JsonModel {
    JsonModel::Array(files.map_values(|file: RecentFileModel| file_json(file)))
}

/// The list that a JSON value stands for: an array each of whose items
/// stands for a recent file. Nothing else stands for a list.
pub open spec fn files_of_json(value: JsonModel) -> Option<Seq<RecentFileModel>> {
    match value {
        JsonModel::Array(items) => if forall|i: int|
            0 <= i < items.len() ==> file_of_json(#[trigger] items[i]) is Some {
            Some(items.map_values(|item: JsonModel| file_of_json(item)->0))
        } else {
            None
        },
        _ => None,
    }
}

/// The mathematical value of an optional recent file.
pub open spec fn optional_file(file: Option<RecentFile>) -> Option<RecentFileModel> {
    match file {
        Some(f) => Some(f@),
        None => None,
    }
}

/// The mathematical value of an optional list of recent files.
pub open spec fn optional_files(files: Option<Vec<RecentFile>>) -> Option<Seq<RecentFileModel>> {
    match files {
        Some(list) => Some(recent_files_view(list@)),
        None => None,
    }
}

/// Reading the JSON form of a recent file gives the file back.
pub proof fn law_file_json_round_trip(file: RecentFileModel)
    ensures
        file_of_json(file_json(file)) == Some(file),
{
    reveal_strlit("path");
    reveal_strlit("name");
    reveal_strlit("accessed_at");
    let path = ("path"@, JsonModel::String(file.path));
    let name = ("name"@, JsonModel::String(file.name));
    let time = ("accessed_at"@, JsonModel::Number(JsonNumber::PosInt(file.accessed_at)));
    let one = seq![path];
    let two = seq![path, name];
    let three = seq![path, name, time];
    assert("path"@[0] != "name"@[0]);
    assert(one =~= Seq::<(Seq<char>, JsonModel)>::empty().push(path));
    assert(two =~= one.push(name));
    assert(three =~= two.push(time));
    lemma_member_push(Seq::empty(), path.0, path.1, "path"@);
    lemma_member_push(one, name.0, name.1, "path"@);
    lemma_member_push(one, name.0, name.1, "name"@);
    lemma_member_push(two, time.0, time.1, "path"@);
    lemma_member_push(two, time.0, time.1, "name"@);
    lemma_member_push(two, time.0, time.1, "accessed_at"@);
}

/// Reading the JSON form of a list of recent files gives the list back.
pub proof fn law_files_json_round_trip(files: Seq<RecentFileModel>)
    ensures
        files_of_json(files_json(files)) == Some(files),
{
    let items = files.map_values(|file: RecentFileModel| file_json(file));
    assert forall|i: int| 0 <= i < items.len() implies file_of_json(#[trigger] items[i]) == Some(
        files[i],
    ) by {
        law_file_json_round_trip(files[i]);
    }
    assert(items.map_values(|item: JsonModel| file_of_json(item)->0) =~= files);
}

/// The JSON form of a recent file.
pub fn recent_file_to_json(file: &RecentFile) -> (r: JsonValue)
    ensures
        r@ == file_json(file@),
{
    let mut members: Vec<(String, JsonValue)> = Vec::new();
    members.push(("path".to_owned(), JsonValue::String(file.path.clone())));
    members.push(("name".to_owned(), JsonValue::String(file.name.clone())));
    members.push(
        ("accessed_at".to_owned(), JsonValue::Number(JsonNumber::PosInt(file.accessed_at))),
    );
    proof {
        lemma_object_view(members);
        assert(members_view(members@) =~= file_json(file@)->Object_0);
    }
    JsonValue::Object(members)
}

/// The recent file made of three values, where they have the right types.
fn recent_file_of_parts(
    path: Option<&JsonValue>,
    name: Option<&JsonValue>,
    accessed_at: Option<&JsonValue>,
) -> (r: Option<RecentFile>)
    ensures
        optional_file(r) == file_of_parts(
            match path {
                Some(v) => Some(v@),
                None => None,
            },
            match name {
                Some(v) => Some(v@),
                None => None,
            },
            match accessed_at {
                Some(v) => Some(v@),
                None => None,
            },
        ),
{
    let path_text = match path {
        Some(v) => v.as_str(),
        None => None,
    };
    let name_text = match name {
        Some(v) => v.as_str(),
        None => None,
    };
    let time = match accessed_at {
        Some(v) => v.as_u64(),
        None => None,
    };
    match (path_text, name_text, time) {
        (Some(p), Some(n), Some(t)) => Some(
            RecentFile { path: p.to_owned(), name: n.to_owned(), accessed_at: t },
        ),
        _ => None,
    }
}

/// The recent file that a JSON value stands for, if it stands for one.
pub fn recent_file_from_json(value: &JsonValue) -> (r: Option<RecentFile>)
    ensures
        optional_file(r) == file_of_json(value@),
{
    match value {
        JsonValue::Object(members) => {
            proof {
                lemma_object_view(*members);
            }
            recent_file_of_parts(
                find_member(members, "path"),
                find_member(members, "name"),
                find_member(members, "accessed_at"),
            )
        },
        JsonValue::Array(items) => {
            proof {
                lemma_array_view(*items);
            }
            if items.len() == 3 {
                recent_file_of_parts(Some(&items[0]), Some(&items[1]), Some(&items[2]))
            } else {
                None
            }
        },
        _ => None,
    }
}

/// The JSON form of a list of recent files.
pub fn recent_files_to_json(files: &Vec<RecentFile>) -> (r: JsonValue)
    ensures
        r@ == files_json(recent_files_view(files@)),
{
    let mut items: Vec<JsonValue> = Vec::new();
    let mut i: usize = 0;
    while i < files.len()
        invariant
            i <= files.len(),
            items.len() == i,
            forall|j: int| 0 <= j < i ==> (#[trigger] items@[j])@ == file_json(files@[j]@),
        decreases files.len() - i,
    {
        items.push(recent_file_to_json(&files[i]));
        i += 1;
    }
    proof {
        lemma_array_view(items);
        assert(items_view(items@) =~= files_json(recent_files_view(files@))->Array_0);
    }
    JsonValue::Array(items)
}

/// The list of recent files that a JSON value stands for, if it stands for
/// one.
pub fn recent_files_from_json(value: &JsonValue) -> (r: Option<Vec<RecentFile>>)
    ensures
        optional_files(r) == files_of_json(value@),
{
    match value {
        JsonValue::Array(items) => {
            proof {
                lemma_array_view(*items);
            }
            let ghost models = items_view(items@);
            let mut files: Vec<RecentFile> = Vec::new();
            let mut i: usize = 0;
            while i < items.len()
                invariant
                    i <= items.len(),
                    files.len() == i,
                    models == items_view(items@),
                    value@ == JsonModel::Array(models),
                    forall|j: int|
                        0 <= j < i ==> file_of_json(#[trigger] models[j]) == Some(files@[j]@),
                decreases items.len() - i,
            {
                match recent_file_from_json(&items[i]) {
                    Some(file) => {
                        files.push(file);
                    },
                    None => {
                        assert(file_of_json(models[i as int]) is None);
                        return None;
                    },
                }
                i += 1;
            }
            assert(recent_files_view(files@) =~= models.map_values(
                |item: JsonModel| file_of_json(item)->0,
            ));
            Some(files)
        },
        _ => None,
    }
}

} // verus!
