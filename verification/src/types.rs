//! The typed records of the application: workspace state, recent files, and
//! the settings with their defaults.

use vstd::prelude::*;

verus! {

/// A file the user opened, with the time of the last access in seconds since
/// the Unix epoch.
#[derive(Debug, PartialEq, Eq)]
pub struct RecentFile {
    pub path: String,
    pub name: String,
    pub accessed_at: u64,
}

/// The mathematical value of a `RecentFile`.
pub struct RecentFileModel {
    pub path: Seq<char>,
    pub name: Seq<char>,
    pub accessed_at: u64,
}

impl View for RecentFile {
    type V = RecentFileModel;

    open spec fn view(&self) -> RecentFileModel {
        RecentFileModel { path: self.path@, name: self.name@, accessed_at: self.accessed_at }
    }
}

impl Clone for RecentFile {
    fn clone(&self) -> (r: Self)
        ensures
            r@ == self@,
    {
        RecentFile {
            path: self.path.clone(),
            name: self.name.clone(),
            accessed_at: self.accessed_at,
        }
    }
}

/// The mathematical values of a list of recent files.
pub open spec fn recent_files_view(files: Seq<RecentFile>) -> Seq<RecentFileModel> {
    files.map_values(|f: RecentFile| f@)
}

/// A copy of the list, file by file.
pub fn clone_recent_files(files: &Vec<RecentFile>) -> (r: Vec<RecentFile>)
    ensures
        recent_files_view(r@) == recent_files_view(files@),
{
    let mut copy: Vec<RecentFile> = Vec::new();
    let mut i: usize = 0;
    while i < files.len()
        invariant
            i <= files.len(),
            copy.len() == i,
            forall|j: int| 0 <= j < i ==> (#[trigger] copy@[j])@ == files@[j]@,
        decreases files.len() - i,
    {
        copy.push(files[i].clone());
        i += 1;
    }
    assert(recent_files_view(copy@) =~= recent_files_view(files@));
    copy
}

/// The text of an optional string.
pub open spec fn optional_text(text: Option<String>) -> Option<Seq<char>> {
    match text {
        Some(s) => Some(s@),
        None => None,
    }
}

/// A copy of an optional string.
pub fn clone_optional_text(text: &Option<String>) -> (r: Option<String>)
    ensures
        optional_text(r) == optional_text(*text),
{
    match text {
        Some(s) => Some(s.clone()),
        None => None,
    }
}

/// What the workspace remembers between runs: the open folder, the selected
/// file, and the recently opened files, most recent first.
#[derive(Debug, PartialEq, Eq)]
pub struct WorkspaceData {
    pub folder_path: Option<String>,
    pub selected_file_path: Option<String>,
    pub recent_files: Vec<RecentFile>,
}

/// The mathematical value of a `WorkspaceData`.
pub struct WorkspaceModel {
    pub folder_path: Option<Seq<char>>,
    pub selected_file_path: Option<Seq<char>>,
    pub recent_files: Seq<RecentFileModel>,
}

impl View for WorkspaceData {
    type V = WorkspaceModel;

    open spec fn view(&self) -> WorkspaceModel {
        WorkspaceModel {
            folder_path: optional_text(self.folder_path),
            selected_file_path: optional_text(self.selected_file_path),
            recent_files: recent_files_view(self.recent_files@),
        }
    }
}

impl Default for WorkspaceData {
    /// The workspace of a first run: no folder, no file, no recent files.
    fn default() -> (r: Self)
        ensures
            r@ == (WorkspaceModel {
                folder_path: None,
                selected_file_path: None,
                recent_files: Seq::empty(),
            }),
    {
        let r = WorkspaceData {
            folder_path: None,
            selected_file_path: None,
            recent_files: Vec::new(),
        };
        assert(r@.recent_files =~= Seq::empty());
        r
    }
}

impl Clone for WorkspaceData {
    fn clone(&self) -> (r: Self)
        ensures
            r@ == self@,
    {
        WorkspaceData {
            folder_path: clone_optional_text(&self.folder_path),
            selected_file_path: clone_optional_text(&self.selected_file_path),
            recent_files: clone_recent_files(&self.recent_files),
        }
    }
}

/// The key bindings of the editor. `mod` stands for the platform's command
/// key.
#[derive(Debug, PartialEq, Eq)]
pub struct Shortcuts {
    pub save: String,
    pub new_file: String,
    pub open_file: String,
    pub toggle_sidebar: String,
    pub toggle_command_palette: String,
}

/// The shape of the settings that the application expects. The line height
/// is a single-precision number held by its IEEE-754 bit pattern.
#[derive(Debug, PartialEq, Eq)]
pub struct SettingsData {
    pub theme: String,
    pub locale: String,
    pub font_size: u32,
    pub line_height_bits: u32,
    pub tab_width: u32,
    pub show_line_numbers: bool,
    pub word_wrap: bool,
    pub spell_check: bool,
    pub autosave_enabled: bool,
    pub autosave_interval: u32,
    pub shortcuts: Shortcuts,
    pub remember_window_size: bool,
    pub show_minimap: bool,
}

/// The bit pattern of the single-precision number nearest to 1.6.
pub const DEFAULT_LINE_HEIGHT_BITS: u32 = 0x3fcc_cccd;

impl Default for SettingsData {
    /// The settings of a first run.
    fn default() -> (r: Self)
        ensures
            r.theme@ == "system"@,
            r.locale@ == "en"@,
            r.font_size == 16,
            r.line_height_bits == DEFAULT_LINE_HEIGHT_BITS,
            r.tab_width == 4,
            !r.show_line_numbers,
            r.word_wrap,
            !r.spell_check,
            r.autosave_enabled,
            r.autosave_interval == 5,
            r.shortcuts.save@ == "mod+s"@,
            r.shortcuts.new_file@ == "mod+n"@,
            r.shortcuts.open_file@ == "mod+o"@,
            r.shortcuts.toggle_sidebar@ == "mod+b"@,
            r.shortcuts.toggle_command_palette@ == "mod+shift+p"@,
            r.remember_window_size,
            !r.show_minimap,
    {
        SettingsData {
            theme: "system".to_owned(),
            locale: "en".to_owned(),
            font_size: 16,
            line_height_bits: DEFAULT_LINE_HEIGHT_BITS,
            tab_width: 4,
            show_line_numbers: false,
            word_wrap: true,
            spell_check: false,
            autosave_enabled: true,
            autosave_interval: 5,
            shortcuts: Shortcuts {
                save: "mod+s".to_owned(),
                new_file: "mod+n".to_owned(),
                open_file: "mod+o".to_owned(),
                toggle_sidebar: "mod+b".to_owned(),
                toggle_command_palette: "mod+shift+p".to_owned(),
            },
            remember_window_size: true,
            show_minimap: false,
        }
    }
}

} // verus!
