use editor_backend::{
    a_function_with_a_result, scoop_update, CommandError, ErrorKind, SettingsData, WorkspaceData,
};

#[test]
fn default_settings() {
    let settings = SettingsData::default();
    assert_eq!(settings.theme, "system");
    assert_eq!(settings.locale, "en");
    assert_eq!(settings.font_size, 16);
    assert_eq!(f32::from_bits(settings.line_height_bits), 1.6f32);
    assert_eq!(settings.tab_width, 4);
    assert!(!settings.show_line_numbers);
    assert!(settings.word_wrap);
    assert!(!settings.spell_check);
    assert!(settings.autosave_enabled);
    assert_eq!(settings.autosave_interval, 5);
    assert_eq!(settings.shortcuts.save, "mod+s");
    assert_eq!(settings.shortcuts.new_file, "mod+n");
    assert_eq!(settings.shortcuts.open_file, "mod+o");
    assert_eq!(settings.shortcuts.toggle_sidebar, "mod+b");
    assert_eq!(settings.shortcuts.toggle_command_palette, "mod+shift+p");
    assert!(settings.remember_window_size);
    assert!(!settings.show_minimap);
}

#[test]
fn default_workspace() {
    let workspace = WorkspaceData::default();
    assert_eq!(workspace.folder_path, None);
    assert_eq!(workspace.selected_file_path, None);
    assert!(workspace.recent_files.is_empty());
}

#[test]
fn error_messages_say_what_failed_and_why() {
    let error = CommandError::with_detail(ErrorKind::Io, "Failed to open settings store", "denied");
    assert_eq!(error.kind, ErrorKind::Io);
    assert_eq!(error.message, "Failed to open settings store: denied");
    let plain = CommandError::new(ErrorKind::UserCancelled, "No folder selected");
    assert_eq!(plain.kind, ErrorKind::UserCancelled);
    assert_eq!(plain.message, "No folder selected");
    let empty = CommandError::with_detail(ErrorKind::Remote, "", "");
    assert_eq!(empty.message, ": ");
    let no_directory = CommandError::with_detail(
        ErrorKind::ConfigDirUnavailable,
        "Failed to get config dir",
        "unknown path",
    );
    assert_eq!(no_directory.kind, ErrorKind::ConfigDirUnavailable);
    assert_eq!(no_directory.message, "Failed to get config dir: unknown path");
    assert_ne!(ErrorKind::ConfigDirUnavailable, ErrorKind::Io);
}

#[test]
fn config_directory_reply() {
    assert_eq!(
        a_function_with_a_result(Some("/home/u/.config/app".to_string())),
        "/home/u/.config/app"
    );
    assert_eq!(a_function_with_a_result(None), "Unable to get app config directory");
}

#[test]
fn package_manager_reply() {
    assert_eq!(
        scoop_update(true, "updated".to_string(), "warn".to_string()),
        Ok("updated".to_string())
    );
    assert_eq!(
        scoop_update(false, "partial".to_string(), "failed".to_string()),
        Err("failed".to_string())
    );
}
