//! The backend of a desktop note editor, without its I/O: the JSON documents
//! of its stores, the typed accessors over them, the recent-files list, the
//! decoding of pasted images, and the planning of uploads. The host opens and
//! writes the stores, reads and writes files, and talks to the network.

pub mod error;
pub mod events;
pub mod image;
pub mod json;
pub mod persistence;
pub mod recent;
pub mod s3;
pub mod store;
pub mod tree;
pub mod types;
pub mod workspace_commands;

pub use error::{CommandError, ErrorKind};
pub use events::{a_function_with_a_result, scoop_update};
pub use image::{
    decode_base64, decode_image, identifier, save_image, DecodedImage, ImageFile,
};
pub use json::{JsonNumber, JsonValue};
pub use persistence::{
    get_settings, get_workspace_state, save_settings, save_workspace_state, SETTINGS_STORE,
};
pub use recent::{push_recent, RECENT_LIMIT};
pub use s3::{upload_image_to_s3, upload_reply, S3Config, UploadRequest, S3_CONFIG_FILE};
pub use store::Store;
pub use tree::{
    list_directory_tree, open_folder, opened_folder, read_failure, DirEntry, FileNode,
    OpenedFolder, TreeWalk,
};
pub use types::{RecentFile, SettingsData, Shortcuts, WorkspaceData};
pub use workspace_commands::{
    add_recent_file, get_current_file_path, get_current_folder_path, get_recent_files,
    set_current_file_path, set_current_folder_path, WORKSPACE_STORE,
};
