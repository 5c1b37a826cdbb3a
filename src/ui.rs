//! State that the desktop client keeps around an upload: which modal dialog is
//! open, and what each dialog answered.
use vstd::prelude::*;

verus! {

/// What a destination picker was opened for.
#[derive(Clone, Copy, Debug, PartialEq, Eq, Structural)]
pub enum ManageDestAction {
    Move,
    Copy,
    Extract,
}

/// The modal dialogs and what they are about.
pub struct DialogState {
    pub show_override: bool,
    pub show_resume: bool,
    pub force_full_upload_once: bool,
    pub show_download_overwrite: bool,
    pub show_move_overwrite: bool,
    pub show_delete_confirm: bool,
    pub pending_delete_target: Option<String>,
    pub show_rename_confirm: bool,
    pub show_archive_confirm: bool,
    pub pending_archive_path: Option<String>,
    pub pending_archive_kind: Option<String>,
    pub pending_archive_trim: bool,
    pub show_archive_overwrite: bool,
    pub archive_overwrite_confirmed: bool,
    pub show_update_restart: bool,
    pub show_update_prompt: bool,
    /// Milliseconds since start-up until which the update prompt stays hidden.
    pub update_prompt_snooze_until: Option<u64>,
    pub show_history_resume: bool,
    pub history_resume_mode: String,
    pub show_profile: bool,
    pub profile_name_input: String,
    pub show_dest_picker: bool,
    pub dest_action: Option<ManageDestAction>,
    pub dest_source_path: Option<String>,
    pub dest_source_name: Option<String>,
}

impl DialogState {
    pub open spec fn spec_any_open(&self) -> bool {
        self.show_override || self.show_resume || self.show_download_overwrite || self.show_move_overwrite
            || self.show_delete_confirm || self.show_rename_confirm || self.show_archive_confirm
            || self.show_archive_overwrite || self.show_update_restart || self.show_update_prompt
            || self.show_history_resume || self.show_profile || self.show_dest_picker
    }

    /// Everything but the open/closed flags.
    pub open spec fn same_content(&self, o: &DialogState) -> bool {
        &&& self.force_full_upload_once == o.force_full_upload_once
        &&& self.pending_delete_target == o.pending_delete_target
        &&& self.pending_archive_path == o.pending_archive_path
        &&& self.pending_archive_kind == o.pending_archive_kind
        &&& self.pending_archive_trim == o.pending_archive_trim
        &&& self.archive_overwrite_confirmed == o.archive_overwrite_confirmed
        &&& self.update_prompt_snooze_until == o.update_prompt_snooze_until
        &&& self.history_resume_mode == o.history_resume_mode
        &&& self.profile_name_input == o.profile_name_input
        &&& self.dest_action == o.dest_action
        &&& self.dest_source_path == o.dest_source_path
        &&& self.dest_source_name == o.dest_source_name
    }

    /// All dialogs closed; archives are trimmed and overwrites confirmed by
    /// default, and history resumes by size.
    pub fn new() -> (r: Self)
        ensures
            !r.spec_any_open(),
            r.pending_archive_trim,
            r.archive_overwrite_confirmed,
            r.history_resume_mode@ == "size"@,
            !r.force_full_upload_once,
            r.pending_delete_target is None,
            r.pending_archive_path is None,
            r.pending_archive_kind is None,
            r.update_prompt_snooze_until is None,
            r.profile_name_input@.len() == 0,
            r.dest_action is None,
            r.dest_source_path is None,
            r.dest_source_name is None,
    {
        DialogState {
            show_override: false,
            show_resume: false,
            force_full_upload_once: false,
            show_download_overwrite: false,
            show_move_overwrite: false,
            show_delete_confirm: false,
            pending_delete_target: None,
            show_rename_confirm: false,
            show_archive_confirm: false,
            pending_archive_path: None,
            pending_archive_kind: None,
            pending_archive_trim: true,
            show_archive_overwrite: false,
            archive_overwrite_confirmed: true,
            show_update_restart: false,
            show_update_prompt: false,
            update_prompt_snooze_until: None,
            show_history_resume: false,
            history_resume_mode: String::from_str("size"),
            show_profile: false,
            profile_name_input: String::new(),
            show_dest_picker: false,
            dest_action: None,
            dest_source_path: None,
            dest_source_name: None,
        }
    }

    /// Whether any modal dialog is open.
    pub fn any_open(&self) -> (r: bool)
        ensures
            r == self.spec_any_open(),
    {
        self.show_override || self.show_resume || self.show_download_overwrite || self.show_move_overwrite
            || self.show_delete_confirm || self.show_rename_confirm || self.show_archive_confirm
            || self.show_archive_overwrite || self.show_update_restart || self.show_update_prompt
            || self.show_history_resume || self.show_profile || self.show_dest_picker
    }

    /// Closes every dialog, keeping what they were about.
    pub fn close_all(&mut self)
        ensures
            !final(self).spec_any_open(),
            final(self).same_content(old(self)),
    {
        self.show_override = false;
        self.show_resume = false;
        self.show_download_overwrite = false;
        self.show_move_overwrite = false;
        self.show_delete_confirm = false;
        self.show_rename_confirm = false;
        self.show_archive_confirm = false;
        self.show_archive_overwrite = false;
        self.show_update_restart = false;
        self.show_update_prompt = false;
        self.show_history_resume = false;
        self.show_profile = false;
        self.show_dest_picker = false;
    }

    /// Opens the archive confirmation for `path` of kind `kind`, trimming by default.
    pub fn open_archive_confirm(&mut self, path: &str, kind: &str)
        ensures
            final(self).show_archive_confirm,
            final(self).pending_archive_trim,
            final(self).pending_archive_path matches Some(p) && p@ == path@,
            final(self).pending_archive_kind matches Some(k) && k@ == kind@,
            final(self).show_dest_picker == old(self).show_dest_picker,
            final(self).dest_action == old(self).dest_action,
    {
        self.pending_archive_path = Some(String::from_str(path));
        self.pending_archive_kind = Some(String::from_str(kind));
        self.pending_archive_trim = true;
        self.show_archive_confirm = true;
    }

    /// Opens the destination picker for `action` on `src_path` (named `src_name`).
    pub fn open_dest_picker(&mut self, action: ManageDestAction, src_path: String, src_name: String)
        ensures
            final(self).show_dest_picker,
            final(self).dest_action == Some(action),
            final(self).dest_source_path == Some(src_path),
            final(self).dest_source_name == Some(src_name),
            final(self).show_archive_confirm == old(self).show_archive_confirm,
    {
        self.dest_action = Some(action);
        self.dest_source_path = Some(src_path);
        self.dest_source_name = Some(src_name);
        self.show_dest_picker = true;
    }

    /// Closes the destination picker and forgets what it was for.
    pub fn close_dest_picker(&mut self)
        ensures
            !final(self).show_dest_picker,
            final(self).dest_action is None,
            final(self).dest_source_path is None,
            final(self).dest_source_name is None,
            final(self).show_archive_confirm == old(self).show_archive_confirm,
    {
        self.show_dest_picker = false;
        self.dest_action = None;
        self.dest_source_path = None;
        self.dest_source_name = None;
    }
}

/// Answer of the archive confirmation dialog.
pub enum ArchiveConfirmResponse {
    Continue { path: String, trim: bool },
    Cancel,
    Idle,
}

/// Answer of the archive overwrite dialog.
pub enum ArchiveOverwriteResponse {
    Continue { confirmed: bool },
    Cancel,
    Idle,
}

/// Answer of the delete confirmation dialog.
pub enum DeleteResponse {
    Delete,
    Cancel,
    Idle,
}

/// What the destination picker asked for.
pub enum DestPickerAction {
    GoToPath(String),
    Up,
    Refresh,
    Select { action: ManageDestAction, src: String, dst: String },
    Cancel,
    Idle,
}

/// Answer of the overwrite dialog.
pub enum OverrideResponse {
    Overwrite,
    Cancel,
    Idle,
}

/// Answer of the resume dialog.
pub enum ResumeResponse {
    Resume,
    Overwrite,
    Cancel,
    Idle,
}

/// What the update prompt asked for.
pub enum UpdatePromptAction {
    OpenReleasePage(String),
    UpdateNow,
    Later,
    Idle,
}

/// What the restart-after-update dialog asked for.
pub enum UpdateRestartAction {
    RestartNow,
    Later,
    Idle,
}

/// What was clicked in the header bar.
pub struct HeaderResponse {
    pub coffee_clicked: bool,
    pub theme_toggle_clicked: bool,
}

/// The settings of a profile, kept to notice unsaved changes.
#[derive(Clone, Debug, PartialEq, Eq)]
pub struct ProfileSnapshot {
    pub address: String,
    pub storage: String,
    pub preset_index: usize,
    pub custom_preset_path: String,
    pub connections: usize,
    pub use_temp: bool,
    pub auto_tune_connections: bool,
}

/// What is known of the remote upload service.
pub struct PayloadState {
    pub path: String,
    pub status: String,
    pub version: Option<String>,
    pub is_sending: bool,
    /// Milliseconds since start-up of the last check.
    pub last_check: Option<u64>,
}

impl PayloadState {
    /// Nothing checked yet.
    pub fn new() -> (r: Self)
        ensures
            r.path@.len() == 0,
            r.status@ == "Unknown (not checked)"@,
            r.version is None,
            !r.is_sending,
            r.last_check is None,
    {
        PayloadState {
            path: String::new(),
            status: String::from_str("Unknown (not checked)"),
            version: None,
            is_sending: false,
            last_check: None,
        }
    }
}

} // verus!
